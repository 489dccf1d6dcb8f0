//! Small text helpers shared by the engines: path joining, quoting and
//! decimal rendering.
use vstd::prelude::*;
use vstd::string::*;

verus! {

/// Joins `p` onto `base` as a filesystem path does: an absolute `p`
/// replaces `base`, a relative one is appended after a separator unless
/// `base` already ends with one.
pub open spec fn join_path(base: Seq<char>, p: Seq<char>) -> Seq<char> {
    if p.len() > 0 && p[0] == '/' {
        p
    } else if base.len() > 0 && base.last() == '/' {
        base + p
    } else {
        base + "/"@ + p
    }
}

/// How a character shows between double quotes: quotes, backslashes,
/// newlines, carriage returns, tabs and NUL are escaped with a backslash.
pub open spec fn escape_char(c: char) -> Seq<char> {
    if c == '"' {
        seq!['\\', '"']
    } else if c == '\\' {
        seq!['\\', '\\']
    } else if c == '\n' {
        seq!['\\', 'n']
    } else if c == '\r' {
        seq!['\\', 'r']
    } else if c == '\t' {
        seq!['\\', 't']
    } else if c == '\0' {
        seq!['\\', '0']
    } else {
        seq![c]
    }
}

/// `s` with each character escaped.
pub open spec fn escaped(s: Seq<char>) -> Seq<char>
    decreases s.len(),
{
    if s.len() == 0 {
        Seq::empty()
    } else {
        escaped(s.drop_last()) + escape_char(s.last())
    }
}

/// `s` escaped and between double quotes, as debug output shows a string.
pub open spec fn quoted(s: Seq<char>) -> Seq<char> {
    "\""@ + escaped(s) + "\""@
}

pub fn join(base: &str, p: &str) -> (r: String)
    ensures
        r@ == join_path(base@, p@),
{
    if p.unicode_len() > 0 && p.get_char(0) == '/' {
        String::from_str(p)
    } else if base.unicode_len() > 0 && base.get_char(base.unicode_len() - 1) == '/' {
        let mut r = String::from_str(base);
        r.append(p);
        r
    } else {
        let mut r = String::from_str(base);
        r.append("/");
        r.append(p);
        r
    }
}

pub fn quote(s: &str) -> (r: String)
    ensures
        r@ == quoted(s@),
{
    let mut r = String::from_str("\"");
    let ghost start = r@;
    let n = s.unicode_len();
    let mut i: usize = 0;
    while i < n
        invariant
            n == s@.len(),
            i <= n,
            r@ == start + escaped(s@.subrange(0, i as int)),
        decreases n - i,
    {
        let c = s.get_char(i);
        let ghost before = r@;
        if c == '"' {
            push_char(&mut r, '\\');
            push_char(&mut r, '"');
        } else if c == '\\' {
            push_char(&mut r, '\\');
            push_char(&mut r, '\\');
        } else if c == '\n' {
            push_char(&mut r, '\\');
            push_char(&mut r, 'n');
        } else if c == '\r' {
            push_char(&mut r, '\\');
            push_char(&mut r, 'r');
        } else if c == '\t' {
            push_char(&mut r, '\\');
            push_char(&mut r, 't');
        } else if c == '\0' {
            push_char(&mut r, '\\');
            push_char(&mut r, '0');
        } else {
            push_char(&mut r, c);
        }
        assert(s@.subrange(0, i + 1).drop_last() =~= s@.subrange(0, i as int));
        assert(r@ =~= before + escape_char(c));
        i = i + 1;
    }
    assert(s@.subrange(0, n as int) =~= s@);
    r.append("\"");
    r
}

/// The decimal digits of `n`, most significant first.
pub open spec fn digits(n: nat) -> Seq<char>
    decreases n,
{
    if n < 10 {
        seq![digit_char(n)]
    } else {
        digits(n / 10) + seq![digit_char(n % 10)]
    }
}

pub open spec fn digit_char(d: nat) -> char {
    if d < 10 {
        (('0' as u8) + d) as char
    } else {
        '?'
    }
}

/// The decimal form of `n`, with a leading `-` when it is negative.
pub open spec fn decimal(n: int) -> Seq<char> {
    if n < 0 {
        seq!['-'] + digits((-n) as nat)
    } else {
        digits(n as nat)
    }
}

fn digit(d: u64) -> (c: char)
    requires
        d < 10,
    ensures
        c == digit_char(d as nat),
{
    let b: u8 = 48u8 + (d as u8);
    b as char
}

/// Renders `n` in decimal.
pub fn decimal_string(n: i32) -> (r: String)
    ensures
        r@ == decimal(n as int),
{
    let neg = n < 0;
    let mut m: u64 = if neg { (0i64 - (n as i64)) as u64 } else { n as u64 };
    let ghost total = m as nat;
    let mut rev: Vec<char> = Vec::new();
    rev.push(digit(m % 10));
    m = m / 10;
    proof {
        assert(rev@.reverse() =~= seq![digit_char(total % 10)]);
        if total >= 10 {
            assert(digits(total) == digits(m as nat) + rev@.reverse());
        } else {
            assert(digits(total) == rev@.reverse());
        }
    }
    while m > 0
        invariant
            m as nat <= total,
            m > 0 ==> digits(total) == digits(m as nat) + rev@.reverse(),
            m == 0 ==> digits(total) == rev@.reverse(),
        decreases m,
    {
        let ghost before = rev@;
        let ghost mm = m as nat;
        rev.push(digit(m % 10));
        m = m / 10;
        proof {
            assert(rev@.reverse() =~= seq![digit_char(mm % 10)] + before.reverse());
            if mm >= 10 {
                assert(digits(mm) == digits(m as nat) + seq![digit_char(mm % 10)]);
                assert(digits(total) =~= digits(m as nat) + rev@.reverse());
            } else {
                assert(m == 0);
                assert(digits(total) =~= rev@.reverse());
            }
        }
    }
    let mut r = String::new();
    if neg {
        r.append("-");
    }
    let ghost prefix = r@;
    let mut i: usize = rev.len();
    while i > 0
        invariant
            i <= rev@.len(),
            r@ == prefix + rev@.subrange(i as int, rev@.len() as int).reverse(),
        decreases i,
    {
        i = i - 1;
        let c = rev[i];
        let ghost before = r@;
        push_char(&mut r, c);
        proof {
            assert(rev@.subrange(i as int, rev@.len() as int).reverse() =~= rev@.subrange(
                i + 1,
                rev@.len() as int,
            ).reverse().push(c));
        }
    }
    proof {
        assert(rev@.subrange(0, rev@.len() as int) =~= rev@);
        reveal_strlit("-");
        if neg {
            assert(prefix =~= seq!['-']);
        } else {
            assert(prefix =~= Seq::<char>::empty());
        }
        assert(r@ =~= decimal(n as int));
    }
    r
}

/// Relies on `String::push`: appends one character.
#[verifier::external_body]
fn push_char(s: &mut String, c: char)
    ensures
        final(s)@ == old(s)@.push(c),
{
    s.push(c)
}

} // verus!
