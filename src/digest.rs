//! An append-only byte accumulator whose final value is a SHA-256 digest.
use vstd::prelude::*;

verus! {

/// The hexadecimal SHA-256 digest of a byte sequence.
pub uninterp spec fn sha256_hex(data: Seq<u8>) -> Seq<char>;

/// Relies on shaman's `Sha256` (`input`, then `result_str`): the lowercase
/// hex form of the 32-byte digest of everything that was fed in.
#[verifier::external_body]
fn sha256_hex_of(data: &[u8]) -> (r: String)
    ensures
        r@ == sha256_hex(data@),
        r@.len() == 64,
{
    let mut h = shaman::sha2::Sha256::new();
    shaman::digest::Digest::input(&mut h, data);
    shaman::digest::Digest::result_str(&mut h)
}

/// Everything fed into a cache key, in the order in which it was fed.
pub struct Digest {
    fed: Vec<u8>,
}

impl View for Digest {
    type V = Seq<u8>;

    closed spec fn view(&self) -> Seq<u8> {
        self.fed@
    }
}

impl Digest {
    /// A fresh accumulator that has been fed nothing.
    pub fn new() -> (d: Digest)
        ensures
            d@ == Seq::<u8>::empty(),
    {
        Digest { fed: Vec::new() }
    }

    /// Appends `data` to what has been fed so far.
    pub fn input(&mut self, data: &[u8])
        ensures
            final(self)@ == old(self)@ + data@,
    {
        let ghost start = self.fed@;
        let mut i: usize = 0;
        while i < data.len()
            invariant
                i <= data@.len(),
                self.fed@ == start + data@.subrange(0, i as int),
            decreases data@.len() - i,
        {
            self.fed.push(data[i]);
            i = i + 1;
            proof {
                assert(data@.subrange(0, i as int) =~= data@.subrange(0, i - 1 as int).push(data@[i - 1]));
            }
        }
        proof {
            assert(data@.subrange(0, data@.len() as int) =~= data@);
        }
    }

    /// Appends the bytes of `data` from index `from` up to `to`.
    pub fn input_range(&mut self, data: &[u8], from: usize, to: usize)
        requires
            from <= to <= data@.len(),
        ensures
            final(self)@ == old(self)@ + data@.subrange(from as int, to as int),
    {
        let ghost start = self.fed@;
        let mut i: usize = from;
        while i < to
            invariant
                from <= i <= to <= data@.len(),
                self.fed@ == start + data@.subrange(from as int, i as int),
            decreases to - i,
        {
            self.fed.push(data[i]);
            i = i + 1;
            proof {
                assert(data@.subrange(from as int, i as int) =~= data@.subrange(from as int, i - 1 as int).push(data@[i - 1]));
            }
        }
    }

    /// The bytes fed so far.
    pub fn bytes(&self) -> (r: &[u8])
        ensures
            r@ == self@,
    {
        self.fed.as_slice()
    }

    /// The content address: the hex SHA-256 digest of everything fed so far.
    pub fn result_str(&self) -> (r: String)
        ensures
            r@ == sha256_hex(self@),
    {
        sha256_hex_of(self.fed.as_slice())
    }
}

} // verus!
