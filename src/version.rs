//! Cache keys for build recipes: a recursive, order-sensitive digest over a
//! container's setup steps and everything they reference.
use vstd::prelude::*;
use vstd::string::*;
use vstd::utf8::{encode_utf8, valid_utf8};
use crate::digest::{Digest, sha256_hex};
use crate::text::{join, join_path, quote, quoted};

verus! {

/// How deeply container references may nest before hashing gives up.
/// Each container or sub-recipe reference takes one level; the steps of a
/// referenced container are hashed with one level fewer. Past the limit
/// the reference hashes to an error, which also stops reference cycles.
pub const MAX_DEPTH: u64 = 64;

/// What hashing a step concluded.
#[derive(Debug)]
pub enum HashResult {
    /// The step was fed into the digest.
    Hashed,
    /// The step cannot be versioned: the container must always be rebuilt.
    New,
    /// Hashing failed; the message says why.
    Error(String),
}

/// The mathematical form of a `HashResult`.
pub enum Outcome {
    Hashed,
    New,
    Error(Seq<char>),
}

impl View for HashResult {
    type V = Outcome;

    open spec fn view(&self) -> Outcome {
        match self {
            HashResult::Hashed => Outcome::Hashed,
            HashResult::New => Outcome::New,
            HashResult::Error(e) => Outcome::Error(e@),
        }
    }
}

/// Where a sub-recipe is read from.
pub enum Source {
    /// The built root of another container, found by its version.
    Container(String),
    /// A version-control repository (not supported).
    Git(String),
    /// The working directory.
    Directory,
}

/// A reference to a container defined in another recipe file.
pub struct SubConfig {
    pub source: Source,
    pub path: String,
    pub container: String,
}

/// One step of a container's setup.
pub enum Builder {
    /// A package requirements file (Python 2).
    Py2Requirements(String),
    /// A package requirements file (Python 3).
    Py3Requirements(String),
    /// A file whose raw contents the build depends on.
    Depends(String),
    /// Another container of the same recipe.
    Container(String),
    /// A container of another recipe.
    SubConfig(SubConfig),
    /// Cache directory mounts: path and cache name.
    CacheDirs(Vec<(String, String)>),
    /// Literal text files: path and contents.
    Text(Vec<(String, String)>),
    /// Any other step, as its canonical encoding.
    Other(Vec<u8>),
}

/// A container: its setup steps, in order.
pub struct ContainerConfig {
    pub setup: Vec<Builder>,
}

/// A recipe: containers by name.
pub struct Config {
    pub containers: Vec<(String, ContainerConfig)>,
}

/// What hashing reads from outside the recipe: file contents by absolute
/// path, container versions by name, and loaded recipes by path. Each entry
/// holds either the value or the message of the failure to obtain it.
pub struct Sources {
    pub files: Vec<(String, Result<Vec<u8>, String>)>,
    pub versions: Vec<(String, Result<String, String>)>,
    pub recipes: Vec<(String, Result<Config, String>)>,
}

/// The position of the first entry keyed `key` at or after `i`, or -1.
pub open spec fn key_pos<T>(s: Seq<(String, T)>, key: Seq<char>, i: int) -> int
    decreases s.len() - i,
{
    if i < 0 || i >= s.len() {
        -1
    } else if s[i].0@ == key {
        i
    } else {
        key_pos(s, key, i + 1)
    }
}

pub(crate) fn find_key<T>(v: &Vec<(String, T)>, key: &String) -> (r: Option<usize>)
    ensures
        match r {
            Some(i) => key_pos(v@, key@, 0) == i as int && i < v@.len(),
            None => key_pos(v@, key@, 0) == -1,
        },
{
    let mut i: usize = 0;
    while i < v.len()
        invariant
            i <= v@.len(),
            key_pos(v@, key@, 0) == key_pos(v@, key@, i as int),
        decreases v@.len() - i,
    {
        if v[i].0 == *key {
            return Some(i);
        }
        i = i + 1;
    }
    None
}

/// A workdir-relative file name as an absolute path.
pub open spec fn work_path(f: Seq<char>) -> Seq<char> {
    join_path("/work"@, f)
}

/// The built root of a container with the given version, joined with `p`.
pub open spec fn root_path(version: Seq<char>, p: Seq<char>) -> Seq<char> {
    join_path(join_path(join_path("/vagga/base/.roots"@, version), "root"@), p)
}

/// The contents of the file at `path`, or the message of the failure.
pub open spec fn read_file(src: Sources, path: Seq<char>) -> Result<Seq<u8>, Seq<char>> {
    let i = key_pos(src.files@, path, 0);
    if i < 0 {
        Err("Can't read file: no such file "@ + quoted(path))
    } else {
        match src.files@[i].1 {
            Ok(c) => Ok(c@),
            Err(e) => Err("Can't read file: "@ + e@),
        }
    }
}

/// The one-byte whitespace characters that `trim` removes.
pub open spec fn is_ws(b: u8) -> bool {
    b == 32 || (9 <= b && b <= 13)
}

/// Whether three bytes encode a whitespace character: U+1680, U+2000 to
/// U+200A, U+2028, U+2029, U+202F, U+205F or U+3000.
pub open spec fn is_ws3(x: u8, y: u8, z: u8) -> bool {
    (x == 0xE1 && y == 0x9A && z == 0x80) || (x == 0xE2 && y == 0x80 && ((0x80 <= z && z <= 0x8A)
        || z == 0xA8 || z == 0xA9 || z == 0xAF)) || (x == 0xE2 && y == 0x81 && z == 0x9F) || (x == 0xE3
        && y == 0x80 && z == 0x80)
}

/// Whether two bytes encode a whitespace character: U+0085 or U+00A0.
pub open spec fn is_ws2(x: u8, y: u8) -> bool {
    x == 0xC2 && (y == 0x85 || y == 0xA0)
}

/// The length of the whitespace character that starts at `i` within
/// `[i, e)`, or 0 if none does.
pub open spec fn ws_at(c: Seq<u8>, i: int, e: int) -> int {
    if i < e && is_ws(c[i]) {
        1
    } else if i + 1 < e && is_ws2(c[i], c[i + 1]) {
        2
    } else if i + 2 < e && is_ws3(c[i], c[i + 1], c[i + 2]) {
        3
    } else {
        0
    }
}

/// The length of the whitespace character that ends at `e` within
/// `[a, e)`, or 0 if none does.
pub open spec fn ws_before(c: Seq<u8>, a: int, e: int) -> int {
    if a < e && is_ws(c[e - 1]) {
        1
    } else if a + 1 < e && is_ws2(c[e - 2], c[e - 1]) {
        2
    } else if a + 2 < e && is_ws3(c[e - 3], c[e - 2], c[e - 1]) {
        3
    } else {
        0
    }
}

/// Where `[i, e)` starts once leading whitespace is dropped.
pub open spec fn first_non_ws(c: Seq<u8>, i: int, e: int) -> int
    decreases e - i,
{
    if i >= e {
        e
    } else if ws_at(c, i, e) > 0 {
        first_non_ws(c, i + ws_at(c, i, e), e)
    } else {
        i
    }
}

/// Where `[a, e)` ends once trailing whitespace is dropped.
pub open spec fn end_non_ws(c: Seq<u8>, a: int, e: int) -> int
    decreases e - a,
{
    if e <= a {
        a
    } else if ws_before(c, a, e) > 0 {
        end_non_ws(c, a, e - ws_before(c, a, e))
    } else {
        e
    }
}

/// What the line `c[s..e]` of a requirements file contributes: the line
/// trimmed, or nothing if that is empty or a comment.
pub open spec fn line_bytes(c: Seq<u8>, s: int, e: int) -> Seq<u8> {
    let a = first_non_ws(c, s, e);
    if a >= e || c[a] == 35 {
        Seq::empty()
    } else {
        c.subrange(a, end_non_ws(c, a, e))
    }
}

/// What the rest of a requirements file contributes, scanning from `i`
/// within the line that starts at `s`.
pub open spec fn manifest_from(c: Seq<u8>, s: int, i: int) -> Seq<u8>
    decreases c.len() - i,
{
    if i >= c.len() {
        line_bytes(c, s, c.len() as int)
    } else if c[i] == 10 {
        line_bytes(c, s, i) + manifest_from(c, i + 1, i + 1)
    } else {
        manifest_from(c, s, i + 1)
    }
}

/// What a requirements file contributes: its lines trimmed, in order,
/// without blank lines and comments.
pub open spec fn manifest_bytes(c: Seq<u8>) -> Seq<u8> {
    manifest_from(c, 0, 0)
}

fn ws_at_exec(c: &[u8], i: usize, e: usize) -> (r: usize)
    requires
        e <= c@.len(),
    ensures
        r as int == ws_at(c@, i as int, e as int),
{
    if i < e && (c[i] == 32 || (9 <= c[i] && c[i] <= 13)) {
        1
    } else if i < e && e - i > 1 && c[i] == 0xC2 && (c[i + 1] == 0x85 || c[i + 1] == 0xA0) {
        2
    } else if i < e && e - i > 2 && ws3(c[i], c[i + 1], c[i + 2]) {
        3
    } else {
        0
    }
}

fn ws_before_exec(c: &[u8], a: usize, e: usize) -> (r: usize)
    requires
        e <= c@.len(),
    ensures
        r as int == ws_before(c@, a as int, e as int),
{
    if a < e && (c[e - 1] == 32 || (9 <= c[e - 1] && c[e - 1] <= 13)) {
        1
    } else if a < e && e - a > 1 && c[e - 2] == 0xC2 && (c[e - 1] == 0x85 || c[e - 1] == 0xA0) {
        2
    } else if a < e && e - a > 2 && ws3(c[e - 3], c[e - 2], c[e - 1]) {
        3
    } else {
        0
    }
}

fn ws3(x: u8, y: u8, z: u8) -> (r: bool)
    ensures
        r == is_ws3(x, y, z),
{
    (x == 0xE1 && y == 0x9A && z == 0x80) || (x == 0xE2 && y == 0x80 && ((0x80 <= z && z <= 0x8A)
        || z == 0xA8 || z == 0xA9 || z == 0xAF)) || (x == 0xE2 && y == 0x81 && z == 0x9F) || (x == 0xE3
        && y == 0x80 && z == 0x80)
}

fn hash_line(c: &[u8], s: usize, e: usize, digest: &mut Digest)
    requires
        s <= e <= c@.len(),
    ensures
        final(digest)@ == old(digest)@ + line_bytes(c@, s as int, e as int),
{
    let mut a: usize = s;
    let mut w: usize = ws_at_exec(c, a, e);
    while w > 0
        invariant
            s <= a <= e <= c@.len(),
            w as int == ws_at(c@, a as int, e as int),
            first_non_ws(c@, s as int, e as int) == first_non_ws(c@, a as int, e as int),
        decreases e - a,
    {
        a = a + w;
        w = ws_at_exec(c, a, e);
    }
    if a < e && c[a] != 35 {
        let mut b: usize = e;
        let mut v: usize = ws_before_exec(c, a, b);
        while v > 0
            invariant
                s <= a < e <= c@.len(),
                a <= b <= e,
                v as int == ws_before(c@, a as int, b as int),
                end_non_ws(c@, a as int, e as int) == end_non_ws(c@, a as int, b as int),
            decreases b,
        {
            b = b - v;
            v = ws_before_exec(c, a, b);
        }
        digest.input_range(c, a, b);
    } else {
        assert(line_bytes(c@, s as int, e as int) =~= Seq::<u8>::empty());
    }
}

fn hash_manifest(c: &[u8], digest: &mut Digest)
    ensures
        final(digest)@ == old(digest)@ + manifest_bytes(c@),
{
    let ghost start = digest@;
    let mut s: usize = 0;
    let mut i: usize = 0;
    assert(start + manifest_bytes(c@) =~= digest@ + manifest_from(c@, 0, 0));
    while i < c.len()
        invariant
            s <= i <= c@.len(),
            start + manifest_bytes(c@) == digest@ + manifest_from(c@, s as int, i as int),
        decreases c@.len() - i,
    {
        if c[i] == 10 {
            let ghost before = digest@;
            hash_line(c, s, i, digest);
            assert(before + manifest_from(c@, s as int, i as int) =~= digest@ + manifest_from(
                c@,
                i + 1,
                i + 1,
            ));
            i = i + 1;
            s = i;
        } else {
            i = i + 1;
        }
    }
    let ghost before = digest@;
    hash_line(c, s, c.len(), digest);
    assert(before + manifest_from(c@, s as int, i as int) =~= digest@);
}

/// The bytes of a string, as `as_bytes` gives them.
pub open spec fn str_bytes(s: Seq<char>) -> Seq<u8> {
    encode_utf8(s)
}

/// What one entry of a key-value step contributes.
pub open spec fn entry_bytes(e: (String, String)) -> Seq<u8> {
    str_bytes(e.0@) + seq![0u8] + str_bytes(e.1@) + seq![0u8]
}

/// What the entries contribute, in the order given.
pub open spec fn entries_bytes(s: Seq<(String, String)>) -> Seq<u8>
    decreases s.len(),
{
    if s.len() == 0 {
        Seq::empty()
    } else {
        entries_bytes(s.drop_last()) + entry_bytes(s.last())
    }
}

fn hash_entries(v: &Vec<(String, String)>, digest: &mut Digest)
    ensures
        final(digest)@ == old(digest)@ + entries_bytes(v@),
{
    let ghost start = digest@;
    let mut i: usize = 0;
    while i < v.len()
        invariant
            i <= v@.len(),
            digest@ == start + entries_bytes(v@.subrange(0, i as int)),
        decreases v@.len() - i,
    {
        let zero: [u8; 1] = [0u8];
        digest.input(v[i].0.as_str().as_bytes());
        digest.input(zero.as_slice());
        digest.input(v[i].1.as_str().as_bytes());
        digest.input(zero.as_slice());
        proof {
            let p = v@.subrange(0, i + 1);
            assert(p.drop_last() =~= v@.subrange(0, i as int));
            assert(zero@ =~= seq![0u8]);
        }
        i = i + 1;
        assert(digest@ =~= start + entries_bytes(v@.subrange(0, i as int)));
    }
    assert(v@.subrange(0, v@.len() as int) =~= v@);
}

/// Byte-wise lexicographic order on `a[i..]` and `b[i..]`.
pub open spec fn bytes_lt_from(a: Seq<u8>, b: Seq<u8>, i: int) -> bool
    decreases a.len() - i,
{
    if i >= a.len() {
        i < b.len()
    } else if i >= b.len() {
        false
    } else if a[i] != b[i] {
        a[i] < b[i]
    } else {
        bytes_lt_from(a, b, i + 1)
    }
}

/// Whether the key of `x` sorts strictly before the key of `y`.
pub open spec fn key_lt(x: (String, String), y: (String, String)) -> bool {
    bytes_lt_from(str_bytes(x.0@), str_bytes(y.0@), 0)
}

/// Where `x` goes in `r` (searching from `j`): before the first entry whose
/// key sorts after it.
pub open spec fn insert_pos(r: Seq<(String, String)>, x: (String, String), j: int) -> int
    decreases r.len() - j,
{
    if j < 0 || j >= r.len() {
        r.len() as int
    } else if key_lt(x, r[j]) {
        j
    } else {
        insert_pos(r, x, j + 1)
    }
}

/// The entries in ascending key order; entries with equal keys keep their
/// relative order.
pub open spec fn sorted_entries(s: Seq<(String, String)>) -> Seq<(String, String)>
    decreases s.len(),
{
    if s.len() == 0 {
        s
    } else {
        let r = sorted_entries(s.drop_last());
        r.insert(insert_pos(r, s.last(), 0), s.last())
    }
}

fn bytes_less(a: &[u8], b: &[u8]) -> (r: bool)
    ensures
        r == bytes_lt_from(a@, b@, 0),
{
    let mut i: usize = 0;
    while i < a.len() && i < b.len() && a[i] == b[i]
        invariant
            i <= a@.len(),
            i <= b@.len(),
            bytes_lt_from(a@, b@, 0) == bytes_lt_from(a@, b@, i as int),
        decreases a@.len() - i,
    {
        i = i + 1;
    }
    if i >= a.len() {
        i < b.len()
    } else if i >= b.len() {
        false
    } else {
        a[i] < b[i]
    }
}

/// The entries sorted by key, as `sorted_entries` describes.
pub fn sort_entries(v: &Vec<(String, String)>) -> (r: Vec<(String, String)>)
    ensures
        r@ == sorted_entries(v@),
{
    let mut r: Vec<(String, String)> = Vec::new();
    let mut i: usize = 0;
    assert(v@.subrange(0, 0) =~= Seq::<(String, String)>::empty());
    while i < v.len()
        invariant
            i <= v@.len(),
            r@ == sorted_entries(v@.subrange(0, i as int)),
        decreases v@.len() - i,
    {
        let x = (v[i].0.clone(), v[i].1.clone());
        assert(x == v@[i as int]);
        let mut j: usize = 0;
        while j < r.len() && !bytes_less(x.0.as_str().as_bytes(), r[j].0.as_str().as_bytes())
            invariant
                j <= r@.len(),
                insert_pos(r@, x, 0) == insert_pos(r@, x, j as int),
            decreases r@.len() - j,
        {
            j = j + 1;
        }
        proof {
            let p = v@.subrange(0, i + 1);
            assert(p.drop_last() =~= v@.subrange(0, i as int));
            assert(p.last() == x);
        }
        r.insert(j, x);
        i = i + 1;
    }
    assert(v@.subrange(0, v@.len() as int) =~= v@);
    r
}

/// The message for a container that the recipe does not define.
pub open spec fn not_found(name: Seq<char>) -> Seq<char> {
    "Container "@ + quoted(name) + " not found"@
}

/// The message for a container that a sub-recipe does not define.
pub open spec fn not_found_in(name: Seq<char>, path: Seq<char>) -> Seq<char> {
    "Container "@ + quoted(name) + " not found in "@ + quoted(path)
}

/// The message for a sub-recipe that could not be loaded.
pub open spec fn no_recipe(path: Seq<char>) -> Seq<char> {
    "Can't read config: no such file "@ + quoted(path)
}

/// The message for references nested deeper than `MAX_DEPTH`.
pub open spec fn too_deep() -> Seq<char> {
    "Container references nest too deeply"@
}

/// The message for a version-control source.
pub open spec fn unsupported_source() -> Seq<char> {
    "Version-control sources are not supported"@
}

/// An error outcome prefixed with the name of the container it arose in.
pub open spec fn qualified(o: Outcome, name: Seq<char>) -> Outcome {
    match o {
        Outcome::Error(e) => Outcome::Error(quoted(name) + ": "@ + e),
        other => other,
    }
}

/// Hashing the setup of a container named `name`, with `depth` levels of
/// nesting left: its steps in order, an error prefixed with the name.
pub open spec fn setup_spec(
    setup: Seq<Builder>,
    name: Seq<char>,
    cfg: Config,
    src: Sources,
    depth: nat,
) -> (Outcome, Seq<u8>)
    decreases depth, 0int, 0int,
{
    if depth == 0 {
        (Outcome::Error(too_deep()), Seq::empty())
    } else {
        let r = steps_spec(setup, 0, cfg, src, (depth - 1) as nat);
        (qualified(r.0, name), r.1)
    }
}

/// Hashing the steps from `i` on: each is fed in turn until one is not
/// `Hashed`, whose outcome then ends the whole.
pub open spec fn steps_spec(
    setup: Seq<Builder>,
    i: int,
    cfg: Config,
    src: Sources,
    depth: nat,
) -> (Outcome, Seq<u8>)
    decreases depth, 2int, setup.len() - i,
{
    if i < 0 || i >= setup.len() {
        (Outcome::Hashed, Seq::empty())
    } else {
        let r = step_spec(setup[i], cfg, src, depth);
        match r.0 {
            Outcome::Hashed => {
                let rest = steps_spec(setup, i + 1, cfg, src, depth);
                (rest.0, r.1 + rest.1)
            },
            _ => r,
        }
    }
}

/// Hashing the container `sc.container` of the recipe loaded from `path`.
/// Its steps refer to containers of `cfg`, the recipe being versioned.
pub open spec fn sub_recipe_spec(
    sc: SubConfig,
    path: Seq<char>,
    cfg: Config,
    src: Sources,
    depth: nat,
) -> (Outcome, Seq<u8>)
    decreases depth, 0int, 1int,
{
    let ri = key_pos(src.recipes@, path, 0);
    if ri < 0 {
        (Outcome::Error(no_recipe(path)), Seq::empty())
    } else {
        match src.recipes@[ri].1 {
            Err(e) => (Outcome::Error(e@), Seq::empty()),
            Ok(sub) => {
                let ci = key_pos(sub.containers@, sc.container@, 0);
                if ci < 0 {
                    (Outcome::Error(not_found_in(sc.container@, sc.path@)), Seq::empty())
                } else {
                    setup_spec(sub.containers@[ci].1.setup@, sc.container@, cfg, src, depth)
                }
            },
        }
    }
}

/// What hashing step `b` concludes, and the bytes it feeds into the digest.
pub open spec fn step_spec(b: Builder, cfg: Config, src: Sources, depth: nat) -> (Outcome, Seq<u8>)
    decreases depth, 1int, 0int,
{
    match b {
        Builder::Py2Requirements(f) => manifest_spec(src, f@),
        Builder::Py3Requirements(f) => manifest_spec(src, f@),
        Builder::Depends(f) => match read_file(src, work_path(f@)) {
            Ok(c) => (Outcome::Hashed, c),
            Err(e) => (Outcome::Error(e), Seq::empty()),
        },
        Builder::Container(name) => {
            let i = key_pos(cfg.containers@, name@, 0);
            if i < 0 {
                (Outcome::Error(not_found(name@)), Seq::empty())
            } else {
                setup_spec(cfg.containers@[i].1.setup@, name@, cfg, src, depth)
            }
        },
        Builder::SubConfig(sc) => match sc.source {
            Source::Container(c) => {
                let vi = key_pos(src.versions@, c@, 0);
                if vi < 0 {
                    (Outcome::New, Seq::empty())
                } else {
                    match src.versions@[vi].1 {
                        Ok(v) => sub_recipe_spec(sc, root_path(v@, sc.path@), cfg, src, depth),
                        Err(_) => (Outcome::New, Seq::empty()),
                    }
                }
            },
            Source::Git(_) => (Outcome::Error(unsupported_source()), Seq::empty()),
            Source::Directory => sub_recipe_spec(sc, work_path(sc.path@), cfg, src, depth),
        },
        Builder::CacheDirs(m) => (Outcome::Hashed, entries_bytes(sorted_entries(m@))),
        Builder::Text(m) => (Outcome::Hashed, entries_bytes(sorted_entries(m@))),
        Builder::Other(enc) => (Outcome::Hashed, enc@),
    }
}

/// The message for a requirements file that is not text.
pub open spec fn not_utf8() -> Seq<char> {
    "Can't read file: stream did not contain valid UTF-8"@
}

/// Relies on `std::str::from_utf8`: it succeeds exactly on valid UTF-8.
#[verifier::external_body]
fn is_utf8(b: &[u8]) -> (r: bool)
    ensures
        r == valid_utf8(b@),
{
    std::str::from_utf8(b).is_ok()
}

/// Hashing a requirements file named `f`: read as lines of text, an
/// error if it is not UTF-8.
pub open spec fn manifest_spec(src: Sources, f: Seq<char>) -> (Outcome, Seq<u8>) {
    match read_file(src, work_path(f)) {
        Ok(c) => if valid_utf8(c) {
            (Outcome::Hashed, manifest_bytes(c))
        } else {
            (Outcome::Error(not_utf8()), Seq::empty())
        },
        Err(e) => (Outcome::Error(e), Seq::empty()),
    }
}

/// The cache key of container `name` of `cfg`: its outcome, and the bytes
/// a fresh digest is fed.
pub open spec fn container_key(cfg: Config, src: Sources, name: String) -> (Outcome, Seq<u8>) {
    step_spec(Builder::Container(name), cfg, src, MAX_DEPTH as nat)
}

fn read_file_exec<'a>(src: &'a Sources, path: &String) -> (r: Result<&'a Vec<u8>, String>)
    ensures
        match r {
            Ok(c) => read_file(*src, path@) == Ok::<Seq<u8>, Seq<char>>(c@),
            Err(e) => read_file(*src, path@) == Err::<Seq<u8>, Seq<char>>(e@),
        },
{
    match find_key(&src.files, path) {
        None => {
            let mut m = String::from_str("Can't read file: no such file ");
            m.append(quote(path.as_str()).as_str());
            Err(m)
        },
        Some(i) => match &src.files[i].1 {
            Ok(c) => Ok(c),
            Err(e) => {
                let mut m = String::from_str("Can't read file: ");
                m.append(e.as_str());
                Err(m)
            },
        },
    }
}

fn qualify(r: HashResult, name: &String) -> (q: HashResult)
    ensures
        q@ == qualified(r@, name@),
{
    match r {
        HashResult::Error(e) => {
            let mut m = quote(name.as_str());
            m.append(": ");
            m.append(e.as_str());
            HashResult::Error(m)
        },
        other => other,
    }
}

fn hash_setup(
    setup: &Vec<Builder>,
    name: &String,
    cfg: &Config,
    src: &Sources,
    depth: u64,
    digest: &mut Digest,
) -> (r: HashResult)
    ensures
        r@ == setup_spec(setup@, name@, *cfg, *src, depth as nat).0,
        final(digest)@ == old(digest)@ + setup_spec(setup@, name@, *cfg, *src, depth as nat).1,
    decreases depth, 0int, 0int,
{
    if depth == 0 {
        assert(digest@ =~= digest@ + Seq::<u8>::empty());
        return HashResult::Error(String::from_str("Container references nest too deeply"));
    }
    let ghost start = digest@;
    let ghost d = (depth - 1) as nat;
    let mut i: usize = 0;
    assert(setup_spec(setup@, name@, *cfg, *src, depth as nat).1 == steps_spec(setup@, 0, *cfg, *src, d).1);
    assert(start + steps_spec(setup@, 0, *cfg, *src, d).1 =~= digest@ + steps_spec(
        setup@,
        0,
        *cfg,
        *src,
        d,
    ).1);
    while i < setup.len()
        invariant
            i <= setup@.len(),
            depth > 0,
            d == depth - 1,
            start == old(digest)@,
            setup_spec(setup@, name@, *cfg, *src, depth as nat).1 == steps_spec(setup@, 0, *cfg, *src, d).1,
            steps_spec(setup@, 0, *cfg, *src, d).0 == steps_spec(setup@, i as int, *cfg, *src, d).0,
            start + steps_spec(setup@, 0, *cfg, *src, d).1 == digest@ + steps_spec(
                setup@,
                i as int,
                *cfg,
                *src,
                d,
            ).1,
        decreases setup@.len() - i,
    {
        let ghost before = digest@;
        let r = setup[i].hash_at(cfg, src, depth - 1, digest);
        let ghost fed = step_spec(setup@[i as int], *cfg, *src, d).1;
        match r {
            HashResult::Hashed => {
                assert(before + steps_spec(setup@, i as int, *cfg, *src, d).1 =~= digest@
                    + steps_spec(setup@, i + 1, *cfg, *src, d).1);
                i = i + 1;
            },
            HashResult::New => {
                assert(start + steps_spec(setup@, 0, *cfg, *src, d).1 =~= digest@);
                return HashResult::New;
            },
            HashResult::Error(e) => {
                assert(start + steps_spec(setup@, 0, *cfg, *src, d).1 =~= digest@);
                return qualify(HashResult::Error(e), name);
            },
        }
    }
    assert(start + steps_spec(setup@, 0, *cfg, *src, d).1 =~= digest@);
    HashResult::Hashed
}

fn hash_sub_recipe(
    sc: &SubConfig,
    path: &String,
    cfg: &Config,
    src: &Sources,
    depth: u64,
    digest: &mut Digest,
) -> (r: HashResult)
    ensures
        r@ == sub_recipe_spec(*sc, path@, *cfg, *src, depth as nat).0,
        final(digest)@ == old(digest)@ + sub_recipe_spec(*sc, path@, *cfg, *src, depth as nat).1,
    decreases depth, 0int, 1int,
{
    assert(digest@ =~= digest@ + Seq::<u8>::empty());
    match find_key(&src.recipes, path) {
        None => {
            let mut m = String::from_str("Can't read config: no such file ");
            m.append(quote(path.as_str()).as_str());
            HashResult::Error(m)
        },
        Some(ri) => match &src.recipes[ri].1 {
            Err(e) => HashResult::Error(e.clone()),
            Ok(sub) => match find_key(&sub.containers, &sc.container) {
                None => {
                    let mut m = String::from_str("Container ");
                    m.append(quote(sc.container.as_str()).as_str());
                    m.append(" not found in ");
                    m.append(quote(sc.path.as_str()).as_str());
                    HashResult::Error(m)
                },
                Some(ci) => hash_setup(&sub.containers[ci].1.setup, &sc.container, cfg, src, depth, digest),
            },
        },
    }
}

impl Builder {
    /// Feeds this step into `digest`, following references into `cfg` and
    /// into the recipes of `src`, and says whether a cache key resulted.
    /// References nested more than `MAX_DEPTH` deep, as a cycle of
    /// references is, give an error.
    pub fn hash(&self, cfg: &Config, src: &Sources, digest: &mut Digest) -> (r: HashResult)
        ensures
            r@ == step_spec(*self, *cfg, *src, MAX_DEPTH as nat).0,
            final(digest)@ == old(digest)@ + step_spec(*self, *cfg, *src, MAX_DEPTH as nat).1,
    {
        self.hash_at(cfg, src, MAX_DEPTH, digest)
    }

    fn hash_at(&self, cfg: &Config, src: &Sources, depth: u64, digest: &mut Digest) -> (r: HashResult)
        ensures
            r@ == step_spec(*self, *cfg, *src, depth as nat).0,
            final(digest)@ == old(digest)@ + step_spec(*self, *cfg, *src, depth as nat).1,
        decreases depth, 1int, 0int,
    {
        assert(digest@ =~= digest@ + Seq::<u8>::empty());
        match self {
            Builder::Py2Requirements(f) | Builder::Py3Requirements(f) => {
                match read_file_exec(src, &join("/work", f.as_str())) {
                    Ok(c) => {
                        if is_utf8(c.as_slice()) {
                            hash_manifest(c.as_slice(), digest);
                            HashResult::Hashed
                        } else {
                            HashResult::Error(
                                String::from_str("Can't read file: stream did not contain valid UTF-8"),
                            )
                        }
                    },
                    Err(e) => HashResult::Error(e),
                }
            },
            Builder::Depends(f) => match read_file_exec(src, &join("/work", f.as_str())) {
                Ok(c) => {
                    digest.input(c.as_slice());
                    HashResult::Hashed
                },
                Err(e) => HashResult::Error(e),
            },
            Builder::Container(name) => match find_key(&cfg.containers, name) {
                None => {
                    let mut m = String::from_str("Container ");
                    m.append(quote(name.as_str()).as_str());
                    m.append(" not found");
                    HashResult::Error(m)
                },
                Some(i) => hash_setup(&cfg.containers[i].1.setup, name, cfg, src, depth, digest),
            },
            Builder::SubConfig(sc) => match &sc.source {
                Source::Container(c) => match find_key(&src.versions, c) {
                    None => HashResult::New,
                    Some(vi) => match &src.versions[vi].1 {
                        Ok(v) => {
                            let base = join(join("/vagga/base/.roots", v.as_str()).as_str(), "root");
                            let path = join(base.as_str(), sc.path.as_str());
                            hash_sub_recipe(sc, &path, cfg, src, depth, digest)
                        },
                        Err(_) => HashResult::New,
                    },
                },
                Source::Git(_) => HashResult::Error(
                    String::from_str("Version-control sources are not supported"),
                ),
                Source::Directory => {
                    let path = join("/work", sc.path.as_str());
                    hash_sub_recipe(sc, &path, cfg, src, depth, digest)
                },
            },
            Builder::CacheDirs(m) | Builder::Text(m) => {
                let sorted = sort_entries(m);
                hash_entries(&sorted, digest);
                HashResult::Hashed
            },
            Builder::Other(enc) => {
                digest.input(enc.as_slice());
                HashResult::Hashed
            },
        }
    }
}

/// The outcome of versioning a container.
#[derive(Debug)]
pub enum Version {
    /// The content address: a hex digest of everything the setup feeds.
    Hashed(String),
    /// The container must always be rebuilt.
    New,
    /// Versioning failed.
    Error(String),
}

/// Computes the cache key of container `name` of `cfg` with a fresh digest.
pub fn container_version(cfg: &Config, src: &Sources, name: &String) -> (r: Version)
    ensures
        match container_key(*cfg, *src, *name).0 {
            Outcome::Hashed => r is Hashed && r->Hashed_0@ == sha256_hex(container_key(*cfg, *src, *name).1),
            Outcome::New => r is New,
            Outcome::Error(e) => r is Error && r->Error_0@ == e,
        },
{
    let mut digest = Digest::new();
    let step = Builder::Container(name.clone());
    match step.hash(cfg, src, &mut digest) {
        HashResult::Hashed => {
            assert(digest@ =~= container_key(*cfg, *src, *name).1);
            Version::Hashed(digest.result_str())
        },
        HashResult::New => Version::New,
        HashResult::Error(e) => Version::Error(e),
    }
}

/// Versioning is deterministic: the same recipe over the same inputs gives
/// the same outcome and feeds the same bytes, hence the same content address.
pub proof fn lemma_hash_deterministic(cfg1: Config, src1: Sources, cfg2: Config, src2: Sources, name: String)
    requires
        cfg1 == cfg2,
        src1 == src2,
    ensures
        container_key(cfg1, src1, name) == container_key(cfg2, src2, name),
        sha256_hex(container_key(cfg1, src1, name).1) == sha256_hex(container_key(cfg2, src2, name).1),
{
}

proof fn lemma_first_new(s: Seq<Builder>, i: int, j: int, cfg: Config, src: Sources, depth: nat)
    requires
        0 <= j <= i < s.len(),
        forall|k: int| j <= k < i ==> (#[trigger] step_spec(s[k], cfg, src, depth)).0 is Hashed,
        step_spec(s[i], cfg, src, depth).0 is New,
    ensures
        steps_spec(s, j, cfg, src, depth).0 is New,
        steps_spec(s, j, cfg, src, depth) == steps_spec(s.subrange(0, i + 1), j, cfg, src, depth),
    decreases i - j,
{
    let t = s.subrange(0, i + 1);
    assert(t[j] == s[j]);
    if j < i {
        assert(step_spec(s[j], cfg, src, depth).0 is Hashed);
        lemma_first_new(s, i, j + 1, cfg, src, depth);
    } else {
        assert(steps_spec(s, j, cfg, src, depth) == step_spec(s[j], cfg, src, depth));
        assert(steps_spec(t, j, cfg, src, depth) == step_spec(s[j], cfg, src, depth));
    }
}

/// A step that concludes `New`, after steps that all hashed, makes the whole
/// enclosing container `New`: wherever it stands, and whatever steps follow
/// it, failing ones included, which are not hashed at all.
pub proof fn lemma_new_short_circuits(
    prefix: Seq<Builder>,
    rest: Seq<Builder>,
    name: Seq<char>,
    cfg: Config,
    src: Sources,
    depth: nat,
)
    requires
        depth > 0,
        prefix.len() > 0,
        forall|k: int|
            0 <= k < prefix.len() - 1 ==> (#[trigger] step_spec(prefix[k], cfg, src, (depth - 1) as nat)).0 is Hashed,
        step_spec(prefix.last(), cfg, src, (depth - 1) as nat).0 is New,
    ensures
        setup_spec(prefix + rest, name, cfg, src, depth).0 is New,
        setup_spec(prefix + rest, name, cfg, src, depth) == setup_spec(prefix, name, cfg, src, depth),
{
    let s = prefix + rest;
    let i = prefix.len() - 1;
    let d = (depth - 1) as nat;
    assert forall|k: int| 0 <= k < i implies (#[trigger] step_spec(s[k], cfg, src, d)).0 is Hashed by {
        assert(s[k] == prefix[k]);
    }
    assert(s[i] == prefix.last());
    lemma_first_new(s, i, 0, cfg, src, d);
    assert(s.subrange(0, i + 1) =~= prefix);
}

/// The bytes that steps `j..` of `pre` feed, one after another.
pub open spec fn hashed_bytes(pre: Seq<Builder>, j: int, cfg: Config, src: Sources, depth: nat) -> Seq<u8>
    decreases pre.len() - j,
{
    if j < 0 || j >= pre.len() {
        Seq::empty()
    } else {
        step_spec(pre[j], cfg, src, depth).1 + hashed_bytes(pre, j + 1, cfg, src, depth)
    }
}

proof fn lemma_hashed_prefix(s: Seq<Builder>, pre: Seq<Builder>, j: int, cfg: Config, src: Sources, depth: nat)
    requires
        0 <= j <= pre.len() <= s.len(),
        forall|k: int| 0 <= k < pre.len() ==> s[k] == pre[k],
        forall|k: int| 0 <= k < pre.len() ==> (#[trigger] step_spec(pre[k], cfg, src, depth)).0 is Hashed,
    ensures
        steps_spec(s, j, cfg, src, depth).0 == steps_spec(s, pre.len() as int, cfg, src, depth).0,
        steps_spec(s, j, cfg, src, depth).1 == hashed_bytes(pre, j, cfg, src, depth) + steps_spec(
            s,
            pre.len() as int,
            cfg,
            src,
            depth,
        ).1,
    decreases pre.len() - j,
{
    if j < pre.len() {
        lemma_hashed_prefix(s, pre, j + 1, cfg, src, depth);
        assert(s[j] == pre[j]);
        assert(step_spec(pre[j], cfg, src, depth).0 is Hashed);
        assert(steps_spec(s, j, cfg, src, depth).1 =~= hashed_bytes(pre, j, cfg, src, depth) + steps_spec(
            s,
            pre.len() as int,
            cfg,
            src,
            depth,
        ).1);
    } else {
        assert(hashed_bytes(pre, j, cfg, src, depth) + steps_spec(s, j, cfg, src, depth).1 =~= steps_spec(
            s,
            j,
            cfg,
            src,
            depth,
        ).1);
    }
}

proof fn lemma_steps_suffix(s: Seq<Builder>, k: int, t: Seq<Builder>, cfg: Config, src: Sources, depth: nat)
    requires
        0 <= k <= s.len(),
        s.subrange(k, s.len() as int) == t,
    ensures
        steps_spec(s, k, cfg, src, depth) == steps_spec(t, 0, cfg, src, depth),
    decreases s.len() - k,
{
    if k < s.len() {
        assert(s.subrange(k + 1, s.len() as int) =~= t.subrange(1, t.len() as int));
        lemma_steps_suffix(s, k + 1, t.subrange(1, t.len() as int), cfg, src, depth);
        lemma_steps_shift(t, cfg, src, depth);
        assert(t[0] == s[k]);
    }
}

proof fn lemma_steps_shift(t: Seq<Builder>, cfg: Config, src: Sources, depth: nat)
    requires
        t.len() > 0,
    ensures
        steps_spec(t, 1, cfg, src, depth) == steps_spec(t.subrange(1, t.len() as int), 0, cfg, src, depth),
    decreases t.len(),
{
    let u = t.subrange(1, t.len() as int);
    lemma_steps_drop(t, u, 1, cfg, src, depth);
}

proof fn lemma_steps_drop(t: Seq<Builder>, u: Seq<Builder>, j: int, cfg: Config, src: Sources, depth: nat)
    requires
        1 <= j <= t.len(),
        u == t.subrange(1, t.len() as int),
    ensures
        steps_spec(t, j, cfg, src, depth) == steps_spec(u, j - 1, cfg, src, depth),
    decreases t.len() - j,
{
    if j < t.len() {
        assert(u[j - 1] == t[j]);
        lemma_steps_drop(t, u, j + 1, cfg, src, depth);
    }
}

/// Setup order is part of the key: swapping two adjacent raw-file
/// dependencies, after steps that all hashed, changes the bytes fed for the
/// container whenever their contents `a` and `b` give `a + b != b + a`.
pub proof fn lemma_order_matters(
    pre: Seq<Builder>,
    f1: String,
    f2: String,
    post: Seq<Builder>,
    name: Seq<char>,
    cfg: Config,
    src: Sources,
    depth: nat,
)
    requires
        depth > 0,
        forall|k: int|
            0 <= k < pre.len() ==> (#[trigger] step_spec(pre[k], cfg, src, (depth - 1) as nat)).0 is Hashed,
        read_file(src, work_path(f1@)) is Ok,
        read_file(src, work_path(f2@)) is Ok,
        read_file(src, work_path(f1@))->Ok_0 + read_file(src, work_path(f2@))->Ok_0
            != read_file(src, work_path(f2@))->Ok_0 + read_file(src, work_path(f1@))->Ok_0,
    ensures
        setup_spec(pre + seq![Builder::Depends(f1), Builder::Depends(f2)] + post, name, cfg, src, depth).1
            != setup_spec(pre + seq![Builder::Depends(f2), Builder::Depends(f1)] + post, name, cfg, src, depth).1,
{
    let d = (depth - 1) as nat;
    let a = read_file(src, work_path(f1@))->Ok_0;
    let b = read_file(src, work_path(f2@))->Ok_0;
    let s1 = pre + seq![Builder::Depends(f1), Builder::Depends(f2)] + post;
    let s2 = pre + seq![Builder::Depends(f2), Builder::Depends(f1)] + post;
    let n = pre.len() as int;
    lemma_hashed_prefix(s1, pre, 0, cfg, src, d);
    lemma_hashed_prefix(s2, pre, 0, cfg, src, d);
    assert(s1[n] == Builder::Depends(f1));
    assert(s1[n + 1] == Builder::Depends(f2));
    assert(s2[n] == Builder::Depends(f2));
    assert(s2[n + 1] == Builder::Depends(f1));
    assert(s1.subrange(n + 2, s1.len() as int) =~= post);
    assert(s2.subrange(n + 2, s2.len() as int) =~= post);
    lemma_steps_suffix(s1, n + 2, post, cfg, src, d);
    lemma_steps_suffix(s2, n + 2, post, cfg, src, d);
    assert(step_spec(Builder::Depends(f1), cfg, src, d) == (Outcome::Hashed, a));
    assert(step_spec(Builder::Depends(f2), cfg, src, d) == (Outcome::Hashed, b));
    assert(steps_spec(s1, n, cfg, src, d).1 == a + steps_spec(s1, n + 1, cfg, src, d).1);
    assert(steps_spec(s1, n + 1, cfg, src, d).1 == b + steps_spec(s1, n + 2, cfg, src, d).1);
    assert(steps_spec(s2, n, cfg, src, d).1 == b + steps_spec(s2, n + 1, cfg, src, d).1);
    assert(steps_spec(s2, n + 1, cfg, src, d).1 == a + steps_spec(s2, n + 2, cfg, src, d).1);
    let x = hashed_bytes(pre, 0, cfg, src, d);
    let r = steps_spec(post, 0, cfg, src, d).1;
    let b1 = steps_spec(s1, 0, cfg, src, d).1;
    let b2 = steps_spec(s2, 0, cfg, src, d).1;
    assert(b1 =~= x + a + b + r);
    assert(b2 =~= x + b + a + r);
    if b1 == b2 {
        let lo = x.len() as int;
        let hi = lo + a.len() + b.len();
        assert(b1.subrange(lo, hi) =~= a + b);
        assert(b2.subrange(lo, hi) =~= b + a);
    }
}

/// Whether the entries are in ascending key order.
pub open spec fn key_sorted(s: Seq<(String, String)>) -> bool {
    forall|i: int, j: int| 0 <= i < j < s.len() ==> !key_lt(#[trigger] s[j], #[trigger] s[i])
}

proof fn lemma_lt_asym(a: Seq<u8>, b: Seq<u8>, i: int)
    requires
        0 <= i,
        bytes_lt_from(a, b, i),
    ensures
        !bytes_lt_from(b, a, i),
    decreases a.len() - i,
{
    if i < a.len() && i < b.len() && a[i] == b[i] {
        lemma_lt_asym(a, b, i + 1);
    }
}

proof fn lemma_lt_trans(a: Seq<u8>, b: Seq<u8>, c: Seq<u8>, i: int)
    requires
        0 <= i,
        bytes_lt_from(a, b, i),
        bytes_lt_from(b, c, i),
    ensures
        bytes_lt_from(a, c, i),
    decreases a.len() - i,
{
    if i < a.len() && i < b.len() && i < c.len() && a[i] == b[i] && b[i] == c[i] {
        lemma_lt_trans(a, b, c, i + 1);
    }
}

proof fn lemma_insert_pos(r: Seq<(String, String)>, x: (String, String), j: int)
    requires
        0 <= j <= r.len(),
    ensures
        j <= insert_pos(r, x, j) <= r.len(),
        forall|k: int| j <= k < insert_pos(r, x, j) ==> !key_lt(x, #[trigger] r[k]),
        insert_pos(r, x, j) < r.len() ==> key_lt(x, r[insert_pos(r, x, j)]),
    decreases r.len() - j,
{
    if j < r.len() && !key_lt(x, r[j]) {
        lemma_insert_pos(r, x, j + 1);
    }
}

/// Sorting puts the entries in ascending key order and keeps each of them.
pub proof fn lemma_sorted_entries(s: Seq<(String, String)>)
    ensures
        key_sorted(sorted_entries(s)),
        sorted_entries(s).to_multiset() == s.to_multiset(),
    decreases s.len(),
{
    broadcast use vstd::seq_lib::to_multiset_build, vstd::seq_lib::to_multiset_insert;

    if s.len() > 0 {
        let r = sorted_entries(s.drop_last());
        lemma_sorted_entries(s.drop_last());
        let x = s.last();
        let p = insert_pos(r, x, 0);
        lemma_insert_pos(r, x, 0);
        let t = r.insert(p, x);
        assert(t == sorted_entries(s));
        assert forall|i: int, j: int| 0 <= i < j < t.len() implies !key_lt(#[trigger] t[j], #[trigger] t[i]) by {
            if j < p {
                assert(t[i] == r[i] && t[j] == r[j]);
            } else if j == p {
                assert(t[i] == r[i] && t[j] == x);
            } else if i < p {
                assert(t[i] == r[i] && t[j] == r[j - 1]);
            } else if i == p {
                assert(t[i] == x && t[j] == r[j - 1]);
                if key_lt(r[j - 1], x) {
                    lemma_lt_trans(str_bytes(r[j - 1].0@), str_bytes(x.0@), str_bytes(r[p].0@), 0);
                    if j - 1 == p {
                        lemma_lt_asym(str_bytes(r[p].0@), str_bytes(r[p].0@), 0);
                    } else {
                        assert(!key_lt(r[j - 1], r[p]));
                    }
                }
            } else {
                assert(t[i] == r[i - 1] && t[j] == r[j - 1]);
            }
        }
        assert(s.drop_last().push(x) == s);
    }
}

/// The short-circuit seen from a container reference: when the setup of
/// the referenced container has a step concluding `New` after steps that
/// all hashed, hashing the reference concludes `New`, whatever follows.
pub proof fn lemma_container_new(
    name: String,
    prefix: Seq<Builder>,
    rest: Seq<Builder>,
    cfg: Config,
    src: Sources,
    depth: nat,
)
    requires
        depth > 0,
        key_pos(cfg.containers@, name@, 0) >= 0,
        cfg.containers@[key_pos(cfg.containers@, name@, 0)].1.setup@ == prefix + rest,
        prefix.len() > 0,
        forall|k: int|
            0 <= k < prefix.len() - 1 ==> (#[trigger] step_spec(prefix[k], cfg, src, (depth - 1) as nat)).0 is Hashed,
        step_spec(prefix.last(), cfg, src, (depth - 1) as nat).0 is New,
    ensures
        step_spec(Builder::Container(name), cfg, src, depth).0 is New,
{
    lemma_new_short_circuits(prefix, rest, name@, cfg, src, depth);
}

/// Order sensitivity seen from container references: two containers whose
/// setups differ only by swapping two adjacent raw-file dependencies, with
/// contents `a` and `b` such that `a + b != b + a`, feed different bytes.
pub proof fn lemma_containers_order_matters(
    c1: String,
    c2: String,
    pre: Seq<Builder>,
    f1: String,
    f2: String,
    post: Seq<Builder>,
    cfg: Config,
    src: Sources,
    depth: nat,
)
    requires
        depth > 0,
        key_pos(cfg.containers@, c1@, 0) >= 0,
        key_pos(cfg.containers@, c2@, 0) >= 0,
        cfg.containers@[key_pos(cfg.containers@, c1@, 0)].1.setup@ == pre + seq![Builder::Depends(f1), Builder::Depends(f2)] + post,
        cfg.containers@[key_pos(cfg.containers@, c2@, 0)].1.setup@ == pre + seq![Builder::Depends(f2), Builder::Depends(f1)] + post,
        forall|k: int|
            0 <= k < pre.len() ==> (#[trigger] step_spec(pre[k], cfg, src, (depth - 1) as nat)).0 is Hashed,
        read_file(src, work_path(f1@)) is Ok,
        read_file(src, work_path(f2@)) is Ok,
        read_file(src, work_path(f1@))->Ok_0 + read_file(src, work_path(f2@))->Ok_0
            != read_file(src, work_path(f2@))->Ok_0 + read_file(src, work_path(f1@))->Ok_0,
    ensures
        step_spec(Builder::Container(c1), cfg, src, depth).1 != step_spec(Builder::Container(c2), cfg, src, depth).1,
{
    lemma_order_matters(pre, f1, f2, post, c1@, cfg, src, depth);
    let d = (depth - 1) as nat;
    let s1 = pre + seq![Builder::Depends(f1), Builder::Depends(f2)] + post;
    let s2 = pre + seq![Builder::Depends(f2), Builder::Depends(f1)] + post;
    assert(setup_spec(s1, c1@, cfg, src, depth).1 == steps_spec(s1, 0, cfg, src, d).1);
    assert(setup_spec(s2, c2@, cfg, src, depth).1 == steps_spec(s2, 0, cfg, src, d).1);
    assert(setup_spec(s2, c1@, cfg, src, depth).1 == steps_spec(s2, 0, cfg, src, d).1);
}

/// What hashing reads besides the recipe: files by absolute path,
/// container versions by name, and recipes by path.
#[derive(Debug)]
pub struct Needs {
    pub files: Vec<String>,
    pub versions: Vec<String>,
    pub recipes: Vec<String>,
}

pub open spec fn views(v: Seq<String>) -> Seq<Seq<char>> {
    v.map_values(|s: String| s@)
}

/// What one step reads directly, given the versions known in `src`: the
/// file of a file step; the version of a built container and, once that is
/// known, the recipe under its root; the recipe of a working-directory
/// sub-recipe.
pub open spec fn step_needs(b: Builder, src: Sources) -> (Seq<Seq<char>>, Seq<Seq<char>>, Seq<Seq<char>>) {
    match b {
        Builder::Py2Requirements(f) => (seq![work_path(f@)], Seq::empty(), Seq::empty()),
        Builder::Py3Requirements(f) => (seq![work_path(f@)], Seq::empty(), Seq::empty()),
        Builder::Depends(f) => (seq![work_path(f@)], Seq::empty(), Seq::empty()),
        Builder::SubConfig(sc) => match sc.source {
            Source::Container(c) => {
                let vi = key_pos(src.versions@, c@, 0);
                if vi >= 0 && src.versions@[vi].1 is Ok {
                    (Seq::empty(), seq![c@], seq![root_path(src.versions@[vi].1->Ok_0@, sc.path@)])
                } else {
                    (Seq::empty(), seq![c@], Seq::empty())
                }
            },
            Source::Directory => (Seq::empty(), Seq::empty(), seq![work_path(sc.path@)]),
            Source::Git(_) => (Seq::empty(), Seq::empty(), Seq::empty()),
        },
        _ => (Seq::empty(), Seq::empty(), Seq::empty()),
    }
}

/// `n` followed by `m`, list by list.
pub open spec fn add_needs(
    n: (Seq<Seq<char>>, Seq<Seq<char>>, Seq<Seq<char>>),
    m: (Seq<Seq<char>>, Seq<Seq<char>>, Seq<Seq<char>>),
) -> (Seq<Seq<char>>, Seq<Seq<char>>, Seq<Seq<char>>) {
    (n.0 + m.0, n.1 + m.1, n.2 + m.2)
}

pub open spec fn no_needs() -> (Seq<Seq<char>>, Seq<Seq<char>>, Seq<Seq<char>>) {
    (Seq::empty(), Seq::empty(), Seq::empty())
}

/// What the steps read, in order.
pub open spec fn steps_needs(steps: Seq<Builder>, src: Sources) -> (Seq<Seq<char>>, Seq<Seq<char>>, Seq<Seq<char>>)
    decreases steps.len(),
{
    if steps.len() == 0 {
        no_needs()
    } else {
        add_needs(steps_needs(steps.drop_last(), src), step_needs(steps.last(), src))
    }
}

/// What the setups of the containers read, container by container.
pub open spec fn containers_needs(cs: Seq<(String, ContainerConfig)>, src: Sources) -> (
    Seq<Seq<char>>,
    Seq<Seq<char>>,
    Seq<Seq<char>>,
)
    decreases cs.len(),
{
    if cs.len() == 0 {
        no_needs()
    } else {
        add_needs(containers_needs(cs.drop_last(), src), steps_needs(cs.last().1.setup@, src))
    }
}

impl Needs {
    pub open spec fn view_triple(&self) -> (Seq<Seq<char>>, Seq<Seq<char>>, Seq<Seq<char>>) {
        (views(self.files@), views(self.versions@), views(self.recipes@))
    }
}

fn push_view(v: &mut Vec<String>, s: String)
    ensures
        views(final(v)@) == views(old(v)@).push(s@),
{
    v.push(s);
    assert(views(final(v)@) =~= views(old(v)@).push(s@));
}

fn add_step_needs(b: &Builder, src: &Sources, needs: &mut Needs)
    ensures
        final(needs).view_triple() == add_needs(old(needs).view_triple(), step_needs(*b, *src)),
{
    let ghost old_t = needs.view_triple();
    match b {
        Builder::Py2Requirements(f) | Builder::Py3Requirements(f) | Builder::Depends(f) => {
            push_view(&mut needs.files, join("/work", f.as_str()));
        },
        Builder::SubConfig(sc) => match &sc.source {
            Source::Container(c) => {
                push_view(&mut needs.versions, c.clone());
                match find_key(&src.versions, c) {
                    Some(vi) => match &src.versions[vi].1 {
                        Ok(v) => {
                            let base = join(join("/vagga/base/.roots", v.as_str()).as_str(), "root");
                            push_view(&mut needs.recipes, join(base.as_str(), sc.path.as_str()));
                        },
                        Err(_) => {},
                    },
                    None => {},
                }
            },
            Source::Directory => {
                push_view(&mut needs.recipes, join("/work", sc.path.as_str()));
            },
            Source::Git(_) => {},
        },
        _ => {},
    }
    assert(needs.view_triple() =~= add_needs(old_t, step_needs(*b, *src)));
}

/// What hashing any container of `cfg` reads directly, given the versions
/// known in `src`. Steps of recipes listed under `recipes` read more: list
/// those by calling this on each such recipe once it is loaded, and the
/// recipes under container roots once their versions are known.
pub fn config_needs(cfg: &Config, src: &Sources) -> (r: Needs)
    ensures
        r.view_triple() == containers_needs(cfg.containers@, *src),
{
    let mut r = Needs { files: Vec::new(), versions: Vec::new(), recipes: Vec::new() };
    assert(r.view_triple() =~= no_needs());
    let mut i: usize = 0;
    while i < cfg.containers.len()
        invariant
            i <= cfg.containers@.len(),
            r.view_triple() == containers_needs(cfg.containers@.subrange(0, i as int), *src),
        decreases cfg.containers@.len() - i,
    {
        let setup = &cfg.containers[i].1.setup;
        let ghost before = r.view_triple();
        let mut j: usize = 0;
        assert(add_needs(before, steps_needs(setup@.subrange(0, 0), *src)) =~= before);
        while j < setup.len()
            invariant
                j <= setup@.len(),
                r.view_triple() == add_needs(before, steps_needs(setup@.subrange(0, j as int), *src)),
            decreases setup@.len() - j,
        {
            add_step_needs(&setup[j], src, &mut r);
            assert(setup@.subrange(0, j + 1).drop_last() =~= setup@.subrange(0, j as int));
            j = j + 1;
            assert(r.view_triple() =~= add_needs(before, steps_needs(setup@.subrange(0, j as int), *src)));
        }
        assert(setup@.subrange(0, setup@.len() as int) =~= setup@);
        assert(cfg.containers@.subrange(0, i + 1).drop_last() =~= cfg.containers@.subrange(0, i as int));
        i = i + 1;
    }
    assert(cfg.containers@.subrange(0, cfg.containers@.len() as int) =~= cfg.containers@);
    r
}

} // verus!
