//! Resolving programs against a sandbox-relative `PATH`, describing the
//! sandboxed command for the process supervisor, and interpreting how it
//! ended.
use vstd::prelude::*;
use vstd::string::*;
use crate::text::{decimal, decimal_string, join, join_path, quote, quoted};
use crate::version::key_pos;

verus! {

/// The environment of a build.
#[derive(Debug)]
pub struct BuildContext {
    pub environ: Vec<(String, String)>,
}

/// A command as the process supervisor is to run it.
#[derive(Debug)]
pub struct Command {
    /// The program, already resolved, as a path inside the chroot.
    pub executable: String,
    /// The working directory, if one is set.
    pub workdir: Option<String>,
    /// The directory the command is chrooted into.
    pub chroot: String,
    /// The arguments after the program name.
    pub args: Vec<String>,
    /// The environment, one entry per variable.
    pub environ: Vec<(String, String)>,
    /// Whether standard output goes into a pipe for the caller to read.
    pub capture_stdout: bool,
}

/// How the supervised process ended.
#[derive(Debug)]
pub enum MonitorResult {
    Exit(i32),
    Killed,
}

/// The entries of a colon-separated list, scanning from `i` within the
/// entry that starts at `s`.
pub open spec fn split_from(p: Seq<char>, s: int, i: int) -> Seq<Seq<char>>
    decreases p.len() - i,
{
    if i >= p.len() {
        seq![p.subrange(s, p.len() as int)]
    } else if p[i] == ':' {
        seq![p.subrange(s, i)] + split_from(p, i + 1, i + 1)
    } else {
        split_from(p, s, i + 1)
    }
}

/// The entries of a colon-separated list, empty ones included.
pub open spec fn path_entries(p: Seq<char>) -> Seq<Seq<char>> {
    split_from(p, 0, 0)
}

pub open spec fn is_absolute(p: Seq<char>) -> bool {
    p.len() > 0 && p[0] == '/'
}

/// A directory of `PATH` and a program name: the path the program has
/// inside the sandbox, and the path where it lies outside.
pub open spec fn candidate(dir: Seq<char>, cmd: Seq<char>) -> (Seq<char>, Seq<char>) {
    (
        join_path(dir, cmd),
        join_path(join_path("/vagga/root"@, dir.subrange(1, dir.len() as int)), cmd),
    )
}

/// The candidates of the absolute entries of `entries`, in order; relative
/// entries are skipped.
pub open spec fn candidates(entries: Seq<Seq<char>>, cmd: Seq<char>) -> Seq<(Seq<char>, Seq<char>)>
    decreases entries.len(),
{
    if entries.len() == 0 {
        Seq::empty()
    } else {
        let rest = candidates(entries.drop_last(), cmd);
        if is_absolute(entries.last()) {
            rest.push(candidate(entries.last(), cmd))
        } else {
            rest
        }
    }
}

pub open spec fn pair_view(v: Seq<(String, String)>) -> Seq<(Seq<char>, Seq<char>)> {
    v.map_values(|e: (String, String)| (e.0@, e.1@))
}

fn split_path(p: &str) -> (r: Vec<String>)
    ensures
        r@.map_values(|s: String| s@) == path_entries(p@),
{
    let n = p.unicode_len();
    let mut r: Vec<String> = Vec::new();
    let mut s: usize = 0;
    let mut i: usize = 0;
    while i < n
        invariant
            n == p@.len(),
            s <= i <= n,
            path_entries(p@) == r@.map_values(|s: String| s@) + split_from(p@, s as int, i as int),
        decreases n - i,
    {
        if p.get_char(i) == ':' {
            let e = String::from_str(p.substring_char(s, i));
            let ghost before = r@.map_values(|s: String| s@);
            r.push(e);
            assert(r@.map_values(|s: String| s@) =~= before.push(e@));
            assert(before + split_from(p@, s as int, i as int) =~= r@.map_values(|s: String| s@)
                + split_from(p@, i + 1, i + 1));
            i = i + 1;
            s = i;
        } else {
            i = i + 1;
        }
    }
    let e = String::from_str(p.substring_char(s, n));
    let ghost before = r@.map_values(|s: String| s@);
    r.push(e);
    assert(r@.map_values(|s: String| s@) =~= before.push(e@));
    assert(before + split_from(p@, s as int, i as int) =~= r@.map_values(|s: String| s@));
    r
}

/// For each absolute directory of the `PATH` value `paths`, in order: the
/// path of `cmd` inside the sandbox, and the path where it lies outside.
pub fn command_candidates(paths: &str, cmd: &str) -> (r: Vec<(String, String)>)
    ensures
        pair_view(r@) == candidates(path_entries(paths@), cmd@),
{
    let entries = split_path(paths);
    let ghost ev = entries@.map_values(|s: String| s@);
    let mut r: Vec<(String, String)> = Vec::new();
    let mut i: usize = 0;
    while i < entries.len()
        invariant
            i <= entries@.len(),
            ev == entries@.map_values(|s: String| s@),
            pair_view(r@) == candidates(ev.subrange(0, i as int), cmd@),
        decreases entries@.len() - i,
    {
        let dir = entries[i].as_str();
        proof {
            assert(ev.subrange(0, i + 1).drop_last() =~= ev.subrange(0, i as int));
            assert(ev.subrange(0, i + 1).last() == dir@);
        }
        let ghost before = pair_view(r@);
        if dir.unicode_len() > 0 && dir.get_char(0) == '/' {
            let inside = join(dir, cmd);
            let rel = dir.substring_char(1, dir.unicode_len());
            let root = join("/vagga/root", rel);
            let outside = join(root.as_str(), cmd);
            r.push((inside, outside));
            assert(pair_view(r@) =~= before.push(candidate(dir@, cmd@)));
        }
        i = i + 1;
    }
    assert(ev.subrange(0, ev.len() as int) =~= ev);
    r
}

/// Relies on `std::path::Path::exists`: whether something lies at `p`.
/// What it answers depends on the filesystem, so nothing is stated.
#[verifier::external_body]
fn path_exists(p: &str) -> (r: bool) {
    std::path::Path::new(p).exists()
}

/// The value of `key` in the environment entries, if any.
pub open spec fn env_get(s: Seq<(String, String)>, key: Seq<char>) -> Option<Seq<char>> {
    let i = key_pos(s, key, 0);
    if i < 0 {
        None
    } else {
        Some(s[i].1@)
    }
}

pub open spec fn no_path_msg(cmd: Seq<char>) -> Seq<char> {
    "Command "@ + quoted(cmd) + " not found (no PATH)"@
}

pub open spec fn not_found_msg(cmd: Seq<char>, paths: Seq<char>) -> Seq<char> {
    "Command "@ + quoted(cmd) + " not found in "@ + quoted(paths)
}

fn env_lookup<'a>(s: &'a Vec<(String, String)>, key: &str) -> (r: Option<&'a String>)
    ensures
        match r {
            Some(v) => env_get(s@, key@) == Some(v@),
            None => env_get(s@, key@) is None,
        },
{
    let mut i: usize = 0;
    while i < s.len()
        invariant
            i <= s@.len(),
            key_pos(s@, key@, 0) == key_pos(s@, key@, i as int),
        decreases s@.len() - i,
    {
        if str_eq(s[i].0.as_str(), key) {
            return Some(&s[i].1);
        }
        i = i + 1;
    }
    None
}

fn str_eq(a: &str, b: &str) -> (r: bool)
    ensures
        r == (a@ == b@),
{
    let n = a.unicode_len();
    if n != b.unicode_len() {
        return false;
    }
    let mut i: usize = 0;
    while i < n
        invariant
            n == a@.len() == b@.len(),
            i <= n,
            a@.subrange(0, i as int) == b@.subrange(0, i as int),
        decreases n - i,
    {
        if a.get_char(i) != b.get_char(i) {
            return false;
        }
        i = i + 1;
        assert(a@.subrange(0, i as int) =~= a@.subrange(0, i - 1 as int).push(a@[i - 1]));
        assert(b@.subrange(0, i as int) =~= b@.subrange(0, i - 1 as int).push(b@[i - 1]));
    }
    assert(a@ =~= a@.subrange(0, n as int));
    assert(b@ =~= b@.subrange(0, n as int));
    true
}

/// The first index at or after `i` whose probe answered yes, or the length
/// of `found` when none did.
pub open spec fn first_true(found: Seq<bool>, i: int) -> int
    decreases found.len() - i,
{
    if i < 0 || i >= found.len() {
        found.len() as int
    } else if found[i] {
        i
    } else {
        first_true(found, i + 1)
    }
}

proof fn lemma_first_true(found: Seq<bool>, i: int)
    requires
        0 <= i <= found.len(),
    ensures
        i <= first_true(found, i) <= found.len(),
        forall|j: int| i <= j < first_true(found, i) ==> !found[j],
        first_true(found, i) < found.len() ==> found[first_true(found, i)],
    decreases found.len() - i,
{
    if i < found.len() && !found[i] {
        lemma_first_true(found, i + 1);
    }
}

/// The outcome of a `PATH` lookup once each candidate has been probed:
/// `found[i]` tells whether candidate `i` lies in the sandbox. The first
/// candidate found gives its path inside the sandbox; with none found, the
/// error naming the `PATH` value.
pub open spec fn pick_spec(
    cmd: Seq<char>,
    paths: Seq<char>,
    cands: Seq<(Seq<char>, Seq<char>)>,
    found: Seq<bool>,
) -> Result<Seq<char>, Seq<char>> {
    let k = first_true(found, 0);
    if k < cands.len() {
        Ok(cands[k].0)
    } else {
        Err(not_found_msg(cmd, paths))
    }
}

/// The first candidate whose probe answered yes.
pub fn first_found(found: &Vec<bool>) -> (r: Option<usize>)
    ensures
        match r {
            Some(i) => i < found@.len() && found@[i as int] && forall|j: int| 0 <= j < i ==> !found@[j],
            None => forall|j: int| 0 <= j < found@.len() ==> !found@[j],
        },
        match r {
            Some(i) => i as int == first_true(found@, 0),
            None => first_true(found@, 0) == found@.len(),
        },
{
    proof {
        lemma_first_true(found@, 0);
    }
    let mut i: usize = 0;
    while i < found.len()
        invariant
            i <= found@.len(),
            first_true(found@, 0) == first_true(found@, i as int),
            forall|j: int| 0 <= j < i ==> !found@[j],
        decreases found@.len() - i,
    {
        if found[i] {
            return Some(i);
        }
        i = i + 1;
    }
    None
}

/// Picks the result of looking `cmd` up in the `PATH` value `paths`, given
/// the candidates of `command_candidates` and the answer of probing each.
pub fn pick_command(cmd: &str, paths: &str, cands: &Vec<(String, String)>, found: &Vec<bool>) -> (r: Result<
    String,
    String,
>)
    requires
        found@.len() == cands@.len(),
    ensures
        match r {
            Ok(p) => pick_spec(cmd@, paths@, pair_view(cands@), found@) == Ok::<Seq<char>, Seq<char>>(p@),
            Err(e) => pick_spec(cmd@, paths@, pair_view(cands@), found@) == Err::<Seq<char>, Seq<char>>(e@),
        },
{
    match first_found(found) {
        Some(i) => {
            let p = cands[i].0.clone();
            assert(pair_view(cands@)[i as int].0 == p@);
            Ok(p)
        },
        None => {
            let mut m = String::from_str("Command ");
            m.append(quote(cmd).as_str());
            m.append(" not found in ");
            m.append(quote(paths).as_str());
            Err(m)
        },
    }
}

/// Whether `r` is the outcome of looking `cmd` up in the `PATH` of `env`
/// when probing the candidates answered `found`: with no `PATH`, the error
/// saying so; otherwise what `pick_spec` gives.
pub open spec fn path_lookup(
    env: Seq<(String, String)>,
    cmd: Seq<char>,
    found: Seq<bool>,
    r: Result<String, String>,
) -> bool {
    match env_get(env, "PATH"@) {
        None => r is Err && r->Err_0@ == no_path_msg(cmd),
        Some(paths) => {
            &&& found.len() == candidates(path_entries(paths), cmd).len()
            &&& match r {
                Ok(p) => pick_spec(cmd, paths, candidates(path_entries(paths), cmd), found) == Ok::<
                    Seq<char>,
                    Seq<char>,
                >(p@),
                Err(e) => pick_spec(cmd, paths, candidates(path_entries(paths), cmd), found) == Err::<
                    Seq<char>,
                    Seq<char>,
                >(e@),
            }
        },
    }
}

/// Resolves a program name that is not absolute against the `PATH` of the
/// build environment: the first absolute directory of `PATH` that holds
/// the program inside the sandbox gives its path. Relative directories are
/// skipped. What the filesystem answers for each candidate is not known
/// here, so the result is stated for some answers to those probes.
fn find_cmd(ctx: &BuildContext, cmd: &str) -> (r: Result<String, String>)
    ensures
        exists|found: Seq<bool>| path_lookup(ctx.environ@, cmd@, found, r),
{
    match env_lookup(&ctx.environ, "PATH") {
        None => {
            let mut m = String::from_str("Command ");
            m.append(quote(cmd).as_str());
            m.append(" not found (no PATH)");
            let r = Err(m);
            assert(path_lookup(ctx.environ@, cmd@, Seq::empty(), r));
            r
        },
        Some(paths) => {
            let cands = command_candidates(paths.as_str(), cmd);
            let mut found: Vec<bool> = Vec::new();
            let mut i: usize = 0;
            while i < cands.len()
                invariant
                    i <= cands@.len(),
                    found@.len() == i,
                decreases cands@.len() - i,
            {
                found.push(path_exists(cands[i].1.as_str()));
                i = i + 1;
            }
            let r = pick_command(cmd, paths.as_str(), &cands, &found);
            assert(pair_view(cands@).len() == cands@.len());
            assert(path_lookup(ctx.environ@, cmd@, found@, r));
            r
        },
    }
}

/// The entries of a `PATH` value that are not absolute, in order.
pub open spec fn relative_entries(entries: Seq<Seq<char>>) -> Seq<Seq<char>>
    decreases entries.len(),
{
    if entries.len() == 0 {
        Seq::empty()
    } else {
        let rest = relative_entries(entries.drop_last());
        if is_absolute(entries.last()) {
            rest
        } else {
            rest.push(entries.last())
        }
    }
}

pub open spec fn relative_warning(dir: Seq<char>) -> Seq<char> {
    "All items in PATH must be absolute, not "@ + dir
}

/// The warnings a lookup in the `PATH` of `ctx` owes: one per relative
/// entry, which the lookup skips.
pub fn path_warnings(ctx: &BuildContext) -> (r: Vec<String>)
    ensures
        match env_get(ctx.environ@, "PATH"@) {
            None => r@.len() == 0,
            Some(paths) => r@.map_values(|s: String| s@) == relative_entries(path_entries(paths)).map_values(
                |d: Seq<char>| relative_warning(d),
            ),
        },
{
    let mut r: Vec<String> = Vec::new();
    match env_lookup(&ctx.environ, "PATH") {
        None => r,
        Some(paths) => {
            let entries = split_path(paths.as_str());
            let ghost ev = entries@.map_values(|s: String| s@);
            let mut i: usize = 0;
            while i < entries.len()
                invariant
                    i <= entries@.len(),
                    ev == entries@.map_values(|s: String| s@),
                    r@.map_values(|s: String| s@) == relative_entries(ev.subrange(0, i as int)).map_values(
                        |d: Seq<char>| relative_warning(d),
                    ),
                decreases entries@.len() - i,
            {
                let dir = entries[i].as_str();
                proof {
                    assert(ev.subrange(0, i + 1).drop_last() =~= ev.subrange(0, i as int));
                    assert(ev.subrange(0, i + 1).last() == dir@);
                }
                let ghost before = r@.map_values(|s: String| s@);
                if !(dir.unicode_len() > 0 && dir.get_char(0) == '/') {
                    let mut w = String::from_str("All items in PATH must be absolute, not ");
                    w.append(dir);
                    r.push(w);
                    assert(r@.map_values(|s: String| s@) =~= before.push(relative_warning(dir@)));
                    assert(relative_entries(ev.subrange(0, i + 1)) == relative_entries(
                        ev.subrange(0, i as int),
                    ).push(dir@));
                    assert(relative_entries(ev.subrange(0, i + 1)).map_values(|d: Seq<char>| relative_warning(d))
                        =~= relative_entries(ev.subrange(0, i as int)).map_values(
                        |d: Seq<char>| relative_warning(d),
                    ).push(relative_warning(dir@)));
                }
                i = i + 1;
            }
            assert(ev.subrange(0, ev.len() as int) =~= ev);
            r
        },
    }
}

/// Whether `r` is a possible outcome of resolving the program `name`: an
/// absolute name is used as it is, any other is looked up in `PATH`.
pub open spec fn resolves(env: Seq<(String, String)>, name: Seq<char>, r: Result<String, String>) -> bool {
    if is_absolute(name) {
        r is Ok && r->Ok_0@ == name
    } else {
        exists|found: Seq<bool>| path_lookup(env, name, found, r)
    }
}

fn resolve(ctx: &BuildContext, name: &String) -> (r: Result<String, String>)
    ensures
        resolves(ctx.environ@, name@, r),
{
    if name.as_str().unicode_len() > 0 && name.as_str().get_char(0) == '/' {
        Ok(name.clone())
    } else {
        find_cmd(ctx, name.as_str())
    }
}

/// The environment entries after setting `e`: a variable already present
/// takes the new value in place, a new one is appended.
pub open spec fn set_env(s: Seq<(String, String)>, e: (String, String)) -> Seq<(String, String)> {
    let i = key_pos(s, e.0@, 0);
    if i < 0 {
        s.push(e)
    } else {
        s.update(i, e)
    }
}

/// The environment entries after setting each of `extra` in turn.
pub open spec fn set_all(s: Seq<(String, String)>, extra: Seq<(String, String)>) -> Seq<(String, String)>
    decreases extra.len(),
{
    if extra.len() == 0 {
        s
    } else {
        set_env(set_all(s, extra.drop_last()), extra.last())
    }
}

/// The environment of a command: the build environment overlaid by
/// `extra`, whose values win.
pub open spec fn merged_env(base: Seq<(String, String)>, extra: Seq<(String, String)>) -> Seq<(String, String)> {
    set_all(set_all(Seq::empty(), base), extra)
}

fn set_all_exec(v: &mut Vec<(String, String)>, extra: &Vec<(String, String)>)
    ensures
        final(v)@ == set_all(old(v)@, extra@),
{
    let ghost start = v@;
    let mut i: usize = 0;
    while i < extra.len()
        invariant
            i <= extra@.len(),
            v@ == set_all(start, extra@.subrange(0, i as int)),
        decreases extra@.len() - i,
    {
        let e = (extra[i].0.clone(), extra[i].1.clone());
        assert(e == extra@[i as int]);
        proof {
            let p = extra@.subrange(0, i + 1);
            assert(p.drop_last() =~= extra@.subrange(0, i as int));
            assert(p.last() == e);
        }
        match crate::version::find_key(v, &e.0) {
            Some(j) => {
                v.set(j, e);
            },
            None => {
                v.push(e);
            },
        }
        i = i + 1;
    }
    assert(extra@.subrange(0, extra@.len() as int) =~= extra@);
}

fn clone_args(cmdline: &Vec<String>) -> (r: Vec<String>)
    requires
        cmdline@.len() > 0,
    ensures
        r@ == cmdline@.subrange(1, cmdline@.len() as int),
{
    let mut r: Vec<String> = Vec::new();
    let mut i: usize = 1;
    while i < cmdline.len()
        invariant
            1 <= i <= cmdline@.len(),
            r@ == cmdline@.subrange(1, i as int),
        decreases cmdline@.len() - i,
    {
        r.push(cmdline[i].clone());
        i = i + 1;
        assert(r@ =~= cmdline@.subrange(1, i as int));
    }
    r
}

/// Whether `c` is the command that runs `cmdline` in the sandbox: the
/// program resolved to `exe`, the given working directory, the sandbox
/// root as chroot, the remaining arguments, and the merged environment.
pub open spec fn describes(
    c: Command,
    env: Seq<(String, String)>,
    cmdline: Seq<String>,
    exe: String,
    workdir: Option<String>,
    extra: Seq<(String, String)>,
    capture: bool,
) -> bool {
    &&& c.executable == exe
    &&& c.workdir == workdir
    &&& c.chroot@ == "/vagga/root"@
    &&& c.args@ == cmdline.subrange(1, cmdline.len() as int)
    &&& c.environ@ == merged_env(env, extra)
    &&& c.capture_stdout == capture
}

fn describe(
    ctx: &BuildContext,
    cmdline: &Vec<String>,
    exe: String,
    workdir: Option<String>,
    extra: &Vec<(String, String)>,
    capture: bool,
) -> (c: Command)
    requires
        cmdline@.len() > 0,
    ensures
        describes(c, ctx.environ@, cmdline@, exe, workdir, extra@, capture),
{
    let mut environ: Vec<(String, String)> = Vec::new();
    set_all_exec(&mut environ, &ctx.environ);
    set_all_exec(&mut environ, extra);
    Command {
        executable: exe,
        workdir: workdir,
        chroot: String::from_str("/vagga/root"),
        args: clone_args(cmdline),
        environ: environ,
        capture_stdout: capture,
    }
}

/// The command that runs `cmdline` in the sandbox with working directory
/// `path` and the build environment overlaid by `env`; or the error of
/// resolving its program.
pub fn run_command_at_env(
    ctx: &BuildContext,
    cmdline: &Vec<String>,
    path: &String,
    env: &Vec<(String, String)>,
) -> (r: Result<Command, String>)
    requires
        cmdline@.len() > 0,
    ensures
        match r {
            Ok(c) => resolves(ctx.environ@, cmdline@[0]@, Ok(c.executable)) && describes(
                c,
                ctx.environ@,
                cmdline@,
                c.executable,
                Some(*path),
                env@,
                false,
            ),
            Err(e) => resolves(ctx.environ@, cmdline@[0]@, Err(e)),
        },
{
    match resolve(ctx, &cmdline[0]) {
        Ok(exe) => Ok(describe(ctx, cmdline, exe, Some(path.clone()), env, false)),
        Err(e) => Err(e),
    }
}

/// `run_command_at_env` with no extra environment.
pub fn run_command_at(ctx: &BuildContext, cmdline: &Vec<String>, path: &String) -> (r: Result<Command, String>)
    requires
        cmdline@.len() > 0,
    ensures
        match r {
            Ok(c) => resolves(ctx.environ@, cmdline@[0]@, Ok(c.executable)) && describes(
                c,
                ctx.environ@,
                cmdline@,
                c.executable,
                Some(*path),
                Seq::empty(),
                false,
            ),
            Err(e) => resolves(ctx.environ@, cmdline@[0]@, Err(e)),
        },
{
    let env: Vec<(String, String)> = Vec::new();
    run_command_at_env(ctx, cmdline, path, &env)
}

/// `run_command_at_env` in the default working directory `/work`, with no
/// extra environment.
pub fn run_command(ctx: &BuildContext, cmd: &Vec<String>) -> (r: Result<Command, String>)
    requires
        cmd@.len() > 0,
    ensures
        match r {
            Ok(c) => resolves(ctx.environ@, cmd@[0]@, Ok(c.executable)) && c.workdir is Some
                && c.workdir->Some_0@ == "/work"@ && describes(
                c,
                ctx.environ@,
                cmd@,
                c.executable,
                c.workdir,
                Seq::empty(),
                false,
            ),
            Err(e) => resolves(ctx.environ@, cmd@[0]@, Err(e)),
        },
{
    let env: Vec<(String, String)> = Vec::new();
    let workdir = String::from_str("/work");
    run_command_at_env(ctx, cmd, &workdir, &env)
}

/// The command that runs `cmdline` in the sandbox with its standard
/// output captured, and the build environment overlaid by `env`; or the
/// error of resolving its program.
pub fn capture_command(ctx: &BuildContext, cmdline: &Vec<String>, env: &Vec<(String, String)>) -> (r: Result<
    Command,
    String,
>)
    requires
        cmdline@.len() > 0,
    ensures
        match r {
            Ok(c) => resolves(ctx.environ@, cmdline@[0]@, Ok(c.executable)) && describes(
                c,
                ctx.environ@,
                cmdline@,
                c.executable,
                None,
                env@,
                true,
            ),
            Err(e) => resolves(ctx.environ@, cmdline@[0]@, Err(e)),
        },
{
    match resolve(ctx, &cmdline[0]) {
        Ok(exe) => Ok(describe(ctx, cmdline, exe, None, env, true)),
        Err(e) => Err(e),
    }
}

/// The items of an argument list, quoted and separated by commas.
pub open spec fn items_text(s: Seq<String>) -> Seq<char>
    decreases s.len(),
{
    if s.len() == 0 {
        Seq::empty()
    } else if s.len() == 1 {
        quoted(s[0]@)
    } else {
        items_text(s.drop_last()) + ", "@ + quoted(s.last()@)
    }
}

/// An argument list in brackets, as messages show it.
pub open spec fn argv_text(s: Seq<String>) -> Seq<char> {
    "["@ + items_text(s) + "]"@
}

fn argv_string(cmdline: &Vec<String>) -> (r: String)
    ensures
        r@ == argv_text(cmdline@),
{
    let mut items = String::new();
    let mut i: usize = 0;
    while i < cmdline.len()
        invariant
            i <= cmdline@.len(),
            items@ == items_text(cmdline@.subrange(0, i as int)),
        decreases cmdline@.len() - i,
    {
        if i > 0 {
            items.append(", ");
        }
        items.append(quote(cmdline[i].as_str()).as_str());
        proof {
            let p = cmdline@.subrange(0, i + 1);
            assert(p.drop_last() =~= cmdline@.subrange(0, i as int));
        }
        i = i + 1;
    }
    assert(cmdline@.subrange(0, cmdline@.len() as int) =~= cmdline@);
    let mut r = String::from_str("[");
    r.append(items.as_str());
    r.append("]");
    r
}

pub open spec fn dead_msg(cmdline: Seq<String>) -> Seq<char> {
    "Command "@ + argv_text(cmdline) + " is dead"@
}

pub open spec fn exit_msg(cmdline: Seq<String>, code: int) -> Seq<char> {
    "Command "@ + argv_text(cmdline) + " exited with status "@ + decimal(code)
}

/// What a finished command means: success on exit status 0; otherwise an
/// error that names the command and the status, or says that it is dead.
pub open spec fn status_spec(cmdline: Seq<String>, res: MonitorResult) -> Result<(), Seq<char>> {
    match res {
        MonitorResult::Killed => Err(dead_msg(cmdline)),
        MonitorResult::Exit(code) => if code == 0 {
            Ok(())
        } else {
            Err(exit_msg(cmdline, code as int))
        },
    }
}

/// Interprets how the command `cmdline` ended.
pub fn command_status(cmdline: &Vec<String>, res: MonitorResult) -> (r: Result<(), String>)
    ensures
        match status_spec(cmdline@, res) {
            Ok(_) => r is Ok,
            Err(m) => r is Err && r->Err_0@ == m,
        },
{
    match res {
        MonitorResult::Killed => {
            let mut m = String::from_str("Command ");
            m.append(argv_string(cmdline).as_str());
            m.append(" is dead");
            Err(m)
        },
        MonitorResult::Exit(code) => {
            if code == 0 {
                Ok(())
            } else {
                let mut m = String::from_str("Command ");
                m.append(argv_string(cmdline).as_str());
                m.append(" exited with status ");
                m.append(decimal_string(code).as_str());
                Err(m)
            }
        },
    }
}

/// Interprets how a captured command ended: its output on success, and
/// otherwise the error of `command_status`, the output discarded.
pub fn captured_output(cmdline: &Vec<String>, res: MonitorResult, data: Vec<u8>) -> (r: Result<Vec<u8>, String>)
    ensures
        match status_spec(cmdline@, res) {
            Ok(_) => r is Ok && r->Ok_0@ == data@,
            Err(m) => r is Err && r->Err_0@ == m,
        },
{
    match command_status(cmdline, res) {
        Ok(()) => Ok(data),
        Err(e) => Err(e),
    }
}

} // verus!
