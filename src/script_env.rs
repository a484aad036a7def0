//! The environment and working directory of the build-script process,
//! computed as explicit values from the ambient environment and the
//! invocation's paths.
use vstd::prelude::*;
use crate::env_map::{
    env_lookup, env_pos, env_remove, lemma_env_pos, env_set, env_set_all, lemma_lookup_remove, lemma_lookup_set,
    lookup_env, pairs, remove_env, set_env, set_env_all,
};
use crate::text::{
    append_chars, chars_of, copy_range, find_char, index_of, lemma_index_of_bounds, replace_all,
    lemma_no_placeholder_left, lemma_replace_keeps_absence, occurs_in, placeholder, replaced, same_chars, split_chars, split_on,
    string_of, substitute_root, valid_root, views, with_root,
};

verus! {

/// `p` taken relative to `base`, as `Path::join` does: an absolute `p`
/// stands for itself.
pub open spec fn path_join(base: Seq<char>, p: Seq<char>) -> Seq<char> {
    if p.len() > 0 && p[0] == '/' {
        p
    } else if base.len() == 0 {
        p
    } else if base.last() == '/' {
        base + p
    } else {
        base + seq!['/'] + p
    }
}

/// Joins `p` onto `base`.
pub fn join_path(base: &str, p: &str) -> (r: String)
    ensures
        r@ == path_join(base@, p@),
{
    let b = chars_of(base);
    let pc = chars_of(p);
    if pc.len() > 0 && pc[0] == '/' {
        return string_of(&pc);
    }
    if b.len() == 0 {
        return string_of(&pc);
    }
    let mut out = b.clone();
    if b[b.len() - 1] != '/' {
        out.push('/');
    }
    append_chars(&mut out, &pc);
    string_of(&out)
}

pub open spec fn parent_dir() -> Seq<char> {
    seq!['.', '.']
}

/// Why a run directory was refused.
#[derive(Clone, Copy, Debug, PartialEq, Eq)]
pub enum RundirError {
    /// The run directory is an absolute path.
    Absolute,
    /// The run directory has a `..` component.
    ParentDir,
}

/// Where the build script runs: the manifest directory when `rundir` is
/// empty, else `rundir` under the sandbox root, which must be relative and
/// free of `..`.
pub open spec fn rundir_result(rundir: Seq<char>, exec_root: Seq<char>, manifest_dir: Seq<char>) -> Result<
    Seq<char>,
    RundirError,
> {
    if rundir.len() == 0 {
        Ok(manifest_dir)
    } else if rundir[0] == '/' {
        Err(RundirError::Absolute)
    } else if split_on(rundir, '/').contains(parent_dir()) {
        Err(RundirError::ParentDir)
    } else {
        Ok(path_join(exec_root, rundir))
    }
}

/// Resolves the build script's working directory.
pub fn resolve_rundir(rundir: &str, exec_root: &str, manifest_dir: &str) -> (r: Result<String, RundirError>)
    ensures
        match r {
            Ok(d) => rundir_result(rundir@, exec_root@, manifest_dir@) == Ok::<Seq<char>, RundirError>(d@),
            Err(e) => rundir_result(rundir@, exec_root@, manifest_dir@) == Err::<Seq<char>, RundirError>(e),
        },
{
    let rc = chars_of(rundir);
    if rc.len() == 0 {
        return Ok(manifest_dir.to_owned());
    }
    if rc[0] == '/' {
        return Err(RundirError::Absolute);
    }
    let parts = split_chars(&rc, '/');
    let dotdot: Vec<char> = vec!['.', '.'];
    assert(dotdot@ =~= parent_dir());
    let mut i: usize = 0;
    while i < parts.len()
        invariant
            i <= parts@.len(),
            views(parts@) == split_on(rundir@, '/'),
            rc@ == rundir@,
            rc@.len() > 0 && rc@[0] != '/',
            dotdot@ == parent_dir(),
            forall|j: int| 0 <= j < i ==> views(parts@)[j] != parent_dir(),
        decreases parts@.len() - i,
    {
        if same_chars(&parts[i], &dotdot) {
            assert(views(parts@)[i as int] == parent_dir());
            assert(split_on(rundir@, '/').contains(parent_dir()));
            assert(rundir@.len() > 0 && rundir@[0] != '/');
            return Err(RundirError::ParentDir);
        }
        i = i + 1;
    }
    assert(!split_on(rundir@, '/').contains(parent_dir()));
    Ok(join_path(exec_root, rundir))
}

/// Why a dependency environment file was refused.
#[derive(Clone, Debug, PartialEq, Eq)]
pub enum DepEnvError {
    /// A non-empty line without `=`.
    MissingEquals(String),
}

/// The `KEY=VALUE` records of a dependency environment file, split at each
/// line's first `=`; empty lines are skipped; `None` when a non-empty line has
/// no `=`.
pub open spec fn dep_env_pairs(lines: Seq<Seq<char>>) -> Option<Seq<(Seq<char>, Seq<char>)>>
    decreases lines.len(),
{
    if lines.len() == 0 {
        Some(seq![])
    } else {
        match dep_env_pairs(lines.drop_last()) {
            None => None,
            Some(acc) => {
                let l = lines.last();
                let k = index_of(l, '=');
                if l.len() == 0 {
                    Some(acc)
                } else if k >= l.len() {
                    None
                } else {
                    Some(acc.push((l.subrange(0, k), l.subrange(k + 1, l.len() as int))))
                }
            },
        }
    }
}

/// The records of the dependency environment file `contents`.
pub open spec fn dep_env_records(contents: Seq<char>) -> Option<Seq<(Seq<char>, Seq<char>)>> {
    dep_env_pairs(split_on(contents, '\n'))
}

/// Parses a dependency environment file into its `(key, value)` records.
pub fn parse_dep_env(contents: &str) -> (r: Result<Vec<(String, String)>, DepEnvError>)
    ensures
        match r {
            Ok(v) => dep_env_records(contents@) == Some(pairs(v@)),
            Err(_) => dep_env_records(contents@) is None,
        },
{
    let cs = chars_of(contents);
    let lines = split_chars(&cs, '\n');
    let ghost ls = views(lines@);
    let mut out: Vec<(String, String)> = Vec::new();
    let mut i: usize = 0;
    while i < lines.len()
        invariant
            i <= lines@.len(),
            ls == views(lines@),
            ls == split_on(contents@, '\n'),
            dep_env_pairs(ls.subrange(0, i as int)) == Some(pairs(out@)),
        decreases lines@.len() - i,
    {
        let ghost sub = ls.subrange(0, i + 1);
        assert(sub.drop_last() =~= ls.subrange(0, i as int));
        let l = &lines[i];
        assert(sub.last() == l@);
        if l.len() > 0 {
            let k = find_char(l, '=');
            proof {
                lemma_index_of_bounds(l@, '=');
            }
            if k >= l.len() {
                assert(dep_env_pairs(sub) is None);
                let mut j: usize = i + 1;
                while j < lines.len()
                    invariant
                        i < j <= lines@.len(),
                        ls == views(lines@),
                        dep_env_pairs(ls.subrange(0, j as int)) is None,
                    decreases lines@.len() - j,
                {
                    assert(ls.subrange(0, j + 1).drop_last() =~= ls.subrange(0, j as int));
                    j = j + 1;
                }
                assert(ls.subrange(0, j as int) =~= ls);
                return Err(DepEnvError::MissingEquals(string_of(l)));
            }
            let key = copy_range(l, 0, k);
            let value = copy_range(l, k + 1, l.len());
            let ghost prev = pairs(out@);
            out.push((string_of(&key), string_of(&value)));
            assert(pairs(out@) =~= prev.push((key@, value@)));
        }
        i = i + 1;
    }
    assert(ls.subrange(0, i as int) =~= ls);
    Ok(out)
}

/// The final component of a path, as the name `Path::file_name` compares:
/// trailing `/` and `/.` components are ignored.
pub open spec fn trim_trailing_slashes(p: Seq<char>) -> Seq<char>
    decreases p.len(),
{
    if p.len() > 0 && p.last() == '/' {
        trim_trailing_slashes(p.drop_last())
    } else if p.len() >= 2 && p.last() == '.' && p[p.len() - 2] == '/' {
        trim_trailing_slashes(p.drop_last())
    } else {
        p
    }
}

pub open spec fn after_last_slash(p: Seq<char>) -> Seq<char>
    decreases p.len(),
{
    if p.len() == 0 {
        p
    } else if p.last() == '/' {
        seq![]
    } else {
        after_last_slash(p.drop_last()).push(p.last())
    }
}

pub open spec fn file_name(p: Seq<char>) -> Seq<char> {
    after_last_slash(trim_trailing_slashes(p))
}

pub open spec fn libtool_name() -> Seq<char> {
    seq!['l', 'i', 'b', 't', 'o', 'o', 'l']
}

/// Whether the last component of `p` is `libtool`.
pub fn is_libtool(p: &str) -> (r: bool)
    ensures
        r == (file_name(p@) == libtool_name()),
{
    let pc = chars_of(p);
    let mut end: usize = pc.len();
    assert(pc@.subrange(0, pc@.len() as int) =~= pc@);
    while end > 0 && (pc[end - 1] == '/' || (end >= 2 && pc[end - 1] == '.' && pc[end - 2] == '/'))
        invariant
            end <= pc@.len(),
            pc@ == p@,
            trim_trailing_slashes(p@) == trim_trailing_slashes(pc@.subrange(0, end as int)),
        decreases end,
    {
        assert(pc@.subrange(0, end as int).drop_last() =~= pc@.subrange(0, end - 1));
        end = end - 1;
    }
    assert(pc@.subrange(0, pc@.len() as int) =~= pc@);
    let ghost t = pc@.subrange(0, end as int);
    assert(trim_trailing_slashes(t) == t);
    let mut start: usize = end;
    while start > 0 && pc[start - 1] != '/'
        invariant
            start <= end <= pc@.len(),
            t == pc@.subrange(0, end as int),
            after_last_slash(t) == after_last_slash(pc@.subrange(0, start as int)) + pc@.subrange(start as int, end as int),
        decreases start,
    {
        let ghost u = pc@.subrange(0, start as int);
        assert(u.drop_last() =~= pc@.subrange(0, start - 1));
        assert(pc@.subrange(start - 1, end as int) =~= seq![u.last()] + pc@.subrange(start as int, end as int));
        start = start - 1;
        assert(after_last_slash(t) =~= after_last_slash(pc@.subrange(0, start as int)) + pc@.subrange(start as int, end as int));
    }
    assert(after_last_slash(pc@.subrange(0, start as int)) =~= Seq::<char>::empty());
    assert(after_last_slash(t) =~= pc@.subrange(start as int, end as int));
    let name = copy_range(&pc, start, end);
    let lt: Vec<char> = vec!['l', 'i', 'b', 't', 'o', 'o', 'l'];
    assert(lt@ =~= libtool_name());
    same_chars(&name, &lt)
}

/// The literal four-character escape `\x1f`.
pub open spec fn unit_separator_escape() -> Seq<char> {
    seq!['\\', 'x', '1', 'f']
}

/// `s` with each literal `\x1f` escape turned into the unit-separator
/// character.
pub open spec fn unescaped(s: Seq<char>) -> Seq<char> {
    replaced(s, unit_separator_escape(), seq!['\x1f'])
}

pub open spec fn cc_name() -> Seq<char> { seq!['C', 'C'] }
pub open spec fn cxx_name() -> Seq<char> { seq!['C', 'X', 'X'] }
pub open spec fn ld_name() -> Seq<char> { seq!['L', 'D'] }
pub open spec fn ar_name() -> Seq<char> { seq!['A', 'R'] }
pub open spec fn encoded_rustflags_name() -> Seq<char> {
    seq!['C', 'A', 'R', 'G', 'O', '_', 'E', 'N', 'C', 'O', 'D', 'E', 'D', '_', 'R', 'U', 'S', 'T', 'F', 'L', 'A', 'G', 'S']
}
pub open spec fn out_dir_name() -> Seq<char> { seq!['O', 'U', 'T', '_', 'D', 'I', 'R'] }
pub open spec fn manifest_dir_name() -> Seq<char> {
    seq!['C', 'A', 'R', 'G', 'O', '_', 'M', 'A', 'N', 'I', 'F', 'E', 'S', 'T', '_', 'D', 'I', 'R']
}
pub open spec fn rustc_name() -> Seq<char> { seq!['R', 'U', 'S', 'T', 'C'] }
pub open spec fn backtrace_name() -> Seq<char> {
    seq!['R', 'U', 'S', 'T', '_', 'B', 'A', 'C', 'K', 'T', 'R', 'A', 'C', 'E']
}
pub open spec fn full_word() -> Seq<char> { seq!['f', 'u', 'l', 'l'] }

/// A tool path variable, when the ambient environment sets it, rewritten
/// relative to the sandbox root.
pub open spec fn with_tool(
    m: Seq<(Seq<char>, Seq<char>)>,
    ambient: Seq<(Seq<char>, Seq<char>)>,
    name: Seq<char>,
    root: Seq<char>,
) -> Seq<(Seq<char>, Seq<char>)> {
    match env_lookup(ambient, name) {
        Some(v) => env_set(m, name, path_join(root, v)),
        None => m,
    }
}

/// `AR`, when set: dropped when it names the `libtool` wrapper, else rewritten
/// relative to the sandbox root.
pub open spec fn with_archiver(
    m: Seq<(Seq<char>, Seq<char>)>,
    ambient: Seq<(Seq<char>, Seq<char>)>,
    root: Seq<char>,
) -> Seq<(Seq<char>, Seq<char>)> {
    match env_lookup(ambient, ar_name()) {
        Some(v) => if file_name(v) == libtool_name() {
            env_remove(m, ar_name())
        } else {
            env_set(m, ar_name(), path_join(root, v))
        },
        None => m,
    }
}

/// `CARGO_ENCODED_RUSTFLAGS`, when set: `${pwd}` replaced by the sandbox
/// root, then its escapes undone.
pub open spec fn with_encoded_rustflags(
    m: Seq<(Seq<char>, Seq<char>)>,
    ambient: Seq<(Seq<char>, Seq<char>)>,
    root: Seq<char>,
) -> Seq<(Seq<char>, Seq<char>)> {
    match env_lookup(ambient, encoded_rustflags_name()) {
        Some(v) => env_set(m, encoded_rustflags_name(), unescaped(with_root(v, root))),
        None => m,
    }
}

/// Every value with `${pwd}` replaced by the sandbox root.
pub open spec fn rooted(m: Seq<(Seq<char>, Seq<char>)>, root: Seq<char>) -> Seq<(Seq<char>, Seq<char>)> {
    m.map_values(|e: (Seq<char>, Seq<char>)| (e.0, with_root(e.1, root)))
}

/// The environment before the tool paths: the ambient variables, the
/// `CARGO_CFG_*` variables, the invocation paths, `RUST_BACKTRACE=full` and
/// the upstream dependency records, each later one overriding.
pub open spec fn base_env(
    ambient: Seq<(Seq<char>, Seq<char>)>,
    root: Seq<char>,
    out_dir: Seq<char>,
    manifest_dir: Seq<char>,
    rustc: Seq<char>,
    cfg_vars: Seq<(Seq<char>, Seq<char>)>,
    dep_env: Seq<(Seq<char>, Seq<char>)>,
) -> Seq<(Seq<char>, Seq<char>)> {
    let m0 = env_set_all(env_set_all(seq![], ambient), cfg_vars);
    let m1 = env_set(m0, out_dir_name(), path_join(root, out_dir));
    let m2 = env_set(m1, manifest_dir_name(), path_join(root, manifest_dir));
    let m3 = env_set(m2, rustc_name(), path_join(root, rustc));
    let m4 = env_set(m3, backtrace_name(), full_word());
    env_set_all(m4, dep_env)
}

/// The build script's whole environment.
pub open spec fn child_env(
    ambient: Seq<(Seq<char>, Seq<char>)>,
    root: Seq<char>,
    out_dir: Seq<char>,
    manifest_dir: Seq<char>,
    rustc: Seq<char>,
    cfg_vars: Seq<(Seq<char>, Seq<char>)>,
    dep_env: Seq<(Seq<char>, Seq<char>)>,
) -> Seq<(Seq<char>, Seq<char>)> {
    let amb = env_set_all(seq![], ambient);
    let m = base_env(ambient, root, out_dir, manifest_dir, rustc, cfg_vars, dep_env);
    let t = with_tool(with_tool(with_tool(m, amb, cc_name(), root), amb, cxx_name(), root), amb, ld_name(), root);
    with_encoded_rustflags(rooted(with_archiver(t, amb, root), root), amb, root)
}

fn name_of(s: &str) -> (r: String)
    ensures
        r@ == s@,
{
    s.to_owned()
}

fn set_tool(m: &mut Vec<(String, String)>, amb: &Vec<(String, String)>, name: &str, root: &str)
    ensures
        pairs(final(m)@) == with_tool(pairs(old(m)@), pairs(amb@), name@, root@),
{
    let n = name_of(name);
    match lookup_env(amb, &n) {
        Some(v) => set_env(m, n, join_path(root, v.as_str())),
        None => {},
    }
}

/// Builds the build script's environment from the ambient one, the sandbox
/// root `exec_root`, the output and manifest directories and compiler path
/// (each taken relative to the root), the `CARGO_CFG_*` variables and the
/// upstream dependency records.
pub fn build_child_env(
    ambient: &Vec<(String, String)>,
    exec_root: &str,
    out_dir: &str,
    manifest_dir: &str,
    rustc: &str,
    cfg_vars: &Vec<(String, String)>,
    dep_env: &Vec<(String, String)>,
) -> (r: Vec<(String, String)>)
    ensures
        pairs(r@) == child_env(
            pairs(ambient@),
            exec_root@,
            out_dir@,
            manifest_dir@,
            rustc@,
            pairs(cfg_vars@),
            pairs(dep_env@),
        ),
{
    proof {
        reveal_strlit("CC");
        reveal_strlit("CXX");
        reveal_strlit("LD");
        reveal_strlit("AR");
        reveal_strlit("OUT_DIR");
        reveal_strlit("CARGO_MANIFEST_DIR");
        reveal_strlit("RUSTC");
        reveal_strlit("RUST_BACKTRACE");
        reveal_strlit("full");
        reveal_strlit("CARGO_ENCODED_RUSTFLAGS");
        assert("CC"@ =~= cc_name());
        assert("CXX"@ =~= cxx_name());
        assert("LD"@ =~= ld_name());
        assert("AR"@ =~= ar_name());
        assert("OUT_DIR"@ =~= out_dir_name());
        assert("CARGO_MANIFEST_DIR"@ =~= manifest_dir_name());
        assert("RUSTC"@ =~= rustc_name());
        assert("RUST_BACKTRACE"@ =~= backtrace_name());
        assert("full"@ =~= full_word());
        assert("CARGO_ENCODED_RUSTFLAGS"@ =~= encoded_rustflags_name());
    }
    let mut amb: Vec<(String, String)> = Vec::new();
    assert(pairs(amb@) =~= Seq::<(Seq<char>, Seq<char>)>::empty());
    set_env_all(&mut amb, ambient);
    let mut m: Vec<(String, String)> = Vec::new();
    assert(pairs(m@) =~= Seq::<(Seq<char>, Seq<char>)>::empty());
    set_env_all(&mut m, ambient);
    set_env_all(&mut m, cfg_vars);
    set_env(&mut m, name_of("OUT_DIR"), join_path(exec_root, out_dir));
    set_env(&mut m, name_of("CARGO_MANIFEST_DIR"), join_path(exec_root, manifest_dir));
    set_env(&mut m, name_of("RUSTC"), join_path(exec_root, rustc));
    set_env(&mut m, name_of("RUST_BACKTRACE"), name_of("full"));
    set_env_all(&mut m, dep_env);
    let ghost a = pairs(amb@);
    let ghost root_v = exec_root@;
    assert(a == env_set_all(seq![], pairs(ambient@)));
    assert(pairs(m@) == base_env(pairs(ambient@), root_v, out_dir@, manifest_dir@, rustc@, pairs(cfg_vars@), pairs(dep_env@)));
    let ghost m_base = pairs(m@);
    set_tool(&mut m, &amb, "CC", exec_root);
    set_tool(&mut m, &amb, "CXX", exec_root);
    set_tool(&mut m, &amb, "LD", exec_root);
    let ghost m_tools = pairs(m@);
    assert(m_tools == with_tool(with_tool(with_tool(m_base, a, cc_name(), root_v), a, cxx_name(), root_v), a, ld_name(), root_v));
    let ar = name_of("AR");
    match lookup_env(&amb, &ar) {
        Some(v) => {
            if is_libtool(v.as_str()) {
                m = remove_env(&m, &ar);
            } else {
                set_env(&mut m, ar, join_path(exec_root, v.as_str()));
            }
        },
        None => {},
    }
    assert(pairs(m@) == with_archiver(m_tools, a, root_v));
    let root = chars_of(exec_root);
    let mut out: Vec<(String, String)> = Vec::new();
    let mut i: usize = 0;
    while i < m.len()
        invariant
            i <= m@.len(),
            root@ == exec_root@,
            out@.len() == i,
            forall|j: int| 0 <= j < i ==> (#[trigger] pairs(out@)[j]) == rooted(pairs(m@), exec_root@)[j],
        decreases m@.len() - i,
    {
        let vc = chars_of(m[i].1.as_str());
        let sv = substitute_root(&vc, &root);
        let ghost prev = out@;
        out.push((m[i].0.clone(), string_of(&sv)));
        assert(pairs(out@)[i as int] == rooted(pairs(m@), exec_root@)[i as int]);
        assert forall|j: int| 0 <= j < i implies (#[trigger] pairs(out@)[j]) == rooted(pairs(m@), exec_root@)[j] by {
            assert(out@[j] == prev[j]);
            assert(pairs(out@)[j] == pairs(prev)[j]);
        }
        i = i + 1;
    }
    assert(pairs(out@) =~= rooted(pairs(m@), exec_root@));
    let enc = name_of("CARGO_ENCODED_RUSTFLAGS");
    match lookup_env(&amb, &enc) {
        Some(v) => {
            let vc = chars_of(v.as_str());
            let rv = substitute_root(&vc, &root);
            let esc: Vec<char> = vec!['\\', 'x', '1', 'f'];
            let sep: Vec<char> = vec!['\x1f'];
            assert(esc@ =~= unit_separator_escape());
            assert(sep@ =~= seq!['\x1f']);
            let u = replace_all(&rv, &esc, &sep);
            set_env(&mut out, enc, string_of(&u));
        },
        None => {},
    }
    out
}

proof fn lemma_pos_rooted(m: Seq<(Seq<char>, Seq<char>)>, root: Seq<char>, k: Seq<char>)
    ensures
        env_pos(rooted(m, root), k) == env_pos(m, k),
    decreases m.len(),
{
    if m.len() > 0 {
        let rest = m.subrange(1, m.len() as int);
        lemma_pos_rooted(rest, root, k);
        assert(rooted(m, root).subrange(1, m.len() as int) =~= rooted(rest, root));
    }
}

proof fn lemma_lookup_rooted(m: Seq<(Seq<char>, Seq<char>)>, root: Seq<char>, k: Seq<char>)
    ensures
        env_lookup(rooted(m, root), k) == match env_lookup(m, k) {
            Some(v) => Some(with_root(v, root)),
            None => None,
        },
{
    lemma_pos_rooted(m, root, k);
}

proof fn lemma_lookup_set_all(
    m: Seq<(Seq<char>, Seq<char>)>,
    kvs: Seq<(Seq<char>, Seq<char>)>,
    k: Seq<char>,
)
    ensures
        env_lookup(env_set_all(m, kvs), k) == match env_lookup(env_set_all(seq![], kvs), k) {
            Some(v) => Some(v),
            None => env_lookup(m, k),
        },
    decreases kvs.len(),
{
    if kvs.len() > 0 {
        let last = kvs.last();
        lemma_lookup_set_all(m, kvs.drop_last(), k);
        lemma_lookup_set(env_set_all(m, kvs.drop_last()), last.0, last.1, k);
        lemma_lookup_set(env_set_all(seq![], kvs.drop_last()), last.0, last.1, k);
    }
}

proof fn lemma_lookup_tool(
    m: Seq<(Seq<char>, Seq<char>)>,
    amb: Seq<(Seq<char>, Seq<char>)>,
    name: Seq<char>,
    root: Seq<char>,
    k: Seq<char>,
)
    requires
        k != name,
    ensures
        env_lookup(with_tool(m, amb, name, root), k) == env_lookup(m, k),
{
    match env_lookup(amb, name) {
        Some(v) => lemma_lookup_set(m, name, path_join(root, v), k),
        None => {},
    }
}

/// The `AR` rule: when the ambient `AR` names the `libtool` wrapper the build
/// script sees no `AR` at all; any other ambient `AR` reaches it rewritten
/// relative to the sandbox root.
pub proof fn lemma_archiver_rule(
    ambient: Seq<(Seq<char>, Seq<char>)>,
    root: Seq<char>,
    out_dir: Seq<char>,
    manifest_dir: Seq<char>,
    rustc: Seq<char>,
    cfg_vars: Seq<(Seq<char>, Seq<char>)>,
    dep_env: Seq<(Seq<char>, Seq<char>)>,
)
    ensures
        ({
            let env = child_env(ambient, root, out_dir, manifest_dir, rustc, cfg_vars, dep_env);
            match env_lookup(env_set_all(seq![], ambient), ar_name()) {
                Some(v) => if file_name(v) == libtool_name() {
                    env_lookup(env, ar_name()) is None
                } else {
                    env_lookup(env, ar_name()) == Some(with_root(path_join(root, v), root))
                },
                None => true,
            }
        }),
{
    let amb = env_set_all(seq![], ambient);
    let m = base_env(ambient, root, out_dir, manifest_dir, rustc, cfg_vars, dep_env);
    let t = with_tool(with_tool(with_tool(m, amb, cc_name(), root), amb, cxx_name(), root), amb, ld_name(), root);
    let a = with_archiver(t, amb, root);
    lemma_lookup_rooted(a, root, ar_name());
    assert(ar_name() != encoded_rustflags_name());
    match env_lookup(amb, encoded_rustflags_name()) {
        Some(v) => lemma_lookup_set(rooted(a, root), encoded_rustflags_name(), unescaped(with_root(v, root)), ar_name()),
        None => {},
    }
    match env_lookup(amb, ar_name()) {
        Some(v) => {
            if file_name(v) == libtool_name() {
                lemma_lookup_remove(t, ar_name(), ar_name());
            } else {
                lemma_lookup_set(t, ar_name(), path_join(root, v), ar_name());
            }
        },
        None => {},
    }
}

/// The names that the pipeline itself derives from the ambient environment
/// after the dependency records are applied.
pub open spec fn rewritten_name(k: Seq<char>) -> bool {
    k == cc_name() || k == cxx_name() || k == ld_name() || k == ar_name() || k
        == encoded_rustflags_name()
}

/// A dependency record reaches the build script: the value that the records
/// give a name (the last record for it) is what the build script sees, with
/// `${pwd}` replaced by the sandbox root, unless the name is one of the tool
/// or encoded-flag variables that the pipeline rewrites itself.
pub proof fn lemma_dep_record_reaches_script(
    ambient: Seq<(Seq<char>, Seq<char>)>,
    root: Seq<char>,
    out_dir: Seq<char>,
    manifest_dir: Seq<char>,
    rustc: Seq<char>,
    cfg_vars: Seq<(Seq<char>, Seq<char>)>,
    dep_env: Seq<(Seq<char>, Seq<char>)>,
    k: Seq<char>,
    v: Seq<char>,
)
    requires
        env_lookup(env_set_all(seq![], dep_env), k) == Some(v),
        !rewritten_name(k),
    ensures
        env_lookup(child_env(ambient, root, out_dir, manifest_dir, rustc, cfg_vars, dep_env), k)
            == Some(with_root(v, root)),
{
    let amb = env_set_all(seq![], ambient);
    let m0 = env_set_all(env_set_all(seq![], ambient), cfg_vars);
    let m1 = env_set(m0, out_dir_name(), path_join(root, out_dir));
    let m2 = env_set(m1, manifest_dir_name(), path_join(root, manifest_dir));
    let m3 = env_set(m2, rustc_name(), path_join(root, rustc));
    let m4 = env_set(m3, backtrace_name(), full_word());
    let m = base_env(ambient, root, out_dir, manifest_dir, rustc, cfg_vars, dep_env);
    assert(m == env_set_all(m4, dep_env));
    lemma_lookup_set_all(m4, dep_env, k);
    let t1 = with_tool(m, amb, cc_name(), root);
    let t2 = with_tool(t1, amb, cxx_name(), root);
    let t = with_tool(t2, amb, ld_name(), root);
    lemma_lookup_tool(m, amb, cc_name(), root, k);
    lemma_lookup_tool(t1, amb, cxx_name(), root, k);
    lemma_lookup_tool(t2, amb, ld_name(), root, k);
    let a = with_archiver(t, amb, root);
    match env_lookup(amb, ar_name()) {
        Some(w) => {
            if file_name(w) == libtool_name() {
                lemma_lookup_remove(t, ar_name(), k);
            } else {
                lemma_lookup_set(t, ar_name(), path_join(root, w), k);
            }
        },
        None => {},
    }
    match env_lookup(amb, encoded_rustflags_name()) {
        Some(w) => lemma_lookup_set(rooted(a, root), encoded_rustflags_name(), unescaped(with_root(w, root)), k),
        None => {},
    }
    lemma_lookup_rooted(a, root, k);
}

/// A non-empty line without `=` makes the whole dependency environment file
/// fail to parse; it is never skipped.
pub proof fn lemma_dep_env_rejects_line(lines: Seq<Seq<char>>, j: int)
    requires
        0 <= j < lines.len(),
        lines[j].len() > 0,
        index_of(lines[j], '=') >= lines[j].len(),
    ensures
        dep_env_pairs(lines) is None,
    decreases lines.len(),
{
    if j < lines.len() - 1 {
        let init = lines.drop_last();
        assert(init[j] == lines[j]);
        lemma_dep_env_rejects_line(init, j);
    }
}

/// With a valid sandbox root, no value of the build script's environment
/// holds `${pwd}`.
pub proof fn lemma_child_env_has_no_placeholder(
    ambient: Seq<(Seq<char>, Seq<char>)>,
    root: Seq<char>,
    out_dir: Seq<char>,
    manifest_dir: Seq<char>,
    rustc: Seq<char>,
    cfg_vars: Seq<(Seq<char>, Seq<char>)>,
    dep_env: Seq<(Seq<char>, Seq<char>)>,
)
    requires
        valid_root(root),
    ensures
        forall|i: int|
            0 <= i < child_env(ambient, root, out_dir, manifest_dir, rustc, cfg_vars, dep_env).len()
                ==> !occurs_in(
                (#[trigger] child_env(ambient, root, out_dir, manifest_dir, rustc, cfg_vars, dep_env)[i]).1,
                placeholder(),
            ),
{
    let env = child_env(ambient, root, out_dir, manifest_dir, rustc, cfg_vars, dep_env);
    assert forall|i: int| 0 <= i < env.len() implies !occurs_in(#[trigger] env[i].1, placeholder()) by {
        let amb = env_set_all(seq![], ambient);
        let m = base_env(ambient, root, out_dir, manifest_dir, rustc, cfg_vars, dep_env);
        let t = with_tool(with_tool(with_tool(m, amb, cc_name(), root), amb, cxx_name(), root), amb, ld_name(), root);
        let pre = rooted(with_archiver(t, amb, root), root);
        match env_lookup(amb, encoded_rustflags_name()) {
            Some(v) => {
                let u = unescaped(with_root(v, root));
                lemma_no_placeholder_left(v, root);
                lemma_replace_keeps_absence(with_root(v, root), unit_separator_escape(), seq!['\x1f'], placeholder());
                lemma_env_pos(pre, encoded_rustflags_name());
                if env[i].0 == encoded_rustflags_name() && env[i].1 == u {
                } else {
                    assert(i < pre.len() && env[i] == pre[i]);
                    lemma_no_placeholder_left(with_archiver(t, amb, root)[i].1, root);
                }
            },
            None => {
                assert(env[i] == pre[i]);
                lemma_no_placeholder_left(with_archiver(t, amb, root)[i].1, root);
            },
        }
    }
}

} // verus!
