//! The build-script directive protocol: decoding `cargo:<key>=<value>` lines
//! and rendering the artifacts that later compile and link actions read.
use vstd::prelude::*;
use crate::names::swap_char;
use crate::text::{
    append_chars, chars_of, copy_range, find_char, index_of, lemma_index_of_bounds,
    lemma_no_placeholder_left, lines_of, occurs_in, placeholder, same_chars, split_lines,
    string_of, substitute_root, to_upper, upper_of, valid_root, views, with_root,
};

verus! {

/// One decoded directive line.
#[derive(Clone, Debug, PartialEq, Eq)]
pub enum Directive {
    /// `cargo:rustc-link-lib=<lib>`
    LinkLib(String),
    /// `cargo:rustc-link-search=<path>`
    LinkSearch(String),
    /// `cargo:rustc-cfg=<cfg>`
    Cfg(String),
    /// `cargo:rustc-flags=<flags>`
    Flags(String),
    /// `cargo:rustc-link-arg=<arg>`
    LinkArg(String),
    /// `cargo:rustc-env=<NAME>=<value>`
    Env(String),
    /// `cargo:<key>=<value>` metadata: the key upper-cased with `-` as `_`,
    /// and the value.
    Metadata(String, String),
    /// `cargo:rerun-if-changed` or `cargo:rerun-if-env-changed`.
    RerunTrigger,
    /// `cargo:warning=<text>`, with the text as written.
    Warning(String),
    /// A known directive that this pipeline does not carry over (its key).
    Unsupported(String),
}

/// A directive with its strings as character sequences.
pub ghost enum DirectiveModel {
    LinkLib(Seq<char>),
    LinkSearch(Seq<char>),
    Cfg(Seq<char>),
    Flags(Seq<char>),
    LinkArg(Seq<char>),
    Env(Seq<char>),
    Metadata(Seq<char>, Seq<char>),
    RerunTrigger,
    Warning(Seq<char>),
    Unsupported(Seq<char>),
}

impl View for Directive {
    type V = DirectiveModel;

    open spec fn view(&self) -> DirectiveModel {
        match self {
            Directive::LinkLib(s) => DirectiveModel::LinkLib(s@),
            Directive::LinkSearch(s) => DirectiveModel::LinkSearch(s@),
            Directive::Cfg(s) => DirectiveModel::Cfg(s@),
            Directive::Flags(s) => DirectiveModel::Flags(s@),
            Directive::LinkArg(s) => DirectiveModel::LinkArg(s@),
            Directive::Env(s) => DirectiveModel::Env(s@),
            Directive::Metadata(k, v) => DirectiveModel::Metadata(k@, v@),
            Directive::RerunTrigger => DirectiveModel::RerunTrigger,
            Directive::Warning(s) => DirectiveModel::Warning(s@),
            Directive::Unsupported(s) => DirectiveModel::Unsupported(s@),
        }
    }
}

/// A character with the Unicode `White_Space` property, the whitespace that
/// `str::trim` removes.
pub open spec fn unicode_whitespace(c: char) -> bool {
    let u = c as u32;
    (0x09 <= u <= 0x0d) || u == 0x20 || u == 0x85 || u == 0xa0 || u == 0x1680 || (0x2000 <= u
        <= 0x200a) || u == 0x2028 || u == 0x2029 || u == 0x202f || u == 0x205f || u == 0x3000
}

pub open spec fn trim_start(s: Seq<char>) -> Seq<char>
    decreases s.len(),
{
    if s.len() > 0 && unicode_whitespace(s[0]) {
        trim_start(s.subrange(1, s.len() as int))
    } else {
        s
    }
}

pub open spec fn trim_end(s: Seq<char>) -> Seq<char>
    decreases s.len(),
{
    if s.len() > 0 && unicode_whitespace(s.last()) {
        trim_end(s.drop_last())
    } else {
        s
    }
}

/// `s` without leading and trailing whitespace.
pub open spec fn trimmed(s: Seq<char>) -> Seq<char> {
    trim_end(trim_start(s))
}

fn is_whitespace(c: char) -> (r: bool)
    ensures
        r == unicode_whitespace(c),
{
    let u = c as u32;
    (0x09 <= u && u <= 0x0d) || u == 0x20 || u == 0x85 || u == 0xa0 || u == 0x1680 || (0x2000 <= u
        && u <= 0x200a) || u == 0x2028 || u == 0x2029 || u == 0x202f || u == 0x205f || u == 0x3000
}

/// Removes leading and trailing whitespace.
fn trim_chars(s: &Vec<char>) -> (r: Vec<char>)
    ensures
        r@ == trimmed(s@),
{
    let mut start: usize = 0;
    assert(s@.subrange(0, s@.len() as int) =~= s@);
    while start < s.len() && is_whitespace(s[start])
        invariant
            start <= s@.len(),
            trim_start(s@) == trim_start(s@.subrange(start as int, s@.len() as int)),
        decreases s@.len() - start,
    {
        assert(s@.subrange(start as int, s@.len() as int).subrange(1, s@.len() - start) =~= s@.subrange(
            start + 1,
            s@.len() as int,
        ));
        start = start + 1;
    }
    let ghost head = s@.subrange(start as int, s@.len() as int);
    assert(trim_start(head) == head);
    let mut end: usize = s.len();
    assert(head.subrange(0, head.len() as int) =~= head);
    while end > start && is_whitespace(s[end - 1])
        invariant
            start <= end <= s@.len(),
            head == s@.subrange(start as int, s@.len() as int),
            trim_end(head) == trim_end(s@.subrange(start as int, end as int)),
        decreases end,
    {
        assert(s@.subrange(start as int, end as int).drop_last() =~= s@.subrange(start as int, end - 1));
        end = end - 1;
    }
    copy_range(s, start, end)
}

/// The metadata key that dependents see: upper-cased, `-` as `_`.
pub open spec fn metadata_key(k: Seq<char>) -> Seq<char> {
    swap_char(upper_of(k), '-', '_')
}

/// The directive that a key (after `cargo:`) and its raw value make.
pub open spec fn directive_of(kind: Seq<char>, raw: Seq<char>) -> DirectiveModel {
    let p = trimmed(raw);
    if kind == "rustc-link-lib"@ {
        DirectiveModel::LinkLib(p)
    } else if kind == "rustc-link-search"@ {
        DirectiveModel::LinkSearch(p)
    } else if kind == "rustc-cfg"@ {
        DirectiveModel::Cfg(p)
    } else if kind == "rustc-flags"@ {
        DirectiveModel::Flags(p)
    } else if kind == "rustc-link-arg"@ {
        DirectiveModel::LinkArg(p)
    } else if kind == "rustc-env"@ {
        DirectiveModel::Env(p)
    } else if kind == "rerun-if-changed"@ || kind == "rerun-if-env-changed"@ {
        DirectiveModel::RerunTrigger
    } else if kind == "warning"@ {
        DirectiveModel::Warning(raw)
    } else if kind == "rustc-cdylib-link-arg"@ || kind == "rustc-link-arg-bin"@ || kind
        == "rustc-link-arg-bins"@ || kind == "rustc-link-arg-benches"@ {
        DirectiveModel::Unsupported(kind)
    } else {
        DirectiveModel::Metadata(metadata_key(kind), p)
    }
}

/// The directive on a line, if it is one: `cargo:<key>=<value>`, split at
/// the first `=` and the first `:`.
pub open spec fn decode_line(l: Seq<char>) -> Option<DirectiveModel> {
    let k = index_of(l, '=');
    if k < 0 || k >= l.len() {
        None
    } else {
        let head = l.subrange(0, k);
        let c = index_of(head, ':');
        if c < 0 || c >= head.len() || head.subrange(0, c) != "cargo"@ {
            None
        } else {
            Some(directive_of(head.subrange(c + 1, head.len() as int), l.subrange(k + 1, l.len() as int)))
        }
    }
}

/// The directives of a run's output lines, in order.
pub open spec fn decode_all(lines: Seq<Seq<char>>) -> Seq<DirectiveModel>
    decreases lines.len(),
{
    if lines.len() == 0 {
        seq![]
    } else {
        match decode_line(lines.last()) {
            Some(d) => decode_all(lines.drop_last()).push(d),
            None => decode_all(lines.drop_last()),
        }
    }
}

/// The models of a list of directives.
pub open spec fn models(ds: Seq<Directive>) -> Seq<DirectiveModel> {
    ds.map_values(|d: Directive| d@)
}

fn is_lit(v: &Vec<char>, s: &str) -> (r: bool)
    ensures
        r == (v@ == s@),
{
    let c = chars_of(s);
    same_chars(v, &c)
}

impl Directive {
    /// Decodes one line of build-script output; `None` when it is not a
    /// `cargo:` directive.
    pub fn parse(line: &str) -> (r: Option<Directive>)
        ensures
            match r {
                Some(d) => decode_line(line@) == Some(d@),
                None => decode_line(line@) is None,
            },
    {
        let l = chars_of(line);
        let k = find_char(&l, '=');
        proof {
            lemma_index_of_bounds(l@, '=');
        }
        if k >= l.len() {
            return None;
        }
        let head = copy_range(&l, 0, k);
        let c = find_char(&head, ':');
        proof {
            lemma_index_of_bounds(head@, ':');
        }
        if c >= head.len() {
            return None;
        }
        let pre = copy_range(&head, 0, c);
        if !is_lit(&pre, "cargo") {
            return None;
        }
        let kind = copy_range(&head, c + 1, head.len());
        let raw = copy_range(&l, k + 1, l.len());
        Some(Self::from_parts(&kind, &raw))
    }

    fn from_parts(kind: &Vec<char>, raw: &Vec<char>) -> (r: Directive)
        ensures
            r@ == directive_of(kind@, raw@),
    {
        let p = string_of(&trim_chars(raw));
        if is_lit(kind, "rustc-link-lib") {
            Directive::LinkLib(p)
        } else if is_lit(kind, "rustc-link-search") {
            Directive::LinkSearch(p)
        } else if is_lit(kind, "rustc-cfg") {
            Directive::Cfg(p)
        } else if is_lit(kind, "rustc-flags") {
            Directive::Flags(p)
        } else if is_lit(kind, "rustc-link-arg") {
            Directive::LinkArg(p)
        } else if is_lit(kind, "rustc-env") {
            Directive::Env(p)
        } else if is_lit(kind, "rerun-if-changed") || is_lit(kind, "rerun-if-env-changed") {
            Directive::RerunTrigger
        } else if is_lit(kind, "warning") {
            Directive::Warning(string_of(raw))
        } else if is_lit(kind, "rustc-cdylib-link-arg") || is_lit(kind, "rustc-link-arg-bin")
            || is_lit(kind, "rustc-link-arg-bins") || is_lit(kind, "rustc-link-arg-benches") {
            Directive::Unsupported(string_of(kind))
        } else {
            let up = to_upper(kind);
            let mut key: Vec<char> = Vec::new();
            let mut i: usize = 0;
            while i < up.len()
                invariant
                    i <= up@.len(),
                    key@ == swap_char(up@.subrange(0, i as int), '-', '_'),
                decreases up@.len() - i,
            {
                if up[i] == '-' {
                    key.push('_');
                } else {
                    key.push(up[i]);
                }
                i = i + 1;
                assert(key@ =~= swap_char(up@.subrange(0, i as int), '-', '_'));
            }
            assert(up@.subrange(0, i as int) =~= up@);
            Directive::Metadata(string_of(&key), p)
        }
    }
}

/// Decodes every directive line of a build script's standard output, in
/// order; other lines are left out.
pub fn parse_directives(stdout: &str) -> (r: Vec<Directive>)
    ensures
        models(r@) == decode_all(split_lines(stdout@)),
{
    let cs = chars_of(stdout);
    let lines = lines_of(&cs);
    let ghost ls = views(lines@);
    let mut out: Vec<Directive> = Vec::new();
    let mut i: usize = 0;
    assert(models(out@) =~= decode_all(ls.subrange(0, 0)));
    while i < lines.len()
        invariant
            i <= lines@.len(),
            ls == views(lines@),
            models(out@) == decode_all(ls.subrange(0, i as int)),
        decreases lines@.len() - i,
    {
        assert(ls.subrange(0, i + 1).drop_last() =~= ls.subrange(0, i as int));
        let line = string_of(&lines[i]);
        let ghost prev = models(out@);
        match Directive::parse(line.as_str()) {
            Some(d) => {
                out.push(d);
                assert(models(out@) =~= prev.push(d@));
            },
            None => {},
        }
        i = i + 1;
    }
    assert(ls.subrange(0, i as int) =~= ls);
    out
}

/// The artifacts rendered from a run's directives.
#[derive(Clone, Copy, Debug, PartialEq, Eq, Structural)]
pub enum ArtifactKind {
    /// Environment variables for this crate's own compilation (`rustc-env`).
    Env,
    /// Metadata re-exported to dependents as `DEP_<LINKS>_<KEY>=<value>`.
    DepEnv,
    /// Compiler flags (`rustc-cfg`, `rustc-flags`).
    CompileFlags,
    /// Linker flags (`rustc-link-arg`, `rustc-link-lib`).
    LinkFlags,
    /// Library search paths (`rustc-link-search`).
    LinkSearchPaths,
}

/// The artifact line that one directive contributes, if any; `dep_prefix`
/// is the `DEP_<LINKS>_` prefix of metadata lines.
pub open spec fn artifact_line(kind: ArtifactKind, dep_prefix: Seq<char>, d: DirectiveModel) -> Option<Seq<char>> {
    match (kind, d) {
        (ArtifactKind::Env, DirectiveModel::Env(e)) => Some(e),
        (ArtifactKind::DepEnv, DirectiveModel::Metadata(k, v)) => Some(dep_prefix + k + "="@ + v),
        (ArtifactKind::CompileFlags, DirectiveModel::Cfg(e)) => Some("--cfg="@ + e),
        (ArtifactKind::CompileFlags, DirectiveModel::Flags(e)) => Some(e),
        (ArtifactKind::LinkFlags, DirectiveModel::LinkArg(e)) => Some("-Clink-arg="@ + e),
        (ArtifactKind::LinkFlags, DirectiveModel::LinkLib(e)) => Some("-l"@ + e),
        (ArtifactKind::LinkSearchPaths, DirectiveModel::LinkSearch(e)) => Some("-L"@ + e),
        _ => None,
    }
}

/// The lines of one artifact, in directive order.
pub open spec fn artifact_lines(kind: ArtifactKind, dep_prefix: Seq<char>, ds: Seq<DirectiveModel>) -> Seq<Seq<char>>
    decreases ds.len(),
{
    if ds.len() == 0 {
        seq![]
    } else {
        match artifact_line(kind, dep_prefix, ds.last()) {
            Some(l) => artifact_lines(kind, dep_prefix, ds.drop_last()).push(l),
            None => artifact_lines(kind, dep_prefix, ds.drop_last()),
        }
    }
}

/// Lines joined with `'\n'`.
pub open spec fn join_lines(ls: Seq<Seq<char>>) -> Seq<char>
    decreases ls.len(),
{
    if ls.len() == 0 {
        seq![]
    } else if ls.len() == 1 {
        ls[0]
    } else {
        join_lines(ls.drop_last()) + seq!['\n'] + ls.last()
    }
}

/// The prefix of metadata variables for the links identifier `links`.
pub open spec fn dep_prefix(links: Seq<char>) -> Seq<char> {
    "DEP_"@ + upper_of(swap_char(links, '-', '_')) + "_"@
}

/// The text of one artifact, with `${pwd}` replaced by the sandbox root.
/// The dependent-env artifact is empty when the crate has no links
/// identifier.
pub open spec fn artifact_text(kind: ArtifactKind, links: Seq<char>, ds: Seq<DirectiveModel>, root: Seq<char>) -> Seq<char> {
    if kind == ArtifactKind::DepEnv && links.len() == 0 {
        seq![]
    } else {
        with_root(join_lines(artifact_lines(kind, dep_prefix(links), ds)), root)
    }
}

fn prefixed(p: &str, e: &String) -> (r: Vec<char>)
    ensures
        r@ == p@ + e@,
{
    let mut out = chars_of(p);
    let ec = chars_of(e.as_str());
    append_chars(&mut out, &ec);
    out
}

fn line_for(kind: ArtifactKind, pre: &Vec<char>, d: &Directive) -> (r: Option<Vec<char>>)
    ensures
        match r {
            Some(l) => artifact_line(kind, pre@, d@) == Some(l@),
            None => artifact_line(kind, pre@, d@) is None,
        },
{
    match (kind, d) {
        (ArtifactKind::Env, Directive::Env(e)) => Some(chars_of(e.as_str())),
        (ArtifactKind::DepEnv, Directive::Metadata(k, v)) => {
            let mut out = pre.clone();
            let kc = chars_of(k.as_str());
            append_chars(&mut out, &kc);
            let rest = prefixed("=", v);
            append_chars(&mut out, &rest);
            assert(out@ =~= pre@ + k@ + "="@ + v@);
            Some(out)
        },
        (ArtifactKind::CompileFlags, Directive::Cfg(e)) => Some(prefixed("--cfg=", e)),
        (ArtifactKind::CompileFlags, Directive::Flags(e)) => Some(chars_of(e.as_str())),
        (ArtifactKind::LinkFlags, Directive::LinkArg(e)) => Some(prefixed("-Clink-arg=", e)),
        (ArtifactKind::LinkFlags, Directive::LinkLib(e)) => Some(prefixed("-l", e)),
        (ArtifactKind::LinkSearchPaths, Directive::LinkSearch(e)) => Some(prefixed("-L", e)),
        _ => None,
    }
}

/// Renders one artifact from `directives`: its lines joined with `'\n'`,
/// each `${pwd}` replaced by `exec_root`.
pub fn render_artifact(kind: ArtifactKind, directives: &Vec<Directive>, crate_links: &str, exec_root: &str) -> (r: String)
    ensures
        r@ == artifact_text(kind, crate_links@, models(directives@), exec_root@),
{
    let links = chars_of(crate_links);
    if kind == ArtifactKind::DepEnv && links.len() == 0 {
        return string_of(&Vec::new());
    }
    let mut pre = chars_of("DEP_");
    let swapped = crate::names::sanitize_module_name(crate_links);
    let sc = chars_of(swapped.as_str());
    let up = to_upper(&sc);
    append_chars(&mut pre, &up);
    pre.push('_');
    proof {
        reveal_strlit("_");
    }
    assert(pre@ =~= dep_prefix(crate_links@));
    let ghost ms = models(directives@);
    let mut text: Vec<char> = Vec::new();
    let mut any = false;
    let mut i: usize = 0;
    while i < directives.len()
        invariant
            i <= directives@.len(),
            ms == models(directives@),
            pre@ == dep_prefix(crate_links@),
            text@ == join_lines(artifact_lines(kind, pre@, ms.subrange(0, i as int))),
            any == (artifact_lines(kind, pre@, ms.subrange(0, i as int)).len() > 0),
        decreases directives@.len() - i,
    {
        let ghost sub = ms.subrange(0, i + 1);
        assert(sub.drop_last() =~= ms.subrange(0, i as int));
        let ghost prev = artifact_lines(kind, pre@, ms.subrange(0, i as int));
        match line_for(kind, &pre, &directives[i]) {
            Some(l) => {
                if any {
                    text.push('\n');
                    append_chars(&mut text, &l);
                    assert(prev.push(l@).drop_last() =~= prev);
                } else {
                    append_chars(&mut text, &l);
                    assert(prev.push(l@) =~= seq![l@]);
                }
                assert(text@ =~= join_lines(prev.push(l@)));
                any = true;
            },
            None => {},
        }
        i = i + 1;
    }
    assert(ms.subrange(0, i as int) =~= ms);
    let root = chars_of(exec_root);
    string_of(&substitute_root(&text, &root))
}

/// The own-crate environment artifact (`rustc-env` values).
pub fn outputs_to_env(directives: &Vec<Directive>, exec_root: &str) -> (r: String)
    ensures
        r@ == artifact_text(ArtifactKind::Env, seq![], models(directives@), exec_root@),
{
    proof {
        reveal_strlit("");
        assert(""@ =~= Seq::<char>::empty());
    }
    render_artifact(ArtifactKind::Env, directives, "", exec_root)
}

/// The dependent-env artifact: each metadata directive as
/// `DEP_<LINKS>_<KEY>=<value>`; empty when `crate_links` is empty.
pub fn outputs_to_dep_env(directives: &Vec<Directive>, crate_links: &str, exec_root: &str) -> (r: String)
    ensures
        r@ == artifact_text(ArtifactKind::DepEnv, crate_links@, models(directives@), exec_root@),
{
    render_artifact(ArtifactKind::DepEnv, directives, crate_links, exec_root)
}

/// The compile flags, link flags and link search paths of one run.
pub struct CompileAndLinkFlags {
    pub compile_flags: String,
    pub link_flags: String,
    pub link_search_paths: String,
}

/// The three flag artifacts of one run.
pub fn outputs_to_flags(directives: &Vec<Directive>, exec_root: &str) -> (r: CompileAndLinkFlags)
    ensures
        r.compile_flags@ == artifact_text(ArtifactKind::CompileFlags, seq![], models(directives@), exec_root@),
        r.link_flags@ == artifact_text(ArtifactKind::LinkFlags, seq![], models(directives@), exec_root@),
        r.link_search_paths@ == artifact_text(ArtifactKind::LinkSearchPaths, seq![], models(directives@), exec_root@),
{
    proof {
        reveal_strlit("");
        assert(""@ =~= Seq::<char>::empty());
    }
    CompileAndLinkFlags {
        compile_flags: render_artifact(ArtifactKind::CompileFlags, directives, "", exec_root),
        link_flags: render_artifact(ArtifactKind::LinkFlags, directives, "", exec_root),
        link_search_paths: render_artifact(ArtifactKind::LinkSearchPaths, directives, "", exec_root),
    }
}

/// With a valid sandbox root, no artifact holds `${pwd}`.
pub proof fn lemma_artifacts_have_no_placeholder(
    kind: ArtifactKind,
    links: Seq<char>,
    ds: Seq<DirectiveModel>,
    root: Seq<char>,
)
    requires
        valid_root(root),
    ensures
        !occurs_in(artifact_text(kind, links, ds, root), placeholder()),
{
    if kind == ArtifactKind::DepEnv && links.len() == 0 {
        assert(artifact_text(kind, links, ds, root).len() == 0);
    } else {
        lemma_no_placeholder_left(join_lines(artifact_lines(kind, dep_prefix(links), ds)), root);
    }
}

} // verus!
