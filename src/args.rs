//! The invocation descriptor of one build-script run, decoded from
//! `--name=value` arguments.
use vstd::prelude::*;
use crate::text::{chars_of, copy_range, has_prefix, prefix_at, string_of};

verus! {

/// The value of `arg` after `prefix`, when `arg` starts with it.
pub open spec fn after_prefix(arg: Seq<char>, prefix: Seq<char>) -> Option<Seq<char>> {
    if has_prefix(arg, prefix) {
        Some(arg.subrange(prefix.len() as int, arg.len() as int))
    } else {
        None
    }
}

/// The value of the last argument that starts with `prefix`.
pub open spec fn last_value(args: Seq<Seq<char>>, prefix: Seq<char>) -> Option<Seq<char>>
    decreases args.len(),
{
    if args.len() == 0 {
        None
    } else {
        match after_prefix(args.last(), prefix) {
            Some(v) => Some(v),
            None => last_value(args.drop_last(), prefix),
        }
    }
}

/// The values of every argument that starts with `prefix`, in order.
pub open spec fn all_values(args: Seq<Seq<char>>, prefix: Seq<char>) -> Seq<Seq<char>>
    decreases args.len(),
{
    if args.len() == 0 {
        seq![]
    } else {
        match after_prefix(args.last(), prefix) {
            Some(v) => all_values(args.drop_last(), prefix).push(v),
            None => all_values(args.drop_last(), prefix),
        }
    }
}

/// A required argument that was not given.
#[derive(Clone, Copy, Debug, PartialEq, Eq)]
pub enum MissingArg {
    Script,
    Links,
    OutDir,
    EnvOut,
    FlagsOut,
    LinkFlags,
    LinkSearchPaths,
    DepEnvOut,
    Rundir,
}

/// The option that a required argument is given with.
pub open spec fn prefix_of(m: MissingArg) -> Seq<char> {
    match m {
        MissingArg::Script => "--script="@,
        MissingArg::Links => "--links="@,
        MissingArg::OutDir => "--out_dir="@,
        MissingArg::EnvOut => "--env_out="@,
        MissingArg::FlagsOut => "--flags_out="@,
        MissingArg::LinkFlags => "--link_flags="@,
        MissingArg::LinkSearchPaths => "--link_search_paths="@,
        MissingArg::DepEnvOut => "--dep_env_out="@,
        MissingArg::Rundir => "--rundir="@,
    }
}

/// What one build-script run is asked to do.
pub struct Args {
    /// The build script binary (`--script=`).
    pub progname: String,
    /// The crate's links identifier, possibly empty (`--links=`).
    pub crate_links: String,
    /// The output directory (`--out_dir=`).
    pub out_dir: String,
    /// Where the own-crate env artifact goes (`--env_out=`).
    pub env_file: String,
    /// Where the compile flags go (`--flags_out=`).
    pub compile_flags_file: String,
    /// Where the link flags go (`--link_flags=`).
    pub link_flags_file: String,
    /// Where the link search paths go (`--link_search_paths=`).
    pub link_search_paths_file: String,
    /// Where the dependent-env artifact goes (`--dep_env_out=`).
    pub output_dep_env_path: String,
    /// Where to copy the script's stdout, if anywhere (`--stdout=`).
    pub stdout_path: Option<String>,
    /// Where to copy the script's stderr, if anywhere (`--stderr=`).
    pub stderr_path: Option<String>,
    /// The working directory override (`--rundir=`).
    pub rundir: String,
    /// Upstream dependency environment files, in order (`--input_dep_env_path=`).
    pub input_dep_env_paths: Vec<String>,
    /// The manifest scaffolding parameter file, if any (`--cargo_manifest_args=`).
    pub cargo_manifest_args: Option<String>,
}

pub open spec fn opt_view(o: Option<String>) -> Option<Seq<char>> {
    match o {
        Some(s) => Some(s@),
        None => None,
    }
}

/// The value of `arg` after `prefix`, when `arg` starts with it.
fn strip(arg: &Vec<char>, prefix: &str) -> (r: Option<String>)
    ensures
        opt_view(r) == after_prefix(arg@, prefix@),
{
    let p = chars_of(prefix);
    assert(arg@.subrange(0, arg@.len() as int) =~= arg@);
    if prefix_at(arg, 0, &p) {
        Some(string_of(&copy_range(arg, p.len(), arg.len())))
    } else {
        None
    }
}

fn keep_last(cur: Option<String>, next: Option<String>) -> (r: Option<String>)
    ensures
        r == (match next {
            Some(v) => Some(v),
            None => cur,
        }),
{
    match next {
        Some(v) => Some(v),
        None => cur,
    }
}

fn require(v: Option<String>, which: MissingArg) -> (r: Result<String, MissingArg>)
    ensures
        match v {
            Some(s) => r == Ok::<String, MissingArg>(s),
            None => r == Err::<String, MissingArg>(which),
        },
{
    match v {
        Some(s) => Ok(s),
        None => Err(which),
    }
}

impl Args {
    /// Whether `a` is what `args` describes, every required argument given.
    pub open spec fn describes(a: Args, args: Seq<Seq<char>>) -> bool {
        &&& Some(a.progname@) == last_value(args, "--script="@)
        &&& Some(a.crate_links@) == last_value(args, "--links="@)
        &&& Some(a.out_dir@) == last_value(args, "--out_dir="@)
        &&& Some(a.env_file@) == last_value(args, "--env_out="@)
        &&& Some(a.compile_flags_file@) == last_value(args, "--flags_out="@)
        &&& Some(a.link_flags_file@) == last_value(args, "--link_flags="@)
        &&& Some(a.link_search_paths_file@) == last_value(args, "--link_search_paths="@)
        &&& Some(a.output_dep_env_path@) == last_value(args, "--dep_env_out="@)
        &&& opt_view(a.stdout_path) == last_value(args, "--stdout="@)
        &&& opt_view(a.stderr_path) == last_value(args, "--stderr="@)
        &&& Some(a.rundir@) == last_value(args, "--rundir="@)
        &&& a.input_dep_env_paths@.map_values(|s: String| s@) == all_values(args, "--input_dep_env_path="@)
        &&& opt_view(a.cargo_manifest_args) == last_value(args, "--cargo_manifest_args="@)
    }

    /// Whether every required argument is among `args`.
    pub open spec fn complete(args: Seq<Seq<char>>) -> bool {
        &&& last_value(args, "--script="@) is Some
        &&& last_value(args, "--links="@) is Some
        &&& last_value(args, "--out_dir="@) is Some
        &&& last_value(args, "--env_out="@) is Some
        &&& last_value(args, "--flags_out="@) is Some
        &&& last_value(args, "--link_flags="@) is Some
        &&& last_value(args, "--link_search_paths="@) is Some
        &&& last_value(args, "--dep_env_out="@) is Some
        &&& last_value(args, "--rundir="@) is Some
    }

    /// Decodes the arguments after the program name. For each option the last
    /// occurrence counts; `--input_dep_env_path=` accumulates; arguments with
    /// no known prefix are ignored. Fails when a required option is absent.
    pub fn parse(args: &Vec<String>) -> (r: Result<Args, MissingArg>)
        ensures
            r is Ok <==> Self::complete(args@.map_values(|s: String| s@)),
            r matches Ok(a) ==> Self::describes(a, args@.map_values(|s: String| s@)),
            r matches Err(e) ==> last_value(args@.map_values(|s: String| s@), prefix_of(e)) is None,
    {
        let ghost av = args@.map_values(|s: String| s@);
        let mut script: Option<String> = None;
        let mut links: Option<String> = None;
        let mut out_dir: Option<String> = None;
        let mut env_out: Option<String> = None;
        let mut flags_out: Option<String> = None;
        let mut link_flags: Option<String> = None;
        let mut link_search: Option<String> = None;
        let mut dep_env_out: Option<String> = None;
        let mut stdout_path: Option<String> = None;
        let mut stderr_path: Option<String> = None;
        let mut rundir: Option<String> = None;
        let mut inputs: Vec<String> = Vec::new();
        let mut manifest: Option<String> = None;
        let mut i: usize = 0;
        assert(inputs@.map_values(|s: String| s@) =~= all_values(av.subrange(0, 0), "--input_dep_env_path="@));
        while i < args.len()
            invariant
                i <= args@.len(),
                av == args@.map_values(|s: String| s@),
                opt_view(script) == last_value(av.subrange(0, i as int), "--script="@),
                opt_view(links) == last_value(av.subrange(0, i as int), "--links="@),
                opt_view(out_dir) == last_value(av.subrange(0, i as int), "--out_dir="@),
                opt_view(env_out) == last_value(av.subrange(0, i as int), "--env_out="@),
                opt_view(flags_out) == last_value(av.subrange(0, i as int), "--flags_out="@),
                opt_view(link_flags) == last_value(av.subrange(0, i as int), "--link_flags="@),
                opt_view(link_search) == last_value(av.subrange(0, i as int), "--link_search_paths="@),
                opt_view(dep_env_out) == last_value(av.subrange(0, i as int), "--dep_env_out="@),
                opt_view(stdout_path) == last_value(av.subrange(0, i as int), "--stdout="@),
                opt_view(stderr_path) == last_value(av.subrange(0, i as int), "--stderr="@),
                opt_view(rundir) == last_value(av.subrange(0, i as int), "--rundir="@),
                inputs@.map_values(|s: String| s@) == all_values(av.subrange(0, i as int), "--input_dep_env_path="@),
                opt_view(manifest) == last_value(av.subrange(0, i as int), "--cargo_manifest_args="@),
            decreases args@.len() - i,
        {
            let ghost sub = av.subrange(0, i + 1);
            assert(sub.drop_last() =~= av.subrange(0, i as int));
            assert(sub.last() == args@[i as int]@);
            let a = chars_of(args[i].as_str());
            script = keep_last(script, strip(&a, "--script="));
            links = keep_last(links, strip(&a, "--links="));
            out_dir = keep_last(out_dir, strip(&a, "--out_dir="));
            env_out = keep_last(env_out, strip(&a, "--env_out="));
            flags_out = keep_last(flags_out, strip(&a, "--flags_out="));
            link_flags = keep_last(link_flags, strip(&a, "--link_flags="));
            link_search = keep_last(link_search, strip(&a, "--link_search_paths="));
            dep_env_out = keep_last(dep_env_out, strip(&a, "--dep_env_out="));
            stdout_path = keep_last(stdout_path, strip(&a, "--stdout="));
            stderr_path = keep_last(stderr_path, strip(&a, "--stderr="));
            rundir = keep_last(rundir, strip(&a, "--rundir="));
            manifest = keep_last(manifest, strip(&a, "--cargo_manifest_args="));
            let ghost prev = inputs@.map_values(|s: String| s@);
            match strip(&a, "--input_dep_env_path=") {
                Some(v) => {
                    inputs.push(v);
                    assert(inputs@.map_values(|s: String| s@) =~= prev.push(v@));
                },
                None => {},
            }
            i = i + 1;
        }
        assert(av.subrange(0, i as int) =~= av);
        let progname = require(script, MissingArg::Script)?;
        let crate_links = require(links, MissingArg::Links)?;
        let out_dir = require(out_dir, MissingArg::OutDir)?;
        let env_file = require(env_out, MissingArg::EnvOut)?;
        let compile_flags_file = require(flags_out, MissingArg::FlagsOut)?;
        let link_flags_file = require(link_flags, MissingArg::LinkFlags)?;
        let link_search_paths_file = require(link_search, MissingArg::LinkSearchPaths)?;
        let output_dep_env_path = require(dep_env_out, MissingArg::DepEnvOut)?;
        let rundir = require(rundir, MissingArg::Rundir)?;
        Ok(Args {
            progname,
            crate_links,
            out_dir,
            env_file,
            compile_flags_file,
            link_flags_file,
            link_search_paths_file,
            output_dep_env_path,
            stdout_path,
            stderr_path,
            rundir,
            input_dep_env_paths: inputs,
            cargo_manifest_args: manifest,
        })
    }
}

} // verus!
