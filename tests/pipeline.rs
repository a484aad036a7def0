use cargo_bazel_core::args::{Args, MissingArg};
use cargo_bazel_core::directives::{
    outputs_to_dep_env, outputs_to_env, outputs_to_flags, parse_directives, render_artifact,
    ArtifactKind, Directive,
};
use cargo_bazel_core::script_env::{
    build_child_env, is_libtool, join_path, parse_dep_env, resolve_rundir, DepEnvError, RundirError,
};

fn s(v: &str) -> String {
    v.to_string()
}

fn kv(k: &str, v: &str) -> (String, String) {
    (s(k), s(v))
}

fn get<'a>(env: &'a [(String, String)], k: &str) -> Option<&'a str> {
    env.iter().find(|(n, _)| n == k).map(|(_, v)| v.as_str())
}

fn child(ambient: Vec<(String, String)>, deps: Vec<(String, String)>) -> Vec<(String, String)> {
    build_child_env(&ambient, "/sandbox", "out", "pkg", "bin/rustc", &vec![kv("CARGO_CFG_UNIX", "")], &deps)
}

#[test]
fn rundir_empty_uses_manifest_dir() {
    assert_eq!(resolve_rundir("", "/sandbox", "/sandbox/pkg"), Ok(s("/sandbox/pkg")));
}

#[test]
fn rundir_relative_joins_root() {
    assert_eq!(resolve_rundir("a/b", "/sandbox", "/sandbox/pkg"), Ok(s("/sandbox/a/b")));
    assert_eq!(resolve_rundir("a/..b", "/sandbox/", "/m"), Ok(s("/sandbox/a/..b")));
}

#[test]
fn rundir_rejects_absolute_and_parent() {
    assert_eq!(resolve_rundir("/etc", "/sandbox", "/m"), Err(RundirError::Absolute));
    assert_eq!(resolve_rundir("a/../b", "/sandbox", "/m"), Err(RundirError::ParentDir));
    assert_eq!(resolve_rundir("..", "/sandbox", "/m"), Err(RundirError::ParentDir));
}

#[test]
fn join_path_cases() {
    assert_eq!(join_path("/r", "x"), "/r/x");
    assert_eq!(join_path("/r/", "x"), "/r/x");
    assert_eq!(join_path("/r", "/abs"), "/abs");
    assert_eq!(join_path("", "x"), "x");
}

#[test]
fn dep_env_round_trip() {
    assert_eq!(parse_dep_env("FOO=bar"), Ok(vec![kv("FOO", "bar")]));
    assert_eq!(parse_dep_env(""), Ok(vec![]));
    assert_eq!(
        parse_dep_env("A=1\n\nB=x=y\n"),
        Ok(vec![kv("A", "1"), kv("B", "x=y")])
    );
    let deps = parse_dep_env("FOO=bar\nDIR=${pwd}/gen").unwrap();
    let env = child(vec![], deps);
    assert_eq!(get(&env, "FOO"), Some("bar"));
    assert_eq!(get(&env, "DIR"), Some("/sandbox/gen"));
}

#[test]
fn dep_env_line_without_equals_fails() {
    assert_eq!(
        parse_dep_env("FOO=bar\nBROKEN\nX=1"),
        Err(DepEnvError::MissingEquals(s("BROKEN")))
    );
}

#[test]
fn child_env_sets_paths_and_cfg() {
    let env = child(vec![kv("PATH", "/usr/bin"), kv("HOME", "${pwd}/home")], vec![]);
    assert_eq!(get(&env, "PATH"), Some("/usr/bin"));
    assert_eq!(get(&env, "HOME"), Some("/sandbox/home"));
    assert_eq!(get(&env, "OUT_DIR"), Some("/sandbox/out"));
    assert_eq!(get(&env, "CARGO_MANIFEST_DIR"), Some("/sandbox/pkg"));
    assert_eq!(get(&env, "RUSTC"), Some("/sandbox/bin/rustc"));
    assert_eq!(get(&env, "RUST_BACKTRACE"), Some("full"));
    assert_eq!(get(&env, "CARGO_CFG_UNIX"), Some(""));
    assert!(env.iter().all(|(_, v)| !v.contains("${pwd}")));
}

#[test]
fn later_dep_records_override() {
    let env = child(vec![kv("FOO", "ambient")], vec![kv("FOO", "one"), kv("FOO", "two")]);
    assert_eq!(get(&env, "FOO"), Some("two"));
    assert_eq!(env.iter().filter(|(k, _)| k == "FOO").count(), 1);
}

#[test]
fn tools_are_rooted() {
    let env = child(vec![kv("CC", "tools/cc"), kv("CXX", "/usr/bin/c++"), kv("LD", "ld")], vec![]);
    assert_eq!(get(&env, "CC"), Some("/sandbox/tools/cc"));
    assert_eq!(get(&env, "CXX"), Some("/usr/bin/c++"));
    assert_eq!(get(&env, "LD"), Some("/sandbox/ld"));
}

#[test]
fn ar_libtool_is_dropped() {
    let env = child(vec![kv("AR", "/usr/bin/libtool")], vec![]);
    assert_eq!(get(&env, "AR"), None);
    let env = child(vec![kv("AR", "libtool")], vec![]);
    assert_eq!(get(&env, "AR"), None);
    assert!(is_libtool("xcode/bin/libtool/"));
    assert!(!is_libtool("bin/libtool-ar"));
}

#[test]
fn ar_other_is_rooted() {
    let env = child(vec![kv("AR", "toolchain/ar")], vec![]);
    assert_eq!(get(&env, "AR"), Some("/sandbox/toolchain/ar"));
}

#[test]
fn encoded_rustflags_are_unescaped() {
    let env = child(vec![kv("CARGO_ENCODED_RUSTFLAGS", "-Cfoo\\x1f-Cbar\\x1f${pwd}/x")], vec![]);
    assert_eq!(get(&env, "CARGO_ENCODED_RUSTFLAGS"), Some("-Cfoo\x1f-Cbar\x1f/sandbox/x"));
}

#[test]
fn directive_kinds() {
    assert_eq!(Directive::parse("cargo:rustc-link-lib=z"), Some(Directive::LinkLib(s("z"))));
    assert_eq!(Directive::parse("cargo:rustc-link-search=native=/x "), Some(Directive::LinkSearch(s("native=/x"))));
    assert_eq!(Directive::parse("cargo:rustc-cfg=has_foo"), Some(Directive::Cfg(s("has_foo"))));
    assert_eq!(Directive::parse("cargo:rustc-flags=-l dylib=z"), Some(Directive::Flags(s("-l dylib=z"))));
    assert_eq!(Directive::parse("cargo:rustc-link-arg=-Wl,-z"), Some(Directive::LinkArg(s("-Wl,-z"))));
    assert_eq!(Directive::parse("cargo:rustc-env=FOO=bar"), Some(Directive::Env(s("FOO=bar"))));
    assert_eq!(Directive::parse("cargo:rerun-if-changed=build.rs"), Some(Directive::RerunTrigger));
    assert_eq!(Directive::parse("cargo:warning= careful"), Some(Directive::Warning(s(" careful"))));
    assert_eq!(
        Directive::parse("cargo:rustc-link-arg-bins=x"),
        Some(Directive::Unsupported(s("rustc-link-arg-bins")))
    );
    assert_eq!(
        Directive::parse("cargo:include-dir=/x/include"),
        Some(Directive::Metadata(s("INCLUDE_DIR"), s("/x/include")))
    );
    assert_eq!(Directive::parse("compiling foo"), None);
    assert_eq!(Directive::parse("cargo-rustc-cfg=x"), None);
    assert_eq!(Directive::parse("rustc:rustc-cfg=x"), None);
}

#[test]
fn artifacts_from_output() {
    let out = "cargo:rustc-cfg=a\nhello\ncargo:rustc-flags=-C x\ncargo:rustc-link-lib=ssl\ncargo:rustc-link-arg=${pwd}/obj.o\ncargo:rustc-link-search=${pwd}/lib\ncargo:rustc-env=GEN=${pwd}/gen\ncargo:root=${pwd}/root\n";
    let ds = parse_directives(out);
    assert_eq!(ds.len(), 7);
    let flags = outputs_to_flags(&ds, "/sb");
    assert_eq!(flags.compile_flags, "--cfg=a\n-C x");
    assert_eq!(flags.link_flags, "-lssl\n-Clink-arg=/sb/obj.o");
    assert_eq!(flags.link_search_paths, "-L/sb/lib");
    assert_eq!(outputs_to_env(&ds, "/sb"), "GEN=/sb/gen");
    assert_eq!(outputs_to_dep_env(&ds, "open-ssl", "/sb"), "DEP_OPEN_SSL_ROOT=/sb/root");
    assert_eq!(outputs_to_dep_env(&ds, "", "/sb"), "");
    assert_eq!(render_artifact(ArtifactKind::Env, &vec![], "", "/sb"), "");
    for text in [flags.compile_flags, flags.link_flags, flags.link_search_paths] {
        assert!(!text.contains("${pwd}"));
    }
}

#[test]
fn args_parse_complete() {
    let raw: Vec<String> = [
        "--script=bin/build", "--links=z", "--out_dir=out", "--env_out=e", "--flags_out=f",
        "--link_flags=l", "--link_search_paths=p", "--dep_env_out=d", "--rundir=",
        "--input_dep_env_path=a.env", "--unknown=1", "--input_dep_env_path=b.env",
        "--stdout=so", "--links=zlib",
    ]
    .iter()
    .map(|a| a.to_string())
    .collect();
    let a = Args::parse(&raw).unwrap();
    assert_eq!(a.progname, "bin/build");
    assert_eq!(a.crate_links, "zlib");
    assert_eq!(a.rundir, "");
    assert_eq!(a.input_dep_env_paths, vec![s("a.env"), s("b.env")]);
    assert_eq!(a.stdout_path, Some(s("so")));
    assert_eq!(a.stderr_path, None);
    assert_eq!(a.cargo_manifest_args, None);
}

#[test]
fn args_parse_missing() {
    let raw = vec![s("--links=z")];
    assert_eq!(Args::parse(&raw).err(), Some(MissingArg::Script));
}

#[test]
fn encoded_rustflags_substitute_before_unescape() {
    let env = build_child_env(
        &vec![kv("CARGO_ENCODED_RUSTFLAGS", "${pwd}/a")],
        "/r\\x1f",
        "out",
        "pkg",
        "rustc",
        &vec![],
        &vec![],
    );
    assert_eq!(get(&env, "CARGO_ENCODED_RUSTFLAGS"), Some("/r\x1f/a"));
}

#[test]
fn libtool_with_dot_component() {
    assert!(is_libtool("x/libtool/."));
    assert!(is_libtool("x/libtool/./"));
    assert!(!is_libtool("x/libtool/.."));
}

#[test]
fn directive_value_trims_unicode_whitespace() {
    assert_eq!(
        Directive::parse("cargo:rustc-cfg=\u{3000}\tfoo \u{a0}"),
        Some(Directive::Cfg(s("foo")))
    );
}
