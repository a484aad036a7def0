use cargo_bazel_core::cfg_probe::parse_rustc_cfg_output;

fn lookup<'a>(vars: &'a [(String, String)], key: &str) -> &'a str {
    vars.iter()
        .find(|(k, _)| k == key)
        .map(|(_, v)| v.as_str())
        .unwrap_or_else(|| panic!("no variable {key}"))
}

#[test]
fn rustc_cfg_parsing() {
    let macos_output = r#"\
debug_assertions
target_arch="x86_64"
target_endian="little"
target_env=""
target_family="unix"
target_feature="fxsr"
target_feature="sse"
target_feature="sse2"
target_feature="sse3"
target_feature="ssse3"
target_os="macos"
target_pointer_width="64"
target_vendor="apple"
unix
"#;
    let tree = parse_rustc_cfg_output(macos_output);
    assert_eq!(lookup(&tree, "CARGO_CFG_UNIX"), "");
    assert_eq!(lookup(&tree, "CARGO_CFG_TARGET_FAMILY"), "unix");

    let windows_output = r#"\
debug_assertions
target_arch="x86_64"
target_endian="little"
target_env="msvc"
target_family="windows"
target_feature="fxsr"
target_feature="sse"
target_feature="sse2"
target_os="windows"
target_pointer_width="64"
target_vendor="pc"
windows
"#;
    let tree = parse_rustc_cfg_output(windows_output);
    assert_eq!(lookup(&tree, "CARGO_CFG_WINDOWS"), "");
    assert_eq!(lookup(&tree, "CARGO_CFG_TARGET_FAMILY"), "windows");
}

#[test]
fn probe_example_family_and_unix() {
    let vars = parse_rustc_cfg_output("target_family=\"unix\"\nunix\n");
    assert_eq!(
        vars,
        vec![
            ("CARGO_CFG_TARGET_FAMILY".to_string(), "unix".to_string()),
            ("CARGO_CFG_UNIX".to_string(), String::new()),
        ]
    );
}

#[test]
fn probe_repeated_keys_join_in_first_seen_order() {
    let out = "target_feature=\"sse\"\ntarget_os=\"linux\"\ntarget_feature=\"avx\"\ntarget_feature=\"sse\"\n";
    let vars = parse_rustc_cfg_output(out);
    assert_eq!(
        vars,
        vec![
            ("CARGO_CFG_TARGET_FEATURE".to_string(), "sse,avx,sse".to_string()),
            ("CARGO_CFG_TARGET_OS".to_string(), "linux".to_string()),
        ]
    );
}

#[test]
fn probe_ignores_other_lines() {
    let out = "debug_assertions\npanic=\"unwind\"\ntarget_os=linux\ntarget_\"\nfeature=\"x\"\n";
    assert!(parse_rustc_cfg_output(out).is_empty());
    assert!(parse_rustc_cfg_output("").is_empty());
}

#[test]
fn probe_empty_value_and_crlf() {
    let vars = parse_rustc_cfg_output("target_env=\"\"\r\nwindows\r\n");
    assert_eq!(
        vars,
        vec![
            ("CARGO_CFG_TARGET_ENV".to_string(), String::new()),
            ("CARGO_CFG_WINDOWS".to_string(), String::new()),
        ]
    );
}

#[test]
fn probe_keys_that_upper_case_alike_share_a_variable() {
    let vars = parse_rustc_cfg_output("target_a=\"1\"\ntarget_A=\"2\"\n");
    assert_eq!(vars, vec![("CARGO_CFG_TARGET_A".to_string(), "1,2".to_string())]);
}
