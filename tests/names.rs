use cargo_bazel_core::names::{sanitize_module_name, sanitize_repository_name};

#[test]
fn test_sanitize_repository_name() {
    let name = "anyhow-1.0.0+semver_meta";
    let got = sanitize_repository_name(name);
    assert_eq!(got, String::from("anyhow-1.0.0-semver_meta"));
}

#[test]
fn test_sanitize_repository_name_no_change() {
    let name = "tokio-1.20.0";
    let got = sanitize_repository_name(name);
    assert_eq!(got, String::from("tokio-1.20.0"));
}

#[test]
fn sanitize_is_idempotent() {
    let once = sanitize_repository_name("anyhow-1.0.0+semver_meta");
    assert_eq!(sanitize_repository_name(&once), once);
    let m = sanitize_module_name("serde-json-core");
    assert_eq!(m, "serde_json_core");
    assert_eq!(sanitize_module_name(&m), m);
}
