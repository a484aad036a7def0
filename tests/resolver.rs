use cargo_bazel_core::cfg_eval::check_nesting;
use cargo_bazel_core::deps::{get_cfg_flag_values, resolve_cfg_deps};
use cargo_bazel_core::select::{CommonAttributes, CrateContext, CrateDependency, CrateId, Select};

fn dep(name: &str, version: &str) -> CrateDependency {
    CrateDependency {
        id: CrateId::new(name.to_string(), version.to_string()),
        target: name.replace('-', "_"),
        alias: None,
    }
}

fn context(flags: &[&str], deps: Vec<(Option<&str>, CrateDependency)>) -> CrateContext {
    let mut rustc_flags = Select::new();
    for f in flags {
        rustc_flags.insert(f.to_string(), None);
    }
    let mut d = Select::new();
    for (k, v) in deps {
        d.insert(v, k.map(|s| s.to_string()));
    }
    CrateContext {
        name: "tokio".to_string(),
        version: "1.28.0".to_string(),
        common_attrs: CommonAttributes { rustc_flags, deps: d },
    }
}

fn pairs(ctx: &CrateContext) -> Vec<(Option<String>, CrateDependency)> {
    ctx.common_attrs.deps.items().clone()
}

#[test]
fn cfg_flag_values_follow_markers() {
    let flags = vec!["--cfg", "tokio_unstable", "-Copt-level=3", "--cfg", "foo", "--cfg"]
        .into_iter()
        .map(String::from)
        .collect();
    assert_eq!(get_cfg_flag_values(flags), vec!["tokio_unstable".to_string(), "foo".to_string()]);
    assert!(get_cfg_flag_values(vec![]).is_empty());
}

#[test]
fn resolver_promotes_satisfied_flag() {
    let mut ctx = context(
        &["--cfg", "tokio_unstable"],
        vec![(Some("cfg(tokio_unstable)"), dep("tracing", "0.1.0"))],
    );
    resolve_cfg_deps(&mut ctx);
    assert_eq!(
        pairs(&ctx),
        vec![
            (None, dep("tracing", "0.1.0")),
            (Some("cfg(tokio_unstable)".to_string()), dep("tracing", "0.1.0")),
        ]
    );
}

#[test]
fn resolver_leaves_unparsable_predicate() {
    let mut ctx = context(
        &["--cfg", "tokio_unstable"],
        vec![(Some("aarch64-pc-windows-gnullvm"), dep("windows-sys", "0.48.0"))],
    );
    resolve_cfg_deps(&mut ctx);
    assert_eq!(
        pairs(&ctx),
        vec![(Some("aarch64-pc-windows-gnullvm".to_string()), dep("windows-sys", "0.48.0"))]
    );
}

#[test]
fn resolver_keeps_every_pair() {
    let before = vec![
        (None, dep("bytes", "1.0.0")),
        (Some("cfg(unix)"), dep("libc", "0.2.0")),
        (Some("cfg(all(tokio_unstable, not(loom)))"), dep("tracing", "0.1.0")),
        (Some("cfg(loom)"), dep("loom", "0.5.0")),
        (Some("cfg(tokio_unstable)"), dep("tokio", "1.28.0")),
    ];
    let mut ctx = context(&["--cfg", "tokio_unstable", "--edition=2021"], before.clone());
    resolve_cfg_deps(&mut ctx);
    let after = pairs(&ctx);
    for (k, d) in &before {
        assert!(after.contains(&(k.map(|s| s.to_string()), d.clone())));
    }
    let added: Vec<_> = after
        .iter()
        .filter(|p| !before.iter().any(|(k, d)| k.map(|s| s.to_string()) == p.0 && *d == p.1))
        .cloned()
        .collect();
    assert_eq!(added, vec![(None, dep("tracing", "0.1.0"))]);
    assert_eq!(ctx.name, "tokio");
    assert_eq!(ctx.common_attrs.rustc_flags.values().len(), 3);
}

#[test]
fn resolver_without_flags_changes_nothing() {
    let mut ctx = context(&[], vec![(Some("cfg(tokio_unstable)"), dep("tracing", "0.1.0"))]);
    resolve_cfg_deps(&mut ctx);
    assert_eq!(
        pairs(&ctx),
        vec![(Some("cfg(tokio_unstable)".to_string()), dep("tracing", "0.1.0"))]
    );
}

#[test]
fn resolver_lifts_long_predicate() {
    let key = format!("cfg(any({}tokio_unstable))", "x,".repeat(600));
    let mut ctx = context(&["--cfg", "tokio_unstable"], vec![(Some(key.as_str()), dep("tracing", "0.1.0"))]);
    resolve_cfg_deps(&mut ctx);
    assert_eq!(
        pairs(&ctx),
        vec![(None, dep("tracing", "0.1.0")), (Some(key.clone()), dep("tracing", "0.1.0"))]
    );
}

#[test]
fn resolver_skips_too_many_sibling_calls() {
    let key = format!("cfg(any({}tokio_unstable))", "not(x),".repeat(300));
    let mut ctx = context(&["--cfg", "tokio_unstable"], vec![(Some(key.as_str()), dep("tracing", "0.1.0"))]);
    resolve_cfg_deps(&mut ctx);
    assert_eq!(pairs(&ctx), vec![(Some(key.clone()), dep("tracing", "0.1.0"))]);
}

#[test]
fn nesting_scan() {
    assert!(check_nesting("cfg(all(unix, not(windows)))"));
    assert!(check_nesting(&format!("any({}a)", "not(x),".repeat(254))));
    assert!(!check_nesting(&format!("any({}a)", "not(x),".repeat(255))));
    assert!(check_nesting(&format!("any(target_os = \"{}\", a)", "(".repeat(400))));
}

#[test]
fn resolver_second_pass_adds_nothing() {
    let mut ctx = context(
        &["--cfg", "tokio_unstable"],
        vec![
            (Some("cfg(tokio_unstable)"), dep("tracing", "0.1.0")),
            (Some("cfg(any(tokio_unstable, loom))"), dep("tracing", "0.1.0")),
        ],
    );
    resolve_cfg_deps(&mut ctx);
    let once = pairs(&ctx);
    assert_eq!(once.iter().filter(|p| p.0.is_none()).count(), 1);
    resolve_cfg_deps(&mut ctx);
    assert_eq!(pairs(&ctx), once);
}
