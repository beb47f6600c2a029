use sandbox_ffi_layers::cargo_lock::{parse_cargo_lock, Package};
use sandbox_ffi_layers::native_surface::{
    analyze_native_surface, blocked_line, exit_code, known_malicious_packages,
    known_proc_macro_crates, looks_like_proc_macro, report_line,
};

fn pkg(name: &str, deps: &[&str]) -> Package {
    Package {
        name: name.to_string(),
        version: "1.0.0".to_string(),
        checksum: None,
        dependencies: deps.iter().map(|d| d.to_string()).collect(),
    }
}

#[test]
fn analyze_native_surface_detects_proc_macro() {
    let input = r#"
version = 3

[[package]]
name = "serde_derive"
version = "1.0.228"

[[package]]
name = "arrayref"
version = "0.3.10"

[[package]]
name = "proc-macro1"
version = "1.0.107"
"#;

    let packages = parse_cargo_lock(input).unwrap();
    let surfaces = analyze_native_surface(&packages);

    let serde_derive = surfaces.iter().find(|s| s.package.name == "serde_derive");
    assert!(serde_derive.is_some());
    assert!(serde_derive.unwrap().has_proc_macro);

    let proc_macro1 = surfaces.iter().find(|s| s.package.name == "proc-macro1");
    assert!(proc_macro1.is_some());
    assert!(proc_macro1.unwrap().has_proc_macro);
}

#[test]
fn looks_like_proc_macro_detects_typosquats() {
    assert!(looks_like_proc_macro("proc-macro1"));
    assert!(looks_like_proc_macro("proc-macro-en"));
    assert!(looks_like_proc_macro("serde_derive"));
    assert!(looks_like_proc_macro("futures-macro"));
    assert!(!looks_like_proc_macro("serde"));
    assert!(!looks_like_proc_macro("tokio"));
}

#[test]
fn looks_like_proc_macro_other_patterns() {
    assert!(looks_like_proc_macro("thiserror-impl"));
    assert!(looks_like_proc_macro("strum_macros"));
    assert!(looks_like_proc_macro("tokio-macros"));
    assert!(looks_like_proc_macro("syn"));
    assert!(looks_like_proc_macro("quote"));
    assert!(!looks_like_proc_macro("macos-macro-helper"));
    assert!(!looks_like_proc_macro("zerocopy-derive"));
    assert!(!looks_like_proc_macro(""));
}

#[test]
fn known_proc_macro_table_contents() {
    let known = known_proc_macro_crates();
    assert_eq!(known.len(), 14);
    assert!(known.contains_key("async-trait"));
    assert!(known.contains_key("validator-derive"));
    assert!(!known.contains_key("serde"));
}

#[test]
fn known_crates_flagged_even_without_name_pattern() {
    let packages = vec![pkg("async-trait", &[]), pkg("displaydoc", &[]), pkg("tokio", &[])];
    let surfaces = analyze_native_surface(&packages);
    assert_eq!(surfaces.len(), 2);
    assert!(surfaces[0].has_proc_macro);
    assert_eq!(surfaces[1].package.name, "displaydoc");
}

#[test]
fn build_script_and_build_dependency_flags() {
    let packages = vec![
        pkg("cc", &[]),
        pkg("cmake", &[]),
        pkg("openssl-sys", &["cc", "libc"]),
        pkg("prost", &["prost-build"]),
        pkg("libc", &["ccx"]),
    ];
    let surfaces = analyze_native_surface(&packages);
    assert_eq!(surfaces.len(), 4);
    assert!(surfaces[0].has_build_script && !surfaces[0].has_proc_macro);
    assert!(surfaces[1].has_build_script);
    assert!(!surfaces[2].has_build_script && surfaces[2].has_build_dependencies);
    assert!(surfaces[3].has_build_dependencies);
    assert_eq!(surfaces[3].package, packages[3]);
}

#[test]
fn every_reported_package_is_flagged_and_in_order() {
    let packages = vec![pkg("a", &[]), pkg("syn", &[]), pkg("b", &[]), pkg("build-helper", &[])];
    let surfaces = analyze_native_surface(&packages);
    assert_eq!(surfaces.len(), 2);
    for s in &surfaces {
        assert!(s.has_proc_macro || s.has_build_script || s.has_build_dependencies);
    }
    assert_eq!(surfaces[0].package.name, "syn");
    assert_eq!(surfaces[1].package.name, "build-helper");
}

#[test]
fn analysis_of_concatenation() {
    let a = vec![pkg("syn", &[]), pkg("x", &[])];
    let b = vec![pkg("y", &["cc"]), pkg("z", &[])];
    let mut ab = a.clone();
    ab.extend(b.clone());
    let mut expected = analyze_native_surface(&a);
    expected.extend(analyze_native_surface(&b));
    assert_eq!(analyze_native_surface(&ab), expected);
}

#[test]
fn analysis_is_idempotent() {
    let packages = vec![pkg("quote", &[]), pkg("x", &[]), pkg("cmake", &[]), pkg("y", &["bindgen-build"])];
    let first = analyze_native_surface(&packages);
    let again: Vec<Package> = first.iter().map(|s| s.package.clone()).collect();
    assert_eq!(analyze_native_surface(&again), first);
}

#[test]
fn malicious_packages_are_located() {
    let packages = vec![pkg("proc-macro2", &[]), pkg("proc-macro1", &[]), pkg("x", &[]), pkg("proc-macro-en", &[])];
    assert_eq!(known_malicious_packages(&packages), vec![1, 3]);
    assert!(known_malicious_packages(&[pkg("serde", &[])]).is_empty());
}

#[test]
fn report_lines_and_exit_code() {
    let surfaces = analyze_native_surface(&[pkg("syn", &[]), pkg("cc", &[])]);
    assert_eq!(report_line(&surfaces[0]), "  [PROC-MACRO] syn@1.0.0 \u{2014} proc-macro crate");
    assert_eq!(report_line(&surfaces[1]), "  [BUILD] cc@1.0.0 \u{2014} build script dep");
    assert_eq!(blocked_line(&pkg("proc-macro1", &[])), "  BLOCKED: proc-macro1@1.0.0");
    assert_eq!(exit_code(1, true), Some(1));
    assert_eq!(exit_code(1, false), None);
    assert_eq!(exit_code(0, true), None);
}
