use sandbox_ffi_layers::cargo_lock::{parse_cargo_lock, ParseError};

#[test]
fn parse_cargo_lock_basic() {
    let input = r#"
# This file is automatically @generated by Cargo.
# It is not intended for manual editing.
version = 3

[[package]]
name = "arrayref"
version = "0.3.10"
checksum = "f7347e8e8b21f0af847a0ffb4f2e3a99a5afa8ed3e4099e7a0561adb8cb3d966"
dependencies = [
 "proc-macro1",
]

[[package]]
name = "proc-macro1"
version = "1.0.107"
checksum = "a6b1e72e39b5d6a87d6867def29ae66ad9f2d7e3c2e1d3e4c6d5c6e7f8a9b0c1d"

[[package]]
name = "serde"
version = "1.0.228"
checksum = "f75b0e4b64c0b4e4e5b8f5a5a5c5d5e5f5a5b5c5d5e5f5a5b5c5d5e5f5a5b5c"
"#;

    let packages = parse_cargo_lock(input).unwrap();
    assert_eq!(packages.len(), 3);
    assert_eq!(packages[0].name, "arrayref");
    assert_eq!(packages[0].version, "0.3.10");
    assert_eq!(packages[0].dependencies, vec!["proc-macro1"]);
    assert_eq!(packages[1].name, "proc-macro1");
    assert_eq!(packages[2].name, "serde");
}

#[test]
fn parse_cargo_lock_single_line_deps() {
    let input = r#"
version = 3

[[package]]
name = "serde"
version = "1.0.228"
dependencies = ["serde_derive", "cfg-if"]
"#;

    let packages = parse_cargo_lock(input).unwrap();
    assert_eq!(packages.len(), 1);
    assert_eq!(packages[0].dependencies, vec!["serde_derive", "cfg-if"]);
}

#[test]
fn parse_keeps_checksum_and_order() {
    let input = "[[package]]\nname = \"a\"\nversion = \"1\"\nchecksum = \"abc\"\n[[package]]\nname = \"b\"\nversion = \"2\"\n";
    let packages = parse_cargo_lock(input).unwrap();
    assert_eq!(packages.len(), 2);
    assert_eq!(packages[0].checksum, Some("abc".to_string()));
    assert_eq!(packages[1].name, "b");
    assert_eq!(packages[1].version, "2");
    assert_eq!(packages[1].checksum, None);
    assert!(packages[1].dependencies.is_empty());
}

#[test]
fn parse_multi_line_list_equals_single_line_list() {
    let multi = "[[package]]\nname = \"x\"\nversion = \"1\"\ndependencies = [\n \"a\",\n \"b\",\n]\n";
    let single = "[[package]]\nname = \"x\"\nversion = \"1\"\ndependencies = [\"a\", \"b\"]\n";
    let m = parse_cargo_lock(multi).unwrap();
    let s = parse_cargo_lock(single).unwrap();
    assert_eq!(m, s);
    assert_eq!(m[0].dependencies, vec!["a", "b"]);
}

#[test]
fn parse_ignores_lines_before_first_header() {
    let with_preamble = "version = 3\nname = \"ghost\"\nversion = \"9\"\n[[package]]\nname = \"a\"\nversion = \"1\"\n";
    let without = "[[package]]\nname = \"a\"\nversion = \"1\"\n";
    assert_eq!(parse_cargo_lock(with_preamble).unwrap(), parse_cargo_lock(without).unwrap());
    assert_eq!(parse_cargo_lock(with_preamble).unwrap().len(), 1);
}

#[test]
fn parse_drops_entry_without_version() {
    let input = "[[package]]\nname = \"a\"\n[[package]]\nname = \"b\"\nversion = \"2\"\n";
    let packages = parse_cargo_lock(input).unwrap();
    assert_eq!(packages.len(), 1);
    assert_eq!(packages[0].name, "b");
}

#[test]
fn parse_at_most_one_package_per_header() {
    let input = "[[package]]\nname = \"a\"\nversion = \"1\"\nname = \"b\"\nversion = \"2\"\n";
    let packages = parse_cargo_lock(input).unwrap();
    assert_eq!(packages.len(), 1);
    assert_eq!(packages[0].name, "b");
    assert!(parse_cargo_lock("name = \"a\"\nversion = \"1\"\n").unwrap().is_empty());
    assert!(parse_cargo_lock("").unwrap().is_empty());
}

#[test]
fn parse_checksum_carries_over_when_entry_incomplete() {
    let input = "[[package]]\nname = \"a\"\nchecksum = \"c1\"\n[[package]]\nname = \"b\"\nversion = \"2\"\n";
    let packages = parse_cargo_lock(input).unwrap();
    assert_eq!(packages.len(), 1);
    assert_eq!(packages[0].checksum, Some("c1".to_string()));
}

#[test]
fn parse_handles_crlf_and_whitespace() {
    let input = "[[package]]\r\n  name = \"a\"  \r\n\tversion=\"1\"\r\ndependencies = [\r\n\"x\" ,\r\n]\r\n";
    let packages = parse_cargo_lock(input).unwrap();
    assert_eq!(packages.len(), 1);
    assert_eq!(packages[0].name, "a");
    assert_eq!(packages[0].version, "1");
    assert_eq!(packages[0].dependencies, vec!["x"]);
}

#[test]
fn parse_non_ascii_values() {
    let input = "[[package]]\nname = \"d\u{e9}j\u{e0}\"\nversion = \"\u{3b1}\"\n";
    let packages = parse_cargo_lock(input).unwrap();
    assert_eq!(packages[0].name, "d\u{e9}j\u{e0}");
    assert_eq!(packages[0].version, "\u{3b1}");
}

#[test]
fn parse_refuses_list_with_brackets_out_of_order() {
    let bad = "[[package]]\nname = \"a\"\nversion = \"1\"\ndependencies ] \"a\" \"b\" [\n";
    assert_eq!(parse_cargo_lock(bad), Err(ParseError::MisorderedBrackets));
    assert!(ParseError::MisorderedBrackets.message().contains("before"));
    let good = "[[package]]\nname = \"a\"\nversion = \"1\"\n";
    assert_eq!(parse_cargo_lock(good).unwrap().len(), 1);
    let before_header = "dependencies ] \"a\" \"b\" [\n[[package]]\nname = \"a\"\nversion = \"1\"\n";
    assert_eq!(parse_cargo_lock(before_header).unwrap().len(), 1);
}

#[test]
fn reindented_crlf_text_parses_alike() {
    let lf = "version = 3\n\n[[package]]\nname = \"a\"\nversion = \"1\"\ndependencies = [\n \"b\",\n]\n";
    let crlf = "version = 3\r\n[[package]]\r\n    name = \"a\"   \r\n\r\n\tversion = \"1\"\r\ndependencies = [\r\n\"b\",\r\n  ]";
    assert_eq!(parse_cargo_lock(lf).unwrap(), parse_cargo_lock(crlf).unwrap());
    assert_eq!(parse_cargo_lock(crlf).unwrap()[0].dependencies, vec!["b"]);
}

#[test]
fn parse_empty_list_closed_on_same_line() {
    let input = "[[package]]\nname = \"a\"\nversion = \"1\"\ndependencies = []\n";
    let packages = parse_cargo_lock(input).unwrap();
    assert!(packages[0].dependencies.is_empty());
}
