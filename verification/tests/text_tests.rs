use rust_signatures_mcp::text::{
    indent_string, is_white_space_char, join_strings, replace_char, starts_with, strip_prefix,
    trim_string,
};

#[test]
fn white_space_table_agrees_with_std() {
    for n in 0u32..=0x10FFFF {
        if let Some(c) = char::from_u32(n) {
            assert_eq!(is_white_space_char(c), c.is_whitespace(), "code point {:x}", n);
        }
    }
}

#[test]
fn trim_agrees_with_std() {
    for s in ["", "   ", "  a b  ", "\u{3000}x\u{2029}", "\tline\n", "no-space", " \u{85}\u{a0}y"] {
        assert_eq!(trim_string(s), s.trim());
    }
}

#[test]
fn join_agrees_with_std() {
    let parts: Vec<String> = vec!["a: u8".into(), "b: String".into(), "c".into()];
    assert_eq!(join_strings(&parts, ", "), parts.join(", "));
    assert_eq!(join_strings(&vec![], ", "), "");
    assert_eq!(join_strings(&vec!["only".into()], ", "), "only");
}

#[test]
fn indent_agrees_with_replace() {
    for s in ["", "one", "a\nb", "\n\n", "/// doc\nfn f()"] {
        assert_eq!(indent_string(s), s.replace('\n', "\n  "));
    }
}

#[test]
fn replace_char_agrees_with_std() {
    assert_eq!(replace_char("clap_derive_x", '_', '-'), "clap-derive-x");
    assert_eq!(replace_char("plain", '_', '-'), "plain");
}

#[test]
fn prefixes() {
    assert!(starts_with("serde-1.0", "serde-"));
    assert!(!starts_with("serd", "serde-"));
    assert!(starts_with("x", ""));
    assert_eq!(strip_prefix("serde-1.0.2", "serde-"), Some("1.0.2".to_string()));
    assert_eq!(strip_prefix("tokio-1.0", "serde-"), None);
}
