use win_make_ro::args::{Args, Parse};
use win_make_ro::quote::{elevation_parameters, quote};

fn w(s: &str) -> Vec<u16> {
    s.encode_utf16().collect()
}

fn q(s: &str) -> String {
    String::from_utf16_lossy(&quote(&w(s)))
}

#[test]
fn a_trailing_backslash_is_doubled_before_the_closing_quote() {
    assert_eq!(q(r"C:\data\"), r#""C:\data\\""#);
    assert_eq!(q(r"C:\other"), r#""C:\other""#);
}

#[test]
fn quotes_and_the_backslashes_before_them_are_escaped() {
    assert_eq!(q(r#"a"b"#), r#""a\"b""#);
    assert_eq!(q(r#"d\\"e"#), r#""d\\\\\"e""#);
    assert_eq!(q(r"c\\"), r#""c\\\\""#);
    assert_eq!(q(r"a\b"), r#""a\b""#, "backslashes elsewhere are literal");
}

#[test]
fn an_empty_argument_is_a_pair_of_quotes() {
    assert_eq!(q(""), "\"\"");
}

#[test]
fn unpaired_surrogates_are_kept() {
    assert_eq!(quote(&[b'x' as u16, 0xD800]), vec![0x22, b'x' as u16, 0xD800, 0x22]);
    assert_ne!(quote(&[b'x' as u16, 0xD800]), quote(&[b'x' as u16, 0xDC00]));
}

#[test]
fn the_elevated_child_gets_the_same_arguments_with_no_elevate() {
    let argv = vec![w("lock"), w("--gui"), w("--"), w(r"C:\a b\")];
    let a = match Args::parse(&argv, &None) {
        Parse::Parsed(a) => a,
        other => panic!("{other:?}"),
    };
    let line = elevation_parameters(&a);
    assert_eq!(
        String::from_utf16_lossy(&line),
        "\"lock\" \"--gui\" \"--no-elevate\" \"--\" \"C:\\a b\\\\\"\0"
    );
}
