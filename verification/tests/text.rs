use sprinkles_editor::text::{
    chars_of, decimal_string, eq_ignore_ascii_case, lex_le_exec, parse_u32, string_of,
};

fn cs(s: &str) -> Vec<char> {
    chars_of(s)
}

#[test]
fn decimal_strings() {
    assert_eq!(decimal_string(0), "0");
    assert_eq!(decimal_string(7), "7");
    assert_eq!(decimal_string(1200), "1200");
    assert_eq!(decimal_string(u32::MAX), "4294967295");
}

#[test]
fn parse_like_std() {
    for s in ["0", "+5", "12", "0042", "4294967295", "4294967296", "", "+", "-1", "1 ", "a", "++1", "１"] {
        assert_eq!(parse_u32(&cs(s)), s.parse::<u32>().ok(), "{:?}", s);
    }
}

#[test]
fn ascii_case() {
    assert!(eq_ignore_ascii_case(&cs("PnG"), &cs("png")));
    assert!(!eq_ignore_ascii_case(&cs("pngg"), &cs("png")));
    assert!(!eq_ignore_ascii_case(&cs("É"), &cs("é")));
}

#[test]
fn lexicographic_order() {
    assert!(lex_le_exec(&cs("abc"), &cs("abd")));
    assert!(lex_le_exec(&cs("ab"), &cs("abc")));
    assert!(!lex_le_exec(&cs("b"), &cs("abc")));
    assert!(lex_le_exec(&cs("B"), &cs("a")));
    assert!(lex_le_exec(&cs(""), &cs("")));
}

#[test]
fn chars_round_trip() {
    assert_eq!(string_of(&cs("héllo_x")), "héllo_x");
}
