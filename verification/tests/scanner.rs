use notemark::directive::{find_directive, word_char};
use notemark::migrations::{get_migrations, MigrationKind};
use notemark::text::{replace_char_str, str_eq};

#[test]
fn scanner_finds_a_directive_at_the_start() {
    assert_eq!(find_directive("i::[number(42)]"), Some((0, 6, 13)));
}

#[test]
fn scanner_reports_the_leftmost_match() {
    assert_eq!(find_directive("xx i::[a(b)] yy"), Some((3, 1, 10)));
    assert_eq!(find_directive("i::[text(one)] i::[text(two)]"), Some((0, 4, 12)));
}

#[test]
fn scanner_rejects_malformed_directives() {
    assert_eq!(find_directive("no directive"), None);
    assert_eq!(find_directive("i::[(x)]"), None);
    assert_eq!(find_directive("i::[text()]"), None);
    assert_eq!(find_directive("i::[text(x]"), None);
    assert_eq!(find_directive("i::[text"), None);
    assert_eq!(find_directive(""), None);
}

#[test]
fn scanner_rejects_a_line_break_inside_the_value() {
    assert_eq!(find_directive("i::[text(a\nb)]"), None);
    assert_eq!(find_directive("i::[text(a\nb)] i::[text(c)]"), Some((15, 4, 25)));
}

#[test]
fn scanner_stops_the_value_at_the_earliest_closer() {
    assert_eq!(find_directive("i::[a(b]c)d)]"), Some((0, 1, 11)));
}

#[test]
fn word_chars_are_alphanumerics_or_underscore() {
    assert!(word_char('x'));
    assert!(word_char('Z'));
    assert!(word_char('7'));
    assert!(word_char('_'));
    assert!(word_char('é'));
    assert!(word_char('Ж'));
    assert!(word_char('日'));
    assert!(!word_char('('));
    assert!(!word_char(' '));
    assert!(!word_char('-'));
    assert!(!word_char('€'));
}

#[test]
fn scanner_accepts_a_kind_beyond_ascii() {
    // char positions: the kind is one character long
    assert_eq!(find_directive("i::[é(a)]"), Some((0, 1, 7)));
    assert_eq!(find_directive("i::[número(42)]"), Some((0, 6, 13)));
}

#[test]
fn leftmost_match_wins_over_a_later_ascii_kind() {
    assert_eq!(find_directive("i::[é(a)] i::[b(c)]"), Some((0, 1, 7)));
}

#[test]
fn replacement_escapes_each_occurrence() {
    assert_eq!(replace_char_str("a'b'c", '\'', "\\'"), "a\\'b\\'c");
    assert_eq!(replace_char_str("a\"b", '"', "&quot;"), "a&quot;b");
    assert_eq!(replace_char_str("plain", '"', "&quot;"), "plain");
}

#[test]
fn string_equality_compares_characters() {
    assert!(str_eq("text", "text"));
    assert!(!str_eq("text", "texts"));
    assert!(!str_eq("text", "tExt"));
}

#[test]
fn migrations_hold_the_schema_history() {
    let migrations = get_migrations();
    assert_eq!(migrations.len(), 2);
    assert_eq!(migrations[0].version, 1);
    assert_eq!(migrations[0].description, "initial_schema");
    assert!(matches!(migrations[0].kind, MigrationKind::Up));
    assert!(migrations[0].sql.contains("CREATE TABLE IF NOT EXISTS workspaces"));
    assert!(migrations[0].sql.contains("ON DELETE CASCADE"));
    assert_eq!(migrations[1].version, 2);
    assert_eq!(migrations[1].description, "Drop initial_schema");
    assert!(matches!(migrations[1].kind, MigrationKind::Down));
    assert!(migrations[1].sql.contains("DROP TABLE IF EXISTS workspaces"));
}
