use goldsrc::placeholders::{substitute_named, substitute_positional};
use goldsrc::text::is_alphanumeric;

#[test]
fn test_substitute_named_replaces_keys_correctly() {
    let tmpl = "Hello {name}, your balance is {amount}!";
    let named = &[("name", "Alice"), ("amount", "500")];
    let res = substitute_named(tmpl, named);
    assert_eq!(res, "Hello Alice, your balance is 500!");
}

#[test]
fn test_substitute_named_preserves_unmatched_braces() {
    let tmpl = "Hello {name}, keep {unknown} as is, and {escaped.";
    let named = &[("name", "Bob")];
    let res = substitute_named(tmpl, named);
    assert_eq!(res, "Hello Bob, keep {unknown} as is, and {escaped.");
}

#[test]
fn test_substitute_positional_replaces_1_based_indices() {
    let tmpl = "Player {1} killed {2} with {3}";
    let pos = &["Alice", "Bob", "AWP"];
    let res = substitute_positional(tmpl, pos);
    assert_eq!(res, "Player Alice killed Bob with AWP");
}

#[test]
fn substitute_positional_keeps_out_of_range_and_zero() {
    let res = substitute_positional("{0} {1} {4}", &["a"]);
    assert_eq!(res, "{0} a {4}");
}

#[test]
fn ascii_lowercasing_keeps_other_characters() {
    assert_eq!(goldsrc::text::to_lowercase("AbC_1-Z"), "abc_1-z");
}

#[test]
fn alphanumeric_ascii_letters_and_digits_only() {
    assert!(is_alphanumeric('a'));
    assert!(is_alphanumeric('Z'));
    assert!(is_alphanumeric('7'));
    assert!(!is_alphanumeric('_'));
    assert!(!is_alphanumeric('.'));
    assert!(!is_alphanumeric(' '));
    assert!(is_alphanumeric('\u{e9}'));
}
