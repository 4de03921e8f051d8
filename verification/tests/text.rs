use bevy_tiled_blueprints::text::{has_prefix, render_bool, render_signed, render_unsigned, skip_chars};

#[test]
fn unsigned_numbers_render_in_decimal() {
    assert_eq!(render_unsigned(0), "0");
    assert_eq!(render_unsigned(7), "7");
    assert_eq!(render_unsigned(10), "10");
    assert_eq!(render_unsigned(4_294_967_295), "4294967295");
    assert_eq!(render_unsigned(u64::MAX), "18446744073709551615");
}

#[test]
fn signed_numbers_render_with_their_sign() {
    assert_eq!(render_signed(0), "0");
    assert_eq!(render_signed(-1), "-1");
    assert_eq!(render_signed(42), "42");
    assert_eq!(render_signed(i64::MIN), "-9223372036854775808");
    assert_eq!(render_signed(i64::MAX), "9223372036854775807");
}

#[test]
fn truth_values_render_as_words() {
    assert_eq!(render_bool(true), "true");
    assert_eq!(render_bool(false), "false");
}

#[test]
fn prefixes_are_found_and_skipped() {
    assert!(has_prefix("remove:Foo", "remove:"));
    assert!(!has_prefix("remov", "remove:"));
    assert!(!has_prefix("Remove:Foo", "remove:"));
    assert!(has_prefix("anything", ""));
    assert_eq!(skip_chars("remove:Foo", 7), "Foo");
    assert_eq!(skip_chars("héllo", 2), "llo");
}
