use bevy::reflect::TypeRegistry;
use bevy_tiled_blueprints::registry::{get_with_short_type_path, resolve_variant, RegisteredType};

fn names(list: &[&str]) -> Vec<String> {
    list.iter().map(|n| n.to_string()).collect()
}

#[test]
fn variant_is_found_whatever_the_case() {
    let variants = names(&["Red", "Green", "Blue"]);
    assert_eq!(resolve_variant(&variants, "Red"), Some(0));
    assert_eq!(resolve_variant(&variants, "red"), Some(0));
    assert_eq!(resolve_variant(&variants, "RED"), Some(0));
    assert_eq!(resolve_variant(&variants, "gReEn"), Some(1));
    assert_eq!(resolve_variant(&variants, "blue"), Some(2));
}

#[test]
fn unknown_variant_is_not_found() {
    let variants = names(&["Red", "Green", "Blue"]);
    assert_eq!(resolve_variant(&variants, "Purple"), None);
    assert_eq!(resolve_variant(&variants, ""), None);
    assert_eq!(resolve_variant(&variants, " red"), None);
    assert_eq!(resolve_variant(&Vec::new(), "red"), None);
}

#[test]
fn first_of_two_variants_with_one_lower_case_form_wins() {
    let variants = names(&["north", "North", "NORTH"]);
    assert_eq!(resolve_variant(&variants, "NoRtH"), Some(0));
}

fn registry() -> TypeRegistry {
    let mut registry = TypeRegistry::new();
    registry.register::<bevy::time::TimerMode>();
    registry.register::<bevy::core::Name>();
    registry
}

#[test]
fn short_path_finds_the_path_of_a_registered_type() {
    let registry = registry();
    assert_eq!(
        get_with_short_type_path(&registry, "i32"),
        Some(RegisteredType { type_path: "i32".to_string(), variants: None })
    );
    assert_eq!(
        get_with_short_type_path(&registry, "String"),
        Some(RegisteredType { type_path: "alloc::string::String".to_string(), variants: None })
    );
    assert_eq!(
        get_with_short_type_path(&registry, "Name"),
        Some(RegisteredType { type_path: "bevy_core::name::Name".to_string(), variants: None })
    );
}

#[test]
fn short_path_finds_the_variants_of_an_enumeration() {
    assert_eq!(
        get_with_short_type_path(&registry(), "TimerMode"),
        Some(RegisteredType {
            type_path: "bevy_time::timer::TimerMode".to_string(),
            variants: Some(vec!["Once".to_string(), "Repeating".to_string()]),
        })
    );
}

#[test]
fn other_texts_than_a_short_path_find_nothing() {
    let registry = registry();
    assert_eq!(get_with_short_type_path(&registry, "timermode"), None);
    assert_eq!(get_with_short_type_path(&registry, "bevy_time::timer::TimerMode"), None);
    assert_eq!(get_with_short_type_path(&registry, "Timer"), None);
    assert_eq!(get_with_short_type_path(&registry, " i32"), None);
    assert_eq!(get_with_short_type_path(&registry, ""), None);
}

#[test]
fn empty_registry_finds_nothing() {
    assert_eq!(get_with_short_type_path(&TypeRegistry::empty(), "i32"), None);
}
