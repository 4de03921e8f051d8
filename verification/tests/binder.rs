use bevy_tiled_blueprints::binder::{add_properties, describe};
use bevy_tiled_blueprints::commands::{Commands, Diagnostic};
use bevy_tiled_blueprints::model::{Color, Property, PropertyValue};
use bevy::reflect::TypeRegistry;
use bevy_tiled_blueprints::scene::Mutation;

/// The primitive types and text, a struct (`Name`) and an enumeration
/// (`TimerMode`, with the variants `Once` and `Repeating`).
fn registry() -> TypeRegistry {
    let mut registry = TypeRegistry::new();
    registry.register::<bevy::core::Name>();
    registry.register::<bevy::time::TimerMode>();
    registry
}

fn property(key: &str, value: PropertyValue) -> Property {
    Property { key: key.to_string(), value }
}

fn text(value: &str) -> PropertyValue {
    PropertyValue::StringValue(value.to_string())
}

fn bind(properties: Vec<Property>) -> Commands {
    let mut commands = Commands::new(10);
    add_properties(&properties, 3, &registry(), &mut commands);
    commands
}

fn attach(type_path: &str, description: &str) -> Mutation {
    Mutation::AttachRecord { node: 3, type_path: type_path.to_string(), description: description.to_string() }
}

#[test]
fn description_names_the_type_and_holds_the_body() {
    assert_eq!(describe("i32", "(5)"), "{ \"i32\":(5) }");
    assert_eq!(describe("", ""), "{ \"\": }");
}

#[test]
fn integer_binds_as_tuple_of_one() {
    let commands = bind(vec![property("i32", PropertyValue::IntValue(42))]);
    assert_eq!(commands.mutations, vec![attach("i32", "{ \"i32\":(42) }")]);
    assert!(commands.diagnostics.is_empty());
    assert_eq!(commands.next_node, 10);
    assert!(!commands.exhausted);
}

#[test]
fn negative_integer_keeps_its_sign() {
    let commands = bind(vec![property("i32", PropertyValue::IntValue(-7))]);
    assert_eq!(commands.mutations, vec![attach("i32", "{ \"i32\":(-7) }")]);
    let commands = bind(vec![property("i32", PropertyValue::IntValue(i32::MIN))]);
    assert_eq!(commands.mutations, vec![attach("i32", "{ \"i32\":(-2147483648) }")]);
}

#[test]
fn truth_value_binds_as_word() {
    let commands = bind(vec![
        property("bool", PropertyValue::BoolValue(true)),
        property("bool", PropertyValue::BoolValue(false)),
    ]);
    assert_eq!(
        commands.mutations,
        vec![
            attach("bool", "{ \"bool\":(true) }"),
            attach("bool", "{ \"bool\":(false) }"),
        ]
    );
}

#[test]
fn number_with_fraction_binds_by_its_text() {
    let commands = bind(vec![property("f32", PropertyValue::FloatValue(1.5f32.to_string()))]);
    assert_eq!(commands.mutations, vec![attach("f32", "{ \"f32\":(1.5) }")]);
}

#[test]
fn plain_text_is_put_in_brackets() {
    let commands = bind(vec![property("String", text("\"door\""))]);
    assert_eq!(commands.mutations, vec![attach("alloc::string::String", "{ \"alloc::string::String\":(\"door\") }")]);
}

#[test]
fn bracketed_text_is_the_body_as_it_stands() {
    let commands = bind(vec![property("Name", text("(name: \"orc\", strength: 3)"))]);
    assert_eq!(
        commands.mutations,
        vec![attach("bevy_core::name::Name", "{ \"bevy_core::name::Name\":(name: \"orc\", strength: 3) }")]
    );
}

#[test]
fn white_space_around_a_value_is_dropped() {
    let commands = bind(vec![property("Name", text("  (strength: 3)\n")), property("String", text("\t7 "))]);
    assert_eq!(
        commands.mutations,
        vec![
            attach("bevy_core::name::Name", "{ \"bevy_core::name::Name\":(strength: 3) }"),
            attach("alloc::string::String", "{ \"alloc::string::String\":(7) }"),
        ]
    );
}

#[test]
fn empty_text_binds_the_empty_tuple() {
    let commands = bind(vec![property("u8", text("")), property("u8", text("   "))]);
    assert_eq!(
        commands.mutations,
        vec![attach("u8", "{ \"u8\":() }"), attach("u8", "{ \"u8\":() }")]
    );
}

#[test]
fn unsupported_value_binds_the_empty_tuple() {
    let commands = bind(vec![property("u8", PropertyValue::Unsupported)]);
    assert_eq!(commands.mutations, vec![attach("u8", "{ \"u8\":() }")]);
    assert!(commands.diagnostics.is_empty());
}

#[test]
fn enum_value_resolves_whatever_the_case() {
    let upper = bind(vec![property("TimerMode", text("Once"))]);
    let lower = bind(vec![property("TimerMode", text("once"))]);
    assert_eq!(
        upper.mutations,
        vec![attach("bevy_time::timer::TimerMode", "{ \"bevy_time::timer::TimerMode\":Once }")]
    );
    assert_eq!(lower.mutations, upper.mutations);
    let commands = bind(vec![property("TimerMode", text(" REPEATING "))]);
    assert_eq!(
        commands.mutations,
        vec![attach("bevy_time::timer::TimerMode", "{ \"bevy_time::timer::TimerMode\":Repeating }")]
    );
}

#[test]
fn unmatched_enum_value_is_reported_and_the_rest_still_binds() {
    let commands = bind(vec![
        property("i32", PropertyValue::IntValue(1)),
        property("TimerMode", text("Purple")),
        property("bool", PropertyValue::BoolValue(true)),
    ]);
    assert_eq!(
        commands.mutations,
        vec![attach("i32", "{ \"i32\":(1) }"), attach("bool", "{ \"bool\":(true) }")]
    );
    assert_eq!(
        commands.diagnostics,
        vec![Diagnostic::UnknownVariant { key: "TimerMode".to_string(), text: "Purple".to_string() }]
    );
}

#[test]
fn bracketed_enum_value_is_the_body_as_it_stands() {
    let commands = bind(vec![property("TimerMode", text("(Once)"))]);
    assert_eq!(
        commands.mutations,
        vec![attach("bevy_time::timer::TimerMode", "{ \"bevy_time::timer::TimerMode\":(Once) }")]
    );
}

#[test]
fn one_bracket_without_the_other_is_reported() {
    let commands = bind(vec![
        property("Name", text("(strength: 3")),
        property("Name", text("strength: 3)")),
        property("TimerMode", text("Once)")),
        property("i32", PropertyValue::IntValue(2)),
    ]);
    assert_eq!(commands.mutations, vec![attach("i32", "{ \"i32\":(2) }")]);
    assert_eq!(
        commands.diagnostics,
        vec![
            Diagnostic::UnbalancedValue { key: "Name".to_string() },
            Diagnostic::UnbalancedValue { key: "Name".to_string() },
            Diagnostic::UnbalancedValue { key: "TimerMode".to_string() },
        ]
    );
}

#[test]
fn single_bracket_is_both_open_and_not_closed() {
    let commands = bind(vec![property("Name", text("(")), property("Name", text(")"))]);
    assert!(commands.mutations.is_empty());
    assert_eq!(commands.diagnostics.len(), 2);
}

#[test]
fn colour_is_reported_and_binds_nothing() {
    let colour = PropertyValue::ColorValue(Color { red: 255, green: 0, blue: 0, alpha: 255 });
    let commands = bind(vec![property("u16", colour.clone()), property("TimerMode", colour)]);
    assert!(commands.mutations.is_empty());
    assert_eq!(
        commands.diagnostics,
        vec![
            Diagnostic::UnbalancedValue { key: "u16".to_string() },
            Diagnostic::UnbalancedValue { key: "TimerMode".to_string() },
        ]
    );
}

#[test]
fn unknown_key_is_passed_over() {
    let commands = bind(vec![
        property("speed", PropertyValue::IntValue(3)),
        property("I32", PropertyValue::IntValue(3)),
        property("core::i32", PropertyValue::IntValue(3)),
        property("Timer", PropertyValue::IntValue(3)),
        property("", PropertyValue::IntValue(3)),
    ]);
    assert!(commands.mutations.is_empty());
    assert!(commands.diagnostics.is_empty());
}

#[test]
fn removal_key_queues_the_removal() {
    let commands = bind(vec![property("remove:i32", PropertyValue::BoolValue(true))]);
    assert_eq!(commands.mutations, vec![Mutation::RemoveRecord { node: 3, type_path: "i32".to_string() }]);
    assert!(commands.diagnostics.is_empty());
}

#[test]
fn removal_of_an_unregistered_type_is_reported() {
    let commands = bind(vec![
        property("remove:Foo", text("")),
        property("remove:", text("")),
        property("remove:I32", text("")),
        property("i32", PropertyValue::IntValue(9)),
    ]);
    assert_eq!(commands.mutations, vec![attach("i32", "{ \"i32\":(9) }")]);
    assert_eq!(
        commands.diagnostics,
        vec![
            Diagnostic::UnknownRemoval { key: "remove:Foo".to_string() },
            Diagnostic::UnknownRemoval { key: "remove:".to_string() },
            Diagnostic::UnknownRemoval { key: "remove:I32".to_string() },
        ]
    );
}

#[test]
fn removal_marker_counts_only_at_the_start_and_in_lower_case() {
    let commands = bind(vec![
        property("Remove:i32", text("")),
        property(" remove:i32", text("")),
        property("xremove:i32", text("")),
    ]);
    assert!(commands.mutations.is_empty());
    assert!(commands.diagnostics.is_empty());
}

#[test]
fn properties_bind_in_their_order_behind_what_is_queued() {
    let mut commands = Commands::new(5);
    commands.queue(Mutation::MarkForRemoval { node: 1 });
    add_properties(
        &vec![property("i32", PropertyValue::IntValue(1)), property("remove:i32", text(""))],
        4,
        &registry(),
        &mut commands,
    );
    assert_eq!(
        commands.mutations,
        vec![
            Mutation::MarkForRemoval { node: 1 },
            Mutation::AttachRecord {
                node: 4,
                type_path: "i32".to_string(),
                description: "{ \"i32\":(1) }".to_string(),
            },
            Mutation::RemoveRecord { node: 4, type_path: "i32".to_string() },
        ]
    );
}

#[test]
fn no_properties_bind_nothing() {
    let commands = bind(Vec::new());
    assert!(commands.mutations.is_empty());
    assert!(commands.diagnostics.is_empty());
}
