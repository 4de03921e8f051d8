//! Binding properties to records.
//!
//! A property whose key is the short path of a registered type gives the node
//! a record of that type, described as text. A property whose key is
//! `remove:` and such a path takes the record of that type off the node. Any
//! other property is passed over.

use vstd::prelude::*;
use vstd::string::*;
use crate::commands::{Commands, CommandsView, Diagnostic, DiagnosticView};
use crate::model::{Property, PropertyValue};
use crate::registry::{find_type, first_variant, name_views, registered, resolve_variant, RegisteredType};
use crate::scene::{Mutation, MutationView};
use crate::text::{
    bool_text,
    decimal_text,
    has_prefix,
    render_bool,
    render_signed,
    skip_chars,
    trim_text,
    trimmed,
};

verus! {

/// The marker that opens the key of a removal.
pub open spec fn remove_prefix() -> Seq<char> {
    "remove:"@
}

/// The text of a value before it is trimmed. A colour has none here: see
/// [`value_outcome`].
pub open spec fn value_text(value: PropertyValue) -> Seq<char> {
    match value {
        PropertyValue::BoolValue(b) => bool_text(b),
        PropertyValue::FloatValue(t) => t@,
        PropertyValue::IntValue(i) => decimal_text(i as int),
        PropertyValue::StringValue(s) => s@,
        PropertyValue::ColorValue(_) => Seq::empty(),
        PropertyValue::Unsupported => Seq::empty(),
    }
}

/// Whether a text opens with a round bracket.
pub open spec fn opens_bracket(text: Seq<char>) -> bool {
    text.len() > 0 && text.first() == '('
}

/// Whether a text closes with a round bracket.
pub open spec fn closes_bracket(text: Seq<char>) -> bool {
    text.len() > 0 && text.last() == ')'
}

/// A text in round brackets.
pub open spec fn bracketed(text: Seq<char>) -> Seq<char> {
    "("@ + text + ")"@
}

/// The description of a record: the path of its type in double quotes, a
/// colon and the body, in curly brackets.
pub open spec fn description(type_path: Seq<char>, body: Seq<char>) -> Seq<char> {
    "{ \""@ + type_path + "\":"@ + body + " }"@
}

/// What one property comes to.
pub enum Outcome {
    /// A record of the type is bound.
    Attach { type_path: Seq<char>, description: Seq<char> },
    /// The record of the type is removed.
    Remove { type_path: Seq<char> },
    /// Nothing is bound, and the finding is reported.
    Report(DiagnosticView),
    /// The key is nothing to the binder.
    Skip,
}

/// What a value comes to for the type that its key has found: the type has
/// the path `type_path` and, if it is an enumeration, the variants `variants`.
///
/// The trimmed text of the value is the body as it stands where it opens and
/// closes with a round bracket. Where it does neither, it names a variant of
/// an enumeration, letter case aside, or is put in round brackets for any
/// other type. A text with one bracket of the two is reported. A colour is
/// written as the name of its colour space and its channels in round
/// brackets, which closes with a bracket and does not open with one: it is
/// always reported.
pub open spec fn value_outcome(
    key: Seq<char>,
    value: PropertyValue,
    type_path: Seq<char>,
    variants: Option<Seq<Seq<char>>>,
) -> Outcome {
    let text = trimmed(value_text(value));
    if value is ColorValue {
        Outcome::Report(DiagnosticView::UnbalancedValue { key })
    } else if opens_bracket(text) && closes_bracket(text) {
        Outcome::Attach { type_path, description: description(type_path, text) }
    } else if !opens_bracket(text) && !closes_bracket(text) {
        match variants {
            Some(names) => match first_variant(names, text, 0) {
                Some(v) => Outcome::Attach { type_path, description: description(type_path, names[v]) },
                None => Outcome::Report(DiagnosticView::UnknownVariant { key, text }),
            },
            None => Outcome::Attach { type_path, description: description(type_path, bracketed(text)) },
        }
    } else {
        Outcome::Report(DiagnosticView::UnbalancedValue { key })
    }
}

/// What a property comes to, given the registered types.
pub open spec fn property_outcome(property: Property, registry: bevy::reflect::TypeRegistry) -> Outcome {
    let key = property.key@;
    let types = registered(registry);
    if types.contains_key(key) {
        value_outcome(key, property.value, types[key].0, types[key].1)
    } else if remove_prefix().is_prefix_of(key) {
        let name = key.skip(remove_prefix().len() as int);
        if types.contains_key(name) {
            Outcome::Remove { type_path: types[name].0 }
        } else {
            Outcome::Report(DiagnosticView::UnknownRemoval { key })
        }
    } else {
        Outcome::Skip
    }
}

/// The mutations that one property queues for `node`: one or none.
pub open spec fn property_mutations(
    property: Property,
    node: usize,
    registry: bevy::reflect::TypeRegistry,
) -> Seq<MutationView> {
    match property_outcome(property, registry) {
        Outcome::Attach { type_path, description } => seq![
            MutationView::AttachRecord { node, type_path, description },
        ],
        Outcome::Remove { type_path } => seq![MutationView::RemoveRecord { node, type_path }],
        _ => Seq::empty(),
    }
}

/// The findings that one property gives: one or none.
pub open spec fn property_diagnostics(property: Property, registry: bevy::reflect::TypeRegistry) -> Seq<
    DiagnosticView,
> {
    match property_outcome(property, registry) {
        Outcome::Report(d) => seq![d],
        _ => Seq::empty(),
    }
}

/// The mutations that the properties queue for `node`, in their order.
pub open spec fn binding_mutations(
    properties: Seq<Property>,
    node: usize,
    registry: bevy::reflect::TypeRegistry,
) -> Seq<MutationView>
    decreases properties.len(),
{
    if properties.len() == 0 {
        Seq::empty()
    } else {
        binding_mutations(properties.drop_last(), node, registry) + property_mutations(
            properties.last(),
            node,
            registry,
        )
    }
}

/// The findings that the properties give, in their order.
pub open spec fn binding_diagnostics(properties: Seq<Property>, registry: bevy::reflect::TypeRegistry) -> Seq<
    DiagnosticView,
>
    decreases properties.len(),
{
    if properties.len() == 0 {
        Seq::empty()
    } else {
        binding_diagnostics(properties.drop_last(), registry) + property_diagnostics(
            properties.last(),
            registry,
        )
    }
}

/// The commands after the properties are bound to `node`.
pub open spec fn bound(
    c: CommandsView,
    properties: Seq<Property>,
    node: usize,
    registry: bevy::reflect::TypeRegistry,
) -> CommandsView {
    CommandsView {
        mutations: c.mutations + binding_mutations(properties, node, registry),
        diagnostics: c.diagnostics + binding_diagnostics(properties, registry),
        ..c
    }
}

/// Renders a value as text, before trimming.
fn render_value(value: &PropertyValue) -> (r: String)
    ensures
        r@ == value_text(*value),
{
    match value {
        PropertyValue::BoolValue(b) => render_bool(*b),
        PropertyValue::FloatValue(t) => t.clone(),
        PropertyValue::IntValue(i) => render_signed(*i as i64),
        PropertyValue::StringValue(s) => s.clone(),
        PropertyValue::ColorValue(_) => String::new(),
        PropertyValue::Unsupported => String::new(),
    }
}

/// Writes the description of a record.
pub fn describe(type_path: &str, body: &str) -> (r: String)
    ensures
        r@ == description(type_path@, body@),
{
    let mut out = String::from_str("{ \"");
    out.append(type_path);
    out.append("\":");
    out.append(body);
    out.append(" }");
    out
}

/// Puts a text in round brackets.
fn bracket(text: &str) -> (r: String)
    ensures
        r@ == bracketed(text@),
{
    let mut out = String::from_str("(");
    out.append(text);
    out.append(")");
    out
}

/// What a value comes to for the type that its key has found, as a mutation
/// or a finding.
fn bind_value(key: &String, value: &PropertyValue, found: &RegisteredType, e: usize, commands: &mut Commands)
    ensures
        final(commands)@ == (match value_outcome(key@, *value, found@.0, found@.1) {
            Outcome::Attach { type_path, description } => old(commands)@.queued(
                MutationView::AttachRecord { node: e, type_path, description },
            ),
            Outcome::Remove { type_path } => old(commands)@.queued(MutationView::RemoveRecord { node: e, type_path }),
            Outcome::Report(d) => old(commands)@.reported(d),
            Outcome::Skip => old(commands)@,
        }),
{
    if let PropertyValue::ColorValue(_) = value {
        commands.report(Diagnostic::UnbalancedValue { key: key.clone() });
        return ;
    }
    let type_path = &found.type_path;
    let raw = render_value(value);
    let text = trim_text(raw.as_str());
    let n = text.as_str().unicode_len();
    let opens = n > 0 && text.as_str().get_char(0) == '(';
    let closes = n > 0 && text.as_str().get_char(n - 1) == ')';
    if opens && closes {
        let described = describe(type_path.as_str(), text.as_str());
        commands.queue(Mutation::AttachRecord { node: e, type_path: type_path.clone(), description: described });
    } else if !opens && !closes {
        match &found.variants {
            Some(variants) => {
                match resolve_variant(variants, text.as_str()) {
                    Some(v) => {
                        let described = describe(type_path.as_str(), variants[v].as_str());
                        commands.queue(
                            Mutation::AttachRecord { node: e, type_path: type_path.clone(), description: described },
                        );
                    },
                    None => {
                        commands.report(Diagnostic::UnknownVariant { key: key.clone(), text });
                    },
                }
            },
            None => {
                let body = bracket(text.as_str());
                let described = describe(type_path.as_str(), body.as_str());
                commands.queue(
                    Mutation::AttachRecord { node: e, type_path: type_path.clone(), description: described },
                );
            },
        }
    } else {
        commands.report(Diagnostic::UnbalancedValue { key: key.clone() });
    }
}

/// Binds one property to node `e`.
fn bind_property(
    property: &Property,
    e: usize,
    type_registry: &bevy::reflect::TypeRegistry,
    commands: &mut Commands,
)
    ensures
        final(commands)@ == (CommandsView {
            mutations: old(commands)@.mutations + property_mutations(*property, e, *type_registry),
            diagnostics: old(commands)@.diagnostics + property_diagnostics(*property, *type_registry),
            ..old(commands)@
        }),
{
    let ghost before = commands@;
    match find_type(type_registry, property.key.as_str()) {
        Some(found) => {
            bind_value(&property.key, &property.value, &found, e, commands);
        },
        None => {
            let marker = "remove:";
            if has_prefix(property.key.as_str(), marker) {
                let name = skip_chars(property.key.as_str(), marker.unicode_len());
                match find_type(type_registry, name.as_str()) {
                    Some(found) => {
                        commands.queue(Mutation::RemoveRecord { node: e, type_path: found.type_path });
                    },
                    None => {
                        commands.report(Diagnostic::UnknownRemoval { key: property.key.clone() });
                    },
                }
            }
        },
    }
    proof {
        let ms = property_mutations(*property, e, *type_registry);
        let ds = property_diagnostics(*property, *type_registry);
        assert(commands@.mutations =~= before.mutations + ms);
        assert(commands@.diagnostics =~= before.diagnostics + ds);
    }
}

/// Binds the properties of one element to its node `e`: for each property in
/// turn, queues the record to attach or to remove, or reports why none is.
pub fn add_properties(
    properties: &Vec<Property>,
    e: usize,
    type_registry: &bevy::reflect::TypeRegistry,
    commands: &mut Commands,
)
    ensures
        final(commands)@ == bound(old(commands)@, properties@, e, *type_registry),
{
    let ghost before = commands@;
    let mut i: usize = 0;
    proof {
        assert(binding_mutations(properties@.take(0), e, *type_registry) =~= Seq::empty());
        assert(binding_diagnostics(properties@.take(0), *type_registry) =~= Seq::empty());
        assert(commands@.mutations =~= before.mutations + Seq::<MutationView>::empty());
        assert(commands@.diagnostics =~= before.diagnostics + Seq::<DiagnosticView>::empty());
    }
    while i < properties.len()
        invariant
            i <= properties.len(),
            commands@ == bound(before, properties@.take(i as int), e, *type_registry),
        decreases properties.len() - i,
    {
        proof {
            assert(properties@.take(i + 1).drop_last() =~= properties@.take(i as int));
            assert(properties@.take(i + 1).last() == properties@[i as int]);
        }
        bind_property(&properties[i], e, type_registry, commands);
        proof {
            let next = bound(before, properties@.take(i + 1), e, *type_registry);
            assert(commands@.mutations =~= next.mutations);
            assert(commands@.diagnostics =~= next.diagnostics);
        }
        i += 1;
    }
    proof {
        assert(properties@.take(properties.len() as int) =~= properties@);
    }
}

} // verus!
