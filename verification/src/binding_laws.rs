//! What holds of binding: a value names its variant whatever its letter case,
//! each property binds by itself, a removal takes exactly one record, and
//! binding twice is binding once.

use vstd::prelude::*;
use crate::binder::{
    binding_diagnostics,
    binding_mutations,
    closes_bracket,
    description,
    opens_bracket,
    property_diagnostics,
    property_mutations,
    remove_prefix,
    value_outcome,
    value_text,
    Outcome,
};
use crate::commands::DiagnosticView;
use crate::model::{Property, PropertyValue};
use crate::registry::{first_variant, registered};
use crate::scene::{is_live, run, step, MutationView, NodeView};
use crate::text::{lowercased, trimmed};

verus! {

/// Two texts that are equal in lower case name the same variant.
pub proof fn lemma_variant_ignores_case(variants: Seq<Seq<char>>, a: Seq<char>, b: Seq<char>, from: int)
    requires
        lowercased(a) == lowercased(b),
    ensures
        first_variant(variants, a, from) == first_variant(variants, b, from),
    decreases variants.len() - from,
{
    if 0 <= from < variants.len() && lowercased(variants[from]) != lowercased(a) {
        lemma_variant_ignores_case(variants, a, b, from + 1);
    }
}

/// The variant that a text names has the text's lower-case form, and no
/// variant before it has.
pub proof fn lemma_variant_is_first(variants: Seq<Seq<char>>, text: Seq<char>, from: int)
    requires
        0 <= from,
    ensures
        match first_variant(variants, text, from) {
            Some(v) => from <= v < variants.len() && lowercased(variants[v]) == lowercased(text) && forall|j: int|
                from <= j < v ==> lowercased(#[trigger] variants[j]) != lowercased(text),
            None => forall|j: int|
                from <= j < variants.len() ==> lowercased(#[trigger] variants[j]) != lowercased(text),
        },
    decreases variants.len() - from,
{
    if from < variants.len() && lowercased(variants[from]) != lowercased(text) {
        lemma_variant_is_first(variants, text, from + 1);
    }
}

/// The value of an enumeration is read whatever its letter case: two values
/// without brackets whose trimmed texts are equal in lower case bind the same
/// record, or both bind none.
pub proof fn lemma_enum_value_ignores_case(
    key: Seq<char>,
    a: PropertyValue,
    b: PropertyValue,
    type_path: Seq<char>,
    variants: Seq<Seq<char>>,
)
    requires
        !(a is ColorValue),
        !(b is ColorValue),
        !opens_bracket(trimmed(value_text(a))) && !closes_bracket(trimmed(value_text(a))),
        !opens_bracket(trimmed(value_text(b))) && !closes_bracket(trimmed(value_text(b))),
        lowercased(trimmed(value_text(a))) == lowercased(trimmed(value_text(b))),
    ensures
        match value_outcome(key, a, type_path, Some(variants)) {
            Outcome::Attach { type_path: path, description } => value_outcome(key, b, type_path, Some(variants)) == (
            Outcome::Attach { type_path: path, description }),
            Outcome::Report(_) => value_outcome(key, b, type_path, Some(variants)) is Report,
            _ => false,
        },
{
    lemma_variant_ignores_case(variants, trimmed(value_text(a)), trimmed(value_text(b)), 0);
}

/// A value without brackets that names no variant of its enumeration binds
/// nothing and is reported.
pub proof fn lemma_unknown_variant_is_reported(
    property: Property,
    registry: bevy::reflect::TypeRegistry,
    node: usize,
)
    requires
        registered(registry).contains_key(property.key@),
        registered(registry)[property.key@].1 matches Some(variants) && first_variant(
            variants,
            trimmed(value_text(property.value)),
            0,
        ) is None,
        !(property.value is ColorValue),
        !opens_bracket(trimmed(value_text(property.value))),
        !closes_bracket(trimmed(value_text(property.value))),
    ensures
        property_mutations(property, node, registry) == Seq::<MutationView>::empty(),
        property_diagnostics(property, registry) == seq![
            DiagnosticView::UnknownVariant { key: property.key@, text: trimmed(value_text(property.value)) },
        ],
{
}

/// Each property binds by itself: what a list of properties queues and
/// reports is what its front part does, followed by what the rest does. A
/// property that binds nothing takes nothing from those around it.
pub proof fn lemma_binding_splits(
    front: Seq<Property>,
    rest: Seq<Property>,
    node: usize,
    registry: bevy::reflect::TypeRegistry,
)
    ensures
        binding_mutations(front + rest, node, registry) == binding_mutations(front, node, registry)
            + binding_mutations(rest, node, registry),
        binding_diagnostics(front + rest, registry) == binding_diagnostics(front, registry)
            + binding_diagnostics(rest, registry),
    decreases rest.len(),
{
    if rest.len() == 0 {
        assert(front + rest =~= front);
        assert(binding_mutations(front, node, registry) + Seq::<MutationView>::empty()
            =~= binding_mutations(front, node, registry));
        assert(binding_diagnostics(front, registry) + Seq::<DiagnosticView>::empty() =~= binding_diagnostics(
            front,
            registry,
        ));
    } else {
        lemma_binding_splits(front, rest.drop_last(), node, registry);
        assert((front + rest).drop_last() =~= front + rest.drop_last());
        assert((front + rest).last() == rest.last());
        let a = binding_mutations(front, node, registry);
        let b = binding_mutations(rest.drop_last(), node, registry);
        let c = property_mutations(rest.last(), node, registry);
        assert((a + b) + c =~= a + (b + c));
        let x = binding_diagnostics(front, registry);
        let y = binding_diagnostics(rest.drop_last(), registry);
        let z = property_diagnostics(rest.last(), registry);
        assert((x + y) + z =~= x + (y + z));
    }
}

/// A removal takes exactly one record off a live node: the record of the
/// type is gone, every other record stays as it was, and nothing else in the
/// scene changes. Where the node has no record of the type, the scene stays
/// as it is.
pub proof fn lemma_removal_is_exact(s: Seq<NodeView>, node: usize, type_path: Seq<char>)
    requires
        is_live(s, node as int),
    ensures
        ({
            let after = step(s, MutationView::RemoveRecord { node, type_path });
            &&& after.len() == s.len()
            &&& !after[node as int].records.contains_key(type_path)
            &&& forall|other: Seq<char>|
                other != type_path ==> after[node as int].records.contains_key(other) == s[node as int].records.contains_key(
                    other,
                ) && (s[node as int].records.contains_key(other) ==> after[node as int].records[other]
                    == s[node as int].records[other])
            &&& forall|i: int| 0 <= i < s.len() && i != node ==> after[i] == s[i]
            &&& after[node as int] == (NodeView { records: after[node as int].records, ..s[node as int] })
            &&& !s[node as int].records.contains_key(type_path) ==> after == s
        }),
{
    let after = step(s, MutationView::RemoveRecord { node, type_path });
    if !s[node as int].records.contains_key(type_path) {
        assert(s[node as int].records.remove(type_path) =~= s[node as int].records);
        assert(after =~= s);
    }
}

/// A key made of the removal marker and the short path of a registered type
/// queues the removal of that type's record, unless the whole key is itself
/// the short path of a type. Where the rest of the key finds no type, nothing
/// is queued and the key is reported.
pub proof fn lemma_removal_key(property: Property, registry: bevy::reflect::TypeRegistry, node: usize)
    requires
        !registered(registry).contains_key(property.key@),
        remove_prefix().is_prefix_of(property.key@),
    ensures
        ({
            let name = property.key@.skip(remove_prefix().len() as int);
            if registered(registry).contains_key(name) {
                property_mutations(property, node, registry) == seq![
                    MutationView::RemoveRecord { node, type_path: registered(registry)[name].0 },
                ] && property_diagnostics(property, registry) == Seq::<DiagnosticView>::empty()
            } else {
                property_mutations(property, node, registry) == Seq::<MutationView>::empty()
                    && property_diagnostics(property, registry) == seq![
                    DiagnosticView::UnknownRemoval { key: property.key@ },
                ]
            }
        }),
{
}

/// Whether a mutation binds or removes a record of `node`.
pub open spec fn is_record_op(m: MutationView, node: usize) -> bool {
    match m {
        MutationView::AttachRecord { node: n, .. } => n == node,
        MutationView::RemoveRecord { node: n, .. } => n == node,
        _ => false,
    }
}

/// The records of a node after the record mutations of a queue.
pub open spec fn records_after(records: Map<Seq<char>, Seq<char>>, queue: Seq<MutationView>) -> Map<
    Seq<char>,
    Seq<char>,
>
    decreases queue.len(),
{
    if queue.len() == 0 {
        records
    } else {
        let before = records_after(records, queue.drop_last());
        match queue.last() {
            MutationView::AttachRecord { type_path, description, .. } => before.insert(type_path, description),
            MutationView::RemoveRecord { type_path, .. } => before.remove(type_path),
            _ => before,
        }
    }
}

/// What a queue of record mutations leaves of the record of one type: the
/// description it binds last, or nothing if it removes the record last;
/// `None` if the queue does not speak of the type.
pub open spec fn settled(queue: Seq<MutationView>, type_path: Seq<char>) -> Option<Option<Seq<char>>>
    decreases queue.len(),
{
    if queue.len() == 0 {
        None
    } else {
        match queue.last() {
            MutationView::AttachRecord { type_path: p, description, .. } => if p == type_path {
                Some(Some(description))
            } else {
                settled(queue.drop_last(), type_path)
            },
            MutationView::RemoveRecord { type_path: p, .. } => if p == type_path {
                Some(None)
            } else {
                settled(queue.drop_last(), type_path)
            },
            _ => settled(queue.drop_last(), type_path),
        }
    }
}

/// Binding mutations speak of one node only, and only of its records.
pub proof fn lemma_binding_is_record_ops(
    properties: Seq<Property>,
    node: usize,
    registry: bevy::reflect::TypeRegistry,
)
    ensures
        forall|i: int|
            0 <= i < binding_mutations(properties, node, registry).len() ==> is_record_op(
                #[trigger] binding_mutations(properties, node, registry)[i],
                node,
            ),
    decreases properties.len(),
{
    if properties.len() > 0 {
        lemma_binding_is_record_ops(properties.drop_last(), node, registry);
        let front = binding_mutations(properties.drop_last(), node, registry);
        let one = property_mutations(properties.last(), node, registry);
        let all = front + one;
        assert forall|i: int| 0 <= i < all.len() implies is_record_op(#[trigger] all[i], node) by {
            if i < front.len() {
                assert(all[i] == front[i]);
            } else {
                assert(all[i] == one[i - front.len()]);
            }
        }
    }
}

/// A queue of record mutations for one node changes the records of that node
/// if it is alive, and nothing else.
pub proof fn lemma_record_ops_run(s: Seq<NodeView>, queue: Seq<MutationView>, node: usize)
    requires
        forall|i: int| 0 <= i < queue.len() ==> is_record_op(#[trigger] queue[i], node),
    ensures
        run(s, queue) == if is_live(s, node as int) {
            s.update(
                node as int,
                NodeView { records: records_after(s[node as int].records, queue), ..s[node as int] },
            )
        } else {
            s
        },
    decreases queue.len(),
{
    if queue.len() == 0 {
        if is_live(s, node as int) {
            assert(s.update(node as int, s[node as int]) =~= s);
        }
    } else {
        lemma_record_ops_run(s, queue.drop_last(), node);
        assert(is_record_op(queue[queue.len() - 1], node));
        if is_live(s, node as int) {
            assert(run(s, queue) =~= s.update(
                node as int,
                NodeView { records: records_after(s[node as int].records, queue), ..s[node as int] },
            ));
        }
    }
}

/// After a queue of record mutations, the record of a type is what the queue
/// last made of it, or what it was if the queue does not speak of the type.
pub proof fn lemma_records_settle(records: Map<Seq<char>, Seq<char>>, queue: Seq<MutationView>, type_path: Seq<char>)
    ensures
        match settled(queue, type_path) {
            Some(Some(description)) => records_after(records, queue).contains_key(type_path) && records_after(
                records,
                queue,
            )[type_path] == description,
            Some(None) => !records_after(records, queue).contains_key(type_path),
            None => records_after(records, queue).contains_key(type_path) == records.contains_key(type_path) && (
            records.contains_key(type_path) ==> records_after(records, queue)[type_path] == records[type_path]),
        },
    decreases queue.len(),
{
    if queue.len() > 0 {
        lemma_records_settle(records, queue.drop_last(), type_path);
    }
}

/// Applying a queue of record mutations a second time changes nothing.
pub proof fn lemma_records_idempotent(records: Map<Seq<char>, Seq<char>>, queue: Seq<MutationView>)
    ensures
        records_after(records_after(records, queue), queue) == records_after(records, queue),
{
    let once = records_after(records, queue);
    let twice = records_after(once, queue);
    assert forall|k: Seq<char>| #[trigger] twice.dom().contains(k) == once.dom().contains(k) && (once.dom().contains(
        k,
    ) ==> twice[k] == once[k]) by {
        lemma_records_settle(records, queue, k);
        lemma_records_settle(once, queue, k);
    }
    assert(twice =~= once);
}

/// Binding is idempotent: binding the same properties to the same node a
/// second time leaves the scene as the first binding left it. Each record
/// has the value that the last property of its type gave it, once.
pub proof fn lemma_binding_is_idempotent(
    s: Seq<NodeView>,
    properties: Seq<Property>,
    node: usize,
    registry: bevy::reflect::TypeRegistry,
)
    ensures
        run(
            run(s, binding_mutations(properties, node, registry)),
            binding_mutations(properties, node, registry),
        ) == run(s, binding_mutations(properties, node, registry)),
{
    let queue = binding_mutations(properties, node, registry);
    lemma_binding_is_record_ops(properties, node, registry);
    lemma_record_ops_run(s, queue, node);
    let once = run(s, queue);
    lemma_record_ops_run(once, queue, node);
    if is_live(s, node as int) {
        lemma_records_idempotent(s[node as int].records, queue);
        assert(run(once, queue) =~= once);
    }
}

} // verus!
