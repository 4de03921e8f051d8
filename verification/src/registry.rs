//! The registered types, by which a property finds the type of its record.
//!
//! The types are those of a `bevy::reflect::TypeRegistry`. The registry is
//! read through one call that is taken unproved; what it finds is given a
//! name, and the rest of the library speaks of the registry by that name.

use vstd::prelude::*;
use crate::text::{lowercase_text, lowercased};

verus! {

/// The type registry of `bevy`'s reflection. The library hands it through
/// and knows of what it holds only by [`registered`].
#[verifier::external_type_specification]
#[verifier::external_body]
pub struct ExTypeRegistry(bevy::reflect::TypeRegistry);

/// What `TypeRegistry::get_with_short_type_path` finds in a registry for
/// each short path that finds a type: the full path of the type, and the
/// names of its variants, in declaration order, if it is an enumeration.
pub uninterp spec fn registered(registry: bevy::reflect::TypeRegistry) -> Map<
    Seq<char>,
    (Seq<char>, Option<Seq<Seq<char>>>),
>;

/// A registered type, as far as binding needs it.
#[derive(Clone, Debug, PartialEq, Eq)]
pub struct RegisteredType {
    /// The full path of the type.
    pub type_path: String,
    /// The names of the variants, if the type is an enumeration.
    pub variants: Option<Vec<String>>,
}

/// A list of names as contracts see it.
pub open spec fn name_views(names: Seq<String>) -> Seq<Seq<char>> {
    Seq::new(names.len(), |i: int| names[i]@)
}

impl View for RegisteredType {
    type V = (Seq<char>, Option<Seq<Seq<char>>>);

    open spec fn view(&self) -> (Seq<char>, Option<Seq<Seq<char>>>) {
        (
            self.type_path@,
            match self.variants {
                Some(names) => Some(name_views(names@)),
                None => None,
            },
        )
    }
}

/// Calls `TypeRegistry::get_with_short_type_path`, and copies from the info
/// of the type that it finds the type's path and, for an enumeration, the
/// names of its variants. What is found is claimed to be what [`registered`]
/// holds for the short path, and nothing to be found where it holds nothing.
#[verifier::external_body]
pub(crate) fn find_type(registry: &bevy::reflect::TypeRegistry, short_path: &str) -> (r: Option<RegisteredType>)
    ensures
        match r {
            Some(found) => registered(*registry).contains_key(short_path@) && registered(*registry)[short_path@]
                == found@,
            None => !registered(*registry).contains_key(short_path@),
        },
{
    let info = registry.get_with_short_type_path(short_path)?.type_info();
    let variants = match info {
        bevy::reflect::TypeInfo::Enum(info) => Some(info.variant_names().iter().map(|v| v.to_string()).collect()),
        _ => None,
    };
    Some(RegisteredType { type_path: info.type_path().to_string(), variants })
}

/// The first variant from index `from` on whose name equals `text` when both
/// are put in lower case.
pub open spec fn first_variant(variants: Seq<Seq<char>>, text: Seq<char>, from: int) -> Option<int>
    decreases variants.len() - from,
{
    if from < 0 || from >= variants.len() {
        None
    } else if lowercased(variants[from]) == lowercased(text) {
        Some(from)
    } else {
        first_variant(variants, text, from + 1)
    }
}

/// Finds the variant that a text names, letter case aside.
pub fn resolve_variant(variants: &Vec<String>, text: &str) -> (r: Option<usize>)
    ensures
        r matches Some(i) ==> i < variants@.len() && first_variant(name_views(variants@), text@, 0) == Some(i as int),
        r is None ==> first_variant(name_views(variants@), text@, 0) is None,
{
    let wanted = lowercase_text(text);
    let mut i: usize = 0;
    while i < variants.len()
        invariant
            i <= variants.len(),
            wanted@ == lowercased(text@),
            first_variant(name_views(variants@), text@, 0) == first_variant(name_views(variants@), text@, i as int),
        decreases variants.len() - i,
    {
        let lowered = lowercase_text(variants[i].as_str());
        if lowered == wanted {
            return Some(i);
        }
        i += 1;
    }
    None
}

/// The type that a short path finds in the registry, if it finds one.
pub fn get_with_short_type_path(registry: &bevy::reflect::TypeRegistry, short_path: &str) -> (r: Option<
    RegisteredType,
>)
    ensures
        match r {
            Some(found) => registered(*registry).contains_key(short_path@) && registered(*registry)[short_path@]
                == found@,
            None => !registered(*registry).contains_key(short_path@),
        },
{
    find_type(registry, short_path)
}

} // verus!
