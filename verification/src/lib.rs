//! Tile maps as data, and the scene that a map is turned into.
//!
//! A decoded [`model::TileMap`] is paired with a texture layout per tileset
//! ([`loader`]), the properties of its elements are bound to records of the
//! types of a `bevy` type registry ([`registry`], [`binder`]), and a
//! synchronisation pass ([`sync`]) plans the mutations that rebuild the nodes
//! of every changed map in a [`scene::Scene`].
//!
//! Every function is verified against its contract. Taken unproved are five
//! calls into code outside the library, each behind a private function that
//! says what it claims: the lookup of a type in the registry
//! ([`registry`]), the trimming and lower-casing of text ([`text`]), and the
//! parent and the joining of paths ([`loader`]). The modules whose names end
//! in `laws` hold what is proved of the library as a whole.

pub mod text;
pub mod model;
pub mod scene;
pub mod registry;
pub mod loader;
pub mod commands;
pub mod binder;
pub mod storage;
pub mod sync;
pub mod binding_laws;
pub mod layout_laws;
pub mod scene_laws;
pub mod pass_laws;
