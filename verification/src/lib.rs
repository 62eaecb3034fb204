//! Mod activation and preset reconciliation for a game's installed mods.
//!
//! A [`ModStore`](mod_store::ModStore) records which installed mods are
//! active. A [`Preset`](preset::Preset) names a group of mods that are forced
//! active while it is enabled, and a
//! [`PresetRegistry`](registry::PresetRegistry) keeps the presets by name and
//! re-derives the activation state from the enabled ones. A
//! [`Session`](session::Session) holds the three for a presentation layer
//! and takes its requests one at a time. The [`adapter`] carries the mod
//! store to and from the mod configuration that the `beammm` crate persists,
//! and [`laws`] states what holds of the engine as a whole.

pub mod adapter;
pub mod error;
pub mod ident;
pub mod laws;
pub mod mod_store;
pub mod preset;
pub mod registry;
pub mod session;
