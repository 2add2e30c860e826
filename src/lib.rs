//! Content and combat rules of a game client: item manifests that are merged from
//! several source files and converted into an identifier-keyed table, and abilities
//! that resolve targets in a roster of combatants.
pub mod combat;
pub mod identifier;
pub mod manifest;
pub mod raw;
mod slot_table;
