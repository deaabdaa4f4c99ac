//! A registry of composite assets ("cars") built from components ("parts"),
//! kept by two services that talk only through messages.
//!
//! - `car_part`: the component registry: component records, attachment and
//!   the per-owner index lists.
//! - `car_nft`: the composite registry: composites and their slots, the mint
//!   saga and the equip, unequip and replace commands.
//! - `saga`: reading the minted component's id from a mint reply.
//! - `laws`: properties that relate several calls or both registries.
//! - `types`, `seq_util`: shared types and list lemmas.

pub mod car_nft;
pub mod car_part;
pub mod laws;
pub mod saga;
pub mod seq_util;
pub mod types;
