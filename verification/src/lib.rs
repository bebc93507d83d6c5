//! A named-asset registry: single assets behind shared ownership, maps of
//! assets bound to one type identity, and a registry of such maps by kind.

pub mod asset_map;
pub mod codec;
pub mod error;
pub mod name_map;
pub mod pipeline;
pub mod raw;
pub mod scene;
pub mod storage;
pub mod texture_atlas;
pub mod type_map;
