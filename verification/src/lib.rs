//! Verified core of the tilings project: text layout of numbers, cyclic index
//! arithmetic of vertex stars and the linking of an atlas, decoding of tiling
//! configurations, reading back and planning stored atlases and polygons,
//! error responses, roles and edit checks, account rules and password
//! hashing, API-key and session authentication, rate limiting, and URL query
//! handling.

pub mod account;
pub mod api_key;
pub mod atlas;
pub mod atlas_store;
pub mod common;
pub mod error;
pub mod membership;
pub mod query;
pub mod rate_limit;
pub mod roles;
pub mod strings;
pub mod text;
pub mod tiling_config;
