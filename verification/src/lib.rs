//! Tag files of the Halo editing kits: their layouts, their data and the
//! conversion of a tag from one engine generation to another.
pub mod blocks;
pub mod byte_exact;
pub mod bytes;
pub mod chunks;
pub mod convert;
pub mod data;
pub mod decal_system;
pub mod decorator_set;
pub mod definition;
pub mod fields;
pub mod file;
pub mod games;
pub mod guid;
pub mod json;
pub mod keys;
pub mod laws;
pub mod layout;
pub mod reading;
pub mod reads;
pub mod roundtrip;
pub mod single;
pub mod tag;
pub mod text;
pub mod writing;
