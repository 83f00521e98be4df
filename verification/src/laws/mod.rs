//! What the operations of the library promise as a whole, proved of what their
//! contracts say.
pub mod blocks;
pub mod carriage;
pub mod catalogs;
pub mod clearing;
pub mod counts;
pub mod curves;
pub mod decorations;
pub mod effects;
pub mod fresh;
pub mod geometry;
pub mod images;
pub mod keyed;
pub mod lookup;
pub mod melee;
pub mod members;
pub mod options;
pub mod outputs;
pub mod paths;
pub mod physics;
pub mod references;
pub mod refusals;
pub mod resets;
pub mod responses;
pub mod routes;
pub mod rules;
pub mod schemas;
pub mod sounds;
pub mod structures;
pub mod templates;
pub mod texts;
pub mod values;
