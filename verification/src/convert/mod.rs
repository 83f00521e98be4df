//! Converting a tag from one engine generation to another.
pub mod analysis;
pub mod animation;
pub mod answers;
pub mod carrying;
pub mod catalog;
pub mod companions;
pub mod defaults;
pub mod environment;
pub mod finishing;
pub mod forgiving;
pub mod functions;
pub mod groups;
pub mod layouts;
pub mod leaves;
pub mod matching;
pub mod opening;
pub mod outputs;
pub mod pixels;
pub mod questions;
pub mod references;
pub mod report;
pub mod routing;
pub mod safety;
pub mod schema;
pub mod setting;
pub mod settling;
pub mod shapes;
pub mod templates;
pub mod traces;
pub mod turning;
pub mod values;
pub mod walk;
