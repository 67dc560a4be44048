//! Verified core of zwi, a tool that zips a directory while honouring its
//! ignore files.
pub mod parse;
pub mod sizing;
pub mod budget;
pub mod entries;
pub mod paths;
pub mod plan;
pub mod inputs;
pub mod messages;
