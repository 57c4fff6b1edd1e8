pub mod archive;
pub mod config;
pub mod excludes;
pub mod github;
pub mod installers;
pub mod manifest;
pub mod messages;
pub mod names;
pub mod paths;
pub mod registry;
pub mod registry_laws;
pub mod registry_source;
pub mod sources;
pub mod text;
pub mod workflow;
