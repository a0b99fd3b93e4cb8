pub mod deploy;
pub mod detail;
pub mod graph;
pub mod hub;
pub mod overview;
pub mod resources;
pub mod settings;
pub mod updates;
pub mod yaml;
