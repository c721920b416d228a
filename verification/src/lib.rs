pub mod text;
pub mod paths;
pub mod checksum;
pub mod download;
pub mod smoke_test;
pub mod path_manager;
pub mod symlink_engine;
pub mod doctor;
pub mod models;
pub mod schema;
pub mod commands;
