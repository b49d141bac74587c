pub mod dimming;
pub mod hotkeys;
pub mod models;
pub mod schedule;
pub mod settings;
pub mod sorting;
pub mod startup;
pub mod state;
pub mod text;
pub mod timeline;
pub mod tray;
