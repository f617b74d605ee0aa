//! The verified core of a meeting recorder: configuration, audio framing,
//! speaker records, and the decisions of the programs around them.

pub mod apps;
pub mod apps_laws;
pub mod capture;
pub mod clock;
pub mod config;
pub mod config_laws;
pub mod desktop_config;
pub mod devices;
pub mod frame;
pub mod hub;
pub mod ids;
pub mod json;
pub mod messages;
pub mod number;
pub mod number_laws;
pub mod ollama;
pub mod pipe_reader;
pub mod process_laws;
pub mod processes;
pub mod recorder;
pub mod server_config;
pub mod settings;
pub mod settings_file;
pub mod settings_key_laws;
pub mod settings_laws;
pub mod speakers;
pub mod speakers_laws;
pub mod supervisor;
pub mod text;
pub mod text_laws;
pub mod web;
