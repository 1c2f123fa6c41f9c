//! A launcher for the desktop: installed applications and their icons, hints
//! for the command line, the commands and queries of the runtime, the user's
//! locations and state, and the indexing of the user's documents.
pub mod contracts;
pub mod text;
pub mod hints;
pub mod runtime;
pub mod indexers;
pub mod local_info;
pub mod user_settings;
pub mod user;
pub mod user_state;
pub mod engine;
pub mod desktop;
pub mod apps;
pub mod gui;
pub mod logging;
