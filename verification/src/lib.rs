pub mod chars;
pub mod coherence;
pub mod diagnostics;
pub mod dirops;
pub mod docmeta;
pub mod docops;
pub mod engine;
pub mod error;
pub mod events;
pub mod export;
pub mod front_matter;
pub mod listing;
pub mod md_bridge;
pub mod md_types;
pub mod metadata;
pub mod model;
pub mod nlp;
pub mod path;
pub mod plaintext;
pub mod text;
pub mod watcher;
pub mod capture;
pub mod catalog;
pub mod reconcile;
pub mod search;
pub mod seq_lemmas;
pub mod session;
pub mod settings;
