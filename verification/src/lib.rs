pub mod text;
pub mod cloze;
pub mod imports;
pub mod json;
pub mod quizbowl;
pub mod dates;
pub mod profiles;
pub mod karma;
pub mod window_profiles;
pub mod senators;
pub mod anki_decks;
pub mod deck_tree;
pub mod content;
pub mod graph;
pub mod countries;
pub mod notes;
pub mod search;
pub mod search_query;
pub mod review;
pub mod decks;
pub mod mochi;
pub mod mochi_plan;
pub mod backup;
pub mod anki_notes;
pub mod anki_models;
pub mod content_file;
pub mod content_data;
pub mod mochi_data;
