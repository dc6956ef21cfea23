//! Text analysis core: CoNLL-U parsing, analysis caching, dictionary
//! helpers, configuration resolution and the state of the interactive panes.

pub mod analyzer;
pub mod cli;
pub mod config;
pub mod conllu;
pub mod dictionary;
pub mod error;
pub mod feature_map;
pub mod keys;
pub mod model;
pub mod morphology;
pub mod panels;
pub mod pipeline;
pub mod sorting;
pub mod text;
