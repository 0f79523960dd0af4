//! The decisions of a personal knowledge base, proved.

pub mod atoms;
pub mod auth;
pub mod canvas;
pub mod embeddings;
pub mod error;
pub mod events;
pub mod graph;
pub mod ids;
pub mod import;
pub mod ingest;
pub mod markdown;
pub mod pipeline;
pub mod reports;
pub mod routes;
pub mod rows;
pub mod search;
pub mod settings;
pub mod source;
pub mod startup;
pub mod state;
pub mod strmap;
pub mod tags;
pub mod text;
pub mod wiki;
