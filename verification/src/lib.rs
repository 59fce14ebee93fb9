pub mod bible;
pub mod book_column;
pub mod components;
pub mod config;
pub mod error;
pub mod events;
pub mod filesystem;
pub mod markup;
pub mod plain;
pub mod state;
pub mod wordwrap;
