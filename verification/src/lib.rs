//! The logic of a terminal chat with a local language model: the conversation, the memory
//! budget, the streamed reply, the Markdown transcript and what every key does to them.
pub mod app;
pub mod chat;
pub mod cli;
pub mod clipboard;
pub mod decode;
pub mod engine;
pub mod event;
pub mod files;
pub mod highlight;
pub mod json;
pub mod limits;
pub mod llama;
pub mod markdown;
pub mod memory;
pub mod parser;
pub mod picker;
pub mod std_items;
pub mod stream;
pub mod style;
pub mod terminal;
pub mod text;
pub mod tokenizer;
pub mod transcript;
pub mod ui;
