//! Downloads a serialized novel from its paginated chapter listing and renders
//! every chapter as Markdown.
//!
//! The network and the file system stay with the caller: the library classifies
//! the replies it is handed, walks the parsed pages, decides what to fetch next
//! and what to do after a failed chapter, and produces the text to write.

pub mod dom;
pub mod text;
pub mod render;
pub mod fetch;
pub mod listing;
pub mod download;
pub mod cli;
