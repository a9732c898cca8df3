//! Indexing of a music-video folder tree and parsing of LRC lyric files.

pub mod classes;
pub mod filename;
pub mod furigana;
pub mod library;
pub mod lines;
pub mod lyrics;
pub mod settings;
pub mod tags;
pub mod text;
pub mod timestamp;
