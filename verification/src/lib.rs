pub mod cli;
pub mod command;
pub mod discogs;
pub mod music_file;
pub mod organizer;
pub mod tag;
pub mod util;
