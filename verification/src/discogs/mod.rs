pub mod client;
pub mod create_tag;
pub mod matcher;
pub mod matching;
pub mod model;
