pub mod add_covers;
pub mod import;
