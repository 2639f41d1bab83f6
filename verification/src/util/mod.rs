pub mod duration;
pub mod numbers;
pub mod path;
pub mod seqs;
pub mod string_extensions;
pub mod text;
pub mod views;
