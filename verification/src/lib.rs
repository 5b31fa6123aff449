//! Vocabulary trainer: spaced-repetition scheduling, answer grading,
//! markdown word-list import and the key-driven screen logic of the
//! terminal front end.

pub mod text;
pub mod models;
pub mod import;
pub mod sm2;
pub mod search;
pub mod handlers;
pub mod api;
pub mod db;
