//! What the server decides: requests, answers, model sources and its queue.
pub mod api;
pub mod asked;
pub mod cli;
pub mod models;
pub mod worker;
