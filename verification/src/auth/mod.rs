pub mod jwt;
pub mod password;
pub mod refresh;
pub mod user_store;
pub mod handlers;
pub mod extractor;
