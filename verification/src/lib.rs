pub mod assoc;
pub mod auth;
pub mod compressed_assets;
pub mod cpu;
pub mod ids;
pub mod json;
pub mod mock;
pub mod response;
pub mod stats;
pub mod stomp;
pub mod text;
pub mod ws;
