//! Request handling modules of a web server.

pub mod text;
pub mod order;
pub mod encoding;
pub mod html;
pub mod status;
pub mod response;
pub mod standard_response;
pub mod request;
pub mod router;
pub mod configuration;
pub mod handler;
pub mod basic;
pub mod static_root;
