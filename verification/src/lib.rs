pub mod response;
pub mod route;
pub mod text;
pub mod handler;
pub mod order;
pub mod json;
pub mod parse;
pub mod laws;
pub mod roundtrip;
