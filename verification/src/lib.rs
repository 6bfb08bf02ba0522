pub mod action;
pub mod dict;
pub mod errors;
pub mod laws;
pub mod misc;
pub mod sns;
pub mod sqs;
pub mod state;
pub mod text;
pub mod xml;
