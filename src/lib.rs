pub mod error;
pub mod manifest;
pub mod text;
pub mod pipeline;
