//! Replaces the base64 thumbnail embedded in a G-code file by the two RGB565
//! preview blocks that MKS TFT displays read, keeping every other byte of the file.

pub mod codec;
pub mod formatter;
pub mod pipeline;
pub mod rewriter;
pub mod scanner;
pub mod text;
