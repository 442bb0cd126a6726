pub mod codec;
pub mod completion;
pub mod document;
pub mod git;
pub mod laws;
pub mod memory;
pub mod transaction;
