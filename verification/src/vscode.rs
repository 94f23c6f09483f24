//! What an editor needs of a parse: flat records of message and position.

pub mod result;

pub use result::VsCodeError;
pub use result::VsCodeResult;
