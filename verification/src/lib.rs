//! Verified core of an icon-submission bot: a per-session conversation state
//! machine, an image binarization stage, a textual index-file mutator, and the
//! planning and sequencing rules of a repository publisher.

pub mod index;
pub mod machine;
pub mod order;
pub mod publish;
pub mod raster;
pub mod registry;
