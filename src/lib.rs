use vstd::prelude::*;

pub mod matcher;
pub mod prepend;
pub mod progress;
pub mod rank;
pub mod sizer;
pub mod tree;
pub mod walk;
