//! The one name that most callers need.

pub use crate::kronarknode::Node;
