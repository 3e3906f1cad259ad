//! The oblivious linear evaluation functionality under a shorter path.

pub use crate::func::ole::{Ole, OleError};
pub use crate::func::Role;
