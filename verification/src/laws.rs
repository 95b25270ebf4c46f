//! What holds of every tree and of every merge.

pub mod planning;
pub mod scanning;
pub mod splicing;
