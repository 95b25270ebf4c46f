//! Merging the JSON array files of a directory tree.
//!
//! Every directory that holds JSON files of its own gets one merged file,
//! `<directory>/<directory name>.json`: a JSON array whose elements are the
//! elements of those files, taken in the order of their paths.
//!
//! The library works on values and touches no file. A caller lists the tree
//! into a [`tree::Node`], asks [`scan::validate_path`] whether it is worth
//! merging and [`plan::process`] which files are to be written and from
//! what, reads the files that a [`splice::Job`] names, and writes what
//! [`splice::Job::merge`] makes of them. What holds of all this, whatever
//! the tree and whatever the files, is stated and proved under [`laws`].

pub mod cli;
pub mod laws;
pub mod name;
pub mod order;
pub mod plan;
pub mod scan;
pub mod splice;
pub mod tree;
