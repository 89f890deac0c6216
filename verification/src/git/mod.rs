//! What the pages show of a repository's history, trees and references.

pub mod commits;
pub mod diff;
pub mod refs;
pub mod repos;
pub mod tree;
