//! Verified core of a small read-only web frontend for git repositories:
//! the formatting, paging, path checking, diff rendering and reference
//! bookkeeping that the pages are built from.

pub mod config;
pub mod format;
pub mod git;
pub mod handlers;
pub mod highlight;
pub mod sorting;
pub mod templates;
pub mod text;
