//! Posts or refreshes one machine-managed status comment on a pull request.
//!
//! The library holds the verified logic: the hidden marker that identifies a
//! managed comment, the choice of the pull request for a branch, the choice of
//! the comment to overwrite, and the request each step sends.

pub mod github;
pub mod metadata;
pub mod overwrite;
pub mod repo;
pub mod text;
