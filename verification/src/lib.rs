//! Core of a contributor crawl: given an organization's repositories and
//! their commit histories (fetched by an unverified shell), decide which
//! repositories are recently active, walk each repository's commit pages
//! under an early-termination rule, aggregate commit author/committer
//! identities into a deduplicated login -> profile-URL mapping, and
//! optionally restrict the result to organization members.

pub mod aggregate;
pub mod coordinator;
pub mod membership;
pub mod records;
pub mod rfc3339;
pub mod walker;
pub mod window;
