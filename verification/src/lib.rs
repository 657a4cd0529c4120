//! Core engine of a link-aggregation backend: vote state transitions and
//! score aggregation, time-decay ranking support, keyset pagination over
//! posts, comment-forest reconstruction, and live-feed fan-out.

pub mod comments;
pub mod error;
pub mod feed;
pub mod pagination;
pub mod posts;
pub mod profanity;
pub mod ranking;
pub mod requests;
pub mod store;
pub mod text;
pub mod users;
pub mod validation;
pub mod votes;
