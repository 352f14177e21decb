//! Identity and signed-content core of a decentralised social client:
//! key material and fingerprints, a canonical text form for profiles, posts
//! and messages, signatures over that form, content addresses, and the
//! per-user session that ties them together.

pub mod canon;
pub mod codec;
pub mod crypto;
pub mod error;
pub mod message;
pub mod parse;
pub mod post;
pub mod profile;
pub mod session;
pub mod time;
