//! Client-side core of a remoteStorage counter application.
//!
//! The library resolves an account identifier to a storage endpoint through
//! webfinger discovery, decides how an OAuth implicit-grant access token is
//! obtained (from a persisted cookie, from the redirect fragment, or by
//! sending the user to the authorization endpoint), and builds the
//! authenticated document requests. All decisions are pure functions over
//! plain values; the browser plumbing around them (fetch, DOM, cookies,
//! history) lives outside the library and only carries values in and out.

pub mod chars;
pub mod json;
pub mod pct;
pub mod uri;
pub mod discovery;
pub mod fragment;
pub mod cookies;
pub mod session;
pub mod client;
