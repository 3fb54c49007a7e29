//! Verified core of `cfdrop`: the decisions, encodings and page rendering
//! behind deploying a directory to a temporary or own Cloudflare account.

pub mod cf;
pub mod deploy;
pub mod encoding;
pub mod highlight;
pub mod manifest;
pub mod md;
pub mod order;
pub mod pow;
pub mod stage;
pub mod state;
pub mod target;
pub mod text;
