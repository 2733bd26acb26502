//! The rules of a filtering proxy for `ssh-agent`: which keys a client of the
//! proxy sees, which requests reach the agent behind it, and when the user is
//! asked first.

pub mod auth_data;
pub mod fingerprint;
pub mod identities;
pub mod keys;
pub mod launcher;
pub mod laws;
pub mod listener;
pub mod packet;
pub mod protocol;
pub mod session;
pub mod setup;
pub mod text;
pub mod warnings;
pub mod wire;
