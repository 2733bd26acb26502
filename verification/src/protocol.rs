//! The message numbers of the agent protocol that the filter knows.

use vstd::prelude::*;

verus! {

/// The request was refused or could not be carried out.
pub const SSH_AGENT_FAILURE: u8 = 5;

/// The request was carried out.
pub const SSH_AGENT_SUCCESS: u8 = 6;

/// Asks for the list of protocol 1 keys.
pub const SSH_AGENTC_REQUEST_RSA_IDENTITIES: u8 = 1;

/// The list of protocol 1 keys.
pub const SSH_AGENT_RSA_IDENTITIES_ANSWER: u8 = 2;

/// Asks for the list of keys.
pub const SSH2_AGENTC_REQUEST_IDENTITIES: u8 = 11;

/// The list of keys.
pub const SSH2_AGENT_IDENTITIES_ANSWER: u8 = 12;

/// Asks for a signature.
pub const SSH2_AGENTC_SIGN_REQUEST: u8 = 13;

/// Asks to remove all protocol 1 keys.
pub const SSH_AGENTC_REMOVE_ALL_RSA_IDENTITIES: u8 = 9;

} // verus!
