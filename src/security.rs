//! The agent's signing identity.
use vstd::prelude::*;
use crate::security::cryptography::{ed25519_public_key, public_key_for, random_secret_key};

pub mod cryptography;

verus! {

/// The identity of an agent: its id and its raw Ed25519 key pair.
#[derive(Debug, Clone)]
pub struct AgentIdentity {
    pub agent_id: String,
    /// The 32-byte secret key.
    pub private_key_bytes: Vec<u8>,
    /// The 32-byte public key.
    pub public_key_bytes: Vec<u8>,
}

impl AgentIdentity {
    /// The two keys have 32 bytes and the public one belongs to the secret one.
    pub open spec fn wf(&self) -> bool {
        &&& self.private_key_bytes@.len() == 32
        &&& self.public_key_bytes@ == ed25519_public_key(self.private_key_bytes@)
    }

    /// A new identity under `agent_id`, with a freshly generated key pair.
    pub fn new_with_generation(agent_id: String) -> (r: Self)
        ensures
            r.agent_id@ == agent_id@,
            r.wf(),
            r.public_key_bytes@.len() == 32,
    {
        let secret = random_secret_key();
        let public = public_key_for(&secret);
        AgentIdentity { agent_id, private_key_bytes: secret, public_key_bytes: public }
    }
}

} // verus!
