//! The access gate in front of writes: open, or guarded by a shared secret.

use vstd::prelude::*;
use crate::text::same_text;

verus! {

/// Whether writes need a secret. Decided once, from the configuration.
pub enum AccessGate {
    /// No secret is configured: every write is accepted.
    Open,
    /// A secret is configured: a write must supply exactly this value.
    Guarded(String),
}

/// Whether a gate lets a write with the supplied secret through.
pub open spec fn admitted(gate: AccessGate, supplied: Option<Seq<char>>) -> bool {
    match gate {
        AccessGate::Open => true,
        AccessGate::Guarded(secret) => supplied == Some(secret@),
    }
}

/// The secret of a request by its characters, if it has one.
pub open spec fn secret_view(secret: Option<String>) -> Option<Seq<char>> {
    match secret {
        Some(s) => Some(s@),
        None => None,
    }
}

impl AccessGate {
    /// The access gate for a configuration: guarded where a secret is set, open
    /// where none is.
    pub fn from_config(secret: Option<String>) -> (gate: Self)
        ensures
            gate == (match secret {
                Some(s) => AccessGate::Guarded(s),
                None => AccessGate::Open,
            }),
    {
        match secret {
            Some(s) => AccessGate::Guarded(s),
            None => AccessGate::Open,
        }
    }

    /// Whether a write needs a secret.
    pub fn is_guarded(&self) -> (r: bool)
        ensures
            r == (*self is Guarded),
    {
        match self {
            AccessGate::Open => false,
            AccessGate::Guarded(_) => true,
        }
    }

    /// Whether a write with the supplied secret is accepted: always through an
    /// open gate; through a guarded one only with a secret equal to the
    /// configured one, so not with a different one and not without any.
    pub fn admits(&self, supplied: Option<&String>) -> (r: bool)
        ensures
            r == admitted(
                *self,
                match supplied {
                    Some(s) => Some(s@),
                    None => None,
                },
            ),
    {
        match self {
            AccessGate::Open => true,
            AccessGate::Guarded(secret) => match supplied {
                Some(s) => same_text(s.as_str(), secret.as_str()),
                None => false,
            },
        }
    }
}

/// An open gate admits every write. A guarded one admits a write that
/// supplies the configured secret, and no other: not one with a different
/// secret, not one without a secret.
pub proof fn lemma_gate_admits(secret: String, other: Seq<char>, any: Option<Seq<char>>)
    requires
        other != secret@,
    ensures
        admitted(AccessGate::Open, any),
        admitted(AccessGate::Guarded(secret), Some(secret@)),
        !admitted(AccessGate::Guarded(secret), Some(other)),
        !admitted(AccessGate::Guarded(secret), None),
{
}

} // verus!
