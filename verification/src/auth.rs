//! The security profile that a client and a host agree on.
//!
//! Three layers are chosen independently: the transport of the control plane, how a client is
//! authorised to pair, and the confidentiality of the media.
use vstd::prelude::*;

verus! {

/// Security of the control plane.
#[derive(Debug, Clone, Copy, PartialEq, Eq, Structural)]
pub enum Transport {
    /// No TLS, for a trusted network.
    Plaintext,
    /// Certificates on both sides.
    MutualTls,
}

/// How a PIN is handled when a client pairs.
#[derive(Debug, Clone, Copy, PartialEq, Eq, Structural)]
pub enum PinMode {
    /// No PIN is exchanged.
    NoPin,
    /// The PIN is made and exchanged without a person.
    Automated,
    /// A person confirms the PIN.
    Manual,
}

/// How a client is authorised to pair. The identity gate and the PIN may both be active.
#[derive(Debug, Clone, Copy, PartialEq, Eq, Structural)]
pub struct AuthPolicy {
    /// Whether an allowlisted identity is required.
    pub mid_gate: bool,
    pub pin: PinMode,
}

/// Confidentiality of video and audio.
#[derive(Debug, Clone, Copy, PartialEq, Eq, Structural)]
pub enum Media {
    Plaintext,
    /// Encryption of each packet.
    AesGcm,
}

/// A security profile.
#[derive(Debug, Clone, Copy, PartialEq, Eq, Structural)]
pub struct SecurityProfile {
    pub transport: Transport,
    pub auth: AuthPolicy,
    pub media: Media,
}

/// Plaintext transport, an identity gate with an automated PIN, plaintext media.
pub open spec fn programmatic_profile() -> SecurityProfile {
    SecurityProfile {
        transport: Transport::Plaintext,
        auth: AuthPolicy { mid_gate: true, pin: PinMode::Automated },
        media: Media::Plaintext,
    }
}

/// No authorisation at all, for a fully trusted network.
pub open spec fn fast_profile() -> SecurityProfile {
    SecurityProfile {
        transport: Transport::Plaintext,
        auth: AuthPolicy { mid_gate: false, pin: PinMode::NoPin },
        media: Media::Plaintext,
    }
}

/// Mutual TLS and a PIN that a person confirms.
pub open spec fn secure_profile() -> SecurityProfile {
    SecurityProfile {
        transport: Transport::MutualTls,
        auth: AuthPolicy { mid_gate: false, pin: PinMode::Manual },
        media: Media::Plaintext,
    }
}

impl SecurityProfile {
    /// Plaintext transport, an identity gate with an automated PIN, plaintext media.
    pub fn programmatic() -> (r: SecurityProfile)
        ensures
            r == programmatic_profile(),
    {
        SecurityProfile {
            transport: Transport::Plaintext,
            auth: AuthPolicy { mid_gate: true, pin: PinMode::Automated },
            media: Media::Plaintext,
        }
    }

    /// No authorisation at all, for a fully trusted network.
    pub fn fast() -> (r: SecurityProfile)
        ensures
            r == fast_profile(),
    {
        SecurityProfile {
            transport: Transport::Plaintext,
            auth: AuthPolicy { mid_gate: false, pin: PinMode::NoPin },
            media: Media::Plaintext,
        }
    }

    /// Mutual TLS and a PIN that a person confirms.
    pub fn secure() -> (r: SecurityProfile)
        ensures
            r == secure_profile(),
    {
        SecurityProfile {
            transport: Transport::MutualTls,
            auth: AuthPolicy { mid_gate: false, pin: PinMode::Manual },
            media: Media::Plaintext,
        }
    }

    /// Whether an identity must be presented.
    pub fn requires_mid(&self) -> (r: bool)
        ensures
            r == self.auth.mid_gate,
    {
        self.auth.mid_gate
    }

    /// Whether a PIN is exchanged.
    pub fn uses_pin(&self) -> (r: bool)
        ensures
            r == (self.auth.pin != PinMode::NoPin),
    {
        match self.auth.pin {
            PinMode::NoPin => false,
            _ => true,
        }
    }
}

impl Default for SecurityProfile {
    fn default() -> (r: Self)
        ensures
            r == programmatic_profile(),
    {
        SecurityProfile::programmatic()
    }
}

} // verus!
