//! The small endpoints: port reservations and leases, logging, the OSC token,
//! the system clock, and what discovery reports.

use crate::http::{reply, Reply};
use crate::text;
use vstd::prelude::*;

verus! {

// ---------------------------------------------------------------------------
// Ports
// ---------------------------------------------------------------------------

/// Why the port pool refuses a request.
#[derive(Clone, Copy, Debug, PartialEq, Eq, Structural)]
pub enum PortPoolError {
    EmptyOwnerId,
    BadCount,
    BadTtl,
    NotInReservation,
    Exhausted,
    AlreadyAssigned,
    NotFound,
    NotConfigured,
}

/// The status that a refusal by the port pool is answered with. A pool that is
/// not configured is unavailable, which is no conflict over ports.
pub fn pool_error(err: PortPoolError) -> (r: u16)
    ensures
        r == match err {
            PortPoolError::EmptyOwnerId | PortPoolError::BadCount | PortPoolError::BadTtl
            | PortPoolError::NotInReservation => 400u16,
            PortPoolError::Exhausted | PortPoolError::AlreadyAssigned => 409u16,
            PortPoolError::NotFound => 404u16,
            PortPoolError::NotConfigured => 503u16,
        },
{
    match err {
        PortPoolError::EmptyOwnerId | PortPoolError::BadCount | PortPoolError::BadTtl
        | PortPoolError::NotInReservation => 400,
        PortPoolError::Exhausted | PortPoolError::AlreadyAssigned => 409,
        PortPoolError::NotFound => 404,
        PortPoolError::NotConfigured => 503,
    }
}

/// Why a port lease is refused.
#[derive(Clone, Copy, Debug, PartialEq, Eq, Structural)]
pub enum PortLeaseError {
    EmptyClientId,
    BadSize,
    BadTtl,
    Exhausted,
    NotFound,
}

/// The status that a refused port lease is answered with.
pub fn lease_error(err: PortLeaseError) -> (r: u16)
    ensures
        r == match err {
            PortLeaseError::EmptyClientId | PortLeaseError::BadSize | PortLeaseError::BadTtl
                => 400u16,
            PortLeaseError::Exhausted => 409u16,
            PortLeaseError::NotFound => 404u16,
        },
{
    match err {
        PortLeaseError::EmptyClientId | PortLeaseError::BadSize | PortLeaseError::BadTtl => 400,
        PortLeaseError::Exhausted => 409,
        PortLeaseError::NotFound => 404,
    }
}

/// How a holder came by its ports.
#[derive(Clone, Copy, Debug, PartialEq, Eq, Structural)]
pub enum Granted {
    Created,
    Renewed,
}

/// The status that granted ports are answered with.
pub fn granted_status(how: Granted) -> (r: u16)
    ensures
        r == match how {
            Granted::Created => 201u16,
            Granted::Renewed => 200u16,
        },
{
    match how {
        Granted::Created => 201,
        Granted::Renewed => 200,
    }
}

pub open spec fn is_blank_byte(b: u8) -> bool {
    b == 0x20 || b == 0x09 || b == 0x0a || b == 0x0c || b == 0x0d
}

/// Whether the body of a renewal is left out, so that the configured lifetime
/// is meant.
pub fn renewal_is_default(body: &Vec<u8>) -> (r: bool)
    ensures
        r == forall|i: int| 0 <= i < body@.len() ==> is_blank_byte(#[trigger] body@[i]),
{
    let mut i: usize = 0;
    while i < body.len()
        invariant
            i <= body.len(),
            forall|j: int| 0 <= j < i ==> is_blank_byte(#[trigger] body@[j]),
        decreases body.len() - i,
    {
        let b: u8 = body[i];
        if !(b == 0x20 || b == 0x09 || b == 0x0a || b == 0x0c || b == 0x0d) {
            assert(!is_blank_byte(body@[i as int]));
            return false;
        }
        i += 1;
    }
    true
}

// ---------------------------------------------------------------------------
// Settings given as text
// ---------------------------------------------------------------------------

pub const EMPTY_FILTER: &'static str = "Filter string must not be empty";

pub const EMPTY_TOKEN: &'static str = "PAT must not be empty";

/// A text setting without the white space round it. A blank one is refused.
fn filled_setting(value: &str, refusal: &str) -> (r: Result<String, Reply>)
    ensures
        match r {
            Ok(s) => s@ == text::trimmed(value@) && s@.len() > 0,
            Err(e) => text::trimmed(value@).len() == 0 && e@ == (400u16, refusal@),
        },
{
    let bare = text::trim(value);
    if bare.as_str().is_empty() {
        Err(reply(400, refusal))
    } else {
        Ok(bare)
    }
}

/// The log filter that a request sets.
pub fn requested_log_filter(filter: &str) -> (r: Result<String, Reply>)
    ensures
        match r {
            Ok(s) => s@ == text::trimmed(filter@) && s@.len() > 0,
            Err(e) => text::trimmed(filter@).len() == 0 && e@ == (400u16, EMPTY_FILTER@),
        },
{
    filled_setting(filter, EMPTY_FILTER)
}

/// The OSC access token that a request sets.
pub fn requested_osc_pat(pat: &str) -> (r: Result<String, Reply>)
    ensures
        match r {
            Ok(s) => s@ == text::trimmed(pat@) && s@.len() > 0,
            Err(e) => text::trimmed(pat@).len() == 0 && e@ == (400u16, EMPTY_TOKEN@),
        },
{
    filled_setting(pat, EMPTY_TOKEN)
}

/// Why the system clock cannot be read.
#[derive(Clone, Copy, Debug, PartialEq, Eq, Structural)]
pub enum SystemClockError {
    Unsupported,
    Io,
}

/// The status that a system clock which cannot be read is answered with.
pub fn clock_error(err: SystemClockError) -> (r: u16)
    ensures
        r == match err {
            SystemClockError::Unsupported => 501u16,
            SystemClockError::Io => 500u16,
        },
{
    match err {
        SystemClockError::Unsupported => 501,
        SystemClockError::Io => 500,
    }
}

// ---------------------------------------------------------------------------
// Discovery
// ---------------------------------------------------------------------------

/// A stream that this instance announces.
pub struct AnnouncedStreamResponse {
    pub flow_id: String,
    pub block_id: String,
    pub origin_ip: String,
    pub sdp: String,
    pub announce_interface: Option<String>,
}

/// Whether NDI discovery works here, and how many sources it has found.
#[derive(Clone, Copy, Debug, PartialEq, Eq, Structural)]
pub struct NdiDiscoveryStatus {
    pub available: bool,
    pub source_count: usize,
}

/// The state of NDI discovery.
pub fn ndi_status(available: bool, sources: &Vec<String>) -> (r: NdiDiscoveryStatus)
    ensures
        r == (NdiDiscoveryStatus { available, source_count: sources.len() }),
{
    NdiDiscoveryStatus { available, source_count: sources.len() }
}

} // verus!
