//! NTP header validation.
//!
//! The first byte of an NTP header packs the leap indicator (2 bits),
//! the version number (3 bits) and the mode (3 bits). A payload is
//! accepted as NTP when it is at least 48 bytes long, its version is 3
//! or 4 and its mode is one of 1..=6.

use vstd::prelude::*;

verus! {

/// Information extracted from an NTP packet header.
#[derive(Debug, Clone, PartialEq, Eq)]
pub struct NtpInfo {
    /// NTP version number (3 or 4 for accepted packets).
    pub version: u8,
    /// NTP mode (1..=6 for accepted packets).
    pub mode: u8,
    /// Leap indicator (0..=3).
    pub leap_indicator: u8,
}

/// Minimum length of a basic NTP header.
pub const NTP_HEADER_LEN: usize = 48;

/// Leap indicator: the two most significant bits of the first byte.
pub open spec fn spec_leap(b: u8) -> u8 {
    b / 64
}

/// Version number: bits 5..3 of the first byte.
pub open spec fn spec_version(b: u8) -> u8 {
    ((b / 8) % 8) as u8
}

/// Mode: the three least significant bits of the first byte.
pub open spec fn spec_mode(b: u8) -> u8 {
    b % 8
}

/// What `parse_ntp` returns for a payload.
pub open spec fn spec_parse_ntp(payload: Seq<u8>) -> Option<NtpInfo> {
    if payload.len() < 48 {
        None
    } else {
        let b = payload[0];
        let v = spec_version(b);
        let m = spec_mode(b);
        if (v == 3 || v == 4) && 1 <= m && m <= 6 {
            Some(NtpInfo { version: v, mode: m, leap_indicator: spec_leap(b) })
        } else {
            None
        }
    }
}

/// Parse and validate an NTP packet payload.
///
/// Returns `None` if the payload is shorter than 48 bytes or the
/// version/mode fields are outside the accepted ranges.
pub fn parse_ntp(payload: &[u8]) -> (r: Option<NtpInfo>)
    ensures
        r == spec_parse_ntp(payload@),
{
    if payload.len() < NTP_HEADER_LEN {
        return None;
    }
    let first_byte = payload[0];
    let leap_indicator = (first_byte >> 6) & 0x03;
    let version = (first_byte >> 3) & 0x07;
    let mode = first_byte & 0x07;
    assert(leap_indicator == spec_leap(first_byte)) by (bit_vector)
        requires leap_indicator == (first_byte >> 6) & 0x03;
    assert(version == spec_version(first_byte)) by (bit_vector)
        requires version == (first_byte >> 3) & 0x07;
    assert(mode == spec_mode(first_byte)) by (bit_vector)
        requires mode == first_byte & 0x07;
    if version != 3 && version != 4 {
        return None;
    }
    if mode < 1 || mode > 6 {
        return None;
    }
    Some(NtpInfo { version, mode, leap_indicator })
}

} // verus!
