//! Error types of the packet, configuration, storage and API layers,
//! each with its message text.

use vstd::prelude::*;

use crate::text::{decimal, push_decimal, push_str};

verus! {

/// Errors of packet capture and decoding.
#[derive(Debug, Clone, PartialEq, Eq)]
pub enum PacketError {
    /// The capture interface could not be opened; `message` is the
    /// capture library's own description.
    CaptureOpen { interface: String, message: String },
    /// The packet is shorter than a header it should hold.
    Truncated { expected: usize, actual: usize },
    /// The link type is not one the decoder handles.
    UnsupportedLinkType(u8),
    /// Any other capture failure.
    Capture(String),
}

/// The message of a [`PacketError`].
pub open spec fn packet_error_text(e: PacketError) -> Seq<char> {
    match e {
        PacketError::CaptureOpen { interface, message } => "failed to open capture interface '"@ + interface@
            + "': "@ + message@,
        PacketError::Truncated { expected, actual } => "packet too short: expected at least "@ + decimal(
            expected as nat,
        ) + " bytes, got "@ + decimal(actual as nat),
        PacketError::UnsupportedLinkType(t) => "unsupported link type: "@ + decimal(t as nat),
        PacketError::Capture(m) => "capture error: "@ + m@,
    }
}

impl PacketError {
    /// The message (see [`packet_error_text`]).
    pub fn to_string(&self) -> (r: String)
        ensures
            r@ == packet_error_text(*self),
    {
        let mut s = String::new();
        match self {
            PacketError::CaptureOpen { interface, message } => {
                push_str(&mut s, "failed to open capture interface '");
                push_str(&mut s, interface.as_str());
                push_str(&mut s, "': ");
                push_str(&mut s, message.as_str());
            },
            PacketError::Truncated { expected, actual } => {
                push_str(&mut s, "packet too short: expected at least ");
                push_decimal(&mut s, *expected as u64);
                push_str(&mut s, " bytes, got ");
                push_decimal(&mut s, *actual as u64);
            },
            PacketError::UnsupportedLinkType(t) => {
                push_str(&mut s, "unsupported link type: ");
                push_decimal(&mut s, *t as u64);
            },
            PacketError::Capture(m) => {
                push_str(&mut s, "capture error: ");
                push_str(&mut s, m.as_str());
            },
        }
        assert(s@ =~= packet_error_text(*self));
        s
    }
}

/// Errors of configuration loading.
#[derive(Debug, Clone, PartialEq, Eq)]
pub enum ConfigError {
    /// The file could not be read; `message` is the system's description.
    Read { path: String, message: String },
    /// The text is not a valid configuration.
    Parse(String),
    /// The interface name is empty or blank.
    EmptyInterface(String),
}

/// The message of a [`ConfigError`].
pub open spec fn config_error_text(e: ConfigError) -> Seq<char> {
    match e {
        ConfigError::Read { path, message } => "failed to read config file '"@ + path@ + "': "@ + message@,
        ConfigError::Parse(m) => "failed to parse config: "@ + m@,
        ConfigError::EmptyInterface(i) => "invalid interface '"@ + i@
            + "': interface name cannot be empty"@,
    }
}

impl ConfigError {
    /// The message (see [`config_error_text`]).
    pub fn to_string(&self) -> (r: String)
        ensures
            r@ == config_error_text(*self),
    {
        let mut s = String::new();
        match self {
            ConfigError::Read { path, message } => {
                push_str(&mut s, "failed to read config file '");
                push_str(&mut s, path.as_str());
                push_str(&mut s, "': ");
                push_str(&mut s, message.as_str());
            },
            ConfigError::Parse(m) => {
                push_str(&mut s, "failed to parse config: ");
                push_str(&mut s, m.as_str());
            },
            ConfigError::EmptyInterface(i) => {
                push_str(&mut s, "invalid interface '");
                push_str(&mut s, i.as_str());
                push_str(&mut s, "': interface name cannot be empty");
            },
        }
        assert(s@ =~= config_error_text(*self));
        s
    }
}

/// Errors of the storage layer.
#[derive(Debug, Clone, PartialEq, Eq)]
pub enum StorageError {
    DeviceNotFound(String),
    Internal(String),
}

/// The message of a [`StorageError`].
pub open spec fn storage_error_text(e: StorageError) -> Seq<char> {
    match e {
        StorageError::DeviceNotFound(m) => "device not found: "@ + m@,
        StorageError::Internal(m) => "storage error: "@ + m@,
    }
}

impl StorageError {
    /// The message (see [`storage_error_text`]).
    pub fn to_string(&self) -> (r: String)
        ensures
            r@ == storage_error_text(*self),
    {
        let mut s = String::new();
        match self {
            StorageError::DeviceNotFound(m) => {
                push_str(&mut s, "device not found: ");
                push_str(&mut s, m.as_str());
            },
            StorageError::Internal(m) => {
                push_str(&mut s, "storage error: ");
                push_str(&mut s, m.as_str());
            },
        }
        assert(s@ =~= storage_error_text(*self));
        s
    }
}

/// Errors of the API layer.
#[derive(Debug, Clone, PartialEq, Eq)]
pub enum ApiError {
    DeviceNotFound(String),
    Internal(String),
}

/// The message of an [`ApiError`].
pub open spec fn api_error_text(e: ApiError) -> Seq<char> {
    match e {
        ApiError::DeviceNotFound(m) => "device not found: "@ + m@,
        ApiError::Internal(m) => "internal error: "@ + m@,
    }
}

impl ApiError {
    /// The message (see [`api_error_text`]).
    pub fn to_string(&self) -> (r: String)
        ensures
            r@ == api_error_text(*self),
    {
        let mut s = String::new();
        match self {
            ApiError::DeviceNotFound(m) => {
                push_str(&mut s, "device not found: ");
                push_str(&mut s, m.as_str());
            },
            ApiError::Internal(m) => {
                push_str(&mut s, "internal error: ");
                push_str(&mut s, m.as_str());
            },
        }
        assert(s@ =~= api_error_text(*self));
        s
    }
}

} // verus!
