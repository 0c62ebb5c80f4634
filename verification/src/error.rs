use vstd::prelude::*;

use crate::text::{decimal_digits, hex_digits, push_decimal, push_hex};

verus! {

/// Errors of HID++ communication.
#[derive(Debug)]
pub enum HidppError {
    DeviceNotFound,
    Io(String),
    Timeout,
    FeatureNotFound { feature_id: u16 },
    ProtocolError { function: u8, error_code: u8 },
    UnexpectedResponse { expected: u8, got: u8 },
    InvalidLength { expected: usize, got: usize },
}

/// HID++ 2.0 error codes returned in an error message (feature index 0xFF),
/// declared in the order of their wire values 0x00..=0x09.
#[derive(Debug, Clone, Copy, PartialEq, Eq, Structural)]
pub enum HidppErrorCode {
    NoError,
    Unknown,
    InvalidArgument,
    OutOfRange,
    HardwareError,
    LogitechInternal,
    InvalidFeatureIndex,
    InvalidFunctionId,
    Busy,
    Unsupported,
}

/// The error code that a wire byte stands for; bytes above 0x09 read as `Unknown`.
pub open spec fn error_code_of(b: u8) -> HidppErrorCode {
    if b == 0x00 {
        HidppErrorCode::NoError
    } else if b == 0x01 {
        HidppErrorCode::Unknown
    } else if b == 0x02 {
        HidppErrorCode::InvalidArgument
    } else if b == 0x03 {
        HidppErrorCode::OutOfRange
    } else if b == 0x04 {
        HidppErrorCode::HardwareError
    } else if b == 0x05 {
        HidppErrorCode::LogitechInternal
    } else if b == 0x06 {
        HidppErrorCode::InvalidFeatureIndex
    } else if b == 0x07 {
        HidppErrorCode::InvalidFunctionId
    } else if b == 0x08 {
        HidppErrorCode::Busy
    } else if b == 0x09 {
        HidppErrorCode::Unsupported
    } else {
        HidppErrorCode::Unknown
    }
}

impl HidppErrorCode {
    pub fn from_byte(b: u8) -> (code: Self)
        ensures
            code == error_code_of(b),
    {
        match b {
            0x00 => HidppErrorCode::NoError,
            0x01 => HidppErrorCode::Unknown,
            0x02 => HidppErrorCode::InvalidArgument,
            0x03 => HidppErrorCode::OutOfRange,
            0x04 => HidppErrorCode::HardwareError,
            0x05 => HidppErrorCode::LogitechInternal,
            0x06 => HidppErrorCode::InvalidFeatureIndex,
            0x07 => HidppErrorCode::InvalidFunctionId,
            0x08 => HidppErrorCode::Busy,
            0x09 => HidppErrorCode::Unsupported,
            _ => HidppErrorCode::Unknown,
        }
    }
}

/// The message of an error.
pub open spec fn error_message(e: HidppError) -> Seq<char> {
    match e {
        HidppError::DeviceNotFound => "device not found"@,
        HidppError::Io(s) => "HID I/O error: "@ + s@,
        HidppError::Timeout => "timeout reading from device"@,
        HidppError::FeatureNotFound { feature_id } => "feature 0x"@ + hex_digits(feature_id as nat, 4, true)
            + " not found on device"@,
        HidppError::ProtocolError { function, error_code } => "HID++ error: function "@ + decimal_digits(
            function as nat,
        ) + ", error code "@ + decimal_digits(error_code as nat),
        HidppError::UnexpectedResponse { expected, got } => "unexpected response: expected function "@
            + decimal_digits(expected as nat) + ", got "@ + decimal_digits(got as nat),
        HidppError::InvalidLength { expected, got } => "invalid report length: expected "@
            + decimal_digits(expected as nat) + ", got "@ + decimal_digits(got as nat),
    }
}

impl HidppError {
    /// The error's message.
    pub fn to_string(&self) -> (s: String)
        ensures
            s@ == error_message(*self),
    {
        match self {
            HidppError::DeviceNotFound => String::from_str("device not found"),
            HidppError::Io(msg) => {
                let mut s = String::from_str("HID I/O error: ");
                s.append(msg.as_str());
                s
            },
            HidppError::Timeout => String::from_str("timeout reading from device"),
            HidppError::FeatureNotFound { feature_id } => {
                let mut s = String::from_str("feature 0x");
                push_hex(&mut s, *feature_id as u64, 4, true);
                s.append(" not found on device");
                s
            },
            HidppError::ProtocolError { function, error_code } => {
                let mut s = String::from_str("HID++ error: function ");
                push_decimal(&mut s, *function as u64);
                s.append(", error code ");
                push_decimal(&mut s, *error_code as u64);
                s
            },
            HidppError::UnexpectedResponse { expected, got } => {
                let mut s = String::from_str("unexpected response: expected function ");
                push_decimal(&mut s, *expected as u64);
                s.append(", got ");
                push_decimal(&mut s, *got as u64);
                s
            },
            HidppError::InvalidLength { expected, got } => {
                let mut s = String::from_str("invalid report length: expected ");
                push_decimal(&mut s, *expected as u64);
                s.append(", got ");
                push_decimal(&mut s, *got as u64);
                s
            },
        }
    }
}

} // verus!
