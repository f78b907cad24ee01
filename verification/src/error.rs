//! The error type shared by every fallible operation of the crate.

use vstd::prelude::*;
use vstd::string::StringExecFns;

use crate::validator::{dec_digits, dec_string, hex_digits, hex_string};

verus! {

/// The message of a varint that never terminated.
pub open spec fn varint_overflow_msg(bits: u32) -> Seq<char> {
    "varint overflow - no end byte after "@ + dec_digits(bits as nat) + " bits"@
}

/// The message of a stored length too small for the fields it covers.
pub open spec fn length_underflow_msg(stored: u32, covered: u32) -> Seq<char> {
    "stored length 0x"@ + hex_digits(stored as nat) + " smaller than covered field size 0x"@
        + hex_digits(covered as nat)
}

/// The message of a stored checksum that disagrees with the recomputed one.
pub open spec fn checksum_mismatch_msg(stored: u32, computed: u32) -> Seq<char> {
    "stored checksum 0x"@ + hex_digits(stored as nat) + " does not match computed 0x"@
        + hex_digits(computed as nat)
}

/// Why a read, write, decode, encode or validation failed.
#[derive(Debug, PartialEq, Eq)]
pub enum IoError {
    /// The stream ended before the requested number of bytes could be read.
    ShortRead,
    /// The stream rejected a write before all bytes were consumed.
    ShortWrite,
    /// A variable-length integer had no terminating byte within its bound;
    /// the payload carries how many bits were consumed before giving up.
    VarintOverflow(u32),
    /// A record-shape descriptor is self-contradictory.
    InvalidShape,
    /// A stored record length is smaller than the field sizes it must cover;
    /// the payload carries the stored length and the covered field size.
    LengthUnderflow(u32, u32),
    /// A stored checksum disagrees with the recomputed one;
    /// the payload carries the stored and the computed value.
    ChecksumMismatch(u32, u32),
    /// A decoded value failed a validator; the payload is the message.
    Validation(String),
}

impl IoError {
    /// A description of the failure; where a variant carries values, both
    /// stand in the message.
    pub fn message(&self) -> (s: String)
        ensures
            match self {
                IoError::VarintOverflow(bits) => s@ == varint_overflow_msg(*bits),
                IoError::LengthUnderflow(stored, covered) => s@ == length_underflow_msg(
                    *stored,
                    *covered,
                ),
                IoError::ChecksumMismatch(stored, computed) => s@ == checksum_mismatch_msg(
                    *stored,
                    *computed,
                ),
                IoError::Validation(m) => s@ == m@,
                _ => true,
            },
    {
        match self {
            IoError::ShortRead => String::from_str(
                "short read - the stream ended before the requested bytes",
            ),
            IoError::ShortWrite => String::from_str(
                "short write - the stream rejected the requested bytes",
            ),
            IoError::VarintOverflow(bits) => {
                let d = dec_string(*bits);
                let mut s = String::from_str("varint overflow - no end byte after ");
                s.append(d.as_str());
                s.append(" bits");
                proof {
                    assert(s@ =~= varint_overflow_msg(*bits));
                }
                s
            }
            IoError::InvalidShape => String::from_str("invalid record shape"),
            IoError::LengthUnderflow(stored, covered) => {
                let h1 = hex_string(*stored as u128);
                let h2 = hex_string(*covered as u128);
                let mut s = String::from_str("stored length 0x");
                s.append(h1.as_str());
                s.append(" smaller than covered field size 0x");
                s.append(h2.as_str());
                proof {
                    assert(s@ =~= length_underflow_msg(*stored, *covered));
                }
                s
            }
            IoError::ChecksumMismatch(stored, computed) => {
                let h1 = hex_string(*stored as u128);
                let h2 = hex_string(*computed as u128);
                let mut s = String::from_str("stored checksum 0x");
                s.append(h1.as_str());
                s.append(" does not match computed 0x");
                s.append(h2.as_str());
                proof {
                    assert(s@ =~= checksum_mismatch_msg(*stored, *computed));
                }
                s
            }
            IoError::Validation(m) => m.clone(),
        }
    }
}

} // verus!
