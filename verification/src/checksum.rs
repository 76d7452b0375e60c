//! The checksum engine: a 32-bit content fingerprint for a byte sequence,
//! and the classification of one read outcome against a last known state.
//!
//! A read outcome is an `Option<Vec<u8>>`: the file's whole content, or
//! `None` where the file could not be opened or read. Following the two-tier
//! failure model, such a failure is absorbed here (the outcome is recorded as
//! [`FileState::Unreadable`]) rather than surfaced to the caller.

use vstd::prelude::*;

verus! {

/// The CRC-32 checksum (IEEE polynomial) of a byte sequence, as the `crc`
/// crate computes it. A function of the bytes alone.
pub uninterp spec fn crc32_ieee(bytes: Seq<u8>) -> u32;

/// The last known state of a file: either its content was read whole and
/// checksummed, or the read failed. Keeping the two cases apart means a file
/// whose checksum happens to equal any particular value is never confused
/// with a file that could not be read.
#[derive(Clone, Copy, Debug, PartialEq, Eq, Structural)]
pub enum FileState {
    /// The file was read whole; its content has this checksum.
    Readable(u32),
    /// The file could not be opened or read.
    Unreadable,
}

/// The view of a read outcome: the byte sequence read, if any.
pub open spec fn content_view(content: Option<Vec<u8>>) -> Option<Seq<u8>> {
    match content {
        Some(bytes) => Some(bytes@),
        None => None,
    }
}

/// The state one read outcome is recorded as.
pub open spec fn observed_state(content: Option<Seq<u8>>) -> FileState {
    match content {
        Some(bytes) => FileState::Readable(crc32_ieee(bytes)),
        None => FileState::Unreadable,
    }
}

/// Whether a file whose last known state is `known` counts as changed when
/// it is observed in state `observed`. An unreadable file always counts as
/// changed; a readable one counts as changed exactly when its state differs
/// from the known one.
pub open spec fn state_changed(known: FileState, observed: FileState) -> bool {
    match observed {
        FileState::Readable(_) => observed != known,
        FileState::Unreadable => true,
    }
}

/// Relies on `crc::crc32::checksum_ieee`: the CRC-32 checksum with the IEEE
/// polynomial over the whole byte slice, a pure function of the bytes.
#[verifier::external_body]
pub fn calculate_crc32(byte_buffer: &[u8]) -> (r: u32)
    ensures
        r == crc32_ieee(byte_buffer@),
{
    crc::crc32::checksum_ieee(byte_buffer)
}

/// Record one read outcome: the checksum of the content where the read
/// succeeded, `Unreadable` where it failed.
pub fn observe_content(content: &Option<Vec<u8>>) -> (r: FileState)
    ensures
        r == observed_state(content_view(*content)),
{
    match content {
        Some(bytes) => FileState::Readable(calculate_crc32(bytes.as_slice())),
        None => FileState::Unreadable,
    }
}

/// Compare one read outcome against the last known state of the same file:
/// returns whether the file counts as changed, together with the state now
/// observed. A failed read yields `(true, Unreadable)` — an unreadable file
/// is always treated as changed.
pub fn has_file_changed(content: &Option<Vec<u8>>, known_state: &FileState) -> (r: (bool, FileState))
    ensures
        r.1 == observed_state(content_view(*content)),
        r.0 == state_changed(*known_state, r.1),
{
    let observed = observe_content(content);
    let changed = match observed {
        FileState::Readable(_) => observed != *known_state,
        FileState::Unreadable => true,
    };
    (changed, observed)
}

} // verus!
