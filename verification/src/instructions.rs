//! Project instructions: the `AGENTS.md` of the working directory, read only when it
//! is small enough and valid UTF-8.
use vstd::prelude::*;
use vstd::utf8::{decode_utf8, valid_utf8};

use crate::error::Error;
use crate::text::{concat, decimal, decimal_string, join_path, path_join};

verus! {

/// The largest `AGENTS.md` that is read, in bytes (32 KiB).
pub const MAX_AGENTS_BYTES: u64 = 32768;

/// The message `String::from_utf8` gives for `bytes` that are not valid UTF-8.
pub uninterp spec fn utf8_error(bytes: Seq<u8>) -> Seq<char>;

/// Calls `String::from_utf8`. Its documentation promises the text when the bytes are
/// valid UTF-8 and an error otherwise; the contract states that over vstd's
/// `valid_utf8` and `decode_utf8`, and names the error's message.
#[verifier::external_body]
fn decode(bytes: Vec<u8>) -> (r: Result<String, String>)
    ensures
        match r {
            Ok(s) => valid_utf8(bytes@) && s@ == decode_utf8(bytes@),
            Err(e) => !valid_utf8(bytes@) && e@ == utf8_error(bytes@),
        },
{
    String::from_utf8(bytes).map_err(|e| e.to_string())
}

/// The instructions file of `workdir`.
pub fn agents_path(workdir: &str) -> (p: String)
    ensures
        p@ == path_join(workdir@, "AGENTS.md"@),
{
    join_path(workdir, "AGENTS.md")
}

/// What asking for the file's size gave.
#[derive(Debug, Clone, PartialEq, Eq)]
pub enum FileSize {
    /// There is no such file.
    Missing,
    /// The size could not be had, for the given reason.
    Failed(String),
    /// The file has this many bytes.
    Bytes(u64),
}

/// What to do after looking at the file's size.
#[derive(Debug, Clone, Copy, PartialEq, Eq)]
pub enum AgentsStep {
    /// There are no instructions.
    Empty,
    /// Read the file.
    Read,
}

/// `"{path}: {detail}"` as an error.
fn path_error(path: &str, detail: &str) -> (e: Error)
    ensures
        e matches Error::Other(m) && m@ == path@ + ": "@ + detail@,
{
    let mut m = concat(path, ": ");
    m.append(detail);
    Error::Other(m)
}

/// The error for a file over the limit.
pub open spec fn too_large_message(path: Seq<char>, size: u64) -> Seq<char> {
    path + ": exceeds 32 KiB limit ("@ + decimal(size as nat) + " bytes)"@
}

/// What the file's size means: no file gives empty instructions; a file over 32 KiB
/// is refused; any other file is read.
pub fn agents_step(path: &str, size: FileSize) -> (r: Result<AgentsStep, Error>)
    ensures
        match size {
            FileSize::Missing => r == Ok::<AgentsStep, Error>(AgentsStep::Empty),
            FileSize::Failed(e) => r matches Err(Error::Other(m)) && m@ == path@ + ": "@ + e@,
            FileSize::Bytes(n) => if n > MAX_AGENTS_BYTES {
                r matches Err(Error::Other(m)) && m@ == too_large_message(path@, n)
            } else {
                r == Ok::<AgentsStep, Error>(AgentsStep::Read)
            },
        },
{
    match size {
        FileSize::Missing => Ok(AgentsStep::Empty),
        FileSize::Failed(e) => Err(path_error(path, e.as_str())),
        FileSize::Bytes(n) => {
            if n > MAX_AGENTS_BYTES {
                let mut m = concat(path, ": exceeds 32 KiB limit (");
                m.append(decimal_string(n).as_str());
                m.append(" bytes)");
                Err(Error::Other(m))
            } else {
                Ok(AgentsStep::Read)
            }
        },
    }
}

/// The instructions, from what reading the file gave: its text when it is valid
/// UTF-8, and otherwise an error naming the file.
pub fn agents_text(path: &str, read: Result<Vec<u8>, String>) -> (r: Result<String, Error>)
    ensures
        match read {
            Err(e) => r matches Err(Error::Other(m)) && m@ == path@ + ": "@ + e@,
            Ok(bytes) => if valid_utf8(bytes@) {
                r matches Ok(t) && t@ == decode_utf8(bytes@)
            } else {
                r matches Err(Error::Other(m)) && m@ == path@ + ": invalid UTF-8: "@ + utf8_error(
                    bytes@,
                )
            },
        },
{
    match read {
        Err(e) => Err(path_error(path, e.as_str())),
        Ok(bytes) => match decode(bytes) {
            Ok(text) => Ok(text),
            Err(e) => {
                let mut m = concat(path, ": invalid UTF-8: ");
                m.append(e.as_str());
                Err(Error::Other(m))
            },
        },
    }
}

} // verus!
