//! Safe reading of text files: the size cap, binary detection and lossy UTF-8 decoding
//! that decide what a read gives back.
use crate::text::{decimal, push_decimal_u64, push_str};
use vstd::prelude::*;

verus! {

/// The largest file read: 50 MB.
pub const MAX_FILE_SIZE_BYTES: u64 = 50 * 1024 * 1024;

/// Number of leading bytes inspected for a NUL byte.
pub const BINARY_SNIFF_BYTES: usize = 1024;

/// Why a file could not be read as text.
#[derive(Debug, Clone, PartialEq, Eq)]
pub enum SafeReadError {
    FileNotFound(String),
    FileTooLarge { path: String, size_bytes: u64 },
    BinaryFileDetected(String),
    Io(String),
}

/// The text that `String::from_utf8_lossy` decodes from `bytes` (each invalid sequence
/// replaced by U+FFFD).
pub uninterp spec fn utf8_lossy(bytes: Seq<u8>) -> Seq<char>;

/// Calls `String::from_utf8_lossy`. Bytes that are all ASCII are valid UTF-8 and decode
/// one character per byte; what other bytes decode to is left to `utf8_lossy`.
#[verifier::external_body]
fn decode_lossy(bytes: &[u8]) -> (r: String)
    ensures
        r@ == utf8_lossy(bytes@),
        (forall|i: int| 0 <= i < bytes@.len() ==> bytes@[i] < 128) ==> r@ == bytes@.map_values(
            |b: u8| b as char,
        ),
{
    String::from_utf8_lossy(bytes).into_owned()
}

/// Whether the first `BINARY_SNIFF_BYTES` bytes hold a NUL byte.
pub open spec fn looks_binary(bytes: Seq<u8>) -> bool {
    exists|i: int| 0 <= i < bytes.len() && i < BINARY_SNIFF_BYTES && bytes[i] == 0
}

/// Checks a file's size against the cap.
pub fn check_file_size(path: &str, size_bytes: u64) -> (r: Result<(), SafeReadError>)
    ensures
        size_bytes <= MAX_FILE_SIZE_BYTES ==> r is Ok,
        size_bytes > MAX_FILE_SIZE_BYTES ==> (r matches Err(
            SafeReadError::FileTooLarge { path: p, size_bytes: s },
        ) && p@ == path@ && s == size_bytes),
{
    if size_bytes > MAX_FILE_SIZE_BYTES {
        let mut p = String::new();
        push_str(&mut p, path);
        Err(SafeReadError::FileTooLarge { path: p, size_bytes })
    } else {
        Ok(())
    }
}

/// Decodes the bytes read from `path`: refused as binary when a NUL byte shows in the first
/// 1024 bytes, else decoded as UTF-8 with invalid sequences replaced.
pub fn decode_markdown_bytes(path: &str, bytes: &[u8]) -> (r: Result<String, SafeReadError>)
    ensures
        match r {
            Ok(t) => !looks_binary(bytes@) && t@ == utf8_lossy(bytes@),
            Err(e) => looks_binary(bytes@) && (e matches SafeReadError::BinaryFileDetected(p)
                && p@ == path@),
        },
{
    let n = if bytes.len() < BINARY_SNIFF_BYTES {
        bytes.len()
    } else {
        BINARY_SNIFF_BYTES
    };
    let mut i: usize = 0;
    while i < n
        invariant
            i <= n,
            n <= bytes.len(),
            n <= BINARY_SNIFF_BYTES,
            n == bytes.len() || n == BINARY_SNIFF_BYTES,
            forall|j: int| 0 <= j < i ==> bytes@[j] != 0,
        decreases n - i,
    {
        if bytes[i] == 0 {
            let mut p = String::new();
            push_str(&mut p, path);
            return Err(SafeReadError::BinaryFileDetected(p));
        }
        i += 1;
    }
    Ok(decode_lossy(bytes))
}

impl SafeReadError {
    /// The message of the error.
    pub fn message(&self) -> (r: String)
        ensures
            r@ == match self {
                SafeReadError::FileNotFound(p) => "File not found: "@ + p@,
                SafeReadError::FileTooLarge { path, size_bytes } => "File '"@ + path@
                    + "' exceeds maximum size cap of 50 MB (size: "@ + decimal(*size_bytes as nat)
                    + " bytes)"@,
                SafeReadError::BinaryFileDetected(p) => "File '"@ + p@ + "' appears to be a binary file"@,
                SafeReadError::Io(e) => "I/O error: "@ + e@,
            },
    {
        let mut m = String::new();
        match self {
            SafeReadError::FileNotFound(p) => {
                push_str(&mut m, "File not found: ");
                push_str(&mut m, p.as_str());
            },
            SafeReadError::FileTooLarge { path, size_bytes } => {
                push_str(&mut m, "File '");
                push_str(&mut m, path.as_str());
                push_str(&mut m, "' exceeds maximum size cap of 50 MB (size: ");
                push_decimal_u64(&mut m, *size_bytes);
                push_str(&mut m, " bytes)");
            },
            SafeReadError::BinaryFileDetected(p) => {
                push_str(&mut m, "File '");
                push_str(&mut m, p.as_str());
                push_str(&mut m, "' appears to be a binary file");
            },
            SafeReadError::Io(e) => {
                push_str(&mut m, "I/O error: ");
                push_str(&mut m, e.as_str());
            },
        }
        m
    }
}

} // verus!
