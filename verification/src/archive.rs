//! Compressed documents.

use vstd::prelude::*;
use crate::runner::Event;

verus! {

/// The content of an XZ stream: the bytes that decompression of `data` gives
/// where it succeeds.
pub uninterp spec fn xz_content(data: Seq<u8>) -> Option<Seq<u8>>;

/// The error of the decompression library.
#[verifier::external_type_specification]
#[verifier::external_body]
pub struct ExLzmaError(lzma::LzmaError);

/// Why a document could not be decompressed.
#[derive(Clone, Copy, Debug, PartialEq, Eq, Structural)]
pub enum DecompressError {
    /// Failed memory allocation
    Memory,
    /// Memory limit would be violated
    MemoryLimit,
    /// XZ magic bytes weren't found
    Format,
    /// Unsupported compression options
    Options,
    /// Corrupt data
    Data,
    /// Data looks truncated
    Truncated,
    /// The data could not be read
    Io,
    /// An unknown error
    Other,
}

/// Calls `lzma::decompress`.
///
/// The contract claims that the bytes that a successful call returns depend
/// on `data` alone, and gives them a name. It claims nothing of when the call
/// succeeds: the library may fail for want of memory on any input.
#[verifier::external_body]
fn xz_decompress(data: &[u8]) -> (content: Result<Vec<u8>, lzma::LzmaError>)
    ensures
        content matches Ok(bytes) ==> xz_content(data@) == Some(bytes@),
{
    lzma::decompress(data)
}

/// Tells the variants of `lzma::LzmaError` apart.
#[verifier::external_body]
fn error_kind(error: lzma::LzmaError) -> DecompressError {
    match error {
        lzma::LzmaError::Mem => DecompressError::Memory,
        lzma::LzmaError::MemLimit => DecompressError::MemoryLimit,
        lzma::LzmaError::Format => DecompressError::Format,
        lzma::LzmaError::Options => DecompressError::Options,
        lzma::LzmaError::Data => DecompressError::Data,
        lzma::LzmaError::Buf => DecompressError::Truncated,
        lzma::LzmaError::Io(_) => DecompressError::Io,
        lzma::LzmaError::Other => DecompressError::Other,
    }
}

/// Calls `std::io::Error::downcast` on the error that `lzma::LzmaError::Io`
/// holds.
///
/// `lzma::decompress` hands on what the decoder finds in the data as a
/// failure to read that wraps the decoder's own error; this gives the
/// wrapped error back where there is one, and the error as it came where
/// there is none. Nothing is claimed of the result.
#[verifier::external_body]
fn cause(error: lzma::LzmaError) -> lzma::LzmaError {
    match error {
        lzma::LzmaError::Io(failure) => match failure.downcast::<lzma::LzmaError>() {
            Ok(wrapped) => wrapped,
            Err(failure) => lzma::LzmaError::Io(failure),
        },
        other => other,
    }
}

/// Decompresses a document that was read from an XZ file.
pub fn open_sbom_xz(data: &[u8]) -> (content: Result<Vec<u8>, DecompressError>)
    ensures
        content matches Ok(bytes) ==> xz_content(data@) == Some(bytes@),
{
    match xz_decompress(data) {
        Ok(bytes) => Ok(bytes),
        Err(error) => Err(error_kind(cause(error))),
    }
}

/// The text that tells of a failed decompression.
pub open spec fn description(error: DecompressError) -> Seq<char> {
    match error {
        DecompressError::Memory => "Memory allocation failed"@,
        DecompressError::MemoryLimit => "Memory limit would be violated"@,
        DecompressError::Format => "XZ magic bytes were not found"@,
        DecompressError::Options => "Unsupported compression options"@,
        DecompressError::Data => "Corrupt data"@,
        DecompressError::Truncated => "Data look like it was truncated or possibly corrupt"@,
        DecompressError::Io => "IO error"@,
        DecompressError::Other => "Unknown error"@,
    }
}

/// Writes out the text that tells of a failed decompression.
pub fn describe(error: DecompressError) -> (message: String)
    ensures
        message@ == description(error),
{
    match error {
        DecompressError::Memory => "Memory allocation failed".to_owned(),
        DecompressError::MemoryLimit => "Memory limit would be violated".to_owned(),
        DecompressError::Format => "XZ magic bytes were not found".to_owned(),
        DecompressError::Options => "Unsupported compression options".to_owned(),
        DecompressError::Data => "Corrupt data".to_owned(),
        DecompressError::Truncated => "Data look like it was truncated or possibly corrupt".to_owned(),
        DecompressError::Io => "IO error".to_owned(),
        DecompressError::Other => "Unknown error".to_owned(),
    }
}

/// Tells whether another attempt may succeed where this one failed: only for
/// want of memory.
pub open spec fn is_transient(error: DecompressError) -> bool {
    error == DecompressError::Memory || error == DecompressError::MemoryLimit
}

/// What is reported to the runner of a document that was fetched and, where
/// it is compressed, decompressed: its size, or why there is no content.
pub fn fetched(content: &Result<Vec<u8>, DecompressError>) -> (event: Event)
    ensures
        match *content {
            Ok(bytes) => event == (Event::Fetched { size: bytes@.len() as u64 }),
            Err(error) => event matches Event::FetchFailed { transient, message }
                && transient == is_transient(error) && message@ == description(error),
        },
{
    match content {
        Ok(bytes) => Event::Fetched { size: bytes.len() as u64 },
        Err(error) => Event::FetchFailed {
            transient: match error {
                DecompressError::Memory => true,
                DecompressError::MemoryLimit => true,
                _ => false,
            },
            message: describe(*error),
        },
    }
}

} // verus!
