//! Uploaded posts: the metadata they carry and the decoding of their content.
//!
//! An upload's markdown arrives bzip2-compressed and hex-encoded.
use vstd::prelude::*;
use vstd::utf8::{decode_utf8, valid_utf8};

use crate::post::{Post, PostView};
use crate::text::chars_of;

verus! {

/// Value of the hexadecimal digit `c` (`0-9`, `a-f`, `A-F`).
pub open spec fn hex_digit_value(c: char) -> Option<u8> {
    if '0' <= c <= '9' {
        Some((c as u32 - 48) as u8)
    } else if 'a' <= c <= 'f' {
        Some((c as u32 - 87) as u8)
    } else if 'A' <= c <= 'F' {
        Some((c as u32 - 55) as u8)
    } else {
        None
    }
}

/// The bytes written by the hexadecimal digit pairs of `s`; `None` when `s` has odd length
/// or holds a character that is no hexadecimal digit.
pub open spec fn hex_decoded(s: Seq<char>) -> Option<Seq<u8>> {
    if s.len() % 2 == 0 && forall|i: int| 0 <= i < s.len() ==> (#[trigger] hex_digit_value(s[i])) is Some {
        Some(
            Seq::new(
                s.len() / 2,
                |i: int|
                    (hex_digit_value(s[2 * i])->0 * 16 + hex_digit_value(s[2 * i + 1])->0) as u8,
            ),
        )
    } else {
        None
    }
}

fn hex_digit(c: char) -> (r: Option<u8>)
    ensures
        r == hex_digit_value(c),
{
    if '0' <= c && c <= '9' {
        Some((c as u32 - 48) as u8)
    } else if 'a' <= c && c <= 'f' {
        Some((c as u32 - 87) as u8)
    } else if 'A' <= c && c <= 'F' {
        Some((c as u32 - 55) as u8)
    } else {
        None
    }
}

/// Decodes hexadecimal text, upper or lower case, two digits per byte.
pub fn hex_decode(s: &str) -> (r: Option<Vec<u8>>)
    ensures
        r is None <==> hex_decoded(s@) is None,
        r matches Some(b) ==> hex_decoded(s@) == Some(b@),
{
    let bytes = chars_of(s);
    let n = bytes.len();
    if n % 2 != 0 {
        return None;
    }
    let mut out: Vec<u8> = Vec::new();
    let mut i: usize = 0;
    while i < n / 2
        invariant
            bytes@ == s@,
            n == bytes@.len(),
            n % 2 == 0,
            i <= n / 2,
            out@.len() == i,
            forall|j: int| 0 <= j < 2 * i ==> (#[trigger] hex_digit_value(bytes@[j])) is Some,
            forall|j: int|
                0 <= j < i ==> #[trigger] out@[j] == (hex_digit_value(bytes@[2 * j])->0 * 16
                    + hex_digit_value(bytes@[2 * j + 1])->0) as u8,
        decreases n / 2 - i,
    {
        let hi = hex_digit(bytes[2 * i]);
        let lo = hex_digit(bytes[2 * i + 1]);
        match (hi, lo) {
            (Some(h), Some(l)) => {
                assert(h < 16 && l < 16);
                out.push(h * 16 + l);
            },
            _ => {
                proof {
                    if hi is None {
                        assert(!(hex_digit_value(bytes@[2 * i as int]) is Some));
                    } else {
                        assert(!(hex_digit_value(bytes@[2 * i + 1]) is Some));
                    }
                }
                return None;
            },
        }
        i = i + 1;
    }
    assert(out@ =~= hex_decoded(s@)->0);
    Some(out)
}

/// The bytes that bzip2 decompression of `data` gives; `None` when `data` is no valid stream.
pub uninterp spec fn bunzip2(data: Seq<u8>) -> Option<Seq<u8>>;

#[verifier::external_type_specification]
#[verifier::external_body]
pub struct ExIoError(std::io::Error);

/// Relies on bzip2's `read::BzDecoder` read to its end over an in-memory slice: the output
/// depends on the compressed bytes alone.
#[verifier::external_body]
fn bzip2_decompress(data: &Vec<u8>) -> (r: Result<Vec<u8>, std::io::Error>)
    ensures
        r is Ok <==> bunzip2(data@) is Some,
        r matches Ok(out) ==> bunzip2(data@) == Some(out@),
{
    let mut out: Vec<u8> = Vec::new();
    std::io::Read::read_to_end(&mut bzip2::read::BzDecoder::new(data.as_slice()), &mut out).map(|_| out)
}

/// Relies on std's `String::from_utf8`: the text of `bytes` when they are valid UTF-8.
#[verifier::external_body]
fn utf8_string(bytes: Vec<u8>) -> (r: Option<String>)
    ensures
        r is Some <==> valid_utf8(bytes@),
        r matches Some(s) ==> s@ == decode_utf8(bytes@),
{
    String::from_utf8(bytes).ok()
}

/// The bytes that `STANDARD_NO_PAD` base64 decoding of `data` gives; `None` when refused.
pub uninterp spec fn base64_decoded(data: Seq<u8>) -> Option<Seq<u8>>;

#[verifier::external_type_specification]
#[verifier::external_body]
pub struct ExDecodeError(base64::DecodeError);

/// Relies on base64's `general_purpose::STANDARD_NO_PAD` engine and its `decode`: a function
/// of the input alone.
#[verifier::external_body]
fn base64_decode(encoded: &[u8]) -> (r: Result<Vec<u8>, base64::DecodeError>)
    ensures
        r is Ok <==> base64_decoded(encoded@) is Some,
        r matches Ok(out) ==> base64_decoded(encoded@) == Some(out@),
{
    base64::Engine::decode(&base64::engine::general_purpose::STANDARD_NO_PAD, encoded)
}

/// Why an uploaded text could not be decoded or saved.
#[derive(Debug, Clone)]
pub enum UploadError {
    /// The content is not hexadecimal text.
    InvalidHex,
    /// The content is not base64 text; the decoder's message.
    InvalidBase64(String),
    /// The decoded bytes are no bzip2 stream; the decoder's message.
    Decompression(String),
    /// The decoded bytes are not UTF-8 text.
    InvalidUtf8,
    /// A post's markdown file already exists and overwriting was not asked for.
    AlreadyExistsError,
}

/// The kinds of `UploadError`, without their messages.
pub enum UploadFailure {
    InvalidHex,
    InvalidBase64,
    Decompression,
    InvalidUtf8,
    AlreadyExists,
}

pub open spec fn upload_outcome(r: Result<String, UploadError>) -> Result<Seq<char>, UploadFailure> {
    match r {
        Ok(s) => Ok(s@),
        Err(UploadError::InvalidHex) => Err(UploadFailure::InvalidHex),
        Err(UploadError::InvalidBase64(_)) => Err(UploadFailure::InvalidBase64),
        Err(UploadError::Decompression(_)) => Err(UploadFailure::Decompression),
        Err(UploadError::InvalidUtf8) => Err(UploadFailure::InvalidUtf8),
        Err(UploadError::AlreadyExistsError) => Err(UploadFailure::AlreadyExists),
    }
}

/// Text of `bytes`, when they are UTF-8.
pub open spec fn text_outcome(bytes: Seq<u8>) -> Result<Seq<char>, UploadFailure> {
    if valid_utf8(bytes) {
        Ok(decode_utf8(bytes))
    } else {
        Err(UploadFailure::InvalidUtf8)
    }
}

/// Decodes `STANDARD_NO_PAD` base64 text into a UTF-8 string.
pub fn decode_base64(encoded: &[u8]) -> (r: Result<String, UploadError>)
    ensures
        upload_outcome(r) == match base64_decoded(encoded@) {
            Some(bytes) => text_outcome(bytes),
            None => Err(UploadFailure::InvalidBase64),
        },
{
    match base64_decode(encoded) {
        Ok(bytes) => text_from_bytes(bytes),
        Err(e) => Err(UploadError::InvalidBase64(e.to_string())),
    }
}

/// The text of `bytes`, refused unless they are UTF-8.
pub fn text_from_bytes(bytes: Vec<u8>) -> (r: Result<String, UploadError>)
    ensures
        upload_outcome(r) == text_outcome(bytes@),
{
    match utf8_string(bytes) {
        Some(s) => Ok(s),
        None => Err(UploadError::InvalidUtf8),
    }
}

/// The markdown of an upload from its decompressed bytes: refused unless they are UTF-8,
/// and when the target file exists and overwriting was not asked for.
pub fn accept_upload(markdown: Vec<u8>, overwrite: bool, target_exists: bool) -> (r: Result<
    String,
    UploadError,
>)
    ensures
        upload_outcome(r) == (if !valid_utf8(markdown@) {
            Err(UploadFailure::InvalidUtf8)
        } else if target_exists && !overwrite {
            Err(UploadFailure::AlreadyExists)
        } else {
            Ok(decode_utf8(markdown@))
        }),
{
    let text = text_from_bytes(markdown);
    match text {
        Ok(s) => {
            if target_exists && !overwrite {
                Err(UploadError::AlreadyExistsError)
            } else {
                Ok(s)
            }
        },
        Err(e) => Err(e),
    }
}

/// A post as uploaded: its metadata and its markdown, bzip2-compressed and hex-encoded.
pub struct PostUpload {
    pub title: String,
    pub timestamp: u64,
    pub slug: String,
    pub file_content_compressed: String,
    pub overwrite: bool,
}

/// What `save` gives for an upload whose content is `encoded`.
pub open spec fn saved(encoded: Seq<char>, overwrite: bool, target_exists: bool) -> Result<
    Seq<char>,
    UploadFailure,
> {
    match hex_decoded(encoded) {
        None => Err(UploadFailure::InvalidHex),
        Some(compressed) => match bunzip2(compressed) {
            None => Err(UploadFailure::Decompression),
            Some(markdown) => if !valid_utf8(markdown) {
                Err(UploadFailure::InvalidUtf8)
            } else if target_exists && !overwrite {
                Err(UploadFailure::AlreadyExists)
            } else {
                Ok(decode_utf8(markdown))
            },
        },
    }
}

impl PostUpload {
    /// The post that the upload describes.
    pub fn metadata(&self) -> (r: Post)
        ensures
            r@ == (PostView { title: self.title@, timestamp: self.timestamp, slug: self.slug@ }),
    {
        Post { title: self.title.clone(), slug: self.slug.clone(), timestamp: self.timestamp }
    }

    /// The markdown to write to the post's file: the content decoded, refused when the file
    /// exists (`target_exists`) and overwriting was not asked for.
    pub fn save(&self, target_exists: bool) -> (r: Result<String, UploadError>)
        ensures
            upload_outcome(r) == saved(
                self.file_content_compressed@,
                self.overwrite,
                target_exists,
            ),
    {
        let compressed = match hex_decode(self.file_content_compressed.as_str()) {
            Some(b) => b,
            None => return Err(UploadError::InvalidHex),
        };
        match bzip2_decompress(&compressed) {
            Ok(markdown) => accept_upload(markdown, self.overwrite, target_exists),
            Err(e) => Err(UploadError::Decompression(e.to_string())),
        }
    }
}

} // verus!
