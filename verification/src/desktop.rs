//! What the desktop application shows: its greetings, and the artwork of
//! each history entry.
use vstd::prelude::*;
use base64::Engine;
use crate::text::{replace, replace_all, same_text};

verus! {

broadcast use vstd::string::group_string_axioms;

/// The greeting for `name`.
pub fn greet(name: &str) -> (r: String)
    ensures
        r@ == "Hello, "@ + name@ + "! You've been greeted from Rust!"@,
{
    let mut r = String::from_str("Hello, ");
    r.append(name);
    r.append("! You've been greeted from Rust!");
    r
}

/// The line that describes the application.
pub fn get_project_info() -> (r: String)
    ensures
        r@ == "EchoTag Desktop - Built with Rust and Tauri!"@,
{
    String::from_str("EchoTag Desktop - Built with Rust and Tauri!")
}

/// The character of a 6-bit value in the standard Base64 alphabet
/// (`A-Z`, `a-z`, `0-9`, `+`, `/`).
pub open spec fn base64_char(v: nat) -> char {
    if v < 26 {
        (65 + v) as char
    } else if v < 52 {
        (97 + v - 26) as char
    } else if v < 62 {
        (48 + v - 52) as char
    } else if v == 62 {
        '+'
    } else {
        '/'
    }
}

/// Standard Base64 with padding (RFC 4648, section 4): each three bytes
/// become four characters; a last group of one or two bytes is padded
/// with `=`.
pub open spec fn base64_of(b: Seq<u8>) -> Seq<char>
    decreases b.len(),
{
    if b.len() == 0 {
        Seq::empty()
    } else if b.len() == 1 {
        seq![base64_char((b[0] / 4) as nat), base64_char(((b[0] % 4) * 16) as nat), '=', '=']
    } else if b.len() == 2 {
        seq![
            base64_char((b[0] / 4) as nat),
            base64_char(((b[0] % 4) * 16 + b[1] / 16) as nat),
            base64_char(((b[1] % 16) * 4) as nat),
            '=',
        ]
    } else {
        seq![
            base64_char((b[0] / 4) as nat),
            base64_char(((b[0] % 4) * 16 + b[1] / 16) as nat),
            base64_char(((b[1] % 16) * 4 + b[2] / 64) as nat),
            base64_char((b[2] % 64) as nat),
        ] + base64_of(b.subrange(3, b.len() as int))
    }
}

/// Encodes bytes with `base64::engine::general_purpose::STANDARD`.
///
/// Trusted: the contract claims that the `STANDARD` engine (standard
/// alphabet, with padding) encodes as RFC 4648 says, as the `base64`
/// crate documents it.
#[verifier::external_body]
fn base64_standard(bytes: &[u8]) -> (r: String)
    ensures
        r@ == base64_of(bytes@),
{
    base64::engine::general_purpose::STANDARD.encode(bytes)
}

/// An artwork file on disk, as the desktop application finds it.
#[derive(Debug)]
pub enum ArtFile {
    /// The file does not exist.
    Missing,
    /// The file exists but could not be read.
    Unreadable,
    /// The file's bytes.
    Bytes(Vec<u8>),
}

/// `data:image/jpeg;base64,<bytes>`.
pub open spec fn data_url(b: Seq<u8>) -> Seq<char> {
    "data:image/jpeg;base64,"@ + base64_of(b)
}

/// The artwork a history entry is shown with: the cover saved next to the
/// history (`<artist>_<track>.jpg`) as an inline image when it exists; else,
/// for the default cover, the default cover file as an inline image when
/// it exists; else the artwork address in high resolution (`100x100`
/// becomes `2000x2000`).  A file that exists but cannot be read leaves the
/// address as it was.
pub open spec fn artwork_for(url: Seq<char>, local: ArtFile, default_file: ArtFile) -> Seq<char> {
    match local {
        ArtFile::Bytes(b) => data_url(b@),
        ArtFile::Unreadable => url,
        ArtFile::Missing => if url == "default_cover_art.jpg"@ {
            match default_file {
                ArtFile::Bytes(b) => data_url(b@),
                ArtFile::Unreadable => url,
                ArtFile::Missing => replace(url, "100x100"@, "2000x2000"@),
            }
        } else {
            replace(url, "100x100"@, "2000x2000"@)
        },
    }
}

fn data_url_of(b: &Vec<u8>) -> (r: String)
    ensures
        r@ == data_url(b@),
{
    let mut r = String::from_str("data:image/jpeg;base64,");
    let e = base64_standard(b.as_slice());
    r.append(e.as_str());
    r
}

/// The artwork a history entry is shown with (see `artwork_for`).
pub fn resolve_artwork(artwork_url: &str, local: ArtFile, default_file: ArtFile) -> (r: String)
    ensures
        r@ == artwork_for(artwork_url@, local, default_file),
{
    match local {
        ArtFile::Bytes(b) => data_url_of(&b),
        ArtFile::Unreadable => String::from_str(artwork_url),
        ArtFile::Missing => {
            if same_text(artwork_url, "default_cover_art.jpg") {
                match default_file {
                    ArtFile::Bytes(b) => data_url_of(&b),
                    ArtFile::Unreadable => String::from_str(artwork_url),
                    ArtFile::Missing => replace_all(artwork_url, "100x100", "2000x2000"),
                }
            } else {
                replace_all(artwork_url, "100x100", "2000x2000")
            }
        },
    }
}

} // verus!
