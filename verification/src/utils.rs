//! Small text helpers shared by the settings page and the score board:
//! title-casing a settings word and rendering an elapsed time as `MM:SS`.

use vstd::prelude::*;
use vstd::string::StrSliceExecFns;

verus! {

/// The title-case form of one character: ASCII lowercase letters are mapped
/// to the matching uppercase letter, everything else is left alone.
pub open spec fn ascii_upper_char(c: char) -> char {
    if 97 <= c as u32 && c as u32 <= 122 {
        ((c as u32 - 32) as u32) as char
    } else {
        c
    }
}

/// The digit character for a value in `0 ..= 9`.
pub open spec fn digit_char(d: int) -> char
    recommends
        0 <= d <= 9,
{
    ((48 + d) as u8) as char
}

/// The `MM:SS` rendering of a non-negative number of seconds: minutes are
/// shown modulo 99 and seconds modulo 60, each padded to two digits.
pub open spec fn time_text(seconds: int) -> Seq<char>
    recommends
        0 <= seconds,
{
    let minutes = (seconds / 60) % 99;
    let secs = seconds % 60;
    seq![
        digit_char(minutes / 10),
        digit_char(minutes % 10),
        ':',
        digit_char(secs / 10),
        digit_char(secs % 10),
    ]
}

/// Relies on `String::from_utf8`: a buffer of ASCII bytes is valid UTF-8 and
/// decodes to exactly one character per byte.
#[verifier::external_body]
pub(crate) fn string_from_ascii_bytes(bytes: Vec<u8>) -> (r: String)
    requires
        forall|i: int| 0 <= i < bytes@.len() ==> bytes@[i] < 128,
    ensures
        r@.len() == bytes@.len(),
        forall|i: int| 0 <= i < bytes@.len() ==> r@[i] == bytes@[i] as char,
{
    match String::from_utf8(bytes) {
        Ok(s) => s,
        Err(_) => String::new(),
    }
}

/// Whether two string slices hold the same characters.
pub fn str_eq(a: &str, b: &str) -> (r: bool)
    ensures
        r == (a@ == b@),
{
    a.to_owned() == b.to_owned()
}

/// Turns the first letter of a word into upper case, as used for the
/// difficulty and board-size labels ("easy" becomes "Easy").
pub fn to_title(s: &str) -> (r: String)
    requires
        s@.len() > 0,
        s.is_ascii(),
    ensures
        r@ =~= s@.update(0, ascii_upper_char(s@[0])),
{
    proof {
        broadcast use vstd::string::is_ascii_spec_bytes;

    }
    let mut bytes = s.as_bytes_vec();
    let b0 = bytes[0];
    if 97 <= b0 && b0 <= 122 {
        bytes[0] = b0 - 32;
    }
    let r = string_from_ascii_bytes(bytes);
    proof {
        assert forall|i: int| 0 <= i < r@.len() implies r@[i] == s@.update(
            0,
            ascii_upper_char(s@[0]),
        )[i] by {
            assert((s@[i] as u32) < 128);
        }
    }
    r
}

/// Renders a non-negative number of seconds in the `MM:SS` format shown next
/// to a running game and on the score board (65 seconds becomes "01:05").
pub fn to_time(seconds: i64) -> (r: String)
    requires
        0 <= seconds,
    ensures
        r@ =~= time_text(seconds as int),
{
    let minutes = (seconds / 60) % 99;
    let secs = seconds % 60;
    let mut bytes: Vec<u8> = Vec::new();
    bytes.push(48 + (minutes / 10) as u8);
    bytes.push(48 + (minutes % 10) as u8);
    bytes.push(58);
    bytes.push(48 + (secs / 10) as u8);
    bytes.push(48 + (secs % 10) as u8);
    string_from_ascii_bytes(bytes)
}

} // verus!

