//! What the library takes from the standard library and from the host system without proof.
//!
//! Each item names the function that it stands for and says what is claimed of it.

use crate::os_text;
use crate::os_text::OsText;
use vstd::prelude::*;

verus! {

/// `String::push`: the string gets one more character, at its end.
pub assume_specification[ String::push ](s: &mut String, ch: char)
    ensures
        final(s)@ == old(s)@.push(ch),
;

/// The characters with Unicode's `White_Space` property.
pub open spec fn is_whitespace_char(c: char) -> bool {
    ||| '\u{9}' <= c <= '\u{d}'
    ||| c == '\u{20}'
    ||| c == '\u{85}'
    ||| c == '\u{a0}'
    ||| c == '\u{1680}'
    ||| '\u{2000}' <= c <= '\u{200a}'
    ||| c == '\u{2028}'
    ||| c == '\u{2029}'
    ||| c == '\u{202f}'
    ||| c == '\u{205f}'
    ||| c == '\u{3000}'
}

/// `char::is_whitespace`: true of the characters with the `White_Space` property.
pub assume_specification[ char::is_whitespace ](c: char) -> (b: bool)
    ensures
        b == is_whitespace_char(c),
;

/// The letters and digits of ASCII.
pub open spec fn is_ascii_alphanumeric_char(c: char) -> bool {
    ||| 'a' <= c <= 'z'
    ||| 'A' <= c <= 'Z'
    ||| '0' <= c <= '9'
}

/// What `char::is_alphanumeric` says of a character beyond ASCII.
pub uninterp spec fn is_alphanumeric_beyond_ascii(c: char) -> bool;

/// Whether a character counts as a letter or a digit.
pub open spec fn is_alphanumeric_char(c: char) -> bool {
    if c <= '\u{7f}' {
        is_ascii_alphanumeric_char(c)
    } else {
        is_alphanumeric_beyond_ascii(c)
    }
}

/// `char::is_alphanumeric`: whether Unicode counts the character as alphabetic or numeric.
/// Claimed are the ASCII characters that it holds of, and a name for the answer elsewhere.
pub assume_specification[ char::is_alphanumeric ](c: char) -> (b: bool)
    ensures
        c <= '\u{7f}' ==> b == is_ascii_alphanumeric_char(c),
        c > '\u{7f}' ==> b == is_alphanumeric_beyond_ascii(c),
;

/// The lower case of an ASCII character.
pub open spec fn ascii_lower(c: char) -> char {
    if 'A' <= c <= 'Z' {
        (c as u32 + 32) as char
    } else {
        c
    }
}

/// The upper case of an ASCII character.
pub open spec fn ascii_upper(c: char) -> char {
    if 'a' <= c <= 'z' {
        (c as u32 - 32) as char
    } else {
        c
    }
}

/// What `str::to_lowercase` makes of a text that is not all ASCII.
pub uninterp spec fn lowercase_beyond_ascii(s: Seq<char>) -> Seq<char>;

/// A text in lower case.
pub open spec fn lowercase(s: Seq<char>) -> Seq<char> {
    if vstd::utf8::is_ascii_chars(s) {
        s.map_values(|c: char| ascii_lower(c))
    } else {
        lowercase_beyond_ascii(s)
    }
}

/// `str::to_lowercase`: the text in lower case, as Unicode defines it. Claimed are that an
/// ASCII text changes letter by letter, and a name for what becomes of any other.
pub assume_specification[ str::to_lowercase ](s: &str) -> (r: String)
    ensures
        vstd::utf8::is_ascii_chars(s@) ==> r@ == s@.map_values(|c: char| ascii_lower(c)),
        !vstd::utf8::is_ascii_chars(s@) ==> r@ == lowercase_beyond_ascii(s@),
;

/// What `str::to_uppercase` makes of a text that is not all ASCII.
pub uninterp spec fn uppercase_beyond_ascii(s: Seq<char>) -> Seq<char>;

/// A text in upper case.
pub open spec fn uppercase(s: Seq<char>) -> Seq<char> {
    if vstd::utf8::is_ascii_chars(s) {
        s.map_values(|c: char| ascii_upper(c))
    } else {
        uppercase_beyond_ascii(s)
    }
}

/// `str::to_uppercase`: the text in upper case, as Unicode defines it. Claimed are that an
/// ASCII text changes letter by letter, and a name for what becomes of any other.
pub assume_specification[ str::to_uppercase ](s: &str) -> (r: String)
    ensures
        vstd::utf8::is_ascii_chars(s@) ==> r@ == s@.map_values(|c: char| ascii_upper(c)),
        !vstd::utf8::is_ascii_chars(s@) ==> r@ == uppercase_beyond_ascii(s@),
;

/// What `String::from_utf8_lossy` makes of bytes that are not valid UTF-8.
pub uninterp spec fn replaced_text(bytes: Seq<u8>) -> Seq<char>;

/// Bytes read as UTF-8.
pub open spec fn lossy_text(bytes: Seq<u8>) -> Seq<char> {
    if vstd::utf8::valid_utf8(bytes) {
        vstd::utf8::decode_utf8(bytes)
    } else {
        replaced_text(bytes)
    }
}

/// `String::from_utf8_lossy`: the bytes read as UTF-8, with a replacement character for what
/// is malformed. Claimed are that valid UTF-8 is decoded, and a name for the result elsewhere.
#[verifier::external_body]
pub(crate) fn text_of_bytes(bytes: &[u8]) -> (r: String)
    ensures
        vstd::utf8::valid_utf8(bytes@) ==> r@ == vstd::utf8::decode_utf8(bytes@),
        !vstd::utf8::valid_utf8(bytes@) ==> r@ == replaced_text(bytes@),
{
    String::from_utf8_lossy(bytes).into_owned()
}

/// What `format!("{:?}", ..)` makes of a list of texts.
pub uninterp spec fn debug_list(list: Seq<Seq<char>>) -> Seq<char>;

/// The `Debug` form of a list of strings, as the `format` macro writes it. Only a name for
/// the result is claimed.
#[verifier::external_body]
pub(crate) fn debug_text(list: &[String]) -> (r: String)
    ensures
        r@ == debug_list(list.deep_view()),
{
    format!("{:?}", list)
}

/// Whether a character stands for itself in a JSON string: anything but a quote, a backslash
/// and the control characters of ASCII.
pub open spec fn is_plain_in_json(c: char) -> bool {
    c >= '\u{20}' && c != '"' && c != '\\'
}

/// Whether every character of some texts stands for itself in a JSON string.
pub open spec fn are_plain_in_json(list: Seq<Seq<char>>) -> bool {
    forall|i: int, j: int|
        #![trigger list[i][j]]
        0 <= i < list.len() && 0 <= j < list[i].len() ==> is_plain_in_json(list[i][j])
}

/// A text in quotes.
pub open spec fn quoted(s: Seq<char>) -> Seq<char> {
    seq!['"'] + s + seq!['"']
}

/// What `serde_json::to_string` makes of a list of texts of which some character does not
/// stand for itself.
pub uninterp spec fn escaped_json_list(list: Seq<Seq<char>>) -> Seq<char>;

/// A list of texts as a JSON array of strings.
pub open spec fn json_list(list: Seq<Seq<char>>) -> Seq<char> {
    if are_plain_in_json(list) {
        seq!['['] + crate::text::joined(list.map_values(|s: Seq<char>| quoted(s)), seq![','])
            + seq![']']
    } else {
        escaped_json_list(list)
    }
}

/// `serde_json::to_string` of a list of strings: a JSON array, without white space. It does not
/// fail on strings. Claimed are that texts whose characters stand for themselves are written in
/// quotes with commas between them, and a name for the result elsewhere.
#[verifier::external_body]
pub(crate) fn json_text(list: &[String]) -> (r: Option<String>)
    ensures
        r is Some,
        are_plain_in_json(list.deep_view()) ==> r->0@ == seq!['['] + crate::text::joined(
            list.deep_view().map_values(|s: Seq<char>| quoted(s)),
            seq![','],
        ) + seq![']'],
        !are_plain_in_json(list.deep_view()) ==> r->0@ == escaped_json_list(list.deep_view()),
{
    serde_json::to_string(list).ok()
}

/// `dirs::home_dir`: the home directory of the user, or nothing where there is none. What it
/// is depends on the environment, so nothing is claimed of the result.
#[verifier::external_body]
fn home_dir() -> (r: Option<OsText>)
{
    match dirs::home_dir() {
        Some(path) => Some(
            OsText {
                text: path.to_string_lossy().into_owned(),
                bytes: path.into_os_string().into_encoded_bytes(),
            },
        ),
        None => None,
    }
}

/// Whether the host may name some directory as the home of the user.
pub closed spec fn is_home_dir(home: Option<os_text::OsTextView>) -> bool {
    exists|r: Option<OsText>| #[trigger] call_ensures(home_dir, (), r) && r.deep_view() == home
}

/// The home directory of the user, as the host names it.
pub(crate) fn current_home() -> (r: Option<OsText>)
    ensures
        is_home_dir(r.deep_view()),
{
    let r = home_dir();
    assert(call_ensures(home_dir, (), r));
    r
}

/// `std::path::is_separator`: whether a character separates the components of a path on the
/// machine that the program was built for. That differs between machines, so nothing is claimed
/// of the result.
pub assume_specification[ std::path::is_separator ](c: char) -> (b: bool)
;

/// Whether the host may be a Windows machine, or none: on Windows a backslash separates the
/// components of a path.
pub open spec fn may_be_windows(windows: bool) -> bool {
    call_ensures(std::path::is_separator, ('\\',), windows)
}

/// Whether the host is a Windows machine.
pub(crate) fn is_windows() -> (r: bool)
    ensures
        may_be_windows(r),
{
    std::path::is_separator('\\')
}

/// `nix::unistd::getuid`: the user that the process runs as. Nothing is claimed of the number.
#[verifier::external_body]
fn user_id() -> (r: u32)
{
    nix::unistd::getuid().as_raw()
}

/// Whether the host may name some number as that of the user.
pub closed spec fn is_user_id(uid: u32) -> bool {
    call_ensures(user_id, (), uid)
}

/// The number of the user that the process runs as, as the host names it.
pub(crate) fn current_user() -> (r: u32)
    ensures
        is_user_id(r),
{
    user_id()
}

/// `nix::unistd::getgid`: the group that the process runs as. Nothing is claimed of the number.
#[verifier::external_body]
fn group_id() -> (r: u32)
{
    nix::unistd::getgid().as_raw()
}

/// Whether the host may name some number as that of the user's group.
pub closed spec fn is_group_id(gid: u32) -> bool {
    call_ensures(group_id, (), gid)
}

/// The number of the group that the process runs as, as the host names it.
pub(crate) fn current_group() -> (r: u32)
    ensures
        is_group_id(r),
{
    group_id()
}

} // verus!
