//! Texts of the operating system, such as paths, which need not be Unicode.

use crate::text::same;
use vstd::prelude::*;

verus! {

/// A text of the system.
#[derive(Debug, Clone, PartialEq, Eq)]
pub struct OsText {
    /// The bytes by which the system knows it.
    pub bytes: Vec<u8>,
    /// The text as it is shown, with a replacement character for what is not Unicode.
    pub text: String,
}

/// What an [`OsText`] is about.
pub struct OsTextView {
    pub bytes: Seq<u8>,
    pub text: Seq<char>,
}

impl DeepView for OsText {
    type V = OsTextView;

    open spec fn deep_view(&self) -> OsTextView {
        OsTextView { bytes: self.bytes@, text: self.text@ }
    }
}

/// A text that is Unicode.
pub open spec fn unicode(text: Seq<char>) -> OsTextView {
    OsTextView { bytes: vstd::utf8::encode_utf8(text), text }
}

/// A text of the system with a Unicode text behind it.
pub open spec fn extended(base: OsTextView, tail: Seq<char>) -> OsTextView {
    OsTextView { bytes: base.bytes + vstd::utf8::encode_utf8(tail), text: base.text + tail }
}

impl OsText {
    /// A text that is Unicode.
    pub fn of(text: &str) -> (r: OsText)
        ensures
            r.deep_view() == unicode(text@),
    {
        OsText { bytes: text.as_bytes_vec(), text: text.to_owned() }
    }

    /// A copy of the text.
    pub fn copy(&self) -> (r: OsText)
        ensures
            r.deep_view() == self.deep_view(),
    {
        let bytes = self.bytes.clone();
        assert(bytes@ =~= self.bytes@);
        OsText { bytes, text: self.text.clone() }
    }

    /// Whether two texts are the same.
    pub fn is(&self, other: &OsText) -> (r: bool)
        ensures
            r == (self.deep_view() == other.deep_view()),
    {
        same_bytes(&self.bytes, &other.bytes) && same(self.text.as_str(), other.text.as_str())
    }

    /// The text with a Unicode text behind it.
    pub fn extend(&self, tail: &str) -> (r: OsText)
        ensures
            r.deep_view() == extended(self.deep_view(), tail@),
    {
        let mut bytes = self.bytes.clone();
        assert(bytes@ =~= self.bytes@);
        let mut more = tail.as_bytes_vec();
        bytes.append(&mut more);
        OsText { bytes, text: self.text.clone().concat(tail) }
    }
}

/// Whether two rows of bytes are the same.
fn same_bytes(a: &Vec<u8>, b: &Vec<u8>) -> (r: bool)
    ensures
        r == (a@ == b@),
{
    if a.len() != b.len() {
        return false;
    }
    for i in 0..a.len()
        invariant
            a.len() == b.len(),
            forall|j: int| 0 <= j < i ==> a[j] == b[j],
    {
        if a[i] != b[i] {
            return false;
        }
    }
    assert(a@ =~= b@);
    true
}

/// A Unicode text stays one when a Unicode text is put behind it.
pub proof fn law_unicode_stays_unicode(text: Seq<char>, tail: Seq<char>)
    ensures
        extended(unicode(text), tail) == unicode(text + tail),
{
    lemma_encode_add(text, tail);
}

/// Texts are encoded one after the other.
proof fn lemma_encode_add(a: Seq<char>, b: Seq<char>)
    ensures
        vstd::utf8::encode_utf8(a + b) == vstd::utf8::encode_utf8(a) + vstd::utf8::encode_utf8(b),
    decreases a.len(),
{
    let x = vstd::utf8::encode_utf8(a);
    let y = vstd::utf8::encode_utf8(b);
    if a.len() == 0 {
        assert(a + b =~= b);
        assert(x + y =~= y);
    } else {
        assert((a + b).drop_first() =~= a.drop_first() + b);
        lemma_encode_add(a.drop_first(), b);
        assert(vstd::utf8::encode_utf8(a + b) =~= x + y);
    }
}

/// A Unicode text is shown as it is and known by its UTF-8 bytes, which stand for no other text;
/// and what is put behind a text leaves it as it was.
pub proof fn law_bytes_and_text_go_together(text: Seq<char>, base: OsTextView, tail: Seq<char>)
    ensures
        unicode(text).text == text,
        vstd::utf8::valid_utf8(unicode(text).bytes),
        vstd::utf8::decode_utf8(unicode(text).bytes) == text,
        extended(base, tail).text == base.text + tail,
        extended(base, tail).bytes == base.bytes + unicode(tail).bytes,
{
    vstd::utf8::encode_utf8_valid_utf8(text);
    vstd::utf8::encode_utf8_decode_utf8(text);
}

} // verus!
