//! Operations on text, stated over sequences of characters.

use crate::platform;
use vstd::prelude::*;

verus! {

/// Whether two texts are the same.
pub fn same(a: &str, b: &str) -> (r: bool)
    ensures
        r == (a@ == b@),
{
    a.to_owned() == b.to_owned()
}

/// The characters of a text.
pub fn chars_of(s: &str) -> (r: Vec<char>)
    ensures
        r@ == s@,
{
    let mut out: Vec<char> = Vec::new();
    for c in it: s.chars()
        invariant
            it.seq() == s@,
            out@ == s@.take(it.index() as int),
    {
        out.push(c);
    }
    out
}

/// Appends a text to a list.
pub fn push_text(list: &mut Vec<String>, item: &str)
    ensures
        final(list).deep_view() == old(list).deep_view().push(item@),
{
    list.push(item.to_owned());
    assert(list.deep_view() =~= old(list).deep_view().push(item@));
}

/// Whether a text begins with another.
pub fn starts_with(s: &str, prefix: &str) -> (r: bool)
    ensures
        r == prefix@.is_prefix_of(s@),
{
    let n: usize = prefix.unicode_len();
    if n > s.unicode_len() {
        return false;
    }
    assert(s@.take(n as int) == s@.subrange(0, n as int));
    same(s.substring_char(0, n), prefix)
}

/// Whether a text ends with another.
pub fn ends_with(s: &str, suffix: &str) -> (r: bool)
    ensures
        r == suffix@.is_suffix_of(s@),
{
    let n: usize = suffix.unicode_len();
    let len: usize = s.unicode_len();
    if n > len {
        return false;
    }
    same(s.substring_char(len - n, len), suffix)
}

/// What is left of a text behind a prefix, where it has that prefix.
pub open spec fn without_prefix(s: Seq<char>, prefix: Seq<char>) -> Option<Seq<char>> {
    if prefix.is_prefix_of(s) {
        Some(s.skip(prefix.len() as int))
    } else {
        None
    }
}

/// Takes a prefix off a text.
pub fn strip_prefix<'a>(s: &'a str, prefix: &str) -> (r: Option<&'a str>)
    ensures
        r.deep_view() == without_prefix(s@, prefix@),
{
    if starts_with(s, prefix) {
        let n: usize = prefix.unicode_len();
        let len: usize = s.unicode_len();
        assert(s@.subrange(n as int, len as int) == s@.skip(n as int));
        Some(s.substring_char(n, len))
    } else {
        None
    }
}

/// What is left of a text before a last character, where it has that last character.
pub open spec fn without_last(s: Seq<char>, c: char) -> Option<Seq<char>> {
    if s.len() > 0 && s.last() == c {
        Some(s.drop_last())
    } else {
        None
    }
}

/// Takes a last character off a text.
pub fn strip_last<'a>(s: &'a str, c: char) -> (r: Option<&'a str>)
    ensures
        r.deep_view() == without_last(s@, c),
{
    let len: usize = s.unicode_len();
    if len > 0 && s.get_char(len - 1) == c {
        assert(s@.subrange(0, len - 1) == s@.drop_last());
        Some(s.substring_char(0, len - 1))
    } else {
        None
    }
}

/// Where a character first stands in a text, if it does.
pub fn position(s: &str, c: char) -> (r: Option<usize>)
    ensures
        match r {
            Some(i) => i < s@.len() && s@[i as int] == c && !s@.take(i as int).contains(c),
            None => !s@.contains(c),
        },
{
    let chars = chars_of(s);
    for i in 0..chars.len()
        invariant
            chars@ == s@,
            forall|j: int| 0 <= j < i ==> s@[j] != c,
    {
        if chars[i] == c {
            return Some(i);
        }
    }
    None
}

/// The parts of a text before and after the first occurrence of a character.
pub open spec fn halves(s: Seq<char>, c: char) -> Option<(Seq<char>, Seq<char>)>
    decreases s.len(),
{
    if s.len() == 0 {
        None
    } else if s[0] == c {
        Some((Seq::empty(), s.skip(1)))
    } else {
        match halves(s.skip(1), c) {
            Some((before, after)) => Some((seq![s[0]] + before, after)),
            None => None,
        }
    }
}

/// [`halves`] by the place of the first occurrence.
pub proof fn lemma_halves(s: Seq<char>, c: char, i: int)
    requires
        0 <= i < s.len(),
        s[i] == c,
        !s.take(i).contains(c),
    ensures
        halves(s, c) == Some((s.take(i), s.skip(i + 1))),
    decreases i,
{
    if i > 0 {
        assert(s.take(i)[0] == s[0]);
        let t = s.skip(1);
        let front = t.take(i - 1);
        assert forall|j: int| 0 <= j < front.len() implies front[j] != c by {
            assert(front[j] == s.take(i)[j + 1]);
        }
        lemma_halves(t, c, i - 1);
        assert(seq![s[0]] + t.take(i - 1) =~= s.take(i));
        assert(t.skip(i) =~= s.skip(i + 1));
    } else {
        assert(s.take(0) =~= Seq::<char>::empty());
    }
}

/// A text has no halves where the character does not occur.
pub proof fn lemma_no_halves(s: Seq<char>, c: char)
    requires
        !s.contains(c),
    ensures
        halves(s, c) is None,
    decreases s.len(),
{
    if s.len() > 0 {
        assert(s.contains(s[0]));
        let rest = s.skip(1);
        assert forall|j: int| 0 <= j < rest.len() implies rest[j] != c by {
            assert(s.contains(s[j + 1]));
        }
        lemma_no_halves(s.skip(1), c);
    }
}

/// Cuts a text in two at the first occurrence of a character.
pub fn split_once<'a>(s: &'a str, c: char) -> (r: Option<(&'a str, &'a str)>)
    ensures
        r.deep_view() == halves(s@, c),
{
    match position(s, c) {
        Some(i) => {
            let len: usize = s.unicode_len();
            proof {
                lemma_halves(s@, c, i as int);
                assert(s@.subrange(0, i as int) == s@.take(i as int));
                assert(s@.subrange(i + 1, len as int) == s@.skip(i + 1));
            }
            Some((s.substring_char(0, i), s.substring_char(i + 1, len)))
        },
        None => {
            proof {
                lemma_no_halves(s@, c);
            }
            None
        },
    }
}

/// The parts of a text between the occurrences of a character.
pub open spec fn pieces(s: Seq<char>, c: char) -> Seq<Seq<char>>
    decreases s.len(),
    via pieces_decreases
{
    match halves(s, c) {
        Some((before, after)) => seq![before] + pieces(after, c),
        None => seq![s],
    }
}

#[via_fn]
proof fn pieces_decreases(s: Seq<char>, c: char) {
    lemma_halves_shorter(s, c);
}

/// Both halves are shorter than the text.
pub proof fn lemma_halves_shorter(s: Seq<char>, c: char)
    ensures
        halves(s, c) matches Some((before, after)) ==> before.len() + after.len() + 1 == s.len(),
    decreases s.len(),
{
    if s.len() > 0 && s[0] != c {
        lemma_halves_shorter(s.skip(1), c);
    }
}

/// Cuts a text at every occurrence of a character.
pub fn split(s: &str, c: char) -> (r: Vec<String>)
    ensures
        r.deep_view() == pieces(s@, c),
{
    let mut out: Vec<String> = Vec::new();
    let mut rest: &str = s;
    proof {
        assert(out.deep_view() + pieces(rest@, c) =~= pieces(s@, c));
    }
    loop
        invariant
            out.deep_view() + pieces(rest@, c) == pieces(s@, c),
        decreases rest@.len(),
    {
        match split_once(rest, c) {
            Some((before, after)) => {
                proof {
                    lemma_halves_shorter(rest@, c);
                }
                let ghost done = out.deep_view();
                out.push(before.to_owned());
                proof {
                    assert(out.deep_view() =~= done.push(before@));
                    assert(out.deep_view() + pieces(after@, c) =~= done + pieces(rest@, c));
                }
                rest = after;
            },
            None => {
                let ghost done = out.deep_view();
                out.push(rest.to_owned());
                proof {
                    assert(out.deep_view() =~= done.push(rest@));
                }
                return out;
            },
        }
    }
}

/// A text without the white space around it.
pub open spec fn trimmed(s: Seq<char>) -> Seq<char>
    decreases s.len(),
{
    if s.len() == 0 {
        s
    } else if platform::is_whitespace_char(s[0]) {
        trimmed(s.skip(1))
    } else if platform::is_whitespace_char(s.last()) {
        trimmed(s.drop_last())
    } else {
        s
    }
}

/// Takes the white space around a text away.
pub fn trim<'a>(s: &'a str) -> (r: &'a str)
    ensures
        r@ == trimmed(s@),
{
    let chars = chars_of(s);
    let mut start: usize = 0;
    let mut end: usize = chars.len();
    proof {
        assert(s@.subrange(0, end as int) == s@);
    }
    while start < end && chars[start].is_whitespace()
        invariant
            chars@ == s@,
            start <= end == chars.len(),
            trimmed(s@.subrange(start as int, end as int)) == trimmed(s@),
        decreases end - start,
    {
        proof {
            assert(s@.subrange(start as int, end as int).skip(1) =~= s@.subrange(
                start + 1,
                end as int,
            ));
        }
        start = start + 1;
    }
    while start < end && chars[end - 1].is_whitespace()
        invariant
            chars@ == s@,
            start <= end <= chars.len(),
            start < end ==> !platform::is_whitespace_char(s@[start as int]),
            trimmed(s@.subrange(start as int, end as int)) == trimmed(s@),
        decreases end - start,
    {
        proof {
            assert(s@.subrange(start as int, end as int).drop_last() =~= s@.subrange(
                start as int,
                end - 1,
            ));
        }
        end = end - 1;
    }
    s.substring_char(start, end)
}

/// A trimmed text has no white space at either end, and is trimmed again to itself.
pub proof fn lemma_trimmed_ends(s: Seq<char>)
    ensures
        trimmed(s).len() > 0 ==> !platform::is_whitespace_char(trimmed(s)[0])
            && !platform::is_whitespace_char(trimmed(s).last()),
        trimmed(trimmed(s)) == trimmed(s),
    decreases s.len(),
{
    if s.len() > 0 {
        if platform::is_whitespace_char(s[0]) {
            lemma_trimmed_ends(s.skip(1));
        } else if platform::is_whitespace_char(s.last()) {
            lemma_trimmed_ends(s.drop_last());
        }
    }
}

/// A list of texts with a separator between each two.
pub open spec fn joined(list: Seq<Seq<char>>, separator: Seq<char>) -> Seq<char>
    decreases list.len(),
{
    if list.len() == 0 {
        Seq::empty()
    } else if list.len() == 1 {
        list[0]
    } else {
        joined(list.drop_last(), separator) + separator + list.last()
    }
}

/// Puts a separator between the texts of a list.
pub fn join(list: &[String], separator: &str) -> (r: String)
    ensures
        r@ == joined(list.deep_view(), separator@),
{
    let mut out = String::new();
    for i in 0..list.len()
        invariant
            out@ == joined(list.deep_view().take(i as int), separator@),
    {
        let ghost texts = list.deep_view();
        if i > 0 {
            out.append(separator);
        }
        out.append(list[i].as_str());
        proof {
            assert(texts.take(i + 1).drop_last() =~= texts.take(i as int));
            assert(texts.take(i + 1).last() == list[i as int]@);
        }
    }
    proof {
        assert(list.deep_view().take(list.len() as int) =~= list.deep_view());
    }
    out
}

/// [`joined`] from the front.
pub proof fn lemma_joined_front(list: Seq<Seq<char>>, separator: Seq<char>)
    requires
        list.len() > 1,
    ensures
        joined(list, separator) == list[0] + separator + joined(list.skip(1), separator),
    decreases list.len(),
{
    let rest = list.skip(1);
    if list.len() == 2 {
        assert(list.drop_last() =~= seq![list[0]]);
        assert(rest =~= seq![list[1]]);
        assert(joined(list.drop_last(), separator) == list[0]);
        assert(joined(rest, separator) == list[1]);
    } else {
        lemma_joined_front(list.drop_last(), separator);
        assert(list.drop_last().skip(1) =~= rest.drop_last());
        assert(joined(list, separator) =~= list[0] + separator + joined(rest, separator));
    }
}

/// Texts without the separator are told apart again after they were joined.
pub proof fn lemma_pieces_of_joined(list: Seq<Seq<char>>, c: char)
    requires
        list.len() > 0,
        forall|i: int| 0 <= i < list.len() ==> !(#[trigger] list[i]).contains(c),
    ensures
        pieces(joined(list, seq![c]), c) == list,
    decreases list.len(),
{
    let all = joined(list, seq![c]);
    if list.len() == 1 {
        lemma_no_halves(list[0], c);
        assert(list =~= seq![list[0]]);
    } else {
        let rest = list.skip(1);
        lemma_joined_front(list, seq![c]);
        let n = list[0].len() as int;
        assert(all.take(n) =~= list[0]);
        assert(all[n] == c);
        assert(all.skip(n + 1) =~= joined(rest, seq![c]));
        lemma_halves(all, c, n);
        assert forall|i: int| 0 <= i < rest.len() implies !(#[trigger] rest[i]).contains(c) by {
            assert(rest[i] == list[i + 1]);
        }
        lemma_pieces_of_joined(rest, c);
        assert(list =~= seq![list[0]] + rest);
    }
}

/// Joined texts begin as the first of them and end as the last.
pub proof fn lemma_joined_ends(list: Seq<Seq<char>>, separator: Seq<char>)
    requires
        list.len() > 0,
        forall|i: int| 0 <= i < list.len() ==> (#[trigger] list[i]).len() > 0,
    ensures
        joined(list, separator).len() > 0,
        joined(list, separator)[0] == list[0][0],
        joined(list, separator).last() == list.last().last(),
    decreases list.len(),
{
    if list.len() > 1 {
        assert forall|i: int| 0 <= i < list.len() - 1 implies (
        #[trigger] list.drop_last()[i]).len() > 0 by {
            assert(list.drop_last()[i] == list[i]);
        }
        lemma_joined_ends(list.drop_last(), separator);
    }
}

/// Whether a text comes before another, character by character.
pub open spec fn precedes(a: Seq<char>, b: Seq<char>) -> bool
    decreases a.len(),
{
    if b.len() == 0 {
        false
    } else if a.len() == 0 {
        true
    } else if a[0] != b[0] {
        a[0] < b[0]
    } else {
        precedes(a.skip(1), b.skip(1))
    }
}

/// Whether a text comes before another.
pub fn before(a: &str, b: &str) -> (r: bool)
    ensures
        r == precedes(a@, b@),
{
    let x = chars_of(a);
    let y = chars_of(b);
    let mut i: usize = 0;
    proof {
        assert(a@.skip(0) =~= a@);
        assert(b@.skip(0) =~= b@);
    }
    while i < x.len() && i < y.len() && x[i] == y[i]
        invariant
            x@ == a@,
            y@ == b@,
            i <= x.len(),
            i <= y.len(),
            precedes(a@.skip(i as int), b@.skip(i as int)) == precedes(a@, b@),
        decreases x.len() - i,
    {
        proof {
            assert(a@.skip(i as int).skip(1) =~= a@.skip(i + 1));
            assert(b@.skip(i as int).skip(1) =~= b@.skip(i + 1));
        }
        i = i + 1;
    }
    if i == y.len() {
        false
    } else if i == x.len() {
        true
    } else {
        x[i] < y[i]
    }
}

/// No text precedes itself.
pub proof fn lemma_precedes_irreflexive(a: Seq<char>)
    ensures
        !precedes(a, a),
    decreases a.len(),
{
    if a.len() > 0 {
        lemma_precedes_irreflexive(a.skip(1));
    }
}

/// The order of texts is transitive.
pub proof fn lemma_precedes_transitive(a: Seq<char>, b: Seq<char>, c: Seq<char>)
    requires
        precedes(a, b),
        precedes(b, c),
    ensures
        precedes(a, c),
    decreases a.len(),
{
    if a.len() > 0 && a[0] == b[0] && b[0] == c[0] {
        lemma_precedes_transitive(a.skip(1), b.skip(1), c.skip(1));
    }
}

/// Of two different texts one precedes the other.
pub proof fn lemma_precedes_total(a: Seq<char>, b: Seq<char>)
    ensures
        a == b || precedes(a, b) || precedes(b, a),
    decreases a.len(),
{
    if a.len() > 0 && b.len() > 0 && a[0] == b[0] {
        lemma_precedes_total(a.skip(1), b.skip(1));
        if a.skip(1) == b.skip(1) {
            assert(a =~= seq![a[0]] + a.skip(1));
            assert(b =~= seq![b[0]] + b.skip(1));
        }
    } else if a.len() == 0 && b.len() == 0 {
        assert(a =~= b);
    }
}

/// Whether a character is a decimal digit.
pub open spec fn is_digit(c: char) -> bool {
    '0' <= c <= '9'
}

/// Whether a text holds nothing but digits.
pub open spec fn all_digits(s: Seq<char>) -> bool {
    forall|i: int| 0 <= i < s.len() ==> is_digit(#[trigger] s[i])
}

/// The number that a row of decimal digits stands for.
pub open spec fn digits_value(s: Seq<char>) -> nat
    decreases s.len(),
{
    if s.len() == 0 {
        0
    } else {
        digits_value(s.drop_last()) * 10 + (s.last() as nat - '0' as nat) as nat
    }
}

/// A number below 65536 as it is read from a text: digits and nothing else, at least one of
/// them, with or without a plus sign in front.
pub open spec fn number_u16(s: Seq<char>) -> Option<u16> {
    let digits = if s.len() > 0 && s[0] == '+' {
        s.skip(1)
    } else {
        s
    };
    if digits.len() > 0 && all_digits(digits) && digits_value(digits) <= 0xffff {
        Some(digits_value(digits) as u16)
    } else {
        None
    }
}

/// More digits never make a smaller number.
proof fn lemma_digits_value_grows(s: Seq<char>, i: int)
    requires
        0 <= i <= s.len(),
    ensures
        digits_value(s.take(i)) <= digits_value(s),
    decreases s.len(),
{
    if i < s.len() {
        assert(s.drop_last().take(i) =~= s.take(i));
        lemma_digits_value_grows(s.drop_last(), i);
    } else {
        assert(s.take(i) =~= s);
    }
}

/// Reads a number below 65536.
pub fn parse_u16(s: &str) -> (r: Option<u16>)
    ensures
        r == number_u16(s@),
{
    let chars = chars_of(s);
    let first: usize = if chars.len() > 0 && chars[0] == '+' { 1 } else { 0 };
    if first == chars.len() {
        return None;
    }
    let ghost digits = s@.skip(first as int);
    let mut value: u32 = 0;
    let mut i: usize = first;
    proof {
        assert(digits.take(0) =~= Seq::<char>::empty());
        assert(first == 0 ==> digits =~= s@);
    }
    while i < chars.len()
        invariant
            chars@ == s@,
            first <= i <= chars.len(),
            first < chars.len(),
            first == if s@.len() > 0 && s@[0] == '+' { 1int } else { 0int },
            digits == s@.skip(first as int),
            first == 0 ==> digits == s@,
            forall|j: int| 0 <= j < i - first ==> is_digit(digits[j]),
            value == digits_value(digits.take(i - first)),
            value <= 0xffff,
        decreases chars.len() - i,
    {
        let c = chars[i];
        proof {
            assert(digits[i - first] == c);
            assert(digits.take(i - first + 1).drop_last() =~= digits.take(i - first));
        }
        if !('0' <= c && c <= '9') {
            assert(!is_digit(digits[i - first]));
            return None;
        }
        value = value * 10 + (c as u32 - '0' as u32);
        if value > 0xffff {
            proof {
                lemma_digits_value_grows(digits, i - first + 1);
            }
            return None;
        }
        i = i + 1;
    }
    proof {
        assert(digits.take(i - first) =~= digits);
    }
    Some(value as u16)
}

/// The character of a digit.
pub open spec fn digit_char(d: nat) -> char {
    ('0' as nat + d) as char
}

/// A number in decimal.
pub open spec fn decimal(n: nat) -> Seq<char>
    decreases n,
{
    if n < 10 {
        seq![digit_char(n)]
    } else {
        decimal(n / 10).push(digit_char(n % 10))
    }
}

/// Writes a number in decimal.
pub fn decimal_text(n: u32) -> (r: String)
    ensures
        r@ == decimal(n as nat),
    decreases n,
{
    let mut out = if n < 10 { String::new() } else { decimal_text(n / 10) };
    let digit: u8 = '0' as u8 + (n % 10) as u8;
    out.push(digit as char);
    proof {
        if n < 10 {
            assert(out@ =~= seq![digit_char(n as nat)]);
        }
    }
    out
}

/// A number in decimal is made of digits.
pub proof fn lemma_decimal_digits(n: nat)
    ensures
        decimal(n).len() > 0,
        all_digits(decimal(n)),
        digits_value(decimal(n)) == n,
    decreases n,
{
    if n >= 10 {
        lemma_decimal_digits(n / 10);
        assert(decimal(n).drop_last() =~= decimal(n / 10));
    } else {
        assert(decimal(n).drop_last() =~= Seq::<char>::empty());
    }
    assert(decimal(n).last() == digit_char(n % 10));
    assert(digits_value(decimal(n)) == digits_value(decimal(n).drop_last()) * 10 + n % 10);
}

/// A number below 65536 that was written in decimal is read back as it was.
pub proof fn law_decimal_reads_back(n: u16)
    ensures
        number_u16(decimal(n as nat)) == Some(n),
{
    lemma_decimal_digits(n as nat);
    assert(is_digit(decimal(n as nat)[0]));
}

/// A prefix that is taken off a text stands before what is left, and only a prefix is taken off.
pub proof fn law_prefix_is_taken_off(prefix: Seq<char>, s: Seq<char>)
    ensures
        without_prefix(prefix + s, prefix) == Some(s),
        without_prefix(s, prefix) matches Some(rest) ==> s == prefix + rest,
        without_prefix(s, prefix) is None ==> forall|rest: Seq<char>|
            s != #[trigger] (prefix + rest),
{
    assert((prefix + s).take(prefix.len() as int) =~= prefix);
    assert((prefix + s).skip(prefix.len() as int) =~= s);
    if prefix.is_prefix_of(s) {
        assert(s =~= prefix + s.skip(prefix.len() as int));
    } else {
        assert forall|rest: Seq<char>| s != #[trigger] (prefix + rest) by {
            assert((prefix + rest).take(prefix.len() as int) =~= prefix);
        }
    }
}

/// A last character that is taken off a text stands behind what is left, and only that
/// character is taken off.
pub proof fn law_last_character_is_taken_off(s: Seq<char>, c: char)
    ensures
        without_last(s.push(c), c) == Some(s),
        without_last(s, c) matches Some(front) ==> s == front.push(c),
        without_last(s, c) is None ==> s.len() == 0 || s[s.len() - 1] != c,
{
    assert(s.push(c).drop_last() =~= s);
    if s.len() > 0 && s.last() == c {
        assert(s =~= s.drop_last().push(c));
    }
}

/// A text is cut at the first occurrence of a character: the parts and the character between
/// them make up the text, and the first part is free of it. Without the character there is no
/// cut.
pub proof fn law_halves_make_up_the_text(s: Seq<char>, c: char)
    ensures
        halves(s, c) matches Some((front, back)) ==> s == front.push(c) + back && !front.contains(
            c,
        ),
        halves(s, c) is None <==> !s.contains(c),
{
    if s.contains(c) {
        let i = lemma_first_place(s, c);
        lemma_halves(s, c, i);
        assert(s =~= s.take(i).push(c) + s.skip(i + 1));
    } else {
        lemma_no_halves(s, c);
    }
}

/// Where a character first stands in a text.
proof fn lemma_first_place(s: Seq<char>, c: char) -> (i: int)
    requires
        s.contains(c),
    ensures
        0 <= i < s.len(),
        s[i] == c,
        !s.take(i).contains(c),
    decreases s.len(),
{
    let k = choose|k: int| 0 <= k < s.len() && s[k] == c;
    if s.take(k).contains(c) {
        let front = s.take(k);
        let i = lemma_first_place(front, c);
        assert(front.take(i) =~= s.take(i));
        i
    } else {
        k
    }
}

/// The parts of a text between the occurrences of a character make up the text again with that
/// character between each two, and none of them holds it.
pub proof fn law_pieces_make_up_the_text(s: Seq<char>, c: char)
    ensures
        pieces(s, c).len() > 0,
        joined(pieces(s, c), seq![c]) == s,
        forall|i: int| 0 <= i < pieces(s, c).len() ==> !(#[trigger] pieces(s, c)[i]).contains(c),
    decreases s.len(),
{
    let all = pieces(s, c);
    law_halves_make_up_the_text(s, c);
    match halves(s, c) {
        Some((front, back)) => {
            lemma_halves_shorter(s, c);
            law_pieces_make_up_the_text(back, c);
            let rest = pieces(back, c);
            assert(all == seq![front] + rest);
            lemma_joined_front(all, seq![c]);
            assert(all.skip(1) =~= rest);
            assert(joined(all, seq![c]) =~= s);
            assert forall|i: int| 0 <= i < all.len() implies !(#[trigger] all[i]).contains(c) by {
                if i > 0 {
                    assert(all[i] == rest[i - 1]);
                }
            }
        },
        None => {},
    }
}

/// Joined texts grow by the separator and the next text.
pub proof fn law_joined_grows(list: Seq<Seq<char>>, separator: Seq<char>, item: Seq<char>)
    ensures
        joined(Seq::<Seq<char>>::empty(), separator) == Seq::<char>::empty(),
        joined(seq![item], separator) == item,
        list.len() > 0 ==> joined(list.push(item), separator) == joined(list, separator)
            + separator + item,
{
    assert(list.push(item).drop_last() =~= list);
}

/// A text is trimmed by taking white space off both ends, and all of it: what is taken off is
/// white space, and what is left neither begins nor ends with it.
pub proof fn law_trimming_takes_white_space_off(s: Seq<char>) -> (ends: (Seq<char>, Seq<char>))
    ensures
        s == ends.0 + trimmed(s) + ends.1,
        forall|i: int| 0 <= i < ends.0.len() ==> platform::is_whitespace_char(#[trigger] ends.0[i]),
        forall|i: int| 0 <= i < ends.1.len() ==> platform::is_whitespace_char(#[trigger] ends.1[i]),
        trimmed(s).len() > 0 ==> !platform::is_whitespace_char(trimmed(s)[0])
            && !platform::is_whitespace_char(trimmed(s)[trimmed(s).len() - 1]),
    decreases s.len(),
{
    if s.len() == 0 {
        assert(s =~= s + s + s);
        (s, s)
    } else if platform::is_whitespace_char(s[0]) {
        let (a, b) = law_trimming_takes_white_space_off(s.skip(1));
        let front = seq![s[0]] + a;
        assert(s =~= seq![s[0]] + s.skip(1));
        assert(s =~= front + trimmed(s) + b);
        (front, b)
    } else if platform::is_whitespace_char(s.last()) {
        let (a, b) = law_trimming_takes_white_space_off(s.drop_last());
        let back = b.push(s.last());
        assert(s =~= s.drop_last().push(s.last()));
        assert(s =~= a + trimmed(s) + back);
        (a, back)
    } else {
        let none = Seq::<char>::empty();
        assert(s =~= none + s + none);
        (none, none)
    }
}

/// Texts are ordered by the first character in which they differ, and a text comes before
/// those that it begins.
pub proof fn law_order_is_by_character(
    front: Seq<char>,
    a: char,
    b: char,
    x: Seq<char>,
    y: Seq<char>,
)
    requires
        a < b,
    ensures
        precedes(front + seq![a] + x, front + seq![b] + y),
        !precedes(front + seq![b] + y, front + seq![a] + x),
        precedes(front, front + seq![a] + x),
        !precedes(front + seq![a] + x, front),
        !precedes(front, front),
    decreases front.len(),
{
    let l = front + seq![a] + x;
    let r = front + seq![b] + y;
    if front.len() > 0 {
        law_order_is_by_character(front.skip(1), a, b, x, y);
        assert(l.skip(1) =~= front.skip(1) + seq![a] + x);
        assert(r.skip(1) =~= front.skip(1) + seq![b] + y);
    }
    lemma_precedes_irreflexive(front);
}

/// A row of digits is a number by its last digit and the number before it.
pub proof fn law_digits_count_in_tens(s: Seq<char>, d: nat)
    requires
        d < 10,
    ensures
        digits_value(Seq::<char>::empty()) == 0,
        digits_value(s.push(('0' as nat + d) as char)) == 10 * digits_value(s) + d,
{
    assert(s.push(('0' as nat + d) as char).drop_last() =~= s);
}

/// A text is read as a port number exactly where it is one: digits and nothing else, at least
/// one, not above 65535. A plus sign in front changes nothing.
pub proof fn law_numbers_are_read(s: Seq<char>)
    ensures
        (s.len() > 0 && (forall|i: int| 0 <= i < s.len() ==> '0' <= #[trigger] s[i] <= '9')
            && digits_value(s) <= 65535) ==> number_u16(s) == Some(digits_value(s) as u16)
            && number_u16(seq!['+'] + s) == Some(digits_value(s) as u16),
        number_u16(s) matches Some(n) ==> ({
            let digits = if s[0] == '+' {
                s.skip(1)
            } else {
                s
            };
            &&& digits.len() > 0
            &&& forall|i: int| 0 <= i < digits.len() ==> '0' <= #[trigger] digits[i] <= '9'
            &&& digits_value(digits) == n
        }),
{
    assert((seq!['+'] + s).skip(1) =~= s);
    if s.len() > 0 && (forall|i: int| 0 <= i < s.len() ==> '0' <= #[trigger] s[i] <= '9') {
        assert('0' <= s[0] <= '9');
        assert(all_digits(s));
    }
    if number_u16(s) is Some {
        let digits = if s.len() > 0 && s[0] == '+' {
            s.skip(1)
        } else {
            s
        };
        assert forall|i: int| 0 <= i < digits.len() implies '0' <= #[trigger] digits[i] <= '9' by {
            assert(is_digit(digits[i]));
        }
    }
}

/// A number in decimal is a row of digits for that number, without a zero in front, but for
/// the number zero.
pub proof fn law_decimal_is_the_number(n: nat)
    ensures
        decimal(n).len() > 0,
        forall|i: int| 0 <= i < decimal(n).len() ==> '0' <= #[trigger] decimal(n)[i] <= '9',
        digits_value(decimal(n)) == n,
        n > 0 ==> decimal(n)[0] != '0',
        decimal(0) == seq!['0'],
    decreases n,
{
    lemma_decimal_digits(n);
    assert forall|i: int| 0 <= i < decimal(n).len() implies '0' <= #[trigger] decimal(n)[i]
        <= '9' by {
        assert(is_digit(decimal(n)[i]));
    }
    if n >= 10 {
        law_decimal_is_the_number(n / 10);
        assert(decimal(n)[0] == decimal(n / 10)[0]);
    } else {
        assert(decimal(n)[0] == digit_char(n));
    }
    assert(decimal(0) =~= seq!['0']);
}

} // verus!
