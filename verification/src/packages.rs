//! The extra packages of an image: their canonical list, and how an image's label records it.

use crate::text;
use crate::text::{before, join, same, split, trim};
use vstd::prelude::*;

verus! {

/// The label under which an image records its extra packages.
pub const PACKAGES_LABEL_KEY: &'static str = "domcp.packages";

/// Whether the texts of a list stand in order, none of them twice.
pub open spec fn is_sorted(list: Seq<Seq<char>>) -> bool {
    forall|i: int, j: int|
        0 <= i < j < list.len() ==> text::precedes(#[trigger] list[i], #[trigger] list[j])
}

/// Whether a text is one of the named packages: not empty, and a name without the white
/// space around it.
pub open spec fn is_requested(packages: Seq<Seq<char>>, name: Seq<char>) -> bool {
    name.len() > 0 && exists|i: int|
        0 <= i < packages.len() && text::trimmed(#[trigger] packages[i]) == name
}

/// Whether a list holds the named packages, in order and none of them twice.
pub open spec fn is_canonical(list: Seq<Seq<char>>, packages: Seq<Seq<char>>) -> bool {
    &&& is_sorted(list)
    &&& forall|name: Seq<char>| #[trigger] list.contains(name) <==> is_requested(packages, name)
}

/// The named packages, in order and none of them twice.
pub open spec fn canonical(packages: Seq<Seq<char>>) -> Seq<Seq<char>> {
    choose|list: Seq<Seq<char>>| is_canonical(list, packages)
}

/// The label that records some packages.
pub open spec fn label(packages: Seq<Seq<char>>) -> Seq<char> {
    text::joined(canonical(packages), ","@)
}

/// The packages that a label records.
pub open spec fn label_packages(value: Seq<char>) -> Seq<Seq<char>> {
    canonical(text::pieces(text::trimmed(value), ','))
}

/// An ordered list without repetition is fixed by what it holds.
pub proof fn lemma_sorted_unique(a: Seq<Seq<char>>, b: Seq<Seq<char>>)
    requires
        is_sorted(a),
        is_sorted(b),
        forall|t: Seq<char>| a.contains(t) <==> b.contains(t),
    ensures
        a == b,
    decreases a.len(),
{
    if a.len() == 0 {
        if b.len() > 0 {
            assert(b.contains(b[0]));
            assert(a.contains(b[0]));
        }
        assert(a =~= b);
    } else {
        assert(a.contains(a[0]));
        assert(b.contains(a[0]));
        assert(b.contains(b[0]));
        assert(a.contains(b[0]));
        let i = choose|i: int| 0 <= i < b.len() && b[i] == a[0];
        let j = choose|j: int| 0 <= j < a.len() && a[j] == b[0];
        if a[0] != b[0] {
            assert(text::precedes(b[0], b[i]));
            assert(text::precedes(a[0], a[j]));
            text::lemma_precedes_transitive(a[0], b[0], a[0]);
            text::lemma_precedes_irreflexive(a[0]);
        }
        let x = a.skip(1);
        let y = b.skip(1);
        lemma_tail_holds_the_rest(a);
        lemma_tail_holds_the_rest(b);
        assert forall|t: Seq<char>| x.contains(t) <==> y.contains(t) by {
            assert(x.contains(t) <==> a.contains(t) && t != a[0]);
            assert(y.contains(t) <==> b.contains(t) && t != b[0]);
        }
        lemma_sorted_tail(a);
        lemma_sorted_tail(b);
        lemma_sorted_unique(x, y);
        assert(a =~= seq![a[0]] + x);
        assert(b =~= seq![b[0]] + y);
    }
}

/// The tail of an ordered list is ordered.
proof fn lemma_sorted_tail(a: Seq<Seq<char>>)
    requires
        is_sorted(a),
        a.len() > 0,
    ensures
        is_sorted(a.skip(1)),
{
    let x = a.skip(1);
    assert forall|i: int, j: int| 0 <= i < j < x.len() implies text::precedes(
        #[trigger] x[i],
        #[trigger] x[j],
    ) by {
        assert(text::precedes(a[i + 1], a[j + 1]));
    }
}

/// The tail of an ordered list holds all but the first text.
proof fn lemma_tail_holds_the_rest(a: Seq<Seq<char>>)
    requires
        is_sorted(a),
        a.len() > 0,
    ensures
        forall|t: Seq<char>|
            #[trigger] a.skip(1).contains(t) <==> a.contains(t) && t != a[0],
{
    let x = a.skip(1);
    assert forall|t: Seq<char>| #[trigger] x.contains(t) <==> a.contains(t) && t != a[0] by {
        if x.contains(t) {
            let k = choose|k: int| 0 <= k < x.len() && x[k] == t;
            assert(a[k + 1] == t);
            assert(text::precedes(a[0], a[k + 1]));
            text::lemma_precedes_irreflexive(t);
        }
        if a.contains(t) && t != a[0] {
            let k = choose|k: int| 0 <= k < a.len() && a[k] == t;
            assert(x[k - 1] == t);
        }
    }
}

/// There is only one canonical list of some packages.
pub proof fn lemma_canonical_unique(
    a: Seq<Seq<char>>,
    b: Seq<Seq<char>>,
    packages: Seq<Seq<char>>,
)
    requires
        is_canonical(a, packages),
        is_canonical(b, packages),
    ensures
        a == b,
{
    assert forall|t: Seq<char>| a.contains(t) <==> b.contains(t) by {
        assert(a.contains(t) <==> is_requested(packages, t));
        assert(b.contains(t) <==> is_requested(packages, t));
    }
    lemma_sorted_unique(a, b);
}

/// An ordered list with one more text in its place is ordered, and holds that text and
/// what it held.
proof fn lemma_insert_sorted(list: Seq<Seq<char>>, k: int, item: Seq<char>)
    requires
        is_sorted(list),
        0 <= k <= list.len(),
        forall|i: int| 0 <= i < k ==> text::precedes(#[trigger] list[i], item),
        k < list.len() ==> text::precedes(item, list[k]),
    ensures
        is_sorted(list.insert(k, item)),
        forall|t: Seq<char>|
            #[trigger] list.insert(k, item).contains(t) <==> list.contains(t) || t == item,
{
    let longer = list.insert(k, item);
    assert forall|i: int| k <= i < list.len() implies text::precedes(item, #[trigger] list[i]) by {
        if i > k {
            text::lemma_precedes_transitive(item, list[k], list[i]);
        }
    }
    assert forall|i: int, j: int| 0 <= i < j < longer.len() implies text::precedes(
        #[trigger] longer[i],
        #[trigger] longer[j],
    ) by {
        let a = if i < k { i } else { i - 1 };
        let b = if j < k { j } else { j - 1 };
        if i != k {
            assert(longer[i] == list[a]);
        }
        if j != k {
            assert(longer[j] == list[b]);
        }
    }
    assert forall|t: Seq<char>|
        #[trigger] longer.contains(t) <==> list.contains(t) || t == item by {
        if list.contains(t) {
            let i = choose|i: int| 0 <= i < list.len() && list[i] == t;
            assert(longer[if i < k { i } else { i + 1 }] == t);
        }
        if t == item {
            assert(longer[k] == t);
        }
        if longer.contains(t) {
            let i = choose|i: int| 0 <= i < longer.len() && longer[i] == t;
            if i != k {
                assert(list[if i < k { i } else { i - 1 }] == t);
            }
        }
    }
}

/// Puts a text in its place in an ordered list, unless it is there.
fn insert_sorted(list: &mut Vec<String>, item: String)
    requires
        is_sorted(old(list).deep_view()),
    ensures
        is_sorted(final(list).deep_view()),
        forall|t: Seq<char>|
            #[trigger] final(list).deep_view().contains(t) <==> old(list).deep_view().contains(t)
                || t == item@,
{
    let ghost texts = list.deep_view();
    let mut k: usize = 0;
    while k < list.len() && before(list[k].as_str(), item.as_str())
        invariant
            *list == *old(list),
            texts == list.deep_view(),
            k <= list.len(),
            forall|i: int| 0 <= i < k ==> text::precedes(#[trigger] texts[i], item@),
        decreases list.len() - k,
    {
        assert(texts[k as int] == list[k as int]@);
        k = k + 1;
    }
    if k < list.len() && same(list[k].as_str(), item.as_str()) {
        assert(texts[k as int] == item@);
        return;
    }
    proof {
        if k < list.len() {
            assert(texts[k as int] == list[k as int]@);
            text::lemma_precedes_total(texts[k as int], item@);
        }
        lemma_insert_sorted(texts, k as int, item@);
    }
    list.insert(k, item);
    assert(list.deep_view() =~= texts.insert(k as int, item@));
}

/// One more package adds its name, where it has one.
proof fn lemma_is_requested_push(packages: Seq<Seq<char>>, package: Seq<char>)
    ensures
        forall|name: Seq<char>|
            #[trigger] is_requested(packages.push(package), name) <==> is_requested(packages, name)
                || (name == text::trimmed(package) && name.len() > 0),
{
    let more = packages.push(package);
    assert forall|name: Seq<char>|
        #[trigger] is_requested(more, name) <==> is_requested(packages, name) || (name
            == text::trimmed(package) && name.len() > 0) by {
        if is_requested(packages, name) {
            let i = choose|i: int|
                0 <= i < packages.len() && text::trimmed(#[trigger] packages[i]) == name;
            assert(text::trimmed(more[i]) == name);
        }
        if name == text::trimmed(package) && name.len() > 0 {
            assert(text::trimmed(more[packages.len() as int]) == name);
        }
        if is_requested(more, name) {
            let i = choose|i: int|
                0 <= i < more.len() && text::trimmed(#[trigger] more[i]) == name;
            if i < packages.len() {
                assert(text::trimmed(packages[i]) == name);
            }
        }
    }
}

/// The named packages, trimmed, in order and none of them twice.
pub fn canonicalize(packages: &[String]) -> (r: Vec<String>)
    ensures
        is_canonical(r.deep_view(), packages.deep_view()),
        r.deep_view() == canonical(packages.deep_view()),
{
    let ghost texts = packages.deep_view();
    let mut out: Vec<String> = Vec::new();
    for i in 0..packages.len()
        invariant
            texts == packages.deep_view(),
            is_canonical(out.deep_view(), texts.take(i as int)),
    {
        let trimmed = trim(packages[i].as_str());
        proof {
            assert(texts.take(i as int).push(texts[i as int]) =~= texts.take(i + 1));
            lemma_is_requested_push(texts.take(i as int), texts[i as int]);
        }
        if !trimmed.is_empty() {
            insert_sorted(&mut out, trimmed.to_owned());
        }
    }
    proof {
        assert(texts.take(packages.len() as int) =~= texts);
        lemma_canonical_unique(out.deep_view(), canonical(texts), texts);
    }
    out
}

/// The label that records some packages.
pub fn label_value(packages: &[String]) -> (r: String)
    ensures
        r@ == label(packages.deep_view()),
{
    let list = canonicalize(packages);
    join(list.as_slice(), ",")
}

/// The packages that a label records.
pub fn parse_label_value(value: &str) -> (r: Option<Vec<String>>)
    ensures
        r.deep_view() == Some(label_packages(value@)),
{
    let trimmed = trim(value);
    let raw = split(trimmed, ',');
    Some(canonicalize(raw.as_slice()))
}

/// An ordered list has a place for every text that it does not hold.
proof fn lemma_insertion_place(list: Seq<Seq<char>>, item: Seq<char>) -> (k: int)
    requires
        is_sorted(list),
        !list.contains(item),
    ensures
        0 <= k <= list.len(),
        forall|i: int| 0 <= i < k ==> text::precedes(#[trigger] list[i], item),
        k < list.len() ==> text::precedes(item, list[k]),
    decreases list.len(),
{
    if list.len() == 0 {
        0
    } else {
        assert(list.contains(list[0]));
        text::lemma_precedes_total(list[0], item);
        if text::precedes(item, list[0]) {
            0
        } else {
            let rest = list.skip(1);
            lemma_sorted_tail(list);
            assert forall|i: int| 0 <= i < rest.len() implies rest[i] != item by {
                assert(list.contains(list[i + 1]));
            }
            let k = lemma_insertion_place(rest, item);
            assert forall|i: int| 0 <= i < k + 1 implies text::precedes(
                #[trigger] list[i],
                item,
            ) by {
                if i > 0 {
                    assert(text::precedes(rest[i - 1], item));
                }
            }
            k + 1
        }
    }
}

/// Any packages have a canonical list.
pub proof fn lemma_canonical_exists(packages: Seq<Seq<char>>)
    ensures
        is_canonical(canonical(packages), packages),
    decreases packages.len(),
{
    if packages.len() == 0 {
        assert(is_canonical(Seq::empty(), packages));
    } else {
        let fewer = packages.drop_last();
        let package = packages.last();
        let list = canonical(fewer);
        let name = text::trimmed(package);
        lemma_canonical_exists(fewer);
        lemma_is_requested_push(fewer, package);
        assert(fewer.push(package) =~= packages);
        if name.len() == 0 || list.contains(name) {
            assert(is_canonical(list, packages));
        } else {
            let k = lemma_insertion_place(list, name);
            lemma_insert_sorted(list, k, name);
            assert(is_canonical(list.insert(k, name), packages));
        }
    }
}

/// The texts of a canonical list are not empty, and trimming leaves them as they are.
proof fn lemma_canonical_texts(packages: Seq<Seq<char>>)
    ensures
        forall|i: int|
            #![trigger canonical(packages)[i]]
            0 <= i < canonical(packages).len() ==> {
                let name = canonical(packages)[i];
                &&& is_requested(packages, name)
                &&& text::trimmed(name) == name
                &&& !crate::platform::is_whitespace_char(name[0])
                &&& !crate::platform::is_whitespace_char(name.last())
            },
{
    let list = canonical(packages);
    lemma_canonical_exists(packages);
    assert forall|i: int| #![trigger list[i]] 0 <= i < list.len() implies {
        let name = list[i];
        &&& is_requested(packages, name)
        &&& text::trimmed(name) == name
        &&& !crate::platform::is_whitespace_char(name[0])
        &&& !crate::platform::is_whitespace_char(name.last())
    } by {
        let name = list[i];
        assert(list.contains(name));
        let j = choose|j: int|
            0 <= j < packages.len() && text::trimmed(#[trigger] packages[j]) == name;
        text::lemma_trimmed_ends(packages[j]);
    }
}

/// The canonical list depends only on which packages are named: not on their order, on how
/// often one is named, nor on the white space around a name.
pub proof fn law_canonical_by_names(packages: Seq<Seq<char>>, others: Seq<Seq<char>>)
    requires
        forall|name: Seq<char>| is_requested(packages, name) <==> is_requested(others, name),
    ensures
        canonical(packages) == canonical(others),
        label(packages) == label(others),
{
    lemma_canonical_exists(packages);
    lemma_canonical_exists(others);
    let list = canonical(others);
    assert forall|name: Seq<char>|
        #[trigger] list.contains(name) <==> is_requested(packages, name) by {
        assert(is_requested(others, name) <==> is_requested(packages, name));
    }
    lemma_canonical_unique(canonical(packages), list, packages);
}

/// A canonical list is its own canonical list.
pub proof fn law_canonical_is_stable(packages: Seq<Seq<char>>)
    ensures
        canonical(canonical(packages)) == canonical(packages),
{
    let list = canonical(packages);
    lemma_canonical_exists(packages);
    lemma_canonical_texts(packages);
    assert forall|name: Seq<char>| #[trigger] list.contains(name) <==> is_requested(list, name) by {
        if list.contains(name) {
            let i = choose|i: int| 0 <= i < list.len() && list[i] == name;
            assert(text::trimmed(list[i]) == name);
        }
        if is_requested(list, name) {
            let i = choose|i: int| 0 <= i < list.len() && text::trimmed(#[trigger] list[i]) == name;
            assert(list[i] == name);
        }
    }
    lemma_canonical_exists(list);
    lemma_canonical_unique(list, canonical(list), list);
}

/// A label gives back the packages that it was made for, so long as no name holds a comma.
pub proof fn law_label_gives_packages_back(packages: Seq<Seq<char>>)
    requires
        forall|i: int|
            0 <= i < packages.len() ==> !text::trimmed(#[trigger] packages[i]).contains(','),
    ensures
        label_packages(label(packages)) == canonical(packages),
{
    let list = canonical(packages);
    let value = label(packages);
    lemma_canonical_texts(packages);
    reveal_strlit(",");
    assert(","@ =~= seq![',']);
    if list.len() == 0 {
        assert(text::trimmed(value) == value);
        text::lemma_no_halves(value, ',');
        let only = text::pieces(value, ',');
        assert(only =~= seq![value]);
        assert forall|name: Seq<char>| !is_requested(only, name) by {
            if is_requested(only, name) {
                let i = choose|i: int|
                    0 <= i < only.len() && text::trimmed(#[trigger] only[i]) == name;
                assert(only[i] == value);
            }
        }
        lemma_canonical_exists(only);
        if canonical(only).len() > 0 {
            assert(canonical(only).contains(canonical(only)[0]));
        }
        assert(canonical(only) =~= list);
    } else {
        assert forall|i: int| 0 <= i < list.len() implies !(#[trigger] list[i]).contains(',')
            && list[i].len() > 0 by {
            let j = choose|j: int|
                0 <= j < packages.len() && text::trimmed(#[trigger] packages[j]) == list[i];
        }
        text::lemma_joined_ends(list, seq![',']);
        assert(!crate::platform::is_whitespace_char(list[list.len() - 1].last()));
        assert(text::trimmed(value) == value);
        text::lemma_pieces_of_joined(list, ',');
        law_canonical_is_stable(packages);
    }
}

/// The canonical list holds every name that is asked for, without the white space around it,
/// and nothing else; it is in order, and so holds no name twice.
pub proof fn law_canonical_holds_what_is_asked_for(packages: Seq<Seq<char>>, name: Seq<char>)
    ensures
        canonical(packages).contains(name) <==> name.len() > 0 && exists|i: int|
            0 <= i < packages.len() && text::trimmed(#[trigger] packages[i]) == name,
        forall|i: int, j: int|
            0 <= i < j < canonical(packages).len() ==> text::precedes(
                #[trigger] canonical(packages)[i],
                #[trigger] canonical(packages)[j],
            ) && canonical(packages)[i] != canonical(packages)[j],
{
    lemma_canonical_exists(packages);
    let list = canonical(packages);
    assert(list.contains(name) <==> is_requested(packages, name));
    assert forall|i: int, j: int| 0 <= i < j < list.len() implies text::precedes(
        #[trigger] list[i],
        #[trigger] list[j],
    ) && list[i] != list[j] by {
        text::lemma_precedes_irreflexive(list[i]);
    }
}

/// A label is the canonical list with commas between the names, and nothing for an empty list.
pub proof fn law_labels_are_lists_with_commas(packages: Seq<Seq<char>>)
    ensures
        label(packages) == text::joined(canonical(packages), seq![',']),
        canonical(packages).len() == 0 ==> label(packages).len() == 0,
        !canonical(packages).any(|name: Seq<char>| name.contains(',')) && canonical(packages).len()
            > 0 ==> text::pieces(label(packages), ',') == canonical(packages),
{
    reveal_strlit(",");
    assert(","@ =~= seq![',']);
    let list = canonical(packages);
    if !list.any(|name: Seq<char>| name.contains(',')) && list.len() > 0 {
        assert forall|i: int| 0 <= i < list.len() implies !(#[trigger] list[i]).contains(',') by {
            let holds = |name: Seq<char>| name.contains(',');
            assert(!holds(list[i]));
        }
        text::lemma_pieces_of_joined(list, ',');
    }
}

/// A label is read as the names between its commas: every text that stands there, without the
/// white space around it, is a package, and no other is. What is no name is passed over.
pub proof fn law_labels_are_read_between_commas(items: Seq<Seq<char>>, name: Seq<char>)
    requires
        items.len() > 0,
        forall|i: int| 0 <= i < items.len() ==> !(#[trigger] items[i]).contains(','),
    ensures
        label_packages(text::joined(items, seq![','])).contains(name) <==> name.len() > 0
            && exists|i: int| 0 <= i < items.len() && text::trimmed(#[trigger] items[i]) == name,
{
    let value = text::joined(items, seq![',']);
    text::lemma_pieces_of_joined(items, ',');
    lemma_trimming_keeps_the_names(value, name);
    lemma_canonical_exists(text::pieces(text::trimmed(value), ','));
    assert(canonical(text::pieces(text::trimmed(value), ',')).contains(name) <==> is_requested(
        text::pieces(text::trimmed(value), ','),
        name,
    ));
}

/// White space around a label changes no name in it.
proof fn lemma_trimming_keeps_the_names(value: Seq<char>, name: Seq<char>)
    ensures
        is_requested(text::pieces(text::trimmed(value), ','), name) <==> is_requested(
            text::pieces(value, ','),
            name,
        ),
    decreases value.len(),
{
    if value.len() > 0 {
        if crate::platform::is_whitespace_char(value[0]) {
            lemma_trimming_keeps_the_names(value.skip(1), name);
            lemma_leading_space(value, name);
        } else if crate::platform::is_whitespace_char(value.last()) {
            let front = value.drop_last();
            lemma_trimming_keeps_the_names(front, name);
            assert(value =~= front.push(value.last()));
            lemma_pieces_push(front, value.last());
            let all = text::pieces(value, ',');
            let fewer = text::pieces(front, ',');
            lemma_trimmed_push(fewer.last(), value.last());
            lemma_same_names(all, fewer, fewer.len() - 1, name);
        }
    }
}

/// White space in front of a label changes no name in it.
proof fn lemma_leading_space(value: Seq<char>, name: Seq<char>)
    requires
        value.len() > 0,
        crate::platform::is_whitespace_char(value[0]),
    ensures
        is_requested(text::pieces(value, ','), name) <==> is_requested(
            text::pieces(value.skip(1), ','),
            name,
        ),
{
    let all = text::pieces(value, ',');
    let fewer = text::pieces(value.skip(1), ',');
    let first = seq![value[0]] + fewer[0];
    assert(all =~= fewer.update(0, first)) by {
        match text::halves(value.skip(1), ',') {
            Some((front, back)) => {},
            None => {
                assert(value =~= seq![value[0]] + value.skip(1));
            },
        }
    }
    assert(first.skip(1) =~= fewer[0]);
    lemma_same_names(all, fewer, 0, name);
}

/// A character other than a comma at the end of a label belongs to its last piece.
proof fn lemma_pieces_push(value: Seq<char>, c: char)
    requires
        c != ',',
    ensures
        text::pieces(value, ',').len() > 0,
        text::pieces(value.push(c), ',') == text::pieces(value, ',').drop_last().push(
            text::pieces(value, ',').last().push(c),
        ),
    decreases value.len(),
{
    let more = value.push(c);
    text::law_halves_make_up_the_text(value, ',');
    match text::halves(value, ',') {
        Some((front, back)) => {
            let i = front.len() as int;
            assert(value[i] == ',');
            assert(more[i] == ',');
            assert(more.take(i) =~= front);
            assert(more.skip(i + 1) =~= back.push(c));
            text::lemma_halves(more, ',', i);
            text::lemma_halves_shorter(value, ',');
            lemma_pieces_push(back, c);
            let rest = text::pieces(back, ',');
            assert(text::pieces(value, ',') == seq![front] + rest);
            assert(text::pieces(more, ',') == seq![front] + text::pieces(back.push(c), ','));
            assert(text::pieces(more, ',') =~= text::pieces(value, ',').drop_last().push(
                text::pieces(value, ',').last().push(c),
            ));
        },
        None => {
            assert forall|i: int| 0 <= i < more.len() implies more[i] != ',' by {
                if i < value.len() {
                    assert(value.contains(value[i]));
                }
            }
            text::lemma_no_halves(more, ',');
            assert(text::pieces(more, ',') =~= text::pieces(value, ',').drop_last().push(
                text::pieces(value, ',').last().push(c),
            ));
        },
    }
}

/// White space at the end of a text is trimmed.
proof fn lemma_trimmed_push(s: Seq<char>, c: char)
    requires
        crate::platform::is_whitespace_char(c),
    ensures
        text::trimmed(s.push(c)) == text::trimmed(s),
    decreases s.len(),
{
    let more = s.push(c);
    if s.len() == 0 {
        assert(more.skip(1) =~= s);
    } else if crate::platform::is_whitespace_char(s[0]) {
        lemma_trimmed_push(s.skip(1), c);
        assert(more.skip(1) =~= s.skip(1).push(c));
    } else {
        assert(more.drop_last() =~= s);
    }
}

/// Lists that differ in one text, and not in what is left of it when it is trimmed, name the
/// same packages.
proof fn lemma_same_names(a: Seq<Seq<char>>, b: Seq<Seq<char>>, k: int, name: Seq<char>)
    requires
        a.len() == b.len(),
        0 <= k < a.len(),
        forall|i: int| 0 <= i < a.len() && i != k ==> #[trigger] a[i] == b[i],
        text::trimmed(a[k]) == text::trimmed(b[k]),
    ensures
        is_requested(a, name) <==> is_requested(b, name),
{
    if is_requested(a, name) {
        let i = choose|i: int| 0 <= i < a.len() && text::trimmed(#[trigger] a[i]) == name;
        assert(text::trimmed(b[i]) == name);
    }
    if is_requested(b, name) {
        let i = choose|i: int| 0 <= i < b.len() && text::trimmed(#[trigger] b[i]) == name;
        assert(text::trimmed(a[i]) == name);
    }
}

} // verus!
