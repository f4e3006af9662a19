//! Text compared as the standard library compares strings: by code points.

use vstd::prelude::*;
use vstd::std_specs::iter::IteratorSpec;

verus! {

/// `a` and `b` agree on their first `k` characters, and `b` goes on.
pub open spec fn first_difference(a: Seq<char>, b: Seq<char>, k: int) -> bool {
    &&& 0 <= k <= a.len()
    &&& k < b.len()
    &&& forall|i: int| 0 <= i < k ==> a[i] == b[i]
}

/// `a` comes before `b` in the lexicographic order of code points: they agree
/// up to some position, where `a` ends first or has the smaller code point.
pub open spec fn before(a: Seq<char>, b: Seq<char>) -> bool {
    exists|k: int| #[trigger] first_difference(a, b, k) && (k == a.len() || a[k] < b[k])
}

/// Every text comes before all that follow it; none occurs twice.
pub open spec fn increasing(texts: Seq<Seq<char>>) -> bool {
    forall|i: int, j: int| 0 <= i < j < texts.len() ==> before(#[trigger] texts[i], #[trigger] texts[j])
}

/// The contents of a list of strings.
pub open spec fn texts(strings: Seq<String>) -> Seq<Seq<char>> {
    Seq::new(strings.len(), |i: int| strings[i]@)
}

/// The order is transitive.
pub proof fn law_order_is_transitive(a: Seq<char>, b: Seq<char>, c: Seq<char>)
    requires
        before(a, b),
        before(b, c),
    ensures
        before(a, c),
{
    let k = choose|k: int| #[trigger] first_difference(a, b, k) && (k == a.len() || a[k] < b[k]);
    let m = choose|m: int| #[trigger] first_difference(b, c, m) && (m == b.len() || b[m] < c[m]);
    let n = if k < m { k } else { m };
    assert(first_difference(a, c, n));
}

/// No text comes before itself, and of two texts at most one comes before the
/// other.
pub proof fn law_order_is_strict(a: Seq<char>, b: Seq<char>)
    ensures
        !before(a, a),
        before(a, b) ==> !before(b, a),
{
    if before(a, b) && before(b, a) {
        law_order_is_transitive(a, b, a);
    }
}

proof fn lemma_order_is_total_from(a: Seq<char>, b: Seq<char>, k: int)
    requires
        0 <= k <= a.len(),
        k <= b.len(),
        forall|i: int| 0 <= i < k ==> a[i] == b[i],
    ensures
        a == b || before(a, b) || before(b, a),
    decreases a.len() - k,
{
    if k == a.len() && k == b.len() {
        assert(a =~= b);
    } else if k == a.len() || (k < b.len() && a[k] < b[k]) {
        assert(first_difference(a, b, k));
    } else if k == b.len() || b[k] < a[k] {
        assert(first_difference(b, a, k));
    } else {
        lemma_order_is_total_from(a, b, k + 1);
    }
}

/// Of two different texts one comes before the other.
pub proof fn law_order_is_total(a: Seq<char>, b: Seq<char>)
    ensures
        a == b || before(a, b) || before(b, a),
{
    lemma_order_is_total_from(a, b, 0);
}

/// Two lists in increasing order that hold the same texts are the same list.
pub proof fn law_increasing_list_is_unique(a: Seq<Seq<char>>, b: Seq<Seq<char>>)
    requires
        increasing(a),
        increasing(b),
        forall|text: Seq<char>| a.contains(text) <==> b.contains(text),
    ensures
        a == b,
    decreases a.len(),
{
    if a.len() == 0 {
        if b.len() > 0 {
            assert(b.contains(b[0]));
        }
        assert(a =~= b);
    } else {
        assert(a.contains(a.last()));
        assert(b.contains(a.last()));
        assert(b.len() > 0);
        assert(b.contains(b.last()));
        assert(a.contains(b.last()));
        let i = choose|i: int| 0 <= i < a.len() && a[i] == b.last();
        let j = choose|j: int| 0 <= j < b.len() && b[j] == a.last();
        law_order_is_strict(a.last(), b.last());
        assert(a.last() == b.last());
        let a1 = a.drop_last();
        let b1 = b.drop_last();
        assert forall|text: Seq<char>| a1.contains(text) <==> b1.contains(text) by {
            law_order_is_strict(text, text);
            if a1.contains(text) {
                let p = choose|p: int| 0 <= p < a1.len() && a1[p] == text;
                assert(a[p] == text);
                assert(before(a[p], a[a.len() - 1]));
                assert(a.contains(text));
                let q = choose|q: int| 0 <= q < b.len() && b[q] == text;
                assert(q != b.len() - 1);
                assert(b1[q] == text);
            }
            if b1.contains(text) {
                let p = choose|p: int| 0 <= p < b1.len() && b1[p] == text;
                assert(b[p] == text);
                assert(before(b[p], b[b.len() - 1]));
                assert(b.contains(text));
                let q = choose|q: int| 0 <= q < a.len() && a[q] == text;
                assert(q != a.len() - 1);
                assert(a1[q] == text);
            }
        }
        law_increasing_list_is_unique(a1, b1);
        assert(a =~= a1.push(a.last()));
        assert(b =~= b1.push(b.last()));
    }
}

/// The list with `text` put before those that come after it.
spec fn put_in_order(list: Seq<Seq<char>>, text: Seq<char>) -> Seq<Seq<char>>
    decreases list.len(),
{
    if list.len() == 0 || before(list.last(), text) {
        list.push(text)
    } else {
        put_in_order(list.drop_last(), text).push(list.last())
    }
}

proof fn lemma_put_in_order(list: Seq<Seq<char>>, text: Seq<char>)
    requires
        increasing(list),
        !list.contains(text),
    ensures
        increasing(put_in_order(list, text)),
        forall|t: Seq<char>| #[trigger]
            put_in_order(list, text).contains(t) <==> list.contains(t) || t == text,
    decreases list.len(),
{
    let placed = put_in_order(list, text);
    if list.len() == 0 || before(list.last(), text) {
        assert forall|i: int, j: int| 0 <= i < j < placed.len() implies before(
            #[trigger] placed[i],
            #[trigger] placed[j],
        ) by {
            if j == list.len() && i < list.len() - 1 {
                law_order_is_transitive(list[i], list.last(), text);
            }
        }
        assert forall|t: Seq<char>| #[trigger] placed.contains(t) <==> list.contains(t) || t
            == text by {
            assert(placed[list.len() as int] == text);
            if list.contains(t) {
                let p = choose|p: int| 0 <= p < list.len() && list[p] == t;
                assert(placed[p] == t);
            }
        }
    } else {
        let front = list.drop_last();
        let last = list.last();
        assert(list.contains(last));
        assert(!front.contains(text)) by {
            if front.contains(text) {
                let p = choose|p: int| 0 <= p < front.len() && front[p] == text;
                assert(list[p] == text);
            }
        }
        lemma_put_in_order(front, text);
        let placed_front = put_in_order(front, text);
        law_order_is_total(last, text);
        assert forall|i: int, j: int| 0 <= i < j < placed.len() implies before(
            #[trigger] placed[i],
            #[trigger] placed[j],
        ) by {
            if j == placed_front.len() {
                assert(placed_front.contains(placed_front[i]));
                if placed_front[i] != text {
                    let p = choose|p: int| 0 <= p < front.len() && front[p] == placed_front[i];
                    assert(before(list[p], list[list.len() - 1]));
                }
            } else {
                assert(before(placed_front[i], placed_front[j]));
            }
        }
        assert forall|t: Seq<char>| #[trigger] placed.contains(t) <==> list.contains(t) || t
            == text by {
            if placed.contains(t) {
                let p = choose|p: int| 0 <= p < placed.len() && placed[p] == t;
                if p < placed_front.len() {
                    assert(placed_front[p] == t);
                    assert(placed_front.contains(t));
                    if t != text {
                        let q = choose|q: int| 0 <= q < front.len() && front[q] == t;
                        assert(list[q] == t);
                    }
                }
            }
            if list.contains(t) || t == text {
                if t == last {
                    assert(placed[placed_front.len() as int] == t);
                } else {
                    if list.contains(t) {
                        let q = choose|q: int| 0 <= q < list.len() && list[q] == t;
                        assert(front[q] == t);
                    }
                    assert(placed_front.contains(t));
                    let p = choose|p: int| 0 <= p < placed_front.len() && placed_front[p] == t;
                    assert(placed[p] == t);
                }
            }
        }
    }
}

/// For every list there is one in increasing order that holds the same texts.
pub proof fn law_increasing_list_exists(list: Seq<Seq<char>>) -> (sorted: Seq<Seq<char>>)
    ensures
        increasing(sorted),
        forall|t: Seq<char>| #[trigger] sorted.contains(t) <==> list.contains(t),
    decreases list.len(),
{
    if list.len() == 0 {
        list
    } else {
        let front = list.drop_last();
        let last = list.last();
        let rest = law_increasing_list_exists(front);
        let sorted = if rest.contains(last) {
            rest
        } else {
            lemma_put_in_order(rest, last);
            put_in_order(rest, last)
        };
        assert forall|t: Seq<char>| #[trigger] sorted.contains(t) <==> list.contains(t) by {
            assert(rest.contains(t) <==> front.contains(t));
            if front.contains(t) {
                let p = choose|p: int| 0 <= p < front.len() && front[p] == t;
                assert(list[p] == t);
            }
            if list.contains(t) {
                let p = choose|p: int| 0 <= p < list.len() && list[p] == t;
                if p < front.len() {
                    assert(front[p] == t);
                }
            }
            if t == last {
                assert(list[list.len() - 1] == t);
            }
        }
        sorted
    }
}

/// Whether two texts are equal.
pub fn text_eq(a: &str, b: &str) -> (equal: bool)
    ensures
        equal == (a@ == b@),
{
    let mut x: std::str::Chars<'_> = a.chars();
    let mut y: std::str::Chars<'_> = b.chars();
    let ghost mut i: int = 0;
    loop
        invariant
            0 <= i <= a@.len(),
            i <= b@.len(),
            x.remaining() == a@.skip(i),
            y.remaining() == b@.skip(i),
            forall|j: int| 0 <= j < i ==> a@[j] == b@[j],
        decreases a@.len() - i,
    {
        match (x.next(), y.next()) {
            (Some(c), Some(d)) => {
                assert(c == a@[i] && d == b@[i]);
                if c != d {
                    return false;
                }
                proof {
                    assert(a@.skip(i).drop_first() =~= a@.skip(i + 1));
                    assert(b@.skip(i).drop_first() =~= b@.skip(i + 1));
                    i = i + 1;
                }
            },
            (None, None) => {
                assert(a@ =~= b@);
                return true;
            },
            _ => {
                return false;
            },
        }
    }
}

/// Whether `a` comes before `b`.
pub fn text_before(a: &str, b: &str) -> (result: bool)
    ensures
        result == before(a@, b@),
{
    let mut x: std::str::Chars<'_> = a.chars();
    let mut y: std::str::Chars<'_> = b.chars();
    let ghost mut i: int = 0;
    loop
        invariant
            0 <= i <= a@.len(),
            i <= b@.len(),
            x.remaining() == a@.skip(i),
            y.remaining() == b@.skip(i),
            forall|j: int| 0 <= j < i ==> a@[j] == b@[j],
        decreases a@.len() - i,
    {
        match (x.next(), y.next()) {
            (Some(c), Some(d)) => {
                assert(c == a@[i] && d == b@[i]);
                if c < d {
                    assert(first_difference(a@, b@, i));
                    return true;
                }
                if d < c {
                    assert(first_difference(b@, a@, i));
                    proof {
                        law_order_is_strict(a@, b@);
                    }
                    return false;
                }
                proof {
                    assert(a@.skip(i).drop_first() =~= a@.skip(i + 1));
                    assert(b@.skip(i).drop_first() =~= b@.skip(i + 1));
                    i = i + 1;
                }
            },
            (None, Some(_)) => {
                assert(first_difference(a@, b@, i));
                return true;
            },
            (Some(_), None) => {
                assert(first_difference(b@, a@, i));
                proof {
                    law_order_is_strict(a@, b@);
                }
                return false;
            },
            (None, None) => {
                assert(a@ =~= b@);
                proof {
                    law_order_is_strict(a@, b@);
                }
                return false;
            },
        }
    }
}

/// Puts `item` at its place in an increasing list, unless it is there already.
fn insert_text(list: &mut Vec<String>, item: String)
    requires
        increasing(texts(old(list)@)),
    ensures
        increasing(texts(final(list)@)),
        forall|text: Seq<char>|
            #![trigger texts(final(list)@).contains(text)]
            texts(final(list)@).contains(text) <==> texts(old(list)@).contains(text) || text
                == item@,
{
    let ghost before_call = texts(list@);
    let mut at: usize = 0;
    while at < list.len() && text_before(list[at].as_str(), item.as_str())
        invariant
            at <= list@.len(),
            texts(list@) == before_call,
            forall|j: int| 0 <= j < at ==> before(#[trigger] texts(list@)[j], item@),
        decreases list@.len() - at,
    {
        at = at + 1;
    }
    if at < list.len() && text_eq(list[at].as_str(), item.as_str()) {
        assert(texts(list@)[at as int] == item@);
        return;
    }
    let ghost text = item@;
    list.insert(at, item);
    proof {
        let after = texts(list@);
        assert(after =~= before_call.insert(at as int, text));
        assert forall|j: int| at <= j < before_call.len() implies before(
            text,
            #[trigger] before_call[j],
        ) by {
            law_order_is_total(text, before_call[at as int]);
            if j > at {
                law_order_is_transitive(text, before_call[at as int], before_call[j]);
            }
        }
        assert forall|i: int, j: int| 0 <= i < j < after.len() implies before(
            #[trigger] after[i],
            #[trigger] after[j],
        ) by {
            let p = if i < at { i } else { i - 1 };
            let q = if j < at { j } else { j - 1 };
            if i != at {
                assert(after[i] == before_call[p]);
            }
            if j != at {
                assert(after[j] == before_call[q]);
            }
        }
        assert forall|t: Seq<char>| #[trigger] after.contains(t) <==> before_call.contains(t) || t
            == text by {
            if before_call.contains(t) {
                let p = choose|p: int| 0 <= p < before_call.len() && before_call[p] == t;
                assert(after[if p < at { p } else { p + 1 }] == t);
            }
            if t == text {
                assert(after[at as int] == t);
            }
            if after.contains(t) {
                let p = choose|p: int| 0 <= p < after.len() && after[p] == t;
                if p != at {
                    assert(before_call[if p < at { p } else { p - 1 }] == t);
                }
            }
        }
    }
}

/// The texts of a list in increasing order, each of them once.
pub fn sorted_unique(items: &Vec<String>) -> (sorted: Vec<String>)
    ensures
        increasing(texts(sorted@)),
        forall|text: Seq<char>|
            #![trigger texts(sorted@).contains(text)]
            texts(sorted@).contains(text) <==> texts(items@).contains(text),
{
    let mut sorted: Vec<String> = Vec::new();
    let mut i: usize = 0;
    while i < items.len()
        invariant
            i <= items@.len(),
            increasing(texts(sorted@)),
            forall|text: Seq<char>|
                #![trigger texts(sorted@).contains(text)]
                texts(sorted@).contains(text) <==> texts(items@).take(i as int).contains(text),
        decreases items@.len() - i,
    {
        insert_text(&mut sorted, items[i].clone());
        proof {
            let all = texts(items@);
            assert(all.take(i + 1) =~= all.take(i as int).push(all[i as int]));
            assert forall|text: Seq<char>| #[trigger]
                texts(sorted@).contains(text) <==> all.take(i + 1).contains(text) by {
                let old_part = all.take(i as int);
                let new_part = all.take(i + 1);
                if old_part.contains(text) {
                    let p = choose|p: int| 0 <= p < old_part.len() && old_part[p] == text;
                    assert(new_part[p] == text);
                }
                if new_part.contains(text) {
                    let p = choose|p: int| 0 <= p < new_part.len() && new_part[p] == text;
                    if p < i {
                        assert(old_part[p] == text);
                    }
                }
                assert(new_part[i as int] == items@[i as int]@);
            }
        }
        i = i + 1;
    }
    assert(texts(items@).take(items@.len() as int) =~= texts(items@));
    sorted
}

/// A text comes before every longer one that begins with it.
pub proof fn law_prefix_comes_first(a: Seq<char>, rest: Seq<char>)
    ensures
        before(a, a + rest) <==> rest.len() > 0,
        !before(a + rest, a),
{
    if rest.len() > 0 {
        assert(first_difference(a, a + rest, a.len() as int));
        law_order_is_strict(a, a + rest);
    } else {
        assert(a + rest =~= a);
        law_order_is_strict(a, a);
    }
}

/// Of two texts that begin alike, the one with the smaller character behind
/// that comes before the other, whatever follows.
pub proof fn law_first_difference_decides(
    start: Seq<char>,
    c: char,
    d: char,
    after_c: Seq<char>,
    after_d: Seq<char>,
)
    requires
        c != d,
    ensures
        before(start.push(c) + after_c, start.push(d) + after_d) <==> c < d,
{
    let a = start.push(c) + after_c;
    let b = start.push(d) + after_d;
    let k = start.len() as int;
    assert(a[k] == c && b[k] == d);
    if c < d {
        assert(first_difference(a, b, k));
    } else {
        assert(first_difference(b, a, k));
        law_order_is_strict(b, a);
    }
}

/// A list is in increasing order if each text comes before the next one.
pub proof fn law_increasing_goes_by_neighbours(list: Seq<Seq<char>>)
    ensures
        increasing(list) <==> forall|i: int|
            0 <= i < list.len() - 1 ==> before(#[trigger] list[i], list[i + 1]),
    decreases list.len(),
{
    if list.len() > 1 {
        let front = list.drop_last();
        let last = list.len() - 1;
        law_increasing_goes_by_neighbours(front);
        if forall|i: int| 0 <= i < list.len() - 1 ==> before(#[trigger] list[i], list[i + 1]) {
            assert forall|i: int| 0 <= i < front.len() - 1 implies before(
                #[trigger] front[i],
                front[i + 1],
            ) by {
                assert(before(list[i], list[i + 1]));
            }
            assert forall|i: int, j: int| 0 <= i < j < list.len() implies before(
                #[trigger] list[i],
                #[trigger] list[j],
            ) by {
                if j < last {
                    assert(before(front[i], front[j]));
                } else {
                    assert(before(list[last - 1], list[last - 1 + 1]));
                    if i < last - 1 {
                        assert(before(front[i], front[last - 1]));
                        law_order_is_transitive(list[i], list[last - 1], list[last]);
                    }
                }
            }
        }
    }
}

/// The contents of a list of strings are those of its strings, in order.
pub proof fn law_texts_are_those_of_the_strings(strings: Seq<String>, string: String)
    ensures
        texts(Seq::<String>::empty()).len() == 0,
        texts(strings.push(string)) == texts(strings).push(string@),
{
    assert(texts(strings.push(string)) =~= texts(strings).push(string@));
}

} // verus!
