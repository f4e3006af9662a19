//! JSON data, and its canonical form: the same data with the entries of every
//! object in the order of their keys.

use vstd::prelude::*;

use crate::text::{
    before, increasing, law_increasing_list_exists, law_increasing_list_is_unique,
    law_order_is_strict, law_order_is_total, law_order_is_transitive, text_before, text_eq,
};

verus! {

/// `serde_json::Number`: a JSON number, carried through and never looked into.
#[verifier::external_type_specification]
#[verifier::external_body]
pub struct ExNumber(serde_json::Number);

/// JSON data. An object lists its entries in order.
#[derive(Debug, PartialEq)]
pub enum Json {
    Null,
    Bool(bool),
    Number(serde_json::Number),
    Text(String),
    Array(Vec<Json>),
    Object(Vec<(String, Json)>),
}

/// What a `Json` stands for.
#[verifier::ext_equal]
pub enum JsonView {
    Null,
    Bool(bool),
    Number(serde_json::Number),
    Text(Seq<char>),
    Array(Seq<JsonView>),
    Object(Seq<(Seq<char>, JsonView)>),
}

impl View for Json {
    type V = JsonView;

    open spec fn view(&self) -> JsonView {
        json_view(*self)
    }
}

/// The data that a `Json` holds, level by level.
pub open spec fn json_view(value: Json) -> JsonView
    decreases value,
{
    match value {
        Json::Null => JsonView::Null,
        Json::Bool(b) => JsonView::Bool(b),
        Json::Number(n) => JsonView::Number(n),
        Json::Text(text) => JsonView::Text(text@),
        Json::Array(items) => JsonView::Array(
            Seq::new(
                items@.len(),
                |i: int|
                    if 0 <= i < items@.len() {
                        json_view(items@[i])
                    } else {
                        JsonView::Null
                    },
            ),
        ),
        Json::Object(entries) => JsonView::Object(
            Seq::new(
                entries@.len(),
                |i: int|
                    if 0 <= i < entries@.len() {
                        (entries@[i].0@, json_view(entries@[i].1))
                    } else {
                        (seq![], JsonView::Null)
                    },
            ),
        ),
    }
}

/// What a list of items stands for.
pub open spec fn items_view(items: Seq<Json>) -> Seq<JsonView> {
    Seq::new(items.len(), |i: int| items[i]@)
}

/// What a list of entries stands for.
pub open spec fn entries_view(entries: Seq<(String, Json)>) -> Seq<(Seq<char>, JsonView)> {
    Seq::new(entries.len(), |i: int| (entries[i].0@, entries[i].1@))
}

/// The keys of an object, in order.
pub open spec fn keys(entries: Seq<(Seq<char>, JsonView)>) -> Seq<Seq<char>> {
    Seq::new(entries.len(), |i: int| entries[i].0)
}

/// No key occurs twice.
pub open spec fn distinct_keys(entries: Seq<(Seq<char>, JsonView)>) -> bool {
    forall|i: int, j: int|
        0 <= i < j < entries.len() ==> (#[trigger] entries[i]).0 != (#[trigger] entries[j]).0
}

/// In no object, at any depth, does a key occur twice.
pub open spec fn well_formed(value: JsonView) -> bool
    decreases value,
{
    match value {
        JsonView::Array(items) => forall|i: int|
            0 <= i < items.len() ==> well_formed(#[trigger] items[i]),
        JsonView::Object(entries) => {
            &&& distinct_keys(entries)
            &&& forall|i: int| 0 <= i < entries.len() ==> well_formed((#[trigger] entries[i]).1)
        },
        _ => true,
    }
}

/// `a` and `b` are the same data: they are equal but for the order of the
/// entries of objects, at any depth.
pub open spec fn same_json(a: JsonView, b: JsonView) -> bool
    decreases a,
{
    match (a, b) {
        (JsonView::Array(xs), JsonView::Array(ys)) => {
            &&& xs.len() == ys.len()
            &&& forall|i: int| 0 <= i < xs.len() ==> same_json(#[trigger] xs[i], ys[i])
        },
        (JsonView::Object(xs), JsonView::Object(ys)) => {
            &&& forall|i: int|
                #![trigger xs[i]]
                0 <= i < xs.len() ==> has_key(ys, xs[i].0) && same_json(
                    xs[i].1,
                    ys[position(ys, xs[i].0)].1,
                )
            &&& forall|j: int| 0 <= j < ys.len() ==> has_key(xs, (#[trigger] ys[j]).0)
        },
        _ => a == b,
    }
}

/// In every object, at any depth, the keys are in increasing order.
pub open spec fn keys_in_order(value: JsonView) -> bool
    decreases value,
{
    match value {
        JsonView::Array(items) => forall|i: int|
            0 <= i < items.len() ==> keys_in_order(#[trigger] items[i]),
        JsonView::Object(entries) => {
            &&& increasing(keys(entries))
            &&& forall|i: int| 0 <= i < entries.len() ==> keys_in_order((#[trigger] entries[i]).1)
        },
        _ => true,
    }
}

/// `form` is the same data as `value`, with its keys in order.
pub open spec fn is_canonical_form(form: JsonView, value: JsonView) -> bool {
    keys_in_order(form) && same_json(value, form)
}

/// The canonical form of `value`. A well-formed value has exactly one.
pub open spec fn canonical(value: JsonView) -> JsonView {
    choose|form: JsonView| is_canonical_form(form, value)
}

/// Some entry has this key.
pub open spec fn has_key(entries: Seq<(Seq<char>, JsonView)>, key: Seq<char>) -> bool {
    exists|i: int| is_position(entries, key, i)
}

/// The first entry with this key is at `i`.
pub open spec fn is_position(
    entries: Seq<(Seq<char>, JsonView)>,
    key: Seq<char>,
    i: int,
) -> bool {
    &&& 0 <= i < entries.len()
    &&& entries[i].0 == key
    &&& forall|j: int| 0 <= j < i ==> (#[trigger] entries[j]).0 != key
}

/// Where the first entry with this key is.
pub open spec fn position(entries: Seq<(Seq<char>, JsonView)>, key: Seq<char>) -> int {
    choose|i: int| is_position(entries, key, i)
}

/// The value under this key, if there is one.
pub open spec fn lookup(entries: Seq<(Seq<char>, JsonView)>, key: Seq<char>) -> Option<JsonView> {
    if has_key(entries, key) {
        Some(entries[position(entries, key)].1)
    } else {
        None
    }
}

/// The entries with `value` under `key`: in the place of the value that was
/// there, or at the end.
pub open spec fn with_entry(
    entries: Seq<(Seq<char>, JsonView)>,
    key: Seq<char>,
    value: JsonView,
) -> Seq<(Seq<char>, JsonView)> {
    if has_key(entries, key) {
        entries.update(position(entries, key), (key, value))
    } else {
        entries.push((key, value))
    }
}

proof fn lemma_position(entries: Seq<(Seq<char>, JsonView)>, i: int)
    requires
        distinct_keys(entries),
        0 <= i < entries.len(),
    ensures
        is_position(entries, entries[i].0, i),
        has_key(entries, entries[i].0),
        position(entries, entries[i].0) == i,
{
    lemma_position_is_unique(entries, entries[i].0, i);
}

proof fn lemma_position_is_unique(
    entries: Seq<(Seq<char>, JsonView)>,
    key: Seq<char>,
    i: int,
)
    requires
        is_position(entries, key, i),
    ensures
        has_key(entries, key),
        position(entries, key) == i,
{
    let p = position(entries, key);
    assert(is_position(entries, key, p));
    assert(p == i);
}

// Being the same data is an equivalence.

/// Every value is the same data as itself.
pub proof fn law_same_json_reflexive(a: JsonView)
    requires
        well_formed(a),
    ensures
        same_json(a, a),
    decreases a,
{
    match a {
        JsonView::Array(items) => {
            assert forall|i: int| 0 <= i < items.len() implies same_json(
                #[trigger] items[i],
                items[i],
            ) by {
                law_same_json_reflexive(items[i]);
            }
        },
        JsonView::Object(entries) => {
            assert forall|i: int|
                #![trigger entries[i]]
                0 <= i < entries.len() implies has_key(entries, entries[i].0) && same_json(
                entries[i].1,
                entries[position(entries, entries[i].0)].1,
            ) by {
                lemma_position(entries, i);
                law_same_json_reflexive(entries[i].1);
            }
        },
        _ => {},
    }
}

/// The order of the two does not matter.
pub proof fn law_same_json_symmetric(a: JsonView, b: JsonView)
    requires
        well_formed(a),
        well_formed(b),
        same_json(a, b),
    ensures
        same_json(b, a),
    decreases a,
{
    match (a, b) {
        (JsonView::Array(xs), JsonView::Array(ys)) => {
            assert forall|i: int| 0 <= i < ys.len() implies same_json(#[trigger] ys[i], xs[i]) by {
                assert(same_json(xs[i], ys[i]));
                law_same_json_symmetric(xs[i], ys[i]);
            }
        },
        (JsonView::Object(xs), JsonView::Object(ys)) => {
            assert forall|j: int|
                #![trigger ys[j]]
                0 <= j < ys.len() implies has_key(xs, ys[j].0) && same_json(
                ys[j].1,
                xs[position(xs, ys[j].0)].1,
            ) by {
                let i = position(xs, ys[j].0);
                assert(is_position(xs, ys[j].0, i));
                assert(same_json(xs[i].1, ys[position(ys, xs[i].0)].1));
                lemma_position(ys, j);
                law_same_json_symmetric(xs[i].1, ys[j].1);
            }
            assert forall|i: int| 0 <= i < xs.len() implies has_key(ys, (#[trigger] xs[i]).0) by {}
        },
        _ => {},
    }
}

/// Two values that are the same data as a third are the same data.
pub proof fn law_same_json_transitive(a: JsonView, b: JsonView, c: JsonView)
    requires
        same_json(a, b),
        same_json(b, c),
    ensures
        same_json(a, c),
    decreases a,
{
    match (a, b, c) {
        (JsonView::Array(xs), JsonView::Array(ys), JsonView::Array(zs)) => {
            assert forall|i: int| 0 <= i < xs.len() implies same_json(#[trigger] xs[i], zs[i]) by {
                assert(same_json(xs[i], ys[i]));
                assert(same_json(ys[i], zs[i]));
                law_same_json_transitive(xs[i], ys[i], zs[i]);
            }
        },
        (JsonView::Object(xs), JsonView::Object(ys), JsonView::Object(zs)) => {
            assert forall|i: int|
                #![trigger xs[i]]
                0 <= i < xs.len() implies has_key(zs, xs[i].0) && same_json(
                xs[i].1,
                zs[position(zs, xs[i].0)].1,
            ) by {
                let j = position(ys, xs[i].0);
                assert(is_position(ys, xs[i].0, j));
                assert(same_json(ys[j].1, zs[position(zs, ys[j].0)].1));
                law_same_json_transitive(xs[i].1, ys[j].1, zs[position(zs, ys[j].0)].1);
            }
            assert forall|k: int| 0 <= k < zs.len() implies has_key(xs, (#[trigger] zs[k]).0) by {
                let j = position(ys, zs[k].0);
                assert(is_position(ys, zs[k].0, j));
                assert(has_key(xs, ys[j].0));
            }
        },
        _ => {},
    }
}

/// Keys in order do not repeat.
proof fn lemma_ordered_is_well_formed(value: JsonView)
    requires
        keys_in_order(value),
    ensures
        well_formed(value),
    decreases value,
{
    match value {
        JsonView::Array(items) => {
            assert forall|i: int| 0 <= i < items.len() implies well_formed(#[trigger] items[i]) by {
                lemma_ordered_is_well_formed(items[i]);
            }
        },
        JsonView::Object(entries) => {
            assert forall|i: int, j: int| 0 <= i < j < entries.len() implies (
            #[trigger] entries[i]).0 != (#[trigger] entries[j]).0 by {
                assert(before(keys(entries)[i], keys(entries)[j]));
                law_order_is_strict(entries[i].0, entries[j].0);
            }
            assert forall|i: int| 0 <= i < entries.len() implies well_formed(
                (#[trigger] entries[i]).1,
            ) by {
                lemma_ordered_is_well_formed(entries[i].1);
            }
        },
        _ => {},
    }
}

/// Two values with their keys in order that are the same data are equal.
proof fn lemma_ordered_is_unique(a: JsonView, b: JsonView)
    requires
        keys_in_order(a),
        keys_in_order(b),
        same_json(a, b),
    ensures
        a == b,
    decreases a,
{
    match (a, b) {
        (JsonView::Array(xs), JsonView::Array(ys)) => {
            assert forall|i: int| 0 <= i < xs.len() implies #[trigger] xs[i] == ys[i] by {
                assert(same_json(xs[i], ys[i]));
                assert(keys_in_order(ys[i]));
                lemma_ordered_is_unique(xs[i], ys[i]);
            }
            assert(xs =~= ys);
        },
        (JsonView::Object(xs), JsonView::Object(ys)) => {
            lemma_ordered_is_well_formed(a);
            lemma_ordered_is_well_formed(b);
            lemma_same_keys(a, b, xs, ys);
            law_increasing_list_is_unique(keys(xs), keys(ys));
            assert(keys(xs).len() == keys(ys).len());
            assert forall|i: int| 0 <= i < xs.len() implies #[trigger] xs[i] == ys[i] by {
                assert(keys(xs)[i] == keys(ys)[i]);
                lemma_position(ys, i);
                assert(same_json(xs[i].1, ys[position(ys, xs[i].0)].1));
                lemma_ordered_is_unique(xs[i].1, ys[i].1);
            }
            assert(xs =~= ys);
        },
        _ => {},
    }
}

proof fn lemma_same_keys(
    a: JsonView,
    b: JsonView,
    xs: Seq<(Seq<char>, JsonView)>,
    ys: Seq<(Seq<char>, JsonView)>,
)
    requires
        a == JsonView::Object(xs),
        b == JsonView::Object(ys),
        same_json(a, b),
    ensures
        forall|key: Seq<char>| keys(xs).contains(key) <==> keys(ys).contains(key),
{
    assert(a->Object_0 == xs && b->Object_0 == ys);
    assert forall|key: Seq<char>| keys(xs).contains(key) <==> keys(ys).contains(key) by {
        if keys(xs).contains(key) {
            let i = choose|i: int| 0 <= i < xs.len() && keys(xs)[i] == key;
            assert(xs[i].0 == key);
            assert(has_key(ys, xs[i].0));
            let j = position(ys, key);
            assert(is_position(ys, key, j));
            assert(keys(ys)[j] == key);
        }
        if keys(ys).contains(key) {
            let j = choose|j: int| 0 <= j < ys.len() && keys(ys)[j] == key;
            assert(ys[j].0 == key);
            assert(has_key(xs, ys[j].0));
            let i = position(xs, key);
            assert(is_position(xs, key, i));
            assert(keys(xs)[i] == key);
        }
    }
}

/// Without a first entry with this key there is no entry with it.
proof fn lemma_no_key(entries: Seq<(Seq<char>, JsonView)>, key: Seq<char>)
    ensures
        has_key(entries, key) <==> exists|i: int|
            0 <= i < entries.len() && (#[trigger] entries[i]).0 == key,
    decreases entries.len(),
{
    if entries.len() > 0 {
        let front = entries.drop_last();
        lemma_no_key(front, key);
        if has_key(front, key) {
            let i = position(front, key);
            assert(is_position(front, key, i));
            assert(is_position(entries, key, i)) by {
                assert forall|j: int| 0 <= j < i implies (#[trigger] entries[j]).0 != key by {
                    assert(front[j].0 != key);
                }
            }
        } else if entries.last().0 == key {
            let i = entries.len() - 1;
            assert(is_position(entries, key, i)) by {
                assert forall|j: int| 0 <= j < i implies (#[trigger] entries[j]).0 != key by {
                    assert(front[j].0 != key);
                }
            }
        } else {
            assert forall|i: int| 0 <= i < entries.len() implies (#[trigger] entries[i]).0
                != key by {
                if i < front.len() {
                    assert(front[i].0 != key);
                }
            }
        }
    }
    if has_key(entries, key) {
        let i = position(entries, key);
        assert(is_position(entries, key, i));
    }
}

/// Entries with distinct keys can be put in order.
proof fn lemma_can_be_ordered(entries: Seq<(Seq<char>, JsonView)>) -> (ordered: Seq<
    (Seq<char>, JsonView),
>)
    requires
        distinct_keys(entries),
    ensures
        increasing(keys(ordered)),
        forall|e: (Seq<char>, JsonView)| #[trigger] ordered.contains(e) <==> entries.contains(e),
{
    let sorted = law_increasing_list_exists(keys(entries));
    let ordered = Seq::new(
        sorted.len(),
        |i: int| (sorted[i], entries[position(entries, sorted[i])].1),
    );
    assert(keys(ordered) =~= sorted);
    assert forall|e: (Seq<char>, JsonView)| #[trigger] ordered.contains(e) <==> entries.contains(
        e,
    ) by {
        if ordered.contains(e) {
            let p = choose|p: int| 0 <= p < ordered.len() && ordered[p] == e;
            assert(sorted.contains(sorted[p]));
            let q = choose|q: int| 0 <= q < entries.len() && keys(entries)[q] == sorted[p];
            lemma_position(entries, q);
            assert(entries[q] == e);
        }
        if entries.contains(e) {
            let q = choose|q: int| 0 <= q < entries.len() && entries[q] == e;
            lemma_position(entries, q);
            assert(keys(entries)[q] == e.0);
            assert(keys(entries).contains(e.0));
            assert(sorted.contains(e.0));
            let p = choose|p: int| 0 <= p < sorted.len() && sorted[p] == e.0;
            assert(ordered[p] == e);
        }
    }
    ordered
}

/// Every well-formed value has a canonical form.
proof fn lemma_canonical_form_exists(value: JsonView)
    requires
        well_formed(value),
    ensures
        is_canonical_form(canonical(value), value),
    decreases value,
{
    match value {
        JsonView::Array(items) => {
            let forms = Seq::new(items.len(), |i: int| canonical(items[i]));
            assert forall|i: int| 0 <= i < items.len() implies is_canonical_form(
                #[trigger] forms[i],
                items[i],
            ) by {
                assert(well_formed(items[i]));
                lemma_canonical_form_exists(items[i]);
            }
            let form = JsonView::Array(forms);
            assert(form->Array_0 == forms);
            assert(keys_in_order(form));
            assert forall|i: int| 0 <= i < items.len() implies same_json(
                #[trigger] items[i],
                forms[i],
            ) by {
                assert(is_canonical_form(forms[i], items[i]));
            }
            assert(same_json(value, form));
            assert(is_canonical_form(form, value));
        },
        JsonView::Object(entries) => {
            let forms = Seq::new(
                entries.len(),
                |i: int| (entries[i].0, canonical(entries[i].1)),
            );
            assert forall|i: int| 0 <= i < entries.len() implies is_canonical_form(
                (#[trigger] forms[i]).1,
                entries[i].1,
            ) by {
                assert(well_formed(entries[i].1));
                lemma_canonical_form_exists(entries[i].1);
            }
            assert(distinct_keys(forms)) by {
                assert forall|i: int, j: int| 0 <= i < j < forms.len() implies (
                #[trigger] forms[i]).0 != (#[trigger] forms[j]).0 by {
                    assert(entries[i].0 != entries[j].0);
                }
            }
            let ordered = lemma_can_be_ordered(forms);
            let form = JsonView::Object(ordered);
            assert(form->Object_0 == ordered);
            assert forall|j: int| 0 <= j < ordered.len() implies keys_in_order(
                (#[trigger] ordered[j]).1,
            ) && has_key(entries, ordered[j].0) by {
                assert(ordered.contains(ordered[j]));
                let p = choose|p: int| 0 <= p < forms.len() && forms[p] == ordered[j];
                assert(is_canonical_form(forms[p].1, entries[p].1));
                lemma_position(entries, p);
            }
            assert(keys_in_order(form));
            lemma_ordered_is_well_formed(form);
            assert forall|i: int|
                #![trigger entries[i]]
                0 <= i < entries.len() implies has_key(ordered, entries[i].0) && same_json(
                entries[i].1,
                ordered[position(ordered, entries[i].0)].1,
            ) by {
                assert(forms.contains(forms[i]));
                assert(ordered.contains(forms[i]));
                let p = choose|p: int| 0 <= p < ordered.len() && ordered[p] == forms[i];
                lemma_position(ordered, p);
                assert(is_canonical_form(forms[i].1, entries[i].1));
            }
            assert(same_json(value, form));
            assert(is_canonical_form(form, value));
        },
        _ => {
            assert(is_canonical_form(value, value));
        },
    }
}

/// A well-formed value has exactly one canonical form: the same data, with
/// its keys in order.
pub proof fn law_canonical_form(value: JsonView, form: JsonView)
    requires
        well_formed(value),
    ensures
        is_canonical_form(form, value) <==> form == canonical(value),
        well_formed(canonical(value)),
{
    lemma_canonical_form_exists(value);
    let chosen = canonical(value);
    lemma_ordered_is_well_formed(chosen);
    if is_canonical_form(form, value) {
        lemma_ordered_is_well_formed(form);
        law_same_json_symmetric(value, chosen);
        law_same_json_transitive(chosen, value, form);
        lemma_ordered_is_unique(chosen, form);
    }
}

/// Two values have the same canonical form if and only if they are the same
/// data, whatever the order in which their entries were written.
pub proof fn law_canonical_form_decides_same_json(a: JsonView, b: JsonView)
    requires
        well_formed(a),
        well_formed(b),
    ensures
        canonical(a) == canonical(b) <==> same_json(a, b),
{
    law_canonical_form(a, canonical(a));
    law_canonical_form(b, canonical(b));
    if canonical(a) == canonical(b) {
        law_same_json_symmetric(b, canonical(b));
        law_same_json_transitive(a, canonical(a), b);
    }
    if same_json(a, b) {
        law_same_json_transitive(a, b, canonical(b));
        law_canonical_form(a, canonical(b));
    }
}

/// A canonical form is its own canonical form.
pub proof fn law_canonical_form_is_stable(value: JsonView)
    requires
        well_formed(value),
    ensures
        canonical(canonical(value)) == canonical(value),
{
    let form = canonical(value);
    law_canonical_form(value, form);
    law_same_json_reflexive(form);
    law_canonical_form(form, form);
}

/// After a value is put under a key, it is found there, and under any other
/// key what was there before.
pub proof fn law_set_entry_is_found(
    entries: Seq<(Seq<char>, JsonView)>,
    key: Seq<char>,
    value: JsonView,
    other: Seq<char>,
)
    ensures
        lookup(with_entry(entries, key, value), key) == Some(value),
        other != key ==> lookup(with_entry(entries, key, value), other) == lookup(entries, other),
{
    let after = with_entry(entries, key, value);
    lemma_no_key(entries, key);
    if has_key(entries, key) {
        let p = position(entries, key);
        assert(is_position(entries, key, p));
        assert(is_position(after, key, p)) by {
            assert forall|j: int| 0 <= j < p implies (#[trigger] after[j]).0 != key by {
                assert(entries[j].0 != key);
            }
        }
        lemma_position_is_unique(after, key, p);
    } else {
        let p = entries.len() as int;
        assert(is_position(after, key, p)) by {
            assert forall|j: int| 0 <= j < p implies (#[trigger] after[j]).0 != key by {
                assert(entries[j].0 != key);
            }
        }
        lemma_position_is_unique(after, key, p);
    }
    if other != key {
        if has_key(entries, other) {
            let p = position(entries, other);
            assert(is_position(entries, other, p));
            assert(is_position(after, other, p)) by {
                assert forall|j: int| 0 <= j < p implies (#[trigger] after[j]).0 != other by {
                    assert(entries[j].0 != other);
                }
            }
            lemma_position_is_unique(after, other, p);
        } else {
            lemma_no_key(entries, other);
            lemma_no_key(after, other);
            assert forall|j: int| 0 <= j < after.len() implies (#[trigger] after[j]).0 != other by {
                if j < entries.len() {
                    assert(entries[j].0 != other);
                }
            }
        }
    }
}

/// To put the same value under the same key again changes nothing.
pub proof fn law_set_entry_is_stable(
    entries: Seq<(Seq<char>, JsonView)>,
    key: Seq<char>,
    value: JsonView,
)
    ensures
        with_entry(with_entry(entries, key, value), key, value) == with_entry(entries, key, value),
{
    law_set_entry_is_found(entries, key, value, key);
    let after = with_entry(entries, key, value);
    let p = position(after, key);
    assert(is_position(after, key, p));
    assert(after.update(p, (key, value)) =~= after);
}

/// To put a value under a key gives no object a key twice.
pub proof fn law_set_entry_keeps_keys_distinct(
    entries: Seq<(Seq<char>, JsonView)>,
    key: Seq<char>,
    value: JsonView,
)
    requires
        well_formed(JsonView::Object(entries)),
        well_formed(value),
    ensures
        well_formed(JsonView::Object(with_entry(entries, key, value))),
{
    let after = with_entry(entries, key, value);
    assert(JsonView::Object(entries)->Object_0 == entries);
    assert(JsonView::Object(after)->Object_0 == after);
    lemma_no_key(entries, key);
    if has_key(entries, key) {
        assert(is_position(entries, key, position(entries, key)));
    }
    assert forall|i: int, j: int| 0 <= i < j < after.len() implies (#[trigger] after[i]).0 != (
    #[trigger] after[j]).0 by {
        assert(entries[i].0 == after[i].0);
        if j < entries.len() {
            assert(entries[j].0 == after[j].0);
        }
    }
    assert forall|i: int| 0 <= i < after.len() implies well_formed((#[trigger] after[i]).1) by {
        if i < entries.len() {
            assert(well_formed(entries[i].1));
        }
    }
}

/// `serde_json::Number::clone`: the copy is the same number.
#[verifier::external_body]
pub(crate) fn copy_number(number: &serde_json::Number) -> (copy: serde_json::Number)
    ensures
        copy == *number,
{
    number.clone()
}

/// A list stands for the list of what its items stand for, an object for that
/// of its entries.
pub proof fn lemma_views(value: Json)
    ensures
        value matches Json::Array(items) ==> value@ == JsonView::Array(items_view(items@)),
        value matches Json::Object(entries) ==> value@ == JsonView::Object(entries_view(entries@)),
{
    match value {
        Json::Array(items) => {
            assert(value@->Array_0 =~= items_view(items@));
        },
        Json::Object(entries) => {
            assert(value@->Object_0 =~= entries_view(entries@));
        },
        _ => {},
    }
}

/// A copy of a value.
pub fn copy_json(value: &Json) -> (copy: Json)
    ensures
        copy@ == value@,
    decreases value,
{
    proof {
        lemma_views(*value);
    }
    match value {
        Json::Null => Json::Null,
        Json::Bool(b) => Json::Bool(*b),
        Json::Number(number) => Json::Number(copy_number(number)),
        Json::Text(text) => Json::Text(text.clone()),
        Json::Array(items) => {
            let mut copies: Vec<Json> = Vec::new();
            let mut i: usize = 0;
            while i < items.len()
                invariant
                    value is Array,
                    *items == value->Array_0,
                    i <= items@.len(),
                    copies@.len() == i,
                    forall|j: int| 0 <= j < i ==> (#[trigger] copies@[j])@ == items@[j]@,
                decreases items@.len() - i,
            {
                copies.push(copy_json(&items[i]));
                i = i + 1;
            }
            assert(items_view(copies@) =~= items_view(items@));
            let copy: Json = Json::Array(copies);
            proof {
                lemma_views(copy);
            }
            copy
        },
        Json::Object(entries) => {
            let mut copies: Vec<(String, Json)> = Vec::new();
            let mut i: usize = 0;
            while i < entries.len()
                invariant
                    value is Object,
                    *entries == value->Object_0,
                    i <= entries@.len(),
                    copies@.len() == i,
                    forall|j: int|
                        0 <= j < i ==> (#[trigger] copies@[j]).0@ == entries@[j].0@ && copies@[j].1@
                            == entries@[j].1@,
                decreases entries@.len() - i,
            {
                copies.push((entries[i].0.clone(), copy_json(&entries[i].1)));
                i = i + 1;
            }
            assert(entries_view(copies@) =~= entries_view(entries@));
            let copy: Json = Json::Object(copies);
            proof {
                lemma_views(copy);
            }
            copy
        },
    }
}

/// Puts an entry at its place among entries that are in order.
fn put_entry(entries: &mut Vec<(String, Json)>, key: String, value: Json)
    requires
        increasing(keys(entries_view(old(entries)@))),
        !has_key(entries_view(old(entries)@), key@),
    ensures
        increasing(keys(entries_view(final(entries)@))),
        forall|e: (Seq<char>, JsonView)| #[trigger]
            entries_view(final(entries)@).contains(e) <==> entries_view(old(entries)@).contains(e)
                || e == (key@, value@),
{
    let ghost prior = entries_view(entries@);
    let mut at: usize = 0;
    while at < entries.len() && text_before(entries[at].0.as_str(), key.as_str())
        invariant
            at <= entries@.len(),
            entries_view(entries@) == prior,
            forall|j: int| 0 <= j < at ==> before((#[trigger] prior[j]).0, key@),
        decreases entries@.len() - at,
    {
        at = at + 1;
    }
    let ghost entry = (key@, value@);
    entries.insert(at, (key, value));
    proof {
        let after = entries_view(entries@);
        assert(after =~= prior.insert(at as int, entry));
        lemma_no_key(prior, entry.0);
        assert forall|j: int| at <= j < prior.len() implies before(
            entry.0,
            (#[trigger] prior[j]).0,
        ) by {
            law_order_is_total(entry.0, prior[at as int].0);
            if j > at {
                assert(before(keys(prior)[at as int], keys(prior)[j]));
                law_order_is_transitive(entry.0, prior[at as int].0, prior[j].0);
            }
        }
        assert forall|i: int, j: int| 0 <= i < j < after.len() implies before(
            #[trigger] keys(after)[i],
            #[trigger] keys(after)[j],
        ) by {
            let p = if i < at { i } else { i - 1 };
            let q = if j < at { j } else { j - 1 };
            if i != at {
                assert(after[i] == prior[p]);
            }
            if j != at {
                assert(after[j] == prior[q]);
            }
            if i != at && j != at {
                assert(before(keys(prior)[p], keys(prior)[q]));
            }
        }
        assert forall|e: (Seq<char>, JsonView)| #[trigger] after.contains(e) <==> prior.contains(e)
            || e == entry by {
            if prior.contains(e) {
                let p = choose|p: int| 0 <= p < prior.len() && prior[p] == e;
                assert(after[if p < at { p } else { p + 1 }] == e);
            }
            if e == entry {
                assert(after[at as int] == e);
            }
            if after.contains(e) {
                let p = choose|p: int| 0 <= p < after.len() && after[p] == e;
                if p != at {
                    assert(prior[if p < at { p } else { p - 1 }] == e);
                }
            }
        }
    }
}

/// The value with the entries of every object, at any depth, in the order of
/// their keys.
pub fn canonicalize_json(value: &Json) -> (form: Json)
    requires
        well_formed(value@),
    ensures
        form@ == canonical(value@),
        is_canonical_form(form@, value@),
    decreases value,
{
    proof {
        lemma_views(*value);
    }
    let form: Json = match value {
        Json::Array(items) => {
            let mut forms: Vec<Json> = Vec::new();
            let mut i: usize = 0;
            while i < items.len()
                invariant
                    value is Array,
                    *items == value->Array_0,
                    well_formed(value@),
                    value@ == JsonView::Array(items_view(items@)),
                    i <= items@.len(),
                    forms@.len() == i,
                    forall|j: int|
                        0 <= j < i ==> is_canonical_form((#[trigger] forms@[j])@, items@[j]@),
                decreases items@.len() - i,
            {
                assert(value@->Array_0[i as int] == items@[i as int]@);
                forms.push(canonicalize_json(&items[i]));
                i = i + 1;
            }
            let form: Json = Json::Array(forms);
            proof {
                lemma_views(form);
                let xs = items_view(items@);
                let ys = items_view(forms@);
                assert(value@->Array_0 == xs && form@->Array_0 == ys);
                assert forall|j: int| 0 <= j < xs.len() implies same_json(#[trigger] xs[j], ys[j])
                    && keys_in_order(ys[j]) by {
                    assert(is_canonical_form(forms@[j]@, items@[j]@));
                }
                assert forall|j: int| 0 <= j < ys.len() implies keys_in_order(#[trigger] ys[j]) by {
                    assert(same_json(xs[j], ys[j]));
                }
            }
            form
        },
        Json::Object(entries) => {
            let mut forms: Vec<(String, Json)> = Vec::new();
            let ghost xs = entries_view(entries@);
            let ghost done: Seq<(Seq<char>, JsonView)> = seq![];
            let mut i: usize = 0;
            while i < entries.len()
                invariant
                    value is Object,
                    *entries == value->Object_0,
                    well_formed(value@),
                    xs == entries_view(entries@),
                    value@ == JsonView::Object(xs),
                    i <= entries@.len(),
                    done.len() == i,
                    forall|j: int|
                        0 <= j < i ==> (#[trigger] done[j]).0 == xs[j].0 && is_canonical_form(
                            done[j].1,
                            xs[j].1,
                        ),
                    increasing(keys(entries_view(forms@))),
                    forall|e: (Seq<char>, JsonView)| #[trigger]
                        entries_view(forms@).contains(e) <==> done.contains(e),
                decreases entries@.len() - i,
            {
                assert(value@->Object_0 == xs);
                assert(xs[i as int].1 == entries@[i as int].1@);
                assert(well_formed(xs[i as int].1));
                let entry_form: Json = canonicalize_json(&entries[i].1);
                let ghost entry = (xs[i as int].0, entry_form@);
                proof {
                    let ys = entries_view(forms@);
                    lemma_no_key(ys, entry.0);
                    assert forall|j: int| 0 <= j < ys.len() implies (#[trigger] ys[j]).0
                        != entry.0 by {
                        assert(ys.contains(ys[j]));
                        let p = choose|p: int| 0 <= p < done.len() && done[p] == ys[j];
                        assert(xs[p].0 != xs[i as int].0);
                    }
                }
                put_entry(&mut forms, entries[i].0.clone(), entry_form);
                proof {
                    let prior = done;
                    done = done.push(entry);
                    assert forall|e: (Seq<char>, JsonView)| #[trigger]
                        entries_view(forms@).contains(e) <==> done.contains(e) by {
                        if prior.contains(e) {
                            let p = choose|p: int| 0 <= p < prior.len() && prior[p] == e;
                            assert(done[p] == e);
                        }
                        if done.contains(e) {
                            let p = choose|p: int| 0 <= p < done.len() && done[p] == e;
                            if p < prior.len() {
                                assert(prior[p] == e);
                            }
                        }
                        assert(done[i as int] == entry);
                    }
                }
                i = i + 1;
            }
            let form: Json = Json::Object(forms);
            proof {
                lemma_views(form);
                let ys = entries_view(forms@);
                assert(value@->Object_0 == xs && form@->Object_0 == ys);
                assert forall|j: int| 0 <= j < ys.len() implies keys_in_order((#[trigger] ys[j]).1)
                    && has_key(xs, ys[j].0) by {
                    assert(ys.contains(ys[j]));
                    let p = choose|p: int| 0 <= p < done.len() && done[p] == ys[j];
                    lemma_position(xs, p);
                }
                assert(keys_in_order(form@));
                lemma_ordered_is_well_formed(form@);
                assert forall|j: int|
                    #![trigger xs[j]]
                    0 <= j < xs.len() implies has_key(ys, xs[j].0) && same_json(
                    xs[j].1,
                    ys[position(ys, xs[j].0)].1,
                ) by {
                    assert(done.contains(done[j]));
                    assert(ys.contains(done[j]));
                    let p = choose|p: int| 0 <= p < ys.len() && ys[p] == done[j];
                    lemma_position(ys, p);
                }
            }
            form
        },
        Json::Null | Json::Bool(_) | Json::Number(_) | Json::Text(_) => copy_json(value),
    };
    proof {
        law_canonical_form(value@, form@);
    }
    form
}

/// The value under a key, if there is one.
pub fn find_entry<'a>(entries: &'a Vec<(String, Json)>, key: &str) -> (found: Option<&'a Json>)
    ensures
        match found {
            Some(value) => lookup(entries_view(entries@), key@) == Some(value@),
            None => lookup(entries_view(entries@), key@) is None,
        },
{
    let ghost all = entries_view(entries@);
    let mut i: usize = 0;
    while i < entries.len()
        invariant
            all == entries_view(entries@),
            i <= entries@.len(),
            forall|j: int| 0 <= j < i ==> (#[trigger] all[j]).0 != key@,
        decreases entries@.len() - i,
    {
        if text_eq(entries[i].0.as_str(), key) {
            proof {
                assert(all[i as int].0 == key@);
                lemma_position_is_unique(all, key@, i as int);
            }
            return Some(&entries[i].1);
        }
        assert(all[i as int].0 != key@);
        i = i + 1;
    }
    proof {
        lemma_no_key(all, key@);
    }
    None
}

/// Puts a value under a key: in the place of the one that was there, or at
/// the end.
pub fn set_entry(entries: &mut Vec<(String, Json)>, key: &str, value: Json)
    ensures
        entries_view(final(entries)@) == with_entry(entries_view(old(entries)@), key@, value@),
{
    let ghost all = entries_view(entries@);
    let mut i: usize = 0;
    while i < entries.len()
        invariant
            all == entries_view(entries@),
            all == entries_view(old(entries)@),
            i <= entries@.len(),
            forall|j: int| 0 <= j < i ==> (#[trigger] all[j]).0 != key@,
        decreases entries@.len() - i,
    {
        if text_eq(entries[i].0.as_str(), key) {
            proof {
                assert(all[i as int].0 == key@);
                lemma_position_is_unique(all, key@, i as int);
            }
            let ghost content = value@;
            entries.set(i, (key.to_string(), value));
            assert(entries_view(entries@) =~= all.update(i as int, (key@, content)));
            return;
        }
        assert(all[i as int].0 != key@);
        i = i + 1;
    }
    proof {
        lemma_no_key(all, key@);
    }
    let ghost content = value@;
    entries.push((key.to_string(), value));
    assert(entries_view(entries@) =~= all.push((key@, content)));
}

/// A value stands for all that is in it, at every level.
pub proof fn law_view_shows_all(value: Json)
    ensures
        value is Null <==> value@ is Null,
        value is Bool <==> value@ is Bool,
        value is Number <==> value@ is Number,
        value is Text <==> value@ is Text,
        value is Array <==> value@ is Array,
        value is Object <==> value@ is Object,
        value is Bool ==> value@->Bool_0 == value->Bool_0,
        value is Number ==> value@->Number_0 == value->Number_0,
        value is Text ==> value@->Text_0 == value->Text_0@,
        value is Array ==> value@->Array_0.len() == value->Array_0@.len() && forall|i: int|
            0 <= i < value->Array_0@.len() ==> #[trigger] value@->Array_0[i]
                == value->Array_0@[i]@,
        value is Object ==> value@->Object_0.len() == value->Object_0@.len() && forall|i: int|
            0 <= i < value->Object_0@.len() ==> #[trigger] value@->Object_0[i] == (
                value->Object_0@[i].0@,
                value->Object_0@[i].1@,
            ),
{
}

/// Entries stand for their keys and values, in order.
pub proof fn law_entries_view_shows_all(
    entries: Seq<(String, Json)>,
    key: String,
    value: Json,
)
    ensures
        entries_view(Seq::<(String, Json)>::empty()).len() == 0,
        entries_view(entries.push((key, value))) == entries_view(entries).push((key@, value@)),
{
    assert(entries_view(entries.push((key, value))) =~= entries_view(entries).push((key@, value@)));
}

/// Under a key the first value with that key is found, and nothing where no
/// entry has the key.
pub proof fn law_first_entry_with_the_key_counts(
    entries: Seq<(Seq<char>, JsonView)>,
    key: Seq<char>,
    i: int,
)
    ensures
        0 <= i < entries.len() && entries[i].0 == key && (forall|j: int|
            0 <= j < i ==> (#[trigger] entries[j]).0 != key) ==> lookup(entries, key) == Some(
            entries[i].1,
        ),
        lookup(entries, key) is None <==> forall|j: int|
            0 <= j < entries.len() ==> (#[trigger] entries[j]).0 != key,
{
    lemma_no_key(entries, key);
    if 0 <= i < entries.len() && entries[i].0 == key && (forall|j: int|
        0 <= j < i ==> (#[trigger] entries[j]).0 != key) {
        lemma_position_is_unique(entries, key, i);
    }
}

/// To put a value under a key changes the entry with that key where it is, or
/// adds one at the end; every other entry stays where and as it was.
pub proof fn law_set_entry_moves_nothing(
    entries: Seq<(Seq<char>, JsonView)>,
    key: Seq<char>,
    value: JsonView,
)
    ensures
        lookup(entries, key) is None ==> with_entry(entries, key, value) == entries.push(
            (key, value),
        ),
        lookup(entries, key) is Some ==> with_entry(entries, key, value).len() == entries.len()
            && forall|i: int|
            0 <= i < entries.len() ==> (#[trigger] with_entry(entries, key, value)[i]).0
                == entries[i].0 && (entries[i].0 != key ==> with_entry(entries, key, value)[i].1
                == entries[i].1),
{
    if has_key(entries, key) {
        assert(is_position(entries, key, position(entries, key)));
    }
}

/// An object is well-formed if it is so without its last entry, if the value of
/// that is and if its key is new; a list, if all its items are; anything else
/// is.
pub proof fn law_well_formed_grows(
    entries: Seq<(Seq<char>, JsonView)>,
    items: Seq<JsonView>,
    key: Seq<char>,
    value: JsonView,
)
    ensures
        well_formed(JsonView::Object(Seq::empty())),
        well_formed(JsonView::Object(entries.push((key, value)))) <==> well_formed(
            JsonView::Object(entries),
        ) && well_formed(value) && forall|i: int|
            0 <= i < entries.len() ==> (#[trigger] entries[i]).0 != key,
        well_formed(JsonView::Array(Seq::empty())),
        well_formed(JsonView::Array(items.push(value))) <==> well_formed(JsonView::Array(items))
            && well_formed(value),
        !(value is Array) && !(value is Object) ==> well_formed(value),
{
    let none = JsonView::Object(Seq::empty());
    assert(none->Object_0.len() == 0);
    let empty = JsonView::Array(Seq::empty());
    assert(empty->Array_0.len() == 0);
    let more = entries.push((key, value));
    assert(JsonView::Object(entries)->Object_0 == entries);
    assert(JsonView::Object(more)->Object_0 == more);
    assert(more[entries.len() as int] == (key, value));
    assert forall|i: int| 0 <= i < entries.len() implies #[trigger] more[i] == entries[i] by {}
    if well_formed(JsonView::Object(more)) {
        assert forall|i: int, j: int| 0 <= i < j < entries.len() implies (#[trigger] entries[i]).0
            != (#[trigger] entries[j]).0 by {
            assert(more[i].0 != more[j].0);
        }
        assert forall|i: int| 0 <= i < entries.len() implies well_formed((#[trigger] entries[i]).1)
            && entries[i].0 != key by {
            assert(well_formed(more[i].1));
            assert(more[i].0 != more[entries.len() as int].0);
        }
    }
    let longer = items.push(value);
    assert(JsonView::Array(items)->Array_0 == items);
    assert(JsonView::Array(longer)->Array_0 == longer);
    assert(longer[items.len() as int] == value);
    assert forall|i: int| 0 <= i < items.len() implies #[trigger] longer[i] == items[i] by {}
    if well_formed(JsonView::Array(longer)) {
        assert forall|i: int| 0 <= i < items.len() implies well_formed(#[trigger] items[i]) by {
            assert(well_formed(longer[i]));
        }
    }
}

/// Two objects are the same data if and only if under every key they have the
/// same data, or both have nothing.
pub proof fn law_same_objects_agree_on_every_key(
    xs: Seq<(Seq<char>, JsonView)>,
    ys: Seq<(Seq<char>, JsonView)>,
)
    requires
        well_formed(JsonView::Object(xs)),
        well_formed(JsonView::Object(ys)),
    ensures
        same_json(JsonView::Object(xs), JsonView::Object(ys)) <==> forall|key: Seq<char>|
            match #[trigger] lookup(xs, key) {
                Some(x) => lookup(ys, key) is Some && same_json(x, lookup(ys, key)->0),
                None => lookup(ys, key) is None,
            },
{
    let a = JsonView::Object(xs);
    let b = JsonView::Object(ys);
    assert(a->Object_0 == xs && b->Object_0 == ys);
    if same_json(a, b) {
        assert forall|key: Seq<char>|
            match #[trigger] lookup(xs, key) {
                Some(x) => lookup(ys, key) is Some && same_json(x, lookup(ys, key)->0),
                None => lookup(ys, key) is None,
            } by {
            if has_key(xs, key) {
                let i = position(xs, key);
                assert(is_position(xs, key, i));
                assert(has_key(ys, xs[i].0) && same_json(xs[i].1, ys[position(ys, xs[i].0)].1));
            }
            if has_key(ys, key) {
                let j = position(ys, key);
                assert(is_position(ys, key, j));
                assert(has_key(xs, ys[j].0));
            }
        }
    }
    if forall|key: Seq<char>|
        match #[trigger] lookup(xs, key) {
            Some(x) => lookup(ys, key) is Some && same_json(x, lookup(ys, key)->0),
            None => lookup(ys, key) is None,
        } {
        assert forall|i: int|
            #![trigger xs[i]]
            0 <= i < xs.len() implies has_key(ys, xs[i].0) && same_json(
            xs[i].1,
            ys[position(ys, xs[i].0)].1,
        ) by {
            lemma_position(xs, i);
            assert(lookup(xs, xs[i].0) == Some(xs[i].1));
        }
        assert forall|j: int| 0 <= j < ys.len() implies has_key(xs, (#[trigger] ys[j]).0) by {
            lemma_position(ys, j);
            assert(lookup(ys, ys[j].0) == Some(ys[j].1));
            assert(lookup(xs, ys[j].0) is Some);
        }
        assert(same_json(a, b));
    }
}

/// Two lists are the same data if and only if they are of the same length and
/// have the same data at every place.
pub proof fn law_same_lists_agree_at_every_place(xs: Seq<JsonView>, ys: Seq<JsonView>)
    ensures
        same_json(JsonView::Array(xs), JsonView::Array(ys)) <==> xs.len() == ys.len() && forall|
            i: int,
        |
            0 <= i < xs.len() ==> same_json(#[trigger] xs[i], ys[i]),
{
    assert(JsonView::Array(xs)->Array_0 == xs && JsonView::Array(ys)->Array_0 == ys);
}

/// What is neither a list nor an object is the same data as nothing but itself;
/// and lists, objects and the rest are never the same data.
pub proof fn law_same_scalars_are_equal(a: JsonView, b: JsonView)
    ensures
        !(a is Array) && !(a is Object) ==> (same_json(a, b) <==> a == b),
        a is Array && !(b is Array) ==> !same_json(a, b),
        a is Object && !(b is Object) ==> !same_json(a, b),
{
}

/// The canonical form of an object has as many entries, in the order of their
/// keys, each with the canonical form of the value that was under its key.
pub proof fn law_canonical_form_of_object(entries: Seq<(Seq<char>, JsonView)>, i: int)
    requires
        well_formed(JsonView::Object(entries)),
    ensures
        canonical(JsonView::Object(entries)) is Object,
        canonical(JsonView::Object(entries))->Object_0.len() == entries.len(),
        0 <= i < entries.len() - 1 ==> before(
            canonical(JsonView::Object(entries))->Object_0[i].0,
            canonical(JsonView::Object(entries))->Object_0[i + 1].0,
        ),
        0 <= i < entries.len() ==> lookup(
            canonical(JsonView::Object(entries))->Object_0,
            entries[i].0,
        ) == Some(canonical(entries[i].1)),
{
    let value = JsonView::Object(entries);
    assert(value->Object_0 == entries);
    let form = canonical(value);
    law_canonical_form(value, form);
    let sorted = form->Object_0;
    lemma_ordered_is_well_formed(form);
    lemma_same_keys(value, form, entries, sorted);
    assert(keys(entries).no_duplicates()) by {
        assert forall|p: int, q: int| 0 <= p < q < entries.len() implies keys(entries)[p]
            != keys(entries)[q] by {
            assert(entries[p].0 != entries[q].0);
        }
    }
    assert(keys(sorted).no_duplicates()) by {
        assert forall|p: int, q: int| 0 <= p < q < sorted.len() implies keys(sorted)[p] != keys(
            sorted,
        )[q] by {
            assert(sorted[p].0 != sorted[q].0);
        }
    }
    keys(entries).unique_seq_to_set();
    keys(sorted).unique_seq_to_set();
    assert(keys(entries).to_set() =~= keys(sorted).to_set());
    if 0 <= i < entries.len() - 1 {
        assert(before(keys(sorted)[i], keys(sorted)[i + 1]));
    }
    if 0 <= i < entries.len() {
        let p = position(sorted, entries[i].0);
        assert(has_key(sorted, entries[i].0) && same_json(entries[i].1, sorted[p].1));
        assert(is_position(sorted, entries[i].0, p));
        assert(keys_in_order(sorted[p].1));
        law_canonical_form(entries[i].1, sorted[p].1);
    }
}

/// The canonical form of a list is that of its items, each at its place.
pub proof fn law_canonical_form_of_list(items: Seq<JsonView>, i: int)
    requires
        well_formed(JsonView::Array(items)),
    ensures
        canonical(JsonView::Array(items)) is Array,
        canonical(JsonView::Array(items))->Array_0.len() == items.len(),
        0 <= i < items.len() ==> canonical(JsonView::Array(items))->Array_0[i] == canonical(
            items[i],
        ),
{
    let value = JsonView::Array(items);
    assert(value->Array_0 == items);
    let form = canonical(value);
    law_canonical_form(value, form);
    let forms = form->Array_0;
    if 0 <= i < items.len() {
        assert(same_json(items[i], forms[i]));
        assert(keys_in_order(forms[i]));
        law_canonical_form(items[i], forms[i]);
    }
}

/// What is neither a list nor an object is its own canonical form.
pub proof fn law_canonical_form_of_scalar(value: JsonView)
    requires
        !(value is Array),
        !(value is Object),
    ensures
        canonical(value) == value,
{
    law_canonical_form(value, canonical(value));
}

} // verus!
