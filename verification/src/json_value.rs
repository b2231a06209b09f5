//! JSON documents of imported language and theme packs, and the clean-up
//! and overlay rules applied to them: empty values are pruned, and a pack is
//! merged over the built-in one value by value, where empty values of the
//! pack never replace anything.
use vstd::prelude::*;

use crate::text::{chars_of, is_white_space, is_ws};

verus! {

/// A JSON value. Objects keep their members in order as key-value pairs.
#[derive(Debug, PartialEq)]
pub enum JsonValue {
    Null,
    Bool(bool),
    /// A number, kept in its textual form.
    Number(String),
    String(String),
    Array(Vec<JsonValue>),
    Object(Vec<(String, JsonValue)>),
}

/// The mathematical form of a [`JsonValue`].
pub enum JsonView {
    Null,
    Bool(bool),
    Number(Seq<char>),
    Str(Seq<char>),
    Array(Seq<JsonView>),
    Object(Seq<(Seq<char>, JsonView)>),
}

pub open spec fn json_view(v: JsonValue) -> JsonView
    decreases v,
{
    match v {
        JsonValue::Null => JsonView::Null,
        JsonValue::Bool(b) => JsonView::Bool(b),
        JsonValue::Number(n) => JsonView::Number(n@),
        JsonValue::String(s) => JsonView::Str(s@),
        JsonValue::Array(items) => JsonView::Array(items_view(items@)),
        JsonValue::Object(entries) => JsonView::Object(entries_view(entries@)),
    }
}

pub open spec fn items_view(s: Seq<JsonValue>) -> Seq<JsonView>
    decreases s,
{
    if s.len() == 0 {
        seq![]
    } else {
        seq![json_view(s[0])] + items_view(s.drop_first())
    }
}

pub open spec fn entries_view(s: Seq<(String, JsonValue)>) -> Seq<(Seq<char>, JsonView)>
    decreases s,
{
    if s.len() == 0 {
        seq![]
    } else {
        seq![(s[0].0@, json_view(s[0].1))] + entries_view(s.drop_first())
    }
}

impl View for JsonValue {
    type V = JsonView;

    open spec fn view(&self) -> JsonView {
        json_view(*self)
    }
}

/// The text holds nothing but white space (`str::trim().is_empty()`).
pub open spec fn is_blank(t: Seq<char>) -> bool {
    forall|i: int| 0 <= i < t.len() ==> is_ws(#[trigger] t[i])
}

/// A value counts as empty when it is `null`, a blank string, or an array or
/// object whose members are all empty.
pub open spec fn is_empty_value(v: JsonView) -> bool
    decreases v,
{
    match v {
        JsonView::Null => true,
        JsonView::Bool(_) => false,
        JsonView::Number(_) => false,
        JsonView::Str(t) => is_blank(t),
        JsonView::Array(items) => all_items_empty(items),
        JsonView::Object(entries) => all_entries_empty(entries),
    }
}

pub open spec fn all_items_empty(s: Seq<JsonView>) -> bool
    decreases s,
{
    s.len() == 0 || (is_empty_value(s[0]) && all_items_empty(s.drop_first()))
}

pub open spec fn all_entries_empty(s: Seq<(Seq<char>, JsonView)>) -> bool
    decreases s,
{
    s.len() == 0 || (is_empty_value(s[0].1) && all_entries_empty(s.drop_first()))
}

/// Pruning: every empty member is removed from arrays and objects, innermost
/// first; the flag says whether what is left is empty.
pub open spec fn prune(v: JsonView) -> (JsonView, bool)
    decreases v,
{
    match v {
        JsonView::Null => (v, true),
        JsonView::Bool(_) => (v, false),
        JsonView::Number(_) => (v, false),
        JsonView::Str(t) => (v, is_blank(t)),
        JsonView::Array(items) => {
            let kept = prune_items(items);
            (JsonView::Array(kept), kept.len() == 0)
        },
        JsonView::Object(entries) => {
            let kept = prune_entries(entries);
            (JsonView::Object(kept), kept.len() == 0)
        },
    }
}

/// The pruned members of an array that are not empty after pruning.
pub open spec fn prune_items(s: Seq<JsonView>) -> Seq<JsonView>
    decreases s,
{
    if s.len() == 0 {
        seq![]
    } else {
        let p = prune(s[0]);
        let rest = prune_items(s.drop_first());
        if p.1 {
            rest
        } else {
            seq![p.0] + rest
        }
    }
}

/// The pruned members of an object that are not empty after pruning.
pub open spec fn prune_entries(s: Seq<(Seq<char>, JsonView)>) -> Seq<(Seq<char>, JsonView)>
    decreases s,
{
    if s.len() == 0 {
        seq![]
    } else {
        let p = prune(s[0].1);
        let rest = prune_entries(s.drop_first());
        if p.1 {
            rest
        } else {
            seq![(s[0].0, p.0)] + rest
        }
    }
}

/// Index of the first member of `entries` with key `k`.
pub open spec fn find_key(entries: Seq<(Seq<char>, JsonView)>, k: Seq<char>) -> Option<int>
    decreases entries.len(),
{
    if entries.len() == 0 {
        None
    } else if entries[0].0 == k {
        Some(0)
    } else {
        match find_key(entries.drop_first(), k) {
            Some(i) => Some(i + 1),
            None => None,
        }
    }
}

/// Overlays `patch` on `base`. An empty patch changes nothing; two objects
/// are merged member by member; anything else is replaced by the patch.
pub open spec fn merge(base: JsonView, patch: JsonView) -> JsonView
    decreases patch,
{
    if is_empty_value(patch) {
        base
    } else {
        match (base, patch) {
            (JsonView::Object(b), JsonView::Object(p)) => JsonView::Object(merge_entries(b, p)),
            _ => patch,
        }
    }
}

/// Overlays the members of `p`, in order, on the members `b`.
pub open spec fn merge_entries(b: Seq<(Seq<char>, JsonView)>, p: Seq<(Seq<char>, JsonView)>) -> Seq<
    (Seq<char>, JsonView),
>
    decreases p,
{
    if p.len() == 0 {
        b
    } else {
        merge_entries(merge_entry(b, p[0]), p.drop_first())
    }
}

/// Overlays one member: an empty value is skipped, a value whose key is
/// present is merged into the member with that key, any other is appended.
pub open spec fn merge_entry(b: Seq<(Seq<char>, JsonView)>, e: (Seq<char>, JsonView)) -> Seq<
    (Seq<char>, JsonView),
>
    decreases e,
{
    if is_empty_value(e.1) {
        b
    } else {
        match find_key(b, e.0) {
            Some(i) => b.update(i, (e.0, merge(b[i].1, e.1))),
            None => b.push(e),
        }
    }
}


pub proof fn lemma_items_view(s: Seq<JsonValue>)
    ensures
        items_view(s).len() == s.len(),
        forall|k: int| 0 <= k < s.len() ==> #[trigger] items_view(s)[k] == json_view(s[k]),
    decreases s.len(),
{
    if s.len() > 0 {
        lemma_items_view(s.drop_first());
        assert forall|k: int| 0 <= k < s.len() implies #[trigger] items_view(s)[k] == json_view(s[k]) by {
            if k > 0 {
                assert(items_view(s)[k] == items_view(s.drop_first())[k - 1]);
            }
        }
    }
}

pub proof fn lemma_entries_view(s: Seq<(String, JsonValue)>)
    ensures
        entries_view(s).len() == s.len(),
        forall|k: int|
            0 <= k < s.len() ==> #[trigger] entries_view(s)[k] == (s[k].0@, json_view(s[k].1)),
    decreases s.len(),
{
    if s.len() > 0 {
        lemma_entries_view(s.drop_first());
        assert forall|k: int| 0 <= k < s.len() implies #[trigger] entries_view(s)[k] == (
            s[k].0@,
            json_view(s[k].1),
        ) by {
            if k > 0 {
                assert(entries_view(s)[k] == entries_view(s.drop_first())[k - 1]);
            }
        }
    }
}

proof fn lemma_items_view_push(s: Seq<JsonValue>, x: JsonValue)
    ensures
        items_view(s.push(x)) == items_view(s).push(json_view(x)),
{
    lemma_items_view(s);
    lemma_items_view(s.push(x));
    assert(items_view(s.push(x)) =~= items_view(s).push(json_view(x)));
}

proof fn lemma_entries_view_push(s: Seq<(String, JsonValue)>, x: (String, JsonValue))
    ensures
        entries_view(s.push(x)) == entries_view(s).push((x.0@, json_view(x.1))),
{
    lemma_entries_view(s);
    lemma_entries_view(s.push(x));
    assert(entries_view(s.push(x)) =~= entries_view(s).push((x.0@, json_view(x.1))));
}

proof fn lemma_all_items_empty(s: Seq<JsonView>)
    ensures
        all_items_empty(s) <==> forall|k: int| 0 <= k < s.len() ==> is_empty_value(#[trigger] s[k]),
    decreases s.len(),
{
    if s.len() > 0 {
        lemma_all_items_empty(s.drop_first());
        if forall|k: int| 0 <= k < s.len() ==> is_empty_value(#[trigger] s[k]) {
            assert forall|k: int| 0 <= k < s.drop_first().len() implies is_empty_value(
                #[trigger] s.drop_first()[k],
            ) by {
                assert(s.drop_first()[k] == s[k + 1]);
            }
        }
        if all_items_empty(s) {
            assert forall|k: int| 0 <= k < s.len() implies is_empty_value(#[trigger] s[k]) by {
                if k > 0 {
                    assert(s[k] == s.drop_first()[k - 1]);
                }
            }
        }
    }
}

proof fn lemma_all_entries_empty(s: Seq<(Seq<char>, JsonView)>)
    ensures
        all_entries_empty(s) <==> forall|k: int|
            0 <= k < s.len() ==> is_empty_value(#[trigger] s[k].1),
    decreases s.len(),
{
    if s.len() > 0 {
        lemma_all_entries_empty(s.drop_first());
        if forall|k: int| 0 <= k < s.len() ==> is_empty_value(#[trigger] s[k].1) {
            assert forall|k: int| 0 <= k < s.drop_first().len() implies is_empty_value(
                #[trigger] s.drop_first()[k].1,
            ) by {
                assert(s.drop_first()[k] == s[k + 1]);
            }
        }
        if all_entries_empty(s) {
            assert forall|k: int| 0 <= k < s.len() implies is_empty_value(#[trigger] s[k].1) by {
                if k > 0 {
                    assert(s[k] == s.drop_first()[k - 1]);
                }
            }
        }
    }
}

/// Whether a text is blank: nothing but white space.
pub fn is_blank_text(text: &String) -> (res: bool)
    ensures
        res == is_blank(text@),
{
    let chars = chars_of(text.as_str());
    let mut i: usize = 0;
    while i < chars.len()
        invariant
            chars@ == text@,
            i <= chars.len(),
            forall|k: int| 0 <= k < i ==> is_ws(#[trigger] chars@[k]),
        decreases chars.len() - i,
    {
        if !is_white_space(chars[i]) {
            return false;
        }
        i += 1;
    }
    true
}

/// Whether a value is empty in the sense of [`is_empty_value`].
#[verifier::loop_isolation(false)]
pub fn is_empty_json_value(value: &JsonValue) -> (res: bool)
    ensures
        res == is_empty_value(value@),
    decreases value,
{
    match value {
        JsonValue::Null => true,
        JsonValue::Bool(_) => false,
        JsonValue::Number(_) => false,
        JsonValue::String(text) => is_blank_text(text),
        JsonValue::Array(items) => {
            proof {
                lemma_items_view(items@);
                lemma_all_items_empty(items_view(items@));
            }
            let mut i: usize = 0;
            while i < items.len()
                invariant
                    i <= items.len(),
                    forall|k: int| 0 <= k < i ==> is_empty_value(#[trigger] json_view(items@[k])),
                decreases items.len() - i,
            {
                if !is_empty_json_value(&items[i]) {
                    assert(items_view(items@)[i as int] == json_view(items@[i as int]));
                    return false;
                }
                i += 1;
            }
            proof {
                assert forall|k: int| 0 <= k < items_view(items@).len() implies is_empty_value(
                    #[trigger] items_view(items@)[k],
                ) by {
                    assert(items_view(items@)[k] == json_view(items@[k]));
                }
            }
            true
        },
        JsonValue::Object(entries) => {
            proof {
                lemma_entries_view(entries@);
                lemma_all_entries_empty(entries_view(entries@));
            }
            let mut i: usize = 0;
            while i < entries.len()
                invariant
                    i <= entries.len(),
                    forall|k: int|
                        0 <= k < i ==> is_empty_value(#[trigger] json_view(entries@[k].1)),
                decreases entries.len() - i,
            {
                if !is_empty_json_value(&entries[i].1) {
                    assert(entries_view(entries@)[i as int].1 == json_view(entries@[i as int].1));
                    return false;
                }
                i += 1;
            }
            proof {
                assert forall|k: int| 0 <= k < entries_view(entries@).len() implies is_empty_value(
                    #[trigger] entries_view(entries@)[k].1,
                ) by {
                    assert(entries_view(entries@)[k].1 == json_view(entries@[k].1));
                }
            }
            true
        },
    }
}

/// Removes empty members from arrays and objects, recursively, and tells
/// whether the value itself is empty afterwards.
#[verifier::loop_isolation(false)]
pub fn prune_empty_json_values(value: &mut JsonValue) -> (res: bool)
    ensures
        (final(value)@, res) == prune(old(value)@),
    decreases *old(value),
{
    match value {
        JsonValue::Null => true,
        JsonValue::Bool(_) => false,
        JsonValue::Number(_) => false,
        JsonValue::String(text) => is_blank_text(text),
        JsonValue::Array(items) => {
            let mut old_items: Vec<JsonValue> = Vec::new();
            std::mem::swap(&mut old_items, items);
            let ghost orig = old_items@;
            let ghost v = items_view(orig);
            proof {
                lemma_items_view(orig);
                assert(v.skip(0) =~= v);
                assert(items_view(Seq::<JsonValue>::empty()) =~= Seq::<JsonView>::empty());
            }
            let mut kept: Vec<JsonValue> = Vec::new();
            let n = old_items.len();
            let mut i: usize = 0;
            while i < n
                invariant
                    i <= n == old_items.len() == orig.len(),
                    forall|k: int| i <= k < n ==> old_items@[k] == orig[k],
                    prune_items(v) == items_view(kept@) + prune_items(v.skip(i as int)),
                decreases n - i,
            {
                let mut item = JsonValue::Null;
                std::mem::swap(&mut item, &mut old_items[i]);
                assert(item == orig[i as int]);
                assert(decreases_to!(*old(value) => item));
                let empty = prune_empty_json_values(&mut item);
                proof {
                    let w = v.skip(i as int);
                    assert(w[0] == json_view(orig[i as int]));
                    assert(w.drop_first() =~= v.skip(i + 1));
                }
                if !empty {
                    proof {
                        lemma_items_view_push(kept@, item);
                    }
                    kept.push(item);
                    proof {
                        let x = json_view(item);
                        let r = prune_items(v.skip(i + 1));
                        assert(items_view(kept@) + r =~= items_view(kept@).drop_last() + (seq![x] + r));
                    }
                }
                i += 1;
            }
            proof {
                assert(v.skip(n as int) =~= Seq::<JsonView>::empty());
                assert(prune_items(v) =~= items_view(kept@));
                lemma_items_view(kept@);
            }
            let empty = kept.len() == 0;
            *items = kept;
            empty
        },
        JsonValue::Object(entries) => {
            let mut old_entries: Vec<(String, JsonValue)> = Vec::new();
            std::mem::swap(&mut old_entries, entries);
            let ghost orig = old_entries@;
            let ghost v = entries_view(orig);
            proof {
                lemma_entries_view(orig);
                assert(v.skip(0) =~= v);
                assert(entries_view(Seq::<(String, JsonValue)>::empty()) =~= Seq::<(Seq<char>, JsonView)>::empty());
            }
            let mut kept: Vec<(String, JsonValue)> = Vec::new();
            let n = old_entries.len();
            let mut i: usize = 0;
            while i < n
                invariant
                    i <= n == old_entries.len() == orig.len(),
                    forall|k: int| i <= k < n ==> old_entries@[k] == orig[k],
                    prune_entries(v) == entries_view(kept@) + prune_entries(v.skip(i as int)),
                decreases n - i,
            {
                let mut entry = (String::new(), JsonValue::Null);
                std::mem::swap(&mut entry, &mut old_entries[i]);
                assert(entry == orig[i as int]);
                let (key, mut item) = entry;
                assert(decreases_to!(*old(value) => item));
                let empty = prune_empty_json_values(&mut item);
                proof {
                    let w = v.skip(i as int);
                    assert(w[0] == (orig[i as int].0@, json_view(orig[i as int].1)));
                    assert(w.drop_first() =~= v.skip(i + 1));
                }
                if !empty {
                    proof {
                        lemma_entries_view_push(kept@, (key, item));
                    }
                    kept.push((key, item));
                    proof {
                        let x = (key@, json_view(item));
                        let r = prune_entries(v.skip(i + 1));
                        assert(entries_view(kept@) + r =~= entries_view(kept@).drop_last() + (seq![x] + r));
                    }
                }
                i += 1;
            }
            proof {
                assert(v.skip(n as int) =~= Seq::<(Seq<char>, JsonView)>::empty());
                assert(prune_entries(v) =~= entries_view(kept@));
                lemma_entries_view(kept@);
            }
            let empty = kept.len() == 0;
            *entries = kept;
            empty
        },
    }
}

/// The members of an object without the ones that are empty after pruning.
pub fn object_without_empty_values(object: Vec<(String, JsonValue)>) -> (res: Vec<(String, JsonValue)>)
    ensures
        entries_view(res@) == prune_entries(entries_view(object@)),
{
    let mut value = JsonValue::Object(object);
    let _ = prune_empty_json_values(&mut value);
    match value {
        JsonValue::Object(entries) => entries,
        _ => Vec::new(),
    }
}

impl JsonValue {
    /// A copy of the value.
    pub fn duplicate(&self) -> (res: JsonValue)
        ensures
            res@ == self@,
        decreases self,
    {
        match self {
            JsonValue::Null => JsonValue::Null,
            JsonValue::Bool(b) => JsonValue::Bool(*b),
            JsonValue::Number(n) => JsonValue::Number(n.clone()),
            JsonValue::String(t) => JsonValue::String(t.clone()),
            JsonValue::Array(items) => {
                let mut out: Vec<JsonValue> = Vec::new();
                let mut i: usize = 0;
                proof {
                    lemma_items_view(items@);
                }
                while i < items.len()
                    invariant
                        i <= items.len(),
                        out.len() == i,
                        forall|k: int| 0 <= k < i ==> json_view(#[trigger] out@[k]) == json_view(items@[k]),
                        forall|k: int| 0 <= k < items.len() ==> decreases_to!(self => #[trigger] items@[k]),
                    decreases items.len() - i,
                {
                    let x = items[i].duplicate();
                    out.push(x);
                    i += 1;
                }
                proof {
                    lemma_items_view(out@);
                    assert(items_view(out@) =~= items_view(items@));
                }
                JsonValue::Array(out)
            },
            JsonValue::Object(entries) => {
                let mut out: Vec<(String, JsonValue)> = Vec::new();
                let mut i: usize = 0;
                proof {
                    lemma_entries_view(entries@);
                }
                while i < entries.len()
                    invariant
                        i <= entries.len(),
                        out.len() == i,
                        forall|k: int| 0 <= k < i ==> (#[trigger] out@[k]).0@ == entries@[k].0@ && json_view(out@[k].1) == json_view(entries@[k].1),
                        forall|k: int| 0 <= k < entries.len() ==> decreases_to!(self => #[trigger] entries@[k].1),
                    decreases entries.len() - i,
                {
                    let key = entries[i].0.clone();
                    let x = entries[i].1.duplicate();
                    out.push((key, x));
                    i += 1;
                }
                proof {
                    lemma_entries_view(out@);
                    assert(entries_view(out@) =~= entries_view(entries@));
                }
                JsonValue::Object(out)
            },
        }
    }
}

/// `find_key` finds the first member with the key, if any.
pub proof fn lemma_find_key(s: Seq<(Seq<char>, JsonView)>, k: Seq<char>)
    ensures
        find_key(s, k) matches Some(j) ==> 0 <= j < s.len() && s[j].0 == k && forall|m: int|
            0 <= m < j ==> #[trigger] s[m].0 != k,
        find_key(s, k) is None ==> forall|m: int| 0 <= m < s.len() ==> #[trigger] s[m].0 != k,
    decreases s.len(),
{
    if s.len() > 0 {
        lemma_find_key(s.drop_first(), k);
        assert forall|m: int| 1 <= m < s.len() implies #[trigger] s[m] == s.drop_first()[m - 1] by {}
    }
}

/// Overlays `patch` on `base` member by member; empty patch values never
/// replace anything.
#[verifier::loop_isolation(false)]
pub fn merge_non_empty_json_values(base: &mut JsonValue, patch: &JsonValue)
    ensures
        final(base)@ == merge(old(base)@, patch@),
    decreases patch,
{
    if is_empty_json_value(patch) {
        return ;
    }
    if let JsonValue::Object(patch_entries) = patch {
        if let JsonValue::Object(base_entries) = base {
            let ghost b0 = entries_view(base_entries@);
            let ghost p = entries_view(patch_entries@);
            proof {
                lemma_entries_view(patch_entries@);
                assert(p.skip(0) =~= p);
            }
            let n = patch_entries.len();
            let mut i: usize = 0;
            while i < n
                invariant
                    i <= n == patch_entries.len(),
                    merge_entries(b0, p) == merge_entries(entries_view(base_entries@), p.skip(i as int)),
                decreases n - i,
            {
                let ghost bv = entries_view(base_entries@);
                let key = &patch_entries[i].0;
                let value = &patch_entries[i].1;
                proof {
                    let w = p.skip(i as int);
                    assert(w[0] == (key@, json_view(*value)));
                    assert(w.drop_first() =~= p.skip(i + 1));
                    assert(merge_entries(bv, w) == merge_entries(merge_entry(bv, w[0]), p.skip(i + 1)));
                    lemma_entries_view(base_entries@);
                    lemma_find_key(bv, key@);
                }
                if !is_empty_json_value(value) {
                    let mut j: usize = 0;
                    let mut found = false;
                    while j < base_entries.len() && !found
                        invariant
                            j <= base_entries.len(),
                            bv == entries_view(base_entries@),
                            forall|m: int| 0 <= m < j ==> #[trigger] base_entries@[m].0@ != key@,
                            found ==> j < base_entries.len() && base_entries@[j as int].0@ == key@,
                        decreases base_entries.len() - j, (if found { 0int } else { 1int }),
                    {
                        if base_entries[j].0 == *key {
                            found = true;
                        } else {
                            j += 1;
                        }
                    }
                    proof {
                        assert forall|m: int| 0 <= m < j implies #[trigger] bv[m].0 != key@ by {
                            assert(bv[m].0 == base_entries@[m].0@);
                        }
                        if found {
                            assert(bv[j as int].0 == key@);
                            assert(find_key(bv, key@) == Some(j as int));
                        } else {
                            assert(find_key(bv, key@) is None);
                        }
                    }
                    if found {
                        let ghost old_child = base_entries@[j as int].1;
                        let ghost old_entries = base_entries@;
                        assert(decreases_to!(patch => *value));
                        merge_non_empty_json_values(&mut base_entries[j].1, value);
                        proof {
                            lemma_entries_view(base_entries@);
                            assert(entries_view(base_entries@) =~= bv.update(
                                j as int,
                                (key@, merge(json_view(old_child), json_view(*value))),
                            ));
                        }
                    } else {
                        let k2 = key.clone();
                        let v2 = value.duplicate();
                        proof {
                            lemma_entries_view_push(base_entries@, (k2, v2));
                        }
                        base_entries.push((k2, v2));
                    }
                }
                assert(entries_view(base_entries@) == merge_entry(bv, (key@, json_view(*value))));
                i += 1;
            }
            proof {
                assert(p.skip(n as int) =~= Seq::<(Seq<char>, JsonView)>::empty());
            }
            return ;
        }
    }
    *base = patch.duplicate();
}

proof fn lemma_prune_flag(v: JsonView)
    ensures
        prune(v).1 == is_empty_value(v),
    decreases v,
{
    match v {
        JsonView::Array(items) => lemma_prune_items_flag(items),
        JsonView::Object(entries) => lemma_prune_entries_flag(entries),
        _ => {},
    }
}

proof fn lemma_prune_items_flag(s: Seq<JsonView>)
    ensures
        (prune_items(s).len() == 0) == all_items_empty(s),
    decreases s,
{
    if s.len() > 0 {
        lemma_prune_flag(s[0]);
        lemma_prune_items_flag(s.drop_first());
    }
}

proof fn lemma_prune_entries_flag(s: Seq<(Seq<char>, JsonView)>)
    ensures
        (prune_entries(s).len() == 0) == all_entries_empty(s),
    decreases s,
{
    if s.len() > 0 {
        lemma_prune_flag(s[0].1);
        lemma_prune_entries_flag(s.drop_first());
    }
}

/// What pruning reports is exactly whether the value was empty to begin
/// with: a value counts as empty precisely when pruning removes all of it.
pub proof fn law_prune_reports_emptiness(v: JsonView)
    ensures
        prune(v).1 == is_empty_value(v),
{
    lemma_prune_flag(v);
}

proof fn lemma_prune_idem(v: JsonView)
    ensures
        prune(prune(v).0) == prune(v),
    decreases v,
{
    match v {
        JsonView::Array(items) => {
            lemma_prune_items_idem(items);
        },
        JsonView::Object(entries) => {
            lemma_prune_entries_idem(entries);
        },
        _ => {},
    }
}

proof fn lemma_prune_items_idem(s: Seq<JsonView>)
    ensures
        prune_items(prune_items(s)) == prune_items(s),
    decreases s,
{
    if s.len() > 0 {
        let p = prune(s[0]);
        lemma_prune_idem(s[0]);
        lemma_prune_items_idem(s.drop_first());
        if !p.1 {
            let r = prune_items(s.drop_first());
            let t = seq![p.0] + r;
            assert(t[0] == p.0);
            assert(t.drop_first() =~= r);
        }
    }
}

proof fn lemma_prune_entries_idem(s: Seq<(Seq<char>, JsonView)>)
    ensures
        prune_entries(prune_entries(s)) == prune_entries(s),
    decreases s,
{
    if s.len() > 0 {
        let p = prune(s[0].1);
        lemma_prune_idem(s[0].1);
        lemma_prune_entries_idem(s.drop_first());
        if !p.1 {
            let r = prune_entries(s.drop_first());
            let t = seq![(s[0].0, p.0)] + r;
            assert(t[0] == (s[0].0, p.0));
            assert(t.drop_first() =~= r);
        }
    }
}

/// Pruning is idempotent: a pruned value has nothing left to prune.
pub proof fn law_prune_idempotent(v: JsonView)
    ensures
        prune(prune(v).0) == prune(v),
{
    lemma_prune_idem(v);
}

/// `s` has a member with key `k`.
pub open spec fn has_key(s: Seq<(Seq<char>, JsonView)>, k: Seq<char>) -> bool {
    exists|j: int| 0 <= j < s.len() && #[trigger] s[j].0 == k
}

proof fn lemma_merge_entry_keys(b: Seq<(Seq<char>, JsonView)>, e: (Seq<char>, JsonView))
    ensures
        forall|k: Seq<char>| has_key(b, k) ==> has_key(merge_entry(b, e), k),
        !is_empty_value(e.1) ==> has_key(merge_entry(b, e), e.0),
{
    lemma_find_key(b, e.0);
    let r = merge_entry(b, e);
    assert forall|k: Seq<char>| has_key(b, k) implies has_key(r, k) by {
        let j = choose|j: int| 0 <= j < b.len() && #[trigger] b[j].0 == k;
        assert(r[j].0 == k);
    }
    if !is_empty_value(e.1) {
        match find_key(b, e.0) {
            Some(i) => assert(r[i].0 == e.0),
            None => assert(r[b.len() as int].0 == e.0),
        }
    }
}

proof fn lemma_merge_entries_keys(b: Seq<(Seq<char>, JsonView)>, p: Seq<(Seq<char>, JsonView)>)
    ensures
        forall|k: Seq<char>| has_key(b, k) ==> has_key(merge_entries(b, p), k),
        forall|j: int|
            0 <= j < p.len() && !is_empty_value(#[trigger] p[j].1) ==> has_key(
                merge_entries(b, p),
                p[j].0,
            ),
    decreases p.len(),
{
    if p.len() > 0 {
        let b1 = merge_entry(b, p[0]);
        lemma_merge_entry_keys(b, p[0]);
        lemma_merge_entries_keys(b1, p.drop_first());
        assert forall|j: int|
            0 <= j < p.len() && !is_empty_value(#[trigger] p[j].1) implies has_key(
            merge_entries(b, p),
            p[j].0,
        ) by {
            if j > 0 {
                assert(p[j] == p.drop_first()[j - 1]);
            }
        }
    }
}

/// Overlaying an object on an object never loses a member of the base, and
/// every member of the patch that is not empty is present afterwards.
pub proof fn law_merge_objects_keeps_and_adds_keys(
    b: Seq<(Seq<char>, JsonView)>,
    p: Seq<(Seq<char>, JsonView)>,
)
    ensures
        merge(JsonView::Object(b), JsonView::Object(p)) matches JsonView::Object(r) && {
            &&& forall|k: Seq<char>| has_key(b, k) ==> has_key(r, k)
            &&& forall|j: int|
                0 <= j < p.len() && !is_empty_value(#[trigger] p[j].1) ==> has_key(r, p[j].0)
        },
{
    lemma_merge_entries_keys(b, p);
    lemma_all_entries_empty(p);
    if is_empty_value(JsonView::Object(p)) {
        assert forall|j: int| 0 <= j < p.len() implies is_empty_value(#[trigger] p[j].1) by {}
    }
}

/// An empty patch changes nothing: `null`, blank strings and arrays or
/// objects made only of such values never override a setting.
pub proof fn law_empty_patch_changes_nothing(base: JsonView, patch: JsonView)
    requires
        is_empty_value(patch),
    ensures
        merge(base, patch) == base,
{
}

/// No two members of `s` share a key.
pub open spec fn keys_distinct(s: Seq<(Seq<char>, JsonView)>) -> bool {
    forall|i: int, j: int| 0 <= i < j < s.len() ==> #[trigger] s[i].0 != #[trigger] s[j].0
}

/// No object anywhere in `v` has two members with one key, as in every
/// document the JSON parser builds.
pub open spec fn distinct_keys(v: JsonView) -> bool
    decreases v,
{
    match v {
        JsonView::Array(items) => items_distinct(items),
        JsonView::Object(entries) => keys_distinct(entries) && entries_distinct(entries),
        _ => true,
    }
}

pub open spec fn items_distinct(s: Seq<JsonView>) -> bool
    decreases s,
{
    s.len() == 0 || (distinct_keys(s[0]) && items_distinct(s.drop_first()))
}

pub open spec fn entries_distinct(s: Seq<(Seq<char>, JsonView)>) -> bool
    decreases s,
{
    s.len() == 0 || (distinct_keys(s[0].1) && entries_distinct(s.drop_first()))
}

proof fn lemma_entries_distinct_all(s: Seq<(Seq<char>, JsonView)>)
    ensures
        entries_distinct(s) <==> forall|i: int| 0 <= i < s.len() ==> distinct_keys(#[trigger] s[i].1),
    decreases s.len(),
{
    if s.len() > 0 {
        lemma_entries_distinct_all(s.drop_first());
        assert forall|i: int| 1 <= i < s.len() implies #[trigger] s[i] == s.drop_first()[i - 1] by {}
        if forall|i: int| 0 <= i < s.len() ==> distinct_keys(#[trigger] s[i].1) {
            assert forall|i: int| 0 <= i < s.drop_first().len() implies distinct_keys(
                #[trigger] s.drop_first()[i].1,
            ) by {
                assert(s.drop_first()[i] == s[i + 1]);
            }
        }
    }
}

/// The keys of the pruned members are keys of the members.
proof fn lemma_prune_entries_keys(s: Seq<(Seq<char>, JsonView)>)
    ensures
        forall|m: int|
            0 <= m < prune_entries(s).len() ==> exists|j: int|
                0 <= j < s.len() && #[trigger] prune_entries(s)[m].0 == s[j].0,
    decreases s.len(),
{
    if s.len() > 0 {
        let rest = prune_entries(s.drop_first());
        lemma_prune_entries_keys(s.drop_first());
        let r = prune_entries(s);
        assert forall|m: int| 0 <= m < r.len() implies exists|j: int|
            0 <= j < s.len() && #[trigger] r[m].0 == s[j].0 by {
            if prune(s[0].1).1 {
                assert(r[m] == rest[m]);
                let j = choose|j: int| 0 <= j < s.drop_first().len() && rest[m].0 == s.drop_first()[j].0;
                assert(s.drop_first()[j] == s[j + 1]);
            } else if m == 0 {
                assert(r[0].0 == s[0].0);
            } else {
                assert(r[m] == rest[m - 1]);
                let j = choose|j: int| 0 <= j < s.drop_first().len() && rest[m - 1].0 == s.drop_first()[j].0;
                assert(s.drop_first()[j] == s[j + 1]);
            }
        }
    }
}

proof fn lemma_prune_distinct(v: JsonView)
    ensures
        distinct_keys(v) ==> distinct_keys(prune(v).0),
    decreases v,
{
    match v {
        JsonView::Array(items) => lemma_prune_items_distinct(items),
        JsonView::Object(entries) => lemma_prune_entries_distinct(entries),
        _ => {},
    }
}

proof fn lemma_prune_items_distinct(s: Seq<JsonView>)
    ensures
        items_distinct(s) ==> items_distinct(prune_items(s)),
    decreases s,
{
    if s.len() > 0 {
        lemma_prune_distinct(s[0]);
        lemma_prune_items_distinct(s.drop_first());
        let r = prune_items(s);
        if !prune(s[0]).1 {
            assert(r.drop_first() =~= prune_items(s.drop_first()));
        }
    }
}

proof fn lemma_prune_entries_distinct(s: Seq<(Seq<char>, JsonView)>)
    ensures
        entries_distinct(s) ==> entries_distinct(prune_entries(s)),
        keys_distinct(s) ==> keys_distinct(prune_entries(s)),
    decreases s,
{
    if s.len() > 0 {
        lemma_prune_distinct(s[0].1);
        lemma_prune_entries_distinct(s.drop_first());
        lemma_prune_entries_keys(s.drop_first());
        let rest = prune_entries(s.drop_first());
        let r = prune_entries(s);
        if keys_distinct(s) {
            assert forall|i: int, j: int| 0 <= i < j < s.drop_first().len() implies #[trigger] s.drop_first()[i].0
                != #[trigger] s.drop_first()[j].0 by {
                assert(s.drop_first()[i] == s[i + 1] && s.drop_first()[j] == s[j + 1]);
            }
        }
        if !prune(s[0].1).1 {
            assert(r.drop_first() =~= rest);
            if keys_distinct(s) {
                assert forall|i: int, j: int| 0 <= i < j < r.len() implies #[trigger] r[i].0
                    != #[trigger] r[j].0 by {
                    assert(r[j] == rest[j - 1]);
                    if i == 0 {
                        let k = choose|k: int| 0 <= k < s.drop_first().len() && #[trigger] rest[j - 1].0
                            == s.drop_first()[k].0;
                        assert(s.drop_first()[k] == s[k + 1]);
                        assert(s[0].0 != s[k + 1].0);
                    } else {
                        assert(r[i] == rest[i - 1]);
                    }
                }
            }
        }
    }
}

/// Pruning keeps keys distinct: a document without repeated keys has none
/// after its empty values are removed.
pub proof fn law_prune_keeps_keys_distinct(v: JsonView)
    requires
        distinct_keys(v),
    ensures
        distinct_keys(prune(v).0),
{
    lemma_prune_distinct(v);
}

proof fn lemma_merge_distinct(base: JsonView, patch: JsonView)
    requires
        distinct_keys(base),
        distinct_keys(patch),
    ensures
        distinct_keys(merge(base, patch)),
    decreases patch,
{
    if !is_empty_value(patch) {
        match (base, patch) {
            (JsonView::Object(b), JsonView::Object(p)) => {
                lemma_merge_entries_distinct(b, p);
            },
            _ => {},
        }
    }
}

proof fn lemma_merge_entries_distinct(b: Seq<(Seq<char>, JsonView)>, p: Seq<(Seq<char>, JsonView)>)
    requires
        keys_distinct(b),
        entries_distinct(b),
        entries_distinct(p),
    ensures
        keys_distinct(merge_entries(b, p)),
        entries_distinct(merge_entries(b, p)),
    decreases p,
{
    if p.len() > 0 {
        lemma_merge_entry_distinct(b, p[0]);
        lemma_merge_entries_distinct(merge_entry(b, p[0]), p.drop_first());
    }
}

proof fn lemma_merge_entry_distinct(b: Seq<(Seq<char>, JsonView)>, e: (Seq<char>, JsonView))
    requires
        keys_distinct(b),
        entries_distinct(b),
        distinct_keys(e.1),
    ensures
        keys_distinct(merge_entry(b, e)),
        entries_distinct(merge_entry(b, e)),
    decreases e,
{
    if !is_empty_value(e.1) {
        lemma_find_key(b, e.0);
        lemma_entries_distinct_all(b);
        let r = merge_entry(b, e);
        match find_key(b, e.0) {
            Some(i) => {
                lemma_merge_distinct(b[i].1, e.1);
                assert forall|m: int, n: int| 0 <= m < n < r.len() implies #[trigger] r[m].0
                    != #[trigger] r[n].0 by {
                    assert(r[m].0 == b[m].0 && r[n].0 == b[n].0);
                }
                assert forall|m: int| 0 <= m < r.len() implies distinct_keys(#[trigger] r[m].1) by {
                    if m != i {
                        assert(r[m] == b[m]);
                    }
                }
            },
            None => {
                assert forall|m: int, n: int| 0 <= m < n < r.len() implies #[trigger] r[m].0
                    != #[trigger] r[n].0 by {
                    assert(r[m] == b[m]);
                    if n < b.len() {
                        assert(r[n] == b[n]);
                    }
                }
                assert forall|m: int| 0 <= m < r.len() implies distinct_keys(#[trigger] r[m].1) by {
                    if m < b.len() {
                        assert(r[m] == b[m]);
                    }
                }
            },
        }
        lemma_entries_distinct_all(r);
    }
}

/// Merging keeps keys distinct: overlaying one document without repeated
/// keys on another gives a document without repeated keys, so a key of the
/// patch meets at most one member of the base.
pub proof fn law_merge_keeps_keys_distinct(base: JsonView, patch: JsonView)
    requires
        distinct_keys(base),
        distinct_keys(patch),
    ensures
        distinct_keys(merge(base, patch)),
{
    lemma_merge_distinct(base, patch);
}

} // verus!
