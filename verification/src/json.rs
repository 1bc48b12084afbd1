//! JSON values as plain data, and the text they are read from and written to.
//!
//! Parsing and printing are the work of `serde_json`; everything that looks
//! into a value or changes one works on [`Json`].

use crate::string_map::pairs_map;
use crate::text::{lemma_less_total, lemma_less_transitive, less, same, text_less, texts};
use vstd::prelude::*;

verus! {

/// A JSON number as `serde_json` keeps it. It is carried through unread.
#[verifier::external_type_specification]
#[verifier::external_body]
pub struct ExNumber(serde_json::Number);

/// A JSON value as `serde_json` keeps it.
#[verifier::external_type_specification]
#[verifier::external_body]
pub struct ExValue(serde_json::Value);

/// A JSON number, with its value where it is a whole number from 0 to 2^64 - 1.
pub struct JsonNumber {
    whole: Option<u64>,
    raw: serde_json::Number,
}

impl JsonNumber {
    /// The whole number from 0 to 2^64 - 1 that this is, if it is one.
    pub closed spec fn value(self) -> Option<u64> {
        self.whole
    }

    /// The whole number from 0 to 2^64 - 1 that this is, if it is one.
    pub fn as_u64(&self) -> (r: Option<u64>)
        ensures
            r == self.value(),
    {
        self.whole
    }

    /// `serde_json::Number::from` at `u64`: the number whose value is `n`.
    #[verifier::external_body]
    pub(crate) fn from_u64(n: u64) -> (r: JsonNumber)
        ensures
            r == whole_number(n),
            r.value() == Some(n),
    {
        JsonNumber { whole: Some(n), raw: serde_json::Number::from(n) }
    }

    /// `serde_json::Number::from` at `i64`: the number whose value is `n`.
    #[verifier::external_body]
    pub(crate) fn from_i64(n: i64) -> (r: JsonNumber)
        ensures
            r == signed_number(n),
            r.value() == (if n >= 0 {
                Some(n as u64)
            } else {
                None
            }),
    {
        let raw = serde_json::Number::from(n);
        JsonNumber { whole: raw.as_u64(), raw }
    }
}

/// The JSON number that `serde_json` makes of a signed number.
pub uninterp spec fn signed_number(n: i64) -> JsonNumber;

/// The JSON number that `serde_json` makes of `n`.
pub uninterp spec fn whole_number(n: u64) -> JsonNumber;

/// A JSON value.
pub enum Json {
    Null,
    Bool(bool),
    Number(JsonNumber),
    Text(String),
    List(Vec<Json>),
    Record(Vec<(String, Json)>),
}

/// What a [`Json`] value says.
pub enum JsonView {
    Null,
    Bool(bool),
    Number(JsonNumber),
    Text(Seq<char>),
    List(Seq<JsonView>),
    Record(Seq<(Seq<char>, JsonView)>),
}

impl View for Json {
    type V = JsonView;

    open spec fn view(&self) -> JsonView {
        json_view(*self)
    }
}

/// What a value says.
pub open spec fn json_view(j: Json) -> JsonView
    decreases j,
{
    match j {
        Json::Null => JsonView::Null,
        Json::Bool(b) => JsonView::Bool(b),
        Json::Number(n) => JsonView::Number(n),
        Json::Text(s) => JsonView::Text(s@),
        Json::List(items) => JsonView::List(list_view(items@)),
        Json::Record(fields) => JsonView::Record(record_view(fields@)),
    }
}

/// What the items of a list say.
pub open spec fn list_view(items: Seq<Json>) -> Seq<JsonView>
    decreases items,
{
    if items.len() == 0 {
        Seq::empty()
    } else {
        list_view(items.drop_last()).push(json_view(items.last()))
    }
}

/// What the fields of a record say.
pub open spec fn record_view(fields: Seq<(String, Json)>) -> Seq<(Seq<char>, JsonView)>
    decreases fields,
{
    if fields.len() == 0 {
        Seq::empty()
    } else {
        record_view(fields.drop_last()).push((fields.last().0@, json_view(fields.last().1)))
    }
}

/// The view of a list is the list of the views of its items.
pub proof fn lemma_list_view(items: Seq<Json>)
    ensures
        list_view(items).len() == items.len(),
        forall|i: int| 0 <= i < items.len() ==> #[trigger] list_view(items)[i] == items[i]@,
    decreases items.len(),
{
    if items.len() > 0 {
        lemma_list_view(items.drop_last());
    }
}

/// The view of a record has the name and the view of each of its fields.
pub proof fn lemma_record_view(fields: Seq<(String, Json)>)
    ensures
        record_view(fields).len() == fields.len(),
        forall|i: int|
            0 <= i < fields.len() ==> #[trigger] record_view(fields)[i] == (
                fields[i].0@,
                fields[i].1@,
            ),
    decreases fields.len(),
{
    if fields.len() > 0 {
        lemma_record_view(fields.drop_last());
    }
}

// ── Reading a value ─────────────────────────────────────────────────────────

/// Whether `i` is the position of the first field named `key`.
pub open spec fn is_field_at(fields: Seq<(Seq<char>, JsonView)>, key: Seq<char>, i: int) -> bool {
    &&& 0 <= i < fields.len()
    &&& fields[i].0 == key
    &&& forall|k: int| 0 <= k < i ==> (#[trigger] fields[k]).0 != key
}

/// The field of a record that is named `key`.
pub open spec fn field_of(fields: Seq<(Seq<char>, JsonView)>, key: Seq<char>) -> Option<JsonView>
    decreases fields.len(),
{
    if fields.len() == 0 {
        None
    } else if fields[0].0 == key {
        Some(fields[0].1)
    } else {
        field_of(fields.drop_first(), key)
    }
}

/// The member of `j` named `key`, where `j` is a record that has one.
pub open spec fn member(j: JsonView, key: Seq<char>) -> Option<JsonView> {
    match j {
        JsonView::Record(fields) => field_of(fields, key),
        _ => None,
    }
}

/// A value out of a record of `n` values: that with a name, or, where the record is
/// written as a list of its values, that in the place `i`.
pub open spec fn entry(j: JsonView, key: Seq<char>, i: int, n: int) -> Option<JsonView> {
    match j {
        JsonView::List(items) => if items.len() == n {
            Some(items[i])
        } else {
            None
        },
        _ => member(j, key),
    }
}

/// The string that `j` is, if it is one.
pub open spec fn text_of(j: Option<JsonView>) -> Option<Seq<char>> {
    match j {
        Some(JsonView::Text(s)) => Some(s),
        _ => None,
    }
}

/// The whole number from 0 to 2^64 - 1 that `j` is, if it is one.
pub open spec fn whole_of(j: Option<JsonView>) -> Option<u64> {
    match j {
        Some(JsonView::Number(n)) => n.value(),
        _ => None,
    }
}

/// The first field with a name is the one that is found.
pub proof fn lemma_field_found(fields: Seq<(Seq<char>, JsonView)>, key: Seq<char>, i: int)
    requires
        is_field_at(fields, key, i),
    ensures
        field_of(fields, key) == Some(fields[i].1),
    decreases i,
{
    if i > 0 {
        let rest = fields.drop_first();
        assert(fields[0].0 != key);
        assert(is_field_at(rest, key, i - 1)) by {
            assert forall|k: int| 0 <= k < i - 1 implies (#[trigger] rest[k]).0 != key by {
                assert(rest[k] == fields[k + 1]);
            }
        }
        lemma_field_found(rest, key, i - 1);
    }
}

/// Where no field has a name, none is found.
pub proof fn lemma_field_missing(fields: Seq<(Seq<char>, JsonView)>, key: Seq<char>)
    requires
        forall|k: int| 0 <= k < fields.len() ==> (#[trigger] fields[k]).0 != key,
    ensures
        field_of(fields, key) is None,
    decreases fields.len(),
{
    if fields.len() > 0 {
        let rest = fields.drop_first();
        assert(fields[0].0 != key);
        assert forall|k: int| 0 <= k < rest.len() implies (#[trigger] rest[k]).0 != key by {
            assert(rest[k] == fields[k + 1]);
        }
        lemma_field_missing(rest, key);
    }
}

/// The position of the first field named `key`.
pub fn find_field(fields: &Vec<(String, Json)>, key: &str) -> (r: Option<usize>)
    ensures
        match r {
            Some(i) => i < fields@.len() && is_field_at(record_view(fields@), key@, i as int) && field_of(
                record_view(fields@),
                key@,
            ) == Some(fields@[i as int].1@),
            None => field_of(record_view(fields@), key@) is None && forall|k: int|
                0 <= k < record_view(fields@).len() ==> (#[trigger] record_view(fields@)[k]).0
                    != key@,
        },
{
    proof {
        lemma_record_view(fields@);
    }
    let ghost view = record_view(fields@);
    let mut i: usize = 0;
    while i < fields.len()
        invariant
            i <= fields@.len(),
            view == record_view(fields@),
            view.len() == fields@.len(),
            forall|k: int| 0 <= k < view.len() ==> #[trigger] view[k] == (
                fields@[k].0@,
                fields@[k].1@,
            ),
            forall|k: int| 0 <= k < i ==> (#[trigger] view[k]).0 != key@,
        decreases fields.len() - i,
    {
        if same(fields[i].0.as_str(), key) {
            proof {
                assert(view[i as int].0 == key@);
                lemma_field_found(view, key@, i as int);
            }
            return Some(i);
        }
        assert(view[i as int].0 != key@);
        i = i + 1;
    }
    proof {
        lemma_field_missing(view, key@);
    }
    None
}

impl Json {
    /// The member named `key`, where this is a record that has one.
    pub fn get(&self, key: &str) -> (r: Option<&Json>)
        ensures
            match r {
                Some(v) => member(self@, key@) == Some(v@),
                None => member(self@, key@) is None,
            },
    {
        match self {
            Json::Record(fields) => match find_field(fields, key) {
                Some(i) => Some(&fields[i].1),
                None => None,
            },
            _ => None,
        }
    }

    /// The string that this is, if it is one.
    pub fn as_text(&self) -> (r: Option<&String>)
        ensures
            match r {
                Some(s) => self@ == JsonView::Text(s@),
                None => !(self@ is Text),
            },
    {
        match self {
            Json::Text(s) => Some(s),
            _ => None,
        }
    }

    /// The member named `key`, where it is there and a string.
    pub fn get_text(&self, key: &str) -> (r: Option<&String>)
        ensures
            match r {
                Some(s) => text_of(member(self@, key@)) == Some(s@),
                None => text_of(member(self@, key@)) is None,
            },
    {
        match self.get(key) {
            Some(v) => v.as_text(),
            None => None,
        }
    }

    /// A value out of a record of `n` values, by its name or by its place.
    pub fn entry(&self, key: &str, i: usize, n: usize) -> (r: Option<&Json>)
        requires
            i < n,
        ensures
            match r {
                Some(v) => entry(self@, key@, i as int, n as int) == Some(v@),
                None => entry(self@, key@, i as int, n as int) is None,
            },
    {
        match self {
            Json::List(items) => {
                proof {
                    lemma_list_view(items@);
                }
                if items.len() == n {
                    Some(&items[i])
                } else {
                    None
                }
            },
            _ => self.get(key),
        }
    }

    /// A string out of a record of `n` values, by its name or by its place.
    pub fn text_entry(&self, key: &str, i: usize, n: usize) -> (r: Option<&String>)
        requires
            i < n,
        ensures
            match r {
                Some(s) => text_of(entry(self@, key@, i as int, n as int)) == Some(s@),
                None => text_of(entry(self@, key@, i as int, n as int)) is None,
            },
    {
        match self.entry(key, i, n) {
            Some(v) => v.as_text(),
            None => None,
        }
    }

    /// A whole number out of a record of `n` values, by its name or by its place.
    pub fn whole_entry(&self, key: &str, i: usize, n: usize) -> (r: Option<u64>)
        requires
            i < n,
        ensures
            r == whole_of(entry(self@, key@, i as int, n as int)),
    {
        match self.entry(key, i, n) {
            Some(Json::Number(number)) => number.as_u64(),
            _ => None,
        }
    }

    /// The member named `key`, where it is there and a whole number from 0 to 2^64 - 1.
    pub fn get_whole(&self, key: &str) -> (r: Option<u64>)
        ensures
            r == whole_of(member(self@, key@)),
    {
        match self.get(key) {
            Some(Json::Number(n)) => n.as_u64(),
            _ => None,
        }
    }
}

// ── Order of fields ─────────────────────────────────────────────────────────

/// Whether every field stands behind all fields with a smaller name.
pub open spec fn ascending(fields: Seq<(Seq<char>, JsonView)>) -> bool {
    forall|i: int, k: int|
        0 <= i < k < fields.len() ==> text_less((#[trigger] fields[i]).0, (#[trigger] fields[k]).0)
}

/// Whether the fields of every record in `j` stand in ascending order.
pub open spec fn ordered(j: JsonView) -> bool
    decreases j,
{
    match j {
        JsonView::List(items) => forall|i: int|
            0 <= i < items.len() ==> ordered(#[trigger] items[i]),
        JsonView::Record(fields) => ascending(fields) && forall|i: int|
            0 <= i < fields.len() ==> ordered((#[trigger] fields[i]).1),
        _ => true,
    }
}

// ── Changing a value ────────────────────────────────────────────────────────

/// The position of the first field named `key`, or the number of fields.
pub open spec fn field_index(fields: Seq<(Seq<char>, JsonView)>, key: Seq<char>) -> int
    decreases fields.len(),
{
    if fields.len() == 0 || fields[0].0 == key {
        0
    } else {
        1 + field_index(fields.drop_first(), key)
    }
}

/// The position of the first field whose name is greater than `key`, or the
/// number of fields.
pub open spec fn field_slot(fields: Seq<(Seq<char>, JsonView)>, key: Seq<char>) -> int
    decreases fields.len(),
{
    if fields.len() == 0 || text_less(key, fields[0].0) {
        0
    } else {
        1 + field_slot(fields.drop_first(), key)
    }
}

/// `fields` with the value `value` for `key`: in the place of the old value
/// where there is one, else in the order of the names.
pub open spec fn with_field(
    fields: Seq<(Seq<char>, JsonView)>,
    key: Seq<char>,
    value: JsonView,
) -> Seq<(Seq<char>, JsonView)> {
    if field_of(fields, key) is Some {
        fields.update(field_index(fields, key), (key, value))
    } else {
        fields.insert(field_slot(fields, key), (key, value))
    }
}

/// `fields` without the field named `key`.
pub open spec fn without_field(fields: Seq<(Seq<char>, JsonView)>, key: Seq<char>) -> Seq<
    (Seq<char>, JsonView),
>
    decreases fields.len(),
{
    if fields.len() == 0 {
        Seq::empty()
    } else {
        let before = without_field(fields.drop_last(), key);
        if fields.last().0 == key {
            before
        } else {
            before.push(fields.last())
        }
    }
}

/// `j` with the member `key` set to `value`, where `j` is a record.
pub open spec fn with_member(j: JsonView, key: Seq<char>, value: JsonView) -> JsonView {
    match j {
        JsonView::Record(fields) => JsonView::Record(with_field(fields, key, value)),
        _ => j,
    }
}

/// `j` without the member `key`.
pub open spec fn without_member(j: JsonView, key: Seq<char>) -> JsonView {
    match j {
        JsonView::Record(fields) => JsonView::Record(without_field(fields, key)),
        _ => j,
    }
}

/// The index of a field is that of the first one with its name, or the number of
/// fields where none has it.
pub proof fn lemma_field_index(fields: Seq<(Seq<char>, JsonView)>, key: Seq<char>)
    ensures
        0 <= field_index(fields, key) <= fields.len(),
        field_of(fields, key) is Some <==> field_index(fields, key) < fields.len(),
        field_of(fields, key) is Some ==> is_field_at(fields, key, field_index(fields, key))
            && fields[field_index(fields, key)].1 == field_of(fields, key)->0,
        forall|k: int| 0 <= k < field_index(fields, key) ==> (#[trigger] fields[k]).0 != key,
    decreases fields.len(),
{
    if fields.len() > 0 && fields[0].0 != key {
        let rest = fields.drop_first();
        lemma_field_index(rest, key);
        let p = field_index(fields, key);
        assert forall|k: int| 0 <= k < p implies (#[trigger] fields[k]).0 != key by {
            if k > 0 {
                assert(fields[k] == rest[k - 1]);
            }
        }
        if p < fields.len() {
            assert(fields[p] == rest[p - 1]);
        }
    }
}

proof fn lemma_field_slot(fields: Seq<(Seq<char>, JsonView)>, key: Seq<char>)
    ensures
        0 <= field_slot(fields, key) <= fields.len(),
        forall|k: int|
            0 <= k < field_slot(fields, key) ==> !text_less(key, (#[trigger] fields[k]).0),
        field_slot(fields, key) < fields.len() ==> text_less(
            key,
            fields[field_slot(fields, key)].0,
        ),
    decreases fields.len(),
{
    if fields.len() > 0 && !text_less(key, fields[0].0) {
        let rest = fields.drop_first();
        lemma_field_slot(rest, key);
        let p = field_slot(fields, key);
        assert forall|k: int| 0 <= k < p implies !text_less(key, (#[trigger] fields[k]).0) by {
            if k > 0 {
                assert(fields[k] == rest[k - 1]);
            }
        }
        if p < fields.len() {
            assert(fields[p] == rest[p - 1]);
        }
    }
}

proof fn lemma_index_unique(fields: Seq<(Seq<char>, JsonView)>, key: Seq<char>, i: int)
    requires
        is_field_at(fields, key, i),
    ensures
        field_index(fields, key) == i,
    decreases i,
{
    if i > 0 {
        let rest = fields.drop_first();
        assert(fields[0].0 != key);
        assert forall|k: int| 0 <= k < i - 1 implies (#[trigger] rest[k]).0 != key by {
            assert(rest[k] == fields[k + 1]);
        }
        lemma_index_unique(rest, key, i - 1);
    }
}

proof fn lemma_slot_unique(fields: Seq<(Seq<char>, JsonView)>, key: Seq<char>, i: int)
    requires
        0 <= i <= fields.len(),
        forall|k: int| 0 <= k < i ==> !text_less(key, (#[trigger] fields[k]).0),
        i < fields.len() ==> text_less(key, fields[i].0),
    ensures
        field_slot(fields, key) == i,
    decreases i,
{
    if i > 0 {
        let rest = fields.drop_first();
        assert(!text_less(key, fields[0].0));
        assert forall|k: int| 0 <= k < i - 1 implies !text_less(
            key,
            (#[trigger] rest[k]).0,
        ) by {
            assert(rest[k] == fields[k + 1]);
        }
        lemma_slot_unique(rest, key, i - 1);
    }
}

/// A member that was set reads back, and every other member reads as before.
pub proof fn lemma_set_member_reads_back(
    j: JsonView,
    key: Seq<char>,
    value: JsonView,
    other: Seq<char>,
)
    ensures
        j is Record ==> member(with_member(j, key, value), key) == Some(value),
        other != key ==> member(with_member(j, key, value), other) == member(j, other),
{
    if let JsonView::Record(fields) = j {
        lemma_field_index(fields, key);
        lemma_field_slot(fields, key);
        lemma_field_index(fields, other);
        let p = field_index(fields, key);
        let q = field_slot(fields, key);
        let o = field_index(fields, other);
        let new = with_field(fields, key, value);
        if field_of(fields, key) is Some {
            assert(is_field_at(new, key, p));
            lemma_field_found(new, key, p);
            if other != key {
                if o < fields.len() {
                    assert(is_field_at(new, other, o));
                    lemma_field_found(new, other, o);
                } else {
                    lemma_field_missing(new, other);
                }
            }
        } else {
            assert(forall|k: int|
                0 <= k < new.len() ==> #[trigger] new[k] == (if k < q {
                    fields[k]
                } else if k == q {
                    (key, value)
                } else {
                    fields[k - 1]
                }));
            assert(is_field_at(new, key, q));
            lemma_field_found(new, key, q);
            if other != key {
                if o < fields.len() {
                    let at = if o < q {
                        o
                    } else {
                        o + 1
                    };
                    assert(is_field_at(new, other, at));
                    lemma_field_found(new, other, at);
                } else {
                    lemma_field_missing(new, other);
                }
            }
        }
    }
}

proof fn lemma_without_field(fields: Seq<(Seq<char>, JsonView)>, key: Seq<char>)
    ensures
        ascending(fields) ==> ascending(without_field(fields, key)),
        forall|i: int|
            0 <= i < without_field(fields, key).len() ==> exists|k: int|
                0 <= k < fields.len() && (#[trigger] fields[k]) == (#[trigger] without_field(
                    fields,
                    key,
                )[i]) && fields[k].0 != key,
    decreases fields.len(),
{
    if fields.len() > 0 {
        let init = fields.drop_last();
        let before = without_field(init, key);
        let all = without_field(fields, key);
        lemma_without_field(init, key);
        assert(fields[fields.len() - 1] == fields.last());
        assert forall|i: int| 0 <= i < all.len() implies exists|k: int|
            0 <= k < fields.len() && (#[trigger] fields[k]) == (#[trigger] all[i]) && fields[k].0
                != key by {
            if i < before.len() {
                assert(all[i] == before[i]);
                let m = choose|m: int|
                    0 <= m < init.len() && (#[trigger] init[m]) == before[i] && init[m].0 != key;
                assert(fields[m] == init[m]);
            }
        }
        if ascending(fields) {
            assert(ascending(init)) by {
                assert forall|i: int, k: int| 0 <= i < k < init.len() implies text_less(
                    (#[trigger] init[i]).0,
                    (#[trigger] init[k]).0,
                ) by {
                    assert(text_less(fields[i].0, fields[k].0));
                }
            }
            assert forall|i: int, k: int| 0 <= i < k < all.len() implies text_less(
                (#[trigger] all[i]).0,
                (#[trigger] all[k]).0,
            ) by {
                if k == before.len() {
                    assert(all[i] == before[i]);
                    let m = choose|m: int|
                        0 <= m < init.len() && (#[trigger] init[m]) == before[i] && init[m].0
                            != key;
                    assert(fields[m] == init[m]);
                    assert(text_less(fields[m].0, fields[fields.len() - 1].0));
                } else {
                    assert(text_less(before[i].0, before[k].0));
                }
            }
        }
    }
}

/// A member that was removed is gone, and every other member reads as before.
pub proof fn lemma_removed_member_is_gone(j: JsonView, key: Seq<char>, other: Seq<char>)
    ensures
        member(without_member(j, key), key) is None,
        other != key ==> member(without_member(j, key), other) == member(j, other),
{
    if let JsonView::Record(fields) = j {
        lemma_without_field(fields, key);
        lemma_field_missing(without_field(fields, key), key);
        if other != key {
            lemma_without_field_keeps(fields, key, other);
        }
    }
}

/// A field that is added behind others is found where none of them has its name.
pub proof fn lemma_field_of_push(
    fields: Seq<(Seq<char>, JsonView)>,
    field: (Seq<char>, JsonView),
    key: Seq<char>,
)
    ensures
        field_of(fields.push(field), key) == (if field_of(fields, key) is Some {
            field_of(fields, key)
        } else if field.0 == key {
            Some(field.1)
        } else {
            None
        }),
{
    let all = fields.push(field);
    lemma_field_index(fields, key);
    let o = field_index(fields, key);
    if o < fields.len() {
        assert(is_field_at(all, key, o));
        lemma_field_found(all, key, o);
    } else if field.0 == key {
        assert(is_field_at(all, key, fields.len() as int));
        lemma_field_found(all, key, fields.len() as int);
    } else {
        lemma_field_missing(all, key);
    }
}

proof fn lemma_without_field_keeps(
    fields: Seq<(Seq<char>, JsonView)>,
    key: Seq<char>,
    other: Seq<char>,
)
    requires
        other != key,
    ensures
        field_of(without_field(fields, key), other) == field_of(fields, other),
    decreases fields.len(),
{
    if fields.len() > 0 {
        let init = fields.drop_last();
        lemma_without_field_keeps(init, key, other);
        assert(fields =~= init.push(fields.last()));
        lemma_field_of_push(init, fields.last(), other);
        lemma_field_of_push(without_field(init, key), fields.last(), other);
    }
}

/// Setting a member to an ordered value, and removing a member, keep the fields
/// of every record in ascending order.
pub proof fn lemma_changes_keep_order(j: JsonView, key: Seq<char>, value: JsonView)
    requires
        ordered(j),
    ensures
        ordered(value) ==> ordered(with_member(j, key, value)),
        ordered(without_member(j, key)),
{
    if let JsonView::Record(fields) = j {
        lemma_field_index(fields, key);
        lemma_field_slot(fields, key);
        lemma_without_field(fields, key);
        let kept = without_field(fields, key);
        assert forall|i: int| 0 <= i < kept.len() implies ordered((#[trigger] kept[i]).1) by {
            let m = choose|m: int|
                0 <= m < fields.len() && (#[trigger] fields[m]) == kept[i] && fields[m].0 != key;
            assert(ordered(fields[m].1));
        }
        if ordered(value) {
            let new = with_field(fields, key, value);
            let p = field_index(fields, key);
            let q = field_slot(fields, key);
            if field_of(fields, key) is Some {
                assert(forall|k: int|
                    0 <= k < new.len() ==> (#[trigger] new[k]).0 == fields[k].0);
                assert forall|i: int, k: int| 0 <= i < k < new.len() implies text_less(
                    (#[trigger] new[i]).0,
                    (#[trigger] new[k]).0,
                ) by {
                    assert(text_less(fields[i].0, fields[k].0));
                }
                assert forall|i: int| 0 <= i < new.len() implies ordered((#[trigger] new[i]).1) by {
                    if i != p {
                        assert(new[i] == fields[i]);
                    }
                }
            } else {
                lemma_field_index(fields, key);
                assert(forall|k: int|
                    0 <= k < new.len() ==> #[trigger] new[k] == (if k < q {
                        fields[k]
                    } else if k == q {
                        (key, value)
                    } else {
                        fields[k - 1]
                    }));
                assert forall|k: int| 0 <= k < fields.len() implies (if k < q {
                    text_less((#[trigger] fields[k]).0, key)
                } else {
                    text_less(key, fields[k].0)
                }) by {
                    if k < q {
                        assert(fields[k].0 != key);
                        lemma_less_total(fields[k].0, key);
                    } else if k > q {
                        assert(text_less(fields[q].0, fields[k].0));
                        lemma_less_transitive(key, fields[q].0, fields[k].0);
                    }
                }
                assert forall|i: int, k: int| 0 <= i < k < new.len() implies text_less(
                    (#[trigger] new[i]).0,
                    (#[trigger] new[k]).0,
                ) by {
                    let a = if i < q {
                        i
                    } else {
                        i - 1
                    };
                    let b = if k < q {
                        k
                    } else {
                        k - 1
                    };
                    if i != q && k != q {
                        assert(text_less(fields[a].0, fields[b].0));
                    } else if i == q {
                        assert(new[k] == fields[b]);
                        assert(b >= q);
                    } else {
                        assert(new[i] == fields[a]);
                    }
                }
                assert forall|i: int| 0 <= i < new.len() implies ordered((#[trigger] new[i]).1) by {
                    if i < q {
                        assert(new[i] == fields[i]);
                    } else if i > q {
                        assert(new[i] == fields[i - 1]);
                    }
                }
            }
        }
    }
}

/// Setting a member to a text keeps a shallow plain record ordered and plain.
pub proof fn lemma_text_member(j: JsonView, key: Seq<char>, text: Seq<char>)
    requires
        ordered(j),
        plain(j, 100),
        j is Record,
    ensures
        ordered(with_member(j, key, JsonView::Text(text))),
        plain(with_member(j, key, JsonView::Text(text)), 100),
        with_member(j, key, JsonView::Text(text)) is Record,
{
    lemma_plain_member(j, key, JsonView::Text(text), 99);
}

/// Setting a member to an ordered plain value keeps a plain record ordered and
/// plain.
pub proof fn lemma_plain_member(j: JsonView, key: Seq<char>, value: JsonView, depth: nat)
    requires
        ordered(j),
        plain(j, depth + 1),
        j is Record,
        ordered(value),
        plain(value, depth),
    ensures
        ordered(with_member(j, key, value)),
        plain(with_member(j, key, value), depth + 1),
        with_member(j, key, value) is Record,
{
    lemma_changes_keep_order(j, key, value);
    if let JsonView::Record(fields) = j {
        lemma_field_index(fields, key);
        lemma_field_slot(fields, key);
        let new = with_field(fields, key, value);
        assert forall|i: int| 0 <= i < new.len() implies plain((#[trigger] new[i]).1, depth) by {
            if field_of(fields, key) is Some {
                if i != field_index(fields, key) {
                    assert(new[i] == fields[i]);
                }
            } else {
                let q = field_slot(fields, key);
                if i < q {
                    assert(new[i] == fields[i]);
                } else if i > q {
                    assert(new[i] == fields[i - 1]);
                }
            }
        }
    }
}

/// Sets the member `key` of a record to `value`; what is no record stays.
pub fn set_member(json: Json, key: &str, value: Json) -> (r: Json)
    ensures
        r@ == with_member(json@, key@, value@),
{
    match json {
        Json::Record(mut fields) => {
            let ghost before = fields@;
            let ghost view = record_view(before);
            proof {
                lemma_record_view(before);
                lemma_field_index(view, key@);
            }
            match find_field(&fields, key) {
                Some(i) => {
                    proof {
                        lemma_index_unique(view, key@, i as int);
                    }
                    fields.set(i, (key.to_owned(), value));
                    proof {
                        lemma_record_view(fields@);
                        assert(record_view(fields@) =~= view.update(i as int, (key@, value@)));
                    }
                },
                None => {
                    let mut i: usize = 0;
                    while i < fields.len() && !less(key, fields[i].0.as_str())
                        invariant
                            i <= fields@.len(),
                            fields@ == before,
                            view == record_view(before),
                            view.len() == before.len(),
                            forall|k: int| 0 <= k < view.len() ==> #[trigger] view[k] == (
                                before[k].0@,
                                before[k].1@,
                            ),
                            forall|k: int| 0 <= k < i ==> !text_less(key@, (#[trigger] view[k]).0),
                        decreases fields.len() - i,
                    {
                        assert(view[i as int].0 == before[i as int].0@);
                        i = i + 1;
                    }
                    proof {
                        if i < before.len() {
                            assert(view[i as int].0 == before[i as int].0@);
                        }
                        lemma_slot_unique(view, key@, i as int);
                    }
                    fields.insert(i, (key.to_owned(), value));
                    proof {
                        lemma_record_view(fields@);
                        assert(record_view(fields@) =~= view.insert(i as int, (key@, value@)));
                    }
                },
            }
            Json::Record(fields)
        },
        other => other,
    }
}

/// The record that holds the given members; of two with one name the later counts.
pub open spec fn record_of(members: Seq<(Seq<char>, JsonView)>) -> JsonView
    decreases members.len(),
{
    if members.len() == 0 {
        JsonView::Record(Seq::empty())
    } else {
        with_member(record_of(members.drop_last()), members.last().0, members.last().1)
    }
}

/// Whether the values of all members are ordered and nest at most `depth` deep.
pub open spec fn members_plain(members: Seq<(Seq<char>, JsonView)>, depth: nat) -> bool {
    forall|i: int|
        0 <= i < members.len() ==> ordered((#[trigger] members[i]).1) && plain(members[i].1, depth)
}

/// A record that is put together from ordered values is ordered.
pub proof fn lemma_record_of_ordered(members: Seq<(Seq<char>, JsonView)>)
    requires
        forall|i: int| 0 <= i < members.len() ==> ordered((#[trigger] members[i]).1),
    ensures
        ordered(record_of(members)),
        record_of(members) is Record,
    decreases members.len(),
{
    if members.len() > 0 {
        let init = members.drop_last();
        assert forall|i: int| 0 <= i < init.len() implies ordered((#[trigger] init[i]).1) by {
            assert(init[i] == members[i]);
        }
        lemma_record_of_ordered(init);
        assert(members[members.len() - 1] == members.last());
        lemma_changes_keep_order(record_of(init), members.last().0, members.last().1);
    }
}

/// A record of plain values nests one level deeper than they do.
pub proof fn lemma_record_of_plain(members: Seq<(Seq<char>, JsonView)>, depth: nat)
    requires
        members_plain(members, depth),
    ensures
        plain(record_of(members), depth + 1),
        ordered(record_of(members)),
        record_of(members) is Record,
    decreases members.len(),
{
    if members.len() > 0 {
        let init = members.drop_last();
        assert forall|i: int| 0 <= i < init.len() implies ordered((#[trigger] init[i]).1) && plain(
            init[i].1,
            depth,
        ) by {
            assert(init[i] == members[i]);
        }
        lemma_record_of_plain(init, depth);
        assert(members[members.len() - 1] == members.last());
        lemma_plain_member(record_of(init), members.last().0, members.last().1, depth);
    }
}

/// The value of the last member named `key`.
pub open spec fn last_value(members: Seq<(Seq<char>, JsonView)>, key: Seq<char>) -> Option<JsonView>
    decreases members.len(),
{
    if members.len() == 0 {
        None
    } else if members.last().0 == key {
        Some(members.last().1)
    } else {
        last_value(members.drop_last(), key)
    }
}

/// What a member that is added changes: only the value of its own name.
pub proof fn lemma_last_value_push(
    members: Seq<(Seq<char>, JsonView)>,
    name: Seq<char>,
    value: JsonView,
    key: Seq<char>,
)
    ensures
        last_value(members.push((name, value)), key) == (if name == key {
            Some(value)
        } else {
            last_value(members, key)
        }),
{
    assert(members.push((name, value)).drop_last() =~= members);
}

/// A record that is put together gives each member back: the value of the last
/// one with that name.
pub proof fn lemma_record_of_reads_back(members: Seq<(Seq<char>, JsonView)>, key: Seq<char>)
    ensures
        record_of(members) is Record,
        member(record_of(members), key) == last_value(members, key),
    decreases members.len(),
{
    if members.len() > 0 {
        let init = members.drop_last();
        lemma_record_of_reads_back(init, key);
        lemma_set_member_reads_back(record_of(init), members.last().0, members.last().1, key);
    }
}

/// A member that no later one shares its name with reads back as it was given.
pub proof fn lemma_member_reads_back(members: Seq<(Seq<char>, JsonView)>, i: int)
    requires
        0 <= i < members.len(),
        forall|k: int| i < k < members.len() ==> (#[trigger] members[k]).0 != members[i].0,
    ensures
        member(record_of(members), members[i].0) == Some(members[i].1),
    decreases members.len(),
{
    let init = members.drop_last();
    let key = members[i].0;
    lemma_record_of_reads_back(init, key);
    lemma_set_member_reads_back(record_of(init), members.last().0, members.last().1, key);
    if i < members.len() - 1 {
        assert(members[members.len() - 1].0 != key);
        assert forall|k: int| i < k < init.len() implies (#[trigger] init[k]).0 != init[i].0 by {
            assert(init[k] == members[k]);
        }
        lemma_member_reads_back(init, i);
    }
}

/// A name that no member has reads back nothing.
pub proof fn lemma_member_missing(members: Seq<(Seq<char>, JsonView)>, key: Seq<char>)
    requires
        forall|k: int| 0 <= k < members.len() ==> (#[trigger] members[k]).0 != key,
    ensures
        member(record_of(members), key) is None,
    decreases members.len(),
{
    if members.len() > 0 {
        let init = members.drop_last();
        assert forall|k: int| 0 <= k < init.len() implies (#[trigger] init[k]).0 != key by {
            assert(init[k] == members[k]);
        }
        assert(members[members.len() - 1].0 != key);
        lemma_member_missing(init, key);
        lemma_record_of_reads_back(init, key);
        lemma_set_member_reads_back(record_of(init), members.last().0, members.last().1, key);
    }
}

/// Puts a record together from its members.
pub fn record(members: Vec<(String, Json)>) -> (r: Json)
    ensures
        r@ == record_of(record_view(members@)),
{
    let ghost all = members@;
    let ghost view = record_view(all);
    proof {
        lemma_record_view(all);
    }
    let none: Vec<(String, Json)> = Vec::new();
    let mut r = Json::Record(none);
    assert(view.take(0) =~= Seq::<(Seq<char>, JsonView)>::empty());
    assert(r@ == JsonView::Record(Seq::empty()));
    for entry in it: members
        invariant
            it.seq() == all,
            view == record_view(all),
            view.len() == all.len(),
            forall|i: int| 0 <= i < view.len() ==> #[trigger] view[i] == (all[i].0@, all[i].1@),
            r@ == record_of(view.take(it.index() as int)),
    {
        let ghost k = it.index() as int;
        proof {
            assert(entry == all[k]);
            assert(view.take(k + 1).drop_last() =~= view.take(k));
            assert(view.take(k + 1).last() == view[k]);
        }
        let (name, value) = entry;
        r = set_member(r, name.as_str(), value);
    }
    assert(view.take(view.len() as int) =~= view);
    r
}

/// A list of strings as a JSON value.
pub open spec fn text_list(v: Seq<Seq<char>>) -> JsonView {
    JsonView::List(Seq::new(v.len(), |i: int| JsonView::Text(v[i])))
}

/// A list of strings as a JSON value.
pub fn list_of_texts(v: &Vec<String>) -> (r: Json)
    ensures
        r@ == text_list(texts(v@)),
        ordered(r@),
        plain(r@, 99),
{
    let mut items: Vec<Json> = Vec::new();
    let mut i: usize = 0;
    while i < v.len()
        invariant
            i <= v@.len(),
            items@.len() == i,
            forall|k: int| 0 <= k < i ==> (#[trigger] items@[k])@ == JsonView::Text(v@[k]@),
        decreases v.len() - i,
    {
        items.push(Json::Text(v[i].clone()));
        i = i + 1;
    }
    proof {
        lemma_list_view(items@);
        assert(list_view(items@) =~= Seq::new(
            texts(v@).len(),
            |k: int| JsonView::Text(texts(v@)[k]),
        ));
        let view = list_view(items@);
        assert(forall|k: int| 0 <= k < view.len() ==> ordered(#[trigger] view[k]));
        assert(forall|k: int| 0 <= k < view.len() ==> plain(#[trigger] view[k], 98));
    }
    Json::List(items)
}

/// The strings of a JSON value that is a list of strings.
pub open spec fn texts_in(j: JsonView) -> Option<Seq<Seq<char>>> {
    match j {
        JsonView::List(items) => if forall|i: int|
            0 <= i < items.len() ==> (#[trigger] items[i]) is Text {
            Some(Seq::new(items.len(), |i: int| items[i]->Text_0))
        } else {
            None
        },
        _ => None,
    }
}

/// The strings of a JSON value that is a list of strings.
pub fn texts_of_list(j: Json) -> (r: Option<Vec<String>>)
    ensures
        match r {
            Some(v) => texts_in(j@) == Some(texts(v@)),
            None => texts_in(j@) is None,
        },
{
    let ghost whole = j@;
    match j {
        Json::List(items) => {
            let ghost view = list_view(items@);
            proof {
                lemma_list_view(items@);
            }
            let mut out: Vec<String> = Vec::new();
            let mut i: usize = 0;
            while i < items.len()
                invariant
                    i <= items@.len(),
                    whole == JsonView::List(view),
                    whole == j@,
                    view == list_view(items@),
                    view.len() == items@.len(),
                    forall|k: int| 0 <= k < view.len() ==> #[trigger] view[k] == items@[k]@,
                    out@.len() == i,
                    forall|k: int|
                        0 <= k < i ==> (#[trigger] view[k]) is Text && view[k]->Text_0
                            == out@[k]@,
                decreases items.len() - i,
            {
                assert(view[i as int] == items@[i as int]@);
                match &items[i] {
                    Json::Text(s) => {
                        out.push(s.clone());
                    },
                    _ => {
                        assert(!(view[i as int] is Text));
                        assert(texts_in(whole) is None);
                        return None;
                    },
                }
                i = i + 1;
            }
            assert(texts(out@) =~= Seq::new(view.len(), |k: int| view[k]->Text_0));
            Some(out)
        },
        _ => None,
    }
}

/// A map from strings to strings as a JSON record.
pub open spec fn pairs_record(pairs: Seq<(String, String)>) -> JsonView {
    record_of(Seq::new(pairs.len(), |i: int| (pairs[i].0@, JsonView::Text(pairs[i].1@))))
}

/// A map from strings to strings as a JSON record.
pub fn record_of_pairs(pairs: &Vec<(String, String)>) -> (r: Json)
    ensures
        r@ == pairs_record(pairs@),
        ordered(r@),
        plain(r@, 99),
{
    let mut members: Vec<(String, Json)> = Vec::new();
    let mut i: usize = 0;
    while i < pairs.len()
        invariant
            i <= pairs@.len(),
            members@.len() == i,
            forall|k: int|
                0 <= k < i ==> (#[trigger] members@[k]).0@ == pairs@[k].0@ && members@[k].1@
                    == JsonView::Text(pairs@[k].1@),
        decreases pairs.len() - i,
    {
        members.push((pairs[i].0.clone(), Json::Text(pairs[i].1.clone())));
        i = i + 1;
    }
    proof {
        lemma_record_view(members@);
        let view = record_view(members@);
        assert(view =~= Seq::new(
            pairs@.len(),
            |k: int| (pairs@[k].0@, JsonView::Text(pairs@[k].1@)),
        ));
        lemma_flat_record(view);
    }
    record(members)
}

/// A map that was made a record gives each value back.
pub proof fn lemma_pairs_record_reads_back(pairs: Seq<(String, String)>, key: Seq<char>)
    ensures
        text_of(member(pairs_record(pairs), key)) == (if pairs_map(pairs).contains_key(key) {
            Some(pairs_map(pairs)[key])
        } else {
            None
        }),
    decreases pairs.len(),
{
    let members = Seq::new(pairs.len(), |i: int| (pairs[i].0@, JsonView::Text(pairs[i].1@)));
    lemma_record_of_reads_back(members, key);
    if pairs.len() > 0 {
        let init = pairs.drop_last();
        lemma_pairs_record_reads_back(init, key);
        let before = Seq::new(init.len(), |i: int| (init[i].0@, JsonView::Text(init[i].1@)));
        lemma_record_of_reads_back(before, key);
        assert(members.drop_last() =~= before);
    }
}

proof fn lemma_flat_record(members: Seq<(Seq<char>, JsonView)>)
    requires
        forall|i: int| 0 <= i < members.len() ==> (#[trigger] members[i]).1 is Text,
    ensures
        ordered(record_of(members)),
        plain(record_of(members), 99),
        record_of(members) is Record,
    decreases members.len(),
{
    if members.len() > 0 {
        let init = members.drop_last();
        assert forall|i: int| 0 <= i < init.len() implies (#[trigger] init[i]).1 is Text by {
            assert(init[i] == members[i]);
        }
        lemma_flat_record(init);
        assert(members[members.len() - 1] == members.last());
        let last = members.last();
        lemma_changes_keep_order(record_of(init), last.0, last.1);
        if let JsonView::Record(fields) = record_of(init) {
            lemma_field_index(fields, last.0);
            lemma_field_slot(fields, last.0);
            let new = with_field(fields, last.0, last.1);
            assert forall|i: int| 0 <= i < new.len() implies plain((#[trigger] new[i]).1, 98) by {
                if field_of(fields, last.0) is Some {
                    if i != field_index(fields, last.0) {
                        assert(new[i] == fields[i]);
                    }
                } else {
                    let q = field_slot(fields, last.0);
                    if i < q {
                        assert(new[i] == fields[i]);
                    } else if i > q {
                        assert(new[i] == fields[i - 1]);
                    }
                }
            }
        }
    }
}

/// `list` with a member behind it, where there is a value for it.
pub open spec fn add_member(
    list: Seq<(Seq<char>, JsonView)>,
    name: Seq<char>,
    value: Option<JsonView>,
) -> Seq<(Seq<char>, JsonView)> {
    match value {
        Some(v) => list.push((name, v)),
        None => list,
    }
}

/// A member that is added is the one that is read, where it is there at all; all others
/// read as before.
pub proof fn lemma_added(
    list: Seq<(Seq<char>, JsonView)>,
    name: Seq<char>,
    value: Option<JsonView>,
    key: Seq<char>,
)
    ensures
        last_value(add_member(list, name, value), key) == (if name == key && value is Some {
            value
        } else {
            last_value(list, key)
        }),
{
    if let Some(v) = value {
        lemma_last_value_push(list, name, v, key);
    }
}

/// A string as a member, where it is there.
pub open spec fn opt_text_value(v: Option<String>) -> Option<JsonView> {
    match v {
        Some(s) => Some(JsonView::Text(s@)),
        None => None,
    }
}

/// A number as a member, where it is there.
pub open spec fn opt_number_value(v: Option<u64>) -> Option<JsonView> {
    match v {
        Some(n) => Some(JsonView::Number(whole_number(n))),
        None => None,
    }
}

pub(crate) fn push_member(list: &mut Vec<(String, Json)>, name: &str, value: Json)
    requires
        ordered(value@),
        all_values_ordered(record_view(old(list)@)),
    ensures
        record_view(final(list)@) == record_view(old(list)@).push((name@, value@)),
        all_values_ordered(record_view(final(list)@)),
        members_plain(record_view(old(list)@), 99) && plain(value@, 99) ==> members_plain(
            record_view(final(list)@),
            99,
        ),
{
    let ghost before = list@;
    list.push((name.to_owned(), value));
    proof {
        assert(list@.drop_last() =~= before);
        let view = record_view(list@);
        let old_view = record_view(before);
        assert forall|i: int| 0 <= i < view.len() implies ordered((#[trigger] view[i]).1) by {
            if i < old_view.len() {
                assert(view[i] == old_view[i]);
            }
        }
    }
}

/// Whether the value of every member is ordered.
pub open spec fn all_values_ordered(members: Seq<(Seq<char>, JsonView)>) -> bool {
    forall|i: int| 0 <= i < members.len() ==> ordered((#[trigger] members[i]).1)
}

/// Takes the member `key` out of a record; what is no record stays.
pub fn remove_member(json: Json, key: &str) -> (r: Json)
    ensures
        r@ == without_member(json@, key@),
{
    match json {
        Json::Record(fields) => {
            let ghost all = fields@;
            let ghost view = record_view(all);
            proof {
                lemma_record_view(all);
            }
            let mut kept: Vec<(String, Json)> = Vec::new();
            assert(view.take(0) =~= Seq::<(Seq<char>, JsonView)>::empty());
            for field in it: fields
                invariant
                    it.seq() == all,
                    view == record_view(all),
                    view.len() == all.len(),
                    forall|i: int|
                        0 <= i < view.len() ==> #[trigger] view[i] == (all[i].0@, all[i].1@),
                    record_view(kept@) == without_field(view.take(it.index() as int), key@),
            {
                let ghost k = it.index() as int;
                proof {
                    assert(field == all[k]);
                    assert(view.take(k + 1).drop_last() =~= view.take(k));
                    assert(view.take(k + 1).last() == view[k]);
                }
                if !same(field.0.as_str(), key) {
                    let ghost before = kept@;
                    kept.push(field);
                    assert(kept@.drop_last() =~= before);
                }
            }
            assert(view.take(view.len() as int) =~= view);
            Json::Record(kept)
        },
        other => other,
    }
}

/// Takes the value of the member `key` out of a record, if it has one, and
/// leaves `Null` in its place.
pub fn take_member(json: &mut Json, key: &str) -> (r: Option<Json>)
    ensures
        match r {
            Some(v) => member(old(json)@, key@) == Some(v@) && final(json)@ == with_member(
                old(json)@,
                key@,
                JsonView::Null,
            ),
            None => member(old(json)@, key@) is None && final(json)@ == old(json)@,
        },
{
    let mut whole = Json::Null;
    core::mem::swap(json, &mut whole);
    match whole {
        Json::Record(mut fields) => {
            let ghost before = fields@;
            let ghost view = record_view(before);
            proof {
                lemma_record_view(before);
            }
            match find_field(&fields, key) {
                Some(i) => {
                    proof {
                        lemma_index_unique(view, key@, i as int);
                    }
                    let (name, value) = fields.remove(i);
                    fields.insert(i, (name, Json::Null));
                    proof {
                        lemma_record_view(fields@);
                        assert(record_view(fields@) =~= view.update(
                            i as int,
                            (key@, JsonView::Null),
                        ));
                    }
                    *json = Json::Record(fields);
                    Some(value)
                },
                None => {
                    *json = Json::Record(fields);
                    None
                },
            }
        },
        other => {
            *json = other;
            None
        },
    }
}

/// Setting a member twice is setting it to the second value.
pub proof fn lemma_set_member_twice(j: JsonView, key: Seq<char>, v: JsonView, w: JsonView)
    ensures
        with_member(with_member(j, key, v), key, w) == with_member(j, key, w),
{
    if let JsonView::Record(fields) = j {
        lemma_set_member_reads_back(j, key, v, key);
        lemma_field_index(fields, key);
        lemma_field_slot(fields, key);
        let new = with_field(fields, key, v);
        lemma_field_index(new, key);
        if field_of(fields, key) is Some {
            let p = field_index(fields, key);
            assert(is_field_at(new, key, p));
            lemma_index_unique(new, key, p);
            assert(new.update(p, (key, w)) =~= fields.update(p, (key, w)));
        } else {
            let q = field_slot(fields, key);
            assert(forall|k: int| 0 <= k < q ==> #[trigger] new[k] == fields[k]);
            assert(is_field_at(new, key, q));
            lemma_index_unique(new, key, q);
            assert(new.update(q, (key, w)) =~= fields.insert(q, (key, w)));
        }
    }
}

// ── Text ────────────────────────────────────────────────────────────────────

/// The length of the longest string among the values in `j`.
pub open spec fn text_bound(j: JsonView) -> nat
    decreases j,
{
    match j {
        JsonView::Text(s) => s.len(),
        JsonView::List(items) => list_bound(items),
        JsonView::Record(fields) => record_bound(fields),
        _ => 0,
    }
}

/// The length of the longest string among the values in a list.
pub open spec fn list_bound(items: Seq<JsonView>) -> nat
    decreases items,
{
    if items.len() == 0 {
        0
    } else {
        let a = list_bound(items.drop_last());
        let b = text_bound(items.last());
        if a < b {
            b
        } else {
            a
        }
    }
}

/// The length of the longest string among the values in fields.
pub open spec fn record_bound(fields: Seq<(Seq<char>, JsonView)>) -> nat
    decreases fields,
{
    if fields.len() == 0 {
        0
    } else {
        let a = record_bound(fields.drop_last());
        let b = text_bound(fields.last().1);
        if a < b {
            b
        } else {
            a
        }
    }
}

/// Whether a number is a whole number from -2^63 to 2^64 - 1.
pub open spec fn is_integer(n: JsonNumber) -> bool {
    n.value() is Some || exists|k: i64| n == #[trigger] signed_number(k)
}

/// Whether `j` nests at most `depth` lists and records, and every number in it
/// is a whole number from -2^63 to 2^64 - 1.
pub open spec fn plain(j: JsonView, depth: nat) -> bool
    decreases j,
{
    match j {
        JsonView::Number(n) => is_integer(n),
        JsonView::List(items) => depth > 0 && forall|i: int|
            0 <= i < items.len() ==> plain(#[trigger] items[i], (depth - 1) as nat),
        JsonView::Record(fields) => depth > 0 && forall|i: int|
            0 <= i < fields.len() ==> plain((#[trigger] fields[i]).1, (depth - 1) as nat),
        _ => true,
    }
}

/// Whether two values differ in their numbers at most.
pub open spec fn alike(a: JsonView, b: JsonView) -> bool
    decreases a,
{
    match (a, b) {
        (JsonView::Number(_), JsonView::Number(_)) => true,
        (JsonView::List(xs), JsonView::List(ys)) => xs.len() == ys.len() && forall|i: int|
            0 <= i < xs.len() ==> alike(#[trigger] xs[i], ys[i]),
        (JsonView::Record(xs), JsonView::Record(ys)) => xs.len() == ys.len() && forall|i: int|
            0 <= i < xs.len() ==> (#[trigger] xs[i]).0 == ys[i].0 && alike(xs[i].1, ys[i].1),
        _ => a == b,
    }
}

/// Whether a text begins as the text of a value does.
pub open spec fn begins_value(text: Seq<char>) -> bool {
    text.len() > 0 && (text[0] == '{' || text[0] == '[' || text[0] == '"' || text[0] == '-'
        || text[0] == 't' || text[0] == 'f' || text[0] == 'n' || '0' <= text[0] <= '9')
}

/// What a `serde_json` value says, its record fields in the order in which the
/// value's maps are walked.
pub uninterp spec fn value_view(value: serde_json::Value) -> JsonView;

/// The value that `serde_json` reads from a text, or `None` where it rejects
/// the text.
pub uninterp spec fn parsed(text: Seq<char>) -> Option<JsonView>;

/// The compact text that `serde_json` prints for a value.
pub uninterp spec fn compact(value: JsonView) -> Seq<char>;

/// The indented text that `serde_json` prints for a value.
pub uninterp spec fn pretty(value: JsonView) -> Seq<char>;

/// `serde_json::from_str` at `serde_json::Value`: one text gives one value or
/// is rejected. Each string among the values stands in the text between two
/// quotes, and each of its characters is written with at least one, so it is
/// shorter than the text.
#[verifier::external_body]
fn value_from_str(text: &str) -> (r: Option<serde_json::Value>)
    ensures
        match r {
            Some(v) => parsed(text@) == Some(value_view(v)) && text_bound(value_view(v))
                < text@.len(),
            None => parsed(text@) is None,
        },
{
    serde_json::from_str::<serde_json::Value>(text).ok()
}

/// `Display` of `serde_json::Value`, which prints the value compactly: nothing
/// stands between its tokens, and control characters in strings are escaped, so
/// the text is one line. Text, truth values and whole numbers are printed exactly,
/// and the parser takes up to 127 levels, so such a value reads back as it was. Other
/// numbers may read back as another number. The text begins with a brace, a bracket, a
/// quote, a digit, a minus sign, or a letter of `true`, `false` or `null`.
#[verifier::external_body]
fn value_to_compact(value: &serde_json::Value) -> (r: String)
    ensures
        r@ == compact(value_view(*value)),
        !r@.contains('\n'),
        begins_value(r@),
        parsed(r@) matches Some(w) ==> alike(w, value_view(*value)),
        plain(value_view(*value), 100) ==> parsed(r@) == Some(value_view(*value)),
{
    format!("{}", value)
}

/// The alternate `Display` of `serde_json::Value`, which prints it indented, as
/// `serde_json::to_string_pretty` does. Text, truth values and whole numbers are
/// printed exactly, and the parser takes up to 127 levels, so such a value reads
/// back as it was; of other numbers nothing is said.
#[verifier::external_body]
fn value_to_pretty(value: &serde_json::Value) -> (r: String)
    ensures
        r@ == pretty(value_view(*value)),
        plain(value_view(*value), 100) ==> parsed(r@) == Some(value_view(*value)),
{
    format!("{:#}", value)
}

/// Takes a `serde_json::Value` apart, variant by variant. Its maps are B-tree
/// maps, so a record's fields come in ascending order.
#[verifier::external_body]
fn read_value(value: serde_json::Value) -> (r: Json)
    ensures
        r@ == value_view(value),
        ordered(r@),
{
    match value {
        serde_json::Value::Null => Json::Null,
        serde_json::Value::Bool(b) => Json::Bool(b),
        serde_json::Value::Number(raw) => Json::Number(JsonNumber { whole: raw.as_u64(), raw }),
        serde_json::Value::String(s) => Json::Text(s),
        serde_json::Value::Array(v) => Json::List(v.into_iter().map(read_value).collect()),
        serde_json::Value::Object(m) => {
            Json::Record(m.into_iter().map(|(k, v)| (k, read_value(v))).collect())
        },
    }
}

/// Builds the `serde_json::Value` with the same contents, variant by variant.
/// Where the fields of every record are in ascending order, its maps hold them
/// in that order.
#[verifier::external_body]
fn write_value(json: &Json) -> (r: serde_json::Value)
    ensures
        ordered(json@) ==> value_view(r) == json@,
{
    match json {
        Json::Null => serde_json::Value::Null,
        Json::Bool(b) => serde_json::Value::Bool(*b),
        Json::Number(n) => serde_json::Value::Number(n.raw.clone()),
        Json::Text(s) => serde_json::Value::String(s.clone()),
        Json::List(v) => serde_json::Value::Array(v.iter().map(write_value).collect()),
        Json::Record(m) => serde_json::Value::Object(
            m.iter().map(|(k, v)| (k.clone(), write_value(v))).collect(),
        ),
    }
}

/// Reads a JSON text.
pub fn parse(text: &str) -> (r: Option<Json>)
    ensures
        match r {
            Some(j) => parsed(text@) == Some(j@) && ordered(j@) && text_bound(j@) < text@.len(),
            None => parsed(text@) is None,
        },
{
    match value_from_str(text) {
        Some(v) => Some(read_value(v)),
        None => None,
    }
}

/// Prints a value compactly, on one line. A value of text, truth values and whole
/// numbers reads back.
pub fn to_compact(json: &Json) -> (r: String)
    ensures
        ordered(json@) ==> r@ == compact(json@),
        !r@.contains('\n'),
        begins_value(r@),
        ordered(json@) && parsed(r@) is Some ==> alike(parsed(r@)->0, json@),
        ordered(json@) && plain(json@, 100) ==> parsed(r@) == Some(json@),
{
    let value = write_value(json);
    value_to_compact(&value)
}

/// Prints a value indented. A value of text, truth values and whole numbers
/// reads back.
pub fn to_pretty(json: &Json) -> (r: String)
    ensures
        ordered(json@) ==> r@ == pretty(json@),
        ordered(json@) && plain(json@, 100) ==> parsed(r@) == Some(json@),
{
    let value = write_value(json);
    value_to_pretty(&value)
}

} // verus!
