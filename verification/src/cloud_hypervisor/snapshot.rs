//! Patching the configuration and the device state of a Cloud Hypervisor
//! snapshot before a restore.

use crate::json::{
    alike, ascending, begins_value, compact, entry, field_index, field_of, lemma_changes_keep_order,
    lemma_field_index, lemma_field_of_push, lemma_list_view, lemma_record_view,
    lemma_removed_member_is_gone, lemma_set_member_reads_back, lemma_set_member_twice,
    lemma_text_member, list_bound, list_view, member, ordered, parse, parsed, plain, pretty,
    record_bound, record_view, remove_member, set_member, take_member, text_bound, text_of,
    to_compact, to_pretty, whole_of, with_member, without_member, Json, JsonView,
};
use crate::template::SnapshotType;
use crate::text::{concat, concat3, same, starts_with, text_less, texts};
use vstd::prelude::*;

verus! {

// ── Device state ────────────────────────────────────────────────────────────

/// Whether a key names a virtio-net device or its PCI transport wrapper.
pub open spec fn net_device_key(key: Seq<char>) -> bool {
    "intf-"@.is_prefix_of(key) || "_virtio-pci-intf-"@.is_prefix_of(key)
}

/// Whether a key names a virtio-net device or its PCI transport wrapper.
///
/// Every tap-backed virtio-net device is called `intf-{link_index}`, and each
/// virtio device is wrapped in a PCI transport called `_virtio-pci-{id}`.
pub fn is_net_device_key(key: &str) -> (r: bool)
    ensures
        r == net_device_key(key@),
{
    starts_with(key, "intf-") || starts_with(key, "_virtio-pci-intf-")
}

/// The names of network devices are those that begin as the names of tap devices or of
/// their PCI transports do, whatever follows; and no other name is one.
pub proof fn lemma_names_of_network_devices(key: Seq<char>, link: Seq<char>)
    ensures
        net_device_key("intf-"@ + link),
        net_device_key("_virtio-pci-intf-"@ + link),
        net_device_key(key) ==> exists|rest: Seq<char>|
            key == #[trigger] ("intf-"@ + rest) || key == "_virtio-pci-intf-"@ + rest,
{
    assert("intf-"@.is_prefix_of("intf-"@ + link));
    assert("_virtio-pci-intf-"@.is_prefix_of("_virtio-pci-intf-"@ + link));
    if "intf-"@.is_prefix_of(key) {
        let rest = key.skip("intf-"@.len() as int);
        assert(key =~= "intf-"@ + rest);
    } else if "_virtio-pci-intf-"@.is_prefix_of(key) {
        let rest = key.skip("_virtio-pci-intf-"@.len() as int);
        assert(key =~= "_virtio-pci-intf-"@ + rest);
        assert("intf-"@ + rest == "intf-"@ + rest);
    }
}

/// Whether a list item is a network device: its `id` names one.
pub open spec fn net_device_item(item: JsonView) -> bool {
    match text_of(member(item, "id"@)) {
        Some(id) => net_device_key(id),
        None => false,
    }
}

/// `j` without its network devices: without the record fields whose key and the
/// list items whose `id` names one, at every depth. A string that is itself JSON
/// with such an entry is replaced by the text of the stripped value.
pub open spec fn stripped(j: JsonView) -> JsonView
    decreases text_bound(j), j,
{
    match j {
        JsonView::List(items) => JsonView::List(stripped_list(items)),
        JsonView::Record(fields) => JsonView::Record(stripped_fields(fields)),
        JsonView::Text(s) => match parsed(s) {
            Some(inner) => if text_bound(inner) < s.len() && removed(inner) > 0 {
                JsonView::Text(compact(stripped(inner)))
            } else {
                j
            },
            None => j,
        },
        _ => j,
    }
}

/// A list without the items that are network devices, the others stripped.
pub open spec fn stripped_list(items: Seq<JsonView>) -> Seq<JsonView>
    decreases list_bound(items), items,
{
    if items.len() == 0 {
        Seq::empty()
    } else {
        let before = stripped_list(items.drop_last());
        if net_device_item(items.last()) {
            before
        } else {
            before.push(stripped(items.last()))
        }
    }
}

/// Fields without those of network devices, the others stripped.
pub open spec fn stripped_fields(fields: Seq<(Seq<char>, JsonView)>) -> Seq<(Seq<char>, JsonView)>
    decreases record_bound(fields), fields,
{
    if fields.len() == 0 {
        Seq::empty()
    } else {
        let before = stripped_fields(fields.drop_last());
        if net_device_key(fields.last().0) {
            before
        } else {
            before.push((fields.last().0, stripped(fields.last().1)))
        }
    }
}

/// How many entries [`stripped`] takes out of `j`, in all places together.
pub open spec fn removed(j: JsonView) -> nat
    decreases text_bound(j), j,
{
    match j {
        JsonView::List(items) => removed_list(items),
        JsonView::Record(fields) => removed_fields(fields),
        JsonView::Text(s) => match parsed(s) {
            Some(inner) => if text_bound(inner) < s.len() {
                removed(inner)
            } else {
                0
            },
            None => 0,
        },
        _ => 0,
    }
}

/// How many entries stripping removes from a list.
pub open spec fn removed_list(items: Seq<JsonView>) -> nat
    decreases list_bound(items), items,
{
    if items.len() == 0 {
        0
    } else {
        removed_list(items.drop_last()) + if net_device_item(items.last()) {
            1
        } else {
            removed(items.last())
        }
    }
}

/// How many entries stripping removes from fields.
pub open spec fn removed_fields(fields: Seq<(Seq<char>, JsonView)>) -> nat
    decreases record_bound(fields), fields,
{
    if fields.len() == 0 {
        0
    } else {
        removed_fields(fields.drop_last()) + if net_device_key(fields.last().0) {
            1
        } else {
            removed(fields.last().1)
        }
    }
}

/// What holds of the text that replaces a string with network devices in it: it
/// begins as the text of a value does, and what it reads back as differs in numbers at
/// most.
pub open spec fn replaced_well(inner: JsonView) -> bool {
    &&& begins_value(compact(stripped(inner)))
    &&& parsed(compact(stripped(inner))) matches Some(w) ==> alike(w, stripped(inner))
}

/// Whether every string in `j` that is replaced is replaced well.
pub open spec fn printed(j: JsonView) -> bool
    decreases text_bound(j), j,
{
    match j {
        JsonView::List(items) => printed_list(items),
        JsonView::Record(fields) => printed_fields(fields),
        JsonView::Text(s) => match parsed(s) {
            Some(inner) => text_bound(inner) < s.len() && removed(inner) > 0 ==> printed(inner)
                && replaced_well(inner),
            None => true,
        },
        _ => true,
    }
}

/// Whether every string in the items that stay is replaced well.
pub open spec fn printed_list(items: Seq<JsonView>) -> bool
    decreases list_bound(items), items,
{
    items.len() > 0 ==> printed_list(items.drop_last()) && (net_device_item(items.last())
        || printed(items.last()))
}

/// Whether every string in the fields that stay is replaced well.
pub open spec fn printed_fields(fields: Seq<(Seq<char>, JsonView)>) -> bool
    decreases record_bound(fields), fields,
{
    fields.len() > 0 ==> printed_fields(fields.drop_last()) && (net_device_key(fields.last().0)
        || printed(fields.last().1))
}

/// Whether no record in `j` has a field, and no list an item, that is a network
/// device, at any depth.
pub open spec fn no_net_entries(j: JsonView) -> bool
    decreases j,
{
    match j {
        JsonView::List(items) => forall|i: int|
            0 <= i < items.len() ==> !net_device_item(items[i]) && no_net_entries(
                #[trigger] items[i],
            ),
        JsonView::Record(fields) => forall|i: int|
            0 <= i < fields.len() ==> !net_device_key(fields[i].0) && no_net_entries(
                (#[trigger] fields[i]).1,
            ),
        _ => true,
    }
}

/// Whether the same holds inside the strings that hold JSON too.
pub open spec fn no_net_anywhere(j: JsonView) -> bool
    decreases text_bound(j), j,
{
    match j {
        JsonView::List(items) => no_net_list(items),
        JsonView::Record(fields) => no_net_fields(fields),
        JsonView::Text(s) => match parsed(s) {
            Some(inner) => text_bound(inner) < s.len() ==> no_net_anywhere(inner),
            None => true,
        },
        _ => true,
    }
}

/// Whether no item is a network device, nor is anything inside one.
pub open spec fn no_net_list(items: Seq<JsonView>) -> bool
    decreases list_bound(items), items,
{
    items.len() > 0 ==> no_net_list(items.drop_last()) && !net_device_item(items.last())
        && no_net_anywhere(items.last())
}

/// Whether no field is that of a network device, nor is anything inside one.
pub open spec fn no_net_fields(fields: Seq<(Seq<char>, JsonView)>) -> bool
    decreases record_bound(fields), fields,
{
    fields.len() > 0 ==> no_net_fields(fields.drop_last()) && !net_device_key(fields.last().0)
        && no_net_anywhere(fields.last().1)
}

/// `n` as far as a `usize` can count.
pub open spec fn capped(n: nat) -> usize {
    if n <= usize::MAX {
        n as usize
    } else {
        usize::MAX
    }
}

fn is_net_device_item(item: &Json) -> (r: bool)
    ensures
        r == net_device_item(item@),
{
    match item.get_text("id") {
        Some(id) => is_net_device_key(id.as_str()),
        None => false,
    }
}

proof fn lemma_stripped_fields_ordered(fields: Seq<(Seq<char>, JsonView)>)
    requires
        ascending(fields),
        forall|i: int| 0 <= i < fields.len() ==> ordered((#[trigger] fields[i]).1),
    ensures
        ascending(stripped_fields(fields)),
        forall|i: int|
            0 <= i < stripped_fields(fields).len() ==> ordered(
                (#[trigger] stripped_fields(fields)[i]).1,
            ),
        forall|i: int|
            0 <= i < stripped_fields(fields).len() ==> exists|k: int|
                0 <= k < fields.len() && (#[trigger] fields[k]).0 == (
                #[trigger] stripped_fields(fields)[i]).0,
    decreases record_bound(fields), fields,
{
    if fields.len() > 0 {
        let init = fields.drop_last();
        let last = fields.last();
        assert forall|i: int| 0 <= i < init.len() implies ordered((#[trigger] init[i]).1) by {
            assert(init[i] == fields[i]);
        }
        assert forall|i: int, k: int| 0 <= i < k < init.len() implies text_less(
            (#[trigger] init[i]).0,
            (#[trigger] init[k]).0,
        ) by {
            assert(text_less(fields[i].0, fields[k].0));
        }
        lemma_stripped_fields_ordered(init);
        let before = stripped_fields(init);
        let all = stripped_fields(fields);
        assert(fields[fields.len() - 1] == last);
        if !net_device_key(last.0) {
            lemma_stripped_ordered(last.1);
            assert forall|i: int, k: int| 0 <= i < k < all.len() implies text_less(
                (#[trigger] all[i]).0,
                (#[trigger] all[k]).0,
            ) by {
                if k == before.len() {
                    assert(all[i] == before[i]);
                    let m = choose|m: int|
                        0 <= m < init.len() && (#[trigger] init[m]).0 == before[i].0;
                    assert(fields[m] == init[m]);
                    assert(text_less(fields[m].0, fields[fields.len() - 1].0));
                } else {
                    assert(text_less(before[i].0, before[k].0));
                }
            }
        }
        assert forall|i: int| 0 <= i < all.len() implies exists|k: int|
            0 <= k < fields.len() && (#[trigger] fields[k]).0 == (#[trigger] all[i]).0 by {
            if i < before.len() {
                assert(all[i] == before[i]);
                let m = choose|m: int| 0 <= m < init.len() && (#[trigger] init[m]).0 == before[i].0;
                assert(fields[m] == init[m]);
            }
        }
        assert forall|i: int| 0 <= i < all.len() implies ordered((#[trigger] all[i]).1) by {
            if i < before.len() {
                assert(all[i] == before[i]);
            }
        }
    }
}

proof fn lemma_stripped_list_ordered(items: Seq<JsonView>)
    requires
        forall|i: int| 0 <= i < items.len() ==> ordered(#[trigger] items[i]),
    ensures
        forall|i: int|
            0 <= i < stripped_list(items).len() ==> ordered(#[trigger] stripped_list(items)[i]),
    decreases list_bound(items), items,
{
    if items.len() > 0 {
        let init = items.drop_last();
        assert forall|i: int| 0 <= i < init.len() implies ordered(#[trigger] init[i]) by {
            assert(init[i] == items[i]);
        }
        lemma_stripped_list_ordered(init);
        assert(items[items.len() - 1] == items.last());
        if !net_device_item(items.last()) {
            lemma_stripped_ordered(items.last());
        }
        let before = stripped_list(init);
        let all = stripped_list(items);
        assert forall|i: int| 0 <= i < all.len() implies ordered(#[trigger] all[i]) by {
            if i < before.len() {
                assert(all[i] == before[i]);
            }
        }
    }
}

/// Stripping keeps the fields of every record in ascending order.
pub proof fn lemma_stripped_ordered(j: JsonView)
    requires
        ordered(j),
    ensures
        ordered(stripped(j)),
    decreases text_bound(j), j,
{
    match j {
        JsonView::List(items) => {
            lemma_stripped_list_ordered(items);
            let kept = stripped_list(items);
            assert(stripped(j) == JsonView::List(kept));
            assert(forall|i: int| 0 <= i < kept.len() ==> ordered(#[trigger] kept[i]));
        },
        JsonView::Record(fields) => {
            lemma_stripped_fields_ordered(fields);
        },
        _ => {},
    }
}

fn strip_items(items: Vec<Json>) -> (r: (Vec<Json>, usize))
    ensures
        list_view(r.0@) == stripped_list(list_view(items@)),
        r.1 == capped(removed_list(list_view(items@))),
        printed_list(list_view(items@)),
    decreases list_bound(list_view(items@)), list_view(items@),
{
    let ghost all = items@;
    let ghost view = list_view(all);
    proof {
        lemma_list_view(all);
    }
    let mut kept: Vec<Json> = Vec::new();
    let mut count: usize = 0;
    assert(view.take(0) =~= Seq::<JsonView>::empty());
    for item in it: items
        invariant
            it.seq() == all,
            view == list_view(all),
            view.len() == all.len(),
            forall|i: int| 0 <= i < view.len() ==> #[trigger] view[i] == all[i]@,
            list_view(kept@) == stripped_list(view.take(it.index() as int)),
            count == capped(removed_list(view.take(it.index() as int))),
            printed_list(view.take(it.index() as int)),
    {
        let ghost k = it.index() as int;
        proof {
            assert(item == all[k]);
            assert(view.take(k + 1).drop_last() =~= view.take(k));
            assert(view.take(k + 1).last() == view[k]);
            lemma_item_bound(view, k);
        }
        if is_net_device_item(&item) {
            count = count.saturating_add(1);
        } else {
            let (value, n) = strip_value(item);
            count = count.saturating_add(n);
            let ghost before = kept@;
            kept.push(value);
            assert(kept@.drop_last() =~= before);
        }
    }
    assert(view.take(view.len() as int) =~= view);
    (kept, count)
}

proof fn lemma_item_bound(items: Seq<JsonView>, k: int)
    requires
        0 <= k < items.len(),
    ensures
        text_bound(items[k]) <= list_bound(items),
        decreases_to!(items => items[k]),
    decreases items.len(),
{
    if k < items.len() - 1 {
        lemma_item_bound(items.drop_last(), k);
        assert(items.drop_last()[k] == items[k]);
    }
}

proof fn lemma_field_bound(fields: Seq<(Seq<char>, JsonView)>, k: int)
    requires
        0 <= k < fields.len(),
    ensures
        text_bound(fields[k].1) <= record_bound(fields),
        decreases_to!(fields => fields[k].1),
    decreases fields.len(),
{
    assert(decreases_to!(fields => fields[k]));
    if k < fields.len() - 1 {
        lemma_field_bound(fields.drop_last(), k);
        assert(fields.drop_last()[k] == fields[k]);
    }
}

fn strip_fields(fields: Vec<(String, Json)>) -> (r: (Vec<(String, Json)>, usize))
    ensures
        record_view(r.0@) == stripped_fields(record_view(fields@)),
        r.1 == capped(removed_fields(record_view(fields@))),
        printed_fields(record_view(fields@)),
    decreases record_bound(record_view(fields@)), record_view(fields@),
{
    let ghost all = fields@;
    let ghost view = record_view(all);
    proof {
        lemma_record_view(all);
    }
    let mut kept: Vec<(String, Json)> = Vec::new();
    let mut count: usize = 0;
    assert(view.take(0) =~= Seq::<(Seq<char>, JsonView)>::empty());
    for field in it: fields
        invariant
            it.seq() == all,
            view == record_view(all),
            view.len() == all.len(),
            forall|i: int|
                0 <= i < view.len() ==> #[trigger] view[i] == (all[i].0@, all[i].1@),
            record_view(kept@) == stripped_fields(view.take(it.index() as int)),
            count == capped(removed_fields(view.take(it.index() as int))),
            printed_fields(view.take(it.index() as int)),
    {
        let ghost k = it.index() as int;
        proof {
            assert(field == all[k]);
            assert(view.take(k + 1).drop_last() =~= view.take(k));
            assert(view.take(k + 1).last() == view[k]);
            lemma_field_bound(view, k);
        }
        let (name, value) = field;
        if is_net_device_key(name.as_str()) {
            count = count.saturating_add(1);
        } else {
            let (value, n) = strip_value(value);
            count = count.saturating_add(n);
            let ghost before = kept@;
            kept.push((name, value));
            assert(kept@.drop_last() =~= before);
        }
    }
    assert(view.take(view.len() as int) =~= view);
    (kept, count)
}

fn strip_value(value: Json) -> (r: (Json, usize))
    ensures
        r.0@ == stripped(value@),
        r.1 == capped(removed(value@)),
        printed(value@),
    decreases text_bound(value@), value@,
{
    match value {
        Json::List(items) => {
            let (kept, count) = strip_items(items);
            (Json::List(kept), count)
        },
        Json::Record(fields) => {
            let (kept, count) = strip_fields(fields);
            (Json::Record(kept), count)
        },
        Json::Text(s) => {
            match parse(s.as_str()) {
                Some(inner) => {
                    let ghost seen = inner@;
                    let (patched, count) = strip_value(inner);
                    if count > 0 {
                        proof {
                            lemma_stripped_ordered(seen);
                        }
                        (Json::Text(to_compact(&patched)), count)
                    } else {
                        (Json::Text(s), 0)
                    }
                },
                None => (Json::Text(s), 0),
            }
        },
        other => (other, 0),
    }
}

/// Takes the network devices out of a device state, at every depth, and says
/// how many entries went. None is left in a list, in a record, or inside a string that
/// holds JSON, so that a second call removes nothing; and nothing was removed exactly
/// where nothing is changed.
pub fn remove_net_device_state(value: &mut Json) -> (r: usize)
    ensures
        final(value)@ == stripped(old(value)@),
        r == capped(removed(old(value)@)),
        no_net_entries(final(value)@),
        no_net_anywhere(final(value)@),
        r == 0 <==> final(value)@ == old(value)@,
{
    let mut whole = Json::Null;
    core::mem::swap(value, &mut whole);
    let (patched, count) = strip_value(whole);
    *value = patched;
    proof {
        let before = old(value)@;
        lemma_no_entries_left(before);
        lemma_nothing_removed_iff_none(stripped(before));
        if removed(before) == 0 {
            lemma_nothing_removed_nothing_changed(before);
        }
        lemma_clean(before);
    }
    count
}

/// Why a snapshot's files cannot be used as they are.
#[derive(Clone, Copy, Debug, PartialEq, Eq, Structural)]
pub enum PatchError {
    /// `state.json` is no JSON.
    ParseState,
    /// `config.json` is no JSON.
    ParseConfig,
    /// `config.json` has no `/vsock/socket`.
    MissingVsockSocket,
    /// An environment snapshot with network devices cannot be restored.
    NetworkInEnvironment,
}

impl PatchError {
    /// The error in words.
    pub fn message(&self) -> (r: String)
        ensures
            r@ == patch_error_text(*self),
    {
        match self {
            PatchError::ParseState => "parse state.json".to_owned(),
            PatchError::ParseConfig => "parse config.json".to_owned(),
            PatchError::MissingVsockSocket => {
                "config.json missing /vsock/socket — unexpected CH config format".to_owned()
            },
            PatchError::NetworkInEnvironment => {
                "Environment snapshot config must not contain network devices; restore requires network hotplug".to_owned()
            },
        }
    }
}

/// What an error says.
pub open spec fn patch_error_text(e: PatchError) -> Seq<char> {
    match e {
        PatchError::ParseState => "parse state.json"@,
        PatchError::ParseConfig => "parse config.json"@,
        PatchError::MissingVsockSocket => {
            "config.json missing /vsock/socket — unexpected CH config format"@
        },
        PatchError::NetworkInEnvironment => {
            "Environment snapshot config must not contain network devices; restore requires network hotplug"@
        },
    }
}

/// The text of a snapshot's `state.json` for a guest that gets fresh network
/// devices: without the devices that were saved with it. `None` where there is
/// none to remove, so that the file stays as it is.
pub fn patch_snapshot_state(content: &str) -> (r: Result<Option<String>, PatchError>)
    ensures
        match (r, parsed(content@)) {
            (Err(e), None) => e is ParseState,
            (Ok(None), Some(state)) => removed(state) == 0,
            (Ok(Some(text)), Some(state)) => {
                &&& removed(state) > 0
                &&& text@ == pretty(stripped(state))
                &&& plain(stripped(state), 100) ==> parsed(text@) == Some(stripped(state))
            },
            _ => false,
        },
{
    match parse(content) {
        None => Err(PatchError::ParseState),
        Some(mut state) => {
            let ghost seen = state@;
            let count = remove_net_device_state(&mut state);
            if count == 0 {
                Ok(None)
            } else {
                proof {
                    lemma_stripped_ordered(seen);
                }
                Ok(Some(to_pretty(&state)))
            }
        },
    }
}

proof fn lemma_untouched_list(items: Seq<JsonView>)
    requires
        removed_list(items) == 0,
    ensures
        stripped_list(items) == items,
    decreases list_bound(items), items,
{
    if items.len() > 0 {
        lemma_untouched_list(items.drop_last());
        lemma_nothing_removed_nothing_changed(items.last());
        assert(items.drop_last().push(items.last()) =~= items);
    }
}

proof fn lemma_untouched_fields(fields: Seq<(Seq<char>, JsonView)>)
    requires
        removed_fields(fields) == 0,
    ensures
        stripped_fields(fields) == fields,
    decreases record_bound(fields), fields,
{
    if fields.len() > 0 {
        lemma_untouched_fields(fields.drop_last());
        lemma_nothing_removed_nothing_changed(fields.last().1);
        assert(fields.drop_last().push(fields.last()) =~= fields);
    }
}

/// Where no entry is removed, the device state is unchanged.
pub proof fn lemma_nothing_removed_nothing_changed(j: JsonView)
    requires
        removed(j) == 0,
    ensures
        stripped(j) == j,
    decreases text_bound(j), j,
{
    match j {
        JsonView::List(items) => lemma_untouched_list(items),
        JsonView::Record(fields) => lemma_untouched_fields(fields),
        _ => {},
    }
}

/// Nothing is removed exactly where there is no network device, neither in a list,
/// nor in a record, nor inside a string that holds JSON.
pub proof fn lemma_nothing_removed_iff_none(j: JsonView)
    ensures
        removed(j) == 0 <==> no_net_anywhere(j),
    decreases text_bound(j), j,
{
    match j {
        JsonView::List(items) => lemma_none_in_list(items),
        JsonView::Record(fields) => lemma_none_in_fields(fields),
        JsonView::Text(s) => {
            if let Some(inner) = parsed(s) {
                if text_bound(inner) < s.len() {
                    lemma_nothing_removed_iff_none(inner);
                }
            }
        },
        _ => {},
    }
}

proof fn lemma_none_in_list(items: Seq<JsonView>)
    ensures
        removed_list(items) == 0 <==> no_net_list(items),
    decreases list_bound(items), items,
{
    if items.len() > 0 {
        lemma_none_in_list(items.drop_last());
        lemma_nothing_removed_iff_none(items.last());
    }
}

proof fn lemma_none_in_fields(fields: Seq<(Seq<char>, JsonView)>)
    ensures
        removed_fields(fields) == 0 <==> no_net_fields(fields),
    decreases record_bound(fields), fields,
{
    if fields.len() > 0 {
        lemma_none_in_fields(fields.drop_last());
        lemma_nothing_removed_iff_none(fields.last().1);
    }
}

/// A second call finds nothing: where no network device is left, none is removed and
/// nothing is changed.
pub proof fn lemma_second_call_changes_nothing(j: JsonView)
    requires
        no_net_anywhere(j),
    ensures
        removed(j) == 0,
        stripped(j) == j,
{
    lemma_nothing_removed_iff_none(j);
    lemma_nothing_removed_nothing_changed(j);
}

proof fn lemma_printed_field(fields: Seq<(Seq<char>, JsonView)>, key: Seq<char>)
    requires
        printed_fields(fields),
        !net_device_key(key),
        field_of(fields, key) is Some,
    ensures
        printed(field_of(fields, key)->0),
    decreases fields.len(),
{
    if fields.len() > 0 {
        let init = fields.drop_last();
        assert(fields =~= init.push(fields.last()));
        lemma_field_of_push(init, fields.last(), key);
        if field_of(init, key) is Some {
            lemma_printed_field(init, key);
        }
    }
}

/// An item that is no network device does not become one.
proof fn lemma_item_stays(item: JsonView)
    requires
        printed(item),
        !net_device_item(item),
    ensures
        !net_device_item(stripped(item)),
{
    reveal_strlit("id");
    reveal_strlit("intf-");
    reveal_strlit("_virtio-pci-intf-");
    assert(!net_device_key("id"@)) by {
        assert("id"@.len() == 2);
    }
    lemma_other_members_stay(item, "id"@);
    if let JsonView::Record(fields) = item {
        if field_of(fields, "id"@) is Some {
            lemma_printed_field(fields, "id"@);
            let id = field_of(fields, "id"@)->0;
            if let JsonView::Text(s) = stripped(id) {
                if stripped(id) != id && net_device_key(s) {
                    if "intf-"@.is_prefix_of(s) {
                        assert("intf-"@[0] == 'i');
                        assert(s.subrange(0, "intf-"@.len() as int)[0] == s[0]);
                    } else {
                        assert("_virtio-pci-intf-"@[0] == '_');
                        assert(s.subrange(0, "_virtio-pci-intf-"@.len() as int)[0] == s[0]);
                    }
                    assert(begins_value(s));
                }
            }
        }
    }
}

proof fn lemma_no_entries_list(items: Seq<JsonView>)
    requires
        printed_list(items),
    ensures
        forall|i: int|
            0 <= i < stripped_list(items).len() ==> !net_device_item(stripped_list(items)[i])
                && no_net_entries(#[trigger] stripped_list(items)[i]),
    decreases list_bound(items), items,
{
    if items.len() > 0 {
        lemma_no_entries_list(items.drop_last());
        if !net_device_item(items.last()) {
            lemma_item_stays(items.last());
            lemma_no_entries_left(items.last());
        }
        let before = stripped_list(items.drop_last());
        let all = stripped_list(items);
        assert forall|i: int| 0 <= i < all.len() implies !net_device_item(all[i])
            && no_net_entries(#[trigger] all[i]) by {
            if i < before.len() {
                assert(all[i] == before[i]);
            }
        }
    }
}

proof fn lemma_no_entries_fields(fields: Seq<(Seq<char>, JsonView)>)
    requires
        printed_fields(fields),
    ensures
        forall|i: int|
            0 <= i < stripped_fields(fields).len() ==> !net_device_key(
                stripped_fields(fields)[i].0,
            ) && no_net_entries((#[trigger] stripped_fields(fields)[i]).1),
    decreases record_bound(fields), fields,
{
    if fields.len() > 0 {
        lemma_no_entries_fields(fields.drop_last());
        if !net_device_key(fields.last().0) {
            lemma_no_entries_left(fields.last().1);
        }
        let before = stripped_fields(fields.drop_last());
        let all = stripped_fields(fields);
        assert forall|i: int| 0 <= i < all.len() implies !net_device_key(all[i].0)
            && no_net_entries((#[trigger] all[i]).1) by {
            if i < before.len() {
                assert(all[i] == before[i]);
            }
        }
    }
}

/// After stripping, no network device is left in a list or a record, at any depth.
proof fn lemma_no_entries_left(j: JsonView)
    requires
        printed(j),
    ensures
        no_net_entries(stripped(j)),
    decreases text_bound(j), j,
{
    match j {
        JsonView::List(items) => {
            lemma_no_entries_list(items);
            let kept = stripped_list(items);
            assert(stripped(j) == JsonView::List(kept));
            assert(forall|i: int|
                0 <= i < kept.len() ==> !net_device_item(kept[i]) && no_net_entries(
                    #[trigger] kept[i],
                ));
        },
        JsonView::Record(fields) => {
            lemma_no_entries_fields(fields);
            let kept = stripped_fields(fields);
            assert(stripped(j) == JsonView::Record(kept));
        },
        _ => {},
    }
}

proof fn lemma_alike_field(
    xs: Seq<(Seq<char>, JsonView)>,
    ys: Seq<(Seq<char>, JsonView)>,
    key: Seq<char>,
)
    requires
        alike(JsonView::Record(xs), JsonView::Record(ys)),
    ensures
        text_of(field_of(xs, key)) == text_of(field_of(ys, key)),
    decreases xs.len(),
{
    if xs.len() > 0 {
        assert(xs[0].0 == ys[0].0 && alike(xs[0].1, ys[0].1));
        let a = xs.drop_first();
        let b = ys.drop_first();
        assert forall|i: int| 0 <= i < a.len() implies (#[trigger] a[i]).0 == b[i].0 && alike(
            a[i].1,
            b[i].1,
        ) by {
            assert(a[i] == xs[i + 1]);
            assert(b[i] == ys[i + 1]);
        }
        lemma_alike_field(a, b, key);
    }
}

proof fn lemma_alike_item(x: JsonView, y: JsonView)
    requires
        alike(x, y),
    ensures
        net_device_item(x) == net_device_item(y),
{
    match (x, y) {
        (JsonView::Record(xs), JsonView::Record(ys)) => lemma_alike_field(xs, ys, "id"@),
        _ => {},
    }
}

proof fn lemma_alike_list(xs: Seq<JsonView>, ys: Seq<JsonView>)
    requires
        alike(JsonView::List(xs), JsonView::List(ys)),
    ensures
        removed_list(xs) == removed_list(ys),
        list_bound(xs) == list_bound(ys),
    decreases xs,
{
    if xs.len() > 0 {
        let a = xs.drop_last();
        let b = ys.drop_last();
        assert forall|i: int| 0 <= i < a.len() implies alike(#[trigger] a[i], b[i]) by {
            assert(a[i] == xs[i]);
        }
        lemma_alike_list(a, b);
        assert(alike(xs[xs.len() - 1], ys[xs.len() - 1]));
        lemma_alike(xs.last(), ys.last());
        lemma_alike_item(xs.last(), ys.last());
    }
}

proof fn lemma_alike_fields(xs: Seq<(Seq<char>, JsonView)>, ys: Seq<(Seq<char>, JsonView)>)
    requires
        alike(JsonView::Record(xs), JsonView::Record(ys)),
    ensures
        removed_fields(xs) == removed_fields(ys),
        record_bound(xs) == record_bound(ys),
    decreases xs,
{
    if xs.len() > 0 {
        let a = xs.drop_last();
        let b = ys.drop_last();
        assert forall|i: int| 0 <= i < a.len() implies (#[trigger] a[i]).0 == b[i].0 && alike(
            a[i].1,
            b[i].1,
        ) by {
            assert(a[i] == xs[i]);
        }
        lemma_alike_fields(a, b);
        assert(xs[xs.len() - 1].0 == ys[xs.len() - 1].0);
        lemma_field_bound(xs, xs.len() - 1);
        lemma_alike(xs.last().1, ys.last().1);
    }
}

/// Of two values that differ in numbers at most, as much is removed.
proof fn lemma_alike(x: JsonView, y: JsonView)
    requires
        alike(x, y),
    ensures
        removed(x) == removed(y),
        text_bound(x) == text_bound(y),
    decreases x,
{
    match (x, y) {
        (JsonView::List(xs), JsonView::List(ys)) => lemma_alike_list(xs, ys),
        (JsonView::Record(xs), JsonView::Record(ys)) => lemma_alike_fields(xs, ys),
        _ => {},
    }
}

proof fn lemma_clean_list(items: Seq<JsonView>)
    requires
        printed_list(items),
    ensures
        removed_list(stripped_list(items)) == 0,
        stripped_list(items).len() <= items.len(),
        stripped_list(items) == items ==> removed_list(items) == 0,
    decreases list_bound(items), items,
{
    if items.len() > 0 {
        let init = items.drop_last();
        let last = items.last();
        lemma_clean_list(init);
        let before = stripped_list(init);
        if !net_device_item(last) {
            lemma_clean(last);
            lemma_item_stays(last);
            let all = stripped_list(items);
            assert(all == before.push(stripped(last)));
            assert(all.drop_last() =~= before);
            assert(all.last() == stripped(last));
            if all == items {
                assert(before =~= init);
            }
        }
    }
}

proof fn lemma_clean_fields(fields: Seq<(Seq<char>, JsonView)>)
    requires
        printed_fields(fields),
    ensures
        removed_fields(stripped_fields(fields)) == 0,
        stripped_fields(fields).len() <= fields.len(),
        stripped_fields(fields) == fields ==> removed_fields(fields) == 0,
    decreases record_bound(fields), fields,
{
    if fields.len() > 0 {
        let init = fields.drop_last();
        let last = fields.last();
        lemma_clean_fields(init);
        let before = stripped_fields(init);
        if !net_device_key(last.0) {
            lemma_clean(last.1);
            let all = stripped_fields(fields);
            assert(all == before.push((last.0, stripped(last.1))));
            assert(all.drop_last() =~= before);
            assert(all.last() == (last.0, stripped(last.1)));
            if all == fields {
                assert(before =~= init);
            }
        }
    }
}

/// After stripping, no network device is left anywhere; and where one was, the value
/// is another one.
proof fn lemma_clean(j: JsonView)
    requires
        printed(j),
    ensures
        removed(stripped(j)) == 0,
        stripped(j) == j ==> removed(j) == 0,
    decreases text_bound(j), j,
{
    match j {
        JsonView::List(items) => lemma_clean_list(items),
        JsonView::Record(fields) => lemma_clean_fields(fields),
        JsonView::Text(s) => {
            if let Some(inner) = parsed(s) {
                if text_bound(inner) < s.len() && removed(inner) > 0 {
                    lemma_clean(inner);
                    if let Some(w) = parsed(compact(stripped(inner))) {
                        lemma_alike(w, stripped(inner));
                    }
                }
            }
        },
        _ => {},
    }
}

/// A stripped list holds, in order, the items whose `id` names no network
/// device, each of them stripped.
pub proof fn lemma_stripped_list_is_filtered(items: Seq<JsonView>)
    ensures
        stripped_list(items) == items.filter(|x: JsonView| !net_device_item(x)).map_values(
            |x: JsonView| stripped(x),
        ),
    decreases items.len(),
{
    reveal(Seq::filter);
    if items.len() > 0 {
        lemma_stripped_list_is_filtered(items.drop_last());
    }
    assert(stripped_list(items) =~= items.filter(|x: JsonView| !net_device_item(x)).map_values(
        |x: JsonView| stripped(x),
    ));
}

/// A stripped record holds, in order, the fields whose name is no network device,
/// each with its value stripped.
pub proof fn lemma_stripped_fields_are_filtered(fields: Seq<(Seq<char>, JsonView)>)
    ensures
        stripped_fields(fields) == fields.filter(
            |f: (Seq<char>, JsonView)| !net_device_key(f.0),
        ).map_values(|f: (Seq<char>, JsonView)| (f.0, stripped(f.1))),
    decreases fields.len(),
{
    reveal(Seq::filter);
    if fields.len() > 0 {
        lemma_stripped_fields_are_filtered(fields.drop_last());
    }
    assert(stripped_fields(fields) =~= fields.filter(
        |f: (Seq<char>, JsonView)| !net_device_key(f.0),
    ).map_values(|f: (Seq<char>, JsonView)| (f.0, stripped(f.1))));
}

/// Each item of a list that is a network device is taken out and counts once; each other
/// stays in its place, stripped, and counts as much as is taken out of it.
pub proof fn lemma_every_network_item_is_taken_out(items: Seq<JsonView>, i: int)
    requires
        0 <= i < items.len(),
    ensures
        ({
            let taken = text_of(member(items[i], "id"@)) is Some && ("intf-"@.is_prefix_of(
            text_of(member(items[i], "id"@))->0,
        ) || "_virtio-pci-intf-"@.is_prefix_of(text_of(member(items[i], "id"@))->0));
            &&& stripped_list(items) == stripped_list(items.take(i)) + (if taken {
                Seq::empty()
            } else {
                seq![stripped(items[i])]
            }) + stripped_list(items.skip(i + 1))
            &&& removed_list(items) == removed_list(items.take(i)) + (if taken {
                1
            } else {
                removed(items[i])
            }) + removed_list(items.skip(i + 1))
        }),
        stripped_list(Seq::empty()).len() == 0,
        removed_list(Seq::empty()) == 0,
    decreases items.len(),
{
    let init = items.drop_last();
    let own = if net_device_item(items[i]) {
        Seq::empty()
    } else {
        seq![stripped(items[i])]
    };
    if i == items.len() - 1 {
        assert(items.take(i) =~= init);
        assert(items.skip(i + 1) =~= Seq::<JsonView>::empty());
    } else {
        lemma_every_network_item_is_taken_out(init, i);
        assert(init.take(i) =~= items.take(i));
        assert(items.skip(i + 1).drop_last() =~= init.skip(i + 1));
        assert(items.skip(i + 1).last() == items.last());
    }
    assert(stripped_list(items) =~= stripped_list(items.take(i)) + own + stripped_list(
        items.skip(i + 1),
    ));
}

/// Each field of a record that is named as a network device is taken out and counts once;
/// each other stays in its place, stripped, and counts as much as is taken out of it.
pub proof fn lemma_every_network_field_is_taken_out(fields: Seq<(Seq<char>, JsonView)>, i: int)
    requires
        0 <= i < fields.len(),
    ensures
        ({
            let taken = "intf-"@.is_prefix_of(fields[i].0) || "_virtio-pci-intf-"@.is_prefix_of(
                fields[i].0,
            );
            &&& stripped_fields(fields) == stripped_fields(fields.take(i)) + (if taken {
                Seq::empty()
            } else {
                seq![(fields[i].0, stripped(fields[i].1))]
            }) + stripped_fields(fields.skip(i + 1))
            &&& removed_fields(fields) == removed_fields(fields.take(i)) + (if taken {
                1
            } else {
                removed(fields[i].1)
            }) + removed_fields(fields.skip(i + 1))
        }),
        stripped_fields(Seq::empty()).len() == 0,
        removed_fields(Seq::empty()) == 0,
    decreases fields.len(),
{
    let init = fields.drop_last();
    let own = if net_device_key(fields[i].0) {
        Seq::empty()
    } else {
        seq![(fields[i].0, stripped(fields[i].1))]
    };
    if i == fields.len() - 1 {
        assert(fields.take(i) =~= init);
        assert(fields.skip(i + 1) =~= Seq::<(Seq<char>, JsonView)>::empty());
    } else {
        lemma_every_network_field_is_taken_out(init, i);
        assert(init.take(i) =~= fields.take(i));
        assert(fields.skip(i + 1).drop_last() =~= init.skip(i + 1));
        assert(fields.skip(i + 1).last() == fields.last());
    }
    assert(stripped_fields(fields) =~= stripped_fields(fields.take(i)) + own + stripped_fields(
        fields.skip(i + 1),
    ));
}

/// A list or a record is stripped of what its items or fields are, and a string of what the
/// JSON in it holds: it is written anew exactly where something is taken out. Nothing else
/// changes.
pub proof fn lemma_strings_are_stripped_too(j: JsonView)
    ensures
        match j {
            JsonView::List(items) => stripped(j) == JsonView::List(stripped_list(items))
                && removed(j) == removed_list(items),
            JsonView::Record(fields) => stripped(j) == JsonView::Record(stripped_fields(fields))
                && removed(j) == removed_fields(fields),
            JsonView::Text(s) => match parsed(s) {
                Some(inner) => if text_bound(inner) < s.len() {
                    &&& removed(j) == removed(inner)
                    &&& removed(inner) > 0 ==> stripped(j) == JsonView::Text(
                        compact(stripped(inner)),
                    )
                    &&& removed(inner) == 0 ==> stripped(j) == j
                } else {
                    removed(j) == 0 && stripped(j) == j
                },
                None => removed(j) == 0 && stripped(j) == j,
            },
            _ => removed(j) == 0 && stripped(j) == j,
        },
{
}

proof fn lemma_id_of_stripped(fields: Seq<(Seq<char>, JsonView)>, key: Seq<char>)
    requires
        !net_device_key(key),
    ensures
        field_of(stripped_fields(fields), key) == (match field_of(fields, key) {
            Some(v) => Some(stripped(v)),
            None => None,
        }),
    decreases record_bound(fields), fields,
{
    if fields.len() > 0 {
        let init = fields.drop_last();
        lemma_id_of_stripped(init, key);
        assert(fields =~= init.push(fields.last()));
        lemma_field_of_push(init, fields.last(), key);
        lemma_field_of_push(
            stripped_fields(init),
            (fields.last().0, stripped(fields.last().1)),
            key,
        );
    }
}

/// Stripping keeps every member that is no network device, with its own value
/// stripped.
pub proof fn lemma_other_members_stay(j: JsonView, key: Seq<char>)
    requires
        !net_device_key(key),
    ensures
        member(stripped(j), key) == (match member(j, key) {
            Some(v) => Some(stripped(v)),
            None => None,
        }),
{
    if let JsonView::Record(fields) = j {
        lemma_id_of_stripped(fields, key);
    }
}

// ── Configuration ───────────────────────────────────────────────────────────

/// The paths of a restored guest that replace those of its snapshot.
pub struct SnapshotPathOverrides {
    pub task_vsock: String,
    pub console_path: String,
}

/// The path to which the first entry for the device `id` leads.
pub open spec fn remap_of(remaps: Seq<(String, String)>, id: Seq<char>) -> Option<Seq<char>>
    decreases remaps.len(),
{
    if remaps.len() == 0 {
        None
    } else if remaps[0].0@ == id {
        Some(remaps[0].1@)
    } else {
        remap_of(remaps.drop_first(), id)
    }
}

/// A disk entry led to its restored copy, or `None` where it has no `id` or its
/// `id` leads nowhere.
pub open spec fn remapped_disk(disk: JsonView, remaps: Seq<(String, String)>) -> Option<JsonView> {
    match text_of(member(disk, "id"@)) {
        Some(id) => match remap_of(remaps, id) {
            Some(path) => Some(with_member(disk, "path"@, JsonView::Text(path))),
            None => None,
        },
        None => None,
    }
}

/// The disk entries that are led somewhere, in order.
pub open spec fn remapped_disks(disks: Seq<JsonView>, remaps: Seq<(String, String)>) -> Seq<JsonView>
    decreases disks.len(),
{
    if disks.len() == 0 {
        Seq::empty()
    } else {
        let before = remapped_disks(disks.drop_last(), remaps);
        match remapped_disk(disks.last(), remaps) {
            Some(disk) => before.push(disk),
            None => before,
        }
    }
}

/// The value of `disks` for a restore: no disk at all without remaps, else the
/// disks that the remaps lead somewhere.
pub open spec fn patched_disks(disks: JsonView, remaps: Seq<(String, String)>) -> JsonView {
    if remaps.len() == 0 {
        JsonView::List(Seq::empty())
    } else {
        match disks {
            JsonView::List(items) => JsonView::List(remapped_disks(items, remaps)),
            _ => disks,
        }
    }
}

/// The value of `net` for a restore: no device where devices are hot-plugged,
/// else the same devices without the name of their tap.
pub open spec fn patched_net(net: JsonView, snapshot_type: SnapshotType) -> JsonView {
    if snapshot_type is Environment {
        JsonView::List(Seq::empty())
    } else {
        match net {
            JsonView::List(items) => JsonView::List(
                Seq::new(items.len(), |i: int| without_member(items[i], "tap"@)),
            ),
            _ => net,
        }
    }
}

/// `j` with its member `key` replaced by what `to` makes of it, where it has one.
pub open spec fn member_changed(
    j: JsonView,
    key: Seq<char>,
    to: spec_fn(JsonView) -> JsonView,
) -> JsonView {
    match member(j, key) {
        Some(v) => with_member(j, key, to(v)),
        None => j,
    }
}

/// Whether the configuration names the socket of its vsock device.
pub open spec fn has_vsock_socket(cfg: JsonView) -> bool {
    match member(cfg, "vsock"@) {
        Some(vsock) => member(vsock, "socket"@) is Some,
        None => false,
    }
}

/// The configuration of a snapshot, patched for a restore: the vsock socket and
/// the console file are the new guest's, and disks and network devices are
/// adapted. Everything else stays.
pub open spec fn patched_config(
    cfg: JsonView,
    task_vsock: Seq<char>,
    console_path: Seq<char>,
    remaps: Seq<(String, String)>,
    snapshot_type: SnapshotType,
) -> JsonView {
    let a = member_changed(
        cfg,
        "vsock"@,
        |vsock: JsonView| with_member(vsock, "socket"@, JsonView::Text(task_vsock)),
    );
    let b = member_changed(
        a,
        "console"@,
        |console: JsonView|
            member_changed(console, "file"@, |_file: JsonView| JsonView::Text(console_path)),
    );
    let c = member_changed(b, "disks"@, |disks: JsonView| patched_disks(disks, remaps));
    member_changed(c, "net"@, |net: JsonView| patched_net(net, snapshot_type))
}

fn find_remap<'a>(remaps: &'a Vec<(String, String)>, id: &str) -> (r: Option<&'a String>)
    ensures
        match r {
            Some(path) => remap_of(remaps@, id@) == Some(path@),
            None => remap_of(remaps@, id@) is None,
        },
{
    let mut i: usize = 0;
    assert(remaps@.skip(0) =~= remaps@);
    while i < remaps.len()
        invariant
            i <= remaps@.len(),
            remap_of(remaps@.skip(i as int), id@) == remap_of(remaps@, id@),
        decreases remaps.len() - i,
    {
        if same(remaps[i].0.as_str(), id) {
            return Some(&remaps[i].1);
        }
        assert(remaps@.skip(i as int).drop_first() =~= remaps@.skip(i + 1));
        i = i + 1;
    }
    None
}

fn remap_disk(disk: Json, remaps: &Vec<(String, String)>) -> (r: Option<Json>)
    ensures
        match r {
            Some(d) => remapped_disk(disk@, remaps@) == Some(d@),
            None => remapped_disk(disk@, remaps@) is None,
        },
        ordered(disk@) && r is Some ==> ordered(r->0@),
{
    let found: Option<String> = match disk.get_text("id") {
        Some(id) => match find_remap(remaps, id.as_str()) {
            Some(path) => Some(path.clone()),
            None => None,
        },
        None => None,
    };
    match found {
        Some(path) => {
            proof {
                if ordered(disk@) {
                    lemma_changes_keep_order(disk@, "path"@, JsonView::Text(path@));
                }
            }
            Some(set_member(disk, "path", Json::Text(path)))
        },
        None => None,
    }
}

/// Whether the fields of every record in the items stand in ascending order.
spec fn all_ordered(items: Seq<JsonView>) -> bool {
    forall|i: int| 0 <= i < items.len() ==> ordered(#[trigger] items[i])
}

fn patch_disks(disks: Json, remaps: &Vec<(String, String)>) -> (r: Json)
    ensures
        r@ == patched_disks(disks@, remaps@),
        ordered(disks@) ==> ordered(r@),
{
    if remaps.len() == 0 {
        let none: Vec<Json> = Vec::new();
        assert(list_view(none@) =~= Seq::<JsonView>::empty());
        return Json::List(none);
    }
    match disks {
        Json::List(items) => {
            let ghost all = items@;
            let ghost view = list_view(all);
            proof {
                lemma_list_view(all);
            }
            let mut kept: Vec<Json> = Vec::new();
            assert(view.take(0) =~= Seq::<JsonView>::empty());
            for item in it: items
                invariant
                    it.seq() == all,
                    view == list_view(all),
                    view.len() == all.len(),
                    forall|i: int| 0 <= i < view.len() ==> #[trigger] view[i] == all[i]@,
                    list_view(kept@) == remapped_disks(view.take(it.index() as int), remaps@),
                    all_ordered(view) ==> all_ordered(list_view(kept@)),
            {
                let ghost k = it.index() as int;
                proof {
                    assert(item == all[k]);
                    assert(view.take(k + 1).drop_last() =~= view.take(k));
                    assert(view.take(k + 1).last() == view[k]);
                }
                if let Some(disk) = remap_disk(item, remaps) {
                    let ghost before = kept@;
                    let ghost before_view = list_view(before);
                    kept.push(disk);
                    assert(kept@.drop_last() =~= before);
                    proof {
                        let now = list_view(kept@);
                        assert(now == before_view.push(disk@));
                        if all_ordered(view) {
                            assert(ordered(view[k]));
                            assert forall|i: int| 0 <= i < now.len() implies ordered(
                                #[trigger] now[i],
                            ) by {
                                if i < before_view.len() {
                                    assert(now[i] == before_view[i]);
                                }
                            }
                        }
                    }
                }
            }
            assert(view.take(view.len() as int) =~= view);
            assert(ordered(JsonView::List(view)) ==> all_ordered(view));
            assert(all_ordered(list_view(kept@)) ==> ordered(JsonView::List(list_view(kept@))));
            Json::List(kept)
        },
        other => other,
    }
}

fn patch_net(net: Json, snapshot_type: &SnapshotType) -> (r: Json)
    ensures
        r@ == patched_net(net@, *snapshot_type),
        ordered(net@) ==> ordered(r@),
{
    if snapshot_type.requires_network_hotplug() {
        let none: Vec<Json> = Vec::new();
        assert(list_view(none@) =~= Seq::<JsonView>::empty());
        return Json::List(none);
    }
    match net {
        Json::List(items) => {
            let ghost all = items@;
            let ghost view = list_view(all);
            proof {
                lemma_list_view(all);
            }
            let mut kept: Vec<Json> = Vec::new();
            for item in it: items
                invariant
                    it.seq() == all,
                    view == list_view(all),
                    view.len() == all.len(),
                    forall|i: int| 0 <= i < view.len() ==> #[trigger] view[i] == all[i]@,
                    kept@.len() == it.index(),
                    forall|i: int|
                        0 <= i < kept@.len() ==> (#[trigger] kept@[i])@ == without_member(
                            view[i],
                            "tap"@,
                        ),
            {
                let ghost k = it.index() as int;
                assert(item == all[k]);
                assert(view[k] == item@);
                kept.push(remove_member(item, "tap"));
            }
            proof {
                lemma_list_view(kept@);
                let now = list_view(kept@);
                assert(now =~= Seq::new(view.len(), |i: int| without_member(view[i], "tap"@)));
                if ordered(net@) {
                    assert forall|i: int| 0 <= i < now.len() implies ordered(
                        #[trigger] now[i],
                    ) by {
                        assert(ordered(view[i]));
                        lemma_changes_keep_order(view[i], "tap"@, JsonView::Null);
                    }
                }
            }
            Json::List(kept)
        },
        other => other,
    }
}

/// Patches the configuration of a snapshot for a restore.
///
/// Without remaps every disk entry goes: containers hot-plug their own images
/// after the start. With remaps the disks that they name are led to their
/// copies, and the others go. Paths of pmem devices stay, they are shared and
/// read-only.
pub fn patch_config_value(
    config: Json,
    overrides: &SnapshotPathOverrides,
    disk_remaps: &Vec<(String, String)>,
    snapshot_type: &SnapshotType,
) -> (r: Result<Json, PatchError>)
    requires
        ordered(config@),
    ensures
        match r {
            Err(e) => e is MissingVsockSocket && !has_vsock_socket(config@),
            Ok(patched) => has_vsock_socket(config@) && ordered(patched@) && patched@
                == patched_config(
                config@,
                overrides.task_vsock@,
                overrides.console_path@,
                disk_remaps@,
                *snapshot_type,
            ),
        },
{
    let mut cfg = config;
    let ghost start = cfg@;
    let found: bool = match cfg.get("vsock") {
        Some(vsock) => vsock.get("socket").is_some(),
        None => false,
    };
    if !found {
        return Err(PatchError::MissingVsockSocket);
    }
    let ghost remaps = disk_remaps@;
    let ghost kind = *snapshot_type;
    let ghost task_vsock = overrides.task_vsock@;
    let ghost console_path = overrides.console_path@;
    let ghost to_vsock = |vsock: JsonView|
        with_member(vsock, "socket"@, JsonView::Text(task_vsock));
    let ghost to_console = |console: JsonView|
        member_changed(console, "file"@, |_file: JsonView| JsonView::Text(console_path));
    let ghost to_disks = |disks: JsonView| patched_disks(disks, remaps);
    let ghost to_net = |net: JsonView| patched_net(net, kind);
    if let Some(vsock) = take_member(&mut cfg, "vsock") {
        let ghost old_vsock = vsock@;
        let vsock = set_member(vsock, "socket", Json::Text(overrides.task_vsock.clone()));
        proof {
            lemma_put_back(start, "vsock"@, vsock@);
            lemma_changes_keep_order(old_vsock, "socket"@, JsonView::Text(task_vsock));
        }
        cfg = set_member(cfg, "vsock", vsock);
    }
    let ghost a = cfg@;
    assert(a == member_changed(start, "vsock"@, to_vsock));
    assert(ordered(a));
    if let Some(console) = take_member(&mut cfg, "console") {
        let ghost old_console = console@;
        let console = if console.get("file").is_some() {
            set_member(console, "file", Json::Text(overrides.console_path.clone()))
        } else {
            console
        };
        proof {
            lemma_put_back(a, "console"@, console@);
            lemma_changes_keep_order(old_console, "file"@, JsonView::Text(console_path));
        }
        cfg = set_member(cfg, "console", console);
    }
    let ghost b = cfg@;
    assert(b == member_changed(a, "console"@, to_console));
    assert(ordered(b));
    if let Some(disks) = take_member(&mut cfg, "disks") {
        let disks = patch_disks(disks, disk_remaps);
        proof {
            lemma_put_back(b, "disks"@, disks@);
        }
        cfg = set_member(cfg, "disks", disks);
    }
    let ghost c = cfg@;
    assert(c == member_changed(b, "disks"@, to_disks));
    assert(ordered(c));
    if let Some(net) = take_member(&mut cfg, "net") {
        let net = patch_net(net, snapshot_type);
        proof {
            lemma_put_back(c, "net"@, net@);
        }
        cfg = set_member(cfg, "net", net);
    }
    assert(cfg@ == member_changed(c, "net"@, to_net));
    proof {
        let want = patched_config(start, task_vsock, console_path, remaps, kind);
        assert(want == cfg@);
    }
    Ok(cfg)
}

/// The text of a restored guest's `config.json`, from that of its snapshot. Where it
/// holds text, truth values and whole numbers it reads back.
pub fn patch_snapshot_config(
    content: &str,
    overrides: &SnapshotPathOverrides,
    disk_remaps: &Vec<(String, String)>,
    snapshot_type: &SnapshotType,
) -> (r: Result<String, PatchError>)
    ensures
        match (r, parsed(content@)) {
            (Err(e), None) => e is ParseConfig,
            (Err(e), Some(cfg)) => e is MissingVsockSocket && !has_vsock_socket(cfg),
            (Ok(text), Some(cfg)) => {
                let patched = patched_config(
                    cfg,
                    overrides.task_vsock@,
                    overrides.console_path@,
                    disk_remaps@,
                    *snapshot_type,
                );
                &&& has_vsock_socket(cfg)
                &&& text@ == pretty(patched)
                &&& plain(patched, 100) ==> parsed(text@) == Some(patched)
            },
            (Ok(_), None) => false,
        },
{
    match parse(content) {
        None => Err(PatchError::ParseConfig),
        Some(cfg) => match patch_config_value(cfg, overrides, disk_remaps, snapshot_type) {
            Ok(patched) => Ok(to_pretty(&patched)),
            Err(e) => Err(e),
        },
    }
}

proof fn lemma_member_ordered(j: JsonView, key: Seq<char>)
    requires
        ordered(j),
        member(j, key) is Some,
    ensures
        ordered(member(j, key)->0),
{
    if let JsonView::Record(fields) = j {
        lemma_field_index(fields, key);
        assert(ordered(fields[field_index(fields, key)].1));
    }
}

proof fn lemma_put_back(j: JsonView, key: Seq<char>, value: JsonView)
    requires
        ordered(j),
        member(j, key) is Some,
    ensures
        with_member(with_member(j, key, JsonView::Null), key, value) == with_member(j, key, value),
        ordered(value) ==> ordered(with_member(j, key, value)),
        ordered(member(j, key)->0),
{
    lemma_set_member_twice(j, key, JsonView::Null, value);
    lemma_changes_keep_order(j, key, value);
    lemma_member_ordered(j, key);
}

proof fn lemma_config_names_differ()
    ensures
        "vsock"@ != "console"@,
        "vsock"@ != "disks"@,
        "vsock"@ != "net"@,
        "console"@ != "disks"@,
        "console"@ != "net"@,
        "disks"@ != "net"@,
{
    reveal_strlit("vsock");
    reveal_strlit("console");
    reveal_strlit("disks");
    reveal_strlit("net");
    assert("vsock"@[0] != "disks"@[0]);
    assert("vsock"@[0] != "console"@[0]);
}

proof fn lemma_member_changed(
    j: JsonView,
    key: Seq<char>,
    to: spec_fn(JsonView) -> JsonView,
    other: Seq<char>,
)
    ensures
        other != key ==> member(member_changed(j, key, to), other) == member(j, other),
        member(member_changed(j, key, to), key) == (match member(j, key) {
            Some(v) => Some(to(v)),
            None => None,
        }),
{
    if let Some(v) = member(j, key) {
        lemma_set_member_reads_back(j, key, to(v), other);
    }
}

/// What patching a configuration does to its members: the vsock device gets the
/// new socket, disks and network devices are adapted, and every member besides
/// vsock, console, disks and net stays as it is, pmem among them.
pub proof fn lemma_patched_config_members(
    cfg: JsonView,
    task_vsock: Seq<char>,
    console_path: Seq<char>,
    remaps: Seq<(String, String)>,
    snapshot_type: SnapshotType,
    other: Seq<char>,
)
    ensures
        ({
            let patched = patched_config(cfg, task_vsock, console_path, remaps, snapshot_type);
            &&& has_vsock_socket(cfg) ==> text_of(
                member(member(patched, "vsock"@)->0, "socket"@),
            ) == Some(task_vsock)
            &&& member(patched, "disks"@) == (match member(cfg, "disks"@) {
                Some(disks) => Some(patched_disks(disks, remaps)),
                None => None,
            })
            &&& member(patched, "net"@) == (match member(cfg, "net"@) {
                Some(net) => Some(patched_net(net, snapshot_type)),
                None => None,
            })
            &&& other != "vsock"@ && other != "console"@ && other != "disks"@ && other != "net"@
                ==> member(patched, other) == member(cfg, other)
        }),
{
    lemma_config_names_differ();
    let to_vsock = |vsock: JsonView| with_member(vsock, "socket"@, JsonView::Text(task_vsock));
    let to_console = |console: JsonView|
        member_changed(console, "file"@, |_file: JsonView| JsonView::Text(console_path));
    let to_disks = |disks: JsonView| patched_disks(disks, remaps);
    let to_net = |net: JsonView| patched_net(net, snapshot_type);
    let a = member_changed(cfg, "vsock"@, to_vsock);
    let b = member_changed(a, "console"@, to_console);
    let c = member_changed(b, "disks"@, to_disks);
    let names = seq!["vsock"@, "disks"@, "net"@, other];
    assert forall|i: int| 0 <= i < 4 implies {
        &&& names[i] != "vsock"@ ==> #[trigger] member(a, names[i]) == member(cfg, names[i])
        &&& names[i] != "console"@ ==> member(b, names[i]) == member(a, names[i])
        &&& names[i] != "disks"@ ==> member(c, names[i]) == member(b, names[i])
        &&& names[i] != "net"@ ==> member(member_changed(c, "net"@, to_net), names[i]) == member(
            c,
            names[i],
        )
    } by {
        lemma_member_changed(cfg, "vsock"@, to_vsock, names[i]);
        lemma_member_changed(a, "console"@, to_console, names[i]);
        lemma_member_changed(b, "disks"@, to_disks, names[i]);
        lemma_member_changed(c, "net"@, to_net, names[i]);
    }
    assert(names[0] == "vsock"@ && names[1] == "disks"@ && names[2] == "net"@ && names[3] == other);
    assert(member(a, names[0]) == member(a, names[0]));
    assert(member(a, names[1]) == member(cfg, "disks"@));
    assert(member(a, names[2]) == member(cfg, "net"@));
    assert(member(a, names[3]) == member(a, other));
    lemma_member_changed(cfg, "vsock"@, to_vsock, other);
    lemma_member_changed(b, "disks"@, to_disks, other);
    lemma_member_changed(c, "net"@, to_net, other);
    if has_vsock_socket(cfg) {
        let vsock = member(cfg, "vsock"@)->0;
        lemma_set_member_reads_back(vsock, "socket"@, JsonView::Text(task_vsock), other);
    }
}

/// A network device of a snapshot that is not hot-plugged loses the name of its
/// tap and keeps every other member.
pub proof fn lemma_tap_is_stripped(devices: Seq<JsonView>, t: SnapshotType, i: int, other: Seq<char>)
    requires
        !(t is Environment),
        0 <= i < devices.len(),
    ensures
        ({
            let patched = patched_net(JsonView::List(devices), t);
            &&& patched matches JsonView::List(now) && now.len() == devices.len()
            &&& member(patched->List_0[i], "tap"@) is None
            &&& other != "tap"@ ==> member(patched->List_0[i], other) == member(devices[i], other)
        }),
{
    lemma_removed_member_is_gone(devices[i], "tap"@, other);
}

/// Whether no two remaps are for the same device.
pub open spec fn distinct_remaps(remaps: Seq<(String, String)>) -> bool {
    forall|a: int, b: int|
        0 <= a < b < remaps.len() ==> (#[trigger] remaps[a]).0@ != (#[trigger] remaps[b]).0@
}

/// A device is led where the first remap that names it leads, and one that no remap
/// names is led nowhere.
pub proof fn lemma_remap_leads_to_its_own_path(
    remaps: Seq<(String, String)>,
    id: Seq<char>,
    j: int,
)
    ensures
        0 <= j < remaps.len() && remaps[j].0@ == id && (forall|k: int|
            0 <= k < j ==> (#[trigger] remaps[k]).0@ != id) ==> remap_of(remaps, id) == Some(
            remaps[j].1@,
        ),
        (forall|k: int| 0 <= k < remaps.len() ==> (#[trigger] remaps[k]).0@ != id) ==> remap_of(
            remaps,
            id,
        ) is None,
    decreases remaps.len(),
{
    if remaps.len() > 0 {
        let rest = remaps.drop_first();
        assert forall|k: int| 0 <= k < rest.len() implies #[trigger] rest[k] == remaps[k + 1] by {}
        lemma_remap_leads_to_its_own_path(rest, id, j - 1);
        if 0 < j < remaps.len() && remaps[j].0@ == id && (forall|k: int|
            0 <= k < j ==> (#[trigger] remaps[k]).0@ != id) {
            assert(remaps[0].0@ != id);
            assert(rest[j - 1].0@ == id);
        }
        if forall|k: int| 0 <= k < remaps.len() ==> (#[trigger] remaps[k]).0@ != id {
            assert(remaps[0].0@ != id);
        }
    }
}

proof fn lemma_remapped_disks_add(a: Seq<JsonView>, b: Seq<JsonView>, remaps: Seq<(String, String)>)
    ensures
        remapped_disks(a + b, remaps) == remapped_disks(a, remaps) + remapped_disks(b, remaps),
    decreases b.len(),
{
    if b.len() == 0 {
        assert(a + b =~= a);
        assert(remapped_disks(a, remaps) + remapped_disks(b, remaps) =~= remapped_disks(a, remaps));
    } else {
        assert((a + b).drop_last() =~= a + b.drop_last());
        assert((a + b).last() == b.last());
        lemma_remapped_disks_add(a, b.drop_last(), remaps);
        assert(remapped_disks(a + b, remaps) =~= remapped_disks(a, remaps) + remapped_disks(
            b,
            remaps,
        ));
    }
}

proof fn lemma_remapped_disks_split(disks: Seq<JsonView>, remaps: Seq<(String, String)>, i: int)
    requires
        0 <= i < disks.len(),
    ensures
        remapped_disks(disks, remaps) == remapped_disks(disks.take(i), remaps) + (
        match remapped_disk(disks[i], remaps) {
            Some(disk) => seq![disk],
            None => Seq::empty(),
        }) + remapped_disks(disks.skip(i + 1), remaps),
{
    let one = seq![disks[i]];
    assert(disks =~= disks.take(i) + one + disks.skip(i + 1));
    lemma_remapped_disks_add(disks.take(i) + one, disks.skip(i + 1), remaps);
    lemma_remapped_disks_add(disks.take(i), one, remaps);
    assert(one.drop_last() =~= Seq::<JsonView>::empty());
    assert(remapped_disks(one.drop_last(), remaps) =~= Seq::<JsonView>::empty());
    assert(remapped_disks(one, remaps) =~= (match remapped_disk(disks[i], remaps) {
        Some(disk) => seq![disk],
        None => Seq::empty(),
    }));
}

/// The disks that a restored guest gets, in the patched configuration.
pub open spec fn disks_now(patched: JsonView) -> Seq<JsonView> {
    match member(patched, "disks"@) {
        Some(JsonView::List(disks)) => disks,
        _ => Seq::empty(),
    }
}

/// A disk for whose device there is a remap is in the restored guest, in its place among
/// the others: its path is the one that this remap gives, and every other member is
/// as it was.
pub proof fn lemma_disk_is_led_to_its_own_copy(
    cfg: JsonView,
    task_vsock: Seq<char>,
    console_path: Seq<char>,
    remaps: Seq<(String, String)>,
    t: SnapshotType,
    i: int,
    j: int,
    other: Seq<char>,
)
    requires
        distinct_remaps(remaps),
        0 <= i < disks_now(cfg).len(),
        0 <= j < remaps.len(),
        text_of(member(disks_now(cfg)[i], "id"@)) == Some(remaps[j].0@),
    ensures
        ({
            let now = disks_now(patched_config(cfg, task_vsock, console_path, remaps, t));
            let at = remapped_disks(disks_now(cfg).take(i), remaps).len() as int;
            &&& at <= i && at < now.len()
            &&& member(now[at], "path"@) == Some(JsonView::Text(remaps[j].1@))
            &&& other != "path"@ ==> member(now[at], other) == member(disks_now(cfg)[i], other)
        }),
{
    let old_disks = disks_now(cfg);
    let patched = patched_config(cfg, task_vsock, console_path, remaps, t);
    lemma_patched_config_members(cfg, task_vsock, console_path, remaps, t, other);
    let id = remaps[j].0@;
    assert forall|k: int| 0 <= k < j implies (#[trigger] remaps[k]).0@ != id by {}
    lemma_remap_leads_to_its_own_path(remaps, id, j);
    lemma_remapped_disks_split(old_disks, remaps, i);
    lemma_fewer_remapped(old_disks.take(i), remaps);
    let disk = with_member(old_disks[i], "path"@, JsonView::Text(remaps[j].1@));
    lemma_set_member_reads_back(old_disks[i], "path"@, JsonView::Text(remaps[j].1@), other);
    assert(disks_now(patched) == remapped_disks(old_disks, remaps));
    assert(disks_now(patched)[remapped_disks(old_disks.take(i), remaps).len() as int] == disk);
}

proof fn lemma_fewer_remapped(disks: Seq<JsonView>, remaps: Seq<(String, String)>)
    ensures
        remapped_disks(disks, remaps).len() <= disks.len(),
    decreases disks.len(),
{
    if disks.len() > 0 {
        lemma_fewer_remapped(disks.drop_last(), remaps);
    }
}

/// A disk for whose device there is no remap is not in the restored guest: the disks are
/// those that they would be without it.
pub proof fn lemma_other_disks_are_left_out(
    disks: Seq<JsonView>,
    remaps: Seq<(String, String)>,
    i: int,
)
    requires
        0 <= i < disks.len(),
        match text_of(member(disks[i], "id"@)) {
            Some(id) => forall|k: int|
                0 <= k < remaps.len() ==> (#[trigger] remaps[k]).0@ != id,
            None => true,
        },
    ensures
        patched_disks(JsonView::List(disks), remaps) == patched_disks(
            JsonView::List(disks.take(i) + disks.skip(i + 1)),
            remaps,
        ),
        remaps.len() == 0 ==> patched_disks(JsonView::List(disks), remaps) == JsonView::List(
            Seq::empty(),
        ),
{
    if let Some(id) = text_of(member(disks[i], "id"@)) {
        lemma_remap_leads_to_its_own_path(remaps, id, 0);
    }
    lemma_remapped_disks_split(disks, remaps, i);
    lemma_remapped_disks_add(disks.take(i), disks.skip(i + 1), remaps);
    assert(remapped_disks(disks, remaps) =~= remapped_disks(
        disks.take(i) + disks.skip(i + 1),
        remaps,
    ));
}

/// Every disk of a restored guest is one that it had before, by its id, and has the path
/// of a remap for that id: no disk is attached to the image of another.
pub proof fn lemma_no_disk_gets_anothers_image(
    disks: Seq<JsonView>,
    remaps: Seq<(String, String)>,
    at: int,
)
    requires
        0 <= at < remapped_disks(disks, remaps).len(),
    ensures
        ({
            let now = remapped_disks(disks, remaps)[at];
            exists|i: int, j: int|
                0 <= i < disks.len() && 0 <= j < remaps.len() && text_of(
                    member(#[trigger] disks[i], "id"@),
                ) == Some((#[trigger] remaps[j]).0@) && member(now, "path"@) == Some(
                    JsonView::Text(remaps[j].1@),
                ) && member(now, "id"@) == member(disks[i], "id"@)
        }),
    decreases disks.len(),
{
    reveal_strlit("id");
    reveal_strlit("path");
    assert("id"@.len() == 2 && "path"@.len() == 4);
    let init = disks.drop_last();
    if at < remapped_disks(init, remaps).len() {
        lemma_no_disk_gets_anothers_image(init, remaps, at);
        let now = remapped_disks(disks, remaps)[at];
        assert(now == remapped_disks(init, remaps)[at]);
        let (i, j) = choose|i: int, j: int|
            0 <= i < init.len() && 0 <= j < remaps.len() && text_of(
                member(#[trigger] init[i], "id"@),
            ) == Some((#[trigger] remaps[j]).0@) && member(now, "path"@) == Some(
                JsonView::Text(remaps[j].1@),
            ) && member(now, "id"@) == member(init[i], "id"@);
        assert(disks[i] == init[i]);
        assert(remaps[j] == remaps[j]);
    } else {
        let disk = disks.last();
        let id = text_of(member(disk, "id"@))->0;
        lemma_remap_found(remaps, id);
        let j = choose|j: int|
            0 <= j < remaps.len() && (#[trigger] remaps[j]).0@ == id && remap_of(remaps, id)
                == Some(remaps[j].1@);
        lemma_set_member_reads_back(disk, "path"@, JsonView::Text(remaps[j].1@), "id"@);
        assert(disks[disks.len() - 1] == disk);
    }
}

proof fn lemma_remap_found(remaps: Seq<(String, String)>, id: Seq<char>)
    requires
        remap_of(remaps, id) is Some,
    ensures
        exists|j: int|
            0 <= j < remaps.len() && (#[trigger] remaps[j]).0@ == id && remap_of(remaps, id)
                == Some(remaps[j].1@),
    decreases remaps.len(),
{
    if remaps[0].0@ != id {
        let rest = remaps.drop_first();
        lemma_remap_found(rest, id);
        let j = choose|j: int|
            0 <= j < rest.len() && (#[trigger] rest[j]).0@ == id && remap_of(rest, id) == Some(
                rest[j].1@,
            );
        assert(remaps[j + 1] == rest[j]);
    } else {
        assert(remaps[0].0@ == id);
    }
}

/// The console of a restored guest writes to the new file, where it wrote to a file at
/// all, and the vsock device has the new socket. Every other member of the two is as it
/// was, and neither is there where it was not.
pub proof fn lemma_console_and_vsock_are_moved(
    cfg: JsonView,
    task_vsock: Seq<char>,
    console_path: Seq<char>,
    remaps: Seq<(String, String)>,
    t: SnapshotType,
    other: Seq<char>,
)
    ensures
        ({
            let patched = patched_config(cfg, task_vsock, console_path, remaps, t);
            &&& match (member(cfg, "console"@), member(patched, "console"@)) {
                (Some(was), Some(now)) => {
                    &&& member(was, "file"@) is Some ==> member(now, "file"@) == Some(
                        JsonView::Text(console_path),
                    )
                    &&& member(was, "file"@) is None ==> now == was
                    &&& other != "file"@ ==> member(now, other) == member(was, other)
                },
                (None, None) => true,
                _ => false,
            }
            &&& match (member(cfg, "vsock"@), member(patched, "vsock"@)) {
                (Some(was), Some(now)) => {
                    &&& was is Record ==> member(now, "socket"@) == Some(
                        JsonView::Text(task_vsock),
                    )
                    &&& other != "socket"@ ==> member(now, other) == member(was, other)
                },
                (None, None) => true,
                _ => false,
            }
        }),
{
    lemma_config_names_differ();
    let to_vsock = |vsock: JsonView| with_member(vsock, "socket"@, JsonView::Text(task_vsock));
    let to_console = |console: JsonView|
        member_changed(console, "file"@, |_file: JsonView| JsonView::Text(console_path));
    let to_disks = |disks: JsonView| patched_disks(disks, remaps);
    let to_net = |net: JsonView| patched_net(net, t);
    let a = member_changed(cfg, "vsock"@, to_vsock);
    let b = member_changed(a, "console"@, to_console);
    let c = member_changed(b, "disks"@, to_disks);
    lemma_member_changed(cfg, "vsock"@, to_vsock, "console"@);
    lemma_member_changed(a, "console"@, to_console, "vsock"@);
    lemma_member_changed(b, "disks"@, to_disks, "console"@);
    lemma_member_changed(b, "disks"@, to_disks, "vsock"@);
    lemma_member_changed(c, "net"@, to_net, "console"@);
    lemma_member_changed(c, "net"@, to_net, "vsock"@);
    if let Some(was) = member(cfg, "console"@) {
        lemma_member_changed(
            was,
            "file"@,
            |_file: JsonView| JsonView::Text(console_path),
            other,
        );
    }
    if let Some(was) = member(cfg, "vsock"@) {
        lemma_set_member_reads_back(was, "socket"@, JsonView::Text(task_vsock), other);
    }
}

/// A booted guest is restored without the network devices of its snapshot; they are
/// plugged in later.
pub proof fn lemma_booted_guest_has_no_network(
    cfg: JsonView,
    task_vsock: Seq<char>,
    console_path: Seq<char>,
    remaps: Seq<(String, String)>,
)
    ensures
        ({
            let patched = patched_config(
                cfg,
                task_vsock,
                console_path,
                remaps,
                SnapshotType::Environment,
            );
            &&& member(patched, "net"@) is Some ==> member(patched, "net"@) == Some(
                JsonView::List(Seq::empty()),
            )
            &&& member(patched, "net"@) is Some <==> member(cfg, "net"@) is Some
        }),
{
    lemma_patched_config_members(
        cfg,
        task_vsock,
        console_path,
        remaps,
        SnapshotType::Environment,
        ""@,
    );
}

/// A configuration that was patched can be restored: it names the vsock socket, and that
/// of a booted guest has no network devices.
pub proof fn lemma_patched_config_is_restorable(
    cfg: JsonView,
    task_vsock: Seq<char>,
    console_path: Seq<char>,
    remaps: Seq<(String, String)>,
    t: SnapshotType,
)
    requires
        has_vsock_socket(cfg),
    ensures
        config_fault(patched_config(cfg, task_vsock, console_path, remaps, t), t) is None,
{
    lemma_patched_config_members(cfg, task_vsock, console_path, remaps, t, ""@);
    lemma_console_and_vsock_are_moved(cfg, task_vsock, console_path, remaps, t, ""@);
    if t is Environment {
        lemma_booted_guest_has_no_network(cfg, task_vsock, console_path, remaps);
    }
}

// ── Reading a configuration ─────────────────────────────────────────────────

/// Whether a configuration has network devices.
pub open spec fn net_devices_present(cfg: JsonView) -> bool {
    match member(cfg, "net"@) {
        Some(JsonView::List(devices)) => devices.len() > 0,
        Some(JsonView::Record(device)) => device.len() > 0,
        _ => false,
    }
}

/// Whether a configuration has network devices. A `net` of an unexpected shape
/// counts as none.
pub fn has_network_devices(cfg: &Json) -> (r: bool)
    ensures
        r == net_devices_present(cfg@),
{
    match cfg.get("net") {
        Some(Json::List(devices)) => {
            proof {
                lemma_list_view(devices@);
            }
            devices.len() > 0
        },
        Some(Json::Record(device)) => {
            proof {
                lemma_record_view(device@);
            }
            device.len() > 0
        },
        _ => false,
    }
}

/// Why the configuration of a snapshot cannot be restored, where that is so: it must
/// name the vsock socket, and that of an environment must have no network devices.
pub open spec fn config_fault(cfg: JsonView, snapshot_type: SnapshotType) -> Option<PatchError> {
    if text_of(member(member_or_null(cfg, "vsock"@), "socket"@)) is None {
        Some(PatchError::MissingVsockSocket)
    } else if snapshot_type is Environment && net_devices_present(cfg) {
        Some(PatchError::NetworkInEnvironment)
    } else {
        None
    }
}

/// A configuration without a vsock socket is never restored, and one with a network
/// device not as a booted guest; with a socket and without network devices any is.
pub proof fn lemma_what_can_be_restored(cfg: JsonView, t: SnapshotType)
    ensures
        !has_vsock_socket(cfg) ==> config_fault(cfg, t) == Some(PatchError::MissingVsockSocket),
        t is Environment && (member(cfg, "net"@) matches Some(JsonView::List(v)) && v.len() > 0)
            ==> config_fault(cfg, t) is Some,
        (member(cfg, "vsock"@) matches Some(vsock) && member(vsock, "socket"@) matches Some(
            JsonView::Text(_),
        )) && (!(t is Environment) || member(cfg, "net"@) is None || member(cfg, "net"@) == Some(
            JsonView::List(Seq::empty()),
        )) ==> config_fault(cfg, t) is None,
{
}

/// Whether the configuration of a snapshot can be restored: it must name the
/// vsock socket, and that of an environment must have no network devices.
pub fn check_config_value(cfg: &Json, snapshot_type: &SnapshotType) -> (r: Result<(), PatchError>)
    ensures
        r == (match config_fault(cfg@, *snapshot_type) {
            Some(e) => Err::<(), PatchError>(e),
            None => Ok(()),
        }),
{
    let socket: bool = match cfg.get("vsock") {
        Some(vsock) => vsock.get_text("socket").is_some(),
        None => false,
    };
    if !socket {
        return Err(PatchError::MissingVsockSocket);
    }
    if matches!(snapshot_type, SnapshotType::Environment) && has_network_devices(cfg) {
        return Err(PatchError::NetworkInEnvironment);
    }
    Ok(())
}

/// The member `key` of `j`, or `null` where it has none.
pub open spec fn member_or_null(j: JsonView, key: Seq<char>) -> JsonView {
    match member(j, key) {
        Some(v) => v,
        None => JsonView::Null,
    }
}

/// Whether the text of a snapshot's `config.json` can be restored.
pub fn validate_snapshot_config(content: &str, snapshot_type: &SnapshotType) -> (r: Result<
    (),
    PatchError,
>)
    ensures
        match parsed(content@) {
            None => r == Err::<(), PatchError>(PatchError::ParseConfig),
            Some(cfg) => r == (match config_fault(cfg, *snapshot_type) {
                Some(e) => Err::<(), PatchError>(e),
                None => Ok(()),
            }),
        },
{
    match parse(content) {
        None => Err(PatchError::ParseConfig),
        Some(cfg) => check_config_value(&cfg, snapshot_type),
    }
}

/// The network devices of a configuration.
pub open spec fn net_list(cfg: JsonView) -> Seq<JsonView> {
    match member(cfg, "net"@) {
        Some(JsonView::List(devices)) => devices,
        _ => Seq::empty(),
    }
}

/// The ids of those devices that have one, in order.
pub open spec fn device_ids(devices: Seq<JsonView>) -> Seq<Seq<char>>
    decreases devices.len(),
{
    if devices.len() == 0 {
        Seq::empty()
    } else {
        let before = device_ids(devices.drop_last());
        match text_of(member(devices.last(), "id"@)) {
            Some(id) => before.push(id),
            None => before,
        }
    }
}

/// Each network device with an id is named, in its place among the others, and nothing
/// else is.
pub proof fn lemma_every_device_is_named(devices: Seq<JsonView>, i: int)
    requires
        0 <= i < devices.len(),
    ensures
        device_ids(devices) == device_ids(devices.take(i)) + (match text_of(
            member(devices[i], "id"@),
        ) {
            Some(id) => seq![id],
            None => Seq::empty(),
        }) + device_ids(devices.skip(i + 1)),
        device_ids(Seq::empty()) == Seq::<Seq<char>>::empty(),
    decreases devices.len(),
{
    let init = devices.drop_last();
    if i == devices.len() - 1 {
        assert(devices.take(i) =~= init);
        assert(devices.skip(i + 1) =~= Seq::<JsonView>::empty());
        assert(device_ids(devices) =~= device_ids(init) + (match text_of(
            member(devices[i], "id"@),
        ) {
            Some(id) => seq![id],
            None => Seq::empty(),
        }) + device_ids(devices.skip(i + 1)));
    } else {
        lemma_every_device_is_named(init, i);
        assert(init.take(i) =~= devices.take(i));
        assert(devices.skip(i + 1).drop_last() =~= init.skip(i + 1));
        assert(devices.skip(i + 1).last() == devices.last());
        assert(device_ids(devices) =~= device_ids(devices.take(i)) + (match text_of(
            member(devices[i], "id"@),
        ) {
            Some(id) => seq![id],
            None => Seq::empty(),
        }) + device_ids(devices.skip(i + 1)));
    }
}

/// The ids of the network devices of a configuration.
pub fn net_device_ids(cfg: &Json) -> (r: Vec<String>)
    ensures
        texts(r@) == device_ids(net_list(cfg@)),
{
    let mut ids: Vec<String> = Vec::new();
    match cfg.get("net") {
        Some(Json::List(devices)) => {
            let ghost view = list_view(devices@);
            proof {
                lemma_list_view(devices@);
            }
            let mut i: usize = 0;
            assert(view.take(0) =~= Seq::<JsonView>::empty());
            assert(texts(ids@) =~= device_ids(view.take(0)));
            while i < devices.len()
                invariant
                    i <= devices@.len(),
                    view == list_view(devices@),
                    view.len() == devices@.len(),
                    forall|k: int| 0 <= k < view.len() ==> #[trigger] view[k] == devices@[k]@,
                    texts(ids@) == device_ids(view.take(i as int)),
                decreases devices.len() - i,
            {
                proof {
                    assert(view.take(i + 1).drop_last() =~= view.take(i as int));
                    assert(view.take(i + 1).last() == view[i as int]);
                    assert(view[i as int] == devices@[i as int]@);
                }
                if let Some(id) = devices[i].get_text("id") {
                    let ghost before = ids@;
                    ids.push(id.clone());
                    assert(texts(ids@) =~= texts(before).push(id@));
                }
                i = i + 1;
            }
            assert(view.take(i as int) =~= view);
        },
        _ => {
            assert(texts(ids@) =~= device_ids(net_list(cfg@)));
        },
    }
    ids
}

/// The ids of the network devices in the text of a `config.json`. A text that is no
/// JSON names none.
pub fn read_net_device_ids(content: &str) -> (r: Result<Vec<String>, PatchError>)
    ensures
        match parsed(content@) {
            None => r matches Ok(ids) && ids@.len() == 0,
            Some(cfg) => r matches Ok(ids) && texts(ids@) == device_ids(net_list(cfg)),
        },
{
    match parse(content) {
        None => Ok(Vec::new()),
        Some(cfg) => Ok(net_device_ids(&cfg)),
    }
}

/// What is known of a network device of a snapshot.
pub struct NetDeviceConfig {
    pub id: String,
    pub mac: String,
    /// Total virtio queue count (rx and tx); there is one tap descriptor for two queues.
    pub num_queues: u32,
}

/// The id, the MAC address and the queue count of a device entry, where it has
/// the first two. Two queues are the default.
pub open spec fn device_config(device: JsonView) -> Option<(Seq<char>, Seq<char>, u32)> {
    match (text_of(member(device, "id"@)), text_of(member(device, "mac"@))) {
        (Some(id), Some(mac)) => Some(
            (
                id,
                mac,
                match whole_of(member(device, "num_queues"@)) {
                    Some(n) => (n % 0x1_0000_0000) as u32,
                    None => 2,
                },
            ),
        ),
        _ => None,
    }
}

/// The settings of the network devices of a list, in order.
pub open spec fn device_configs(devices: Seq<JsonView>) -> Seq<(Seq<char>, Seq<char>, u32)>
    decreases devices.len(),
{
    if devices.len() == 0 {
        Seq::empty()
    } else {
        let before = device_configs(devices.drop_last());
        match device_config(devices.last()) {
            Some(config) => before.push(config),
            None => before,
        }
    }
}

/// Each network device with an id and a MAC address is told with them and with its queues,
/// of which there are two where it says nothing, in its place among the others; and nothing
/// else is told.
pub proof fn lemma_every_device_is_told(devices: Seq<JsonView>, i: int)
    requires
        0 <= i < devices.len(),
    ensures
        device_configs(devices) == device_configs(devices.take(i)) + (match (
            text_of(member(devices[i], "id"@)),
            text_of(member(devices[i], "mac"@)),
        ) {
            (Some(id), Some(mac)) => seq![
                (
                    id,
                    mac,
                    match whole_of(member(devices[i], "num_queues"@)) {
                        Some(n) => (n % 0x1_0000_0000) as u32,
                        None => 2u32,
                    },
                ),
            ],
            _ => Seq::empty(),
        }) + device_configs(devices.skip(i + 1)),
        device_configs(Seq::empty()) == Seq::<(Seq<char>, Seq<char>, u32)>::empty(),
    decreases devices.len(),
{
    let init = devices.drop_last();
    let own = match device_config(devices[i]) {
        Some(c) => seq![c],
        None => Seq::empty(),
    };
    if i == devices.len() - 1 {
        assert(devices.take(i) =~= init);
        assert(devices.skip(i + 1) =~= Seq::<JsonView>::empty());
        assert(device_configs(devices) =~= device_configs(init) + own + device_configs(
            devices.skip(i + 1),
        ));
    } else {
        lemma_every_device_is_told(init, i);
        assert(init.take(i) =~= devices.take(i));
        assert(devices.skip(i + 1).drop_last() =~= init.skip(i + 1));
        assert(devices.skip(i + 1).last() == devices.last());
        assert(device_configs(devices) =~= device_configs(devices.take(i)) + own + device_configs(
            devices.skip(i + 1),
        ));
    }
}

/// What a list of device configurations says.
pub open spec fn config_views(v: Seq<NetDeviceConfig>) -> Seq<(Seq<char>, Seq<char>, u32)> {
    Seq::new(v.len(), |i: int| (v[i].id@, v[i].mac@, v[i].num_queues))
}

fn net_device_config(device: &Json) -> (r: Option<NetDeviceConfig>)
    ensures
        match r {
            Some(c) => device_config(device@) == Some((c.id@, c.mac@, c.num_queues)),
            None => device_config(device@) is None,
        },
{
    match (device.get_text("id"), device.get_text("mac")) {
        (Some(id), Some(mac)) => {
            let num_queues: u32 = match device.get_whole("num_queues") {
                Some(n) => (n % 0x1_0000_0000) as u32,
                None => 2,
            };
            Some(NetDeviceConfig { id: id.clone(), mac: mac.clone(), num_queues })
        },
        _ => None,
    }
}

/// The network devices of a configuration.
pub fn net_device_configs(cfg: &Json) -> (r: Vec<NetDeviceConfig>)
    ensures
        config_views(r@) == device_configs(net_list(cfg@)),
{
    let mut configs: Vec<NetDeviceConfig> = Vec::new();
    match cfg.get("net") {
        Some(Json::List(devices)) => {
            let ghost view = list_view(devices@);
            proof {
                lemma_list_view(devices@);
            }
            let mut i: usize = 0;
            assert(view.take(0) =~= Seq::<JsonView>::empty());
            assert(config_views(configs@) =~= device_configs(view.take(0)));
            while i < devices.len()
                invariant
                    i <= devices@.len(),
                    view == list_view(devices@),
                    view.len() == devices@.len(),
                    forall|k: int| 0 <= k < view.len() ==> #[trigger] view[k] == devices@[k]@,
                    config_views(configs@) == device_configs(view.take(i as int)),
                decreases devices.len() - i,
            {
                proof {
                    assert(view.take(i + 1).drop_last() =~= view.take(i as int));
                    assert(view.take(i + 1).last() == view[i as int]);
                    assert(view[i as int] == devices@[i as int]@);
                }
                if let Some(config) = net_device_config(&devices[i]) {
                    let ghost before = configs@;
                    let ghost now = (config.id@, config.mac@, config.num_queues);
                    configs.push(config);
                    assert(config_views(configs@) =~= config_views(before).push(now));
                }
                i = i + 1;
            }
            assert(view.take(i as int) =~= view);
        },
        _ => {
            assert(config_views(configs@) =~= device_configs(net_list(cfg@)));
        },
    }
    configs
}

/// The network devices in the text of a `config.json`.
pub fn read_net_device_configs(content: &str) -> (r: Result<Vec<NetDeviceConfig>, PatchError>)
    ensures
        match (r, parsed(content@)) {
            (Err(e), None) => e is ParseConfig,
            (Ok(configs), Some(cfg)) => config_views(configs@) == device_configs(net_list(cfg)),
            _ => false,
        },
{
    match parse(content) {
        None => Err(PatchError::ParseConfig),
        Some(cfg) => Ok(net_device_configs(&cfg)),
    }
}

// ── Template metadata ───────────────────────────────────────────────────────

/// What is written beside a template snapshot, so that it can be restored.
pub struct TemplateMeta {
    pub id: String,
    pub snapshot_dir: String,
    pub original_task_vsock: String,
    pub original_console_path: String,
}

/// What the record of a template's metadata must hold to be one.
pub open spec fn template_meta_of(j: JsonView) -> Option<
    (Seq<char>, Seq<char>, Seq<char>, Seq<char>),
> {
    match (
        text_of(entry(j, "id"@, 0, 4)),
        text_of(entry(j, "snapshot_dir"@, 1, 4)),
        text_of(entry(j, "original_task_vsock"@, 2, 4)),
        text_of(entry(j, "original_console_path"@, 3, 4)),
    ) {
        (Some(id), Some(dir), Some(vsock), Some(console)) => Some((id, dir, vsock, console)),
        _ => None,
    }
}

/// What is written beside a template is read under the names of its members.
pub proof fn lemma_template_meta_members(j: JsonView)
    requires
        j is Record,
    ensures
        template_meta_of(j) matches Some((id, dir, vsock, console)) ==> {
            &&& member(j, "id"@) == Some(JsonView::Text(id))
            &&& member(j, "snapshot_dir"@) == Some(JsonView::Text(dir))
            &&& member(j, "original_task_vsock"@) == Some(JsonView::Text(vsock))
            &&& member(j, "original_console_path"@) == Some(JsonView::Text(console))
        },
{
}

impl TemplateMeta {
    /// What the metadata says.
    pub open spec fn says(self) -> (Seq<char>, Seq<char>, Seq<char>, Seq<char>) {
        (self.id@, self.snapshot_dir@, self.original_task_vsock@, self.original_console_path@)
    }

    /// The text of `metadata.json`. Reading it gives the metadata back.
    pub fn save(&self) -> (r: String)
        ensures
            parsed(r@) matches Some(j) && template_meta_of(j) == Some(self.says()),
    {
        let none: Vec<(String, Json)> = Vec::new();
        let a = Json::Record(none);
        let ghost av = a@;
        assert(av == JsonView::Record(Seq::empty()));
        let b = set_member(a, "id", Json::Text(self.id.clone()));
        let ghost bv = b@;
        let c = set_member(b, "snapshot_dir", Json::Text(self.snapshot_dir.clone()));
        let ghost cv = c@;
        let d = set_member(c, "original_task_vsock", Json::Text(self.original_task_vsock.clone()));
        let ghost dv = d@;
        let e = set_member(
            d,
            "original_console_path",
            Json::Text(self.original_console_path.clone()),
        );
        proof {
            let (id, dir, vsock, console) = self.says();
            let names = ("id"@, "snapshot_dir"@, "original_task_vsock"@, "original_console_path"@);
            reveal_strlit("id");
            reveal_strlit("snapshot_dir");
            reveal_strlit("original_task_vsock");
            reveal_strlit("original_console_path");
            lemma_text_member(av, names.0, id);
            lemma_text_member(bv, names.1, dir);
            lemma_text_member(cv, names.2, vsock);
            lemma_text_member(dv, names.3, console);
            lemma_set_member_reads_back(av, names.0, JsonView::Text(id), names.0);
            lemma_set_member_reads_back(bv, names.1, JsonView::Text(dir), names.0);
            lemma_set_member_reads_back(cv, names.2, JsonView::Text(vsock), names.0);
            lemma_set_member_reads_back(cv, names.2, JsonView::Text(vsock), names.1);
            lemma_set_member_reads_back(dv, names.3, JsonView::Text(console), names.0);
            lemma_set_member_reads_back(dv, names.3, JsonView::Text(console), names.1);
            lemma_set_member_reads_back(dv, names.3, JsonView::Text(console), names.2);
            assert(ordered(e@));
            assert(plain(e@, 100));
            assert(names.0.len() == 2 && names.1.len() == 12);
            assert(names.2.len() == 19 && names.3.len() == 21);
            assert(text_of(member(e@, names.0)) == Some(id));
            assert(text_of(member(e@, names.1)) == Some(dir));
            assert(text_of(member(e@, names.2)) == Some(vsock));
            assert(text_of(member(e@, names.3)) == Some(console));
        }
        to_pretty(&e)
    }

    /// Reads the value that a `metadata.json` holds.
    pub fn load(j: &Json) -> (r: Option<TemplateMeta>)
        ensures
            match r {
                Some(meta) => template_meta_of(j@) == Some(meta.says()),
                None => template_meta_of(j@) is None,
            },
    {
        match (
            j.text_entry("id", 0, 4),
            j.text_entry("snapshot_dir", 1, 4),
            j.text_entry("original_task_vsock", 2, 4),
            j.text_entry("original_console_path", 3, 4),
        ) {
            (Some(id), Some(dir), Some(vsock), Some(console)) => Some(
                TemplateMeta {
                    id: id.clone(),
                    snapshot_dir: dir.clone(),
                    original_task_vsock: vsock.clone(),
                    original_console_path: console.clone(),
                },
            ),
            _ => None,
        }
    }

    /// The metadata of a template in a directory, or what is said of why there is none.
    /// `file` is what its `metadata.json` says, or what is said of why it cannot be
    /// parsed, or of why it cannot be read at all.
    pub fn loaded(dir: &str, file: Result<Result<TemplateMeta, String>, String>) -> (r: Result<
        TemplateMeta,
        String,
    >)
        ensures
            match file {
                Ok(Ok(meta)) => r matches Ok(m) && m == meta,
                Ok(Err(said)) => r matches Err(message) && message@ == "parse metadata.json: "@
                    + said@,
                Err(said) => r matches Err(message) && message@ == "read metadata.json from "@
                    + dir@ + ": "@ + said@,
            },
    {
        match file {
            Ok(Ok(meta)) => Ok(meta),
            Ok(Err(said)) => Err(concat("parse metadata.json: ", said.as_str())),
            Err(said) => {
                let mut message = concat3("read metadata.json from ", dir, ": ");
                message.append(said.as_str());
                Err(message)
            },
        }
    }
}

} // verus!
