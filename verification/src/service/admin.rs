//! Looking after the template pool: one request and one answer, each a line of
//! JSON.

use crate::json::{
    compact, lemma_member_missing, lemma_member_reads_back, lemma_record_of_ordered, list_view,
    member, ordered, parse, parsed, plain, push_member, record, record_of, record_view, text_of,
    to_compact, whole_number, whole_of, Json, JsonNumber, JsonView,
};
use crate::template::{PooledTemplate, SnapshotType};
use crate::text::{
    concat, concat3, cut_once, decimal, lemma_cut_once, lemma_cut_there, lemma_less_transitive,
    less, same, split_once, text_less, u64_to_string,
};
use vstd::prelude::*;
use vstd::utf8::{encode_utf8, is_ascii_chars, is_ascii_chars_encode_utf8};

verus! {

// ── Ids ─────────────────────────────────────────────────────────────────────

/// What is wrong with an id.
#[derive(Clone, Copy, Debug, PartialEq, Eq, Structural)]
pub enum IdFault {
    /// It has the given number of bytes, which is too few or too many.
    BadLength(usize),
    BadCharacter,
}

/// The characters of an id.
pub open spec fn id_char(c: char) -> bool {
    ('a' <= c && c <= 'z') || ('A' <= c && c <= 'Z') || ('0' <= c && c <= '9') || c == '-' || c
        == '_'
}

/// The number of bytes that a string takes in UTF-8.
pub open spec fn byte_len(s: Seq<char>) -> usize {
    encode_utf8(s).len() as usize
}

/// What is wrong with an id, if anything is: it has 12 to 64 bytes, each a letter,
/// a digit, a hyphen or an underscore.
pub open spec fn id_fault(id: Seq<char>) -> Option<IdFault> {
    if !(12 <= byte_len(id) <= 64) {
        Some(IdFault::BadLength(byte_len(id)))
    } else if exists|i: int| 0 <= i < id.len() && !id_char(#[trigger] id[i]) {
        Some(IdFault::BadCharacter)
    } else {
        None
    }
}

/// Whether a string is an id.
pub fn validate_id(id: &str) -> (r: Result<(), IdFault>)
    ensures
        match id_fault(id@) {
            Some(fault) => r == Err::<(), IdFault>(fault),
            None => r is Ok,
        },
{
    let n: usize = id.len();
    if n < 12 || n > 64 {
        return Err(IdFault::BadLength(n));
    }
    let count: usize = id.unicode_len();
    let mut i: usize = 0;
    while i < count
        invariant
            i <= count,
            count == id@.len(),
            12 <= byte_len(id@) <= 64,
            forall|k: int| 0 <= k < i ==> id_char(#[trigger] id@[k]),
        decreases count - i,
    {
        let c = id.get_char(i);
        let letter: bool = ('a' <= c && c <= 'z') || ('A' <= c && c <= 'Z');
        let digit: bool = '0' <= c && c <= '9';
        if !(letter || digit || c == '-' || c == '_') {
            assert(!id_char(id@[i as int]));
            return Err(IdFault::BadCharacter);
        }
        i = i + 1;
    }
    Ok(())
}

/// An id has 12 to 64 characters.
pub proof fn lemma_id_length(id: Seq<char>)
    requires
        id_fault(id) is None,
        id.len() <= usize::MAX,
    ensures
        12 <= id.len() <= 64,
{
    assert(is_ascii_chars(id)) by {
        assert forall|i: int| 0 <= i < id.len() implies '\0' <= #[trigger] id[i] <= '\u{7f}' by {
            assert(id_char(id[i]));
        }
    }
    is_ascii_chars_encode_utf8(id);
}

/// A string is an id exactly where it has 12 to 64 characters and each is a letter from
/// `a` to `z` or `A` to `Z`, a digit, a hyphen or an underscore.
pub proof fn lemma_what_an_id_is(id: Seq<char>)
    requires
        id.len() <= usize::MAX,
    ensures
        ({
            let plain_chars = forall|i: int|
                0 <= i < id.len() ==> {
                    let c = #[trigger] id[i];
                    ('a' <= c && c <= 'z') || ('A' <= c && c <= 'Z') || ('0' <= c && c <= '9') || c
                        == '-' || c == '_'
                };
            &&& id_fault(id) is None <==> plain_chars && 12 <= id.len() <= 64
            &&& id_fault(id) == Some(IdFault::BadCharacter) ==> !plain_chars
            &&& plain_chars && !(12 <= id.len() <= 64) ==> id_fault(id) == Some(
                IdFault::BadLength(id.len() as usize),
            )
        }),
{
    let plain_chars = forall|i: int|
        0 <= i < id.len() ==> {
            let c = #[trigger] id[i];
            ('a' <= c && c <= 'z') || ('A' <= c && c <= 'Z') || ('0' <= c && c <= '9') || c == '-'
                || c == '_'
        };
    if plain_chars {
        assert(forall|i: int| 0 <= i < id.len() ==> id_char(#[trigger] id[i]));
        assert(is_ascii_chars(id)) by {
            assert forall|i: int| 0 <= i < id.len() implies '\0' <= #[trigger] id[i]
                <= '\u{7f}' by {
                assert(id_char(id[i]));
            }
        }
        is_ascii_chars_encode_utf8(id);
    } else {
        let i = choose|i: int|
            0 <= i < id.len() && !({
                let c = #[trigger] id[i];
                ('a' <= c && c <= 'z') || ('A' <= c && c <= 'Z') || ('0' <= c && c <= '9') || c
                    == '-' || c == '_'
            });
        assert(!id_char(id[i]));
    }
}

/// What is said of a string that is no id.
pub open spec fn id_fault_text(fault: IdFault, id: Seq<char>) -> Seq<char> {
    match fault {
        IdFault::BadLength(n) => "id must be 12-64 characters, got "@ + decimal(n as nat),
        IdFault::BadCharacter => "id '"@ + id
            + "' contains invalid characters (only [a-zA-Z0-9_-] allowed)"@,
    }
}

impl IdFault {
    /// What is said of a string that is no id.
    pub fn message(&self, id: &str) -> (r: String)
        ensures
            r@ == id_fault_text(*self, id@),
    {
        match self {
            IdFault::BadLength(n) => {
                let number = u64_to_string(*n as u64);
                concat("id must be 12-64 characters, got ", number.as_str())
            },
            IdFault::BadCharacter => concat3(
                "id '",
                id,
                "' contains invalid characters (only [a-zA-Z0-9_-] allowed)",
            ),
        }
    }
}

// ── Requests ────────────────────────────────────────────────────────────────

/// What is asked for.
pub enum Action {
    TemplateList,
    TemplateGet,
    PoolStatus,
    PoolRefill,
    PoolGc,
    /// Something else; what is answered.
    Unknown(String),
}

/// What is asked for.
pub enum ActionView {
    TemplateList,
    TemplateGet,
    PoolStatus,
    PoolRefill,
    PoolGc,
    Unknown(Seq<char>),
}

impl View for Action {
    type V = ActionView;

    open spec fn view(&self) -> ActionView {
        match *self {
            Action::TemplateList => ActionView::TemplateList,
            Action::TemplateGet => ActionView::TemplateGet,
            Action::PoolStatus => ActionView::PoolStatus,
            Action::PoolRefill => ActionView::PoolRefill,
            Action::PoolGc => ActionView::PoolGc,
            Action::Unknown(message) => ActionView::Unknown(message@),
        }
    }
}

/// What the name of an action asks for: what stands before the first hyphen says
/// of what, what stands behind it says what is done.
pub open spec fn action_named(action: Seq<char>) -> ActionView {
    let (category, verb) = match cut_once(action, '-') {
        Some(parts) => parts,
        None => (action, Seq::empty()),
    };
    if category == "template"@ {
        if verb == "list"@ {
            ActionView::TemplateList
        } else if verb == "get"@ {
            ActionView::TemplateGet
        } else {
            ActionView::Unknown("unknown template action: template-"@ + verb)
        }
    } else if category == "pool"@ {
        if verb == "status"@ {
            ActionView::PoolStatus
        } else if verb == "refill"@ {
            ActionView::PoolRefill
        } else if verb == "gc"@ {
            ActionView::PoolGc
        } else {
            ActionView::Unknown("unknown pool action: pool-"@ + verb)
        }
    } else {
        ActionView::Unknown("unknown action: "@ + action)
    }
}

/// Each action has one name, and whatever else is asked for is unknown.
pub proof fn lemma_actions_have_one_name(action: Seq<char>)
    ensures
        action_named(action) is TemplateList <==> action == "template-list"@,
        action_named(action) is TemplateGet <==> action == "template-get"@,
        action_named(action) is PoolStatus <==> action == "pool-status"@,
        action_named(action) is PoolRefill <==> action == "pool-refill"@,
        action_named(action) is PoolGc <==> action == "pool-gc"@,
{
    reveal_strlit("template");
    reveal_strlit("pool");
    reveal_strlit("list");
    reveal_strlit("get");
    reveal_strlit("status");
    reveal_strlit("refill");
    reveal_strlit("gc");
    reveal_strlit("template-list");
    reveal_strlit("template-get");
    reveal_strlit("pool-status");
    reveal_strlit("pool-refill");
    reveal_strlit("pool-gc");
    assert("template-list"@ =~= "template"@ + seq!['-'] + "list"@);
    assert("template-get"@ =~= "template"@ + seq!['-'] + "get"@);
    assert("pool-status"@ =~= "pool"@ + seq!['-'] + "status"@);
    assert("pool-refill"@ =~= "pool"@ + seq!['-'] + "refill"@);
    assert("pool-gc"@ =~= "pool"@ + seq!['-'] + "gc"@);
    lemma_cut_there("template"@, "list"@, '-');
    lemma_cut_there("template"@, "get"@, '-');
    lemma_cut_there("pool"@, "status"@, '-');
    lemma_cut_there("pool"@, "refill"@, '-');
    lemma_cut_there("pool"@, "gc"@, '-');
    lemma_cut_once(action, '-');
    assert("template"@.len() != "pool"@.len());
    assert("list"@.len() != "get"@.len());
    assert("status"@[0] == 's' && "refill"@[0] == 'r' && "gc"@.len() == 2);
    if cut_once(action, '-') is None {
        assert(action_named(action) is Unknown) by {
            reveal_strlit("");
        }
    }
}

/// What the name of an action asks for.
pub fn dispatch(action: &str) -> (r: Action)
    ensures
        r@ == action_named(action@),
{
    proof {
        reveal_strlit("");
        assert(""@ =~= Seq::<char>::empty());
    }
    let (category, verb) = match split_once(action, '-') {
        Some((category, verb)) => (category, verb),
        None => (action.to_owned(), "".to_owned()),
    };
    if same(category.as_str(), "template") {
        if same(verb.as_str(), "list") {
            Action::TemplateList
        } else if same(verb.as_str(), "get") {
            Action::TemplateGet
        } else {
            Action::Unknown(concat("unknown template action: template-", verb.as_str()))
        }
    } else if same(category.as_str(), "pool") {
        if same(verb.as_str(), "status") {
            Action::PoolStatus
        } else if same(verb.as_str(), "refill") {
            Action::PoolRefill
        } else if same(verb.as_str(), "gc") {
            Action::PoolGc
        } else {
            Action::Unknown(concat("unknown pool action: pool-", verb.as_str()))
        }
    } else {
        Action::Unknown(concat("unknown action: ", action))
    }
}

/// The action that a request names; one that names none names the empty one.
pub open spec fn requested(req: JsonView) -> ActionView {
    match text_of(member(req, "action"@)) {
        Some(action) => action_named(action),
        None => action_named(Seq::empty()),
    }
}

/// The action that a request names.
pub fn requested_action(req: &Json) -> (r: Action)
    ensures
        r@ == requested(req@),
{
    proof {
        reveal_strlit("");
        assert(""@ =~= Seq::<char>::empty());
    }
    match req.get_text("action") {
        Some(action) => dispatch(action.as_str()),
        None => dispatch(""),
    }
}

/// Reads a request. A line that is no JSON is answered by closing the connection.
pub fn read_request(line: &str) -> (r: Option<(Json, Action)>)
    ensures
        match r {
            Some((req, action)) => parsed(line@) == Some(req@) && action@ == requested(req@),
            None => parsed(line@) is None,
        },
{
    match parse(line) {
        Some(req) => {
            let action = requested_action(&req);
            Some((req, action))
        },
        None => None,
    }
}

// ── Answers ─────────────────────────────────────────────────────────────────

/// The answer to a request that failed.
pub open spec fn error_answer(message: Seq<char>) -> JsonView {
    record_of(seq![("ok"@, JsonView::Bool(false)), ("error"@, JsonView::Text(message))])
}

/// The answer to a request that failed.
pub fn error_reply(message: &str) -> (r: Json)
    ensures
        r@ == error_answer(message@),
        ordered(r@),
{
    let mut members: Vec<(String, Json)> = Vec::new();
    push_member(&mut members, "ok", Json::Bool(false));
    push_member(&mut members, "error", Json::Text(message.to_owned()));
    proof {
        assert(record_view(members@) =~= seq![
            ("ok"@, JsonView::Bool(false)),
            ("error"@, JsonView::Text(message@)),
        ]);
        lemma_record_of_ordered(record_view(members@));
    }
    record(members)
}

/// What failed is told as a failure, with what is said of it.
pub proof fn lemma_failure_is_told(message: Seq<char>)
    ensures
        member(error_answer(message), "ok"@) == Some(JsonView::Bool(false)),
        member(error_answer(message), "error"@) == Some(JsonView::Text(message)),
{
    reveal_strlit("ok");
    reveal_strlit("error");
    assert("ok"@.len() == 2);
    assert("error"@.len() == 5);
    let members = seq![("ok"@, JsonView::Bool(false)), ("error"@, JsonView::Text(message))];
    lemma_member_reads_back(members, 0);
    lemma_member_reads_back(members, 1);
}

/// What is said where there is no pool.
pub const NO_POOL: &'static str = "template pool not configured";

/// An answer as a line.
pub fn reply_line(reply: &Json) -> (r: String)
    requires
        ordered(reply@),
    ensures
        r@ == compact(reply@) + "\n"@,
        forall|i: int| 0 <= i < r@.len() - 1 ==> #[trigger] r@[i] != '\n',
        plain(reply@, 100) ==> parsed(r@.drop_last()) == Some(reply@),
{
    proof {
        reveal_strlit("\n");
    }
    let text = to_compact(reply);
    let r = concat(text.as_str(), "\n");
    proof {
        assert(r@.drop_last() =~= text@);
        assert forall|i: int| 0 <= i < r@.len() - 1 implies #[trigger] r@[i] != '\n' by {
            assert(r@[i] == text@[i]);
            if text@[i] == '\n' {
                assert(text@.contains('\n'));
            }
        }
    }
    r
}

// ── Templates ───────────────────────────────────────────────────────────────

/// A snapshot type in words.
pub open spec fn type_word(kind: SnapshotType) -> Seq<char> {
    match kind {
        SnapshotType::Environment => "environment"@,
        SnapshotType::WarmFork => "warm_fork"@,
        SnapshotType::Continuation => "continuation"@,
    }
}

/// A snapshot type in words.
pub fn snapshot_type_str(kind: &SnapshotType) -> (r: &'static str)
    ensures
        r@ == type_word(*kind),
{
    match kind {
        SnapshotType::Environment => "environment",
        SnapshotType::WarmFork => "warm_fork",
        SnapshotType::Continuation => "continuation",
    }
}

/// What is told of a template, member by member.
pub open spec fn template_members(t: PooledTemplate) -> Seq<(Seq<char>, JsonView)> {
    seq![
        ("template_id"@, JsonView::Text(t.id@)),
        ("snapshot_type"@, JsonView::Text(type_word(t.snapshot_type))),
        ("key"@, JsonView::Text(t.key.key@)),
        ("created_at_secs"@, JsonView::Number(whole_number(t.created_at_secs))),
        ("snapshot_dir"@, JsonView::Text(t.snapshot_dir@)),
    ] + (match t.workload_identity {
        Some(identity) => seq![
            ("pod_uid"@, JsonView::Text(identity.pod_uid@)),
            ("generation"@, JsonView::Number(whole_number(identity.generation))),
        ],
        None => Seq::empty(),
    })
}

/// What is told of a template.
pub open spec fn template_answer(t: PooledTemplate) -> JsonView {
    record_of(template_members(t))
}

/// What is told of a template is what it is, each under its own name; its workload is told
/// exactly where it has one.
pub proof fn lemma_template_is_told(t: PooledTemplate)
    ensures
        ({
            let told = |name: Seq<char>| member(template_answer(t), name);
            &&& told("template_id"@) == Some(JsonView::Text(t.id@))
            &&& told("key"@) == Some(JsonView::Text(t.key.key@))
            &&& told("created_at_secs"@) == Some(
                JsonView::Number(whole_number(t.created_at_secs)),
            )
            &&& told("snapshot_dir"@) == Some(JsonView::Text(t.snapshot_dir@))
            &&& t.snapshot_type is Environment ==> told("snapshot_type"@) == Some(
                JsonView::Text("environment"@),
            )
            &&& t.snapshot_type is WarmFork ==> told("snapshot_type"@) == Some(
                JsonView::Text("warm_fork"@),
            )
            &&& t.snapshot_type is Continuation ==> told("snapshot_type"@) == Some(
                JsonView::Text("continuation"@),
            )
            &&& match t.workload_identity {
                Some(w) => told("pod_uid"@) == Some(JsonView::Text(w.pod_uid@)) && told(
                    "generation"@,
                ) == Some(JsonView::Number(whole_number(w.generation))),
                None => told("pod_uid"@) is None && told("generation"@) is None,
            }
        }),
{
    reveal_strlit("template_id");
    reveal_strlit("snapshot_type");
    reveal_strlit("key");
    reveal_strlit("created_at_secs");
    reveal_strlit("snapshot_dir");
    reveal_strlit("pod_uid");
    reveal_strlit("generation");
    assert("template_id"@.len() == 11);
    assert("snapshot_type"@.len() == 13);
    assert("key"@.len() == 3);
    assert("created_at_secs"@.len() == 15);
    assert("snapshot_dir"@.len() == 12);
    assert("pod_uid"@.len() == 7);
    assert("generation"@.len() == 10);
    let members = template_members(t);
    lemma_member_reads_back(members, 0);
    lemma_member_reads_back(members, 1);
    lemma_member_reads_back(members, 2);
    lemma_member_reads_back(members, 3);
    lemma_member_reads_back(members, 4);
    if t.workload_identity is Some {
        lemma_member_reads_back(members, 5);
        lemma_member_reads_back(members, 6);
    } else {
        lemma_member_missing(members, "pod_uid"@);
        lemma_member_missing(members, "generation"@);
    }
}

/// What is told of a template.
pub fn template_json(t: &PooledTemplate) -> (r: Json)
    ensures
        r@ == template_answer(*t),
        ordered(r@),
{
    let mut members: Vec<(String, Json)> = Vec::new();
    push_member(&mut members, "template_id", Json::Text(t.id.clone()));
    push_member(
        &mut members,
        "snapshot_type",
        Json::Text(snapshot_type_str(&t.snapshot_type).to_owned()),
    );
    push_member(&mut members, "key", Json::Text(t.key.key.clone()));
    push_member(
        &mut members,
        "created_at_secs",
        Json::Number(JsonNumber::from_u64(t.created_at_secs)),
    );
    push_member(&mut members, "snapshot_dir", Json::Text(t.snapshot_dir.clone()));
    if let Some(identity) = &t.workload_identity {
        push_member(&mut members, "pod_uid", Json::Text(identity.pod_uid.clone()));
        push_member(
            &mut members,
            "generation",
            Json::Number(JsonNumber::from_u64(identity.generation)),
        );
    }
    proof {
        assert(record_view(members@) =~= template_members(*t));
        lemma_record_of_ordered(record_view(members@));
    }
    record(members)
}

/// Where an id belongs among sorted templates: before the first with a greater id.
pub open spec fn id_slot(sorted: Seq<PooledTemplate>, id: Seq<char>) -> int
    decreases sorted.len(),
{
    if sorted.len() == 0 {
        0
    } else if text_less(id, sorted[0].id@) {
        0
    } else {
        1 + id_slot(sorted.drop_first(), id)
    }
}

/// Templates by their ids; those with one id stay in their order.
pub open spec fn by_id(templates: Seq<PooledTemplate>) -> Seq<PooledTemplate>
    decreases templates.len(),
{
    if templates.len() == 0 {
        templates
    } else {
        let before = by_id(templates.drop_last());
        before.insert(id_slot(before, templates.last().id@), templates.last())
    }
}

proof fn lemma_id_slot(sorted: Seq<PooledTemplate>, id: Seq<char>, i: int)
    requires
        0 <= i <= sorted.len(),
        forall|k: int| 0 <= k < i ==> !text_less(id, (#[trigger] sorted[k]).id@),
    ensures
        0 <= id_slot(sorted, id) <= sorted.len(),
        i <= id_slot(sorted, id),
        i < sorted.len() && text_less(id, sorted[i].id@) ==> id_slot(sorted, id) == i,
        i == sorted.len() ==> id_slot(sorted, id) == i,
    decreases sorted.len(),
{
    if sorted.len() > 0 {
        let rest = sorted.drop_first();
        if i > 0 {
            assert(!text_less(id, sorted[0].id@));
            assert forall|k: int| 0 <= k < i - 1 implies !text_less(id, (#[trigger] rest[k]).id@) by {
                assert(rest[k] == sorted[k + 1]);
            }
            if i < sorted.len() {
                assert(rest[i - 1] == sorted[i]);
            }
            lemma_id_slot(rest, id, i - 1);
        } else {
            lemma_id_slot(rest, id, 0);
        }
    }
}

proof fn lemma_before_slot(sorted: Seq<PooledTemplate>, id: Seq<char>, k: int)
    requires
        0 <= k < id_slot(sorted, id),
    ensures
        k < sorted.len(),
        !text_less(id, sorted[k].id@),
    decreases sorted.len(),
{
    if sorted.len() > 0 && k > 0 {
        lemma_before_slot(sorted.drop_first(), id, k - 1);
        assert(sorted.drop_first()[k - 1] == sorted[k]);
    }
}

proof fn lemma_at_slot(sorted: Seq<PooledTemplate>, id: Seq<char>)
    ensures
        0 <= id_slot(sorted, id) <= sorted.len(),
        id_slot(sorted, id) < sorted.len() ==> text_less(
            id,
            sorted[id_slot(sorted, id)].id@,
        ),
    decreases sorted.len(),
{
    if sorted.len() > 0 {
        let rest = sorted.drop_first();
        lemma_at_slot(rest, id);
        if !text_less(id, sorted[0].id@) && id_slot(sorted, id) < sorted.len() {
            assert(rest[id_slot(rest, id)] == sorted[id_slot(sorted, id)]);
        }
    }
}

/// A listing has each template as often as it was given, and its ids never
/// descend.
pub proof fn lemma_listing_is_sorted(templates: Seq<PooledTemplate>)
    ensures
        by_id(templates).len() == templates.len(),
        by_id(templates).to_multiset() == templates.to_multiset(),
        forall|i: int, k: int|
            0 <= i < k < by_id(templates).len() ==> !text_less(
                (#[trigger] by_id(templates)[k]).id@,
                (#[trigger] by_id(templates)[i]).id@,
            ),
    decreases templates.len(),
{
    broadcast use vstd::seq_lib::group_to_multiset_ensures;

    if templates.len() > 0 {
        let init = templates.drop_last();
        let last = templates.last();
        lemma_listing_is_sorted(init);
        let before = by_id(init);
        let at = id_slot(before, last.id@);
        let all = by_id(templates);
        lemma_at_slot(before, last.id@);
        assert(all == before.insert(at, last));
        assert(templates =~= init.push(last));
        assert(all.to_multiset() =~= templates.to_multiset());
        assert forall|i: int, k: int| 0 <= i < k < all.len() implies !text_less(
            (#[trigger] all[k]).id@,
            (#[trigger] all[i]).id@,
        ) by {
            let from_i = if i < at { i } else { i - 1 };
            let from_k = if k < at { k } else { k - 1 };
            if i != at {
                assert(all[i] == before[from_i]);
            }
            if k != at {
                assert(all[k] == before[from_k]);
            }
            if k == at {
                lemma_before_slot(before, last.id@, i);
            } else if i == at {
                // All behind the slot are greater than the one at the slot.
                if text_less(all[k].id@, last.id@) {
                    lemma_less_transitive(all[k].id@, last.id@, before[at].id@);
                    if from_k > at {
                        assert(!text_less(before[from_k].id@, before[at].id@));
                    } else {
                        lemma_less_irreflexive(before[at].id@);
                    }
                }
            }
        }
    }
}

proof fn lemma_less_irreflexive(a: Seq<char>)
    ensures
        !text_less(a, a),
    decreases a.len(),
{
    if a.len() > 0 {
        lemma_less_irreflexive(a.drop_first());
    }
}

/// What is told of templates, in order.
pub open spec fn template_answers(templates: Seq<PooledTemplate>) -> Seq<JsonView> {
    Seq::new(templates.len(), |i: int| template_answer(templates[i]))
}

/// The answer to the request for all templates: those of the pool and those of the
/// store of continuations, by their ids.
pub open spec fn list_answer(templates: Seq<PooledTemplate>) -> JsonView {
    record_of(
        seq![
            ("ok"@, JsonView::Bool(true)),
            ("templates"@, JsonView::List(template_answers(by_id(templates)))),
        ],
    )
}

/// All templates are told, each as it is told by itself, in the order of their ids.
pub proof fn lemma_all_templates_are_told(templates: Seq<PooledTemplate>, i: int)
    requires
        0 <= i < templates.len(),
    ensures
        ({
            let answer = list_answer(templates);
            let told = template_answers(by_id(templates));
            &&& member(answer, "ok"@) == Some(JsonView::Bool(true))
            &&& member(answer, "templates"@) == Some(JsonView::List(told))
            &&& told.len() == templates.len()
            &&& exists|k: int| 0 <= k < told.len() && #[trigger] told[k] == template_answer(
                templates[i],
            )
            &&& told[i] == template_answer(by_id(templates)[i])
        }),
{
    broadcast use vstd::seq_lib::group_to_multiset_ensures;

    reveal_strlit("ok");
    reveal_strlit("templates");
    assert("ok"@.len() == 2);
    assert("templates"@.len() == 9);
    let sorted = by_id(templates);
    let told = template_answers(sorted);
    let members = seq![("ok"@, JsonView::Bool(true)), ("templates"@, JsonView::List(told))];
    lemma_member_reads_back(members, 0);
    lemma_member_reads_back(members, 1);
    lemma_listing_is_sorted(templates);
    assert(templates.contains(templates[i]));
    assert(templates.to_multiset().count(templates[i]) > 0);
    assert(sorted.contains(templates[i]));
    let k = choose|k: int| 0 <= k < sorted.len() && sorted[k] == templates[i];
    assert(told[k] == template_answer(templates[i]));
}

fn sort_by_id(templates: Vec<PooledTemplate>) -> (r: Vec<PooledTemplate>)
    ensures
        r@ == by_id(templates@),
{
    let ghost all = templates@;
    let mut sorted: Vec<PooledTemplate> = Vec::new();
    assert(all.take(0) =~= Seq::<PooledTemplate>::empty());
    assert(sorted@ =~= by_id(all.take(0)));
    for t in it: templates
        invariant
            it.seq() == all,
            sorted@ == by_id(all.take(it.index() as int)),
    {
        let ghost n = it.index() as int;
        proof {
            assert(t == all[n]);
            assert(all.take(n + 1).drop_last() =~= all.take(n));
            assert(all.take(n + 1).last() == all[n]);
        }
        let ghost before = sorted@;
        let mut i: usize = 0;
        while i < sorted.len() && !less(t.id.as_str(), sorted[i].id.as_str())
            invariant
                i <= sorted@.len(),
                sorted@ == before,
                forall|k: int| 0 <= k < i ==> !text_less(t.id@, (#[trigger] before[k]).id@),
            decreases sorted.len() - i,
        {
            i = i + 1;
        }
        proof {
            lemma_id_slot(before, t.id@, i as int);
        }
        sorted.insert(i, t);
    }
    assert(all.take(all.len() as int) =~= all);
    sorted
}

/// The answer to the request for all templates.
pub fn template_list(mut pool: Vec<PooledTemplate>, mut store: Vec<PooledTemplate>) -> (r: Json)
    ensures
        r@ == list_answer(pool@ + store@),
        ordered(r@),
{
    let ghost all = pool@ + store@;
    pool.append(&mut store);
    let sorted = sort_by_id(pool);
    let mut items: Vec<Json> = Vec::new();
    let mut i: usize = 0;
    let ghost answers = template_answers(by_id(all));
    assert(answers.take(0) =~= list_view(items@));
    while i < sorted.len()
        invariant
            i <= sorted@.len(),
            sorted@ == by_id(all),
            answers == template_answers(by_id(all)),
            list_view(items@) == answers.take(i as int),
            forall|k: int| 0 <= k < i ==> ordered(#[trigger] answers[k]),
        decreases sorted.len() - i,
    {
        let item = template_json(&sorted[i]);
        let ghost before = items@;
        items.push(item);
        proof {
            assert(items@.drop_last() =~= before);
            assert(answers[i as int] == item@);
            assert(answers.take(i + 1) =~= answers.take(i as int).push(answers[i as int]));
        }
        i = i + 1;
    }
    assert(answers.take(i as int) =~= answers);
    let mut members: Vec<(String, Json)> = Vec::new();
    push_member(&mut members, "ok", Json::Bool(true));
    let list = Json::List(items);
    proof {
        assert(list@ == JsonView::List(answers));
        assert(ordered(list@));
    }
    push_member(&mut members, "templates", list);
    proof {
        assert(record_view(members@) =~= seq![
            ("ok"@, JsonView::Bool(true)),
            ("templates"@, JsonView::List(answers)),
        ]);
        lemma_record_of_ordered(record_view(members@));
    }
    record(members)
}

/// The template that a request asks for, or what is answered where it asks for
/// none.
pub fn requested_template(req: &Json) -> (r: Result<String, String>)
    ensures
        match r {
            Ok(id) => text_of(member(req@, "template_id"@)) == Some(id@) && id_fault(
                id@,
            ) is None,
            Err(message) => match text_of(member(req@, "template_id"@)) {
                Some(id) => id_fault(id) matches Some(fault) && message@
                    == "invalid template_id: "@ + id_fault_text(fault, id),
                None => message@ == "missing template_id"@,
            },
        },
{
    match req.get_text("template_id") {
        Some(id) => match validate_id(id.as_str()) {
            Ok(()) => Ok(id.clone()),
            Err(fault) => {
                let text = fault.message(id.as_str());
                Err(concat("invalid template_id: ", text.as_str()))
            },
        },
        None => Err("missing template_id".to_owned()),
    }
}

/// Whether the first template with an id in a list is the one at a place.
pub open spec fn first_with_id(templates: Seq<PooledTemplate>, id: Seq<char>, i: int) -> bool {
    &&& 0 <= i < templates.len()
    &&& templates[i].id@ == id
    &&& forall|k: int| 0 <= k < i ==> (#[trigger] templates[k]).id@ != id
}

/// The first template with an id, in the pool or else in the store.
pub open spec fn template_with_id(
    pool: Seq<PooledTemplate>,
    store: Seq<PooledTemplate>,
    id: Seq<char>,
) -> Option<PooledTemplate> {
    let all = pool + store;
    if exists|i: int| first_with_id(all, id, i) {
        Some(all[choose|i: int| first_with_id(all, id, i)])
    } else {
        None
    }
}

/// The answer to the request for one template.
pub open spec fn get_answer(found: Option<PooledTemplate>, id: Seq<char>) -> JsonView {
    match found {
        Some(t) => record_of(
            seq![("ok"@, JsonView::Bool(true)), ("template"@, template_answer(t))],
        ),
        None => error_answer("template "@ + id + " not found"@),
    }
}

/// The answer to the request for one template: the pool is searched before the
/// store of continuations.
pub fn template_get(pool: &Vec<PooledTemplate>, store: &Vec<PooledTemplate>, id: &str) -> (r: Json)
    ensures
        r@ == get_answer(template_with_id(pool@, store@, id@), id@),
        ordered(r@),
{
    let ghost all = pool@ + store@;
    let mut i: usize = 0;
    while i < pool.len()
        invariant
            i <= pool@.len(),
            all == pool@ + store@,
            forall|k: int| 0 <= k < i ==> (#[trigger] all[k]).id@ != id@,
        decreases pool.len() - i,
    {
        if same(pool[i].id.as_str(), id) {
            proof {
                assert(all[i as int] == pool@[i as int]);
                lemma_template_found(pool@, store@, id@, i as int);
            }
            return get_reply(&pool[i]);
        }
        assert(all[i as int] == pool@[i as int]);
        i = i + 1;
    }
    let mut j: usize = 0;
    while j < store.len()
        invariant
            j <= store@.len(),
            all == pool@ + store@,
            forall|k: int| 0 <= k < pool@.len() + j ==> (#[trigger] all[k]).id@ != id@,
        decreases store.len() - j,
    {
        if same(store[j].id.as_str(), id) {
            proof {
                assert(all[pool@.len() + j] == store@[j as int]);
                lemma_template_found(pool@, store@, id@, pool@.len() + j);
            }
            return get_reply(&store[j]);
        }
        assert(all[pool@.len() + j] == store@[j as int]);
        j = j + 1;
    }
    let text = concat3("template ", id, " not found");
    error_reply(text.as_str())
}

proof fn lemma_template_found(
    pool: Seq<PooledTemplate>,
    store: Seq<PooledTemplate>,
    id: Seq<char>,
    i: int,
)
    requires
        first_with_id(pool + store, id, i),
    ensures
        template_with_id(pool, store, id) == Some((pool + store)[i]),
{
    let all = pool + store;
    let k = choose|k: int| first_with_id(all, id, k);
    assert(k == i) by {
        if k < i {
            assert(all[k].id@ != id);
        }
        if i < k {
            assert(all[i].id@ != id);
        }
    }
}

/// The template that is asked for is told: the first of the pool that has the id, or else
/// the first of the store; what is not there is told as a failure.
pub proof fn lemma_template_is_found(
    pool: Seq<PooledTemplate>,
    store: Seq<PooledTemplate>,
    id: Seq<char>,
)
    ensures
        match template_with_id(pool, store, id) {
            Some(t) => {
                &&& t.id@ == id
                &&& member(get_answer(Some(t), id), "ok"@) == Some(JsonView::Bool(true))
                &&& member(get_answer(Some(t), id), "template"@) == Some(template_answer(t))
                &&& (exists|i: int|
                    0 <= i < pool.len() && (#[trigger] pool[i]).id@ == id) ==> exists|i: int|
                    0 <= i < pool.len() && #[trigger] pool[i] == t
            },
            None => {
                &&& forall|i: int| 0 <= i < pool.len() ==> (#[trigger] pool[i]).id@ != id
                &&& forall|i: int| 0 <= i < store.len() ==> (#[trigger] store[i]).id@ != id
                &&& member(get_answer(None, id), "ok"@) == Some(JsonView::Bool(false))
            },
        },
{
    reveal_strlit("ok");
    reveal_strlit("template");
    assert("ok"@.len() == 2);
    assert("template"@.len() == 8);
    let all = pool + store;
    lemma_failure_is_told("template "@ + id + " not found"@);
    match template_with_id(pool, store, id) {
        Some(t) => {
            let members = seq![("ok"@, JsonView::Bool(true)), ("template"@, template_answer(t))];
            lemma_member_reads_back(members, 0);
            lemma_member_reads_back(members, 1);
            let i = choose|i: int| first_with_id(all, id, i);
            if exists|k: int| 0 <= k < pool.len() && (#[trigger] pool[k]).id@ == id {
                let k = choose|k: int| 0 <= k < pool.len() && (#[trigger] pool[k]).id@ == id;
                assert(all[k] == pool[k]);
                assert(i <= k);
                assert(pool[i] == t);
            }
        },
        None => {
            assert forall|i: int| 0 <= i < all.len() implies (#[trigger] all[i]).id@ != id by {
                lemma_none_with_id(all, id, i);
            }
            assert forall|i: int| 0 <= i < pool.len() implies (#[trigger] pool[i]).id@ != id by {
                assert(all[i] == pool[i]);
            }
            assert forall|i: int| 0 <= i < store.len() implies (#[trigger] store[i]).id@ != id by {
                assert(all[pool.len() + i] == store[i]);
            }
        },
    }
}

proof fn lemma_none_with_id(templates: Seq<PooledTemplate>, id: Seq<char>, i: int)
    requires
        forall|k: int| !first_with_id(templates, id, k),
        0 <= i < templates.len(),
    ensures
        templates[i].id@ != id,
    decreases i,
{
    assert forall|k: int| 0 <= k < i implies (#[trigger] templates[k]).id@ != id by {
        lemma_none_with_id(templates, id, k);
    }
    assert(!first_with_id(templates, id, i));
}

fn get_reply(t: &PooledTemplate) -> (r: Json)
    ensures
        r@ == get_answer(Some(*t), t.id@),
        ordered(r@),
{
    let mut members: Vec<(String, Json)> = Vec::new();
    push_member(&mut members, "ok", Json::Bool(true));
    let body = template_json(t);
    push_member(&mut members, "template", body);
    proof {
        assert(record_view(members@) =~= seq![
            ("ok"@, JsonView::Bool(true)),
            ("template"@, template_answer(*t)),
        ]);
        lemma_record_of_ordered(record_view(members@));
    }
    record(members)
}

// ── Filling the pool ────────────────────────────────────────────────────────

/// The number of templates that a request wants in the pool. Only booted guests
/// can be asked for, and the request must say so.
pub open spec fn wanted_depth(req: JsonView) -> Result<u64, Seq<char>> {
    match text_of(member(req, "kind"@)) {
        None => Err("missing required field 'kind'"@),
        Some(kind) => if kind == "environment"@ {
            match whole_of(member(req, "target_depth"@)) {
                Some(n) => Ok(n),
                None => Ok(1),
            }
        } else {
            Err("unsupported kind: "@ + kind)
        },
    }
}

/// Only booted guests are asked for, and one where no number is given; what names another
/// kind, or none, is refused.
pub proof fn lemma_what_can_be_refilled(req: JsonView)
    ensures
        wanted_depth(req) is Ok <==> text_of(member(req, "kind"@)) == Some("environment"@),
        wanted_depth(req) matches Ok(n) ==> whole_of(member(req, "target_depth"@)) == Some(n) || (
        whole_of(member(req, "target_depth"@)) is None && n == 1),
{
}

/// The number of templates that a request wants in the pool, 1 where it does not
/// say.
pub fn target_depth(req: &Json) -> (r: Result<u64, String>)
    ensures
        match r {
            Ok(n) => wanted_depth(req@) == Ok::<u64, Seq<char>>(n),
            Err(message) => wanted_depth(req@) == Err::<u64, Seq<char>>(message@),
        },
{
    match req.get_text("kind") {
        None => Err("missing required field 'kind'".to_owned()),
        Some(kind) => {
            if !same(kind.as_str(), "environment") {
                return Err(concat("unsupported kind: ", kind.as_str()));
            }
            match req.get_whole("target_depth") {
                Some(n) => Ok(n),
                None => Ok(1),
            }
        },
    }
}

/// The answer to a request to fill the pool.
pub open spec fn refill_answer(queued: u64, in_flight: u64) -> JsonView {
    record_of(
        seq![
            ("ok"@, JsonView::Bool(true)),
            ("queued"@, JsonView::Number(whole_number(queued))),
            ("in_flight"@, JsonView::Number(whole_number(in_flight))),
        ],
    )
}

/// What was begun and what is in the making are told, each under its own name.
pub proof fn lemma_refill_is_told(queued: u64, in_flight: u64)
    ensures
        ({
            let answer = refill_answer(queued, in_flight);
            &&& member(answer, "ok"@) == Some(JsonView::Bool(true))
            &&& member(answer, "queued"@) == Some(JsonView::Number(whole_number(queued)))
            &&& member(answer, "in_flight"@) == Some(JsonView::Number(whole_number(in_flight)))
        }),
{
    reveal_strlit("ok");
    reveal_strlit("queued");
    reveal_strlit("in_flight");
    assert("ok"@.len() == 2);
    assert("queued"@.len() == 6);
    assert("in_flight"@.len() == 9);
    let members = seq![
        ("ok"@, JsonView::Bool(true)),
        ("queued"@, JsonView::Number(whole_number(queued))),
        ("in_flight"@, JsonView::Number(whole_number(in_flight))),
    ];
    lemma_member_reads_back(members, 0);
    lemma_member_reads_back(members, 1);
    lemma_member_reads_back(members, 2);
}

/// The answer to a request to fill the pool: how many templates were begun, and
/// how many are in the making now.
pub fn refill_reply(queued: u64, in_flight: u64) -> (r: Json)
    ensures
        r@ == refill_answer(queued, in_flight),
        ordered(r@),
{
    let mut members: Vec<(String, Json)> = Vec::new();
    push_member(&mut members, "ok", Json::Bool(true));
    push_member(&mut members, "queued", Json::Number(JsonNumber::from_u64(queued)));
    push_member(&mut members, "in_flight", Json::Number(JsonNumber::from_u64(in_flight)));
    proof {
        assert(record_view(members@) =~= seq![
            ("ok"@, JsonView::Bool(true)),
            ("queued"@, JsonView::Number(whole_number(queued))),
            ("in_flight"@, JsonView::Number(whole_number(in_flight))),
        ]);
        lemma_record_of_ordered(record_view(members@));
    }
    record(members)
}

// ── Removing a template ─────────────────────────────────────────────────────

/// What became of a template that was to be removed.
pub enum Removal {
    Failed(String),
    NotFound,
    /// It is gone, and so many are left.
    Removed(u64),
}

/// What the pool is asked to remove.
pub struct PoolRemoval {
    pub id: String,
    /// The type of snapshot as which it is asked for.
    pub snapshot_type: SnapshotType,
}

/// The template that is to be removed, or what is answered where none is named. The
/// pool is asked for a booted guest.
pub fn template_to_remove(req: &Json) -> (r: Result<PoolRemoval, String>)
    ensures
        match r {
            Ok(removal) => text_of(member(req@, "template_id"@)) == Some(removal.id@)
                && removal.snapshot_type is Environment,
            Err(message) => text_of(member(req@, "template_id"@)) is None && message@
                == "missing required field 'template_id'"@,
        },
{
    match req.get_text("template_id") {
        Some(id) => Ok(
            PoolRemoval { id: id.clone(), snapshot_type: SnapshotType::Environment },
        ),
        None => Err("missing required field 'template_id'".to_owned()),
    }
}

/// The answer to a request to remove a template.
pub open spec fn removal_answer(removal: Removal, id: Seq<char>) -> JsonView {
    match removal {
        Removal::Failed(message) => error_answer(message@),
        Removal::NotFound => error_answer("template "@ + id + " not found in pool"@),
        Removal::Removed(left) => record_of(
            seq![
                ("ok"@, JsonView::Bool(true)),
                ("removed"@, JsonView::Number(whole_number(1))),
                ("remaining"@, JsonView::Number(whole_number(left))),
            ],
        ),
    }
}

/// A removal is told as done exactly where a template is gone, with how many are left.
pub proof fn lemma_removal_is_told(removal: Removal, id: Seq<char>)
    ensures
        ({
            let answer = removal_answer(removal, id);
            &&& member(answer, "ok"@) == Some(JsonView::Bool(removal is Removed))
            &&& removal matches Removal::Removed(left) ==> member(answer, "remaining"@) == Some(
                JsonView::Number(whole_number(left)),
            ) && member(answer, "removed"@) == Some(JsonView::Number(whole_number(1)))
            &&& removal matches Removal::Failed(message) ==> member(answer, "error"@) == Some(
                JsonView::Text(message@),
            )
            &&& removal is NotFound ==> member(answer, "error"@) == Some(
                JsonView::Text("template "@ + id + " not found in pool"@),
            )
        }),
{
    reveal_strlit("ok");
    reveal_strlit("removed");
    reveal_strlit("remaining");
    assert("ok"@.len() == 2);
    assert("removed"@.len() == 7);
    assert("remaining"@.len() == 9);
    match removal {
        Removal::Failed(message) => {
            lemma_failure_is_told(message@);
        },
        Removal::NotFound => {
            lemma_failure_is_told("template "@ + id + " not found in pool"@);
        },
        Removal::Removed(left) => {
            let members = seq![
                ("ok"@, JsonView::Bool(true)),
                ("removed"@, JsonView::Number(whole_number(1))),
                ("remaining"@, JsonView::Number(whole_number(left))),
            ];
            lemma_member_reads_back(members, 0);
            lemma_member_reads_back(members, 1);
            lemma_member_reads_back(members, 2);
        },
    }
}

/// The answer to a request to remove a template.
pub fn removal_reply(removal: &Removal, id: &str) -> (r: Json)
    ensures
        r@ == removal_answer(*removal, id@),
        ordered(r@),
{
    match removal {
        Removal::Failed(message) => error_reply(message.as_str()),
        Removal::NotFound => {
            let text = concat3("template ", id, " not found in pool");
            error_reply(text.as_str())
        },
        Removal::Removed(left) => {
            let mut members: Vec<(String, Json)> = Vec::new();
            push_member(&mut members, "ok", Json::Bool(true));
            push_member(&mut members, "removed", Json::Number(JsonNumber::from_u64(1)));
            push_member(&mut members, "remaining", Json::Number(JsonNumber::from_u64(*left)));
            proof {
                assert(record_view(members@) =~= seq![
                    ("ok"@, JsonView::Bool(true)),
                    ("removed"@, JsonView::Number(whole_number(1))),
                    ("remaining"@, JsonView::Number(whole_number(*left))),
                ]);
                lemma_record_of_ordered(record_view(members@));
            }
            record(members)
        },
    }
}

// ── How the pool is ─────────────────────────────────────────────────────────

/// How the pool is. The two rates are numbers that are passed on.
pub struct PoolStatus {
    pub total: u64,
    pub by_type: Vec<(String, u64)>,
    pub continuation: u64,
    pub keys: u64,
    pub in_flight: u64,
    pub by_key: Vec<(String, u64)>,
    pub active_shared_refs: Vec<(String, u64)>,
    pub in_flight_restores: Vec<(String, u64)>,
    pub gc_blocked: Vec<(String, String)>,
    pub templates_created: u64,
    pub pool_hits: u64,
    pub pool_misses: u64,
    pub hit_rate: JsonNumber,
    pub avg_restore_ms: JsonNumber,
}

/// A list of counts, each with what it counts.
pub open spec fn counts_answer(name: Seq<char>, count: Seq<char>, v: Seq<(String, u64)>) -> JsonView {
    JsonView::List(
        Seq::new(
            v.len(),
            |i: int|
                record_of(
                    seq![
                        (name, JsonView::Text(v[i].0@)),
                        (count, JsonView::Number(whole_number(v[i].1))),
                    ],
                ),
        ),
    )
}

/// A list of templates, each with a reason.
pub open spec fn reasons_answer(v: Seq<(String, String)>) -> JsonView {
    JsonView::List(
        Seq::new(
            v.len(),
            |i: int|
                record_of(
                    seq![
                        ("template_id"@, JsonView::Text(v[i].0@)),
                        ("reason"@, JsonView::Text(v[i].1@)),
                    ],
                ),
        ),
    )
}

fn counts_json(name: &str, count: &str, v: &Vec<(String, u64)>) -> (r: Json)
    ensures
        r@ == counts_answer(name@, count@, v@),
        ordered(r@),
{
    let ghost answers = counts_answer(name@, count@, v@)->List_0;
    let mut items: Vec<Json> = Vec::new();
    let mut i: usize = 0;
    assert(answers.take(0) =~= list_view(items@));
    while i < v.len()
        invariant
            i <= v@.len(),
            answers.len() == v@.len(),
            JsonView::List(answers) == counts_answer(name@, count@, v@),
            list_view(items@) == answers.take(i as int),
            forall|k: int| 0 <= k < i ==> ordered(#[trigger] answers[k]),
        decreases v.len() - i,
    {
        let mut members: Vec<(String, Json)> = Vec::new();
        push_member(&mut members, name, Json::Text(v[i].0.clone()));
        push_member(&mut members, count, Json::Number(JsonNumber::from_u64(v[i].1)));
        proof {
            assert(record_view(members@) =~= seq![
                (name@, JsonView::Text(v@[i as int].0@)),
                (count@, JsonView::Number(whole_number(v@[i as int].1))),
            ]);
            lemma_record_of_ordered(record_view(members@));
        }
        let item = record(members);
        let ghost before = items@;
        items.push(item);
        proof {
            assert(items@.drop_last() =~= before);
            assert(answers[i as int] == item@);
            assert(answers.take(i + 1) =~= answers.take(i as int).push(answers[i as int]));
        }
        i = i + 1;
    }
    assert(answers.take(i as int) =~= answers);
    let r = Json::List(items);
    assert(r@ == JsonView::List(answers));
    r
}

fn reasons_json(v: &Vec<(String, String)>) -> (r: Json)
    ensures
        r@ == reasons_answer(v@),
        ordered(r@),
{
    let ghost answers = reasons_answer(v@)->List_0;
    let mut items: Vec<Json> = Vec::new();
    let mut i: usize = 0;
    assert(answers.take(0) =~= list_view(items@));
    while i < v.len()
        invariant
            i <= v@.len(),
            answers.len() == v@.len(),
            JsonView::List(answers) == reasons_answer(v@),
            list_view(items@) == answers.take(i as int),
            forall|k: int| 0 <= k < i ==> ordered(#[trigger] answers[k]),
        decreases v.len() - i,
    {
        let mut members: Vec<(String, Json)> = Vec::new();
        push_member(&mut members, "template_id", Json::Text(v[i].0.clone()));
        push_member(&mut members, "reason", Json::Text(v[i].1.clone()));
        proof {
            assert(record_view(members@) =~= seq![
                ("template_id"@, JsonView::Text(v@[i as int].0@)),
                ("reason"@, JsonView::Text(v@[i as int].1@)),
            ]);
            lemma_record_of_ordered(record_view(members@));
        }
        let item = record(members);
        let ghost before = items@;
        items.push(item);
        proof {
            assert(items@.drop_last() =~= before);
            assert(answers[i as int] == item@);
            assert(answers.take(i + 1) =~= answers.take(i as int).push(answers[i as int]));
        }
        i = i + 1;
    }
    assert(answers.take(i as int) =~= answers);
    let r = Json::List(items);
    assert(r@ == JsonView::List(answers));
    r
}

/// What is told of the pool, member by member.
pub open spec fn status_members(s: PoolStatus) -> Seq<(Seq<char>, JsonView)> {
    seq![
        ("ok"@, JsonView::Bool(true)),
        ("total"@, JsonView::Number(whole_number(s.total))),
        ("by_type"@, counts_answer("type"@, "count"@, s.by_type@)),
        ("continuation"@, JsonView::Number(whole_number(s.continuation))),
        ("keys"@, JsonView::Number(whole_number(s.keys))),
        ("in_flight"@, JsonView::Number(whole_number(s.in_flight))),
        ("by_key"@, counts_answer("key"@, "depth"@, s.by_key@)),
        (
            "active_shared_refs"@,
            counts_answer("template_id"@, "refs"@, s.active_shared_refs@),
        ),
        (
            "in_flight_restores"@,
            counts_answer("template_id"@, "count"@, s.in_flight_restores@),
        ),
        ("gc_blocked"@, reasons_answer(s.gc_blocked@)),
        ("templates_created"@, JsonView::Number(whole_number(s.templates_created))),
        ("pool_hits"@, JsonView::Number(whole_number(s.pool_hits))),
        ("pool_misses"@, JsonView::Number(whole_number(s.pool_misses))),
        ("hit_rate"@, JsonView::Number(s.hit_rate)),
        ("avg_restore_ms"@, JsonView::Number(s.avg_restore_ms)),
    ]
}

/// Each count is told with what it counts, in order, and nothing else is.
pub proof fn lemma_counts_are_told(
    name: Seq<char>,
    count: Seq<char>,
    v: Seq<(String, u64)>,
    i: int,
)
    requires
        0 <= i < v.len(),
        name != count,
    ensures
        counts_answer(name, count, v) matches JsonView::List(items) && items.len() == v.len()
            && member(items[i], name) == Some(JsonView::Text(v[i].0@)) && member(items[i], count)
            == Some(JsonView::Number(whole_number(v[i].1))),
{
    let members = seq![
        (name, JsonView::Text(v[i].0@)),
        (count, JsonView::Number(whole_number(v[i].1))),
    ];
    lemma_member_reads_back(members, 0);
    lemma_member_reads_back(members, 1);
}

/// Each template that is kept back is told with its own reason, in order.
pub proof fn lemma_reasons_are_told(v: Seq<(String, String)>, i: int)
    requires
        0 <= i < v.len(),
    ensures
        reasons_answer(v) matches JsonView::List(items) && items.len() == v.len() && member(
            items[i],
            "template_id"@,
        ) == Some(JsonView::Text(v[i].0@)) && member(items[i], "reason"@) == Some(
            JsonView::Text(v[i].1@),
        ),
{
    reveal_strlit("template_id");
    reveal_strlit("reason");
    assert("template_id"@.len() == 11);
    assert("reason"@.len() == 6);
    let members = seq![
        ("template_id"@, JsonView::Text(v[i].0@)),
        ("reason"@, JsonView::Text(v[i].1@)),
    ];
    lemma_member_reads_back(members, 0);
    lemma_member_reads_back(members, 1);
}

/// Each figure of the pool is told under its own name.
pub proof fn lemma_status_is_told(s: PoolStatus)
    ensures
        ({
            let told = |name: Seq<char>| member(record_of(status_members(s)), name);
            &&& told("ok"@) == Some(JsonView::Bool(true))
            &&& told("total"@) == Some(JsonView::Number(whole_number(s.total)))
            &&& told("by_type"@) == Some(counts_answer("type"@, "count"@, s.by_type@))
            &&& told("continuation"@) == Some(JsonView::Number(whole_number(s.continuation)))
            &&& told("keys"@) == Some(JsonView::Number(whole_number(s.keys)))
            &&& told("in_flight"@) == Some(JsonView::Number(whole_number(s.in_flight)))
            &&& told("by_key"@) == Some(counts_answer("key"@, "depth"@, s.by_key@))
            &&& told("active_shared_refs"@) == Some(
                counts_answer("template_id"@, "refs"@, s.active_shared_refs@),
            )
            &&& told("in_flight_restores"@) == Some(
                counts_answer("template_id"@, "count"@, s.in_flight_restores@),
            )
            &&& told("gc_blocked"@) == Some(reasons_answer(s.gc_blocked@))
            &&& told("templates_created"@) == Some(
                JsonView::Number(whole_number(s.templates_created)),
            )
            &&& told("pool_hits"@) == Some(JsonView::Number(whole_number(s.pool_hits)))
            &&& told("pool_misses"@) == Some(JsonView::Number(whole_number(s.pool_misses)))
            &&& told("hit_rate"@) == Some(JsonView::Number(s.hit_rate))
            &&& told("avg_restore_ms"@) == Some(JsonView::Number(s.avg_restore_ms))
        }),
{
    reveal_strlit("ok");
    reveal_strlit("total");
    reveal_strlit("by_type");
    reveal_strlit("continuation");
    reveal_strlit("keys");
    reveal_strlit("in_flight");
    reveal_strlit("by_key");
    reveal_strlit("active_shared_refs");
    reveal_strlit("in_flight_restores");
    reveal_strlit("gc_blocked");
    reveal_strlit("templates_created");
    reveal_strlit("pool_hits");
    reveal_strlit("pool_misses");
    reveal_strlit("hit_rate");
    reveal_strlit("avg_restore_ms");
    assert("ok"@.len() == 2);
    assert("total"@.len() == 5);
    assert("by_type"@.len() == 7);
    assert("continuation"@.len() == 12);
    assert("keys"@.len() == 4);
    assert("in_flight"@.len() == 9);
    assert("by_key"@.len() == 6);
    assert("active_shared_refs"@.len() == 18);
    assert("in_flight_restores"@.len() == 18);
    assert("gc_blocked"@.len() == 10);
    assert("templates_created"@.len() == 17);
    assert("pool_hits"@.len() == 9);
    assert("pool_misses"@.len() == 11);
    assert("hit_rate"@.len() == 8);
    assert("avg_restore_ms"@.len() == 14);
    assert("in_flight"@[0] == 'i' && "pool_hits"@[0] == 'p');
    assert("active_shared_refs"@[0] == 'a' && "in_flight_restores"@[0] == 'i');
    let members = status_members(s);
    lemma_member_reads_back(members, 0);
    lemma_member_reads_back(members, 1);
    lemma_member_reads_back(members, 2);
    lemma_member_reads_back(members, 3);
    lemma_member_reads_back(members, 4);
    lemma_member_reads_back(members, 5);
    lemma_member_reads_back(members, 6);
    lemma_member_reads_back(members, 7);
    lemma_member_reads_back(members, 8);
    lemma_member_reads_back(members, 9);
    lemma_member_reads_back(members, 10);
    lemma_member_reads_back(members, 11);
    lemma_member_reads_back(members, 12);
    lemma_member_reads_back(members, 13);
    lemma_member_reads_back(members, 14);
}

/// The answer to the request for the state of the pool.
pub fn status_reply(s: PoolStatus) -> (r: Json)
    ensures
        r@ == record_of(status_members(s)),
        ordered(r@),
{
    let mut m: Vec<(String, Json)> = Vec::new();
    push_member(&mut m, "ok", Json::Bool(true));
    push_member(&mut m, "total", Json::Number(JsonNumber::from_u64(s.total)));
    push_member(&mut m, "by_type", counts_json("type", "count", &s.by_type));
    push_member(&mut m, "continuation", Json::Number(JsonNumber::from_u64(s.continuation)));
    push_member(&mut m, "keys", Json::Number(JsonNumber::from_u64(s.keys)));
    push_member(&mut m, "in_flight", Json::Number(JsonNumber::from_u64(s.in_flight)));
    push_member(&mut m, "by_key", counts_json("key", "depth", &s.by_key));
    push_member(
        &mut m,
        "active_shared_refs",
        counts_json("template_id", "refs", &s.active_shared_refs),
    );
    push_member(
        &mut m,
        "in_flight_restores",
        counts_json("template_id", "count", &s.in_flight_restores),
    );
    push_member(&mut m, "gc_blocked", reasons_json(&s.gc_blocked));
    push_member(
        &mut m,
        "templates_created",
        Json::Number(JsonNumber::from_u64(s.templates_created)),
    );
    push_member(&mut m, "pool_hits", Json::Number(JsonNumber::from_u64(s.pool_hits)));
    push_member(&mut m, "pool_misses", Json::Number(JsonNumber::from_u64(s.pool_misses)));
    push_member(&mut m, "hit_rate", Json::Number(s.hit_rate));
    push_member(&mut m, "avg_restore_ms", Json::Number(s.avg_restore_ms));
    proof {
        assert(record_view(m@) =~= status_members(s));
        lemma_record_of_ordered(record_view(m@));
    }
    record(m)
}

} // verus!
