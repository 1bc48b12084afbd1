//! The store of snapshots. A snapshot is found under an id that is made from its
//! contents, and under the keys that were given to it:
//!
//! ```text
//! <root>/
//!   <snapshot-id>/
//!     memory.bin          the memory of the guest
//!     snapshot.json       the state of its devices
//!     metadata.json       what is known of the snapshot
//!     checksums.json      the digests of memory.bin and snapshot.json
//!   keys/
//!     <snapshot-key>      a file that holds a snapshot id
//! ```

use crate::json::{
    entry, last_value, lemma_last_value_push, lemma_record_of_ordered, lemma_record_of_plain,
    lemma_record_of_reads_back, member, members_plain, ordered, parsed, plain, push_member, record,
    record_of, record_view, text_of, to_pretty, whole_number, whole_of, Json, JsonNumber, JsonView,
};
use crate::snapshot::error::{SnapshotError, SnapshotErrorView};
use crate::text::{
    concat, is_space, join_path, lemma_path_join, path_join, same, texts, trim, trimmed,
    trimmed_end, trimmed_start,
};
use vstd::prelude::*;
use vstd::utf8::encode_utf8;

verus! {

/// Where snapshots are kept unless something else is said.
pub const DEFAULT_SNAPSHOT_ROOT: &'static str = "/var/lib/kuasar/snapshots";

/// The memory of the guest.
pub const MEMORY_FILE: &'static str = "memory.bin";

/// The state of the devices of the guest.
pub const STATE_FILE: &'static str = "snapshot.json";

/// What is known of a snapshot.
pub const METADATA_FILE: &'static str = "metadata.json";

/// The digests of the files of a snapshot.
pub const CHECKSUM_FILE: &'static str = "checksums.json";

// ── Digests ─────────────────────────────────────────────────────────────────

/// The SHA-256 digest that `sha2` computes, in hexadecimal digits.
pub uninterp spec fn sha256_text(data: Seq<u8>) -> Seq<char>;

/// Whether a character is a lower-case hexadecimal digit.
pub open spec fn is_hex(c: char) -> bool {
    ('0' <= c && c <= '9') || ('a' <= c && c <= 'f')
}

/// Whether a string is made of lower-case hexadecimal digits.
pub open spec fn all_hex(s: Seq<char>) -> bool {
    forall|i: int| 0 <= i < s.len() ==> is_hex(#[trigger] s[i])
}

/// `sha2::Sha256::digest`, written with `LowerHex`: the digest of the bytes, 32
/// bytes of two lower-case hexadecimal digits each.
#[verifier::external_body]
fn sha256_hex(data: &[u8]) -> (r: String)
    ensures
        r@ == sha256_text(data@),
        r@.len() == 64,
        all_hex(r@),
{
    format!("{:x}", <sha2::Sha256 as sha2::Digest>::digest(data))
}

/// The digest of the contents of a file.
pub fn sha256_file(data: &Vec<u8>) -> (r: String)
    ensures
        r@ == sha256_text(data@),
        r@.len() == 64,
        all_hex(r@),
{
    sha256_hex(data.as_slice())
}

// ── Ids and keys ────────────────────────────────────────────────────────────

/// The id of a snapshot, which is made from its contents.
#[derive(Debug)]
pub struct SnapshotId(pub String);

impl SnapshotId {
    /// The id as a string.
    pub fn as_str(&self) -> (r: &str)
        ensures
            r@ == self.0@,
    {
        self.0.as_str()
    }

    /// The id as a string of its own.
    pub fn to_string(&self) -> (r: String)
        ensures
            r@ == self.0@,
    {
        self.0.clone()
    }
}

/// A key that was given to a snapshot. Several may lead to one snapshot.
#[derive(Debug)]
pub struct SnapshotKey(pub String);

impl SnapshotKey {
    /// The key that a string says.
    pub fn new(s: &str) -> (r: Self)
        ensures
            r.0@ == s@,
    {
        SnapshotKey(s.to_owned())
    }

    /// The key as a string.
    pub fn as_str(&self) -> (r: &str)
        ensures
            r@ == self.0@,
    {
        self.0.as_str()
    }

    /// The key as a string of its own.
    pub fn to_string(&self) -> (r: String)
        ensures
            r@ == self.0@,
    {
        self.0.clone()
    }
}

/// The id of the snapshot with the given digests: the digest of their text, one
/// behind the other.
pub open spec fn id_of_digests(memory: Seq<char>, state: Seq<char>) -> Seq<char> {
    sha256_text(encode_utf8(memory + state))
}

/// The id of the snapshot with the given contents.
pub open spec fn content_id(memory: Seq<u8>, state: Seq<u8>) -> Seq<char> {
    id_of_digests(sha256_text(memory), sha256_text(state))
}

/// The id of the snapshot with the given digests.
pub fn combine_digests(memory: &str, state: &str) -> (r: SnapshotId)
    ensures
        r.0@ == id_of_digests(memory@, state@),
        r.0@.len() == 64,
        all_hex(r.0@),
{
    let combined = concat(memory, state);
    SnapshotId(sha256_hex(combined.as_str().as_bytes()))
}

// ── What is known of a snapshot ─────────────────────────────────────────────

/// The nanoseconds of a second.
pub const NANOS_PER_SEC: u32 = 1_000_000_000;

/// The latest second that a time of the system can hold.
pub const LAST_SECOND: u64 = 0x7fff_ffff_ffff_ffff;

/// A time, as seconds and nanoseconds since the beginning of 1970.
pub struct CreatedAt {
    secs: u64,
    nanos: u32,
}

/// The time that seconds and nanoseconds make, where there is one: nanoseconds may
/// be more than a second.
pub open spec fn time_of(secs: u64, nanos: u64) -> Option<(u64, u32)> {
    let total = secs + nanos / 1_000_000_000u64;
    if nanos <= u32::MAX && total <= LAST_SECOND {
        Some((total as u64, (nanos % 1_000_000_000u64) as u32))
    } else {
        None
    }
}

impl CreatedAt {
    #[verifier::type_invariant]
    closed spec fn inv(self) -> bool {
        self.nanos < NANOS_PER_SEC && self.secs <= LAST_SECOND
    }

    /// The time as seconds and nanoseconds.
    pub closed spec fn view(&self) -> (u64, u32) {
        (self.secs, self.nanos)
    }

    /// A time.
    pub fn new(secs: u64, nanos: u64) -> (r: Option<CreatedAt>)
        ensures
            match r {
                Some(t) => time_of(secs, nanos) == Some(t@),
                None => time_of(secs, nanos) is None,
            },
    {
        if nanos > u32::MAX as u64 {
            return None;
        }
        let carry: u64 = nanos / 1_000_000_000;
        if secs > LAST_SECOND - carry {
            return None;
        }
        Some(CreatedAt { secs: secs + carry, nanos: (nanos % 1_000_000_000) as u32 })
    }

    /// The seconds.
    pub fn secs(&self) -> (r: u64)
        ensures
            r == self@.0,
            time_of(self@.0, self@.1 as u64) == Some(self@),
    {
        proof {
            use_type_invariant(self);
        }
        self.secs
    }

    /// The same time again.
    pub fn copy(&self) -> (r: CreatedAt)
        ensures
            r@ == self@,
    {
        proof {
            use_type_invariant(self);
        }
        CreatedAt { secs: self.secs, nanos: self.nanos }
    }

    /// The nanoseconds of the last second.
    pub fn nanos(&self) -> (r: u32)
        ensures
            r == self@.1,
    {
        self.nanos
    }
}

/// What is known of a snapshot.
pub struct SnapshotMetadata {
    pub id: SnapshotId,
    pub key: SnapshotKey,
    pub hypervisor: String,
    pub created_at: CreatedAt,
    pub memory_size_bytes: u64,
    pub state_size_bytes: u64,
}

/// What is known of a snapshot.
pub struct MetadataView {
    pub id: Seq<char>,
    pub key: Seq<char>,
    pub hypervisor: Seq<char>,
    pub created_at: (u64, u32),
    pub memory_size_bytes: u64,
    pub state_size_bytes: u64,
}

impl View for SnapshotMetadata {
    type V = MetadataView;

    open spec fn view(&self) -> MetadataView {
        MetadataView {
            id: self.id.0@,
            key: self.key.0@,
            hypervisor: self.hypervisor@,
            created_at: self.created_at@,
            memory_size_bytes: self.memory_size_bytes,
            state_size_bytes: self.state_size_bytes,
        }
    }
}

/// The time that a record says.
pub open spec fn time_in(j: Option<JsonView>) -> Option<(u64, u32)> {
    match j {
        Some(t) => match (
            whole_of(entry(t, "secs_since_epoch"@, 0, 2)),
            whole_of(entry(t, "nanos_since_epoch"@, 1, 2)),
        ) {
            (Some(secs), Some(nanos)) => time_of(secs, nanos),
            _ => None,
        },
        None => None,
    }
}

/// What the record of a `metadata.json` says, where it is one.
pub open spec fn metadata_of(j: JsonView) -> Option<MetadataView> {
    match (
        text_of(entry(j, "id"@, 0, 6)),
        text_of(entry(j, "key"@, 1, 6)),
        text_of(entry(j, "hypervisor"@, 2, 6)),
        time_in(entry(j, "created_at"@, 3, 6)),
        whole_of(entry(j, "memory_size_bytes"@, 4, 6)),
        whole_of(entry(j, "state_size_bytes"@, 5, 6)),
    ) {
        (Some(id), Some(key), Some(hypervisor), Some(created_at), Some(memory), Some(state)) => {
            Some(
                MetadataView {
                    id,
                    key,
                    hypervisor,
                    created_at,
                    memory_size_bytes: memory,
                    state_size_bytes: state,
                },
            )
        },
        _ => None,
    }
}

spec fn time_members(t: (u64, u32)) -> Seq<(Seq<char>, JsonView)> {
    seq![
        ("secs_since_epoch"@, JsonView::Number(whole_number(t.0))),
        ("nanos_since_epoch"@, JsonView::Number(whole_number(t.1 as u64))),
    ]
}

spec fn metadata_members(m: MetadataView) -> Seq<(Seq<char>, JsonView)> {
    seq![
        ("id"@, JsonView::Text(m.id)),
        ("key"@, JsonView::Text(m.key)),
        ("hypervisor"@, JsonView::Text(m.hypervisor)),
        ("created_at"@, record_of(time_members(m.created_at))),
        ("memory_size_bytes"@, JsonView::Number(whole_number(m.memory_size_bytes))),
        ("state_size_bytes"@, JsonView::Number(whole_number(m.state_size_bytes))),
    ]
}

impl SnapshotMetadata {
    /// The text of a `metadata.json`. Reading it gives the metadata back.
    pub fn save(&self) -> (r: String)
        ensures
            parsed(r@) matches Some(j) && metadata_of(j) == Some(self@),
    {
        let secs: u64 = self.created_at.secs();
        let nanos: u32 = self.created_at.nanos();
        let secs_number = JsonNumber::from_u64(secs);
        let nanos_number = JsonNumber::from_u64(nanos as u64);
        let memory_number = JsonNumber::from_u64(self.memory_size_bytes);
        let state_number = JsonNumber::from_u64(self.state_size_bytes);
        let ghost t = (secs, nanos);
        let mut time: Vec<(String, Json)> = Vec::new();
        push_member(&mut time, "secs_since_epoch", Json::Number(secs_number));
        push_member(&mut time, "nanos_since_epoch", Json::Number(nanos_number));
        proof {
            assert(record_view(time@) =~= time_members(t));
            lemma_record_of_ordered(time_members(t));
        }
        let time_json = record(time);
        let mut members: Vec<(String, Json)> = Vec::new();
        push_member(&mut members, "id", Json::Text(self.id.to_string()));
        push_member(&mut members, "key", Json::Text(self.key.to_string()));
        push_member(&mut members, "hypervisor", Json::Text(self.hypervisor.clone()));
        push_member(&mut members, "created_at", time_json);
        push_member(&mut members, "memory_size_bytes", Json::Number(memory_number));
        push_member(&mut members, "state_size_bytes", Json::Number(state_number));
        let ghost all = metadata_members(self@);
        proof {
            assert(record_view(members@) =~= all);
            lemma_record_of_ordered(all);
            lemma_metadata_reads_back(self@, secs_number, nanos_number, memory_number, state_number);
        }
        let json = record(members);
        to_pretty(&json)
    }

    /// Reads the value that a `metadata.json` holds.
    pub fn load(j: &Json) -> (r: Option<SnapshotMetadata>)
        ensures
            match r {
                Some(meta) => metadata_of(j@) == Some(meta@),
                None => metadata_of(j@) is None,
            },
    {
        let created_at = match j.entry("created_at", 3, 6) {
            Some(t) => match (
                t.whole_entry("secs_since_epoch", 0, 2),
                t.whole_entry("nanos_since_epoch", 1, 2),
            ) {
                (Some(secs), Some(nanos)) => match CreatedAt::new(secs, nanos) {
                    Some(time) => time,
                    None => {
                        return None;
                    },
                },
                _ => {
                    return None;
                },
            },
            None => {
                return None;
            },
        };
        match (
            j.text_entry("id", 0, 6),
            j.text_entry("key", 1, 6),
            j.text_entry("hypervisor", 2, 6),
            j.whole_entry("memory_size_bytes", 4, 6),
            j.whole_entry("state_size_bytes", 5, 6),
        ) {
            (Some(id), Some(key), Some(hypervisor), Some(memory), Some(state)) => Some(
                SnapshotMetadata {
                    id: SnapshotId(id.clone()),
                    key: SnapshotKey(key.clone()),
                    hypervisor: hypervisor.clone(),
                    created_at,
                    memory_size_bytes: memory,
                    state_size_bytes: state,
                },
            ),
            _ => None,
        }
    }
}

impl SnapshotMetadata {
    /// The same metadata again.
    pub fn copy(&self) -> (r: SnapshotMetadata)
        ensures
            r@ == self@,
    {
        SnapshotMetadata {
            id: SnapshotId(self.id.to_string()),
            key: SnapshotKey(self.key.to_string()),
            hypervisor: self.hypervisor.clone(),
            created_at: self.created_at.copy(),
            memory_size_bytes: self.memory_size_bytes,
            state_size_bytes: self.state_size_bytes,
        }
    }
}

proof fn lemma_two(a: (Seq<char>, JsonView), b: (Seq<char>, JsonView), key: Seq<char>)
    ensures
        last_value(seq![a, b], key) == (if b.0 == key {
            Some(b.1)
        } else if a.0 == key {
            Some(a.1)
        } else {
            None
        }),
{
    let none = Seq::<(Seq<char>, JsonView)>::empty();
    lemma_last_value_push(none, a.0, a.1, key);
    lemma_last_value_push(none.push(a), b.0, b.1, key);
    assert(none.push(a).push(b) =~= seq![a, b]);
}

proof fn lemma_six(m: Seq<(Seq<char>, JsonView)>, key: Seq<char>)
    requires
        m.len() == 6,
    ensures
        last_value(m, key) == (if m[5].0 == key {
            Some(m[5].1)
        } else if m[4].0 == key {
            Some(m[4].1)
        } else if m[3].0 == key {
            Some(m[3].1)
        } else if m[2].0 == key {
            Some(m[2].1)
        } else if m[1].0 == key {
            Some(m[1].1)
        } else if m[0].0 == key {
            Some(m[0].1)
        } else {
            None
        }),
{
    reveal_with_fuel(last_value, 7);
    assert(m.drop_last().len() == 5);
    assert(m.drop_last().last() == m[4]);
    assert(m.drop_last().drop_last().last() == m[3]);
    assert(m.drop_last().drop_last().drop_last().last() == m[2]);
    assert(m.drop_last().drop_last().drop_last().drop_last().last() == m[1]);
    assert(m.drop_last().drop_last().drop_last().drop_last().drop_last().last() == m[0]);
    assert(m.drop_last().drop_last().drop_last().drop_last().drop_last().drop_last().len() == 0);
}

proof fn lemma_metadata_reads_back(
    m: MetadataView,
    secs: JsonNumber,
    nanos: JsonNumber,
    memory: JsonNumber,
    state: JsonNumber,
)
    requires
        time_of(m.created_at.0, m.created_at.1 as u64) == Some(m.created_at),
        secs == whole_number(m.created_at.0),
        secs.value() == Some(m.created_at.0),
        nanos == whole_number(m.created_at.1 as u64),
        nanos.value() == Some(m.created_at.1 as u64),
        memory == whole_number(m.memory_size_bytes),
        memory.value() == Some(m.memory_size_bytes),
        state == whole_number(m.state_size_bytes),
        state.value() == Some(m.state_size_bytes),
        ordered(record_of(time_members(m.created_at))),
    ensures
        metadata_of(record_of(metadata_members(m))) == Some(m),
        plain(record_of(metadata_members(m)), 100),
{
    reveal_strlit("secs_since_epoch");
    reveal_strlit("nanos_since_epoch");
    reveal_strlit("id");
    reveal_strlit("key");
    reveal_strlit("hypervisor");
    reveal_strlit("created_at");
    reveal_strlit("memory_size_bytes");
    reveal_strlit("state_size_bytes");
    let time = time_members(m.created_at);
    let all = metadata_members(m);
    let t = record_of(time);
    assert("secs_since_epoch"@[0] == 's' && "nanos_since_epoch"@[0] == 'n');
    assert("id"@.len() == 2 && "key"@.len() == 3);
    assert("hypervisor"@[0] == 'h' && "created_at"@[0] == 'c');
    assert("hypervisor"@.len() == 10 && "created_at"@.len() == 10);
    assert("memory_size_bytes"@.len() == 17 && "state_size_bytes"@.len() == 16);
    lemma_two(time[0], time[1], "secs_since_epoch"@);
    lemma_two(time[0], time[1], "nanos_since_epoch"@);
    assert(time =~= seq![time[0], time[1]]);
    lemma_record_of_reads_back(time, "secs_since_epoch"@);
    lemma_record_of_reads_back(time, "nanos_since_epoch"@);
    assert(member(t, "secs_since_epoch"@) == Some(JsonView::Number(secs)));
    assert(member(t, "nanos_since_epoch"@) == Some(JsonView::Number(nanos)));
    assert(time_in(Some(t)) == Some(m.created_at));
    lemma_six(all, "id"@);
    lemma_six(all, "key"@);
    lemma_six(all, "hypervisor"@);
    lemma_six(all, "created_at"@);
    lemma_six(all, "memory_size_bytes"@);
    lemma_six(all, "state_size_bytes"@);
    lemma_record_of_reads_back(all, "id"@);
    lemma_record_of_reads_back(all, "key"@);
    lemma_record_of_reads_back(all, "hypervisor"@);
    lemma_record_of_reads_back(all, "created_at"@);
    lemma_record_of_reads_back(all, "memory_size_bytes"@);
    lemma_record_of_reads_back(all, "state_size_bytes"@);
    let record = record_of(all);
    assert(text_of(member(record, "id"@)) == Some(m.id));
    assert(text_of(member(record, "key"@)) == Some(m.key));
    assert(text_of(member(record, "hypervisor"@)) == Some(m.hypervisor));
    assert(time_in(member(record, "created_at"@)) == Some(m.created_at));
    assert(whole_of(member(record, "memory_size_bytes"@)) == Some(m.memory_size_bytes));
    assert(whole_of(member(record, "state_size_bytes"@)) == Some(m.state_size_bytes));
    assert(members_plain(time, 98)) by {
        assert forall|i: int| 0 <= i < time.len() implies ordered((#[trigger] time[i]).1) && plain(
            time[i].1,
            98,
        ) by {}
    }
    assert(plain(t, 99)) by {
        lemma_record_of_plain(time, 98);
    }
    assert(members_plain(all, 99)) by {
        assert forall|i: int| 0 <= i < all.len() implies ordered((#[trigger] all[i]).1) && plain(
            all[i].1,
            99,
        ) by {}
    }
    lemma_record_of_plain(all, 99);
}

// ── Digests of the files ────────────────────────────────────────────────────

/// The digests of the files of a snapshot.
pub struct SnapshotChecksums {
    pub memory_sha256: String,
    pub state_sha256: String,
}

/// What the record of a `checksums.json` says, where it is one.
pub open spec fn checksums_of(j: JsonView) -> Option<(Seq<char>, Seq<char>)> {
    match (
        text_of(entry(j, "memory_sha256"@, 0, 2)),
        text_of(entry(j, "state_sha256"@, 1, 2)),
    ) {
        (Some(memory), Some(state)) => Some((memory, state)),
        _ => None,
    }
}

impl SnapshotChecksums {
    /// What the digests are.
    pub open spec fn says(self) -> (Seq<char>, Seq<char>) {
        (self.memory_sha256@, self.state_sha256@)
    }

    /// The text of a `checksums.json`. Reading it gives the digests back.
    pub fn save(&self) -> (r: String)
        ensures
            parsed(r@) matches Some(j) && checksums_of(j) == Some(self.says()),
    {
        let mut members: Vec<(String, Json)> = Vec::new();
        push_member(&mut members, "memory_sha256", Json::Text(self.memory_sha256.clone()));
        push_member(&mut members, "state_sha256", Json::Text(self.state_sha256.clone()));
        proof {
            reveal_strlit("memory_sha256");
            reveal_strlit("state_sha256");
            let a = ("memory_sha256"@, JsonView::Text(self.memory_sha256@));
            let b = ("state_sha256"@, JsonView::Text(self.state_sha256@));
            let all = seq![a, b];
            assert("memory_sha256"@.len() == 13 && "state_sha256"@.len() == 12);
            assert(record_view(members@) =~= all);
            lemma_two(a, b, a.0);
            lemma_two(a, b, b.0);
            lemma_record_of_reads_back(all, a.0);
            lemma_record_of_reads_back(all, b.0);
            assert(members_plain(all, 99)) by {
                assert forall|i: int| 0 <= i < all.len() implies ordered((#[trigger] all[i]).1)
                    && plain(all[i].1, 99) by {}
            }
            lemma_record_of_plain(all, 99);
            assert(checksums_of(record_of(all)) == Some(self.says()));
        }
        let json = record(members);
        to_pretty(&json)
    }

    /// Reads the value that a `checksums.json` holds.
    pub fn load(j: &Json) -> (r: Option<SnapshotChecksums>)
        ensures
            match r {
                Some(c) => checksums_of(j@) == Some(c.says()),
                None => checksums_of(j@) is None,
            },
    {
        match (j.text_entry("memory_sha256", 0, 2), j.text_entry("state_sha256", 1, 2)) {
            (Some(memory), Some(state)) => Some(
                SnapshotChecksums { memory_sha256: memory.clone(), state_sha256: state.clone() },
            ),
            _ => None,
        }
    }

    /// Whether the digests are those of the files. The memory is looked at first.
    pub fn check(&self, memory_actual: &str, state_actual: &str) -> (r: Result<(), SnapshotError>)
        ensures
            match r {
                Ok(()) => self.says() == (memory_actual@, state_actual@),
                Err(e) => e@ == (if self.memory_sha256@ != memory_actual@ {
                    SnapshotErrorView::IntegrityFailed {
                        expected: self.memory_sha256@,
                        actual: memory_actual@,
                    }
                } else {
                    SnapshotErrorView::IntegrityFailed {
                        expected: self.state_sha256@,
                        actual: state_actual@,
                    }
                }) && self.says() != (memory_actual@, state_actual@),
            },
    {
        if !same(memory_actual, self.memory_sha256.as_str()) {
            return Err(
                SnapshotError::IntegrityFailed {
                    expected: self.memory_sha256.clone(),
                    actual: memory_actual.to_owned(),
                },
            );
        }
        if !same(state_actual, self.state_sha256.as_str()) {
            return Err(
                SnapshotError::IntegrityFailed {
                    expected: self.state_sha256.clone(),
                    actual: state_actual.to_owned(),
                },
            );
        }
        Ok(())
    }
}

// ── Reading a snapshot ──────────────────────────────────────────────────────

/// What a file holds.
pub enum Stored<T> {
    /// There is no such file.
    Missing,
    /// It does not say what it should; what is said of it.
    Unreadable(String),
    There(T),
}

/// What was found of a snapshot: what two of its files say, and the contents of the
/// others or why they could not be read.
pub struct StoredFiles {
    pub checksums: Stored<SnapshotChecksums>,
    pub memory: Result<Vec<u8>, String>,
    pub state: Result<Vec<u8>, String>,
    pub metadata: Stored<SnapshotMetadata>,
}

/// Why the files of a snapshot are not what they were, if they are not. A snapshot
/// without digests is none.
pub open spec fn integrity_fault(id: Seq<char>, files: StoredFiles) -> Option<SnapshotErrorView> {
    match files.checksums {
        Stored::Missing => Some(SnapshotErrorView::NotFound(id)),
        Stored::Unreadable(said) => Some(SnapshotErrorView::Serialization(said@)),
        Stored::There(expected) => {
            let (memory_sha256, state_sha256) = expected.says();
            match files.memory {
                Err(e) => Some(SnapshotErrorView::Io(e@)),
                Ok(memory) => if sha256_text(memory@) != memory_sha256 {
                    Some(
                        SnapshotErrorView::IntegrityFailed {
                            expected: memory_sha256,
                            actual: sha256_text(memory@),
                        },
                    )
                } else {
                    match files.state {
                        Err(e) => Some(SnapshotErrorView::Io(e@)),
                        Ok(state) => if sha256_text(state@) != state_sha256 {
                            Some(
                                SnapshotErrorView::IntegrityFailed {
                                    expected: state_sha256,
                                    actual: sha256_text(state@),
                                },
                            )
                        } else {
                            None
                        },
                    }
                },
            }
        },
    }
}

/// What is found of a snapshot.
pub open spec fn stored(id: Seq<char>, files: StoredFiles) -> Result<
    MetadataView,
    SnapshotErrorView,
> {
    match integrity_fault(id, files) {
        Some(e) => Err(e),
        None => match files.metadata {
            Stored::Missing => Err(SnapshotErrorView::NotFound(id)),
            Stored::Unreadable(said) => Err(SnapshotErrorView::Serialization(said@)),
            Stored::There(meta) => Ok(meta@),
        },
    }
}

// ── Keeping a snapshot ──────────────────────────────────────────────────────

/// What is written when a snapshot is kept, beside its own two files.
pub struct Commit {
    /// The text of the `checksums.json`.
    pub checksums: String,
    /// The text of the `metadata.json`.
    pub metadata: String,
    /// The file that leads from the key to the snapshot.
    pub key_file: String,
    /// What that file holds.
    pub key_content: String,
    /// What is known of the snapshot.
    pub meta: SnapshotMetadata,
}

/// Whether the files of a commit say the digests and what is known of the snapshot.
pub open spec fn writes(c: Commit, memory_sha256: Seq<char>, state_sha256: Seq<char>) -> bool {
    &&& parsed(c.checksums@) matches Some(j) && checksums_of(j) == Some(
        (memory_sha256, state_sha256),
    )
    &&& parsed(c.metadata@) matches Some(j) && metadata_of(j) == Some(c.meta@)
}

/// Where the files of a snapshot are taken from.
pub enum Import {
    /// There is a snapshot with the same contents: the new files are dropped.
    Reuse,
    /// The new files become those of the snapshot.
    Rename(String),
}

/// The store of snapshots.
#[derive(Debug)]
pub struct SnapshotStore {
    root: String,
}

impl SnapshotStore {
    /// The directory of the store.
    pub closed spec fn root_text(&self) -> Seq<char> {
        self.root@
    }

    /// The directory of a snapshot.
    pub open spec fn dir_of(&self, id: Seq<char>) -> Seq<char> {
        path_join(self.root_text(), id)
    }

    /// The directory of the keys.
    pub open spec fn keys_text(&self) -> Seq<char> {
        path_join(self.root_text(), "keys"@)
    }

    /// A store in a directory.
    pub fn new(root: &str) -> (r: Self)
        ensures
            r.root_text() == root@,
    {
        SnapshotStore { root: root.to_owned() }
    }

    /// The store in the usual directory.
    pub fn default_store() -> (r: Self)
        ensures
            r.root_text() == DEFAULT_SNAPSHOT_ROOT@,
    {
        Self::new(DEFAULT_SNAPSHOT_ROOT)
    }

    /// The directory of the store.
    pub fn root(&self) -> (r: &str)
        ensures
            r@ == self.root_text(),
    {
        self.root.as_str()
    }

    /// The directory of a snapshot.
    pub fn snapshot_dir(&self, id: &SnapshotId) -> (r: String)
        ensures
            r@ == self.dir_of(id.0@),
    {
        join_path(self.root.as_str(), id.as_str())
    }

    /// The directory of the keys.
    pub fn keys_dir(&self) -> (r: String)
        ensures
            r@ == self.keys_text(),
    {
        join_path(self.root.as_str(), "keys")
    }

    /// The file that leads from a key to a snapshot.
    pub fn key_file(&self, key: &SnapshotKey) -> (r: String)
        ensures
            r@ == path_join(self.keys_text(), key.0@),
    {
        let keys = self.keys_dir();
        join_path(keys.as_str(), key.as_str())
    }

    /// The memory of a snapshot.
    pub fn memory_path(&self, id: &SnapshotId) -> (r: String)
        ensures
            r@ == path_join(self.dir_of(id.0@), MEMORY_FILE@),
    {
        let dir = self.snapshot_dir(id);
        join_path(dir.as_str(), MEMORY_FILE)
    }

    /// The device state of a snapshot.
    pub fn state_path(&self, id: &SnapshotId) -> (r: String)
        ensures
            r@ == path_join(self.dir_of(id.0@), STATE_FILE@),
    {
        let dir = self.snapshot_dir(id);
        join_path(dir.as_str(), STATE_FILE)
    }

    /// The address that the hypervisor writes a snapshot to.
    pub fn destination_url(&self, id: &SnapshotId) -> (r: String)
        ensures
            r@ == "file://"@ + self.dir_of(id.0@),
    {
        let dir = self.snapshot_dir(id);
        concat("file://", dir.as_str())
    }

    /// The address that the hypervisor restores a snapshot from.
    pub fn source_url(&self, id: &SnapshotId) -> (r: String)
        ensures
            r@ == "file://"@ + self.dir_of(id.0@),
    {
        let dir = self.snapshot_dir(id);
        concat("file://", dir.as_str())
    }

    /// The snapshot that a key leads to, from what its file holds.
    pub fn resolve_key(&self, key: &SnapshotKey, content: Option<&str>) -> (r: Result<
        SnapshotId,
        SnapshotError,
    >)
        ensures
            match (r, content) {
                (Ok(id), Some(text)) => id.0@ == trimmed(text@),
                (Err(e), None) => e@ == SnapshotErrorView::NotFound(key.0@),
                _ => false,
            },
    {
        match content {
            Some(text) => Ok(SnapshotId(trim(text))),
            None => Err(SnapshotError::NotFound(key.to_string())),
        }
    }

    /// Whether the files of a snapshot are what they were when it was kept.
    pub fn verify_integrity(&self, id: &SnapshotId, files: &StoredFiles) -> (r: Result<
        (),
        SnapshotError,
    >)
        ensures
            match r {
                Ok(()) => integrity_fault(id.0@, *files) is None,
                Err(e) => integrity_fault(id.0@, *files) == Some(e@),
            },
    {
        let expected = match &files.checksums {
            Stored::There(c) => c,
            Stored::Missing => {
                return Err(SnapshotError::NotFound(id.to_string()));
            },
            Stored::Unreadable(said) => {
                return Err(SnapshotError::Serialization(said.clone()));
            },
        };
        let memory = match &files.memory {
            Ok(data) => data,
            Err(e) => {
                return Err(SnapshotError::Io(e.clone()));
            },
        };
        let memory_actual = sha256_file(memory);
        if !same(memory_actual.as_str(), expected.memory_sha256.as_str()) {
            return Err(
                SnapshotError::IntegrityFailed {
                    expected: expected.memory_sha256.clone(),
                    actual: memory_actual,
                },
            );
        }
        let state = match &files.state {
            Ok(data) => data,
            Err(e) => {
                return Err(SnapshotError::Io(e.clone()));
            },
        };
        let state_actual = sha256_file(state);
        expected.check(memory_actual.as_str(), state_actual.as_str())
    }

    /// What is known of a snapshot whose files are what they were.
    pub fn get(&self, id: &SnapshotId, files: &StoredFiles) -> (r: Result<
        SnapshotMetadata,
        SnapshotError,
    >)
        ensures
            match r {
                Ok(meta) => stored(id.0@, *files) == Ok::<MetadataView, SnapshotErrorView>(meta@),
                Err(e) => stored(id.0@, *files) == Err::<MetadataView, SnapshotErrorView>(e@),
            },
    {
        match self.verify_integrity(id, files) {
            Ok(()) => {},
            Err(e) => {
                return Err(e);
            },
        }
        match &files.metadata {
            Stored::Missing => Err(SnapshotError::NotFound(id.to_string())),
            Stored::Unreadable(said) => Err(SnapshotError::Serialization(said.clone())),
            Stored::There(meta) => Ok(meta.copy()),
        }
    }

    /// What is known of the snapshot that a key leads to. `content` is what the file
    /// of the key holds, and `files` are those of the snapshot that it names.
    pub fn get_by_key(&self, key: &SnapshotKey, content: Option<&str>, files: &StoredFiles) -> (r:
        Result<SnapshotMetadata, SnapshotError>)
        ensures
            match content {
                Some(text) => match r {
                    Ok(meta) => stored(trimmed(text@), *files) == Ok::<
                        MetadataView,
                        SnapshotErrorView,
                    >(meta@),
                    Err(e) => stored(trimmed(text@), *files) == Err::<
                        MetadataView,
                        SnapshotErrorView,
                    >(e@),
                },
                None => r matches Err(e) && e@ == SnapshotErrorView::NotFound(key.0@),
            },
    {
        match self.resolve_key(key, content) {
            Ok(id) => self.get(&id, files),
            Err(e) => Err(e),
        }
    }

    /// The id of a snapshot. The same contents have the same id.
    pub fn compute_id(&self, memory: &Vec<u8>, state: &Vec<u8>) -> (r: SnapshotId)
        ensures
            r.0@ == content_id(memory@, state@),
            r.0@.len() == 64,
            all_hex(r.0@),
    {
        let memory_hash = sha256_file(memory);
        let state_hash = sha256_file(state);
        combine_digests(memory_hash.as_str(), state_hash.as_str())
    }

    /// What is written when a snapshot is kept under a key.
    pub fn commit(
        &self,
        id: &SnapshotId,
        key: &SnapshotKey,
        hypervisor: &str,
        memory: &Vec<u8>,
        state: &Vec<u8>,
        created_at: CreatedAt,
    ) -> (r: Commit)
        ensures
            writes(r, sha256_text(memory@), sha256_text(state@)),
            r.key_file@ == path_join(self.keys_text(), key.0@),
            r.key_content@ == id.0@,
            r.meta@ == (MetadataView {
                id: id.0@,
                key: key.0@,
                hypervisor: hypervisor@,
                created_at: created_at@,
                memory_size_bytes: memory@.len() as u64,
                state_size_bytes: state@.len() as u64,
            }),
    {
        let checksums = SnapshotChecksums {
            memory_sha256: sha256_file(memory),
            state_sha256: sha256_file(state),
        };
        let meta = SnapshotMetadata {
            id: SnapshotId(id.to_string()),
            key: SnapshotKey(key.to_string()),
            hypervisor: hypervisor.to_owned(),
            created_at,
            memory_size_bytes: memory.len() as u64,
            state_size_bytes: state.len() as u64,
        };
        Commit {
            checksums: checksums.save(),
            metadata: meta.save(),
            key_file: self.key_file(key),
            key_content: id.to_string(),
            meta,
        }
    }

    /// Takes a snapshot up under a key. `kept` is what the store holds under the id
    /// of the new contents, where it holds anything: it stays, and the new files are
    /// dropped. Either way the key then leads to it, and the checksums are those of
    /// the files that stay.
    pub fn import_from(
        &self,
        memory: &Vec<u8>,
        state: &Vec<u8>,
        key: &SnapshotKey,
        hypervisor: &str,
        created_at: CreatedAt,
        kept: Option<(&Vec<u8>, &Vec<u8>)>,
    ) -> (r: (Import, Commit))
        ensures
            ({
                let id = content_id(memory@, state@);
                let (m, s) = match kept {
                    Some((m, s)) => (m@, s@),
                    None => (memory@, state@),
                };
                &&& match r.0 {
                    Import::Reuse => kept is Some,
                    Import::Rename(dir) => kept is None && dir@ == self.dir_of(id),
                }
                &&& writes(r.1, sha256_text(m), sha256_text(s))
                &&& r.1.key_file@ == path_join(self.keys_text(), key.0@)
                &&& r.1.key_content@ == id
                &&& all_hex(r.1.key_content@)
                &&& r.1.meta@ == (MetadataView {
                    id,
                    key: key.0@,
                    hypervisor: hypervisor@,
                    created_at: created_at@,
                    memory_size_bytes: m.len() as u64,
                    state_size_bytes: s.len() as u64,
                })
            }),
    {
        let id = self.compute_id(memory, state);
        match kept {
            Some((m, s)) => {
                let commit = self.commit(&id, key, hypervisor, m, s, created_at);
                (Import::Reuse, commit)
            },
            None => {
                let commit = self.commit(&id, key, hypervisor, memory, state, created_at);
                (Import::Rename(self.snapshot_dir(&id)), commit)
            },
        }
    }

    /// The snapshots of the store, from the entries of its directory: each with its
    /// name, whether it is a directory, and its files. Entries that are no snapshot,
    /// or not what they were, are passed over.
    pub fn list(&self, entries: &Vec<(String, bool, StoredFiles)>) -> (r: Vec<SnapshotMetadata>)
        ensures
            metadata_views(r@) == listed(entries@),
    {
        let mut out: Vec<SnapshotMetadata> = Vec::new();
        let mut i: usize = 0;
        assert(entries@.take(0) =~= Seq::<(String, bool, StoredFiles)>::empty());
        assert(metadata_views(out@) =~= listed(entries@.take(0)));
        while i < entries.len()
            invariant
                i <= entries@.len(),
                metadata_views(out@) == listed(entries@.take(i as int)),
            decreases entries.len() - i,
        {
            proof {
                assert(entries@.take(i + 1).drop_last() =~= entries@.take(i as int));
                assert(entries@.take(i + 1).last() == entries@[i as int]);
            }
            if let Some(id) = self.listed_id(entries[i].0.as_str(), entries[i].1) {
                if let Ok(meta) = self.get(&id, &entries[i].2) {
                    let ghost before = out@;
                    out.push(meta);
                    assert(metadata_views(out@) =~= metadata_views(before).push(meta@));
                }
            }
            i = i + 1;
        }
        assert(entries@.take(i as int) =~= entries@);
        out
    }

    /// The directories that a store needs, in the order in which they are made.
    pub fn init(&self) -> (r: Vec<String>)
        ensures
            texts(r@) == seq![self.root_text(), self.keys_text()],
    {
        let mut dirs: Vec<String> = Vec::new();
        dirs.push(self.root.clone());
        dirs.push(self.keys_dir());
        assert(texts(dirs@) =~= seq![self.root_text(), self.keys_text()]);
        dirs
    }

    /// The directory to remove where a snapshot is deleted, with all files of it. To
    /// delete a snapshot that is not there is no fault. The keys that lead to it stay.
    pub fn delete(&self, id: &SnapshotId, exists: bool) -> (r: Option<String>)
        ensures
            match r {
                Some(dir) => exists && dir@ == self.dir_of(id.0@),
                None => !exists,
            },
    {
        if exists {
            Some(self.snapshot_dir(id))
        } else {
            None
        }
    }

    /// The snapshot that an entry of the directory of the store may be: a directory
    /// that is not that of the keys.
    pub fn listed_id(&self, name: &str, is_dir: bool) -> (r: Option<SnapshotId>)
        ensures
            match r {
                Some(id) => is_dir && name@ != "keys"@ && id.0@ == name@,
                None => !is_dir || name@ == "keys"@,
            },
    {
        if !is_dir || same(name, "keys") {
            None
        } else {
            Some(SnapshotId(name.to_owned()))
        }
    }
}

/// What is known of snapshots.
pub open spec fn metadata_views(v: Seq<SnapshotMetadata>) -> Seq<MetadataView> {
    Seq::new(v.len(), |i: int| v[i]@)
}

/// The snapshots among the entries of the directory of the store.
pub open spec fn listed(entries: Seq<(String, bool, StoredFiles)>) -> Seq<MetadataView>
    decreases entries.len(),
{
    if entries.len() == 0 {
        Seq::empty()
    } else {
        let before = listed(entries.drop_last());
        let (name, is_dir, files) = entries.last();
        if is_dir && name@ != "keys"@ {
            match stored(name@, files) {
                Ok(meta) => before.push(meta),
                Err(_) => before,
            }
        } else {
            before
        }
    }
}

/// Each directory that is a snapshot whose files are what they were is listed, in its place
/// among the others, as what its metadata say; the directory of the keys, and what is no
/// snapshot, is not.
pub proof fn lemma_every_snapshot_is_listed(entries: Seq<(String, bool, StoredFiles)>, i: int)
    requires
        0 <= i < entries.len(),
    ensures
        listed(entries) == listed(entries.take(i)) + (if entries[i].1 && entries[i].0@ != "keys"@
            && stored(entries[i].0@, entries[i].2) is Ok {
            seq![stored(entries[i].0@, entries[i].2)->Ok_0]
        } else {
            Seq::empty()
        }) + listed(entries.skip(i + 1)),
        listed(Seq::empty()).len() == 0,
    decreases entries.len(),
{
    let init = entries.drop_last();
    let own = if entries[i].1 && entries[i].0@ != "keys"@ && stored(entries[i].0@, entries[i].2)
        is Ok {
        seq![stored(entries[i].0@, entries[i].2)->Ok_0]
    } else {
        Seq::empty()
    };
    if i == entries.len() - 1 {
        assert(entries.take(i) =~= init);
        assert(entries.skip(i + 1) =~= Seq::<(String, bool, StoredFiles)>::empty());
    } else {
        lemma_every_snapshot_is_listed(init, i);
        assert(init.take(i) =~= entries.take(i));
        assert(entries.skip(i + 1).drop_last() =~= init.skip(i + 1));
        assert(entries.skip(i + 1).last() == entries.last());
    }
    assert(listed(entries) =~= listed(entries.take(i)) + own + listed(entries.skip(i + 1)));
}

// ── What the store promises ─────────────────────────────────────────────────

/// Whether what two files of a snapshot say is what a commit wrote.
pub open spec fn as_written(files: StoredFiles, c: Commit) -> bool {
    &&& files.checksums matches Stored::There(sums) && parsed(c.checksums@) matches Some(j)
        && checksums_of(j) == Some(sums.says())
    &&& files.metadata matches Stored::There(meta) && parsed(c.metadata@) matches Some(j)
        && metadata_of(j) == Some(meta@)
}

/// A snapshot that was kept is found again: as long as its files are what they
/// were, what is known of it is what was written.
pub proof fn lemma_kept_snapshot_is_found(
    id: Seq<char>,
    files: StoredFiles,
    c: Commit,
    memory: Seq<u8>,
    state: Seq<u8>,
)
    requires
        writes(c, sha256_text(memory), sha256_text(state)),
        as_written(files, c),
        files.memory matches Ok(data) && data@ == memory,
        files.state matches Ok(data) && data@ == state,
    ensures
        stored(id, files) == Ok::<MetadataView, SnapshotErrorView>(c.meta@),
{
}

/// A file that was changed is noticed, wherever its digest is another one.
pub proof fn lemma_tampering_is_noticed(
    id: Seq<char>,
    files: StoredFiles,
    memory: Seq<u8>,
    state: Seq<u8>,
)
    requires
        files.checksums matches Stored::There(sums) && sums.says() == (
            sha256_text(memory),
            sha256_text(state),
        ),
        files.memory is Ok,
        files.state is Ok,
        sha256_text(files.memory->Ok_0@) != sha256_text(memory) || sha256_text(
            files.state->Ok_0@,
        ) != sha256_text(state),
    ensures
        stored(id, files) matches Err(e) && e is IntegrityFailed,
{
}

/// A snapshot is found exactly where all four files are there, and the digests of the two
/// large ones are those that were written; what is then known of it is what its metadata
/// say. Without digests, or without metadata, it is not there.
pub proof fn lemma_only_whole_snapshots_are_found(id: Seq<char>, files: StoredFiles)
    ensures
        ({
            let r = stored(id, files);
            let whole = files.checksums is There && files.memory is Ok && files.state is Ok
                && files.checksums->There_0.memory_sha256@ == sha256_text(files.memory->Ok_0@)
                && files.checksums->There_0.state_sha256@ == sha256_text(files.state->Ok_0@);
            &&& r is Ok <==> whole && files.metadata is There
            &&& r is Ok ==> r->Ok_0 == files.metadata->There_0@
            &&& r == Err::<MetadataView, SnapshotErrorView>(SnapshotErrorView::NotFound(id))
                <==> files.checksums is Missing || (whole && files.metadata is Missing)
            &&& integrity_fault(id, files) is None <==> whole
        }),
{
}

/// Time is neither lost nor made: seconds and nanoseconds are together what they were, and
/// less than a second is left over.
pub proof fn lemma_time_is_kept(secs: u64, nanos: u64)
    ensures
        match time_of(secs, nanos) {
            Some((s, n)) => s * 1_000_000_000 + n == secs * 1_000_000_000 + nanos && n
                < 1_000_000_000 && s <= LAST_SECOND,
            None => nanos > u32::MAX || secs + nanos / 1_000_000_000 > LAST_SECOND,
        },
{
}

/// The id of a snapshot is the digest of the digests of both its files, the memory first:
/// whichever of them has another digest, another text is digested.
pub proof fn lemma_id_is_made_from_both_files(
    memory: Seq<u8>,
    state: Seq<u8>,
    other_memory: Seq<u8>,
    other_state: Seq<u8>,
)
    requires
        sha256_text(memory).len() == sha256_text(other_memory).len(),
    ensures
        exists|text: Seq<char>|
            content_id(memory, state) == #[trigger] sha256_text(encode_utf8(text)) && text
                == sha256_text(memory) + sha256_text(state),
        sha256_text(memory) + sha256_text(state) == sha256_text(other_memory) + sha256_text(
            other_state,
        ) <==> sha256_text(memory) == sha256_text(other_memory) && sha256_text(state)
            == sha256_text(other_state),
{
    let a = sha256_text(memory);
    let b = sha256_text(state);
    let c = sha256_text(other_memory);
    let d = sha256_text(other_state);
    assert(content_id(memory, state) == sha256_text(encode_utf8(a + b)));
    if a + b == c + d {
        assert(a =~= (a + b).take(a.len() as int));
        assert(c =~= (c + d).take(c.len() as int));
        assert(b =~= (a + b).skip(a.len() as int));
        assert(d =~= (c + d).skip(c.len() as int));
    }
}

/// What the record of a `metadata.json` says is read under the names of its members.
pub proof fn lemma_metadata_members(j: JsonView)
    requires
        j is Record,
    ensures
        metadata_of(j) matches Some(m) ==> {
            &&& member(j, "id"@) == Some(JsonView::Text(m.id))
            &&& member(j, "key"@) == Some(JsonView::Text(m.key))
            &&& member(j, "hypervisor"@) == Some(JsonView::Text(m.hypervisor))
            &&& whole_of(member(j, "memory_size_bytes"@)) == Some(m.memory_size_bytes)
            &&& whole_of(member(j, "state_size_bytes"@)) == Some(m.state_size_bytes)
            &&& time_in(member(j, "created_at"@)) == Some(m.created_at)
        },
        checksums_of(j) matches Some((memory, state)) ==> member(j, "memory_sha256"@) == Some(
            JsonView::Text(memory),
        ) && member(j, "state_sha256"@) == Some(JsonView::Text(state)),
{
}

/// Each snapshot has a directory of its own in the store, and none is that of the keys.
pub proof fn lemma_snapshots_are_apart(store: SnapshotStore, a: Seq<char>, b: Seq<char>)
    requires
        all_hex(a) && a.len() == 64,
        all_hex(b) && b.len() == 64,
    ensures
        a != b ==> store.dir_of(a) != store.dir_of(b),
        store.dir_of(a) != store.keys_text(),
        store.root_text().is_prefix_of(store.dir_of(a)),
{
    reveal_strlit("keys");
    assert(is_hex(a[0]) && is_hex(b[0]));
    assert("keys"@.len() == 4);
    lemma_path_join(store.root_text(), a, b);
    lemma_path_join(store.root_text(), a, "keys"@);
}

proof fn lemma_no_space_start(s: Seq<char>)
    requires
        s.len() > 0 ==> !is_space(s[0]),
    ensures
        trimmed_start(s) == s,
{
}

proof fn lemma_no_space_end(s: Seq<char>)
    requires
        s.len() > 0 ==> !is_space(s.last()),
    ensures
        trimmed_end(s) == s,
{
}

/// The key of a snapshot leads to it: what is written into the file of the key is
/// read back as the id.
pub proof fn lemma_key_leads_to_snapshot(id: Seq<char>)
    requires
        all_hex(id),
    ensures
        trimmed(id) == id,
{
    if id.len() > 0 {
        assert(is_hex(id[0]));
        assert(is_hex(id[id.len() - 1]));
    }
    lemma_no_space_start(id);
    lemma_no_space_end(id);
}

} // verus!
