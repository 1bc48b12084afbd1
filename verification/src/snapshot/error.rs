//! What can go wrong with snapshots.

use crate::text::{concat, concat3};
use vstd::prelude::*;

verus! {

/// What went wrong with a snapshot.
pub enum SnapshotError {
    NotFound(String),
    /// The store could not be read or written; what the system says.
    Io(String),
    IntegrityFailed { expected: String, actual: String },
    Unsupported,
    RestoreFailed(String),
    PostRestoreFailed(String),
    /// A file of the store does not hold what it should; what the parser says.
    Serialization(String),
    InvalidSnapshotId(String),
}

/// What went wrong with a snapshot.
pub enum SnapshotErrorView {
    NotFound(Seq<char>),
    Io(Seq<char>),
    IntegrityFailed { expected: Seq<char>, actual: Seq<char> },
    Unsupported,
    RestoreFailed(Seq<char>),
    PostRestoreFailed(Seq<char>),
    Serialization(Seq<char>),
    InvalidSnapshotId(Seq<char>),
}

impl View for SnapshotError {
    type V = SnapshotErrorView;

    open spec fn view(&self) -> SnapshotErrorView {
        match *self {
            SnapshotError::NotFound(s) => SnapshotErrorView::NotFound(s@),
            SnapshotError::Io(s) => SnapshotErrorView::Io(s@),
            SnapshotError::IntegrityFailed { expected, actual } => {
                SnapshotErrorView::IntegrityFailed { expected: expected@, actual: actual@ }
            },
            SnapshotError::Unsupported => SnapshotErrorView::Unsupported,
            SnapshotError::RestoreFailed(s) => SnapshotErrorView::RestoreFailed(s@),
            SnapshotError::PostRestoreFailed(s) => SnapshotErrorView::PostRestoreFailed(s@),
            SnapshotError::Serialization(s) => SnapshotErrorView::Serialization(s@),
            SnapshotError::InvalidSnapshotId(s) => SnapshotErrorView::InvalidSnapshotId(s@),
        }
    }
}

/// An error in words.
pub open spec fn error_text(e: SnapshotErrorView) -> Seq<char> {
    match e {
        SnapshotErrorView::NotFound(id) => "snapshot not found: "@ + id,
        SnapshotErrorView::Io(e) => "snapshot store I/O error: "@ + e,
        SnapshotErrorView::IntegrityFailed { expected, actual } => {
            "snapshot integrity check failed: expected "@ + expected + ", got "@ + actual
        },
        SnapshotErrorView::Unsupported => "hypervisor does not support app snapshots"@,
        SnapshotErrorView::RestoreFailed(msg) => "restore failed: "@ + msg,
        SnapshotErrorView::PostRestoreFailed(msg) => "post-restore initialization failed: "@ + msg,
        SnapshotErrorView::Serialization(e) => "serialization error: "@ + e,
        SnapshotErrorView::InvalidSnapshotId(id) => "invalid snapshot id: "@ + id,
    }
}

/// An error tells what it is about at its end.
pub proof fn lemma_error_tells_its_subject(s: Seq<char>, expected: Seq<char>)
    ensures
        s.is_suffix_of(error_text(SnapshotErrorView::NotFound(s))),
        s.is_suffix_of(error_text(SnapshotErrorView::Io(s))),
        s.is_suffix_of(error_text(SnapshotErrorView::IntegrityFailed { expected, actual: s })),
        s.is_suffix_of(error_text(SnapshotErrorView::RestoreFailed(s))),
        s.is_suffix_of(error_text(SnapshotErrorView::PostRestoreFailed(s))),
        s.is_suffix_of(error_text(SnapshotErrorView::Serialization(s))),
        s.is_suffix_of(error_text(SnapshotErrorView::InvalidSnapshotId(s))),
        "snapshot integrity check failed: expected "@.is_prefix_of(
            error_text(SnapshotErrorView::IntegrityFailed { expected, actual: s }),
        ),
        "snapshot not found: "@.is_prefix_of(error_text(SnapshotErrorView::NotFound(s))),
{
    assert(("snapshot not found: "@ + s).skip("snapshot not found: "@.len() as int) =~= s);
    assert(("snapshot store I/O error: "@ + s).skip("snapshot store I/O error: "@.len() as int)
        =~= s);
    let head = "snapshot integrity check failed: expected "@;
    let whole = head + expected + ", got "@ + s;
    assert(whole.skip(whole.len() - s.len()) =~= s);
    assert(whole.take(head.len() as int) =~= head);
    assert(("restore failed: "@ + s).skip("restore failed: "@.len() as int) =~= s);
    let init = "post-restore initialization failed: "@;
    assert((init + s).skip(init.len() as int) =~= s);
    assert(("serialization error: "@ + s).skip("serialization error: "@.len() as int) =~= s);
    assert(("invalid snapshot id: "@ + s).skip("invalid snapshot id: "@.len() as int) =~= s);
    assert(("snapshot not found: "@ + s).take("snapshot not found: "@.len() as int)
        =~= "snapshot not found: "@);
}

impl SnapshotError {
    /// The error in words.
    pub fn to_string(&self) -> (r: String)
        ensures
            r@ == error_text(self@),
    {
        match self {
            SnapshotError::NotFound(id) => concat("snapshot not found: ", id.as_str()),
            SnapshotError::Io(e) => concat("snapshot store I/O error: ", e.as_str()),
            SnapshotError::IntegrityFailed { expected, actual } => {
                let head = concat3(
                    "snapshot integrity check failed: expected ",
                    expected.as_str(),
                    ", got ",
                );
                concat(head.as_str(), actual.as_str())
            },
            SnapshotError::Unsupported => "hypervisor does not support app snapshots".to_owned(),
            SnapshotError::RestoreFailed(msg) => concat("restore failed: ", msg.as_str()),
            SnapshotError::PostRestoreFailed(msg) => concat(
                "post-restore initialization failed: ",
                msg.as_str(),
            ),
            SnapshotError::Serialization(e) => concat("serialization error: ", e.as_str()),
            SnapshotError::InvalidSnapshotId(id) => concat("invalid snapshot id: ", id.as_str()),
        }
    }
}

} // verus!
