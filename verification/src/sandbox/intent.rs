//! What a pod wants to be started from, and what is tried in which order.

use crate::sandbox::config::SnapshotConfig;
use crate::sandbox::data::{annotations_of, lookup, SandboxData};
use crate::template::{
    annotated_type, identity_view, lemma_types_have_one_name, opt_identity_view, SnapshotType,
    WorkloadIdentity, POD_UID_ANNOTATION, SNAPSHOT_TYPE_ANNOTATION, TEMPLATE_ID_ANNOTATION,
    TEMPLATE_KEY_ANNOTATION, WORKLOAD_GENERATION_ANNOTATION,
};
use crate::text::{decimal, decimal_u64, lemma_decimal_round_trip, opt_text, parse_u64};
use vstd::prelude::*;

verus! {

/// What a pod wants to be started from.
pub struct SnapshotIntent {
    /// The type that the pod names.
    pub explicit_type: Option<SnapshotType>,
    /// The workload to be continued.
    pub cont_identity: Option<WorkloadIdentity>,
    pub template_id: Option<String>,
    pub template_key: Option<String>,
}

/// What an intent says.
pub struct SnapshotIntentView {
    pub explicit_type: Option<SnapshotType>,
    pub cont_identity: Option<(Seq<char>, u64)>,
    pub template_id: Option<Seq<char>>,
    pub template_key: Option<Seq<char>>,
}

impl View for SnapshotIntent {
    type V = SnapshotIntentView;

    open spec fn view(&self) -> SnapshotIntentView {
        SnapshotIntentView {
            explicit_type: self.explicit_type,
            cont_identity: opt_identity_view(self.cont_identity),
            template_id: opt_text(self.template_id),
            template_key: opt_text(self.template_key),
        }
    }
}

/// Why a pod is not started, though a fresh boot would be possible: the state
/// that it wants to continue would be lost.
#[derive(Clone, Copy, Debug, PartialEq, Eq, Structural)]
pub enum IntentError {
    /// The snapshot type is none.
    UnknownType,
    /// The generation is no number.
    MalformedGeneration,
    /// The generation is too large.
    GenerationTooLarge,
}

/// The generation that a pod names, 0 where it names none.
pub open spec fn generation_of(value: Option<Seq<char>>) -> Result<u64, IntentError> {
    match value {
        None => Ok(0),
        Some(s) => match decimal_u64(s) {
            Some(n) => if n <= u32::MAX {
                Ok(n)
            } else {
                Err(IntentError::GenerationTooLarge)
            },
            None => Err(IntentError::MalformedGeneration),
        },
    }
}

/// A pod gets the generation that it names, or none at all: what is too large, or no
/// number, is never taken for another.
pub proof fn lemma_generation_is_the_one_named(n: u64)
    ensures
        n <= u32::MAX ==> generation_of(Some(decimal(n as nat))) == Ok::<u64, IntentError>(n),
        n > u32::MAX ==> generation_of(Some(decimal(n as nat))) is Err,
        generation_of(None) == Ok::<u64, IntentError>(0),
{
    lemma_decimal_round_trip(n);
}

/// What is no number up to 2^32 - 1 is refused.
pub proof fn lemma_malformed_generation_is_refused(s: Seq<char>)
    ensures
        generation_of(Some(s)) is Ok <==> decimal_u64(s) is Some && decimal_u64(s)->0 <= u32::MAX,
        generation_of(Some(s)) is Ok ==> generation_of(Some(s))->Ok_0 == decimal_u64(s)->0,
        generation_of(Some(s)) == Err::<u64, IntentError>(IntentError::MalformedGeneration)
            <==> decimal_u64(s) is None,
{
}

/// The generation that a pod names, 0 where it names none. A number that is
/// malformed or too large is an error: to take another would start from a wrong
/// state.
pub fn parse_generation(value: Option<&String>) -> (r: Result<u64, IntentError>)
    ensures
        r == generation_of(
            match value {
                Some(s) => Some(s@),
                None => None,
            },
        ),
{
    match value {
        None => Ok(0),
        Some(s) => match parse_u64(s.as_str()) {
            Some(n) => {
                if n <= u32::MAX as u64 {
                    Ok(n)
                } else {
                    Err(IntentError::GenerationTooLarge)
                }
            },
            None => Err(IntentError::MalformedGeneration),
        },
    }
}

/// Whether the pod names one of two types.
pub open spec fn names_one_of(t: Option<SnapshotType>, a: SnapshotType, b: SnapshotType) -> bool {
    t == Some(a) || t == Some(b)
}

/// What the annotations of a pod ask for. A template counts unless another type
/// is named, and a workload counts where continuations are enabled, unless another
/// type is named.
pub open spec fn intent_of(
    notes: Map<Seq<char>, Seq<char>>,
    continuation_enabled: bool,
) -> Result<SnapshotIntentView, IntentError> {
    let value = lookup(notes, SNAPSHOT_TYPE_ANNOTATION@);
    if value is Some && annotated_type(value->0) is None {
        Err(IntentError::UnknownType)
    } else {
        let explicit_type = match value {
            Some(v) => annotated_type(v),
            None => None,
        };
        let no_template = names_one_of(
            explicit_type,
            SnapshotType::Environment,
            SnapshotType::Continuation,
        );
        let no_workload = names_one_of(
            explicit_type,
            SnapshotType::Environment,
            SnapshotType::WarmFork,
        ) || !continuation_enabled;
        let generation = generation_of(lookup(notes, WORKLOAD_GENERATION_ANNOTATION@));
        let pod_uid = lookup(notes, POD_UID_ANNOTATION@);
        if !no_workload && pod_uid is Some && generation is Err {
            Err(generation->Err_0)
        } else {
            Ok(
                SnapshotIntentView {
                    explicit_type,
                    cont_identity: if no_workload || pod_uid is None {
                        None
                    } else {
                        Some((pod_uid->0, generation->Ok_0))
                    },
                    template_id: if no_template {
                        None
                    } else {
                        lookup(notes, TEMPLATE_ID_ANNOTATION@)
                    },
                    template_key: if no_template {
                        None
                    } else {
                        lookup(notes, TEMPLATE_KEY_ANNOTATION@)
                    },
                },
            )
        }
    }
}

/// A pod is started from what its annotations say: the template that it names counts
/// unless it names another type, and so does its workload where continuations are enabled.
/// What is not understood is refused, never left out.
pub proof fn lemma_intent_is_what_is_annotated(
    notes: Map<Seq<char>, Seq<char>>,
    continuation_enabled: bool,
)
    ensures
        ({
            let typed = notes.contains_key(SNAPSHOT_TYPE_ANNOTATION@);
            let named = |value: Seq<char>| typed && notes[SNAPSHOT_TYPE_ANNOTATION@] == value;
            let known = named("environment"@) || named("warm-fork"@) || named("continuation"@);
            let by_template = !typed || named("warm-fork"@);
            let by_workload = continuation_enabled && (!typed || named("continuation"@))
                && notes.contains_key(POD_UID_ANNOTATION@);
            let numbered = !notes.contains_key(WORKLOAD_GENERATION_ANNOTATION@) || generation_of(
                Some(notes[WORKLOAD_GENERATION_ANNOTATION@]),
            ) is Ok;
            let r = intent_of(notes, continuation_enabled);
            &&& r is Ok <==> (!typed || known) && (!by_workload || numbered)
            &&& r == Err::<SnapshotIntentView, IntentError>(IntentError::UnknownType) <==> typed
                && !known
            &&& r matches Ok(intent) ==> {
                let (uid, generation) = intent.cont_identity->0;
                &&& intent.explicit_type is Some <==> typed
                &&& intent.template_id is Some <==> by_template && notes.contains_key(
                    TEMPLATE_ID_ANNOTATION@,
                )
                &&& intent.template_id is Some ==> intent.template_id->0
                    == notes[TEMPLATE_ID_ANNOTATION@]
                &&& intent.template_key is Some <==> by_template && notes.contains_key(
                    TEMPLATE_KEY_ANNOTATION@,
                )
                &&& intent.template_key is Some ==> intent.template_key->0
                    == notes[TEMPLATE_KEY_ANNOTATION@]
                &&& intent.cont_identity is Some <==> by_workload
                &&& by_workload ==> uid == notes[POD_UID_ANNOTATION@]
                &&& by_workload && notes.contains_key(WORKLOAD_GENERATION_ANNOTATION@)
                    ==> generation_of(Some(notes[WORKLOAD_GENERATION_ANNOTATION@])) == Ok::<
                    u64,
                    IntentError,
                >(generation)
                &&& by_workload && !notes.contains_key(WORKLOAD_GENERATION_ANNOTATION@)
                    ==> generation == 0
            }
        }),
{
    if notes.contains_key(SNAPSHOT_TYPE_ANNOTATION@) {
        lemma_types_have_one_name(notes[SNAPSHOT_TYPE_ANNOTATION@]);
    }
    reveal_strlit("environment");
    reveal_strlit("warm-fork");
    reveal_strlit("continuation");
    assert("environment"@.len() == 11 && "warm-fork"@.len() == 9 && "continuation"@.len() == 12);
}

pub(crate) fn cloned(v: Option<&String>) -> (r: Option<String>)
    ensures
        opt_text(r) == (match v {
            Some(s) => Some(s@),
            None => None,
        }),
{
    match v {
        Some(s) => Some(s.clone()),
        None => None,
    }
}

/// What a pod wants to be started from.
pub fn parse_snapshot_intent(data: &SandboxData, config: &SnapshotConfig) -> (r: Result<
    SnapshotIntent,
    IntentError,
>)
    ensures
        match (r, intent_of(annotations_of(*data), config.enable_continuation_restore)) {
            (Ok(intent), Ok(view)) => intent@ == view,
            (Err(e), Err(f)) => e == f,
            _ => false,
        },
{
    let explicit_type = match data.annotation(SNAPSHOT_TYPE_ANNOTATION) {
        Some(value) => match SnapshotType::from_annotation(value.as_str()) {
            Some(t) => Some(t),
            None => {
                return Err(IntentError::UnknownType);
            },
        },
        None => None,
    };
    let no_template: bool = matches!(
        explicit_type,
        Some(SnapshotType::Environment) | Some(SnapshotType::Continuation)
    );
    let no_workload: bool = matches!(
        explicit_type,
        Some(SnapshotType::Environment) | Some(SnapshotType::WarmFork)
    ) || !config.enable_continuation_restore;
    let (template_id, template_key) = if no_template {
        (None, None)
    } else {
        (
            cloned(data.annotation(TEMPLATE_ID_ANNOTATION)),
            cloned(data.annotation(TEMPLATE_KEY_ANNOTATION)),
        )
    };
    let cont_identity = if no_workload {
        None
    } else {
        match data.annotation(POD_UID_ANNOTATION) {
            Some(pod_uid) => match parse_generation(
                data.annotation(WORKLOAD_GENERATION_ANNOTATION),
            ) {
                Ok(generation) => Some(WorkloadIdentity { pod_uid: pod_uid.clone(), generation }),
                Err(e) => {
                    return Err(e);
                },
            },
            None => None,
        }
    };
    Ok(SnapshotIntent { explicit_type, cont_identity, template_id, template_key })
}

// ── The order of attempts ───────────────────────────────────────────────────

/// A way to start a sandbox from a snapshot.
pub enum Attempt {
    /// Continue a workload.
    Continuation(WorkloadIdentity),
    /// Restore a template, which must have the key where one is given.
    TemplateId { id: String, key: Option<String> },
    /// Restore any template with the key.
    TemplateKey(String),
    /// Restore a booted guest with the same settings.
    Environment,
}

/// What an attempt is.
pub enum AttemptView {
    Continuation((Seq<char>, u64)),
    TemplateId { id: Seq<char>, key: Option<Seq<char>> },
    TemplateKey(Seq<char>),
    Environment,
}

impl View for Attempt {
    type V = AttemptView;

    open spec fn view(&self) -> AttemptView {
        match *self {
            Attempt::Continuation(i) => AttemptView::Continuation(identity_view(i)),
            Attempt::TemplateId { id, key } => AttemptView::TemplateId {
                id: id@,
                key: opt_text(key),
            },
            Attempt::TemplateKey(key) => AttemptView::TemplateKey(key@),
            Attempt::Environment => AttemptView::Environment,
        }
    }
}

/// What happens where no attempt succeeds.
#[derive(Clone, Copy, Debug, PartialEq, Eq, Structural)]
pub enum Fallback {
    /// Boot afresh.
    Cold,
    /// Fail with the error of the last attempt.
    LastError,
    /// Fail: no enabled snapshot fits.
    NoSnapshot,
    /// Fail: there is no such sandbox.
    NotFound,
}

/// The attempts at starting a sandbox, in order, up to the first that succeeds.
pub struct StartPlan {
    pub attempts: Vec<Attempt>,
    pub fallback: Fallback,
}

/// What a plan is.
pub struct StartPlanView {
    pub attempts: Seq<AttemptView>,
    pub fallback: Fallback,
}

/// What a list of attempts is.
pub open spec fn attempt_views(v: Seq<Attempt>) -> Seq<AttemptView> {
    Seq::new(v.len(), |i: int| v[i]@)
}

impl View for StartPlan {
    type V = StartPlanView;

    open spec fn view(&self) -> StartPlanView {
        StartPlanView { attempts: attempt_views(self.attempts@), fallback: self.fallback }
    }
}

/// Why a sandbox cannot be started.
#[derive(Clone, Copy, Debug, PartialEq, Eq, Structural)]
pub enum StartError {
    Intent(IntentError),
    /// A continuation is asked for, and continuations are not enabled.
    ContinuationDisabled,
    /// A continuation is asked for, and no workload is named.
    ContinuationWithoutWorkload,
    /// A warm fork is asked for, and warm forks are not enabled.
    WarmForkDisabled,
    /// A warm fork is asked for, and no template is named.
    WarmForkWithoutTemplate,
}

/// The attempt at the template that a pod names, where it names one. An id goes
/// before a key.
pub open spec fn template_attempt(intent: SnapshotIntentView) -> Option<AttemptView> {
    match (intent.template_id, intent.template_key) {
        (Some(id), key) => Some(AttemptView::TemplateId { id, key }),
        (None, Some(key)) => Some(AttemptView::TemplateKey(key)),
        (None, None) => None,
    }
}

/// What is tried at last: a booted guest, where that is enabled and there is a
/// pool, and then a fresh boot, where that is allowed.
pub open spec fn last_attempts(config: SnapshotConfig, has_pool: bool) -> StartPlanView {
    StartPlanView {
        attempts: if config.enable_environment_restore && has_pool {
            seq![AttemptView::Environment]
        } else {
            Seq::empty()
        },
        fallback: if config.any_enabled() && !config.fallback_to_fresh_boot {
            Fallback::NoSnapshot
        } else {
            Fallback::Cold
        },
    }
}

/// A single attempt, without anything to fall back on.
pub open spec fn only(attempt: AttemptView) -> StartPlanView {
    StartPlanView { attempts: seq![attempt], fallback: Fallback::LastError }
}

/// What is tried for an intent. What a pod names explicitly, and a workload that
/// is to be continued, is all that is tried. A template that is merely named is
/// tried before what is tried at last.
pub open spec fn plan_for(
    config: SnapshotConfig,
    has_pool: bool,
    intent: SnapshotIntentView,
) -> Result<StartPlanView, StartError> {
    match intent.explicit_type {
        Some(SnapshotType::Continuation) => if !config.enable_continuation_restore {
            Err(StartError::ContinuationDisabled)
        } else {
            match intent.cont_identity {
                Some(identity) => Ok(only(AttemptView::Continuation(identity))),
                None => Err(StartError::ContinuationWithoutWorkload),
            }
        },
        Some(SnapshotType::WarmFork) => if !config.enable_warmfork_restore {
            Err(StartError::WarmForkDisabled)
        } else {
            match template_attempt(intent) {
                Some(attempt) => Ok(only(attempt)),
                None => Err(StartError::WarmForkWithoutTemplate),
            }
        },
        _ => match intent.cont_identity {
            Some(identity) => Ok(only(AttemptView::Continuation(identity))),
            None => {
                let last = last_attempts(config, has_pool);
                match template_attempt(intent) {
                    Some(attempt) => Ok(
                        StartPlanView {
                            attempts: seq![attempt] + last.attempts,
                            fallback: last.fallback,
                        },
                    ),
                    None => Ok(last),
                }
            },
        },
    }
}

/// A workload that is to be continued is tried as a continuation and nothing else; a warm
/// fork that is named is tried as the template of its id, with the key where both are
/// given, or else of its key, and nothing else. All others are tried as the template that
/// they name, first, then as a booted guest, last, exactly where that is enabled and there
/// is a pool; and they are booted afresh after that exactly where this is allowed or no
/// snapshots are enabled.
pub proof fn lemma_what_is_tried(
    config: SnapshotConfig,
    has_pool: bool,
    intent: SnapshotIntentView,
)
    ensures
        ({
            let r = plan_for(config, has_pool, intent);
            let plan = r->Ok_0;
            let by_id = intent.template_id is Some;
            let by_key = !by_id && intent.template_key is Some;
            let first = plan.attempts[0];
            let of_template = (by_id ==> first == (AttemptView::TemplateId {
                id: intent.template_id->0,
                key: intent.template_key,
            })) && (by_key ==> first == AttemptView::TemplateKey(intent.template_key->0));
            let continued = plan.attempts.len() == 1 && first == AttemptView::Continuation(
                intent.cont_identity->0,
            ) && plan.fallback is LastError;
            if intent.explicit_type == Some(SnapshotType::Continuation) {
                &&& r is Ok <==> config.enable_continuation_restore && intent.cont_identity is Some
                &&& r is Ok ==> continued
                &&& r == Err::<StartPlanView, StartError>(StartError::ContinuationDisabled)
                    <==> !config.enable_continuation_restore
            } else if intent.explicit_type == Some(SnapshotType::WarmFork) {
                &&& r is Ok <==> config.enable_warmfork_restore && (by_id || by_key)
                &&& r is Ok ==> plan.attempts.len() == 1 && of_template && plan.fallback
                    is LastError
                &&& r == Err::<StartPlanView, StartError>(StartError::WarmForkDisabled)
                    <==> !config.enable_warmfork_restore
            } else if intent.cont_identity is Some {
                r is Ok && continued
            } else {
                let booted = config.enable_environment_restore && has_pool;
                let any = config.enable_warmfork_restore || config.enable_continuation_restore
                    || config.enable_environment_restore;
                &&& r is Ok
                &&& of_template
                &&& plan.attempts.len() == (if by_id || by_key {
                    1int
                } else {
                    0
                }) + (if booted {
                    1int
                } else {
                    0
                })
                &&& booted ==> plan.attempts.last() is Environment
                &&& plan.fallback is Cold <==> !any || config.fallback_to_fresh_boot
                &&& plan.fallback is NoSnapshot <==> any && !config.fallback_to_fresh_boot
            }
        }),
{
}

/// What is tried to start a pod. Annotations count only where warm forks or
/// continuations are enabled and there is a place to find them.
pub open spec fn start_plan(
    config: SnapshotConfig,
    has_pool: bool,
    has_store: bool,
    notes: Map<Seq<char>, Seq<char>>,
) -> Result<StartPlanView, StartError> {
    if !has_pool && !has_store {
        Ok(StartPlanView { attempts: Seq::empty(), fallback: Fallback::Cold })
    } else if config.enable_warmfork_restore || config.enable_continuation_restore {
        match intent_of(notes, config.enable_continuation_restore) {
            Err(e) => Err(StartError::Intent(e)),
            Ok(intent) => plan_for(config, has_pool, intent),
        }
    } else {
        Ok(last_attempts(config, has_pool))
    }
}

/// The annotations of a pod count exactly where warm forks or continuations are enabled and
/// there is a place to find them; without such a place nothing is tried, and the sandbox is
/// booted afresh.
pub proof fn lemma_when_annotations_count(
    config: SnapshotConfig,
    has_pool: bool,
    has_store: bool,
    notes: Map<Seq<char>, Seq<char>>,
    others: Map<Seq<char>, Seq<char>>,
)
    ensures
        ({
            let r = start_plan(config, has_pool, has_store, notes);
            let placed = has_pool || has_store;
            let enabled = config.enable_warmfork_restore || config.enable_continuation_restore;
            let intent = intent_of(notes, config.enable_continuation_restore);
            &&& !placed ==> r is Ok && r->Ok_0.attempts.len() == 0 && r->Ok_0.fallback is Cold
            &&& !placed || !enabled ==> r == start_plan(config, has_pool, has_store, others)
            &&& placed && enabled && intent is Ok ==> r == plan_for(config, has_pool, intent->Ok_0)
            &&& placed && enabled && intent is Err ==> r == Err::<StartPlanView, StartError>(
                StartError::Intent(intent->Err_0),
            )
            &&& placed && !enabled ==> r is Ok && (r->Ok_0.attempts.len() == 1
                <==> config.enable_environment_restore && has_pool) && (r->Ok_0.attempts.len() == 1
                ==> r->Ok_0.attempts[0] is Environment) && r->Ok_0.attempts.len() <= 1 && (
            r->Ok_0.fallback is Cold <==> !config.enable_environment_restore
                || config.fallback_to_fresh_boot)
        }),
{
}

/// What is tried where there is no sandbox with the id. The sandbox is looked up first
/// where its annotations count or where it would be booted afresh; else a booted guest
/// is tried before.
pub open spec fn unknown_plan(config: SnapshotConfig, has_pool: bool, has_store: bool) -> Option<
    StartPlanView,
> {
    let last = last_attempts(config, has_pool);
    if !has_pool && !has_store {
        None
    } else if config.enable_warmfork_restore || config.enable_continuation_restore {
        None
    } else if last.fallback is NoSnapshot {
        Some(last)
    } else if last.attempts.len() == 0 {
        None
    } else {
        Some(StartPlanView { attempts: last.attempts, fallback: Fallback::NotFound })
    }
}

fn push_attempt(list: &mut Vec<Attempt>, attempt: Attempt)
    ensures
        attempt_views(final(list)@) == attempt_views(old(list)@).push(attempt@),
{
    let ghost before = list@;
    list.push(attempt);
    assert(attempt_views(list@) =~= attempt_views(before).push(attempt@));
}

fn template_attempt_of(template_id: Option<String>, template_key: Option<String>) -> (r: Option<
    Attempt,
>)
    ensures
        match (r, opt_text(template_id), opt_text(template_key)) {
            (Some(a), Some(id), key) => a@ == (AttemptView::TemplateId { id, key }),
            (Some(a), None, Some(key)) => a@ == AttemptView::TemplateKey(key),
            (None, None, None) => true,
            _ => false,
        },
{
    match (template_id, template_key) {
        (Some(id), key) => Some(Attempt::TemplateId { id, key }),
        (None, Some(key)) => Some(Attempt::TemplateKey(key)),
        (None, None) => None,
    }
}

fn only_attempt(attempt: Attempt) -> (r: StartPlan)
    ensures
        r@ == only(attempt@),
{
    let mut attempts: Vec<Attempt> = Vec::new();
    assert(attempt_views(attempts@) =~= Seq::<AttemptView>::empty());
    push_attempt(&mut attempts, attempt);
    assert(attempt_views(attempts@) =~= seq![attempt@]);
    StartPlan { attempts, fallback: Fallback::LastError }
}

fn finish_plan(mut attempts: Vec<Attempt>, config: &SnapshotConfig, has_pool: bool) -> (r: StartPlan)
    ensures
        r@.attempts == attempt_views(attempts@) + last_attempts(*config, has_pool).attempts,
        r@.fallback == last_attempts(*config, has_pool).fallback,
{
    let ghost first = attempt_views(attempts@);
    if config.enable_environment_restore && has_pool {
        push_attempt(&mut attempts, Attempt::Environment);
        assert(attempt_views(attempts@) =~= first + seq![AttemptView::Environment]);
    } else {
        assert(attempt_views(attempts@) =~= first + Seq::<AttemptView>::empty());
    }
    let fallback = if config.any_snapshot_restore_enabled() && !config.fallback_to_fresh_boot {
        Fallback::NoSnapshot
    } else {
        Fallback::Cold
    };
    StartPlan { attempts, fallback }
}

/// What is tried for an intent.
pub fn plan_intent(config: &SnapshotConfig, has_pool: bool, intent: SnapshotIntent) -> (r: Result<
    StartPlan,
    StartError,
>)
    ensures
        match (r, plan_for(*config, has_pool, intent@)) {
            (Ok(plan), Ok(view)) => plan@ == view,
            (Err(e), Err(f)) => e == f,
            _ => false,
        },
{
    match intent.explicit_type {
        Some(SnapshotType::Continuation) => {
            if !config.enable_continuation_restore {
                return Err(StartError::ContinuationDisabled);
            }
            return match intent.cont_identity {
                Some(identity) => Ok(only_attempt(Attempt::Continuation(identity))),
                None => Err(StartError::ContinuationWithoutWorkload),
            };
        },
        Some(SnapshotType::WarmFork) => {
            if !config.enable_warmfork_restore {
                return Err(StartError::WarmForkDisabled);
            }
            return match template_attempt_of(intent.template_id, intent.template_key) {
                Some(attempt) => Ok(only_attempt(attempt)),
                None => Err(StartError::WarmForkWithoutTemplate),
            };
        },
        _ => {},
    }
    if let Some(identity) = intent.cont_identity {
        return Ok(only_attempt(Attempt::Continuation(identity)));
    }
    let mut attempts: Vec<Attempt> = Vec::new();
    assert(attempt_views(attempts@) =~= Seq::<AttemptView>::empty());
    let ghost last = last_attempts(*config, has_pool);
    if let Some(attempt) = template_attempt_of(intent.template_id, intent.template_key) {
        let ghost view = attempt@;
        push_attempt(&mut attempts, attempt);
        assert(attempt_views(attempts@) =~= seq![view]);
    } else {
        assert(Seq::<AttemptView>::empty() + last.attempts =~= last.attempts);
    }
    Ok(finish_plan(attempts, config, has_pool))
}

/// What is tried to start a pod.
pub fn plan_start(
    config: &SnapshotConfig,
    has_pool: bool,
    has_store: bool,
    data: &SandboxData,
) -> (r: Result<StartPlan, StartError>)
    ensures
        match (r, start_plan(*config, has_pool, has_store, annotations_of(*data))) {
            (Ok(plan), Ok(view)) => plan@ == view,
            (Err(e), Err(f)) => e == f,
            _ => false,
        },
{
    let none: Vec<Attempt> = Vec::new();
    assert(attempt_views(none@) =~= Seq::<AttemptView>::empty());
    if !has_pool && !has_store {
        return Ok(StartPlan { attempts: none, fallback: Fallback::Cold });
    }
    if config.enable_warmfork_restore || config.enable_continuation_restore {
        match parse_snapshot_intent(data, config) {
            Err(e) => Err(StartError::Intent(e)),
            Ok(intent) => plan_intent(config, has_pool, intent),
        }
    } else {
        proof {
            let last = last_attempts(*config, has_pool);
            assert(Seq::<AttemptView>::empty() + last.attempts =~= last.attempts);
        }
        Ok(finish_plan(none, config, has_pool))
    }
}

/// What is tried where there is no sandbox with the id; `None` where it is clear at
/// once that there is none.
pub fn plan_unknown(config: &SnapshotConfig, has_pool: bool, has_store: bool) -> (r: Option<
    StartPlan,
>)
    ensures
        match (r, unknown_plan(*config, has_pool, has_store)) {
            (Some(plan), Some(view)) => plan@ == view,
            (None, None) => true,
            _ => false,
        },
{
    if !has_pool && !has_store {
        return None;
    }
    if config.enable_warmfork_restore || config.enable_continuation_restore {
        return None;
    }
    let none: Vec<Attempt> = Vec::new();
    assert(attempt_views(none@) =~= Seq::<AttemptView>::empty());
    let plan = finish_plan(none, config, has_pool);
    proof {
        let last = last_attempts(*config, has_pool);
        assert(Seq::<AttemptView>::empty() + last.attempts =~= last.attempts);
        assert(plan@.attempts.len() == plan.attempts@.len());
    }
    match plan.fallback {
        Fallback::NoSnapshot => Some(plan),
        _ => if plan.attempts.len() == 0 {
            None
        } else {
            Some(StartPlan { attempts: plan.attempts, fallback: Fallback::NotFound })
        },
    }
}

/// What is done next to start a sandbox.
#[derive(Clone, Copy, Debug, PartialEq, Eq, Structural)]
pub enum StartMove {
    /// Make the attempt at this place.
    Try(usize),
    BootAfresh,
    /// Fail with the error of the last attempt.
    FailWithLast,
    /// Fail: no enabled snapshot fits.
    FailWithoutSnapshot,
    /// Fail: there is no such sandbox.
    FailUnknown,
}

/// What is done next, where the first `failed` attempts failed.
pub open spec fn next_move_of(plan: StartPlanView, failed: nat) -> StartMove {
    if failed < plan.attempts.len() {
        StartMove::Try(failed as usize)
    } else {
        match plan.fallback {
            Fallback::Cold => StartMove::BootAfresh,
            Fallback::LastError => StartMove::FailWithLast,
            Fallback::NoSnapshot => StartMove::FailWithoutSnapshot,
            Fallback::NotFound => StartMove::FailUnknown,
        }
    }
}

impl StartPlan {
    /// What is done next, where the first `failed` attempts failed. An attempt that
    /// succeeds ends the start.
    pub fn next_move(&self, failed: usize) -> (r: StartMove)
        ensures
            r == next_move_of(self@, failed as nat),
    {
        if failed < self.attempts.len() {
            StartMove::Try(failed)
        } else {
            match self.fallback {
                Fallback::Cold => StartMove::BootAfresh,
                Fallback::LastError => StartMove::FailWithLast,
                Fallback::NoSnapshot => StartMove::FailWithoutSnapshot,
                Fallback::NotFound => StartMove::FailUnknown,
            }
        }
    }
}

/// A workload that is to be continued is never booted afresh: its continuation is
/// the only attempt, and its failure is the failure of the start.
pub proof fn lemma_continuation_never_falls_back(
    config: SnapshotConfig,
    has_pool: bool,
    has_store: bool,
    notes: Map<Seq<char>, Seq<char>>,
    i: int,
)
    requires
        start_plan(config, has_pool, has_store, notes) matches Ok(plan) && 0 <= i
            < plan.attempts.len() && plan.attempts[i] is Continuation,
    ensures
        start_plan(config, has_pool, has_store, notes) matches Ok(plan) && plan.attempts.len() == 1
            && plan.fallback is LastError,
        config.enable_continuation_restore,
{
}

/// A pod that names a warm fork explicitly is started from the template that it
/// names or not at all.
pub proof fn lemma_explicit_warm_fork_never_falls_back(
    config: SnapshotConfig,
    has_pool: bool,
    has_store: bool,
    notes: Map<Seq<char>, Seq<char>>,
)
    requires
        has_pool || has_store,
        config.enable_warmfork_restore || config.enable_continuation_restore,
        lookup(notes, SNAPSHOT_TYPE_ANNOTATION@) == Some("warm-fork"@),
    ensures
        match start_plan(config, has_pool, has_store, notes) {
            Ok(plan) => config.enable_warmfork_restore && plan.attempts.len() == 1
                && plan.fallback is LastError && (plan.attempts[0] is TemplateId
                || plan.attempts[0] is TemplateKey),
            Err(_) => true,
        },
{
    reveal_strlit("environment");
    reveal_strlit("warm-fork");
    reveal_strlit("continuation");
    assert("environment"@.len() == 11 && "warm-fork"@.len() == 9);
}

/// Where snapshots are enabled and fresh boots are not allowed, no sandbox is
/// booted afresh, as long as there is a place to find snapshots.
pub proof fn lemma_no_fresh_boot_where_forbidden(
    config: SnapshotConfig,
    has_pool: bool,
    has_store: bool,
    notes: Map<Seq<char>, Seq<char>>,
)
    requires
        has_pool || has_store,
        config.any_enabled(),
        !config.fallback_to_fresh_boot,
    ensures
        start_plan(config, has_pool, has_store, notes) matches Ok(plan) ==> !(plan.fallback is Cold),
{
}

/// All attempts are made, one after the other, before a sandbox is booted afresh or its
/// start fails, and each way to end has its own move.
pub proof fn lemma_attempts_are_made_in_order(plan: StartPlanView, failed: nat)
    requires
        plan.attempts.len() <= usize::MAX,
    ensures
        failed < plan.attempts.len() <==> next_move_of(plan, failed) is Try,
        failed < plan.attempts.len() ==> next_move_of(plan, failed) == StartMove::Try(
            failed as usize,
        ),
        failed >= plan.attempts.len() ==> {
            &&& next_move_of(plan, failed) is BootAfresh <==> plan.fallback is Cold
            &&& next_move_of(plan, failed) is FailWithLast <==> plan.fallback is LastError
            &&& next_move_of(plan, failed) is FailWithoutSnapshot <==> plan.fallback is NoSnapshot
            &&& next_move_of(plan, failed) is FailUnknown <==> plan.fallback is NotFound
        },
{
}

/// A sandbox that is not there is never booted: at most a booted guest is tried, and
/// then it fails.
pub proof fn lemma_unknown_is_never_booted(
    config: SnapshotConfig,
    has_pool: bool,
    has_store: bool,
    failed: nat,
)
    ensures
        unknown_plan(config, has_pool, has_store) matches Some(plan) ==> plan.attempts.len() <= 1
            && (forall|i: int|
            0 <= i < plan.attempts.len() ==> (#[trigger] plan.attempts[i]) is Environment) && !(
        next_move_of(plan, failed) is BootAfresh),
{
}

/// Where nothing is enabled, a sandbox is booted afresh and nothing else is tried.
pub proof fn lemma_nothing_enabled_boots_afresh(
    config: SnapshotConfig,
    has_pool: bool,
    has_store: bool,
    notes: Map<Seq<char>, Seq<char>>,
)
    requires
        !config.any_enabled(),
    ensures
        start_plan(config, has_pool, has_store, notes) matches Ok(plan) && plan.attempts.len() == 0
            && plan.fallback is Cold,
{
}

} // verus!
