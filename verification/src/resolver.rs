//! What the annotations of a pod say about the snapshot that it wants to be
//! started from, whoever wrote them.

use crate::sandbox::config::SnapshotConfig;
use crate::sandbox::data::lookup;
use crate::sandbox::intent::names_one_of;
use crate::string_map::StringMap;
use crate::template::{
    annotated_type, identity_view, lemma_types_have_one_name, SnapshotType, TemplateKey,
    WorkloadIdentity, POD_UID_ANNOTATION, SNAPSHOT_TYPE_ANNOTATION, TEMPLATE_ID_ANNOTATION,
    TEMPLATE_KEY_ANNOTATION, WORKLOAD_GENERATION_ANNOTATION,
};
use crate::text::{decimal_u64, opt_text, parse_u64};
use vstd::prelude::*;

verus! {

/// What a pod is to be started from.
pub enum RestoreIntent {
    WarmFork { key: TemplateKey, template_id: Option<String> },
    Continuation { identity: WorkloadIdentity },
    /// No snapshot.
    Nothing,
}

/// What an intent says.
pub enum RestoreIntentView {
    WarmFork { key: Seq<char>, template_id: Option<Seq<char>> },
    Continuation { identity: (Seq<char>, u64) },
    Nothing,
}

impl View for RestoreIntent {
    type V = RestoreIntentView;

    open spec fn view(&self) -> RestoreIntentView {
        match *self {
            RestoreIntent::WarmFork { key, template_id } => RestoreIntentView::WarmFork {
                key: key.key@,
                template_id: opt_text(template_id),
            },
            RestoreIntent::Continuation { identity } => RestoreIntentView::Continuation {
                identity: identity_view(identity),
            },
            RestoreIntent::Nothing => RestoreIntentView::Nothing,
        }
    }
}

/// Why annotations cannot be understood.
#[derive(Clone, Copy, Debug, PartialEq, Eq, Structural)]
pub enum ResolveError {
    /// The snapshot type is none.
    UnknownType,
    /// The generation is no number.
    MalformedGeneration,
}

/// What a resolver makes of annotations: `Ok(None)` where they are not its own, so
/// that the next one is asked.
pub type Resolution = Result<Option<RestoreIntentView>, ResolveError>;

/// Whether a result says what the resolution says.
pub open spec fn resolves(
    r: Result<Option<RestoreIntent>, ResolveError>,
    to: Resolution,
) -> bool {
    match (r, to) {
        (Ok(Some(intent)), Ok(Some(view))) => intent@ == view,
        (Ok(None), Ok(None)) => true,
        (Err(e), Err(f)) => e == f,
        _ => false,
    }
}

/// Understands the annotations of one origin.
pub trait RestoreIntentResolver {
    /// What this resolver makes of annotations.
    spec fn resolution(&self, notes: Map<Seq<char>, Seq<char>>, config: SnapshotConfig) -> Resolution;

    /// The name of this resolver.
    spec fn name_text(&self) -> Seq<char>;

    /// The name of this resolver.
    fn name(&self) -> (r: &str)
        ensures
            r@ == self.name_text(),
    ;

    /// What this resolver makes of annotations.
    fn resolve(&self, annotations: &StringMap, config: &SnapshotConfig) -> (r: Result<
        Option<RestoreIntent>,
        ResolveError,
    >)
        ensures
            resolves(r, self.resolution(annotations@, *config)),
    ;
}

/// Understands the annotations `kuasar.io/...`.
pub struct KuasarNativeResolver;

/// What the annotations `kuasar.io/...` ask for. A workload goes before a template.
pub open spec fn native_resolution(
    notes: Map<Seq<char>, Seq<char>>,
    config: SnapshotConfig,
) -> Resolution {
    let value = lookup(notes, SNAPSHOT_TYPE_ANNOTATION@);
    let id = lookup(notes, TEMPLATE_ID_ANNOTATION@);
    let key = lookup(notes, TEMPLATE_KEY_ANNOTATION@);
    let pod_uid = lookup(notes, POD_UID_ANNOTATION@);
    let generation = lookup(notes, WORKLOAD_GENERATION_ANNOTATION@);
    if value is Some && annotated_type(value->0) is None {
        Err(ResolveError::UnknownType)
    } else if value is None && id is None && key is None && pod_uid is None {
        Ok(None)
    } else {
        let explicit = match value {
            Some(v) => annotated_type(v),
            None => None,
        };
        let no_template = names_one_of(
            explicit,
            SnapshotType::Environment,
            SnapshotType::Continuation,
        );
        let no_workload = names_one_of(explicit, SnapshotType::Environment, SnapshotType::WarmFork)
            || !config.enable_continuation_restore || pod_uid is None;
        if !no_workload {
            match generation {
                None => Ok(
                    Some(RestoreIntentView::Continuation { identity: (pod_uid->0, 0u64) }),
                ),
                Some(s) => match decimal_u64(s) {
                    Some(n) => Ok(
                        Some(RestoreIntentView::Continuation { identity: (pod_uid->0, n) }),
                    ),
                    None => Err(ResolveError::MalformedGeneration),
                },
            }
        } else if config.enable_warmfork_restore && !no_template && (id is Some || key is Some) {
            Ok(
                Some(
                    RestoreIntentView::WarmFork {
                        key: match key {
                            Some(k) => k,
                            None => id->0,
                        },
                        template_id: id,
                    },
                ),
            )
        } else {
            Ok(Some(RestoreIntentView::Nothing))
        }
    }
}

/// A workload is continued exactly where continuations are enabled, the pod names it and
/// names no other type; a template is forked where warm forks are enabled, the pod names
/// it and names no other type, under the key that is given or else under its id. Where
/// nothing is named, the annotations are left to others; what is named and not enabled
/// asks for nothing.
pub proof fn lemma_native_annotations(notes: Map<Seq<char>, Seq<char>>, config: SnapshotConfig)
    ensures
        ({
            let typed = notes.contains_key(SNAPSHOT_TYPE_ANNOTATION@);
            let named = |value: Seq<char>| typed && notes[SNAPSHOT_TYPE_ANNOTATION@] == value;
            let known = named("environment"@) || named("warm-fork"@) || named("continuation"@);
            let by_id = notes.contains_key(TEMPLATE_ID_ANNOTATION@);
            let by_key = notes.contains_key(TEMPLATE_KEY_ANNOTATION@);
            let by_pod = notes.contains_key(POD_UID_ANNOTATION@);
            let numbered = notes.contains_key(WORKLOAD_GENERATION_ANNOTATION@);
            let number = decimal_u64(notes[WORKLOAD_GENERATION_ANNOTATION@]);
            let continued = by_pod && config.enable_continuation_restore && (!typed || named(
                "continuation"@,
            ));
            let forked = !continued && (by_id || by_key) && config.enable_warmfork_restore && (
            !typed || named("warm-fork"@));
            let r = native_resolution(notes, config);
            &&& r == Err::<Option<RestoreIntentView>, ResolveError>(ResolveError::UnknownType)
                <==> typed && !known
            &&& typed && !known || {
                &&& r == Ok::<Option<RestoreIntentView>, ResolveError>(None) <==> !typed && !by_id
                    && !by_key && !by_pod
                &&& r is Err <==> continued && numbered && number is None
                &&& continued && (!numbered || number is Some) ==> r == Ok::<
                    Option<RestoreIntentView>,
                    ResolveError,
                >(
                    Some(
                        RestoreIntentView::Continuation {
                            identity: (
                                notes[POD_UID_ANNOTATION@],
                                if numbered {
                                    number->0
                                } else {
                                    0
                                },
                            ),
                        },
                    ),
                )
                &&& forked ==> r == Ok::<Option<RestoreIntentView>, ResolveError>(
                    Some(
                        RestoreIntentView::WarmFork {
                            key: if by_key {
                                notes[TEMPLATE_KEY_ANNOTATION@]
                            } else {
                                notes[TEMPLATE_ID_ANNOTATION@]
                            },
                            template_id: if by_id {
                                Some(notes[TEMPLATE_ID_ANNOTATION@])
                            } else {
                                None
                            },
                        },
                    ),
                )
                &&& !continued && !forked && (typed || by_id || by_key || by_pod) ==> r == Ok::<
                    Option<RestoreIntentView>,
                    ResolveError,
                >(Some(RestoreIntentView::Nothing))
            }
        }),
{
    if notes.contains_key(SNAPSHOT_TYPE_ANNOTATION@) {
        lemma_types_have_one_name(notes[SNAPSHOT_TYPE_ANNOTATION@]);
    }
    reveal_strlit("environment");
    reveal_strlit("warm-fork");
    reveal_strlit("continuation");
    assert("environment"@.len() == 11 && "warm-fork"@.len() == 9 && "continuation"@.len() == 12);
}

impl RestoreIntentResolver for KuasarNativeResolver {
    open spec fn resolution(
        &self,
        notes: Map<Seq<char>, Seq<char>>,
        config: SnapshotConfig,
    ) -> Resolution {
        native_resolution(notes, config)
    }

    open spec fn name_text(&self) -> Seq<char> {
        "kuasar-native"@
    }

    fn name(&self) -> (r: &str) {
        "kuasar-native"
    }

    fn resolve(&self, annotations: &StringMap, config: &SnapshotConfig) -> (r: Result<
        Option<RestoreIntent>,
        ResolveError,
    >) {
        let explicit_type = match annotations.get(SNAPSHOT_TYPE_ANNOTATION) {
            Some(value) => match SnapshotType::from_annotation(value.as_str()) {
                Some(t) => Some(t),
                None => {
                    return Err(ResolveError::UnknownType);
                },
            },
            None => None,
        };
        let own: bool = explicit_type.is_some() || annotations.contains_key(TEMPLATE_ID_ANNOTATION)
            || annotations.contains_key(TEMPLATE_KEY_ANNOTATION) || annotations.contains_key(
            POD_UID_ANNOTATION,
        );
        if !own {
            return Ok(None);
        }
        let no_template: bool = matches!(
            explicit_type,
            Some(SnapshotType::Environment) | Some(SnapshotType::Continuation)
        );
        let no_workload: bool = matches!(
            explicit_type,
            Some(SnapshotType::Environment) | Some(SnapshotType::WarmFork)
        );
        if !no_workload && config.enable_continuation_restore {
            if let Some(pod_uid) = annotations.get(POD_UID_ANNOTATION) {
                let generation: u64 = match annotations.get(WORKLOAD_GENERATION_ANNOTATION) {
                    None => 0,
                    Some(s) => match parse_u64(s.as_str()) {
                        Some(n) => n,
                        None => {
                            return Err(ResolveError::MalformedGeneration);
                        },
                    },
                };
                let identity = WorkloadIdentity { pod_uid: pod_uid.clone(), generation };
                return Ok(Some(RestoreIntent::Continuation { identity }));
            }
        }
        if config.enable_warmfork_restore && !no_template {
            let template_key = annotations.get(TEMPLATE_KEY_ANNOTATION);
            if let Some(tid) = annotations.get(TEMPLATE_ID_ANNOTATION) {
                let key = match template_key {
                    Some(k) => TemplateKey::user(k.as_str()),
                    None => TemplateKey::user(tid.as_str()),
                };
                return Ok(
                    Some(RestoreIntent::WarmFork { key, template_id: Some(tid.clone()) }),
                );
            }
            if let Some(k) = template_key {
                return Ok(
                    Some(
                        RestoreIntent::WarmFork {
                            key: TemplateKey::user(k.as_str()),
                            template_id: None,
                        },
                    ),
                );
            }
        }
        Ok(Some(RestoreIntent::Nothing))
    }
}

/// An annotation whose value is the key of the templates to start from.
pub struct AnnotationResolverConfig {
    pub snapshot_key_annotation: String,
}

/// Understands annotations that are named in the settings, in order.
pub struct MappingResolver {
    pub entries: Vec<AnnotationResolverConfig>,
}

/// The value of the first of the named annotations that a pod has.
pub open spec fn first_mapped(
    entries: Seq<AnnotationResolverConfig>,
    notes: Map<Seq<char>, Seq<char>>,
) -> Option<Seq<char>>
    decreases entries.len(),
{
    if entries.len() == 0 {
        None
    } else {
        match lookup(notes, entries[0].snapshot_key_annotation@) {
            Some(key) => Some(key),
            None => first_mapped(entries.drop_first(), notes),
        }
    }
}

/// The first of the named annotations that a pod has decides, whatever comes behind it;
/// where it has none of them, nothing is found.
pub proof fn lemma_first_annotation_decides(
    entries: Seq<AnnotationResolverConfig>,
    notes: Map<Seq<char>, Seq<char>>,
)
    ensures
        match first_mapped(entries, notes) {
            Some(key) => exists|i: int|
                {
                    &&& 0 <= i < entries.len()
                    &&& notes.contains_key((#[trigger] entries[i]).snapshot_key_annotation@)
                    &&& notes[entries[i].snapshot_key_annotation@] == key
                    &&& forall|k: int|
                        0 <= k < i ==> !notes.contains_key(
                            (#[trigger] entries[k]).snapshot_key_annotation@,
                        )
                },
            None => forall|k: int|
                0 <= k < entries.len() ==> !notes.contains_key(
                    (#[trigger] entries[k]).snapshot_key_annotation@,
                ),
        },
    decreases entries.len(),
{
    if entries.len() > 0 && !notes.contains_key(entries[0].snapshot_key_annotation@) {
        let rest = entries.drop_first();
        lemma_first_annotation_decides(rest, notes);
        if first_mapped(rest, notes) is Some {
            let i = choose|i: int|
                {
                    &&& 0 <= i < rest.len()
                    &&& notes.contains_key((#[trigger] rest[i]).snapshot_key_annotation@)
                    &&& notes[rest[i].snapshot_key_annotation@] == first_mapped(rest, notes)->0
                    &&& forall|k: int|
                        0 <= k < i ==> !notes.contains_key(
                            (#[trigger] rest[k]).snapshot_key_annotation@,
                        )
                };
            assert(entries[i + 1] == rest[i]);
            assert forall|k: int| 0 <= k < i + 1 implies !notes.contains_key(
                (#[trigger] entries[k]).snapshot_key_annotation@,
            ) by {
                if k > 0 {
                    assert(rest[k - 1] == entries[k]);
                }
            }
        } else {
            assert forall|k: int| 0 <= k < entries.len() implies !notes.contains_key(
                (#[trigger] entries[k]).snapshot_key_annotation@,
            ) by {
                if k > 0 {
                    assert(rest[k - 1] == entries[k]);
                }
            }
        }
    } else if entries.len() > 0 {
        assert(notes.contains_key(entries[0].snapshot_key_annotation@));
    }
}

impl MappingResolver {
    /// A resolver for the named annotations.
    pub fn new(entries: Vec<AnnotationResolverConfig>) -> (r: Self)
        ensures
            r.entries == entries,
    {
        MappingResolver { entries }
    }
}

impl RestoreIntentResolver for MappingResolver {
    open spec fn resolution(
        &self,
        notes: Map<Seq<char>, Seq<char>>,
        config: SnapshotConfig,
    ) -> Resolution {
        match first_mapped(self.entries@, notes) {
            Some(key) => if config.enable_warmfork_restore {
                Ok(Some(RestoreIntentView::WarmFork { key, template_id: None }))
            } else {
                Ok(None)
            },
            None => Ok(None),
        }
    }

    open spec fn name_text(&self) -> Seq<char> {
        "mapping"@
    }

    fn name(&self) -> (r: &str) {
        "mapping"
    }

    fn resolve(&self, annotations: &StringMap, config: &SnapshotConfig) -> (r: Result<
        Option<RestoreIntent>,
        ResolveError,
    >) {
        if !config.enable_warmfork_restore {
            return Ok(None);
        }
        let mut i: usize = 0;
        assert(self.entries@.skip(0) =~= self.entries@);
        while i < self.entries.len()
            invariant
                i <= self.entries@.len(),
                config.enable_warmfork_restore,
                first_mapped(self.entries@.skip(i as int), annotations@) == first_mapped(
                    self.entries@,
                    annotations@,
                ),
            decreases self.entries.len() - i,
        {
            if let Some(key) = annotations.get(self.entries[i].snapshot_key_annotation.as_str()) {
                return Ok(
                    Some(
                        RestoreIntent::WarmFork {
                            key: TemplateKey::user(key.as_str()),
                            template_id: None,
                        },
                    ),
                );
            }
            assert(self.entries@.skip(i as int).drop_first() =~= self.entries@.skip(i + 1));
            i = i + 1;
        }
        Ok(None)
    }
}

/// What a chain of resolvers makes of annotations: the first that claims them
/// decides, also where it finds them wrong. What nobody claims asks for nothing.
pub open spec fn chain_resolution(
    resolvers: Seq<Box<dyn RestoreIntentResolver>>,
    notes: Map<Seq<char>, Seq<char>>,
    config: SnapshotConfig,
) -> Result<RestoreIntentView, (Seq<char>, ResolveError)>
    decreases resolvers.len(),
{
    if resolvers.len() == 0 {
        Ok(RestoreIntentView::Nothing)
    } else {
        match resolvers[0].resolution(notes, config) {
            Ok(Some(view)) => Ok(view),
            Ok(None) => chain_resolution(resolvers.drop_first(), notes, config),
            Err(e) => Err((resolvers[0].name_text(), e)),
        }
    }
}

/// What a chain of resolvers makes of annotations. An error names the resolver
/// that found it.
pub fn resolve_chain(
    resolvers: &Vec<Box<dyn RestoreIntentResolver>>,
    annotations: &StringMap,
    config: &SnapshotConfig,
) -> (r: Result<RestoreIntent, (String, ResolveError)>)
    ensures
        match (r, chain_resolution(resolvers@, annotations@, *config)) {
            (Ok(intent), Ok(view)) => intent@ == view,
            (Err((name, e)), Err((text, f))) => name@ == text && e == f,
            _ => false,
        },
{
    let mut i: usize = 0;
    assert(resolvers@.skip(0) =~= resolvers@);
    while i < resolvers.len()
        invariant
            i <= resolvers@.len(),
            chain_resolution(resolvers@.skip(i as int), annotations@, *config)
                == chain_resolution(resolvers@, annotations@, *config),
        decreases resolvers.len() - i,
    {
        match resolvers[i].resolve(annotations, config) {
            Ok(Some(intent)) => {
                return Ok(intent);
            },
            Ok(None) => {},
            Err(e) => {
                return Err((resolvers[i].name().to_owned(), e));
            },
        }
        assert(resolvers@.skip(i as int).drop_first() =~= resolvers@.skip(i + 1));
        i = i + 1;
    }
    Ok(RestoreIntent::Nothing)
}

/// The first resolver that claims the annotations decides: those before it were
/// asked in vain, and those behind it are not asked.
pub proof fn lemma_first_claim_decides(
    resolvers: Seq<Box<dyn RestoreIntentResolver>>,
    notes: Map<Seq<char>, Seq<char>>,
    config: SnapshotConfig,
    i: int,
)
    requires
        0 <= i < resolvers.len(),
        forall|k: int|
            0 <= k < i ==> (#[trigger] resolvers[k]).resolution(notes, config) == Ok::<
                Option<RestoreIntentView>,
                ResolveError,
            >(None),
        resolvers[i].resolution(notes, config) != Ok::<Option<RestoreIntentView>, ResolveError>(
            None,
        ),
    ensures
        match resolvers[i].resolution(notes, config) {
            Ok(Some(view)) => chain_resolution(resolvers, notes, config) == Ok::<
                RestoreIntentView,
                (Seq<char>, ResolveError),
            >(view),
            Err(e) => chain_resolution(resolvers, notes, config) == Err::<
                RestoreIntentView,
                (Seq<char>, ResolveError),
            >((resolvers[i].name_text(), e)),
            Ok(None) => false,
        },
    decreases i,
{
    if i > 0 {
        let rest = resolvers.drop_first();
        assert(resolvers[0].resolution(notes, config) == Ok::<
            Option<RestoreIntentView>,
            ResolveError,
        >(None));
        assert forall|k: int| 0 <= k < i - 1 implies (#[trigger] rest[k]).resolution(notes, config)
            == Ok::<Option<RestoreIntentView>, ResolveError>(None) by {
            assert(rest[k] == resolvers[k + 1]);
        }
        assert(rest[i - 1] == resolvers[i]);
        lemma_first_claim_decides(rest, notes, config, i - 1);
    }
}

/// What no resolver claims asks for nothing.
pub proof fn lemma_unclaimed_asks_for_nothing(
    resolvers: Seq<Box<dyn RestoreIntentResolver>>,
    notes: Map<Seq<char>, Seq<char>>,
    config: SnapshotConfig,
)
    requires
        forall|k: int|
            0 <= k < resolvers.len() ==> (#[trigger] resolvers[k]).resolution(notes, config)
                == Ok::<Option<RestoreIntentView>, ResolveError>(None),
    ensures
        chain_resolution(resolvers, notes, config) == Ok::<
            RestoreIntentView,
            (Seq<char>, ResolveError),
        >(RestoreIntentView::Nothing),
    decreases resolvers.len(),
{
    if resolvers.len() > 0 {
        let rest = resolvers.drop_first();
        assert(resolvers[0].resolution(notes, config) == Ok::<
            Option<RestoreIntentView>,
            ResolveError,
        >(None));
        assert forall|k: int| 0 <= k < rest.len() implies (#[trigger] rest[k]).resolution(
            notes,
            config,
        ) == Ok::<Option<RestoreIntentView>, ResolveError>(None) by {
            assert(rest[k] == resolvers[k + 1]);
        }
        lemma_unclaimed_asks_for_nothing(rest, notes, config);
    }
}

} // verus!
