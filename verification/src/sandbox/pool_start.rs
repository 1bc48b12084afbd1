//! Starting a sandbox from the pool with a fresh boot to fall back to, and making
//! templates on demand.

use crate::json::{
    compact, lemma_member_reads_back, lemma_record_of_ordered, member, ordered, parse, parsed,
    push_member, record, record_of, record_view, text_of, to_compact, Json, JsonView,
};
use crate::sandbox::state::KuasarSandbox;
use crate::sandbox::template_pool::{LeaseEnd, Tally};
use crate::service::admin::{error_answer, error_reply, lemma_failure_is_told};
use crate::service::snapshot::{disk_views, DiskSnapshot};
use crate::storage::{image_path, storage_image, Storage, KUASAR_STATE_DIR};
use crate::template::{factory_key, FactorySettings, PooledTemplate, SnapshotMeta};
use crate::text::{concat, concat3, join_path, path_join, same};
use vstd::prelude::*;

verus! {

// ── Starting ────────────────────────────────────────────────────────────────

/// Whether a sandbox is started from the pool rather than booted afresh: where the
/// pool holds a template that fits.
pub fn starts_from_pool(pool_depth: Option<usize>) -> (r: bool)
    ensures
        r == (pool_depth matches Some(n) && n > 0),
{
    match pool_depth {
        Some(n) => n > 0,
        None => false,
    }
}

/// How an attempt to start a sandbox from the pool went.
#[derive(Clone, Copy, Debug, PartialEq, Eq, Structural)]
pub enum PoolAttempt {
    /// There is no pool.
    NoPool,
    /// The pool had no template after all.
    Miss,
    /// The files of the template are gone.
    FilesMissing,
    RestoreFailed,
    Restored,
}

/// What follows an attempt to start a sandbox from the pool.
#[derive(Clone, Copy, Debug, PartialEq, Eq, Structural)]
pub struct PoolVerdict {
    /// What becomes of the template.
    pub lease: LeaseEnd,
    pub tally: Tally,
    /// Whether the sandbox is booted afresh.
    pub boots_afresh: bool,
}

/// What follows an attempt to start a sandbox from the pool.
pub open spec fn pool_verdict(attempt: PoolAttempt) -> PoolVerdict {
    PoolVerdict {
        lease: match attempt {
            PoolAttempt::NoPool | PoolAttempt::Miss => LeaseEnd::Untaken,
            PoolAttempt::FilesMissing | PoolAttempt::RestoreFailed => LeaseEnd::Fail,
            PoolAttempt::Restored => LeaseEnd::Complete,
        },
        tally: match attempt {
            PoolAttempt::NoPool => Tally::Nothing,
            PoolAttempt::Restored => Tally::Hit,
            _ => Tally::Miss,
        },
        boots_afresh: !(attempt is Restored),
    }
}

/// What follows an attempt to start a sandbox from the pool: unless it was restored
/// the template goes back and the sandbox is booted afresh.
pub fn after_pool_attempt(attempt: PoolAttempt) -> (r: PoolVerdict)
    ensures
        r == pool_verdict(attempt),
{
    match attempt {
        PoolAttempt::NoPool => PoolVerdict {
            lease: LeaseEnd::Untaken,
            tally: Tally::Nothing,
            boots_afresh: true,
        },
        PoolAttempt::Miss => PoolVerdict {
            lease: LeaseEnd::Untaken,
            tally: Tally::Miss,
            boots_afresh: true,
        },
        PoolAttempt::FilesMissing | PoolAttempt::RestoreFailed => PoolVerdict {
            lease: LeaseEnd::Fail,
            tally: Tally::Miss,
            boots_afresh: true,
        },
        PoolAttempt::Restored => PoolVerdict {
            lease: LeaseEnd::Complete,
            tally: Tally::Hit,
            boots_afresh: false,
        },
    }
}

/// A sandbox always ends up started: restored or booted afresh, and never both. A
/// template that was taken goes back unless the sandbox lives on it.
pub proof fn lemma_pool_start_always_starts(attempt: PoolAttempt)
    ensures
        pool_verdict(attempt).boots_afresh <==> !(attempt is Restored),
        pool_verdict(attempt).lease is Complete <==> attempt is Restored,
        pool_verdict(attempt).tally is Hit <==> attempt is Restored,
        pool_verdict(attempt).lease is Fail <==> attempt is FilesMissing || attempt
            is RestoreFailed,
        pool_verdict(attempt).lease is Untaken <==> attempt is NoPool || attempt is Miss,
        pool_verdict(attempt).tally is Miss <==> !(attempt is Restored) && !(attempt is NoPool),
        pool_verdict(attempt).tally is Nothing <==> attempt is NoPool,
{
}

// ── Requests for templates ──────────────────────────────────────────────────

/// A request for a template.
pub enum TemplateRequest {
    /// Of a running sandbox.
    FromSandbox { sandbox_id: String, template_id: String },
    /// Of a fresh guest, with a container that was started from an image unless
    /// that is empty.
    FromImage { image: String, template_id: String },
    /// Something else; what is answered.
    Unknown(String),
}

/// A request for a template.
pub enum TemplateRequestView {
    FromSandbox { sandbox_id: Seq<char>, template_id: Seq<char> },
    FromImage { image: Seq<char>, template_id: Seq<char> },
    Unknown(Seq<char>),
}

impl View for TemplateRequest {
    type V = TemplateRequestView;

    open spec fn view(&self) -> TemplateRequestView {
        match *self {
            TemplateRequest::FromSandbox { sandbox_id, template_id } => {
                TemplateRequestView::FromSandbox {
                    sandbox_id: sandbox_id@,
                    template_id: template_id@,
                }
            },
            TemplateRequest::FromImage { image, template_id } => TemplateRequestView::FromImage {
                image: image@,
                template_id: template_id@,
            },
            TemplateRequest::Unknown(message) => TemplateRequestView::Unknown(message@),
        }
    }
}

/// Why a request is not even answered.
#[derive(Clone, Copy, Debug, PartialEq, Eq, Structural)]
pub enum TemplateRequestFault {
    /// It is no JSON.
    NotJson,
    NoSandboxId,
    NoTemplateId,
}

/// What a request asks for.
pub open spec fn template_request(req: JsonView) -> Result<
    TemplateRequestView,
    TemplateRequestFault,
> {
    let action = match text_of(member(req, "action"@)) {
        Some(a) => a,
        None => Seq::empty(),
    };
    let template_id = text_of(member(req, "template_id"@));
    if action == "from-sandbox"@ {
        match text_of(member(req, "sandbox_id"@)) {
            None => Err(TemplateRequestFault::NoSandboxId),
            Some(sandbox_id) => match template_id {
                None => Err(TemplateRequestFault::NoTemplateId),
                Some(template_id) => Ok(
                    TemplateRequestView::FromSandbox { sandbox_id, template_id },
                ),
            },
        }
    } else if action == "from-image"@ {
        match template_id {
            None => Err(TemplateRequestFault::NoTemplateId),
            Some(template_id) => Ok(
                TemplateRequestView::FromImage {
                    image: match text_of(member(req, "image"@)) {
                        Some(image) => image,
                        None => Seq::empty(),
                    },
                    template_id,
                },
            ),
        }
    } else {
        Ok(TemplateRequestView::Unknown("unknown action: "@ + action))
    }
}

/// A request is understood by its action: it names the sandbox or the image, and the
/// template, by the members that carry them. What lacks the name of a template, or of the
/// sandbox that it is to be made of, is not answered; what names another action is told so.
pub proof fn lemma_template_request(req: JsonView)
    ensures
        ({
            let text = |name: Seq<char>| text_of(member(req, name));
            let r = template_request(req);
            let of_sandbox = text("action"@) == Some("from-sandbox"@);
            let of_image = text("action"@) == Some("from-image"@);
            &&& r matches Ok(TemplateRequestView::FromSandbox { sandbox_id, template_id })
                ==> of_sandbox && text("sandbox_id"@) == Some(sandbox_id) && text("template_id"@)
                == Some(template_id)
            &&& r matches Ok(TemplateRequestView::FromImage { image, template_id }) ==> of_image
                && text("template_id"@) == Some(template_id) && (text("image"@) == Some(image) || (
            text("image"@) is None && image.len() == 0))
            &&& r matches Ok(TemplateRequestView::Unknown(message)) ==> !of_sandbox && !of_image
                && "unknown action: "@.is_prefix_of(message) && (text("action"@) matches Some(a)
                ==> a.is_suffix_of(message))
            &&& r is Err <==> ((of_sandbox && text("sandbox_id"@) is None) || ((of_sandbox
                || of_image) && text("template_id"@) is None))
            &&& r == Err::<TemplateRequestView, TemplateRequestFault>(
                TemplateRequestFault::NoSandboxId,
            ) <==> of_sandbox && text("sandbox_id"@) is None
        }),
{
    reveal_strlit("from-sandbox");
    reveal_strlit("from-image");
    let action = match text_of(member(req, "action"@)) {
        Some(a) => a,
        None => Seq::empty(),
    };
    let message = "unknown action: "@ + action;
    assert("from-sandbox"@.len() != "from-image"@.len());
    assert(message.take("unknown action: "@.len() as int) =~= "unknown action: "@);
    assert(message.skip(message.len() - action.len()) =~= action);
}

/// What a request asks for.
pub fn read_template_request(req: &Json) -> (r: Result<TemplateRequest, TemplateRequestFault>)
    ensures
        match r {
            Ok(request) => template_request(req@) == Ok::<
                TemplateRequestView,
                TemplateRequestFault,
            >(request@),
            Err(e) => template_request(req@) == Err::<TemplateRequestView, TemplateRequestFault>(e),
        },
{
    proof {
        reveal_strlit("");
        assert(""@ =~= Seq::<char>::empty());
    }
    let action = match req.get_text("action") {
        Some(a) => a.clone(),
        None => "".to_owned(),
    };
    if same(action.as_str(), "from-sandbox") {
        let sandbox_id = match req.get_text("sandbox_id") {
            Some(id) => id.clone(),
            None => {
                return Err(TemplateRequestFault::NoSandboxId);
            },
        };
        match req.get_text("template_id") {
            Some(id) => Ok(TemplateRequest::FromSandbox { sandbox_id, template_id: id.clone() }),
            None => Err(TemplateRequestFault::NoTemplateId),
        }
    } else if same(action.as_str(), "from-image") {
        let image = match req.get_text("image") {
            Some(image) => image.clone(),
            None => "".to_owned(),
        };
        match req.get_text("template_id") {
            Some(id) => Ok(TemplateRequest::FromImage { image, template_id: id.clone() }),
            None => Err(TemplateRequestFault::NoTemplateId),
        }
    } else {
        Ok(TemplateRequest::Unknown(concat("unknown action: ", action.as_str())))
    }
}

/// Reads a line that asks for a template.
pub fn parse_template_request(line: &str) -> (r: Result<TemplateRequest, TemplateRequestFault>)
    ensures
        match parsed(line@) {
            None => r == Err::<TemplateRequest, TemplateRequestFault>(
                TemplateRequestFault::NotJson,
            ),
            Some(req) => match r {
                Ok(request) => template_request(req) == Ok::<
                    TemplateRequestView,
                    TemplateRequestFault,
                >(request@),
                Err(e) => template_request(req) == Err::<TemplateRequestView, TemplateRequestFault>(
                    e,
                ),
            },
        },
{
    match parse(line) {
        Some(req) => read_template_request(&req),
        None => Err(TemplateRequestFault::NotJson),
    }
}

/// The answer to a request for a template: the template, or why there is none.
pub open spec fn template_answer_of(made: Result<Seq<char>, Seq<char>>) -> JsonView {
    match made {
        Ok(id) => record_of(
            seq![("ok"@, JsonView::Bool(true)), ("template_id"@, JsonView::Text(id))],
        ),
        Err(message) => error_answer(message),
    }
}

/// A template that was made is told by its id, and what failed by what is said of it.
pub proof fn lemma_made_template_is_told(made: Result<Seq<char>, Seq<char>>)
    ensures
        ({
            let answer = template_answer_of(made);
            &&& member(answer, "ok"@) == Some(JsonView::Bool(made is Ok))
            &&& made matches Ok(id) ==> member(answer, "template_id"@) == Some(JsonView::Text(id))
            &&& made matches Err(e) ==> member(answer, "error"@) == Some(JsonView::Text(e))
        }),
{
    reveal_strlit("ok");
    reveal_strlit("template_id");
    assert("ok"@.len() == 2);
    assert("template_id"@.len() == 11);
    match made {
        Ok(id) => {
            let members = seq![("ok"@, JsonView::Bool(true)), ("template_id"@, JsonView::Text(id))];
            lemma_member_reads_back(members, 0);
            lemma_member_reads_back(members, 1);
        },
        Err(e) => {
            lemma_failure_is_told(e);
        },
    }
}

/// The answer to a request for a template.
pub fn template_made(made: Result<&str, &str>) -> (r: Json)
    ensures
        r@ == template_answer_of(
            match made {
                Ok(id) => Ok(id@),
                Err(message) => Err(message@),
            },
        ),
        ordered(r@),
{
    match made {
        Ok(id) => {
            let mut members: Vec<(String, Json)> = Vec::new();
            push_member(&mut members, "ok", Json::Bool(true));
            push_member(&mut members, "template_id", Json::Text(id.to_owned()));
            proof {
                assert(record_view(members@) =~= seq![
                    ("ok"@, JsonView::Bool(true)),
                    ("template_id"@, JsonView::Text(id@)),
                ]);
                lemma_record_of_ordered(record_view(members@));
            }
            record(members)
        },
        Err(message) => error_reply(message),
    }
}

// ── Templates of running sandboxes ──────────────────────────────────────────

/// The disk behind a storage with an ext4 file system that was plugged in.
pub open spec fn ext4_disk(s: Storage, base_dir: Seq<char>) -> Option<(
    Seq<char>,
    Seq<char>,
    Seq<char>,
)> {
    match s.device_id {
        Some(device) => if s.fstype@ == "ext4"@ {
            Some((s.id@, device@, image_path(base_dir, s.id@)))
        } else {
            None
        },
        None => None,
    }
}

/// The disks behind storages with an ext4 file system, in order.
pub open spec fn ext4_disks(storages: Seq<Storage>, base_dir: Seq<char>) -> Seq<(
    Seq<char>,
    Seq<char>,
    Seq<char>,
)>
    decreases storages.len(),
{
    if storages.len() == 0 {
        Seq::empty()
    } else {
        let before = ext4_disks(storages.drop_last(), base_dir);
        match ext4_disk(storages.last(), base_dir) {
            Some(disk) => before.push(disk),
            None => before,
        }
    }
}

/// A template captures the disks behind exactly the storages with an ext4 file system that
/// were plugged in, wherever these stand: each with its own id, its own device and its own
/// image in the directory of the sandbox, in order, and nothing else.
pub proof fn lemma_every_ext4_disk_is_captured(storages: Seq<Storage>, base_dir: Seq<char>, i: int)
    requires
        0 <= i < storages.len(),
    ensures
        ext4_disks(storages, base_dir) == ext4_disks(storages.take(i), base_dir) + (if
        storages[i].fstype@ == "ext4"@ && storages[i].device_id is Some {
            seq![
                (
                    storages[i].id@,
                    storages[i].device_id->0@,
                    base_dir + "/"@ + storages[i].id@ + ".img"@,
                ),
            ]
        } else {
            Seq::empty()
        }) + ext4_disks(storages.skip(i + 1), base_dir),
        ext4_disks(Seq::empty(), base_dir).len() == 0,
    decreases storages.len(),
{
    let init = storages.drop_last();
    let s = storages[i];
    let own = if s.fstype@ == "ext4"@ && s.device_id is Some {
        seq![(s.id@, s.device_id->0@, base_dir + "/"@ + s.id@ + ".img"@)]
    } else {
        Seq::empty()
    };
    if i == storages.len() - 1 {
        assert(storages.take(i) =~= init);
        assert(storages.skip(i + 1) =~= Seq::<Storage>::empty());
    } else {
        lemma_every_ext4_disk_is_captured(init, base_dir, i);
        assert(init.take(i) =~= storages.take(i));
        assert(storages.skip(i + 1).drop_last() =~= init.skip(i + 1));
        assert(storages.skip(i + 1).last() == storages.last());
    }
    assert(ext4_disks(storages, base_dir) =~= ext4_disks(storages.take(i), base_dir) + own
        + ext4_disks(storages.skip(i + 1), base_dir));
}

/// The disks of a sandbox that a template captures: those with an ext4 file system
/// that were plugged in.
pub fn template_disks(sandbox: &KuasarSandbox) -> (r: Vec<DiskSnapshot>)
    ensures
        disk_views(r@) == ext4_disks(sandbox.storages@, sandbox.base_dir@),
{
    let storages = &sandbox.storages;
    let ghost base_dir = sandbox.base_dir@;
    let mut out: Vec<DiskSnapshot> = Vec::new();
    let mut i: usize = 0;
    assert(storages@.take(0) =~= Seq::<Storage>::empty());
    assert(disk_views(out@) =~= ext4_disks(storages@.take(0), base_dir));
    while i < storages.len()
        invariant
            i <= storages@.len(),
            *storages == sandbox.storages,
            base_dir == sandbox.base_dir@,
            disk_views(out@) == ext4_disks(storages@.take(i as int), base_dir),
        decreases storages.len() - i,
    {
        let s = &storages[i];
        proof {
            assert(storages@.take(i + 1).drop_last() =~= storages@.take(i as int));
            assert(storages@.take(i + 1).last() == *s);
        }
        if let Some(device) = &s.device_id {
            if same(s.fstype.as_str(), "ext4") {
                let ghost before = out@;
                let disk = DiskSnapshot {
                    storage_id: s.id.clone(),
                    device_id: device.clone(),
                    img_path: storage_image(sandbox.base_dir.as_str(), s.id.as_str()),
                };
                out.push(disk);
                assert(disk_views(out@) =~= disk_views(before).push(
                    (s.id@, device@, image_path(base_dir, s.id@)),
                ));
            }
        }
        i = i + 1;
    }
    assert(storages@.take(i as int) =~= storages@);
    out
}

/// The template of a running sandbox that a factory booted. It goes on giving out ids
/// where the sandbox was, and its namespaces are set up already.
pub fn sandbox_template(
    factory: FactorySettings,
    template_id: &str,
    sandbox: &KuasarSandbox,
    meta: SnapshotMeta,
    created_at_secs: u64,
) -> (r: PooledTemplate)
    ensures
        r.id@ == template_id@,
        r.key.key@ == factory_key(factory),
        r.snapshot_type is Environment,
        r.created_at_secs == created_at_secs,
        r.snapshot_dir == meta.snapshot_dir,
        r.pmem_path == factory.boot.image_path,
        r.kernel_path == factory.boot.kernel_path,
        r.vcpus == factory.boot.vcpus,
        r.memory_mb == factory.boot.memory_mb,
        r.id_generator == sandbox.id_generator,
        r.ns_preinitialized,
        r.original_task_vsock == meta.original_task_vsock,
        r.original_console_path == meta.original_console_path,
        r.ready_protocol_version is None,
        r.warm_fork_targets@.len() == 0,
        r.disk_images == meta.disk_images,
        r.storages@.len() == 0,
        r.snapshot_containers@.len() == 0,
        r.orphan_container_ids@.len() == 0,
        r.netns@.len() == 0,
        r.workload_identity is None,
{
    let paths = SnapshotMeta {
        snapshot_dir: meta.snapshot_dir,
        original_task_vsock: meta.original_task_vsock,
        original_console_path: meta.original_console_path,
        disk_images: Vec::new(),
    };
    let mut template = factory.environment_template(template_id, paths, created_at_secs);
    template.id_generator = sandbox.id_generator;
    template.ns_preinitialized = true;
    template.disk_images = meta.disk_images;
    template
}

/// The directory of a template, and that of its snapshot.
pub fn template_snapshot_dir(store_dir: &str, template_id: &str) -> (r: (String, String))
    ensures
        r.0@ == path_join(store_dir@, template_id@),
        r.1@ == path_join(path_join(store_dir@, template_id@), "snapshot"@),
{
    let base = join_path(store_dir, template_id);
    let snapshot = join_path(base.as_str(), "snapshot");
    (base, snapshot)
}

// ── Warming up ──────────────────────────────────────────────────────────────

/// A container that is started in a guest before its template is made.
pub struct WarmupContainer {
    pub container_id: String,
    /// Its directory in the guest.
    pub bundle: String,
    /// The command that makes the directory.
    pub mkdir: String,
    /// The command that writes the configuration, which it reads from its input.
    pub push: String,
    pub config: String,
}

/// What a warm-up container is configured with, up to the image.
pub const WARMUP_HEAD: &'static str = "{\n  \"ociVersion\": \"1.0.0\",\n  \"process\": {\n    \"terminal\": false,\n    \"user\": {\"uid\": 0, \"gid\": 0},\n    \"args\": [\"/bin/sh\", \"-c\", \"exec sleep infinity\"],\n    \"env\": [\"PATH=/usr/local/sbin:/usr/local/bin:/usr/sbin:/usr/bin:/sbin:/bin\"],\n    \"cwd\": \"/\"\n  },\n  \"root\": {\"path\": \"/\", \"readonly\": false},\n  \"linux\": {\"namespaces\": []},\n  \"annotations\": {\n    \"io.kuasar.storages\": \"[]\",\n    \"io.kuasar.template.image\": ";

/// What a warm-up container is configured with, behind the image.
pub const WARMUP_TAIL: &'static str = "\n  }\n}";

/// A configuration that runs a container which only sleeps. It has no storages,
/// and says so, so that the guest does not look for a list of them.
pub fn minimal_warmup_oci_spec(image: &str) -> (r: String)
    ensures
        r@ == WARMUP_HEAD@ + compact(JsonView::Text(image@)) + WARMUP_TAIL@,
{
    let quoted = to_compact(&Json::Text(image.to_owned()));
    concat3(WARMUP_HEAD, quoted.as_str(), WARMUP_TAIL)
}

/// The container that warms up a guest. Without an image there is none.
pub fn warmup_container(template_id: &str, image: &str) -> (r: Option<WarmupContainer>)
    ensures
        match r {
            Some(w) => {
                &&& image@.len() > 0
                &&& w.container_id@ == "warmup-"@ + template_id@
                &&& w.bundle@ == KUASAR_STATE_DIR@ + "/"@ + w.container_id@
                &&& w.mkdir@ == "mkdir -p "@ + w.bundle@
                &&& w.push@ == "cat > "@ + w.bundle@ + "/config.json"@
                &&& w.config@ == WARMUP_HEAD@ + compact(JsonView::Text(image@)) + WARMUP_TAIL@
            },
            None => image@.len() == 0,
        },
{
    if image.is_empty() {
        return None;
    }
    let container_id = concat("warmup-", template_id);
    let bundle = concat3(KUASAR_STATE_DIR, "/", container_id.as_str());
    let mkdir = concat("mkdir -p ", bundle.as_str());
    let push = concat3("cat > ", bundle.as_str(), "/config.json");
    Some(
        WarmupContainer {
            container_id,
            bundle,
            mkdir,
            push,
            config: minimal_warmup_oci_spec(image),
        },
    )
}

} // verus!
