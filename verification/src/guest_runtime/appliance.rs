//! The protocol of appliance guests: the guest connects to the host, gets its
//! configuration, and reports over the connection.

use crate::json::{
    add_member, all_values_ordered, compact, last_value, lemma_added, lemma_last_value_push,
    lemma_member_reads_back, lemma_pairs_record_reads_back, lemma_record_of_ordered,
    lemma_record_of_plain, lemma_record_of_reads_back, list_of_texts, member, members_plain,
    opt_number_value, opt_text_value, pairs_record, parse, parsed, push_member, record, record_of,
    record_of_pairs, record_view, text_list, text_of, texts_in, texts_of_list, to_compact,
    whole_number, Json, JsonNumber, JsonView,
};
use crate::profile::{
    ANNOTATION_APPLIANCE_APP, ANNOTATION_APPLIANCE_ARGS, ANNOTATION_APPLIANCE_ENV_PREFIX,
    ANNOTATION_APPLIANCE_HEARTBEAT_MS, ANNOTATION_APPLIANCE_READY_CHECK,
    ANNOTATION_APPLIANCE_READY_TIMEOUT_MS,
};
use crate::sandbox::data::{annotations_of, lookup, SandboxData};
use crate::string_map::{lemma_entries, under_prefix, StringMap};
use crate::text::{
    copy_texts, decimal_u64, opt_text, parse_u64, same, strip_prefix, texts, trim_end, trimmed_end,
    without_prefix,
};
use vstd::prelude::*;

verus! {

/// How long the host waits for a guest to connect, in seconds.
pub const APPLIANCE_READY_TIMEOUT_SECS: u64 = 30;

/// The configuration that a guest gets once it has connected.
pub struct BootstrapPayload {
    /// `BOOTSTRAP`.
    pub message_type: &'static str,
    pub sandbox_id: String,
    /// The executable, an absolute path in the guest.
    pub app: String,
    pub args: Vec<String>,
    pub env: StringMap,
    pub hostname: Option<String>,
    pub dns_servers: Vec<String>,
    pub search_domains: Vec<String>,
    /// The interval between heartbeats; the guest has a default.
    pub heartbeat_interval_ms: Option<u64>,
    pub ready_check: Option<String>,
    pub ready_timeout_ms: Option<u64>,
}

/// `v`, where it is there and not empty.
pub open spec fn nonempty(v: Option<Seq<char>>) -> Option<Seq<char>> {
    match v {
        Some(s) => if s.len() > 0 {
            Some(s)
        } else {
            None
        },
        None => None,
    }
}

/// `v`, or `default` where it is absent or empty.
pub open spec fn nonempty_or(v: Option<Seq<char>>, default: Seq<char>) -> Seq<char> {
    match nonempty(v) {
        Some(s) => s,
        None => default,
    }
}

/// The number that an annotation writes, if it writes one.
pub open spec fn number_in(v: Option<Seq<char>>) -> Option<u64> {
    match v {
        Some(s) => decimal_u64(s),
        None => None,
    }
}

/// The strings of an annotation that is a JSON list of strings; none where it is
/// absent or anything else.
pub open spec fn arguments_in(v: Option<Seq<char>>) -> Seq<Seq<char>> {
    match v {
        Some(s) => match parsed(s) {
            Some(j) => match texts_in(j) {
                Some(list) => list,
                None => Seq::empty(),
            },
            None => Seq::empty(),
        },
        None => Seq::empty(),
    }
}

fn args_from(annotation: Option<&String>) -> (r: Vec<String>)
    ensures
        texts(r@) == arguments_in(
            match annotation {
                Some(v) => Some(v@),
                None => None,
            },
        ),
{
    if let Some(v) = annotation {
        if let Some(j) = parse(v.as_str()) {
            if let Some(list) = texts_of_list(j) {
                return list;
            }
        }
    }
    let none: Vec<String> = Vec::new();
    assert(texts(none@) =~= Seq::<Seq<char>>::empty());
    none
}

/// A value that may be absent, where it is there and not empty.
pub(crate) fn keep_nonempty(v: Option<&String>) -> (r: Option<String>)
    ensures
        opt_text(r) == nonempty(
            match v {
                Some(s) => Some(s@),
                None => None,
            },
        ),
{
    match v {
        Some(s) => if s.as_str().is_empty() {
            None
        } else {
            Some(s.clone())
        },
        None => None,
    }
}

/// Whether `p` is the payload for a pod: the executable is that of the
/// annotation, or `default_app` where the annotation is absent or empty, and
/// every other part is what the pod says.
pub open spec fn is_payload_for(
    p: BootstrapPayload,
    sandbox_id: Seq<char>,
    data: SandboxData,
    default_app: Seq<char>,
) -> bool {
    let notes = annotations_of(data);
    &&& p.message_type@ == "BOOTSTRAP"@
    &&& p.sandbox_id@ == sandbox_id
    &&& p.app@ == nonempty_or(lookup(notes, ANNOTATION_APPLIANCE_APP@), default_app)
    &&& texts(p.args@) == arguments_in(lookup(notes, ANNOTATION_APPLIANCE_ARGS@))
    &&& p.env@ == under_prefix(notes, ANNOTATION_APPLIANCE_ENV_PREFIX@)
    &&& opt_text(p.hostname) == (match data.config {
        Some(c) => nonempty(Some(c.hostname@)),
        None => None,
    })
    &&& texts(p.dns_servers@) == dns_servers_of(data)
    &&& texts(p.search_domains@) == dns_searches_of(data)
    &&& p.heartbeat_interval_ms == number_in(lookup(notes, ANNOTATION_APPLIANCE_HEARTBEAT_MS@))
    &&& opt_text(p.ready_check) == nonempty(lookup(notes, ANNOTATION_APPLIANCE_READY_CHECK@))
    &&& p.ready_timeout_ms == number_in(lookup(notes, ANNOTATION_APPLIANCE_READY_TIMEOUT_MS@))
}

impl BootstrapPayload {
    /// The payload for a pod. The executable is that of the annotation, or
    /// `default_app` where the annotation is absent or empty.
    pub fn from_sandbox_data(sandbox_id: &str, data: &SandboxData, default_app: &str) -> (r: Self)
        ensures
            is_payload_for(r, sandbox_id@, *data, default_app@),
    {
        let app = match keep_nonempty(data.annotation(ANNOTATION_APPLIANCE_APP)) {
            Some(app) => app,
            None => default_app.to_owned(),
        };
        let args = args_from(data.annotation(ANNOTATION_APPLIANCE_ARGS));
        let env = match &data.config {
            Some(config) => config.annotations.strip_keys(ANNOTATION_APPLIANCE_ENV_PREFIX),
            None => {
                let none = StringMap::new();
                assert(none@ =~= under_prefix(Map::empty(), ANNOTATION_APPLIANCE_ENV_PREFIX@));
                none
            },
        };
        let hostname = match &data.config {
            Some(config) => keep_nonempty(Some(&config.hostname)),
            None => None,
        };
        let mut dns_servers: Vec<String> = Vec::new();
        let mut search_domains: Vec<String> = Vec::new();
        assert(texts(dns_servers@) =~= Seq::<Seq<char>>::empty());
        if let Some(config) = &data.config {
            if let Some(dns) = &config.dns_config {
                dns_servers = copy_texts(&dns.servers);
                search_domains = copy_texts(&dns.searches);
            }
        }
        let heartbeat_interval_ms = match data.annotation(ANNOTATION_APPLIANCE_HEARTBEAT_MS) {
            Some(v) => parse_u64(v.as_str()),
            None => None,
        };
        let ready_check = keep_nonempty(data.annotation(ANNOTATION_APPLIANCE_READY_CHECK));
        let ready_timeout_ms = match data.annotation(ANNOTATION_APPLIANCE_READY_TIMEOUT_MS) {
            Some(v) => parse_u64(v.as_str()),
            None => None,
        };
        BootstrapPayload {
            message_type: "BOOTSTRAP",
            sandbox_id: sandbox_id.to_owned(),
            app,
            args,
            env,
            hostname,
            dns_servers,
            search_domains,
            heartbeat_interval_ms,
            ready_check,
            ready_timeout_ms,
        }
    }
}

/// The name servers of a pod.
pub open spec fn dns_servers_of(data: SandboxData) -> Seq<Seq<char>> {
    match data.config {
        Some(config) => match config.dns_config {
            Some(dns) => texts(dns.servers@),
            None => Seq::empty(),
        },
        None => Seq::empty(),
    }
}

/// The search domains of a pod.
pub open spec fn dns_searches_of(data: SandboxData) -> Seq<Seq<char>> {
    match data.config {
        Some(config) => match config.dns_config {
            Some(dns) => texts(dns.searches@),
            None => Seq::empty(),
        },
        None => Seq::empty(),
    }
}

// ── Messages to the guest ───────────────────────────────────────────────────

/// A list of strings as a member, where it is not empty.
pub open spec fn nonempty_list_value(v: Seq<String>) -> Option<JsonView> {
    if v.len() > 0 {
        Some(text_list(texts(v)))
    } else {
        None
    }
}

/// The members of a bootstrap message.
pub open spec fn bootstrap_members(p: BootstrapPayload) -> Seq<(Seq<char>, JsonView)> {
    let a = seq![
        ("type"@, JsonView::Text(p.message_type@)),
        ("sandbox_id"@, JsonView::Text(p.sandbox_id@)),
        ("app"@, JsonView::Text(p.app@)),
        ("args"@, text_list(texts(p.args@))),
        ("env"@, pairs_record(p.env.entries())),
    ];
    let b = add_member(a, "hostname"@, opt_text_value(p.hostname));
    let c = add_member(b, "dns_servers"@, nonempty_list_value(p.dns_servers@));
    let d = add_member(c, "search_domains"@, nonempty_list_value(p.search_domains@));
    let e = add_member(d, "heartbeat_interval_ms"@, opt_number_value(p.heartbeat_interval_ms));
    let f = add_member(e, "ready_check"@, opt_text_value(p.ready_check));
    add_member(f, "ready_timeout_ms"@, opt_number_value(p.ready_timeout_ms))
}

/// A message as the guest reads it: its compact text and the end of the line.
pub open spec fn line_of(members: Seq<(Seq<char>, JsonView)>) -> Seq<char> {
    compact(record_of(members)).push('\n')
}

/// Whether `line` is one line: a newline at its end and nowhere else.
pub open spec fn is_one_line(line: Seq<char>) -> bool {
    line.len() > 0 && line.last() == '\n' && !line.drop_last().contains('\n')
}

fn message_line(members: Vec<(String, Json)>) -> (r: String)
    requires
        all_values_ordered(record_view(members@)),
    ensures
        r@ == line_of(record_view(members@)),
        is_one_line(r@),
        members_plain(record_view(members@), 99) ==> parsed(r@.drop_last()) == Some(
            record_of(record_view(members@)),
        ),
{
    proof {
        lemma_record_of_ordered(record_view(members@));
        if members_plain(record_view(members@), 99) {
            lemma_record_of_plain(record_view(members@), 99);
        }
    }
    let json = record(members);
    let mut line = to_compact(&json);
    let ghost text = line@;
    line.push('\n');
    assert(line@.drop_last() =~= text);
    line
}

impl BootstrapPayload {
    /// The bootstrap message, a line of JSON. The guest reads back what was meant.
    pub fn to_json_line(&self) -> (r: String)
        ensures
            is_one_line(r@),
            parsed(r@.drop_last()) == Some(record_of(bootstrap_members(*self))),
    {
        let mut list: Vec<(String, Json)> = Vec::new();
        assert(record_view(list@) =~= Seq::<(Seq<char>, JsonView)>::empty());
        push_member(&mut list, "type", Json::Text(self.message_type.to_owned()));
        push_member(&mut list, "sandbox_id", Json::Text(self.sandbox_id.clone()));
        push_member(&mut list, "app", Json::Text(self.app.clone()));
        push_member(&mut list, "args", list_of_texts(&self.args));
        push_member(&mut list, "env", record_of_pairs(self.env.pairs()));
        assert(record_view(list@) =~= seq![
            ("type"@, JsonView::Text(self.message_type@)),
            ("sandbox_id"@, JsonView::Text(self.sandbox_id@)),
            ("app"@, JsonView::Text(self.app@)),
            ("args"@, text_list(texts(self.args@))),
            ("env"@, pairs_record(self.env.entries())),
        ]);
        if let Some(hostname) = &self.hostname {
            push_member(&mut list, "hostname", Json::Text(hostname.clone()));
        }
        if self.dns_servers.len() > 0 {
            push_member(&mut list, "dns_servers", list_of_texts(&self.dns_servers));
        }
        if self.search_domains.len() > 0 {
            push_member(&mut list, "search_domains", list_of_texts(&self.search_domains));
        }
        if let Some(ms) = self.heartbeat_interval_ms {
            push_member(&mut list, "heartbeat_interval_ms", Json::Number(JsonNumber::from_u64(ms)));
        }
        if let Some(check) = &self.ready_check {
            push_member(&mut list, "ready_check", Json::Text(check.clone()));
        }
        if let Some(ms) = self.ready_timeout_ms {
            push_member(&mut list, "ready_timeout_ms", Json::Number(JsonNumber::from_u64(ms)));
        }
        assert(record_view(list@) == bootstrap_members(*self));
        message_line(list)
    }
}

/// The members of the message that asks a guest to stop.
pub open spec fn shutdown_members(deadline_ms: u64) -> Seq<(Seq<char>, JsonView)> {
    seq![
        ("type"@, JsonView::Text("SHUTDOWN"@)),
        ("deadline_ms"@, JsonView::Number(whole_number(deadline_ms))),
    ]
}

/// The message that asks a guest to stop within `deadline_ms` milliseconds.
pub fn shutdown_line(deadline_ms: u64) -> (r: String)
    ensures
        r@ == line_of(shutdown_members(deadline_ms)),
        is_one_line(r@),
        parsed(r@.drop_last()) == Some(record_of(shutdown_members(deadline_ms))),
{
    let mut list: Vec<(String, Json)> = Vec::new();
    assert(record_view(list@) =~= Seq::<(Seq<char>, JsonView)>::empty());
    push_member(&mut list, "type", Json::Text("SHUTDOWN".to_owned()));
    push_member(&mut list, "deadline_ms", Json::Number(JsonNumber::from_u64(deadline_ms)));
    assert(record_view(list@) =~= shutdown_members(deadline_ms));
    message_line(list)
}

// ── Messages from the guest ─────────────────────────────────────────────────

/// The member of a message as a text, empty where it is none.
pub open spec fn text_or_empty(msg: JsonView, key: Seq<char>) -> Seq<char> {
    match text_of(member(msg, key)) {
        Some(s) => s,
        None => Seq::empty(),
    }
}

/// Why a guest failed, as far as its message says.
pub open spec fn fatal_reason(msg: JsonView) -> Seq<char> {
    match text_of(member(msg, "reason"@)) {
        Some(s) => s,
        None => "(no reason)"@,
    }
}

/// Why a guest is not ready.
pub enum HandshakeError {
    /// The address of the guest is no Unix socket.
    UnsupportedAddress,
    /// The guest sent something that is no JSON.
    InvalidJson,
    /// The guest is another one than expected.
    IdMismatch { expected: String, got: String },
    /// The guest failed.
    Fatal(String),
    /// The guest sent another message first.
    Unexpected(String),
}

/// What the error says.
pub enum HandshakeErrorView {
    UnsupportedAddress,
    InvalidJson,
    IdMismatch { expected: Seq<char>, got: Seq<char> },
    Fatal(Seq<char>),
    Unexpected(Seq<char>),
}

impl View for HandshakeError {
    type V = HandshakeErrorView;

    open spec fn view(&self) -> HandshakeErrorView {
        match *self {
            HandshakeError::UnsupportedAddress => HandshakeErrorView::UnsupportedAddress,
            HandshakeError::InvalidJson => HandshakeErrorView::InvalidJson,
            HandshakeError::IdMismatch { expected, got } => HandshakeErrorView::IdMismatch {
                expected: expected@,
                got: got@,
            },
            HandshakeError::Fatal(reason) => HandshakeErrorView::Fatal(reason@),
            HandshakeError::Unexpected(kind) => HandshakeErrorView::Unexpected(kind@),
        }
    }
}

/// What the first message of a guest means: ready, where it says so and names
/// the expected sandbox.
pub open spec fn handshake(expected: Seq<char>, msg: JsonView) -> Option<HandshakeErrorView> {
    let kind = text_or_empty(msg, "type"@);
    let id = text_or_empty(msg, "sandbox_id"@);
    if kind == "READY"@ {
        if id == expected {
            None
        } else {
            Some(HandshakeErrorView::IdMismatch { expected, got: id })
        }
    } else if kind == "FATAL"@ {
        Some(HandshakeErrorView::Fatal(fatal_reason(msg)))
    } else {
        Some(HandshakeErrorView::Unexpected(kind))
    }
}

fn text_or(msg: &Json, key: &str, default: &str) -> (r: String)
    ensures
        r@ == (match text_of(member(msg@, key@)) {
            Some(s) => s,
            None => default@,
        }),
{
    match msg.get_text(key) {
        Some(s) => s.clone(),
        None => default.to_owned(),
    }
}

/// Whether the first message of a guest says that it is ready.
pub fn check_ready(expected: &str, msg: &Json) -> (r: Result<(), HandshakeError>)
    ensures
        match r {
            Ok(()) => handshake(expected@, msg@) is None,
            Err(e) => handshake(expected@, msg@) == Some(e@),
        },
{
    proof {
        reveal_strlit("");
        assert(""@ =~= Seq::<char>::empty());
    }
    let kind = text_or(msg, "type", "");
    if same(kind.as_str(), "READY") {
        let got = text_or(msg, "sandbox_id", "");
        if same(got.as_str(), expected) {
            Ok(())
        } else {
            Err(HandshakeError::IdMismatch { expected: expected.to_owned(), got })
        }
    } else if same(kind.as_str(), "FATAL") {
        Err(HandshakeError::Fatal(text_or(msg, "reason", "(no reason)")))
    } else {
        Err(HandshakeError::Unexpected(kind))
    }
}

/// What the host does after it has read from a running guest.
#[derive(Clone, Copy, Debug, PartialEq, Eq, Structural)]
pub enum ForwardAction {
    /// Read on.
    Continue,
    /// Signal the exit of the sandbox and stop reading.
    SignalExit,
    /// Stop reading: the exit has been signalled elsewhere.
    Stop,
}

/// What the host gets when it reads from a running guest.
pub enum ForwardEvent {
    /// The guest closed the connection.
    Closed,
    /// Reading failed.
    ReadError,
    /// A line.
    Line(String),
    /// The exit of the sandbox was signalled.
    Exit,
}

/// What a message of a running guest leads to.
pub open spec fn after_message(msg: JsonView) -> ForwardAction {
    if text_or_empty(msg, "type"@) == "FATAL"@ {
        ForwardAction::SignalExit
    } else {
        ForwardAction::Continue
    }
}

/// What a message of a running guest leads to.
pub fn on_message(msg: &Json) -> (r: ForwardAction)
    ensures
        r == after_message(msg@),
{
    proof {
        reveal_strlit("");
        assert(""@ =~= Seq::<char>::empty());
    }
    let kind = text_or(msg, "type", "");
    if same(kind.as_str(), "FATAL") {
        ForwardAction::SignalExit
    } else {
        ForwardAction::Continue
    }
}

/// What the host does after it has read from a running guest. A line that is no
/// JSON is passed over.
pub fn on_forward_event(event: &ForwardEvent) -> (r: ForwardAction)
    ensures
        r == (match *event {
            ForwardEvent::Closed => ForwardAction::SignalExit,
            ForwardEvent::ReadError => ForwardAction::SignalExit,
            ForwardEvent::Exit => ForwardAction::Stop,
            ForwardEvent::Line(line) => match parsed(trimmed_end(line@)) {
                Some(msg) => after_message(msg),
                None => ForwardAction::Continue,
            },
        }),
{
    match event {
        ForwardEvent::Closed => ForwardAction::SignalExit,
        ForwardEvent::ReadError => ForwardAction::SignalExit,
        ForwardEvent::Exit => ForwardAction::Stop,
        ForwardEvent::Line(line) => {
            let text = trim_end(line.as_str());
            match parse(text.as_str()) {
                Some(msg) => on_message(&msg),
                None => ForwardAction::Continue,
            }
        },
    }
}

// ── The host's side of the connection ───────────────────────────────────────

/// Which halves of the connection to a guest the host holds.
#[derive(Clone, Copy, Debug, PartialEq, Eq, Structural)]
pub struct Connection {
    pub reader: bool,
    pub writer: bool,
}

/// The host's side of the protocol.
pub struct ApplianceRuntime {
    /// The sandbox that the guest must name.
    pub sandbox_id: String,
    /// The executable of a pod that names none.
    pub default_app: String,
    pub connection: Connection,
}

impl ApplianceRuntime {
    /// Not yet connected.
    pub fn new(sandbox_id: &str, default_app: &str) -> (r: Self)
        ensures
            r.sandbox_id@ == sandbox_id@,
            r.default_app@ == default_app@,
            !r.connection.reader && !r.connection.writer,
    {
        ApplianceRuntime {
            sandbox_id: sandbox_id.to_owned(),
            default_app: default_app.to_owned(),
            connection: Connection { reader: false, writer: false },
        }
    }

    /// The path of the socket on which to wait for the guest.
    pub fn socket_path(&self, address: &str) -> (r: Result<String, HandshakeError>)
        ensures
            match r {
                Ok(path) => without_prefix(address@, "unix://"@) == Some(path@),
                Err(e) => without_prefix(address@, "unix://"@) is None && e
                    is UnsupportedAddress,
            },
    {
        match strip_prefix(address, "unix://") {
            Some(path) => Ok(path),
            None => Err(HandshakeError::UnsupportedAddress),
        }
    }

    /// The message to send once the guest has connected.
    pub fn bootstrap(&self, data: &SandboxData) -> (r: String)
        ensures
            is_one_line(r@),
            exists|p: BootstrapPayload|
                is_payload_for(p, self.sandbox_id@, *data, self.default_app@) && parsed(
                    r@.drop_last(),
                ) == Some(record_of(#[trigger] bootstrap_members(p))),
    {
        let payload = BootstrapPayload::from_sandbox_data(
            self.sandbox_id.as_str(),
            data,
            self.default_app.as_str(),
        );
        let line = payload.to_json_line();
        assert(parsed(line@.drop_last()) == Some(record_of(bootstrap_members(payload))));
        line
    }

    /// Takes the first message of the guest. The connection is kept only where
    /// the guest is ready.
    pub fn accept(&mut self, msg: &Json) -> (r: Result<(), HandshakeError>)
        ensures
            match r {
                Ok(()) => handshake(old(self).sandbox_id@, msg@) is None
                    && final(self).connection.reader && final(self).connection.writer,
                Err(e) => handshake(old(self).sandbox_id@, msg@) == Some(e@)
                    && final(self).connection == old(self).connection,
            },
            final(self).sandbox_id == old(self).sandbox_id,
            final(self).default_app == old(self).default_app,
    {
        match check_ready(self.sandbox_id.as_str(), msg) {
            Ok(()) => {
                self.connection = Connection { reader: true, writer: true };
                Ok(())
            },
            Err(e) => Err(e),
        }
    }

    /// Takes the first line of the guest.
    pub fn accept_line(&mut self, line: &str) -> (r: Result<(), HandshakeError>)
        ensures
            match (r, parsed(trimmed_end(line@))) {
                (Err(e), None) => e is InvalidJson && final(self).connection
                    == old(self).connection,
                (Ok(()), Some(msg)) => handshake(old(self).sandbox_id@, msg) is None
                    && final(self).connection.reader && final(self).connection.writer,
                (Err(e), Some(msg)) => handshake(old(self).sandbox_id@, msg) == Some(e@)
                    && final(self).connection == old(self).connection,
                (Ok(()), None) => false,
            },
            final(self).sandbox_id == old(self).sandbox_id,
            final(self).default_app == old(self).default_app,
    {
        let text = trim_end(line);
        match parse(text.as_str()) {
            None => Err(HandshakeError::InvalidJson),
            Some(msg) => self.accept(&msg),
        }
    }

    /// Takes up a guest that ran through a restart of the host process. Nothing is
    /// asked of it: that its process lives was found out already.
    pub fn reconnect(&mut self) -> (r: Result<(), HandshakeError>)
        ensures
            r is Ok,
            *final(self) == *old(self),
    {
        Ok(())
    }

    /// Hands the reading half over to the task that watches the guest, once.
    /// Without a connection there is nothing to watch.
    pub fn take_reader(&mut self) -> (r: bool)
        ensures
            r == old(self).connection.reader,
            !final(self).connection.reader,
            final(self).connection.writer == old(self).connection.writer,
            final(self).sandbox_id == old(self).sandbox_id,
            final(self).default_app == old(self).default_app,
    {
        let had: bool = self.connection.reader;
        self.connection = Connection { reader: false, writer: self.connection.writer };
        had
    }

    /// The message to send on shutdown, where there is a connection to send it on.
    pub fn shutdown(&self, deadline_ms: u64) -> (r: Option<String>)
        ensures
            match r {
                Some(line) => self.connection.writer && line@ == line_of(
                    shutdown_members(deadline_ms),
                ),
                None => !self.connection.writer,
            },
    {
        if self.connection.writer {
            Some(shutdown_line(deadline_ms))
        } else {
            None
        }
    }
}

/// Every variable that the annotations of a pod set is in the bootstrap message
/// with its value, whatever characters the value holds.
pub proof fn lemma_bootstrap_carries_environment(p: BootstrapPayload, name: Seq<char>)
    ensures
        member(record_of(bootstrap_members(p)), "env"@) == Some(pairs_record(p.env.entries())),
        text_of(member(pairs_record(p.env.entries()), name)) == lookup(p.env@, name),
{
    lemma_bootstrap_carries_workload(p);
    lemma_entries(p.env);
    lemma_pairs_record_reads_back(p.env.entries(), name);
}

/// The bootstrap message says what it is, names the sandbox and the executable,
/// and carries the arguments.
pub proof fn lemma_bootstrap_carries_workload(p: BootstrapPayload)
    ensures
        member(record_of(bootstrap_members(p)), "type"@) == Some(JsonView::Text(p.message_type@)),
        member(record_of(bootstrap_members(p)), "sandbox_id"@) == Some(
            JsonView::Text(p.sandbox_id@),
        ),
        member(record_of(bootstrap_members(p)), "app"@) == Some(JsonView::Text(p.app@)),
        member(record_of(bootstrap_members(p)), "args"@) == Some(text_list(texts(p.args@))),
        member(record_of(bootstrap_members(p)), "env"@) == Some(pairs_record(p.env.entries())),
{
    lemma_bootstrap_names();
    lemma_bootstrap_member(p, "type"@);
    lemma_bootstrap_member(p, "sandbox_id"@);
    lemma_bootstrap_member(p, "app"@);
    lemma_bootstrap_member(p, "args"@);
    lemma_bootstrap_member(p, "env"@);
}

spec fn is_required_name(key: Seq<char>) -> bool {
    key == "type"@ || key == "sandbox_id"@ || key == "app"@ || key == "args"@ || key == "env"@
}

proof fn lemma_bootstrap_names()
    ensures
        "type"@ != "sandbox_id"@ && "type"@ != "app"@ && "type"@ != "args"@ && "type"@ != "env"@,
        "sandbox_id"@ != "app"@ && "sandbox_id"@ != "args"@ && "sandbox_id"@ != "env"@,
        "app"@ != "args"@ && "app"@ != "env"@ && "args"@ != "env"@,
        !is_required_name("hostname"@),
        !is_required_name("dns_servers"@),
        !is_required_name("search_domains"@),
        !is_required_name("heartbeat_interval_ms"@),
        !is_required_name("ready_check"@),
        !is_required_name("ready_timeout_ms"@),
{
    reveal_strlit("type");
    reveal_strlit("sandbox_id");
    reveal_strlit("app");
    reveal_strlit("args");
    reveal_strlit("env");
    reveal_strlit("hostname");
    reveal_strlit("dns_servers");
    reveal_strlit("search_domains");
    reveal_strlit("heartbeat_interval_ms");
    reveal_strlit("ready_check");
    reveal_strlit("ready_timeout_ms");
    assert("type"@.len() == 4 && "sandbox_id"@.len() == 10 && "app"@.len() == 3);
    assert("args"@.len() == 4 && "env"@.len() == 3 && "hostname"@.len() == 8);
    assert("dns_servers"@.len() == 11 && "search_domains"@.len() == 14);
    assert("heartbeat_interval_ms"@.len() == 21 && "ready_check"@.len() == 11);
    assert("ready_timeout_ms"@.len() == 16);
    assert("type"@[0] == 't' && "args"@[0] == 'a' && "app"@[0] == 'a' && "env"@[0] == 'e');
}

proof fn lemma_added_member(
    list: Seq<(Seq<char>, JsonView)>,
    name: Seq<char>,
    value: Option<JsonView>,
    key: Seq<char>,
)
    requires
        name != key,
    ensures
        last_value(add_member(list, name, value), key) == last_value(list, key),
{
    if let Some(v) = value {
        lemma_last_value_push(list, name, v, key);
    }
}

proof fn lemma_bootstrap_member(p: BootstrapPayload, key: Seq<char>)
    requires
        is_required_name(key),
    ensures
        member(record_of(bootstrap_members(p)), key) == (if key == "type"@ {
            Some(JsonView::Text(p.message_type@))
        } else if key == "sandbox_id"@ {
            Some(JsonView::Text(p.sandbox_id@))
        } else if key == "app"@ {
            Some(JsonView::Text(p.app@))
        } else if key == "args"@ {
            Some(text_list(texts(p.args@)))
        } else {
            Some(pairs_record(p.env.entries()))
        }),
{
    lemma_bootstrap_names();
    let none = Seq::<(Seq<char>, JsonView)>::empty();
    let l1 = none.push(("type"@, JsonView::Text(p.message_type@)));
    let l2 = l1.push(("sandbox_id"@, JsonView::Text(p.sandbox_id@)));
    let l3 = l2.push(("app"@, JsonView::Text(p.app@)));
    let l4 = l3.push(("args"@, text_list(texts(p.args@))));
    let l5 = l4.push(("env"@, pairs_record(p.env.entries())));
    lemma_last_value_push(none, "type"@, JsonView::Text(p.message_type@), key);
    lemma_last_value_push(l1, "sandbox_id"@, JsonView::Text(p.sandbox_id@), key);
    lemma_last_value_push(l2, "app"@, JsonView::Text(p.app@), key);
    lemma_last_value_push(l3, "args"@, text_list(texts(p.args@)), key);
    lemma_last_value_push(l4, "env"@, pairs_record(p.env.entries()), key);
    let b = add_member(l5, "hostname"@, opt_text_value(p.hostname));
    let c = add_member(b, "dns_servers"@, nonempty_list_value(p.dns_servers@));
    let d = add_member(c, "search_domains"@, nonempty_list_value(p.search_domains@));
    let e = add_member(d, "heartbeat_interval_ms"@, opt_number_value(p.heartbeat_interval_ms));
    let f = add_member(e, "ready_check"@, opt_text_value(p.ready_check));
    lemma_added_member(l5, "hostname"@, opt_text_value(p.hostname), key);
    lemma_added_member(b, "dns_servers"@, nonempty_list_value(p.dns_servers@), key);
    lemma_added_member(c, "search_domains"@, nonempty_list_value(p.search_domains@), key);
    lemma_added_member(d, "heartbeat_interval_ms"@, opt_number_value(p.heartbeat_interval_ms), key);
    lemma_added_member(e, "ready_check"@, opt_text_value(p.ready_check), key);
    lemma_added_member(f, "ready_timeout_ms"@, opt_number_value(p.ready_timeout_ms), key);
    assert(bootstrap_members(p) =~= add_member(
        f,
        "ready_timeout_ms"@,
        opt_number_value(p.ready_timeout_ms),
    ));
    lemma_record_of_reads_back(bootstrap_members(p), key);
}

proof fn lemma_bootstrap_setting(p: BootstrapPayload, key: Seq<char>)
    requires
        !is_required_name(key),
    ensures
        member(record_of(bootstrap_members(p)), key) == (if key == "hostname"@ {
            opt_text_value(p.hostname)
        } else if key == "dns_servers"@ {
            nonempty_list_value(p.dns_servers@)
        } else if key == "search_domains"@ {
            nonempty_list_value(p.search_domains@)
        } else if key == "heartbeat_interval_ms"@ {
            opt_number_value(p.heartbeat_interval_ms)
        } else if key == "ready_check"@ {
            opt_text_value(p.ready_check)
        } else if key == "ready_timeout_ms"@ {
            opt_number_value(p.ready_timeout_ms)
        } else {
            None
        }),
{
    reveal_strlit("type");
    reveal_strlit("sandbox_id");
    reveal_strlit("app");
    reveal_strlit("args");
    reveal_strlit("env");
    reveal_strlit("hostname");
    reveal_strlit("dns_servers");
    reveal_strlit("search_domains");
    reveal_strlit("heartbeat_interval_ms");
    reveal_strlit("ready_check");
    reveal_strlit("ready_timeout_ms");
    assert("type"@[0] == 't' && "args"@[0] == 'a');
    assert("app"@[0] == 'a' && "env"@[0] == 'e');
    assert("dns_servers"@[0] == 'd' && "ready_check"@[0] == 'r');
    assert("type"@.len() == 4);
    assert("sandbox_id"@.len() == 10);
    assert("app"@.len() == 3);
    assert("args"@.len() == 4);
    assert("env"@.len() == 3);
    assert("hostname"@.len() == 8);
    assert("dns_servers"@.len() == 11);
    assert("search_domains"@.len() == 14);
    assert("heartbeat_interval_ms"@.len() == 21);
    assert("ready_check"@.len() == 11);
    assert("ready_timeout_ms"@.len() == 16);
    let none = Seq::<(Seq<char>, JsonView)>::empty();
    let l1 = none.push(("type"@, JsonView::Text(p.message_type@)));
    let l2 = l1.push(("sandbox_id"@, JsonView::Text(p.sandbox_id@)));
    let l3 = l2.push(("app"@, JsonView::Text(p.app@)));
    let l4 = l3.push(("args"@, text_list(texts(p.args@))));
    let l5 = l4.push(("env"@, pairs_record(p.env.entries())));
    lemma_last_value_push(none, "type"@, JsonView::Text(p.message_type@), key);
    lemma_last_value_push(l1, "sandbox_id"@, JsonView::Text(p.sandbox_id@), key);
    lemma_last_value_push(l2, "app"@, JsonView::Text(p.app@), key);
    lemma_last_value_push(l3, "args"@, text_list(texts(p.args@)), key);
    lemma_last_value_push(l4, "env"@, pairs_record(p.env.entries()), key);
    assert(last_value(none, key) is None);
    assert(last_value(l5, key) is None);
    let b = add_member(l5, "hostname"@, opt_text_value(p.hostname));
    let c = add_member(b, "dns_servers"@, nonempty_list_value(p.dns_servers@));
    let d = add_member(c, "search_domains"@, nonempty_list_value(p.search_domains@));
    let e = add_member(d, "heartbeat_interval_ms"@, opt_number_value(p.heartbeat_interval_ms));
    let f = add_member(e, "ready_check"@, opt_text_value(p.ready_check));
    lemma_added(l5, "hostname"@, opt_text_value(p.hostname), key);
    lemma_added(b, "dns_servers"@, nonempty_list_value(p.dns_servers@), key);
    lemma_added(c, "search_domains"@, nonempty_list_value(p.search_domains@), key);
    lemma_added(d, "heartbeat_interval_ms"@, opt_number_value(p.heartbeat_interval_ms), key);
    lemma_added(e, "ready_check"@, opt_text_value(p.ready_check), key);
    lemma_added(f, "ready_timeout_ms"@, opt_number_value(p.ready_timeout_ms), key);
    assert(bootstrap_members(p) =~= add_member(
        f,
        "ready_timeout_ms"@,
        opt_number_value(p.ready_timeout_ms),
    ));
    lemma_record_of_reads_back(bootstrap_members(p), key);
}

/// The bootstrap message carries each setting that is made, under its own name, and does
/// not name one that is not made.
pub proof fn lemma_bootstrap_carries_settings(p: BootstrapPayload)
    ensures
        ({
            let told = |name: Seq<char>| member(record_of(bootstrap_members(p)), name);
            &&& match p.hostname {
                Some(name) => told("hostname"@) == Some(JsonView::Text(name@)),
                None => told("hostname"@) is None,
            }
            &&& match p.ready_check {
                Some(check) => told("ready_check"@) == Some(JsonView::Text(check@)),
                None => told("ready_check"@) is None,
            }
            &&& match p.heartbeat_interval_ms {
                Some(ms) => told("heartbeat_interval_ms"@) == Some(
                    JsonView::Number(whole_number(ms)),
                ),
                None => told("heartbeat_interval_ms"@) is None,
            }
            &&& match p.ready_timeout_ms {
                Some(ms) => told("ready_timeout_ms"@) == Some(JsonView::Number(whole_number(ms))),
                None => told("ready_timeout_ms"@) is None,
            }
            &&& told("dns_servers"@) is Some <==> p.dns_servers@.len() > 0
            &&& p.dns_servers@.len() > 0 ==> told("dns_servers"@) == Some(
                text_list(texts(p.dns_servers@)),
            )
            &&& told("search_domains"@) is Some <==> p.search_domains@.len() > 0
            &&& p.search_domains@.len() > 0 ==> told("search_domains"@) == Some(
                text_list(texts(p.search_domains@)),
            )
        }),
{
    lemma_bootstrap_names();
    reveal_strlit("hostname");
    reveal_strlit("dns_servers");
    reveal_strlit("search_domains");
    reveal_strlit("heartbeat_interval_ms");
    reveal_strlit("ready_check");
    reveal_strlit("ready_timeout_ms");
    assert("dns_servers"@[0] == 'd' && "ready_check"@[0] == 'r');
    assert("hostname"@.len() == 8);
    assert("dns_servers"@.len() == 11);
    assert("search_domains"@.len() == 14);
    assert("heartbeat_interval_ms"@.len() == 21);
    assert("ready_check"@.len() == 11);
    assert("ready_timeout_ms"@.len() == 16);
    lemma_bootstrap_setting(p, "hostname"@);
    lemma_bootstrap_setting(p, "dns_servers"@);
    lemma_bootstrap_setting(p, "search_domains"@);
    lemma_bootstrap_setting(p, "heartbeat_interval_ms"@);
    lemma_bootstrap_setting(p, "ready_check"@);
    lemma_bootstrap_setting(p, "ready_timeout_ms"@);
}

/// A guest gets what its pod says: the executable that the pod names, unless that is empty,
/// or else the usual one; exactly the variables that are annotated; its own name and name
/// servers; and the intervals that are written as numbers.
pub proof fn lemma_payload_is_what_the_pod_says(
    p: BootstrapPayload,
    sandbox_id: Seq<char>,
    data: SandboxData,
    default_app: Seq<char>,
    var: Seq<char>,
)
    requires
        is_payload_for(p, sandbox_id, data, default_app),
    ensures
        ({
            let notes = annotations_of(data);
            let named = notes.contains_key(ANNOTATION_APPLIANCE_APP@)
                && notes[ANNOTATION_APPLIANCE_APP@].len() > 0;
            let key = ANNOTATION_APPLIANCE_ENV_PREFIX@ + var;
            &&& p.sandbox_id@ == sandbox_id
            &&& p.message_type@ == "BOOTSTRAP"@
            &&& named ==> p.app@ == notes[ANNOTATION_APPLIANCE_APP@]
            &&& !named ==> p.app@ == default_app
            &&& p.env@.contains_key(var) <==> notes.contains_key(key)
            &&& notes.contains_key(key) ==> p.env@[var] == notes[key]
            &&& notes.contains_key(ANNOTATION_APPLIANCE_ARGS@) ==> texts(p.args@) == arguments_in(
                Some(notes[ANNOTATION_APPLIANCE_ARGS@]),
            )
            &&& !notes.contains_key(ANNOTATION_APPLIANCE_ARGS@) ==> p.args@.len() == 0
            &&& p.hostname is Some <==> data.config is Some && data.config->0.hostname@.len() > 0
            &&& p.hostname is Some ==> p.hostname->0@ == data.config->0.hostname@
            &&& data.config is Some && data.config->0.dns_config is Some ==> texts(p.dns_servers@)
                == texts(data.config->0.dns_config->0.servers@) && texts(p.search_domains@)
                == texts(data.config->0.dns_config->0.searches@)
            &&& notes.contains_key(ANNOTATION_APPLIANCE_HEARTBEAT_MS@)
                ==> p.heartbeat_interval_ms == decimal_u64(
                notes[ANNOTATION_APPLIANCE_HEARTBEAT_MS@],
            )
            &&& notes.contains_key(ANNOTATION_APPLIANCE_READY_TIMEOUT_MS@) ==> p.ready_timeout_ms
                == decimal_u64(notes[ANNOTATION_APPLIANCE_READY_TIMEOUT_MS@])
            &&& !notes.contains_key(ANNOTATION_APPLIANCE_HEARTBEAT_MS@)
                ==> p.heartbeat_interval_ms is None
            &&& !notes.contains_key(ANNOTATION_APPLIANCE_READY_TIMEOUT_MS@)
                ==> p.ready_timeout_ms is None
            &&& p.ready_check is Some <==> notes.contains_key(ANNOTATION_APPLIANCE_READY_CHECK@)
                && notes[ANNOTATION_APPLIANCE_READY_CHECK@].len() > 0
            &&& p.ready_check is Some ==> p.ready_check->0@
                == notes[ANNOTATION_APPLIANCE_READY_CHECK@]
        }),
{
    assert(texts(p.args@).len() == p.args@.len());
}

/// Arguments are those of a list of strings, in order, and none where the annotation is
/// anything else.
pub proof fn lemma_arguments_are_a_list(text: Seq<char>, i: int)
    ensures
        parsed(text) matches Some(JsonView::List(items)) && (forall|k: int|
            0 <= k < items.len() ==> (#[trigger] items[k]) is Text) ==> {
            let items = parsed(text)->0->List_0;
            &&& arguments_in(Some(text)).len() == items.len()
            &&& 0 <= i < items.len() ==> JsonView::Text(arguments_in(Some(text))[i]) == items[i]
        },
        parsed(text) is None ==> arguments_in(Some(text)).len() == 0,
        parsed(text) is Some && !(parsed(text)->0 is List) ==> arguments_in(Some(text)).len() == 0,
        arguments_in(None).len() == 0,
{
}

/// A guest is ready exactly where its first message says so and names the sandbox that is
/// expected; whatever else it says first is an error, and a failure is told with its
/// reason.
pub proof fn lemma_only_the_expected_guest_is_ready(expected: Seq<char>, msg: JsonView)
    requires
        expected.len() > 0,
    ensures
        ({
            let kind = text_of(member(msg, "type"@));
            let id = text_of(member(msg, "sandbox_id"@));
            let reason = text_of(member(msg, "reason"@));
            let r = handshake(expected, msg);
            &&& r is None <==> kind == Some("READY"@) && id == Some(expected)
            &&& r is Some && r->0 is IdMismatch <==> kind == Some("READY"@) && id != Some(expected)
            &&& r is Some && r->0 is Fatal <==> kind == Some("FATAL"@)
            &&& kind == Some("FATAL"@) && reason is Some ==> r == Some(
                HandshakeErrorView::Fatal(reason->0),
            )
            &&& after_message(msg) is SignalExit <==> kind == Some("FATAL"@)
            &&& after_message(msg) is SignalExit || after_message(msg) is Continue
        }),
{
    reveal_strlit("READY");
    reveal_strlit("FATAL");
    assert("READY"@.len() == 5 && "FATAL"@.len() == 5);
    assert("READY"@[0] == 'R' && "FATAL"@[0] == 'F');
}

/// A guest that is asked to stop is told how long it has.
pub proof fn lemma_shutdown_tells_the_deadline(deadline_ms: u64)
    ensures
        member(record_of(shutdown_members(deadline_ms)), "type"@) == Some(
            JsonView::Text("SHUTDOWN"@),
        ),
        member(record_of(shutdown_members(deadline_ms)), "deadline_ms"@) == Some(
            JsonView::Number(whole_number(deadline_ms)),
        ),
{
    reveal_strlit("type");
    reveal_strlit("deadline_ms");
    assert("type"@.len() == 4 && "deadline_ms"@.len() == 11);
    lemma_member_reads_back(shutdown_members(deadline_ms), 0);
    lemma_member_reads_back(shutdown_members(deadline_ms), 1);
}

} // verus!
