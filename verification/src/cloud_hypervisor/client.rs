//! Requests to the hypervisor's API.

use crate::json::{
    add_member, entry, last_value, lemma_added, lemma_last_value_push, lemma_list_view,
    lemma_record_of_plain, lemma_record_of_reads_back, list_view, member, members_plain,
    opt_text_value, ordered, parsed, plain, push_member, record, record_of, record_view,
    signed_number, text_of, to_compact, whole_number, Json, JsonNumber, JsonView,
};
use crate::text::{concat, concat3, lemma_without_prefix, strip_prefix, without_prefix};
use vstd::prelude::*;

verus! {

/// How long the hypervisor may take to open its API, in seconds.
pub const CLOUD_HYPERVISOR_START_TIMEOUT_IN_SEC: u64 = 10;

/// Whether to try again to connect to the hypervisor, `elapsed_secs` after the
/// first attempt.
pub fn may_retry_connect(elapsed_secs: u64) -> (r: bool)
    ensures
        r == (elapsed_secs <= CLOUD_HYPERVISOR_START_TIMEOUT_IN_SEC),
{
    elapsed_secs <= CLOUD_HYPERVISOR_START_TIMEOUT_IN_SEC
}

/// A request to the hypervisor's API; its method is `PUT`.
pub struct ApiRequest {
    pub command: String,
    pub body: Option<String>,
}

/// What a request says: the command and the value that its body is the text of.
pub open spec fn asks(r: ApiRequest, command: Seq<char>, body: Option<JsonView>) -> bool {
    &&& r.command@ == command
    &&& match (r.body, body) {
        (Some(text), Some(value)) => parsed(text@) == Some(value),
        (None, None) => true,
        _ => false,
    }
}

/// A network device that is to be hot-plugged.
pub struct NetConfig {
    pub id: String,
    pub tap: Option<String>,
    pub mac: Option<String>,
    pub fds: Vec<i32>,
    pub num_queues: Option<u32>,
}

/// The hypervisor's answer to a hot-plugged network device.
#[derive(Debug)]
pub struct AddNetResponse {
    pub id: String,
    pub bdf: String,
}

/// `s` without any `file://` at its beginning.
pub open spec fn bare_path(s: Seq<char>) -> Seq<char>
    decreases s.len(),
{
    match without_prefix(s, "file://"@) {
        Some(rest) => if rest.len() < s.len() {
            bare_path(rest)
        } else {
            s
        },
        None => s,
    }
}

fn strip_file_scheme(url: &str) -> (r: String)
    ensures
        r@ == bare_path(url@),
{
    let mut path = url.to_owned();
    let mut going: bool = true;
    proof {
        reveal_strlit("file://");
    }
    while going
        invariant
            "file://"@.len() == 7,
            bare_path(path@) == bare_path(url@),
            !going ==> path@ == bare_path(url@),
        decreases path@.len() + if going {
            1int
        } else {
            0int
        },
    {
        match strip_prefix(path.as_str(), "file://") {
            Some(rest) => {
                path = rest;
            },
            None => {
                going = false;
            },
        }
    }
    path
}

/// A list of descriptors as a member, where it is not empty.
pub open spec fn fds_value(fds: Seq<i32>) -> Option<JsonView> {
    if fds.len() > 0 {
        Some(
            JsonView::List(
                Seq::new(fds.len(), |i: int| JsonView::Number(signed_number(fds[i] as i64))),
            ),
        )
    } else {
        None
    }
}

/// No scheme is left before a path, however often it was there, and nothing else is taken
/// off.
pub proof fn lemma_bare_path(path: Seq<char>)
    ensures
        !"file://"@.is_prefix_of(bare_path(path)),
        bare_path("file://"@ + path) == bare_path(path),
        !"file://"@.is_prefix_of(path) ==> bare_path(path) == path,
        bare_path(path).is_suffix_of(path),
    decreases path.len(),
{
    reveal_strlit("file://");
    assert("file://"@.len() == 7);
    lemma_without_prefix(path, "file://"@, path);
    if "file://"@.is_prefix_of(path) {
        let rest = path.subrange(7, path.len() as int);
        lemma_bare_path(rest);
        assert(path.skip(path.len() - bare_path(rest).len()) =~= rest.skip(
            rest.len() - bare_path(rest).len(),
        ));
    } else {
        assert(path.skip(0) =~= path);
    }
}

/// Each descriptor is listed, in order; where there is none, there is no list.
pub proof fn lemma_descriptors_are_listed(fds: Seq<i32>, i: int)
    requires
        0 <= i < fds.len(),
    ensures
        fds_value(fds) matches Some(JsonView::List(items)) && items.len() == fds.len() && items[i]
            == JsonView::Number(signed_number(fds[i] as i64)),
        fds_value(Seq::empty()) is None,
{
}

fn list_of_fds(fds: &Vec<i32>) -> (r: Json)
    requires
        fds@.len() > 0,
    ensures
        Some(r@) == fds_value(fds@),
        ordered(r@),
        plain(r@, 99),
{
    let mut items: Vec<Json> = Vec::new();
    let mut i: usize = 0;
    while i < fds.len()
        invariant
            i <= fds@.len(),
            items@.len() == i,
            forall|k: int|
                0 <= k < i ==> (#[trigger] items@[k])@ == JsonView::Number(
                    signed_number(fds@[k] as i64),
                ),
        decreases fds.len() - i,
    {
        items.push(Json::Number(JsonNumber::from_i64(fds[i] as i64)));
        i = i + 1;
    }
    proof {
        lemma_list_view(items@);
        let view = list_view(items@);
        assert(view =~= Seq::new(
            fds@.len(),
            |k: int| JsonView::Number(signed_number(fds@[k] as i64)),
        ));
        assert(forall|k: int| 0 <= k < view.len() ==> ordered(#[trigger] view[k]));
        assert(forall|k: int| 0 <= k < view.len() ==> plain(#[trigger] view[k], 98));
    }
    Json::List(items)
}

/// The members of a network device's description: what is not set is left out.
pub open spec fn net_members(c: NetConfig) -> Seq<(Seq<char>, JsonView)> {
    let a = seq![("id"@, JsonView::Text(c.id@))];
    let b = add_member(a, "tap"@, opt_text_value(c.tap));
    let d = add_member(b, "mac"@, opt_text_value(c.mac));
    let e = add_member(d, "fds"@, fds_value(c.fds@));
    add_member(
        e,
        "num_queues"@,
        match c.num_queues {
            Some(n) => Some(JsonView::Number(whole_number(n as u64))),
            None => None,
        },
    )
}

proof fn lemma_net_member(c: NetConfig, key: Seq<char>)
    ensures
        member(record_of(net_members(c)), key) == (if key == "id"@ {
            Some(JsonView::Text(c.id@))
        } else if key == "tap"@ {
            opt_text_value(c.tap)
        } else if key == "mac"@ {
            opt_text_value(c.mac)
        } else if key == "fds"@ {
            fds_value(c.fds@)
        } else if key == "num_queues"@ {
            match c.num_queues {
                Some(n) => Some(JsonView::Number(whole_number(n as u64))),
                None => None,
            }
        } else {
            None
        }),
{
    reveal_strlit("id");
    reveal_strlit("tap");
    reveal_strlit("mac");
    reveal_strlit("fds");
    reveal_strlit("num_queues");
    assert("tap"@[0] == 't' && "mac"@[0] == 'm' && "fds"@[0] == 'f');
    assert("id"@.len() == 2);
    assert("tap"@.len() == 3);
    assert("mac"@.len() == 3);
    assert("fds"@.len() == 3);
    assert("num_queues"@.len() == 10);
    let none = Seq::<(Seq<char>, JsonView)>::empty();
    let a = none.push(("id"@, JsonView::Text(c.id@)));
    let b = add_member(a, "tap"@, opt_text_value(c.tap));
    let d = add_member(b, "mac"@, opt_text_value(c.mac));
    let e = add_member(d, "fds"@, fds_value(c.fds@));
    let queues = match c.num_queues {
        Some(n) => Some(JsonView::Number(whole_number(n as u64))),
        None => None,
    };
    lemma_last_value_push(none, "id"@, JsonView::Text(c.id@), key);
    lemma_added(a, "tap"@, opt_text_value(c.tap), key);
    lemma_added(b, "mac"@, opt_text_value(c.mac), key);
    lemma_added(d, "fds"@, fds_value(c.fds@), key);
    lemma_added(e, "num_queues"@, queues, key);
    assert(last_value(none, key) is None);
    assert(net_members(c) =~= add_member(e, "num_queues"@, queues));
    lemma_record_of_reads_back(net_members(c), key);
}

/// A network device is described by its id, and by its tap, address, descriptors and
/// queues exactly where those are set; nothing else is said of it.
pub proof fn lemma_network_device_is_described(c: NetConfig, other: Seq<char>)
    requires
        other != "id"@ && other != "tap"@ && other != "mac"@ && other != "fds"@ && other
            != "num_queues"@,
    ensures
        ({
            let told = |name: Seq<char>| member(record_of(net_members(c)), name);
            &&& told("id"@) == Some(JsonView::Text(c.id@))
            &&& match c.tap {
                Some(tap) => told("tap"@) == Some(JsonView::Text(tap@)),
                None => told("tap"@) is None,
            }
            &&& match c.mac {
                Some(mac) => told("mac"@) == Some(JsonView::Text(mac@)),
                None => told("mac"@) is None,
            }
            &&& told("fds"@) is Some <==> c.fds@.len() > 0
            &&& told("fds"@) == fds_value(c.fds@)
            &&& match c.num_queues {
                Some(n) => told("num_queues"@) == Some(JsonView::Number(whole_number(n as u64))),
                None => told("num_queues"@) is None,
            }
            &&& told(other) is None
        }),
{
    reveal_strlit("id");
    reveal_strlit("tap");
    reveal_strlit("mac");
    reveal_strlit("fds");
    reveal_strlit("num_queues");
    assert("tap"@[0] == 't' && "mac"@[0] == 'm' && "fds"@[0] == 'f');
    assert("id"@.len() == 2);
    assert("tap"@.len() == 3);
    assert("mac"@.len() == 3);
    assert("fds"@.len() == 3);
    assert("num_queues"@.len() == 10);
    lemma_net_member(c, "id"@);
    lemma_net_member(c, "tap"@);
    lemma_net_member(c, "mac"@);
    lemma_net_member(c, "fds"@);
    lemma_net_member(c, "num_queues"@);
    lemma_net_member(c, other);
}

fn request(command: &str, members: Vec<(String, Json)>) -> (r: ApiRequest)
    requires
        members_plain(record_view(members@), 99),
    ensures
        asks(r, command@, Some(record_of(record_view(members@)))),
{
    proof {
        lemma_record_of_plain(record_view(members@), 99);
    }
    let body = record(members);
    ApiRequest { command: command.to_owned(), body: Some(to_compact(&body)) }
}

/// A connection to the hypervisor's API. It says what is to be sent.
pub struct ChClient {
    pub socket_path: String,
}

impl ChClient {
    /// A connection to the API on a socket.
    pub fn new(socket_path: &str) -> (r: Self)
        ensures
            r.socket_path@ == socket_path@,
    {
        ChClient { socket_path: socket_path.to_owned() }
    }

    /// Asks to pause the guest. It must be paused before a snapshot.
    pub fn pause(&self) -> (r: ApiRequest)
        ensures
            asks(r, "pause"@, None),
    {
        ApiRequest { command: "pause".to_owned(), body: None }
    }

    /// Asks to let the guest go on.
    pub fn resume(&self) -> (r: ApiRequest)
        ensures
            asks(r, "resume"@, None),
    {
        ApiRequest { command: "resume".to_owned(), body: None }
    }

    /// Asks to write a snapshot.
    pub fn snapshot(&self, destination_url: &str) -> (r: ApiRequest)
        ensures
            asks(
                r,
                "snapshot"@,
                Some(record_of(seq![("destination_url"@, JsonView::Text(destination_url@))])),
            ),
    {
        let mut list: Vec<(String, Json)> = Vec::new();
        assert(record_view(list@) =~= Seq::<(Seq<char>, JsonView)>::empty());
        push_member(&mut list, "destination_url", Json::Text(destination_url.to_owned()));
        assert(record_view(list@) =~= seq![("destination_url"@, JsonView::Text(destination_url@))]);
        request("snapshot", list)
    }

    /// Asks to restore a snapshot. With `prefault` every page of its memory is loaded
    /// at once.
    pub fn restore(&self, source_url: &str, prefault: bool) -> (r: ApiRequest)
        ensures
            asks(
                r,
                "restore"@,
                Some(
                    record_of(
                        seq![
                            ("source_url"@, JsonView::Text(bare_path(source_url@))),
                            ("prefault"@, JsonView::Bool(prefault)),
                        ],
                    ),
                ),
            ),
    {
        let mut list: Vec<(String, Json)> = Vec::new();
        assert(record_view(list@) =~= Seq::<(Seq<char>, JsonView)>::empty());
        push_member(&mut list, "source_url", Json::Text(strip_file_scheme(source_url)));
        push_member(&mut list, "prefault", Json::Bool(prefault));
        assert(record_view(list@) =~= seq![
            ("source_url"@, JsonView::Text(bare_path(source_url@))),
            ("prefault"@, JsonView::Bool(prefault)),
        ]);
        request("restore", list)
    }

    /// Asks to hot-plug a block device.
    pub fn hot_attach(&self, id: &str, path: &str, read_only: bool) -> (r: ApiRequest)
        ensures
            asks(
                r,
                "vm.add-disk"@,
                Some(
                    record_of(
                        seq![
                            ("path"@, JsonView::Text(path@)),
                            ("readonly"@, JsonView::Bool(read_only)),
                            ("direct"@, JsonView::Bool(true)),
                            ("vhost_user"@, JsonView::Bool(false)),
                            ("vhost_socket"@, JsonView::Null),
                            ("id"@, JsonView::Text(id@)),
                        ],
                    ),
                ),
            ),
    {
        let mut list: Vec<(String, Json)> = Vec::new();
        assert(record_view(list@) =~= Seq::<(Seq<char>, JsonView)>::empty());
        push_member(&mut list, "path", Json::Text(path.to_owned()));
        push_member(&mut list, "readonly", Json::Bool(read_only));
        push_member(&mut list, "direct", Json::Bool(true));
        push_member(&mut list, "vhost_user", Json::Bool(false));
        push_member(&mut list, "vhost_socket", Json::Null);
        push_member(&mut list, "id", Json::Text(id.to_owned()));
        assert(record_view(list@) =~= seq![
            ("path"@, JsonView::Text(path@)),
            ("readonly"@, JsonView::Bool(read_only)),
            ("direct"@, JsonView::Bool(true)),
            ("vhost_user"@, JsonView::Bool(false)),
            ("vhost_socket"@, JsonView::Null),
            ("id"@, JsonView::Text(id@)),
        ]);
        request("vm.add-disk", list)
    }

    /// Asks to unplug a device.
    pub fn hot_detach(&self, device_id: &str) -> (r: ApiRequest)
        ensures
            asks(
                r,
                "remove-device"@,
                Some(record_of(seq![("id"@, JsonView::Text(device_id@))])),
            ),
    {
        let mut list: Vec<(String, Json)> = Vec::new();
        assert(record_view(list@) =~= Seq::<(Seq<char>, JsonView)>::empty());
        push_member(&mut list, "id", Json::Text(device_id.to_owned()));
        assert(record_view(list@) =~= seq![("id"@, JsonView::Text(device_id@))]);
        request("remove-device", list)
    }

    /// Asks to hot-plug a network device.
    pub fn add_net(&self, config: &NetConfig) -> (r: ApiRequest)
        ensures
            asks(r, "vm.add-net"@, Some(record_of(net_members(*config)))),
    {
        let mut list: Vec<(String, Json)> = Vec::new();
        assert(record_view(list@) =~= Seq::<(Seq<char>, JsonView)>::empty());
        push_member(&mut list, "id", Json::Text(config.id.clone()));
        assert(record_view(list@) =~= seq![("id"@, JsonView::Text(config.id@))]);
        if let Some(tap) = &config.tap {
            push_member(&mut list, "tap", Json::Text(tap.clone()));
        }
        if let Some(mac) = &config.mac {
            push_member(&mut list, "mac", Json::Text(mac.clone()));
        }
        if config.fds.len() > 0 {
            push_member(&mut list, "fds", list_of_fds(&config.fds));
        }
        if let Some(n) = config.num_queues {
            push_member(&mut list, "num_queues", Json::Number(JsonNumber::from_u64(n as u64)));
        }
        assert(record_view(list@) == net_members(*config));
        request("vm.add-net", list)
    }
}

/// The address of a hot-plugged block device, or what is said of why there is none.
/// `answer` is the text of the answer, where there is one, with the address that it says
/// or with what is said of why it cannot be read. There must be an answer.
pub fn hot_attached(answer: Option<(&str, Result<String, String>)>) -> (r: Result<String, String>)
    ensures
        match answer {
            None => r matches Err(message) && message@ == "no response body from server"@,
            Some((text, Ok(bdf))) => r matches Ok(address) && address@ == bdf@,
            Some((text, Err(said))) => r matches Err(message) && message@
                == "failed to unmarshal response "@ + text@ + ", "@ + said@,
        },
{
    match answer {
        None => Err("no response body from server".to_owned()),
        Some((_, Ok(bdf))) => Ok(bdf),
        Some((text, Err(said))) => {
            let mut message = concat3("failed to unmarshal response ", text, ", ");
            message.append(said.as_str());
            Err(message)
        },
    }
}

/// The hypervisor's answer to a hot-plugged network device, where the value that it
/// answered is one.
pub fn net_answer(answer: &Json) -> (r: Option<AddNetResponse>)
    ensures
        match r {
            Some(a) => text_of(entry(answer@, "id"@, 0, 2)) == Some(a.id@) && text_of(
                entry(answer@, "bdf"@, 1, 2),
            ) == Some(a.bdf@),
            None => text_of(entry(answer@, "id"@, 0, 2)) is None || text_of(
                entry(answer@, "bdf"@, 1, 2),
            ) is None,
        },
{
    match (answer.text_entry("id", 0, 2), answer.text_entry("bdf", 1, 2)) {
        (Some(id), Some(bdf)) => Some(AddNetResponse { id: id.clone(), bdf: bdf.clone() }),
        _ => None,
    }
}

/// The address of a hot-plugged network device, where there is an answer, or what is
/// said of an answer that cannot be read.
pub fn net_added(answer: Option<Result<AddNetResponse, String>>) -> (r: Result<
    Option<String>,
    String,
>)
    ensures
        match answer {
            None => r matches Ok(None),
            Some(Ok(a)) => r matches Ok(Some(bdf)) && bdf@ == a.bdf@,
            Some(Err(said)) => r matches Err(message) && message@
                == "failed to parse add-net response: "@ + said@,
        },
{
    match answer {
        None => Ok(None),
        Some(Ok(a)) => Ok(Some(a.bdf)),
        Some(Err(said)) => Err(concat("failed to parse add-net response: ", said.as_str())),
    }
}

} // verus!
