//! The files of a sandbox, and how they get into the guest.

use crate::cloud_hypervisor::hooks::{resources_of, vcpu_limit, vcpus_of};
use crate::guest_runtime::appliance::keep_nonempty;
use crate::sandbox::data::{NamespaceMode, SandboxData};
use crate::storage::KUASAR_STATE_DIR;
use crate::text::{concat, concat3, join, joined, texts};
use vstd::prelude::*;

verus! {

/// The file with the name of a sandbox.
pub const HOSTNAME_FILENAME: &'static str = "hostname";

/// The file with the names that a sandbox knows.
pub const HOSTS_FILENAME: &'static str = "hosts";

/// The file with the name service settings of a sandbox.
pub const RESOLV_FILENAME: &'static str = "resolv.conf";

/// Where the name service settings are looked for.
pub const ETC_RESOLV: &'static str = "/etc/resolv.conf";

/// One line of name service settings, where there is anything to say.
pub open spec fn resolv_line(
    word: Seq<char>,
    values: Seq<Seq<char>>,
    between: Seq<char>,
) -> Seq<char> {
    if values.len() == 0 {
        Seq::empty()
    } else {
        word + joined(values, between) + "\n"@
    }
}

/// Name service settings as a file: the search domains, a line for each server,
/// and the options.
pub open spec fn resolv_text(
    servers: Seq<Seq<char>>,
    searches: Seq<Seq<char>>,
    options: Seq<Seq<char>>,
) -> Seq<char> {
    resolv_line("search "@, searches, " "@) + resolv_line(
        "nameserver "@,
        servers,
        "\nnameserver "@,
    ) + resolv_line("options "@, options, " "@)
}

fn push_line(content: &mut String, word: &str, values: &Vec<String>, between: &str)
    ensures
        final(content)@ == old(content)@ + resolv_line(word@, texts(values@), between@),
{
    let ghost before = content@;
    if values.len() > 0 {
        let list = join(values, between);
        content.append(word);
        content.append(list.as_str());
        content.append("\n");
        assert(content@ =~= before + (word@ + list@ + "\n"@));
    } else {
        assert(content@ =~= before + Seq::<char>::empty());
    }
}

/// Name service settings as a file. Where nothing is set the file is empty.
pub fn parse_dnsoptions(
    servers: &Vec<String>,
    searches: &Vec<String>,
    options: &Vec<String>,
) -> (r: String)
    ensures
        r@ == resolv_text(texts(servers@), texts(searches@), texts(options@)),
{
    let mut content = String::new();
    push_line(&mut content, "search ", searches, " ");
    assert(content@ =~= resolv_line("search "@, texts(searches@), " "@));
    push_line(&mut content, "nameserver ", servers, "\nnameserver ");
    push_line(&mut content, "options ", options, " ");
    content
}

/// The file is empty exactly where nothing is set.
pub proof fn lemma_resolv_empty_iff_nothing_set(
    servers: Seq<Seq<char>>,
    searches: Seq<Seq<char>>,
    options: Seq<Seq<char>>,
)
    ensures
        resolv_text(servers, searches, options).len() == 0 <==> servers.len() == 0
            && searches.len() == 0 && options.len() == 0,
{
    reveal_strlit("search ");
    reveal_strlit("nameserver ");
    reveal_strlit("options ");
    assert("search "@.len() == 7 && "nameserver "@.len() == 11 && "options "@.len() == 8);
}

/// The file holds the search domains first, then the servers, then the options. Each
/// server has a line of its own, in order; the search domains have one line, and so have
/// the options.
pub proof fn lemma_every_server_has_a_line(
    servers: Seq<Seq<char>>,
    searches: Seq<Seq<char>>,
    options: Seq<Seq<char>>,
    server: Seq<char>,
)
    ensures
        ({
            let none = Seq::<Seq<char>>::empty();
            &&& resolv_text(servers, searches, options) == resolv_text(none, searches, none)
                + resolv_text(servers, none, none) + resolv_text(none, none, options)
            &&& resolv_text(servers.push(server), none, none) == resolv_text(servers, none, none)
                + "nameserver "@ + server + "\n"@
            &&& searches.len() > 0 ==> resolv_text(none, searches, none) == "search "@ + joined(
                searches,
                " "@,
            ) + "\n"@
            &&& options.len() > 0 ==> resolv_text(none, none, options) == "options "@ + joined(
                options,
                " "@,
            ) + "\n"@
            &&& resolv_text(none, none, none).len() == 0
        }),
{
    let none = Seq::<Seq<char>>::empty();
    reveal_strlit("\nnameserver ");
    reveal_strlit("nameserver ");
    reveal_strlit("\n");
    assert("\nnameserver "@ =~= "\n"@ + "nameserver "@);
    assert(resolv_text(servers, searches, options) =~= resolv_text(none, searches, none)
        + resolv_text(servers, none, none) + resolv_text(none, none, options));
    let more = servers.push(server);
    assert(more.drop_last() =~= servers);
    assert(more.last() == server);
    if servers.len() > 0 {
        assert(joined(more, "\nnameserver "@) =~= joined(servers, "\nnameserver "@) + "\n"@
            + "nameserver "@ + server);
    }
    assert(resolv_text(more, none, none) =~= resolv_text(servers, none, none) + "nameserver "@
        + server + "\n"@);
    assert(resolv_text(none, searches, none) =~= resolv_line("search "@, searches, " "@));
    assert(resolv_text(none, none, options) =~= resolv_line("options "@, options, " "@));
}

/// The name of a sandbox: that of the pod, or that of the host where the pod has
/// none.
pub open spec fn hostname_of(data: SandboxData, host_name: Seq<char>) -> Seq<char> {
    match data.config {
        Some(c) => if c.hostname@.len() > 0 {
            c.hostname@
        } else {
            host_name
        },
        None => host_name,
    }
}

/// A sandbox has the name that its pod gives it, and that of the host where this is empty
/// or there is none.
pub proof fn lemma_name_of_a_sandbox(data: SandboxData, host_name: Seq<char>)
    ensures
        data.config is Some && data.config->0.hostname@.len() > 0 ==> hostname_of(data, host_name)
            == data.config->0.hostname@,
        data.config is None || data.config->0.hostname@.len() == 0 ==> hostname_of(data, host_name)
            == host_name,
{
}

/// The file with the name of a sandbox, on a host of the given name.
pub fn hostname_file(data: &SandboxData, host_name: &str) -> (r: String)
    ensures
        r@ == hostname_of(*data, host_name@).push('\n'),
{
    let own = match &data.config {
        Some(config) => keep_nonempty(Some(&config.hostname)),
        None => None,
    };
    let mut name = match own {
        Some(name) => name,
        None => host_name.to_owned(),
    };
    name.push('\n');
    name
}

/// The file with the name service settings of a sandbox, or `None` where it gets
/// that of the host.
pub fn resolv_file(data: &SandboxData) -> (r: Option<String>)
    ensures
        match data.config {
            Some(c) => match c.dns_config {
                Some(dns) => {
                    let text = resolv_text(
                        texts(dns.servers@),
                        texts(dns.searches@),
                        texts(dns.options@),
                    );
                    match r {
                        Some(content) => content@ == text && text.len() > 0,
                        None => text.len() == 0,
                    }
                },
                None => r is None,
            },
            None => r is None,
        },
{
    if let Some(config) = &data.config {
        if let Some(dns) = &config.dns_config {
            let content = parse_dnsoptions(&dns.servers, &dns.searches, &dns.options);
            if !content.as_str().is_empty() {
                return Some(content);
            }
        }
    }
    None
}

/// Whether the containers of a pod see each other's processes.
pub fn has_shared_pid_namespace(data: &SandboxData) -> (r: bool)
    ensures
        r == (match data.config {
            Some(c) => c.pid_namespace == Some(NamespaceMode::Pod),
            None => false,
        }),
{
    match &data.config {
        Some(config) => matches!(config.pid_namespace, Some(NamespaceMode::Pod)),
        None => false,
    }
}

/// The number of queues of a network interface: one for each processor that the
/// pod may use, and at least one.
pub fn network_queues(data: &SandboxData) -> (r: u32)
    ensures
        r == (match data.config {
            Some(c) => match c.resources {
                Some(l) => match vcpu_limit(l) {
                    Some(n) => n,
                    None => 1,
                },
                None => 1,
            },
            None => 1,
        }),
{
    match resources_of(data) {
        Some(l) => match vcpus_of(l) {
            Some(n) => n,
            None => 1,
        },
        None => 1,
    }
}

/// A file that is pushed into the guest.
pub struct Push {
    /// Where it is in the guest.
    pub dest: String,
    /// Where it is bound over, in place of the file that is there.
    pub bind_over: Option<String>,
}

/// Where a file of the sandbox is in the guest.
pub open spec fn guest_path(file: Seq<char>) -> Seq<char> {
    KUASAR_STATE_DIR@ + "/"@ + file
}

/// Whether a push is that of a file.
pub open spec fn pushes(p: Push, file: Seq<char>, bind_over: Option<Seq<char>>) -> bool {
    &&& p.dest@ == guest_path(file)
    &&& match (p.bind_over, bind_over) {
        (Some(a), Some(b)) => a@ == b,
        (None, None) => true,
        _ => false,
    }
}

/// Each file has a place of its own in the guest, below the directory of its state.
pub proof fn lemma_files_are_apart(a: Seq<char>, b: Seq<char>)
    ensures
        a != b ==> guest_path(a) != guest_path(b),
        guest_path(a) == KUASAR_STATE_DIR@ + "/"@ + a,
{
    let head = KUASAR_STATE_DIR@ + "/"@;
    assert(guest_path(a).skip(head.len() as int) =~= a);
    assert(guest_path(b).skip(head.len() as int) =~= b);
}

/// How a file of the sandbox is pushed into the guest, where it was found on the
/// host: the name service settings take the place of those of the guest.
pub fn push_of(file: &str, found: bool, over: Option<&str>) -> (r: Option<Push>)
    ensures
        match r {
            Some(p) => found && pushes(
                p,
                file@,
                match over {
                    Some(path) => Some(path@),
                    None => None,
                },
            ),
            None => !found,
        },
{
    if !found {
        return None;
    }
    Some(
        Push {
            dest: concat3(KUASAR_STATE_DIR, "/", file),
            bind_over: match over {
                Some(path) => Some(path.to_owned()),
                None => None,
            },
        },
    )
}

/// The files of the sandbox that are pushed into the guest: those that were found.
pub fn push_sandbox_files(hostname: bool, resolv: bool, hosts: bool) -> (r: (
    Option<Push>,
    Option<Push>,
    Option<Push>,
))
    ensures
        match r.0 {
            Some(p) => hostname && pushes(p, HOSTNAME_FILENAME@, None),
            None => !hostname,
        },
        match r.1 {
            Some(p) => resolv && pushes(p, RESOLV_FILENAME@, Some(ETC_RESOLV@)),
            None => !resolv,
        },
        match r.2 {
            Some(p) => hosts && pushes(p, HOSTS_FILENAME@, None),
            None => !hosts,
        },
{
    (
        push_of(HOSTNAME_FILENAME, hostname, None),
        push_of(RESOLV_FILENAME, resolv, Some(ETC_RESOLV)),
        push_of(HOSTS_FILENAME, hosts, None),
    )
}

/// The file in which a sandbox is kept.
pub fn dump_path(base_dir: &str) -> (r: String)
    ensures
        r@ == base_dir@ + "/sandbox.json"@,
{
    concat(base_dir, "/sandbox.json")
}

/// Whether keeping a sandbox fails where its file cannot be opened. A sandbox whose
/// directory is gone has nothing left to keep.
pub fn fails_dump(not_found: bool) -> (r: bool)
    ensures
        r == !not_found,
{
    !not_found
}

} // verus!
