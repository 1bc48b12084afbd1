//! What is known of a pod.

use crate::string_map::StringMap;
use vstd::prelude::*;

verus! {

/// The name service settings of a pod.
#[derive(Debug)]
pub struct DnsConfig {
    pub servers: Vec<String>,
    pub searches: Vec<String>,
    pub options: Vec<String>,
}

/// The resource limits of a pod; a limit of 0 or less is none.
#[derive(Clone, Copy, Debug, PartialEq, Eq, Structural)]
pub struct LinuxResources {
    pub cpu_period: i64,
    pub cpu_quota: i64,
    pub memory_limit_in_bytes: i64,
}

/// How the processes of a pod see each other.
#[derive(Clone, Copy, Debug, PartialEq, Eq, Structural)]
pub enum NamespaceMode {
    Pod,
    Container,
    Node,
    Target,
}

/// The configuration of a pod.
#[derive(Debug)]
pub struct PodSandboxConfig {
    pub hostname: String,
    pub annotations: StringMap,
    pub dns_config: Option<DnsConfig>,
    pub resources: Option<LinuxResources>,
    pub cgroup_parent: String,
    /// The mode of the pid namespace, where the pod says anything of namespaces.
    pub pid_namespace: Option<NamespaceMode>,
}

/// A pod.
#[derive(Debug)]
pub struct SandboxData {
    pub id: String,
    pub netns: String,
    pub task_address: String,
    pub labels: StringMap,
    pub config: Option<PodSandboxConfig>,
}

/// The annotations of a pod; one without a configuration has none.
pub open spec fn annotations_of(data: SandboxData) -> Map<Seq<char>, Seq<char>> {
    match data.config {
        Some(config) => config.annotations@,
        None => Map::empty(),
    }
}

/// The value of a key, if it has one.
pub open spec fn lookup(m: Map<Seq<char>, Seq<char>>, key: Seq<char>) -> Option<Seq<char>> {
    if m.contains_key(key) {
        Some(m[key])
    } else {
        None
    }
}

impl SandboxData {
    /// An annotation of the pod.
    pub fn annotation(&self, key: &str) -> (r: Option<&String>)
        ensures
            match r {
                Some(v) => lookup(annotations_of(*self), key@) == Some(v@),
                None => lookup(annotations_of(*self), key@) is None,
            },
    {
        match &self.config {
            Some(config) => config.annotations.get(key),
            None => None,
        }
    }
}

} // verus!
