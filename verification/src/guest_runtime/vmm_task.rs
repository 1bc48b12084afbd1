//! The protocol of `vmm-task`: the host connects to the agent in the guest.

use crate::order::{comes_before, lemma_comes_before};
use vstd::prelude::*;

verus! {

/// A request to the agent.
#[derive(Clone, Copy, Debug, PartialEq, Eq, Structural)]
pub enum AgentStep {
    /// Connect to the agent.
    Connect,
    /// Wait until it answers.
    Check,
    /// Send it the configuration of the pod and of its network.
    SetupSandbox,
}

/// What is asked of the agent when the guest boots.
pub open spec fn boot_steps() -> Seq<AgentStep> {
    seq![AgentStep::Connect, AgentStep::Check, AgentStep::SetupSandbox]
}

/// What is asked of the agent of a running guest after a restart of the host
/// process. The guest is configured, and stays as it is.
pub open spec fn reconnect_steps() -> Seq<AgentStep> {
    seq![AgentStep::Connect, AgentStep::Check]
}

/// What kind of thing the configuration of a pod is.
pub const POD_CONFIG_TYPE: &'static str = "PodSandboxConfig";

/// The configuration of a guest.
pub struct SetupSandboxRequest<I, R> {
    /// The configuration of the pod: what kind of thing it is, and its text.
    pub config: Option<(String, String)>,
    pub interfaces: Vec<I>,
    pub routes: Vec<R>,
}

/// The configuration of a guest: that of its pod, where there is one, and that of
/// its network, where it has one.
pub fn build_setup_sandbox_request<I, R>(
    config: Option<String>,
    network: Option<(Vec<I>, Vec<R>)>,
) -> (r: SetupSandboxRequest<I, R>)
    ensures
        match (r.config, config) {
            (Some((kind, text)), Some(given)) => kind@ == POD_CONFIG_TYPE@ && text == given,
            (None, None) => true,
            _ => false,
        },
        match network {
            Some((interfaces, routes)) => r.interfaces == interfaces && r.routes == routes,
            None => r.interfaces@.len() == 0 && r.routes@.len() == 0,
        },
{
    let config = match config {
        Some(text) => Some((POD_CONFIG_TYPE.to_owned(), text)),
        None => None,
    };
    match network {
        Some((interfaces, routes)) => SetupSandboxRequest { config, interfaces, routes },
        None => SetupSandboxRequest { config, interfaces: Vec::new(), routes: Vec::new() },
    }
}

/// The host's side of the protocol.
pub struct VmmTaskRuntime {
    /// The address of the agent to which the host is connected.
    pub client: Option<String>,
}

impl VmmTaskRuntime {
    /// Not yet connected.
    pub fn new() -> (r: Self)
        ensures
            r.client is None,
    {
        VmmTaskRuntime { client: None }
    }

    /// What to ask of the agent when the guest boots. The first request that
    /// fails ends it.
    pub fn wait_ready_steps(&self) -> (r: Vec<AgentStep>)
        ensures
            r@ == boot_steps(),
    {
        let mut steps: Vec<AgentStep> = Vec::new();
        steps.push(AgentStep::Connect);
        steps.push(AgentStep::Check);
        steps.push(AgentStep::SetupSandbox);
        assert(steps@ =~= boot_steps());
        steps
    }

    /// What to ask of the agent of a running guest.
    pub fn reconnect_steps(&self) -> (r: Vec<AgentStep>)
        ensures
            r@ == reconnect_steps(),
    {
        let mut steps: Vec<AgentStep> = Vec::new();
        steps.push(AgentStep::Connect);
        steps.push(AgentStep::Check);
        assert(steps@ =~= reconnect_steps());
        steps
    }

    /// Keeps the connection once every request was answered; `done` of `total`
    /// requests were.
    pub fn settle(&mut self, address: &str, done: usize, total: usize)
        ensures
            match final(self).client {
                Some(a) => if done >= total {
                    a@ == address@
                } else {
                    old(self).client == Some(a)
                },
                None => done < total && old(self).client is None,
            },
    {
        if done >= total {
            self.client = Some(address.to_owned());
        }
    }

    /// Whether the background tasks that need the agent can run.
    pub fn is_connected(&self) -> (r: bool)
        ensures
            r == (self.client is Some),
    {
        self.client.is_some()
    }
}

impl Default for VmmTaskRuntime {
    fn default() -> (r: Self)
        ensures
            r.client is None,
    {
        VmmTaskRuntime::new()
    }
}

/// The agent is connected to and answers before the guest is configured.
pub proof fn lemma_agent_is_asked_in_order()
    ensures
        ({
            let plan = boot_steps();
            &&& plan.no_duplicates()
            &&& comes_before(plan, AgentStep::Connect, AgentStep::Check)
            &&& comes_before(plan, AgentStep::Check, AgentStep::SetupSandbox)
        }),
{
    let plan = boot_steps();
    assert(plan =~= seq![AgentStep::Connect, AgentStep::Check, AgentStep::SetupSandbox]);
    lemma_comes_before(plan, 0, 1);
    lemma_comes_before(plan, 1, 2);
}

/// The agent of a running guest is connected to and must answer, and nothing else is asked.
pub proof fn lemma_agent_is_taken_up_in_order()
    ensures
        ({
            let plan = reconnect_steps();
            &&& plan.no_duplicates()
            &&& comes_before(plan, AgentStep::Connect, AgentStep::Check)
            &&& plan.len() == 2
        }),
{
    let plan = reconnect_steps();
    assert(plan =~= seq![AgentStep::Connect, AgentStep::Check]);
    lemma_comes_before(plan, 0, 1);
}

/// A guest is configured when it boots and never when the host reconnects.
pub proof fn lemma_reconnect_does_not_configure()
    ensures
        boot_steps().contains(AgentStep::SetupSandbox),
        !reconnect_steps().contains(AgentStep::SetupSandbox),
{
    assert(boot_steps()[2] == AgentStep::SetupSandbox);
}

} // verus!
