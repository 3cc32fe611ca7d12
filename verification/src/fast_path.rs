//! Getting a fast channel to a remote host: find out what the host is, deploy
//! an agent there, and connect to it. Any failure means that there is no fast
//! channel, and files go over SFTP.

use vstd::prelude::*;

use crate::deploy::DeployedAgent;
use crate::path;
use crate::path::VfsPath;
use crate::remote::os_supports_quic_agent;
use crate::text;

verus! {

/// Where on the remote host the agent's binary is put.
pub fn remote_deploy_dir() -> (r: &'static str)
    ensures
        r@ == "/tmp"@,
{
    "/tmp"
}

/// Whether `places` are where the agent's binary is looked for, in order, when
/// this program is at `exe`: in the program's directory, and in the one above it
/// if there is one.
pub open spec fn are_agent_places(places: Seq<VfsPath>, exe: Seq<char>) -> bool {
    if path::components(exe).len() == 0 {
        places.len() == 0
    } else {
        exists|dir: Seq<char>|
            {
                &&& #[trigger] path::is_parent(dir, exe)
                &&& places.len() > 0
                &&& places[0]@ == path::joined(dir, "pfnc-agent"@)
                &&& if path::components(dir).len() == 0 {
                    places.len() == 1
                } else {
                    &&& places.len() == 2
                    &&& exists|above: Seq<char>| #[trigger]
                        path::is_parent(above, dir) && places[1]@ == path::joined(
                            above,
                            "pfnc-agent"@,
                        )
                }
            }
    }
}

/// Where the agent's binary is looked for when this program is at `exe`.
pub fn agent_places(exe: &VfsPath) -> (r: Vec<VfsPath>)
    ensures
        are_agent_places(r@, exe@),
{
    let mut out: Vec<VfsPath> = Vec::new();
    match exe.parent() {
        None => {},
        Some(dir) => {
            proof {
                assert(path::is_parent(dir@, exe@));
            }
            out.push(dir.join("pfnc-agent"));
            match dir.parent() {
                None => {},
                Some(above) => {
                    proof {
                        assert(path::is_parent(above@, dir@));
                    }
                    out.push(above.join("pfnc-agent"));
                },
            }
        },
    }
    out
}

/// How long the handshake and the hello together may take, in seconds.
pub const HANDSHAKE_TIMEOUT_SECS: u64 = 5;

/// Where the setup stands; also what it needs next.
#[derive(Debug)]
pub enum FastPathStage {
    /// Ask the remote host what it is.
    ProbeOs,
    /// Look for the agent's binary beside this program.
    FindBinary,
    /// Upload and start the agent.
    Deploy,
    /// Set up what drives the connection.
    BuildRuntime { agent: DeployedAgent },
    /// Find the host's address.
    Resolve { agent: DeployedAgent },
    /// Connect to the agent, trusting only the certificate it reported.
    Connect { agent: DeployedAgent },
    /// Exchange versions with the agent.
    Hello { agent: DeployedAgent },
    /// Stop the agent, which is of no use.
    Kill { pid: u32 },
    /// There is a fast channel.
    Ready { agent: DeployedAgent },
    /// There is none.
    Unavailable,
}

/// What came of the step the setup was waiting for.
#[derive(Debug)]
pub enum FastPathEvent {
    /// The output of `uname -s`, if it could be had.
    Os(Option<String>),
    /// The step succeeded.
    Done,
    /// The agent was deployed.
    Deployed(DeployedAgent),
    /// The agent's version, and whether it calls this client compatible.
    Greeted { version: u32, compatible: bool },
    /// The step failed.
    Failed,
    /// The handshake and the hello took too long.
    TimedOut,
}

/// Where the setup goes when a step has failed: what has been deployed is
/// stopped again.
pub open spec fn given_up(stage: FastPathStage) -> FastPathStage {
    match stage {
        FastPathStage::BuildRuntime { agent } => FastPathStage::Kill { pid: agent.pid },
        FastPathStage::Resolve { agent } => FastPathStage::Kill { pid: agent.pid },
        FastPathStage::Connect { agent } => FastPathStage::Kill { pid: agent.pid },
        FastPathStage::Hello { agent } => FastPathStage::Kill { pid: agent.pid },
        FastPathStage::Ready { agent } => FastPathStage::Ready { agent },
        _ => FastPathStage::Unavailable,
    }
}

/// Where the setup goes from `stage`.
pub open spec fn next_stage(stage: FastPathStage, event: FastPathEvent) -> FastPathStage {
    match (stage, event) {
        (FastPathStage::ProbeOs, FastPathEvent::Os(Some(uname))) => if text::trimmed(uname@)
            == "Linux"@ {
            FastPathStage::FindBinary
        } else {
            FastPathStage::Unavailable
        },
        (FastPathStage::FindBinary, FastPathEvent::Done) => FastPathStage::Deploy,
        (FastPathStage::Deploy, FastPathEvent::Deployed(agent)) => FastPathStage::BuildRuntime {
            agent,
        },
        (FastPathStage::BuildRuntime { agent }, FastPathEvent::Done) => FastPathStage::Resolve {
            agent,
        },
        (FastPathStage::Resolve { agent }, FastPathEvent::Done) => FastPathStage::Connect { agent },
        (FastPathStage::Connect { agent }, FastPathEvent::Done) => FastPathStage::Hello { agent },
        (
            FastPathStage::Hello { agent },
            FastPathEvent::Greeted { version, compatible },
        ) => if compatible {
            FastPathStage::Ready { agent }
        } else {
            FastPathStage::Kill { pid: agent.pid }
        },
        (other, _) => given_up(other),
    }
}

/// The setup of a fast channel.
#[derive(Debug)]
pub struct FastPath {
    pub stage: FastPathStage,
}

impl FastPath {
    /// A setup that has not begun.
    pub fn start() -> (r: Self)
        ensures
            r.stage is ProbeOs,
    {
        FastPath { stage: FastPathStage::ProbeOs }
    }

    /// Goes on after the awaited step.
    pub fn on_event(&mut self, event: FastPathEvent)
        ensures
            final(self).stage == next_stage(old(self).stage, event),
    {
        let mut stage = FastPathStage::Unavailable;
        std::mem::swap(&mut self.stage, &mut stage);
        self.stage = match (stage, event) {
            (FastPathStage::ProbeOs, FastPathEvent::Os(Some(uname))) => if os_supports_quic_agent(
                uname.as_str(),
            ) {
                FastPathStage::FindBinary
            } else {
                FastPathStage::Unavailable
            },
            (FastPathStage::FindBinary, FastPathEvent::Done) => FastPathStage::Deploy,
            (
                FastPathStage::Deploy,
                FastPathEvent::Deployed(agent),
            ) => FastPathStage::BuildRuntime { agent },
            (FastPathStage::BuildRuntime { agent }, FastPathEvent::Done) => FastPathStage::Resolve {
                agent,
            },
            (FastPathStage::Resolve { agent }, FastPathEvent::Done) => FastPathStage::Connect {
                agent,
            },
            (FastPathStage::Connect { agent }, FastPathEvent::Done) => FastPathStage::Hello {
                agent,
            },
            (
                FastPathStage::Hello { agent },
                FastPathEvent::Greeted { version, compatible },
            ) => if compatible {
                FastPathStage::Ready { agent }
            } else {
                FastPathStage::Kill { pid: agent.pid }
            },
            (FastPathStage::BuildRuntime { agent }, _) => FastPathStage::Kill { pid: agent.pid },
            (FastPathStage::Resolve { agent }, _) => FastPathStage::Kill { pid: agent.pid },
            (FastPathStage::Connect { agent }, _) => FastPathStage::Kill { pid: agent.pid },
            (FastPathStage::Hello { agent }, _) => FastPathStage::Kill { pid: agent.pid },
            (FastPathStage::Ready { agent }, _) => FastPathStage::Ready { agent },
            _ => FastPathStage::Unavailable,
        };
    }
}

/// The process that a stage keeps running on the remote host.
pub open spec fn running(stage: FastPathStage) -> Option<u32> {
    match stage {
        FastPathStage::BuildRuntime { agent } => Some(agent.pid),
        FastPathStage::Resolve { agent } => Some(agent.pid),
        FastPathStage::Connect { agent } => Some(agent.pid),
        FastPathStage::Hello { agent } => Some(agent.pid),
        FastPathStage::Ready { agent } => Some(agent.pid),
        FastPathStage::Kill { pid } => Some(pid),
        _ => None,
    }
}

/// An agent that was deployed is never forgotten: until it is in use or has
/// been told to stop, the setup knows its process.
pub proof fn law_agent_is_not_forgotten(stage: FastPathStage, event: FastPathEvent)
    requires
        running(stage) is Some,
        !(stage is Kill),
    ensures
        running(next_stage(stage, event)) == running(stage),
{
}

/// Nothing is looked for or deployed unless the host says that it is a Linux
/// host.
pub proof fn law_only_for_linux(stage: FastPathStage, event: FastPathEvent)
    requires
        stage is ProbeOs,
        !(next_stage(stage, event) is Unavailable),
    ensures
        event matches FastPathEvent::Os(Some(uname)) && text::trimmed(uname@) == "Linux"@,
        next_stage(stage, event) is FindBinary,
{
}

/// The setup gets ready only when the agent was greeted and calls this client
/// compatible.
pub proof fn law_ready_only_if_compatible(stage: FastPathStage, event: FastPathEvent)
    requires
        !(stage is Ready),
        next_stage(stage, event) is Ready,
    ensures
        stage is Hello,
        event matches FastPathEvent::Greeted { compatible, .. } && compatible,
{
}

/// Whether `stages` are those of a setup from its beginning in which these things
/// happened.
pub open spec fn is_setup(stages: Seq<FastPathStage>, events: Seq<FastPathEvent>) -> bool {
    &&& stages.len() == events.len() + 1
    &&& stages[0] is ProbeOs
    &&& forall|i: int|
        0 <= i < events.len() ==> #[trigger] is_setup_step(stages, events, i)
}

/// Whether the `i`th event leads from one stage to the next.
pub open spec fn is_setup_step(
    stages: Seq<FastPathStage>,
    events: Seq<FastPathEvent>,
    i: int,
) -> bool {
    next_stage(stages[i], events[i]) == stages[i + 1]
}

/// A setup in which nothing goes wrong gets ready in seven steps with the agent that
/// was deployed: the host is a Linux host, a binary is found and deployed, the
/// connection is made and greeted.
pub proof fn law_setup_gets_ready(
    stages: Seq<FastPathStage>,
    events: Seq<FastPathEvent>,
    uname: String,
    agent: DeployedAgent,
    version: u32,
)
    requires
        is_setup(stages, events),
        events.len() == 7,
        events[0] == FastPathEvent::Os(Some(uname)),
        text::is_padded(uname@, "Linux"@),
        events[1] is Done,
        events[2] == FastPathEvent::Deployed(agent),
        events[3] is Done,
        events[4] is Done,
        events[5] is Done,
        events[6] == (FastPathEvent::Greeted { version, compatible: true }),
    ensures
        stages[7] == (FastPathStage::Ready { agent }),
{
    reveal_strlit("Linux");
    text::law_padding_does_not_count(uname@, "Linux"@);
    assert(is_setup_step(stages, events, 0));
    assert(is_setup_step(stages, events, 1));
    assert(is_setup_step(stages, events, 2));
    assert(is_setup_step(stages, events, 3));
    assert(is_setup_step(stages, events, 4));
    assert(is_setup_step(stages, events, 5));
    assert(is_setup_step(stages, events, 6));
}

/// A setup that fails at any step after the agent was deployed goes on to stop that
/// very agent; one that fails before has nothing to stop.
pub proof fn law_failed_setup_cleans_up(stage: FastPathStage, event: FastPathEvent)
    requires
        event is Failed || event is TimedOut,
        !(stage is Ready),
        !(stage is Kill),
    ensures
        running(stage) matches Some(pid) ==> next_stage(stage, event) == (FastPathStage::Kill {
            pid,
        }),
        running(stage) is None ==> next_stage(stage, event) is Unavailable,
{
}

/// The agent's binary is looked for beside this program first, and then in the
/// directory above.
pub proof fn law_agent_places(places: Seq<VfsPath>, exe: Seq<char>)
    requires
        are_agent_places(places, exe),
        path::is_absolute(exe),
        path::components(exe).len() >= 2,
    ensures
        places.len() == 2,
        path::components(places[0]@) == path::components(exe).drop_last().push("pfnc-agent"@),
        path::components(places[1]@) == path::components(exe).drop_last().drop_last().push(
            "pfnc-agent"@,
        ),
{
    reveal_strlit("pfnc-agent");
    let name = "pfnc-agent"@;
    assert(!name.contains('/'));
    assert(path::is_plain_name(name));
    let dir = choose|dir: Seq<char>|
        {
            &&& #[trigger] path::is_parent(dir, exe)
            &&& places.len() > 0
            &&& places[0]@ == path::joined(dir, name)
            &&& if path::components(dir).len() == 0 {
                places.len() == 1
            } else {
                &&& places.len() == 2
                &&& exists|above: Seq<char>| #[trigger]
                    path::is_parent(above, dir) && places[1]@ == path::joined(above, name)
            }
        };
    path::lemma_join_adds_component(dir, name);
    let above = choose|above: Seq<char>| #[trigger]
        path::is_parent(above, dir) && places[1]@ == path::joined(above, name);
    path::lemma_join_adds_component(above, name);
}

} // verus!
