//! Host-key verification. A key that differs from the known one is always
//! rejected; what happens with an unknown host is up to a policy.

use vstd::prelude::*;

use crate::hex;
use crate::numbers;
use crate::path;
use crate::path::VfsPath;
use crate::text::{from_chars, joined_text, owned};

verus! {

/// Decides what to do about a host key that isn't already known. A changed
/// key is never delegated here.
pub trait HostKeyPolicy {
    fn accept_unknown_host(&self, host: &str, port: u16, fingerprint: &str) -> bool;
}

/// Accepts and saves the key of a host seen for the first time.
pub struct AcceptNewPolicy;

impl HostKeyPolicy for AcceptNewPolicy {
    fn accept_unknown_host(&self, _host: &str, _port: u16, _fingerprint: &str) -> (r: bool)
        ensures
            r,
    {
        true
    }
}

/// Never trusts an unknown host.
pub struct RejectUnknownPolicy;

impl HostKeyPolicy for RejectUnknownPolicy {
    fn accept_unknown_host(&self, _host: &str, _port: u16, _fingerprint: &str) -> (r: bool)
        ensures
            !r,
    {
        false
    }
}

/// What the list of known hosts says of a key.
#[derive(Clone, Copy, Debug, PartialEq, Eq, Structural)]
pub enum KeyCheck {
    Match,
    Mismatch,
    NotFound,
    Failure,
}

/// The name of a host and port in the list of known hosts: the plain host for
/// the default port, and else in brackets with the port behind it.
pub open spec fn key_id(host: Seq<char>, port: u16) -> Seq<char> {
    if port == 22 {
        host
    } else {
        "["@ + host + "]:"@ + numbers::decimal(port as nat)
    }
}

/// The name of a host and port in the list of known hosts.
pub fn host_key_id(host: &str, port: u16) -> (r: String)
    ensures
        r@ == key_id(host@, port),
{
    if port == 22 {
        owned(host)
    } else {
        let bracketed: String = joined_text(joined_text("[", host).as_str(), "]:");
        joined_text(
            bracketed.as_str(),
            from_chars(&numbers::decimal_chars(port as u64)).as_str(),
        )
    }
}

/// A key's fingerprint for display.
pub open spec fn fingerprint_text(hash: Option<Seq<u8>>) -> Seq<char> {
    match hash {
        Some(bytes) => "SHA256:"@ + hex::hex_of(bytes),
        None => "<unavailable>"@,
    }
}

/// A key's fingerprint for display.
pub fn fingerprint(hash: &Option<Vec<u8>>) -> (r: String)
    ensures
        r@ == fingerprint_text(
            match *hash {
                Some(bytes) => Some(bytes@),
                None => None,
            },
        ),
{
    match hash {
        Some(bytes) => joined_text("SHA256:", hex::to_hex(bytes).as_str()),
        None => owned("<unavailable>"),
    }
}

/// Where the verification of a host key stands; also what it needs next.
#[derive(Debug)]
pub enum KeyStage {
    /// Set up a list of known hosts.
    Init,
    /// Read the file of known hosts, if there is one.
    ReadFile,
    /// Get the key that the server presents.
    GetKey,
    /// Look the key up under the host's name.
    Check,
    /// Ask the policy about a host that is not known.
    AskPolicy,
    /// Put the key into the list.
    Record,
    /// Write the list to its file.
    Save,
    Ended(Result<(), String>),
}

/// The verification of one host's key.
#[derive(Debug)]
pub struct KeyVerification {
    pub host: String,
    pub port: u16,
    /// The path of the file of known hosts, for display.
    pub file: String,
    pub stage: KeyStage,
}

/// Whether a stage is the end with this error.
pub open spec fn ends_with_error(stage: KeyStage, why: Seq<char>) -> bool {
    stage matches KeyStage::Ended(Err(e)) && e@ == why
}

/// Starts the verification of a host's key against the file of known hosts.
pub fn verify_host_key(host: &str, port: u16, file: &str) -> (r: KeyVerification)
    ensures
        r.host@ == host@,
        r.port == port,
        r.file@ == file@,
        r.stage is Init,
{
    KeyVerification { host: owned(host), port, file: owned(file), stage: KeyStage::Init }
}

/// Where known hosts are kept below a home directory.
pub fn default_known_hosts_path(home: &VfsPath) -> (r: VfsPath)
    ensures
        r@ == path::joined(path::joined(home@, ".ssh"@), "known_hosts"@),
{
    home.join(".ssh").join("known_hosts")
}

impl KeyVerification {
    /// Whether only the stage differs.
    pub open spec fn same_host_as(self, other: KeyVerification) -> bool {
        self.host == other.host && self.port == other.port && self.file == other.file
    }

    /// Where the verification goes after the key was looked up: a known key
    /// ends it well, a changed one never does, and only an unknown one is a
    /// question of policy.
    pub open spec fn goes_on(self, check: KeyCheck, stage: KeyStage) -> bool {
        match check {
            KeyCheck::Match => stage == KeyStage::Ended(Ok(())),
            KeyCheck::Mismatch => ends_with_error(
                stage,
                "host key for "@ + key_id(self.host@, self.port) + " does not match the one in "@
                    + self.file@ + " — possible man-in-the-middle attack, refusing to connect"@,
            ),
            KeyCheck::Failure => ends_with_error(stage, "host key check failed"@),
            KeyCheck::NotFound => stage is AskPolicy,
        }
    }

    /// Goes on after setting up, reading, getting the key, recording or saving.
    pub fn on_step(&mut self, result: Result<(), String>)
        requires
            old(self).stage is Init || old(self).stage is ReadFile || old(self).stage is GetKey
                || old(self).stage is Record || old(self).stage is Save,
        ensures
            final(self).same_host_as(*old(self)),
            key_went_on(*old(self), KeyEvent::Step(result), *final(self)),
            match result {
                Ok(_) => match old(self).stage {
                    KeyStage::Init => final(self).stage is ReadFile,
                    KeyStage::ReadFile => final(self).stage is GetKey,
                    KeyStage::GetKey => final(self).stage is Check,
                    KeyStage::Record => final(self).stage is Save,
                    _ => final(self).stage == KeyStage::Ended(Ok(())),
                },
                Err(e) => match old(self).stage {
                    KeyStage::Init => ends_with_error(
                        final(self).stage,
                        "could not initialize known_hosts: "@ + e@,
                    ),
                    KeyStage::ReadFile => ends_with_error(
                        final(self).stage,
                        "could not read "@ + old(self).file@ + ": "@ + e@,
                    ),
                    KeyStage::GetKey => ends_with_error(
                        final(self).stage,
                        "server did not present a host key"@,
                    ),
                    KeyStage::Record => ends_with_error(
                        final(self).stage,
                        "could not record host key: "@ + e@,
                    ),
                    _ => ends_with_error(
                        final(self).stage,
                        "could not save "@ + old(self).file@ + ": "@ + e@,
                    ),
                },
            },
    {
        self.stage = match result {
            Ok(_) => match &self.stage {
                KeyStage::Init => KeyStage::ReadFile,
                KeyStage::ReadFile => KeyStage::GetKey,
                KeyStage::GetKey => KeyStage::Check,
                KeyStage::Record => KeyStage::Save,
                _ => KeyStage::Ended(Ok(())),
            },
            Err(e) => match &self.stage {
                KeyStage::Init => KeyStage::Ended(
                    Err(joined_text("could not initialize known_hosts: ", e.as_str())),
                ),
                KeyStage::ReadFile => {
                    let head: String = joined_text("could not read ", self.file.as_str());
                    KeyStage::Ended(
                        Err(joined_text(joined_text(head.as_str(), ": ").as_str(), e.as_str())),
                    )
                },
                KeyStage::GetKey => KeyStage::Ended(
                    Err(owned("server did not present a host key")),
                ),
                KeyStage::Record => KeyStage::Ended(
                    Err(joined_text("could not record host key: ", e.as_str())),
                ),
                _ => {
                    let head: String = joined_text("could not save ", self.file.as_str());
                    KeyStage::Ended(
                        Err(joined_text(joined_text(head.as_str(), ": ").as_str(), e.as_str())),
                    )
                },
            },
        };
    }

    /// Goes on after the key was looked up.
    pub fn on_check(&mut self, check: KeyCheck)
        requires
            old(self).stage is Check,
        ensures
            final(self).same_host_as(*old(self)),
            old(self).goes_on(check, final(self).stage),
            key_went_on(*old(self), KeyEvent::Check(check), *final(self)),
    {
        self.stage = match check {
            KeyCheck::Match => KeyStage::Ended(Ok(())),
            KeyCheck::Mismatch => {
                let id: String = host_key_id(self.host.as_str(), self.port);
                let head: String = joined_text("host key for ", id.as_str());
                let middle: String = joined_text(head.as_str(), " does not match the one in ");
                let place: String = joined_text(middle.as_str(), self.file.as_str());
                KeyStage::Ended(
                    Err(
                        joined_text(
                            place.as_str(),
                            " — possible man-in-the-middle attack, refusing to connect",
                        ),
                    ),
                )
            },
            KeyCheck::Failure => KeyStage::Ended(Err(owned("host key check failed"))),
            KeyCheck::NotFound => KeyStage::AskPolicy,
        };
    }

    /// Goes on after the policy has decided about an unknown host.
    pub fn on_decision(&mut self, accepted: bool)
        requires
            old(self).stage is AskPolicy,
        ensures
            final(self).same_host_as(*old(self)),
            key_went_on(*old(self), KeyEvent::Decision(accepted), *final(self)),
            accepted ==> final(self).stage is Record,
            !accepted ==> ends_with_error(
                final(self).stage,
                "host key for "@ + key_id(old(self).host@, old(self).port) + " rejected by policy"@,
            ),
    {
        if accepted {
            self.stage = KeyStage::Record;
        } else {
            let id: String = host_key_id(self.host.as_str(), self.port);
            let head: String = joined_text("host key for ", id.as_str());
            self.stage = KeyStage::Ended(Err(joined_text(head.as_str(), " rejected by policy")));
        }
    }

    /// Asks a policy about an unknown host and goes on with its answer.
    pub fn ask<P: HostKeyPolicy>(&mut self, policy: &P, hash: &Option<Vec<u8>>)
        requires
            old(self).stage is AskPolicy,
        ensures
            final(self).same_host_as(*old(self)),
            exists|host: &str, shown: &str, accepted: bool|
                #![trigger call_ensures(
                    P::accept_unknown_host,
                    (policy, host, old(self).port, shown),
                    accepted,
                )]
                {
                    &&& host@ == old(self).host@
                    &&& shown@ == fingerprint_text(
                        match *hash {
                            Some(bytes) => Some(bytes@),
                            None => None,
                        },
                    )
                    &&& call_ensures(
                        P::accept_unknown_host,
                        (policy, host, old(self).port, shown),
                        accepted,
                    )
                    &&& accepted ==> final(self).stage is Record
                    &&& !accepted ==> ends_with_error(
                        final(self).stage,
                        "host key for "@ + key_id(old(self).host@, old(self).port)
                            + " rejected by policy"@,
                    )
                },
    {
        let shown: String = fingerprint(hash);
        let accepted: bool = policy.accept_unknown_host(
            self.host.as_str(),
            self.port,
            shown.as_str(),
        );
        self.on_decision(accepted);
    }
}

/// Whatever the policy is, a key that does not match the known one ends the
/// verification in an error, and without having been looked up as known no key
/// ends it well.
pub proof fn law_changed_key_is_rejected(
    before: KeyVerification,
    check: KeyCheck,
    stage: KeyStage,
)
    requires
        before.goes_on(check, stage),
    ensures
        check == KeyCheck::Mismatch ==> stage matches KeyStage::Ended(Err(_)),
        stage is AskPolicy ==> check == KeyCheck::NotFound,
        stage matches KeyStage::Ended(Ok(_)) ==> check == KeyCheck::Match,
{
}

/// What the verification of a key learns from outside.
pub enum KeyEvent {
    /// How a step went.
    Step(Result<(), String>),
    /// What the list of known hosts says.
    Check(KeyCheck),
    /// Whether the policy accepts an unknown host.
    Decision(bool),
}

/// Whether the verification goes from one state to the next by what it learned.
pub open spec fn key_went_on(
    before: KeyVerification,
    event: KeyEvent,
    after: KeyVerification,
) -> bool {
    &&& after.same_host_as(before)
    &&& match event {
        KeyEvent::Step(Ok(_)) => match before.stage {
            KeyStage::Init => after.stage is ReadFile,
            KeyStage::ReadFile => after.stage is GetKey,
            KeyStage::GetKey => after.stage is Check,
            KeyStage::Record => after.stage is Save,
            KeyStage::Save => after.stage == KeyStage::Ended(Ok(())),
            _ => false,
        },
        KeyEvent::Step(Err(_)) => after.stage matches KeyStage::Ended(Err(_)),
        KeyEvent::Check(check) => before.stage is Check && match check {
            KeyCheck::Match => after.stage == KeyStage::Ended(Ok(())),
            KeyCheck::NotFound => after.stage is AskPolicy,
            _ => after.stage matches KeyStage::Ended(Err(_)),
        },
        KeyEvent::Decision(accepted) => before.stage is AskPolicy && if accepted {
            after.stage is Record
        } else {
            after.stage matches KeyStage::Ended(Err(_))
        },
    }
}

/// Whether `states` are those of a verification that learned these things.
pub open spec fn is_key_run(states: Seq<KeyVerification>, events: Seq<KeyEvent>) -> bool {
    &&& states.len() == events.len() + 1
    &&& states[0].stage is Init
    &&& forall|i: int|
        0 <= i < events.len() ==> !((#[trigger] states[i]).stage is Ended) && key_went_on(
            states[i],
            events[i],
            states[i + 1],
        )
}

/// Whether the list of known hosts said something among the first `n` events.
pub open spec fn was_checked(events: Seq<KeyEvent>, n: int, check: KeyCheck) -> bool {
    exists|i: int| 0 <= i < n && #[trigger] events[i] == KeyEvent::Check(check)
}

/// Whether the policy decided something among the first `n` events.
pub open spec fn was_decided(events: Seq<KeyEvent>, n: int, accepted: bool) -> bool {
    exists|i: int| 0 <= i < n && #[trigger] events[i] == KeyEvent::Decision(accepted)
}

proof fn lemma_key_run(states: Seq<KeyVerification>, events: Seq<KeyEvent>, n: int)
    requires
        is_key_run(states, events),
        0 <= n <= events.len(),
    ensures
        states[n].stage is Init || states[n].stage is ReadFile || states[n].stage is GetKey
            || states[n].stage is Check ==> forall|i: int|
            0 <= i < n ==> (#[trigger] events[i]) is Step,
        states[n].stage is AskPolicy ==> was_checked(events, n, KeyCheck::NotFound) && forall|
            i: int,
        |
            0 <= i < n ==> (#[trigger] events[i]) is Step || events[i] == KeyEvent::Check(
                KeyCheck::NotFound,
            ),
        states[n].stage is Record || states[n].stage is Save ==> was_checked(
            events,
            n,
            KeyCheck::NotFound,
        ) && was_decided(events, n, true) && forall|i: int|
            0 <= i < n ==> (#[trigger] events[i]) is Step || events[i] == KeyEvent::Check(
                KeyCheck::NotFound,
            ) || events[i] == KeyEvent::Decision(true),
        states[n].stage matches KeyStage::Ended(Ok(_)) ==> was_checked(events, n, KeyCheck::Match)
            || (was_checked(events, n, KeyCheck::NotFound) && was_decided(events, n, true)),
        states[n].stage matches KeyStage::Ended(Ok(_)) ==> forall|i: int|
            0 <= i < n ==> (#[trigger] events[i]) is Step || events[i] == KeyEvent::Check(
                KeyCheck::NotFound,
            ) || events[i] == KeyEvent::Check(KeyCheck::Match) || events[i] == KeyEvent::Decision(
                true,
            ),
    decreases n,
{
    if n > 0 {
        let m = n - 1;
        lemma_key_run(states, events, m);
        assert(!(states[m].stage is Ended) && key_went_on(states[m], events[m], states[m + 1]));
        assert(states[m + 1] == states[n]);
        if was_checked(events, m, KeyCheck::NotFound) {
            let i = choose|i: int|
                0 <= i < m && #[trigger] events[i] == KeyEvent::Check(KeyCheck::NotFound);
            assert(events[i] == KeyEvent::Check(KeyCheck::NotFound));
            assert(was_checked(events, n, KeyCheck::NotFound));
        }
        if was_decided(events, m, true) {
            let i = choose|i: int| 0 <= i < m && #[trigger] events[i] == KeyEvent::Decision(true);
            assert(events[i] == KeyEvent::Decision(true));
            assert(was_decided(events, n, true));
        }
        match events[m] {
            KeyEvent::Check(check) => {
                assert(was_checked(events, n, check));
            },
            KeyEvent::Decision(accepted) => {
                assert(was_decided(events, n, accepted));
            },
            KeyEvent::Step(_) => {},
        }
    }
}

/// A host is trusted only if its key is the known one, or if no key of it is known
/// and the policy accepts it; and never after its key was found to be another, a
/// step failed or the policy refused.
pub proof fn law_trust(states: Seq<KeyVerification>, events: Seq<KeyEvent>, i: int)
    requires
        is_key_run(states, events),
        states.last().stage matches KeyStage::Ended(Ok(_)),
        0 <= i < events.len(),
    ensures
        was_checked(events, events.len() as int, KeyCheck::Match) || (was_checked(
            events,
            events.len() as int,
            KeyCheck::NotFound,
        ) && was_decided(events, events.len() as int, true)),
        events[i] != KeyEvent::Check(KeyCheck::Mismatch),
        events[i] != KeyEvent::Check(KeyCheck::Failure),
        events[i] != KeyEvent::Decision(false),
        events[i] matches KeyEvent::Step(result) ==> result is Ok,
{
    let n = events.len() as int;
    lemma_key_run(states, events, n);
    assert(states[n] == states.last());
    assert(events[i] is Step || events[i] is Check || events[i] is Decision);
    assert(!(states[i].stage is Ended) && key_went_on(states[i], events[i], states[i + 1]));
    if i < n - 1 {
        assert(!(states[i + 1].stage is Ended));
    }
}

/// The list of known hosts has different names for different ports of a host, and
/// the plain name for the usual port.
pub proof fn law_key_id(host: Seq<char>, p: u16, q: u16)
    ensures
        key_id(host, 22) == host,
        key_id(host, p) == key_id(host, q) ==> p == q,
        p != 22 ==> key_id(host, p)[0] == '[' && numbers::parsed(
            key_id(host, p).skip(host.len() as int + 3),
            10,
            65535,
        ) == Some(p as nat),
{
    reveal_strlit("[");
    reveal_strlit("]:");
    let a = "["@ + host + "]:"@ + numbers::decimal(p as nat);
    let b = "["@ + host + "]:"@ + numbers::decimal(q as nat);
    assert(a.skip(host.len() as int + 3) =~= numbers::decimal(p as nat));
    assert(b.skip(host.len() as int + 3) =~= numbers::decimal(q as nat));
    numbers::lemma_decimal_reads_back(p as nat, 65535);
    numbers::lemma_decimal_reads_back(q as nat, 65535);
}

/// A fingerprint shows the whole hash: it can be read back from it.
pub proof fn law_fingerprint(hash: Seq<u8>, other: Seq<u8>)
    ensures
        hex::bytes_of(fingerprint_text(Some(hash)).skip(7)) == Some(hash),
        fingerprint_text(Some(hash)) == fingerprint_text(Some(other)) ==> hash == other,
{
    reveal_strlit("SHA256:");
    let a = fingerprint_text(Some(hash));
    let b = fingerprint_text(Some(other));
    assert(a.skip(7) =~= hex::hex_of(hash));
    assert(b.skip(7) =~= hex::hex_of(other));
    hex::law_hex_reads_back(hash);
    hex::law_hex_reads_back(other);
}

} // verus!
