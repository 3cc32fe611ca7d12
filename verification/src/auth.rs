//! Which ways of authenticating are tried on a connection, and in which order.

use vstd::prelude::*;

use crate::numbers;
use crate::path;
use crate::path::VfsPath;
use crate::text::{from_chars, joined_text, owned};
use crate::vfs::{clone_text, ProfileId};

verus! {

/// How to authenticate.
#[derive(Debug)]
pub enum AuthMethod {
    Agent,
    KeyFile { private_key: VfsPath, public_key: Option<VfsPath>, passphrase: Option<String> },
    Password(String),
    /// Answers every prompt with the same password.
    KeyboardInteractive(String),
    /// Try the agent, then the default key files, then the password (if given)
    /// in both ways.
    Auto { password: Option<String> },
}

/// A connection to make.
#[derive(Debug)]
pub struct ConnectionProfile {
    pub id: ProfileId,
    pub host: String,
    pub port: u16,
    pub username: String,
    pub auth: AuthMethod,
}

/// Why a connection could not be made.
#[derive(Debug)]
pub enum ConnectError {
    Tcp(String, String),
    Handshake(String),
    HostKey(String),
    Auth(String),
    SftpInit(String),
}

impl ConnectError {
    /// The error in words.
    pub open spec fn text(self) -> Seq<char> {
        match self {
            ConnectError::Tcp(addr, why) => "tcp connect to "@ + addr@ + " failed: "@ + why@,
            ConnectError::Handshake(why) => "ssh handshake failed: "@ + why@,
            ConnectError::HostKey(why) => "host key verification failed: "@ + why@,
            ConnectError::Auth(why) => "authentication failed: "@ + why@,
            ConnectError::SftpInit(why) => "sftp subsystem init failed: "@ + why@,
        }
    }

    /// The error in words.
    pub fn message(&self) -> (r: String)
        ensures
            r@ == self.text(),
    {
        match self {
            ConnectError::Tcp(addr, why) => {
                let head: String = joined_text("tcp connect to ", addr.as_str());
                joined_text(joined_text(head.as_str(), " failed: ").as_str(), why.as_str())
            },
            ConnectError::Handshake(why) => joined_text("ssh handshake failed: ", why.as_str()),
            ConnectError::HostKey(why) => joined_text(
                "host key verification failed: ",
                why.as_str(),
            ),
            ConnectError::Auth(why) => joined_text("authentication failed: ", why.as_str()),
            ConnectError::SftpInit(why) => joined_text("sftp subsystem init failed: ", why.as_str()),
        }
    }
}

/// One attempt at authenticating.
#[derive(Debug)]
pub enum AuthAttempt {
    Agent,
    /// A key file that was asked for.
    KeyFile { private_key: VfsPath, public_key: Option<VfsPath>, passphrase: Option<String> },
    /// A key file that is tried if it exists.
    DefaultKey { private_key: VfsPath },
    Password(String),
    KeyboardInteractive(String),
}

fn clone_path(p: &Option<VfsPath>) -> (r: Option<VfsPath>)
    ensures
        r == *p,
{
    match p {
        Some(q) => Some(q.clone()),
        None => None,
    }
}

impl Clone for AuthAttempt {
    fn clone(&self) -> (r: Self)
        ensures
            r == *self,
    {
        match self {
            AuthAttempt::Agent => AuthAttempt::Agent,
            AuthAttempt::KeyFile { private_key, public_key, passphrase } => AuthAttempt::KeyFile {
                private_key: private_key.clone(),
                public_key: clone_path(public_key),
                passphrase: clone_text(passphrase),
            },
            AuthAttempt::DefaultKey { private_key } => AuthAttempt::DefaultKey {
                private_key: private_key.clone(),
            },
            AuthAttempt::Password(p) => AuthAttempt::Password(p.clone()),
            AuthAttempt::KeyboardInteractive(p) => AuthAttempt::KeyboardInteractive(p.clone()),
        }
    }
}

/// The path of a key file in the user's home directory.
pub open spec fn key_path(home: Seq<char>, name: Seq<char>) -> Seq<char> {
    path::joined(path::joined(home, ".ssh"@), name)
}

/// Where the default key files are: three names in the user's home directory,
/// if that is known.
pub fn default_key_files(home: &Option<VfsPath>) -> (r: Vec<VfsPath>)
    ensures
        match *home {
            None => r@.len() == 0,
            Some(h) => {
                &&& r@.len() == 3
                &&& r@[0]@ == key_path(h@, "id_ed25519"@)
                &&& r@[1]@ == key_path(h@, "id_rsa"@)
                &&& r@[2]@ == key_path(h@, "id_ecdsa"@)
            },
        },
{
    let mut out: Vec<VfsPath> = Vec::new();
    match home {
        None => {},
        Some(h) => {
            let dir: VfsPath = h.join(".ssh");
            out.push(dir.join("id_ed25519"));
            out.push(dir.join("id_rsa"));
            out.push(dir.join("id_ecdsa"));
        },
    }
    out
}

/// The attempts that the default key files make up, in order.
pub open spec fn key_attempts(keys: Seq<VfsPath>) -> Seq<AuthAttempt> {
    Seq::new(keys.len(), |i: int| AuthAttempt::DefaultKey { private_key: keys[i] })
}

/// The attempts for a method, in order.
pub open spec fn attempts_for(method: AuthMethod, keys: Seq<VfsPath>) -> Seq<AuthAttempt> {
    match method {
        AuthMethod::Agent => seq![AuthAttempt::Agent],
        AuthMethod::KeyFile { private_key, public_key, passphrase } => seq![
            AuthAttempt::KeyFile { private_key, public_key, passphrase },
        ],
        AuthMethod::Password(p) => seq![AuthAttempt::Password(p)],
        AuthMethod::KeyboardInteractive(p) => seq![AuthAttempt::KeyboardInteractive(p)],
        AuthMethod::Auto { password: None } => seq![AuthAttempt::Agent] + key_attempts(keys),
        AuthMethod::Auto { password: Some(p) } => seq![AuthAttempt::Agent] + key_attempts(keys)
            + seq![AuthAttempt::Password(p), AuthAttempt::KeyboardInteractive(p)],
    }
}

/// Authentication under way: the attempts, and which comes next.
#[derive(Debug)]
pub struct Authentication {
    pub attempts: Vec<AuthAttempt>,
    pub at: usize,
    /// Whether several ways are tried until one works.
    pub auto: bool,
    pub ended: Option<Result<(), String>>,
}

/// What the only attempt's failure is reported as.
pub open spec fn attempt_error(attempt: AuthAttempt, why: Seq<char>) -> Seq<char> {
    match attempt {
        AuthAttempt::Agent => "agent auth failed: "@ + why,
        AuthAttempt::KeyFile { .. } => "key auth failed: "@ + why,
        AuthAttempt::DefaultKey { .. } => "key auth failed: "@ + why,
        AuthAttempt::Password(_) => "password auth failed: "@ + why,
        AuthAttempt::KeyboardInteractive(_) => "keyboard-interactive auth failed: "@ + why,
    }
}

impl Authentication {
    /// Whether an attempt is due unless it is over.
    pub open spec fn is_valid(self) -> bool {
        self.ended is None ==> self.at < self.attempts@.len()
    }

    /// Starts authenticating by `method`. `keys` are the default key files.
    pub fn start(method: &AuthMethod, keys: &Vec<VfsPath>) -> (r: Self)
        ensures
            r.is_valid(),
            r.attempts@ == attempts_for(*method, keys@),
            r.at == 0,
            r.auto == (*method is Auto),
            r.ended is None,
    {
        let mut attempts: Vec<AuthAttempt> = Vec::new();
        let mut auto: bool = false;
        match method {
            AuthMethod::Agent => {
                attempts.push(AuthAttempt::Agent);
            },
            AuthMethod::KeyFile { private_key, public_key, passphrase } => {
                attempts.push(
                    AuthAttempt::KeyFile {
                        private_key: private_key.clone(),
                        public_key: clone_path(public_key),
                        passphrase: clone_text(passphrase),
                    },
                );
            },
            AuthMethod::Password(p) => {
                attempts.push(AuthAttempt::Password(p.clone()));
            },
            AuthMethod::KeyboardInteractive(p) => {
                attempts.push(AuthAttempt::KeyboardInteractive(p.clone()));
            },
            AuthMethod::Auto { password } => {
                auto = true;
                attempts.push(AuthAttempt::Agent);
                let mut i: usize = 0;
                proof {
                    assert(attempts@ =~= seq![AuthAttempt::Agent] + key_attempts(keys@).take(0));
                }
                while i < keys.len()
                    invariant
                        i <= keys@.len(),
                        attempts@ == seq![AuthAttempt::Agent] + key_attempts(keys@).take(i as int),
                    decreases keys.len() - i,
                {
                    attempts.push(AuthAttempt::DefaultKey { private_key: keys[i].clone() });
                    proof {
                        assert(attempts@ =~= seq![AuthAttempt::Agent] + key_attempts(keys@).take(
                            i + 1,
                        ));
                    }
                    i += 1;
                }
                proof {
                    assert(key_attempts(keys@).take(i as int) =~= key_attempts(keys@));
                }
                match password {
                    Some(p) => {
                        attempts.push(AuthAttempt::Password(p.clone()));
                        attempts.push(AuthAttempt::KeyboardInteractive(p.clone()));
                    },
                    None => {},
                }
            },
        }
        proof {
            assert(attempts@ =~= attempts_for(*method, keys@));
        }
        Authentication { attempts, at: 0, auto, ended: None }
    }

    /// The attempt that is due.
    pub fn next(&self) -> (r: Option<AuthAttempt>)
        requires
            self.is_valid(),
        ensures
            r == (if self.ended is None {
                Some(self.attempts@[self.at as int])
            } else {
                None
            }),
    {
        match &self.ended {
            None => Some(self.attempts[self.at].clone()),
            Some(_) => None,
        }
    }

    /// Goes on after an attempt. The first that works ends it; if several are
    /// tried and none works, that is the error.
    pub fn on_result(&mut self, result: Result<(), String>)
        requires
            old(self).is_valid(),
            old(self).ended is None,
        ensures
            final(self).is_valid(),
            went_on(*old(self), result, *final(self)),
            final(self).attempts == old(self).attempts,
            final(self).auto == old(self).auto,
            match result {
                Ok(_) => final(self).ended == Some(Ok::<(), String>(())),
                Err(e) => if !old(self).auto {
                    final(self).ended matches Some(Err(why)) && why@ == attempt_error(
                        old(self).attempts@[old(self).at as int],
                        e@,
                    )
                } else if old(self).at + 1 < old(self).attempts@.len() {
                    final(self).ended is None && final(self).at == old(self).at + 1
                } else {
                    final(self).ended matches Some(Err(why)) && why@
                        == "all authentication methods failed (agent, default keys, password)"@
                },
            },
    {
        match result {
            Ok(_) => {
                self.ended = Some(Ok(()));
            },
            Err(e) => {
                if !self.auto {
                    let why: String = match &self.attempts[self.at] {
                        AuthAttempt::Agent => joined_text("agent auth failed: ", e.as_str()),
                        AuthAttempt::KeyFile { .. } => joined_text("key auth failed: ", e.as_str()),
                        AuthAttempt::DefaultKey { .. } => joined_text(
                            "key auth failed: ",
                            e.as_str(),
                        ),
                        AuthAttempt::Password(_) => joined_text(
                            "password auth failed: ",
                            e.as_str(),
                        ),
                        AuthAttempt::KeyboardInteractive(_) => joined_text(
                            "keyboard-interactive auth failed: ",
                            e.as_str(),
                        ),
                    };
                    self.ended = Some(Err(why));
                } else if self.attempts.len() - self.at > 1 {
                    self.at = self.at + 1;
                } else {
                    self.ended = Some(
                        Err(
                            owned(
                                "all authentication methods failed (agent, default keys, password)",
                            ),
                        ),
                    );
                }
            },
        }
    }
}

/// Without a password none is ever offered, and the agent always comes first.
pub proof fn law_auto_order(keys: Seq<VfsPath>, password: Option<String>)
    ensures
        attempts_for(AuthMethod::Auto { password }, keys)[0] is Agent,
        forall|i: int|
            0 <= i < keys.len() ==> #[trigger] attempts_for(
                AuthMethod::Auto { password },
                keys,
            )[i + 1] == (AuthAttempt::DefaultKey { private_key: keys[i] }),
        password is None ==> forall|i: int|
            0 <= i < attempts_for(AuthMethod::Auto { password }, keys).len() ==> !(
            #[trigger] attempts_for(AuthMethod::Auto { password }, keys)[i] is Password)
                && !(attempts_for(AuthMethod::Auto { password }, keys)[i] is KeyboardInteractive),
{
}

/// Where the making of a connection stands; also what it needs next.
#[derive(Debug)]
pub enum ConnectStage {
    /// Connect to the address.
    Tcp,
    /// Exchange keys with the server.
    Handshake,
    /// Verify the server's key.
    HostKey,
    /// Authenticate.
    Authenticate,
    /// Ask whether the server regards the user as authenticated.
    Confirm,
    /// Open the file transfer subsystem.
    Sftp,
    Ended(Result<(), ConnectError>),
}

/// The making of a connection.
#[derive(Debug)]
pub struct Connecting {
    /// Host and port, as the connection and its error name them.
    pub addr: String,
    pub stage: ConnectStage,
}

/// The address that a profile stands for.
pub open spec fn address(host: Seq<char>, port: u16) -> Seq<char> {
    host + ":"@ + numbers::decimal(port as nat)
}

impl Connecting {
    /// Starts connecting.
    pub fn start(profile: &ConnectionProfile) -> (r: Self)
        ensures
            r.addr@ == address(profile.host@, profile.port),
            r.stage is Tcp,
    {
        let head: String = joined_text(profile.host.as_str(), ":");
        let number: String = from_chars(&numbers::decimal_chars(profile.port as u64));
        Connecting { addr: joined_text(head.as_str(), number.as_str()), stage: ConnectStage::Tcp }
    }

    /// Goes on after a step; the first that fails ends it with its error.
    pub fn on_result(&mut self, result: Result<(), String>)
        requires
            !(old(self).stage is Ended),
        ensures
            got_further(*old(self), result, *final(self)),
            final(self).addr == old(self).addr,
            match result {
                Ok(_) => match old(self).stage {
                    ConnectStage::Tcp => final(self).stage is Handshake,
                    ConnectStage::Handshake => final(self).stage is HostKey,
                    ConnectStage::HostKey => final(self).stage is Authenticate,
                    ConnectStage::Authenticate => final(self).stage is Confirm,
                    ConnectStage::Confirm => final(self).stage is Sftp,
                    _ => final(self).stage == ConnectStage::Ended(Ok(())),
                },
                Err(why) => match old(self).stage {
                    ConnectStage::Tcp => final(self).stage == ConnectStage::Ended(
                        Err(ConnectError::Tcp(old(self).addr, why)),
                    ),
                    ConnectStage::Handshake => final(self).stage == ConnectStage::Ended(
                        Err(ConnectError::Handshake(why)),
                    ),
                    ConnectStage::HostKey => final(self).stage == ConnectStage::Ended(
                        Err(ConnectError::HostKey(why)),
                    ),
                    ConnectStage::Authenticate => final(self).stage == ConnectStage::Ended(
                        Err(ConnectError::Auth(why)),
                    ),
                    ConnectStage::Confirm => final(self).stage matches ConnectStage::Ended(
                        Err(ConnectError::Auth(text)),
                    ) && text@ == "server did not confirm authentication"@,
                    _ => final(self).stage == ConnectStage::Ended(
                        Err(ConnectError::SftpInit(why)),
                    ),
                },
            },
    {
        self.stage = match result {
            Ok(_) => match &self.stage {
                ConnectStage::Tcp => ConnectStage::Handshake,
                ConnectStage::Handshake => ConnectStage::HostKey,
                ConnectStage::HostKey => ConnectStage::Authenticate,
                ConnectStage::Authenticate => ConnectStage::Confirm,
                ConnectStage::Confirm => ConnectStage::Sftp,
                _ => ConnectStage::Ended(Ok(())),
            },
            Err(why) => match &self.stage {
                ConnectStage::Tcp => ConnectStage::Ended(
                    Err(ConnectError::Tcp(self.addr.clone(), why)),
                ),
                ConnectStage::Handshake => ConnectStage::Ended(Err(ConnectError::Handshake(why))),
                ConnectStage::HostKey => ConnectStage::Ended(Err(ConnectError::HostKey(why))),
                ConnectStage::Authenticate => ConnectStage::Ended(Err(ConnectError::Auth(why))),
                ConnectStage::Confirm => ConnectStage::Ended(
                    Err(ConnectError::Auth(owned("server did not confirm authentication"))),
                ),
                _ => ConnectStage::Ended(Err(ConnectError::SftpInit(why))),
            },
        };
    }
}

/// Whether authentication goes from one state to the next by the result of an
/// attempt: a success ends it, and a failure leads on to the next attempt if
/// several are to be tried and one is left.
pub open spec fn went_on(
    before: Authentication,
    result: Result<(), String>,
    after: Authentication,
) -> bool {
    &&& after.attempts == before.attempts
    &&& after.auto == before.auto
    &&& match result {
        Ok(_) => after.ended == Some(Ok::<(), String>(())),
        Err(_) => if before.auto && before.at + 1 < before.attempts@.len() {
            after.ended is None && after.at == before.at + 1
        } else {
            after.ended matches Some(Err(_))
        },
    }
}

/// Whether `states` are those of an authentication in which the attempts had
/// these results.
pub open spec fn is_auth_run(
    states: Seq<Authentication>,
    results: Seq<Result<(), String>>,
) -> bool {
    &&& states.len() == results.len() + 1
    &&& states[0].at == 0
    &&& states[0].ended is None
    &&& forall|i: int|
        0 <= i < results.len() ==> (#[trigger] states[i]).ended is None && went_on(
            states[i],
            results[i],
            states[i + 1],
        )
}

proof fn lemma_auth_run(states: Seq<Authentication>, results: Seq<Result<(), String>>, n: int)
    requires
        is_auth_run(states, results),
        states[0].auto,
        0 <= n <= results.len(),
    ensures
        states[n].attempts == states[0].attempts,
        states[n].auto,
        states[n].ended is None ==> states[n].at == n && forall|i: int|
            0 <= i < n ==> (#[trigger] results[i]) is Err,
    decreases n,
{
    if n > 0 {
        lemma_auth_run(states, results, n - 1);
        assert(states[n - 1].ended is None && went_on(
            states[n - 1],
            results[n - 1],
            states[n - 1 + 1],
        ));
    }
}

/// Where several ways are tried, each has its turn, one after the other, until one
/// works: the user is in exactly if the last that was tried worked, and is refused
/// only when every single one was tried and failed.
pub proof fn law_every_way_is_tried(
    states: Seq<Authentication>,
    results: Seq<Result<(), String>>,
    i: int,
)
    requires
        is_auth_run(states, results),
        states[0].auto,
        states[0].attempts@.len() > 0,
        0 <= i < results.len(),
    ensures
        states[i].attempts@[states[i].at as int] == states[0].attempts@[i],
        i < results.len() - 1 ==> results[i] is Err,
        states.last().ended matches Some(Ok(_)) <==> results.last() is Ok,
        states.last().ended matches Some(Err(_)) ==> results.len() == states[0].attempts@.len(),
        results.last() is Err && results.len() < states[0].attempts@.len()
            ==> states.last().ended is None,
{
    lemma_auth_run(states, results, i);
    let n = results.len() - 1;
    lemma_auth_run(states, results, n);
    assert(states[n].ended is None && went_on(states[n], results[n], states[n + 1]));
    assert(states[n + 1] == states.last());
    assert(states[i].ended is None);
    lemma_auth_progress(states, results, n);
    if i < n {
        assert(results[i] is Err);
    }
}

proof fn lemma_auth_progress(
    states: Seq<Authentication>,
    results: Seq<Result<(), String>>,
    n: int,
)
    requires
        is_auth_run(states, results),
        states[0].auto,
        states[0].attempts@.len() > 0,
        0 <= n < results.len(),
    ensures
        n < states[0].attempts@.len(),
    decreases n,
{
    lemma_auth_run(states, results, n);
    assert(states[n].ended is None);
    if n > 0 {
        lemma_auth_progress(states, results, n - 1);
        lemma_auth_run(states, results, n - 1);
        assert(states[n - 1].ended is None && went_on(
            states[n - 1],
            results[n - 1],
            states[n - 1 + 1],
        ));
    }
}

/// A password is offered after all key files, and it is the one that was given;
/// a method that was asked for by itself is the only one.
pub proof fn law_only_what_was_asked(method: AuthMethod, keys: Seq<VfsPath>)
    ensures
        method matches AuthMethod::Auto { password } ==> (password matches Some(p) ==> {
            let all = attempts_for(method, keys);
            &&& all.len() == keys.len() + 3
            &&& all[keys.len() as int + 1] == AuthAttempt::Password(p)
            &&& all[keys.len() as int + 2] == AuthAttempt::KeyboardInteractive(p)
        }),
        !(method is Auto) ==> attempts_for(method, keys).len() == 1,
        method matches AuthMethod::Password(p) ==> attempts_for(method, keys)[0]
            == AuthAttempt::Password(p),
        method matches AuthMethod::KeyboardInteractive(p) ==> attempts_for(method, keys)[0]
            == AuthAttempt::KeyboardInteractive(p),
        method matches AuthMethod::KeyFile { private_key, public_key, passphrase }
            ==> attempts_for(method, keys)[0] == (AuthAttempt::KeyFile {
            private_key,
            public_key,
            passphrase,
        }),
        method is Agent ==> attempts_for(method, keys)[0] is Agent,
{
}

/// How many steps of a connection are done.
pub open spec fn steps_done(stage: ConnectStage) -> int {
    match stage {
        ConnectStage::Tcp => 0,
        ConnectStage::Handshake => 1,
        ConnectStage::HostKey => 2,
        ConnectStage::Authenticate => 3,
        ConnectStage::Confirm => 4,
        ConnectStage::Sftp => 5,
        ConnectStage::Ended(_) => 6,
    }
}

/// Whether a connection goes from one state to the next by the result of a step.
pub open spec fn got_further(
    before: Connecting,
    result: Result<(), String>,
    after: Connecting,
) -> bool {
    &&& after.addr == before.addr
    &&& match result {
        Ok(_) => steps_done(after.stage) == steps_done(before.stage) + 1 && !(
        after.stage matches ConnectStage::Ended(Err(_))),
        Err(_) => after.stage matches ConnectStage::Ended(Err(_)),
    }
}

/// Whether `states` are those of a connection whose steps had these results.
pub open spec fn is_connect_run(
    states: Seq<Connecting>,
    results: Seq<Result<(), String>>,
) -> bool {
    &&& states.len() == results.len() + 1
    &&& states[0].stage is Tcp
    &&& forall|i: int|
        0 <= i < results.len() ==> !((#[trigger] states[i]).stage is Ended) && got_further(
            states[i],
            results[i],
            states[i + 1],
        )
}

proof fn lemma_connect_run(
    states: Seq<Connecting>,
    results: Seq<Result<(), String>>,
    n: int,
)
    requires
        is_connect_run(states, results),
        0 <= n <= results.len(),
    ensures
        !(states[n].stage matches ConnectStage::Ended(Err(_))) ==> steps_done(states[n].stage) == n
            && forall|i: int| 0 <= i < n ==> (#[trigger] results[i]) is Ok,
        states[n].stage matches ConnectStage::Ended(Err(_)) ==> n > 0 && results[n - 1] is Err,
    decreases n,
{
    if n > 0 {
        lemma_connect_run(states, results, n - 1);
        assert(!(states[n - 1].stage is Ended) && got_further(
            states[n - 1],
            results[n - 1],
            states[n - 1 + 1],
        ));
    }
}

/// A connection is made only after the server's key was verified, the user was
/// authenticated and the server confirmed it, in this order and with nothing left
/// out; the first step that fails ends it.
pub proof fn law_connected_after_all_steps(
    states: Seq<Connecting>,
    results: Seq<Result<(), String>>,
    i: int,
)
    requires
        is_connect_run(states, results),
        0 <= i < results.len(),
    ensures
        states.last().stage matches ConnectStage::Ended(Ok(_)) ==> {
            &&& results.len() == 6
            &&& results[i] is Ok
            &&& states[2].stage is HostKey
            &&& states[3].stage is Authenticate
            &&& states[4].stage is Confirm
        },
        results[i] is Err ==> i == results.len() - 1 && (states.last().stage matches
            ConnectStage::Ended(Err(_))),
{
    let n = results.len() as int;
    lemma_connect_run(states, results, n);
    assert(states[n] == states.last());
    lemma_connect_run(states, results, i);
    assert(!(states[i].stage is Ended) && got_further(states[i], results[i], states[i + 1]));
    if results[i] is Err && i < n - 1 {
        assert(!(states[i + 1].stage is Ended));
    }
    if states.last().stage matches ConnectStage::Ended(Ok(_)) {
        assert(results[i] is Ok);
        lemma_connect_run(states, results, 2);
        lemma_connect_run(states, results, 3);
        lemma_connect_run(states, results, 4);
        assert(!(states[2].stage is Ended));
        assert(!(states[3].stage is Ended));
        assert(!(states[4].stage is Ended));
    }
}

/// Different ports of a host have different addresses, and an address begins with
/// its host.
pub proof fn law_address(host: Seq<char>, p: u16, q: u16)
    ensures
        address(host, p) == address(host, q) ==> p == q,
        host.is_prefix_of(address(host, p)),
        numbers::parsed(address(host, p).skip(host.len() as int + 1), 10, 65535) == Some(p as nat),
{
    reveal_strlit(":");
    let a = address(host, p);
    let b = address(host, q);
    assert(a.skip(host.len() as int + 1) =~= numbers::decimal(p as nat));
    assert(b.skip(host.len() as int + 1) =~= numbers::decimal(q as nat));
    numbers::lemma_decimal_reads_back(p as nat, 65535);
    numbers::lemma_decimal_reads_back(q as nat, 65535);
}

/// A key file is where it should be: in the directory for keys of the home
/// directory, under its name.
pub proof fn law_key_path(home: Seq<char>, name: Seq<char>)
    requires
        home.len() > 0,
        path::is_plain_name(name),
    ensures
        path::components(key_path(home, name)) == path::components(home).push(".ssh"@).push(name),
{
    reveal_strlit(".ssh");
    let dir = ".ssh"@;
    assert(!dir.contains('/'));
    assert(path::is_plain_name(dir));
    path::lemma_join_adds_component(home, dir);
    assert(path::joined(home, dir).len() > 0);
    path::lemma_join_adds_component(path::joined(home, dir), name);
}

} // verus!
