//! Getting the agent onto a remote host: upload, start, and read what it says
//! about itself.

use vstd::prelude::*;

use crate::hex;
use crate::numbers;
use crate::shell;
use crate::shell::shell_quote;
use crate::text;
use crate::text::{from_chars, joined_text, owned, strip_prefix, to_chars, trim_chars};

verus! {

/// What a freshly deployed agent reported about itself on startup.
#[derive(Debug)]
pub struct DeployedAgent {
    pub pid: u32,
    pub port: u16,
    pub cert_der: Vec<u8>,
}

/// Why an agent could not be deployed (or stopped).
#[derive(Debug)]
pub enum DeployError {
    ReadLocalBinary(String, String),
    Upload(String),
    Exec(String),
    ReadOutput(String),
    MalformedOutput(String),
    Kill(u32, String),
}

impl DeployError {
    /// The error in words.
    pub open spec fn text(self) -> Seq<char> {
        match self {
            DeployError::ReadLocalBinary(p, why) => "failed to read local agent binary at "@ + p@
                + ": "@ + why@,
            DeployError::Upload(why) => "failed to upload agent binary: "@ + why@,
            DeployError::Exec(why) => "failed to exec remote agent: "@ + why@,
            DeployError::ReadOutput(why) => "failed to read agent startup output: "@ + why@,
            DeployError::MalformedOutput(why) =>
                "agent startup output was missing or malformed: "@ + why@,
            DeployError::Kill(pid, why) => "failed to kill remote process "@ + numbers::decimal(
                pid as nat,
            ) + ": "@ + why@,
        }
    }

    /// The error in words.
    pub fn message(&self) -> (r: String)
        ensures
            r@ == self.text(),
    {
        match self {
            DeployError::ReadLocalBinary(p, why) => {
                let head: String = joined_text("failed to read local agent binary at ", p.as_str());
                joined_text(joined_text(head.as_str(), ": ").as_str(), why.as_str())
            },
            DeployError::Upload(why) => joined_text("failed to upload agent binary: ", why.as_str()),
            DeployError::Exec(why) => joined_text("failed to exec remote agent: ", why.as_str()),
            DeployError::ReadOutput(why) => joined_text(
                "failed to read agent startup output: ",
                why.as_str(),
            ),
            DeployError::MalformedOutput(why) => joined_text(
                "agent startup output was missing or malformed: ",
                why.as_str(),
            ),
            DeployError::Kill(pid, why) => {
                let number: String = from_chars(&numbers::decimal_chars(*pid as u64));
                let head: String = joined_text("failed to kill remote process ", number.as_str());
                joined_text(joined_text(head.as_str(), ": ").as_str(), why.as_str())
            },
        }
    }
}

/// Where on the remote host the agent is put.
pub open spec fn remote_agent_path(remote_dir: Seq<char>) -> Seq<char> {
    remote_dir + "/pfnc-agent"@
}

/// Where on the remote host the agent is put.
pub fn agent_path(remote_dir: &str) -> (r: String)
    ensures
        r@ == remote_agent_path(remote_dir@),
{
    joined_text(remote_dir, "/pfnc-agent")
}

/// The command that starts the agent on a port of the system's choice.
pub open spec fn start_words(remote_path: Seq<char>) -> Seq<char> {
    shell::quoted(remote_path) + " --port 0"@
}

/// The command that starts the agent on a port of the system's choice.
pub fn start_command(remote_path: &str) -> (r: String)
    ensures
        r@ == start_words(remote_path@),
        r@ == shell::quoted(remote_path@) + " --port 0"@,
{
    joined_text(shell_quote(remote_path).as_str(), " --port 0")
}

/// The command that stops a process on the remote host.
pub open spec fn kill_command(pid: u32) -> Seq<char> {
    "kill "@ + numbers::decimal(pid as nat)
}

/// The command that stops a process on the remote host.
pub fn kill_remote_process(pid: u32) -> (r: String)
    ensures
        r@ == kill_command(pid),
        r@ == "kill "@ + numbers::decimal(pid as nat),
{
    joined_text("kill ", from_chars(&numbers::decimal_chars(pid as u64)).as_str())
}

/// How many lines of output are looked at for what the agent says.
pub const MAX_STARTUP_LINES: usize = 50;

/// A text as `{:?}` of `std::fmt` writes it: in double quotes, with what cannot
/// be shown as it is escaped.
pub uninterp spec fn debug_text(s: Seq<char>) -> Seq<char>;

/// `format!` of `std` with `{:?}` for a `str`, named [`debug_text`].
#[verifier::external_body]
fn debug_form(s: &str) -> (r: String)
    ensures
        r@ == debug_text(s@),
{
    format!("{s:?}")
}

/// What has been learned from the agent's output so far.
#[verifier::ext_equal]
pub ghost struct StartupFacts {
    pub pid: Option<nat>,
    pub port: Option<nat>,
    pub cert: Option<Seq<u8>>,
}

/// Nothing is known yet.
pub open spec fn nothing_known() -> StartupFacts {
    StartupFacts { pid: None, port: None, cert: None }
}

impl StartupFacts {
    /// Whether everything is known.
    pub open spec fn is_complete(self) -> bool {
        self.pid is Some && self.port is Some && self.cert is Some
    }
}

/// What one line of output adds: a line with one of the three prefixes must
/// carry a value that can be read, any other line is passed over.
pub open spec fn line_adds(f: StartupFacts, raw: Seq<char>) -> Result<StartupFacts, Seq<char>> {
    let line = text::trimmed(raw);
    match text::prefix_stripped(line, "PFNC-AGENT-PID "@) {
        Some(value) => match numbers::parsed(value, 10, 0xffff_ffff) {
            Some(pid) => Ok(StartupFacts { pid: Some(pid), ..f }),
            None => Err("bad pid in "@ + debug_text(line)),
        },
        None => match text::prefix_stripped(line, "PFNC-AGENT-PORT "@) {
            Some(value) => match numbers::parsed(value, 10, 0xffff) {
                Some(port) => Ok(StartupFacts { port: Some(port), ..f }),
                None => Err("bad port in "@ + debug_text(line)),
            },
            None => match text::prefix_stripped(line, "PFNC-AGENT-CERT-HEX "@) {
                Some(value) => match hex::bytes_of(value) {
                    Some(cert) => Ok(StartupFacts { cert: Some(cert), ..f }),
                    None => Err("bad cert hex: "@ + hex_error(value)),
                },
                None => Ok(f),
            },
        },
    }
}

/// Why a text is not bytes in hexadecimal.
pub open spec fn hex_error(value: Seq<char>) -> Seq<char> {
    if vstd::utf8::encode_utf8(value).len() % 2 != 0 {
        "odd-length hex string ("@ + numbers::decimal(vstd::utf8::encode_utf8(value).len())
            + " chars)"@
    } else {
        "invalid digit found in string"@
    }
}

/// What the first `n` lines add, reading no further than needed and no more
/// than [`MAX_STARTUP_LINES`].
pub open spec fn lines_add(lines: Seq<Seq<char>>, n: int) -> Result<StartupFacts, Seq<char>>
    decreases n,
{
    if n <= 0 {
        Ok(nothing_known())
    } else {
        match lines_add(lines, n - 1) {
            Err(e) => Err(e),
            Ok(f) => if f.is_complete() || n > MAX_STARTUP_LINES {
                Ok(f)
            } else {
                line_adds(f, lines[n - 1])
            },
        }
    }
}

/// Reads the agent's startup output line by line.
#[derive(Debug)]
pub struct StartupReader {
    pub pid: Option<u32>,
    pub port: Option<u16>,
    pub cert_der: Option<Vec<u8>>,
    pub lines_read: usize,
}

impl StartupReader {
    /// What is known so far.
    pub open spec fn facts(self) -> StartupFacts {
        StartupFacts {
            pid: match self.pid {
                Some(p) => Some(p as nat),
                None => None,
            },
            port: match self.port {
                Some(p) => Some(p as nat),
                None => None,
            },
            cert: match self.cert_der {
                Some(c) => Some(c@),
                None => None,
            },
        }
    }

    /// A reader that has read nothing.
    pub fn new() -> (r: Self)
        ensures
            r.facts() == nothing_known(),
            r.lines_read == 0,
    {
        StartupReader { pid: None, port: None, cert_der: None, lines_read: 0 }
    }

    /// Whether another line is wanted: something is missing, and there have
    /// not been too many lines.
    pub fn wants_line(&self) -> (r: bool)
        ensures
            r == (!self.facts().is_complete() && self.lines_read < MAX_STARTUP_LINES),
    {
        !(self.pid.is_some() && self.port.is_some() && self.cert_der.is_some()) && self.lines_read
            < MAX_STARTUP_LINES
    }

    /// Takes one line of output.
    pub fn on_line(&mut self, raw: &str) -> (r: Result<(), DeployError>)
        requires
            old(self).lines_read < MAX_STARTUP_LINES,
        ensures
            final(self).lines_read == old(self).lines_read + 1,
            match line_adds(old(self).facts(), raw@) {
                Ok(f) => r is Ok && final(self).facts() == f,
                Err(why) => r matches Err(DeployError::MalformedOutput(e)) && e@ == why,
            },
    {
        self.lines_read = self.lines_read + 1;
        let line: Vec<char> = trim_chars(&to_chars(raw));
        let line_text: String = from_chars(&line);
        match strip_prefix(&line, "PFNC-AGENT-PID ") {
            Some(value) => {
                return match numbers::parse_number(&value, 10, 0xffff_ffff) {
                    Some(pid) => {
                        self.pid = Some(pid as u32);
                        Ok(())
                    },
                    None => Err(
                        DeployError::MalformedOutput(
                            joined_text("bad pid in ", debug_form(line_text.as_str()).as_str()),
                        ),
                    ),
                };
            },
            None => {},
        }
        match strip_prefix(&line, "PFNC-AGENT-PORT ") {
            Some(value) => {
                return match numbers::parse_number(&value, 10, 0xffff) {
                    Some(port) => {
                        self.port = Some(port as u16);
                        Ok(())
                    },
                    None => Err(
                        DeployError::MalformedOutput(
                            joined_text("bad port in ", debug_form(line_text.as_str()).as_str()),
                        ),
                    ),
                };
            },
            None => {},
        }
        match strip_prefix(&line, "PFNC-AGENT-CERT-HEX ") {
            Some(value) => {
                let value_text: String = from_chars(&value);
                match hex::from_hex(value_text.as_str()) {
                    Ok(cert) => {
                        self.cert_der = Some(cert);
                        Ok(())
                    },
                    Err(why) => Err(
                        DeployError::MalformedOutput(joined_text("bad cert hex: ", why.as_str())),
                    ),
                }
            },
            None => Ok(()),
        }
    }

    /// What the agent said, if it said everything.
    pub fn finish(self) -> (r: Result<DeployedAgent, DeployError>)
        ensures
            match r {
                Ok(agent) => self.facts() == (StartupFacts {
                    pid: Some(agent.pid as nat),
                    port: Some(agent.port as nat),
                    cert: Some(agent.cert_der@),
                }),
                Err(e) => {
                    &&& !self.facts().is_complete()
                    &&& e matches DeployError::MalformedOutput(why)
                    &&& why@
                        == "missing one or more expected startup lines (agent likely failed to start)"@
                },
            },
    {
        match (self.pid, self.port, self.cert_der) {
            (Some(pid), Some(port), Some(cert_der)) => Ok(DeployedAgent { pid, port, cert_der }),
            _ => Err(
                DeployError::MalformedOutput(
                    owned(
                        "missing one or more expected startup lines (agent likely failed to start)",
                    ),
                ),
            ),
        }
    }
}

/// The texts of a list of lines.
pub open spec fn line_texts(lines: Seq<String>) -> Seq<Seq<char>> {
    Seq::new(lines.len(), |i: int| lines[i]@)
}

/// Reads the agent's three startup lines out of its whole output, whatever
/// other lines are around them and in whatever order they come. What follows
/// the last line that is needed, or the last that is looked at, is not read.
pub fn parse_startup_lines(lines: &Vec<String>) -> (r: Result<DeployedAgent, DeployError>)
    ensures
        match lines_add(line_texts(lines@), lines@.len() as int) {
            Err(why) => r matches Err(DeployError::MalformedOutput(e)) && e@ == why,
            Ok(f) => match r {
                Ok(agent) => f == (StartupFacts {
                    pid: Some(agent.pid as nat),
                    port: Some(agent.port as nat),
                    cert: Some(agent.cert_der@),
                }),
                Err(e) => {
                    &&& !f.is_complete()
                    &&& e matches DeployError::MalformedOutput(why)
                    &&& why@
                        == "missing one or more expected startup lines (agent likely failed to start)"@
                },
            },
        },
{
    let mut reader = StartupReader::new();
    let mut i: usize = 0;
    let ghost texts = line_texts(lines@);
    while i < lines.len() && reader.wants_line()
        invariant
            i <= lines@.len(),
            texts == line_texts(lines@),
            reader.lines_read == i,
            i <= MAX_STARTUP_LINES,
            lines_add(texts, i as int) == Ok::<StartupFacts, Seq<char>>(reader.facts()),
        decreases lines.len() - i,
    {
        match reader.on_line(lines[i].as_str()) {
            Ok(_) => {},
            Err(e) => {
                proof {
                    lemma_lines_error_stays(texts, i + 1, lines@.len() as int);
                }
                return Err(e);
            },
        }
        i += 1;
    }
    proof {
        lemma_lines_stop(texts, i as int, lines@.len() as int);
    }
    reader.finish()
}

proof fn lemma_lines_error_stays(lines: Seq<Seq<char>>, n: int, m: int)
    requires
        0 <= n <= m,
        lines_add(lines, n) is Err,
    ensures
        lines_add(lines, m) == lines_add(lines, n),
    decreases m - n,
{
    if n < m {
        lemma_lines_error_stays(lines, n, m - 1);
    }
}

proof fn lemma_lines_stop(lines: Seq<Seq<char>>, n: int, m: int)
    requires
        0 <= n <= m,
        lines_add(lines, n) matches Ok(f) && (f.is_complete() || n >= MAX_STARTUP_LINES || n == m),
    ensures
        lines_add(lines, m) == lines_add(lines, n),
    decreases m - n,
{
    if n < m {
        lemma_lines_stop(lines, n, m - 1);
    }
}

/// The three lines by which an agent reports itself.
pub fn startup_report(pid: u32, port: u16, cert_der: &Vec<u8>) -> (r: (String, String, String))
    ensures
        r.0@ == "PFNC-AGENT-PID "@ + numbers::decimal(pid as nat),
        r.1@ == "PFNC-AGENT-PORT "@ + numbers::decimal(port as nat),
        r.2@ == "PFNC-AGENT-CERT-HEX "@ + hex::hex_of(cert_der@),
{
    (
        joined_text("PFNC-AGENT-PID ", from_chars(&numbers::decimal_chars(pid as u64)).as_str()),
        joined_text("PFNC-AGENT-PORT ", from_chars(&numbers::decimal_chars(port as u64)).as_str()),
        joined_text("PFNC-AGENT-CERT-HEX ", hex::to_hex(cert_der).as_str()),
    )
}

proof fn lemma_trimmed_as_is(s: Seq<char>)
    requires
        s.len() > 0,
        !text::is_white_space(s[0]),
        !text::is_white_space(s.last()),
    ensures
        text::trimmed(s) == s,
{
}

proof fn lemma_digit_is_no_space(d: nat)
    requires
        d < 16,
    ensures
        !text::is_white_space(numbers::digit_char(d)),
{
}

proof fn lemma_decimal_end(n: nat)
    ensures
        numbers::decimal(n).len() > 0,
        !text::is_white_space(numbers::decimal(n).last()),
{
    if n < 10 {
        lemma_digit_is_no_space(n);
    } else {
        lemma_digit_is_no_space(n % 10);
    }
}

proof fn lemma_line_with_prefix(prefix: Seq<char>, value: Seq<char>)
    requires
        prefix.len() > 0,
        value.len() > 0,
        !text::is_white_space(prefix[0]),
        !text::is_white_space(value.last()),
    ensures
        text::trimmed(prefix + value) == prefix + value,
        text::prefix_stripped(prefix + value, prefix) == Some(value),
{
    let line = prefix + value;
    assert(line[0] == prefix[0]);
    assert(line.last() == value.last());
    lemma_trimmed_as_is(line);
    assert(line.take(prefix.len() as int) =~= prefix);
    assert(line.skip(prefix.len() as int) =~= value);
}

/// Each of the three lines by which an agent reports itself tells the reader
/// what it is about, whatever else is known already. (A certificate has at
/// least one byte.)
pub proof fn law_report_reads_back(f: StartupFacts, pid: u32, port: u16, cert: Seq<u8>)
    requires
        cert.len() > 0,
    ensures
        line_adds(f, "PFNC-AGENT-PID "@ + numbers::decimal(pid as nat)) == Ok::<
            StartupFacts,
            Seq<char>,
        >(StartupFacts { pid: Some(pid as nat), ..f }),
        line_adds(f, "PFNC-AGENT-PORT "@ + numbers::decimal(port as nat)) == Ok::<
            StartupFacts,
            Seq<char>,
        >(StartupFacts { port: Some(port as nat), ..f }),
        line_adds(f, "PFNC-AGENT-CERT-HEX "@ + hex::hex_of(cert)) == Ok::<
            StartupFacts,
            Seq<char>,
        >(StartupFacts { cert: Some(cert), ..f }),
{
    reveal_strlit("PFNC-AGENT-PID ");
    reveal_strlit("PFNC-AGENT-PORT ");
    reveal_strlit("PFNC-AGENT-CERT-HEX ");
    let p1 = "PFNC-AGENT-PID "@;
    let p2 = "PFNC-AGENT-PORT "@;
    let p3 = "PFNC-AGENT-CERT-HEX "@;
    let v1 = numbers::decimal(pid as nat);
    let v2 = numbers::decimal(port as nat);
    let v3 = hex::hex_of(cert);
    lemma_decimal_end(pid as nat);
    lemma_decimal_end(port as nat);
    lemma_digit_is_no_space((cert.last() % 16) as nat);
    assert(v3.last() == numbers::digit_char((cert.last() % 16) as nat));
    lemma_line_with_prefix(p1, v1);
    lemma_line_with_prefix(p2, v2);
    lemma_line_with_prefix(p3, v3);
    numbers::lemma_decimal_reads_back(pid as nat, 0xffff_ffff);
    numbers::lemma_decimal_reads_back(port as nat, 0xffff);
    hex::law_hex_reads_back(cert);
    let l2 = p2 + v2;
    let l3 = p3 + v3;
    assert(l2.take(p1.len() as int)[12] == 'O');
    assert(p1[12] == 'I');
    assert(l3.take(p1.len() as int)[11] == 'C');
    assert(p1[11] == 'P');
    assert(l3.take(p2.len() as int)[11] == 'C');
    assert(p2[11] == 'P');
}

/// Where a deployment stands; also what it needs next.
#[derive(Debug)]
pub enum DeployStage {
    /// Read the agent's binary.
    ReadBinary,
    /// Upload it, executable, to the remote path.
    Upload,
    /// Start it with the start command.
    Exec,
    /// Read a line of its output.
    ReadLine(StartupReader),
    Ended(Result<DeployedAgent, DeployError>),
}

/// What came of the step a deployment was waiting for.
#[derive(Debug)]
pub enum DeployEvent {
    Done,
    /// A line of output.
    Line(String),
    /// The output has ended.
    EndOfOutput,
    Failed(String),
}

/// A deployment under way.
#[derive(Debug)]
pub struct Deployment {
    /// The local binary's path, for display.
    pub binary: String,
    pub stage: DeployStage,
}

/// Whether a deployment has ended with what the reader found.
pub open spec fn ends_with_report(stage: DeployStage, facts: StartupFacts) -> bool {
    match stage {
        DeployStage::Ended(Ok(agent)) => facts == (StartupFacts {
            pid: Some(agent.pid as nat),
            port: Some(agent.port as nat),
            cert: Some(agent.cert_der@),
        }),
        DeployStage::Ended(Err(DeployError::MalformedOutput(why))) => {
            &&& !facts.is_complete()
            &&& why@
                == "missing one or more expected startup lines (agent likely failed to start)"@
        },
        _ => false,
    }
}

/// Starts the deployment of the agent whose binary is at this local path.
pub fn deploy_and_start(binary: &str) -> (r: Deployment)
    ensures
        r.binary@ == binary@,
        r.stage is ReadBinary,
{
    Deployment { binary: owned(binary), stage: DeployStage::ReadBinary }
}

impl Deployment {
    /// Where a deployment goes from a line of output: on to the next line while
    /// something is missing and there have not been too many, and else to its
    /// end.
    pub open spec fn takes_line(reader: StartupReader, raw: Seq<char>, stage: DeployStage) -> bool {
        match line_adds(reader.facts(), raw) {
            Err(why) => stage matches DeployStage::Ended(Err(DeployError::MalformedOutput(e))) && e@
                == why,
            Ok(f) => if !f.is_complete() && reader.lines_read + 1 < MAX_STARTUP_LINES {
                stage matches DeployStage::ReadLine(next) && next.facts() == f && next.lines_read
                    == reader.lines_read + 1
            } else {
                ends_with_report(stage, f)
            },
        }
    }

    /// Goes on after the awaited step.
    pub fn on_event(&mut self, event: DeployEvent)
        requires
            !(old(self).stage is Ended),
            old(self).stage matches DeployStage::ReadLine(reader) ==> reader.lines_read
                < MAX_STARTUP_LINES && !(event is Done),
            !(old(self).stage is ReadLine) ==> event is Done || event is Failed,
        ensures
            deploy_went_on(*old(self), event, *final(self)),
            final(self).binary == old(self).binary,
            match (old(self).stage, event) {
                (DeployStage::ReadBinary, DeployEvent::Failed(why)) => final(self).stage
                    == DeployStage::Ended(
                    Err(DeployError::ReadLocalBinary(old(self).binary, why)),
                ),
                (DeployStage::ReadBinary, _) => final(self).stage is Upload,
                (DeployStage::Upload, DeployEvent::Failed(why)) => final(self).stage
                    == DeployStage::Ended(Err(DeployError::Upload(why))),
                (DeployStage::Upload, _) => final(self).stage is Exec,
                (DeployStage::Exec, DeployEvent::Failed(why)) => final(self).stage
                    == DeployStage::Ended(Err(DeployError::Exec(why))),
                (DeployStage::Exec, _) => final(self).stage matches DeployStage::ReadLine(reader)
                    && reader.facts() == nothing_known() && reader.lines_read == 0,
                (DeployStage::ReadLine(reader), DeployEvent::Line(raw)) => Self::takes_line(
                    reader,
                    raw@,
                    final(self).stage,
                ),
                (DeployStage::ReadLine(reader), DeployEvent::Failed(why)) => final(self).stage
                    == DeployStage::Ended(Err(DeployError::ReadOutput(why))),
                (DeployStage::ReadLine(reader), _) => ends_with_report(
                    final(self).stage,
                    reader.facts(),
                ),
                _ => true,
            },
    {
        let mut stage = DeployStage::Upload;
        std::mem::swap(&mut self.stage, &mut stage);
        self.stage = match (stage, event) {
            (DeployStage::ReadBinary, DeployEvent::Failed(why)) => DeployStage::Ended(
                Err(DeployError::ReadLocalBinary(self.binary.clone(), why)),
            ),
            (DeployStage::ReadBinary, _) => DeployStage::Upload,
            (DeployStage::Upload, DeployEvent::Failed(why)) => DeployStage::Ended(
                Err(DeployError::Upload(why)),
            ),
            (DeployStage::Upload, _) => DeployStage::Exec,
            (DeployStage::Exec, DeployEvent::Failed(why)) => DeployStage::Ended(
                Err(DeployError::Exec(why)),
            ),
            (DeployStage::Exec, _) => DeployStage::ReadLine(StartupReader::new()),
            (DeployStage::ReadLine(reader), DeployEvent::Line(raw)) => {
                let mut reader = reader;
                match reader.on_line(raw.as_str()) {
                    Err(e) => DeployStage::Ended(Err(e)),
                    Ok(_) => if reader.wants_line() {
                        DeployStage::ReadLine(reader)
                    } else {
                        DeployStage::Ended(reader.finish())
                    },
                }
            },
            (DeployStage::ReadLine(_), DeployEvent::Failed(why)) => DeployStage::Ended(
                Err(DeployError::ReadOutput(why)),
            ),
            (DeployStage::ReadLine(reader), _) => DeployStage::Ended(reader.finish()),
            (ended, _) => ended,
        };
    }
}

/// Whether a line of output has nothing to do with the report.
pub open spec fn is_noise(raw: Seq<char>) -> bool {
    !text::has_prefix(text::trimmed(raw), "PFNC-AGENT-"@)
}

/// Whether every line but the three of the report is noise.
pub open spec fn is_report_among(
    lines: Seq<Seq<char>>,
    i: int,
    j: int,
    k: int,
    pid: u32,
    port: u16,
    cert: Seq<u8>,
) -> bool {
    &&& 0 <= i < lines.len()
    &&& 0 <= j < lines.len()
    &&& 0 <= k < lines.len()
    &&& i != j && j != k && k != i
    &&& text::is_padded(lines[i], "PFNC-AGENT-PID "@ + numbers::decimal(pid as nat))
    &&& text::is_padded(lines[j], "PFNC-AGENT-PORT "@ + numbers::decimal(port as nat))
    &&& text::is_padded(lines[k], "PFNC-AGENT-CERT-HEX "@ + hex::hex_of(cert))
    &&& forall|m: int|
        0 <= m < lines.len() && m != i && m != j && m != k ==> is_noise(#[trigger] lines[m])
}

proof fn lemma_noise(f: StartupFacts, raw: Seq<char>)
    requires
        is_noise(raw),
    ensures
        line_adds(f, raw) == Ok::<StartupFacts, Seq<char>>(f),
{
    let line = text::trimmed(raw);
    reveal_strlit("PFNC-AGENT-");
    reveal_strlit("PFNC-AGENT-PID ");
    reveal_strlit("PFNC-AGENT-PORT ");
    reveal_strlit("PFNC-AGENT-CERT-HEX ");
    let p = "PFNC-AGENT-"@;
    assert("PFNC-AGENT-PID "@.take(11) =~= p);
    assert("PFNC-AGENT-PORT "@.take(11) =~= p);
    assert("PFNC-AGENT-CERT-HEX "@.take(11) =~= p);
    if text::has_prefix(line, "PFNC-AGENT-PID "@) {
        assert(line.take(15).take(11) =~= line.take(11));
    }
    if text::has_prefix(line, "PFNC-AGENT-PORT "@) {
        assert(line.take(16).take(11) =~= line.take(11));
    }
    if text::has_prefix(line, "PFNC-AGENT-CERT-HEX "@) {
        assert(line.take(20).take(11) =~= line.take(11));
    }
}

proof fn lemma_digits_are_firm(n: nat)
    ensures
        numbers::decimal(n).len() > 0,
        0x21 <= numbers::decimal(n).last() as int <= 0x7e,
{
    if n >= 10 {
        assert(numbers::decimal(n).last() == numbers::digit_char(n % 10));
    }
}

proof fn lemma_padded_line(f: StartupFacts, raw: Seq<char>, line: Seq<char>)
    requires
        text::is_padded(raw, line),
        text::has_firm_ends(line),
    ensures
        line_adds(f, raw) == line_adds(f, line),
{
    text::law_padding_does_not_count(raw, line);
    text::law_trimmed_keeps(line);
}

proof fn lemma_report_so_far(
    lines: Seq<Seq<char>>,
    i: int,
    j: int,
    k: int,
    pid: u32,
    port: u16,
    cert: Seq<u8>,
    n: int,
)
    requires
        is_report_among(lines, i, j, k, pid, port, cert),
        cert.len() > 0,
        0 <= n <= lines.len(),
        i < MAX_STARTUP_LINES,
        j < MAX_STARTUP_LINES,
        k < MAX_STARTUP_LINES,
    ensures
        lines_add(lines, n) == Ok::<StartupFacts, Seq<char>>(
            StartupFacts {
                pid: if i < n {
                    Some(pid as nat)
                } else {
                    None
                },
                port: if j < n {
                    Some(port as nat)
                } else {
                    None
                },
                cert: if k < n {
                    Some(cert)
                } else {
                    None
                },
            },
        ),
    decreases n,
{
    if n > 0 {
        lemma_report_so_far(lines, i, j, k, pid, port, cert, n - 1);
        let f = lines_add(lines, n - 1)->Ok_0;
        law_report_reads_back(f, pid, port, cert);
        let m = n - 1;
        reveal_strlit("PFNC-AGENT-PID ");
        reveal_strlit("PFNC-AGENT-PORT ");
        reveal_strlit("PFNC-AGENT-CERT-HEX ");
        let a = "PFNC-AGENT-PID "@ + numbers::decimal(pid as nat);
        let b = "PFNC-AGENT-PORT "@ + numbers::decimal(port as nat);
        let c = "PFNC-AGENT-CERT-HEX "@ + hex::hex_of(cert);
        lemma_digits_are_firm(pid as nat);
        lemma_digits_are_firm(port as nat);
        assert(a.last() == numbers::decimal(pid as nat).last());
        assert(b.last() == numbers::decimal(port as nat).last());
        assert(c.last() == numbers::digit_char((cert.last() % 16) as nat)) by {
            assert(hex::hex_of(cert).last() == numbers::digit_char((cert.last() % 16) as nat));
        }
        assert(text::has_firm_ends(a) && text::has_firm_ends(b) && text::has_firm_ends(c));
        if m == i {
            lemma_padded_line(f, lines[m], a);
        } else if m == j {
            lemma_padded_line(f, lines[m], b);
        } else if m == k {
            lemma_padded_line(f, lines[m], c);
        }
        if m != i && m != j && m != k {
            assert(is_noise(lines[m]));
            lemma_noise(f, lines[m]);
        }
    }
}

/// An agent's report is found wherever its three lines stand among the first lines
/// of output, in whatever order, with whatever white space around them and whatever
/// other lines before, between and behind them.
pub proof fn law_report_is_found(
    lines: Seq<Seq<char>>,
    i: int,
    j: int,
    k: int,
    pid: u32,
    port: u16,
    cert: Seq<u8>,
)
    requires
        is_report_among(lines, i, j, k, pid, port, cert),
        cert.len() > 0,
        i < 50,
        j < 50,
        k < 50,
    ensures
        lines_add(lines, lines.len() as int) == Ok::<StartupFacts, Seq<char>>(
            StartupFacts {
                pid: Some(pid as nat),
                port: Some(port as nat),
                cert: Some(cert),
            },
        ),
{
    lemma_report_so_far(lines, i, j, k, pid, port, cert, lines.len() as int);
}

/// A line that is about the process or the port but has no number in it is an
/// error, whatever is known already.
pub proof fn law_bad_report_is_an_error(f: StartupFacts, value: Seq<char>)
    requires
        text::has_firm_ends(value),
    ensures
        numbers::parsed(value, 10, 0xffff_ffff) is None ==> line_adds(
            f,
            "PFNC-AGENT-PID "@ + value,
        ) is Err,
        numbers::parsed(value, 10, 0xffff) is None ==> line_adds(
            f,
            "PFNC-AGENT-PORT "@ + value,
        ) is Err,
{
    reveal_strlit("PFNC-AGENT-PID ");
    reveal_strlit("PFNC-AGENT-PORT ");
    text::law_white_space(value.last());
    lemma_line_with_prefix("PFNC-AGENT-PID "@, value);
    lemma_line_with_prefix("PFNC-AGENT-PORT "@, value);
    let l2 = "PFNC-AGENT-PORT "@ + value;
    assert(l2.take("PFNC-AGENT-PID "@.len() as int)[12] == 'O');
    assert("PFNC-AGENT-PID "@[12] == 'I');
}

/// Whether a deployment goes from one state to the next by what happened.
pub open spec fn deploy_went_on(before: Deployment, event: DeployEvent, after: Deployment) -> bool {
    match event {
        DeployEvent::Failed(_) => after.stage matches DeployStage::Ended(Err(_)),
        DeployEvent::Done => match before.stage {
            DeployStage::ReadBinary => after.stage is Upload,
            DeployStage::Upload => after.stage is Exec,
            DeployStage::Exec => after.stage is ReadLine && (after.stage->ReadLine_0).facts()
                == nothing_known(),
            _ => true,
        },
        DeployEvent::Line(raw) => before.stage is ReadLine ==> Deployment::takes_line(
            before.stage->ReadLine_0,
            raw@,
            after.stage,
        ),
        DeployEvent::EndOfOutput => before.stage is ReadLine ==> ends_with_report(
            after.stage,
            (before.stage->ReadLine_0).facts(),
        ),
    }
}

/// A deployment succeeds only on the agent's own report: it ends with an agent only
/// when a line, or the end of the output, completes what was read of it, and then
/// with the process, port and certificate that the agent told.
pub proof fn law_deployed_as_reported(
    before: Deployment,
    event: DeployEvent,
    after: Deployment,
    pid: u32,
    port: u16,
    cert: Seq<u8>,
)
    requires
        deploy_went_on(before, event, after),
        before.stage is ReadBinary || before.stage is Upload || before.stage is Exec
            || before.stage is ReadLine,
        !(before.stage is ReadLine) ==> event is Done || event is Failed,
        before.stage is ReadLine ==> !(event is Done),
    ensures
        after.stage matches DeployStage::Ended(Ok(_)) ==> before.stage is ReadLine,
        before.stage is ReadBinary && event is Done ==> after.stage is Upload,
        before.stage is Upload && event is Done ==> after.stage is Exec,
        event is Failed ==> after.stage matches DeployStage::Ended(Err(_)),
        before.stage is ReadLine && event is EndOfOutput && (before.stage->ReadLine_0).facts() == (
        StartupFacts { pid: Some(pid as nat), port: Some(port as nat), cert: Some(cert) }) ==> (
        after.stage matches DeployStage::Ended(Ok(agent)) && agent.pid == pid && agent.port == port
            && agent.cert_der@ == cert),
        before.stage is ReadLine && cert.len() > 0 && (before.stage->ReadLine_0).facts() == (
        StartupFacts { pid: Some(pid as nat), port: Some(port as nat), cert: None })
            && (event matches DeployEvent::Line(raw) && raw@ == "PFNC-AGENT-CERT-HEX "@
            + hex::hex_of(cert)) ==> (after.stage matches DeployStage::Ended(Ok(agent)) && agent.pid
            == pid && agent.port == port && agent.cert_der@ == cert),
{
    if before.stage is ReadLine && cert.len() > 0 {
        law_report_reads_back((before.stage->ReadLine_0).facts(), pid, port, cert);
    }
}

/// The command that stops a process names that very process, and the agent's path
/// is below the directory that it is put in.
pub proof fn law_commands(pid: u32, dir: Seq<char>)
    ensures
        numbers::parsed(kill_command(pid).skip(5), 10, 0xffff_ffff) == Some(pid as nat),
        dir.is_prefix_of(remote_agent_path(dir)),
        remote_agent_path(dir).len() > dir.len() && remote_agent_path(dir)[dir.len() as int] == '/',
{
    reveal_strlit("kill ");
    reveal_strlit("/pfnc-agent");
    assert(kill_command(pid).skip(5) =~= numbers::decimal(pid as nat));
    numbers::lemma_decimal_reads_back(pid as nat, 0xffff_ffff);
    assert(dir.is_prefix_of(remote_agent_path(dir)));
}

/// The command that starts the agent begins with its path as one word for the shell,
/// and leaves the choice of the port to the system.
pub proof fn law_start_command(remote_path: Seq<char>)
    ensures
        ({
            let words = start_words(remote_path);
            let n = words.len() - 9;
            &&& n > 0
            &&& shell::shell_word(words.take(n), false) == Some(remote_path)
            &&& words[n] == ' '
            &&& numbers::parsed(words.skip(n + 8), 10, 0xffff) == Some(0nat)
        }),
{
    reveal_strlit(" --port 0");
    let words = start_words(remote_path);
    let n = words.len() - 9;
    shell::law_shell_reads_back(remote_path);
    assert(words.take(n) =~= shell::quoted(remote_path));
    assert(words.skip(n + 8) =~= seq!['0']);
    numbers::law_parsed(seq!['0'], '0', 0xffff, 0);
    assert(shell::quoted(remote_path).len() > 0);
}

} // verus!
