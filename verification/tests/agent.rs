//! The agent's command line, wire format, deployment and setup.

use pfnc::agent::{
    check_pinned_cert, decode_hello_reply, decode_request, decode_status, encode_hello_reply, encode_request,
    encode_status, listen_address, parse_port_arg, Decoded, Request, Status, OP_HELLO, OP_READ_FILE, OP_WRITE_FILE,
    PROTOCOL_VERSION,
};
use pfnc::deploy::{
    agent_path, deploy_and_start, kill_remote_process, parse_startup_lines, start_command, startup_report,
    DeployError, DeployEvent, DeployStage, DeployedAgent,
};
use pfnc::path::VfsPath;
use pfnc::fast_path::{agent_places, FastPath, FastPathEvent, FastPathStage};
use pfnc::hex::{from_hex, to_hex};
use pfnc::remote::os_supports_quic_agent;
use pfnc::shell::{hash_command, shell_quote};

#[test]
fn no_args_defaults_to_4433() {
    assert_eq!(parse_port_arg(&vec![]).unwrap(), 4433);
}

#[test]
fn to_hex_round_trips_recognizable_bytes() {
    assert_eq!(to_hex(&vec![0x00, 0xab, 0xff]), "00abff");
}

#[test]
fn port_flag_is_parsed() {
    let args = vec!["--port".to_string(), "9999".to_string()];
    assert_eq!(parse_port_arg(&args).unwrap(), 9999);
}

#[test]
fn port_zero_is_accepted() {
    let args = vec!["--port".to_string(), "0".to_string()];
    assert_eq!(parse_port_arg(&args).unwrap(), 0);
}

#[test]
fn unrecognized_flag_is_an_error() {
    let args = vec!["--bogus".to_string()];
    assert!(parse_port_arg(&args).is_err());
    assert_eq!(parse_port_arg(&args).unwrap_err(), "unrecognized argument: --bogus (expected --port <N>)");
}

#[test]
fn port_errors_say_what_is_wrong() {
    let parse = |value: &str| parse_port_arg(&vec!["--port".to_string(), value.to_string()]);
    assert_eq!(parse_port_arg(&vec!["--port".to_string()]).unwrap_err(), "--port requires a value");
    for value in ["", "x1", "1x", "65536", "-1", "+", "99999999999999999999", "-", "+7", "0080"] {
        match value.parse::<u16>() {
            Ok(port) => assert_eq!(parse(value).unwrap(), port),
            Err(e) => assert_eq!(parse(value).unwrap_err(), e.to_string(), "for {value:?}"),
        }
    }
}

#[test]
fn opcodes_are_distinct() {
    assert_ne!(OP_HELLO, OP_READ_FILE);
    assert_ne!(OP_HELLO, OP_WRITE_FILE);
    assert_ne!(OP_READ_FILE, OP_WRITE_FILE);
}

#[test]
fn requests_read_back_as_they_were_written() {
    let hello = encode_request(&Request::Hello { client_version: 0x0102_0304 });
    assert_eq!(hello, vec![0, 4, 3, 2, 1]);
    assert!(matches!(
        decode_request(&hello),
        Decoded::Complete { request: Request::Hello { client_version: 0x0102_0304 }, used: 5 }
    ));

    let mut read = encode_request(&Request::ReadFile { path: "/ä".to_string() });
    assert_eq!(read, vec![1, 3, 0, 0, 0, b'/', 0xc3, 0xa4]);
    read.push(7);
    assert!(
        matches!(decode_request(&read), Decoded::Complete { request: Request::ReadFile { path }, used: 8 } if path == "/ä")
    );

    let write = encode_request(&Request::WriteFile { path: "/f".to_string(), mode: Some(0o644) });
    assert!(matches!(
        decode_request(&write),
        Decoded::Complete { request: Request::WriteFile { path, mode: Some(0o644) }, used: 12 } if path == "/f"
    ));
    let plain = encode_request(&Request::WriteFile { path: "/f".to_string(), mode: None });
    assert!(matches!(
        decode_request(&plain),
        Decoded::Complete { request: Request::WriteFile { mode: None, .. }, used: 8 }
    ));
}

#[test]
fn incomplete_and_malformed_requests_are_told_apart() {
    assert!(matches!(decode_request(&vec![]), Decoded::Incomplete));
    assert!(matches!(decode_request(&vec![0, 1, 0]), Decoded::Incomplete));
    assert!(matches!(decode_request(&vec![1, 2, 0, 0, 0, b'a']), Decoded::Incomplete));
    assert!(matches!(decode_request(&vec![9]), Decoded::Malformed));
    assert!(matches!(decode_request(&vec![1, 1, 0, 0, 0, 0xff]), Decoded::Malformed));
}

#[test]
fn the_agent_calls_only_its_own_version_compatible() {
    let reply = encode_hello_reply(PROTOCOL_VERSION);
    assert_eq!(decode_hello_reply(&reply), Some((PROTOCOL_VERSION, true)));
    let reply = encode_hello_reply(999);
    assert_eq!(decode_hello_reply(&reply), Some((PROTOCOL_VERSION, false)));
    assert_eq!(decode_hello_reply(&vec![1]), None);
    assert_eq!(decode_hello_reply(&vec![7, 0, 0, 0]), None);
    assert_eq!(decode_hello_reply(&vec![7, 0, 0, 0, 1, 9]), Some((7, true)));
}

#[test]
fn a_failure_reads_back_with_its_reason() {
    assert!(matches!(decode_status(&encode_status(&Ok(()))), Status::Good));
    let bad = encode_status(&Err("no such file".to_string()));
    assert!(matches!(decode_status(&bad), Status::Bad { why } if why == "no such file"));
    assert!(matches!(decode_status(&vec![0, 9]), Status::Incomplete));
    assert!(matches!(decode_status(&vec![0, 1, 0, 0, 0, 0x80]), Status::Malformed));
}

#[test]
fn only_the_pinned_certificate_is_accepted() {
    assert!(check_pinned_cert(&vec![1, 2], &vec![1, 2]).is_ok());
    for presented in [vec![1, 3], vec![1], vec![1, 2, 3]] {
        assert_eq!(
            check_pinned_cert(&presented, &vec![1, 2]).unwrap_err(),
            "presented certificate does not match the pinned agent certificate"
        );
    }
}

#[test]
fn listen_addresses() {
    assert_eq!(listen_address(true, 4433), "[::]:4433");
    assert_eq!(listen_address(false, 0), "0.0.0.0:0");
}

#[test]
fn from_hex_decodes_known_bytes() {
    assert_eq!(from_hex("00abff").unwrap(), vec![0x00, 0xab, 0xff]);
}

#[test]
fn from_hex_rejects_odd_length() {
    assert!(from_hex("abc").is_err());
}

#[test]
fn from_hex_rejects_non_hex_chars() {
    assert!(from_hex("zz").is_err());
}

#[test]
fn from_hex_rejects_signs() {
    assert_eq!(from_hex("+a").unwrap_err(), "invalid digit found in string");
    assert!(from_hex("-1").is_err());
    assert!(from_hex("0a+b").is_err());
    assert_eq!(from_hex("0A").unwrap(), vec![10]);
}

#[test]
fn every_byte_reads_back_from_hex() {
    let all: Vec<u8> = (0..=255).collect();
    assert_eq!(from_hex(&to_hex(&all)).unwrap(), all);
}

fn lines(text: &str) -> Vec<String> {
    text.split_inclusive('\n').map(|l| l.to_string()).collect()
}

fn deployed(pid: u32, port: u16, hex: &str) -> String {
    format!("PFNC-AGENT-PID {pid}\nPFNC-AGENT-PORT {port}\nPFNC-AGENT-CERT-HEX {hex}\n")
}

#[test]
fn parse_startup_lines_reads_exactly_the_three_expected_lines() {
    let input = deployed(123, 4433, "00abff");
    let agent = parse_startup_lines(&lines(&input)).unwrap();
    assert_eq!(agent.pid, 123);
    assert_eq!(agent.port, 4433);
    assert_eq!(agent.cert_der, vec![0x00, 0xab, 0xff]);
}

#[test]
fn parse_startup_lines_tolerates_a_shell_motd_banner_first() {
    let input = format!("Welcome to Ubuntu 22.04.3 LTS\n\n{}", deployed(456, 9999, "1234"));
    let agent = parse_startup_lines(&lines(&input)).unwrap();
    assert_eq!(agent.pid, 456);
    assert_eq!(agent.port, 9999);
    assert_eq!(agent.cert_der, vec![0x12, 0x34]);
}

#[test]
fn parse_startup_lines_tolerates_the_three_lines_out_of_order() {
    let input = "PFNC-AGENT-PORT 9999\nPFNC-AGENT-CERT-HEX ab\nPFNC-AGENT-PID 456\n";
    let agent = parse_startup_lines(&lines(input)).unwrap();
    assert_eq!(agent.pid, 456);
    assert_eq!(agent.port, 9999);
    assert_eq!(agent.cert_der, vec![0xab]);
}

#[test]
fn parse_startup_lines_errors_cleanly_on_eof_before_all_three_arrive() {
    assert!(parse_startup_lines(&lines("PFNC-AGENT-PID 123\n")).is_err());
}

#[test]
fn parse_startup_lines_errors_rather_than_hanging_on_endless_junk() {
    let input = "some banner line\n".repeat(200);
    assert!(parse_startup_lines(&lines(&input)).is_err());
}

#[test]
fn a_startup_line_that_means_nothing_is_an_error_with_its_text() {
    let e = parse_startup_lines(&lines("PFNC-AGENT-PID many\n")).unwrap_err();
    assert!(matches!(&e, DeployError::MalformedOutput(_)));
    assert!(e.message().contains("many"), "{}", e.message());
}

#[test]
fn the_startup_report_reads_back() {
    let (a, b, c) = startup_report(77, 4433, &vec![1, 0xfe]);
    let agent = parse_startup_lines(&vec![format!("{c}\n"), format!("{a}\n"), format!("{b}\n")]).unwrap();
    assert_eq!((agent.pid, agent.port, agent.cert_der), (77, 4433, vec![1, 0xfe]));
}

#[test]
fn commands_on_the_remote_host() {
    assert_eq!(agent_path("/tmp"), "/tmp/pfnc-agent");
    assert!(start_command("/tmp/pfnc-agent").contains("--port 0"));
    assert_eq!(kill_remote_process(42), "kill 42");
    assert_eq!(shell_quote("it's"), r"'it'\''s'");
    assert!(hash_command("/a b").ends_with("'/a b'"));
}

#[test]
fn a_deployment_goes_step_by_step() {
    let mut d = deploy_and_start("/bin/pfnc-agent");
    d.on_event(DeployEvent::Done);
    d.on_event(DeployEvent::Done);
    assert!(matches!(d.stage, DeployStage::Exec));
    d.on_event(DeployEvent::Done);
    for line in lines(&deployed(5, 6, "07")) {
        d.on_event(DeployEvent::Line(line));
    }
    assert!(matches!(d.stage, DeployStage::Ended(Ok(agent)) if agent.pid == 5 && agent.cert_der == vec![7]));

    let mut d = deploy_and_start("/bin/pfnc-agent");
    d.on_event(DeployEvent::Failed("gone".to_string()));
    assert!(matches!(d.stage, DeployStage::Ended(Err(DeployError::ReadLocalBinary(p, why)))
        if p == "/bin/pfnc-agent" && why == "gone"));
    let mut d = deploy_and_start("b");
    d.on_event(DeployEvent::Done);
    d.on_event(DeployEvent::Failed("full".to_string()));
    assert!(matches!(d.stage, DeployStage::Ended(Err(DeployError::Upload(_)))));
    let mut d = deploy_and_start("b");
    d.on_event(DeployEvent::Done);
    d.on_event(DeployEvent::Done);
    d.on_event(DeployEvent::Failed("denied".to_string()));
    assert!(matches!(d.stage, DeployStage::Ended(Err(DeployError::Exec(_)))));
    let mut d = deploy_and_start("b");
    for _ in 0..3 {
        d.on_event(DeployEvent::Done);
    }
    d.on_event(DeployEvent::Failed("broken".to_string()));
    assert!(matches!(d.stage, DeployStage::Ended(Err(DeployError::ReadOutput(_)))));
}

#[test]
fn os_supports_quic_agent_recognizes_linux() {
    assert!(os_supports_quic_agent("Linux\n"));
    assert!(os_supports_quic_agent("Linux"));
}

#[test]
fn os_supports_quic_agent_rejects_other_unix_variants() {
    assert!(!os_supports_quic_agent("Darwin\n"));
    assert!(!os_supports_quic_agent("FreeBSD\n"));
    assert!(!os_supports_quic_agent("OpenBSD\n"));
    assert!(!os_supports_quic_agent("SunOS\n"));
}

#[test]
fn os_supports_quic_agent_rejects_garbage_or_empty_output() {
    assert!(!os_supports_quic_agent(""));
    assert!(!os_supports_quic_agent("\n"));
    assert!(!os_supports_quic_agent("not a real uname output"));
}

fn up_to_hello() -> FastPath {
    let mut setup = FastPath::start();
    setup.on_event(FastPathEvent::Os(Some("Linux\n".to_string())));
    setup.on_event(FastPathEvent::Done);
    setup.on_event(FastPathEvent::Deployed(DeployedAgent { pid: 9, port: 1, cert_der: vec![] }));
    for _ in 0..3 {
        setup.on_event(FastPathEvent::Done);
    }
    assert!(matches!(setup.stage, FastPathStage::Hello { .. }));
    setup
}

#[test]
fn a_compatible_agent_makes_a_fast_channel_and_any_other_is_stopped() {
    let mut setup = up_to_hello();
    setup.on_event(FastPathEvent::Greeted { version: 2, compatible: true });
    assert!(matches!(setup.stage, FastPathStage::Ready { .. }));

    let mut setup = up_to_hello();
    setup.on_event(FastPathEvent::Greeted { version: 1, compatible: false });
    assert!(matches!(setup.stage, FastPathStage::Kill { pid: 9 }));
    setup.on_event(FastPathEvent::Done);
    assert!(matches!(setup.stage, FastPathStage::Unavailable));

    let mut setup = up_to_hello();
    setup.on_event(FastPathEvent::TimedOut);
    assert!(matches!(setup.stage, FastPathStage::Kill { pid: 9 }));

    let mut setup = FastPath::start();
    setup.on_event(FastPathEvent::Os(Some("Darwin\n".to_string())));
    assert!(matches!(setup.stage, FastPathStage::Unavailable));
}

#[test]
fn agents_are_for_linux_hosts_only() {
    let mut setup = FastPath::start();
    setup.on_event(FastPathEvent::Os(Some("Darwin\n".to_string())));
    assert!(matches!(setup.stage, FastPathStage::Unavailable));
    let mut setup = FastPath::start();
    setup.on_event(FastPathEvent::Os(None));
    assert!(matches!(setup.stage, FastPathStage::Unavailable));
    let mut setup = FastPath::start();
    setup.on_event(FastPathEvent::Os(Some("Linux\n".to_string())));
    assert!(matches!(setup.stage, FastPathStage::FindBinary));
}

#[test]
fn the_agent_is_looked_for_beside_the_program_and_one_directory_up() {
    let texts = |exe: &str| -> Vec<String> {
        agent_places(&VfsPath::new(exe)).iter().map(|p| p.as_str().to_string()).collect()
    };
    assert_eq!(texts("/opt/pfnc/bin/pfnc"), vec!["/opt/pfnc/bin/pfnc-agent", "/opt/pfnc/pfnc-agent"]);
    assert_eq!(texts("/pfnc"), vec!["/pfnc-agent"]);
    assert!(texts("/").is_empty());
}
