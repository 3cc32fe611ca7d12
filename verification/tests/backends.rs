//! Backends: archives, the local disk, remote hosts, and the bytes between them.

use std::io::{Cursor, Write};

use pfnc::archive::{detect_format, ArchiveFormat, ArchiveFs};
use pfnc::auth::{
    default_key_files, AuthAttempt, AuthMethod, Authentication, ConnectStage, Connecting, ConnectionProfile,
};
use pfnc::editor::{
    edit_file, editor_paths, find_editor, has_changed, is_executable, which, EditStage, EditTarget, InputGate,
};
use pfnc::hostkey::{
    default_known_hosts_path, fingerprint, host_key_id, verify_host_key, AcceptNewPolicy, KeyCheck, KeyStage,
    KeyVerification, RejectUnknownPolicy,
};
use pfnc::index::{build_index, RawEntry};
use pfnc::job::{CancellationToken, JobError, JobOp, JobProgress, OpResult};
use pfnc::local::{map_io_err, LocalEntry, LocalFs, LocalStat};
use pfnc::path::VfsPath;
use pfnc::registry::{RemoteBackend, VfsRegistry};
use pfnc::remote::{
    dir_mode, entry_meta_from_stat, file_mode, map_ssh_err, parse_hash_output, remote_listing, HashProbe, Removal,
    RemovalStep, RemoteEntry, RemoteStat,
};
use pfnc::sparse::sparse_may_overflow;
use pfnc::transfer::{
    after_io, before_io, finish_fast, finish_upload, negotiate_transport, upload_step, ChunkMeter, Download,
    TransferRoute, UploadStep,
};
use pfnc::work::{copy_job, WorkStep};
use pfnc::vfs::{ConnectionInfo, EntryKind, FileTime, IoFailure, Location, VfsError};

#[test]
fn detects_known_extensions() {
    assert_eq!(detect_format(&VfsPath::new("/a/b.tar")), Some(ArchiveFormat::Tar));
    assert_eq!(detect_format(&VfsPath::new("/a/b.tar.zst")), Some(ArchiveFormat::TarZst));
    assert_eq!(detect_format(&VfsPath::new("/a/b.tzst")), Some(ArchiveFormat::TarZst));
    assert_eq!(detect_format(&VfsPath::new("/a/b.zip")), Some(ArchiveFormat::Zip));
    assert_eq!(detect_format(&VfsPath::new("/a/b.ZIP")), Some(ArchiveFormat::Zip));
    assert_eq!(detect_format(&VfsPath::new("/a/b.txt")), None);
}

fn file(path: &str, size: u64) -> RawEntry {
    RawEntry {
        raw_path: path.to_string(),
        is_dir: false,
        is_symlink: false,
        symlink_target: None,
        size,
        modified: None,
        permissions: None,
    }
}

#[test]
fn synthesizes_missing_parent_directories() {
    let entries = build_index(&vec![file("a/b/c.txt", 3)]);
    let paths: Vec<&str> = entries.iter().map(|e| e.path.as_str()).collect();
    assert!(paths.contains(&"/a"));
    assert!(paths.contains(&"/a/b"));
    assert!(paths.contains(&"/a/b/c.txt"));
    assert!(entries.iter().find(|e| e.path.as_str() == "/a").unwrap().kind.is_dir());
}

#[test]
fn rejects_path_traversal_entries() {
    let entries = build_index(&vec![file("../../etc/passwd", 10), file("ok.txt", 1)]);
    assert_eq!(entries.iter().filter(|e| e.path.as_str().contains("etc")).count(), 0);
    assert!(entries.iter().any(|e| e.path.as_str() == "/ok.txt"));
}

#[test]
fn normalizes_leading_slash_like_gnu_tar_does() {
    let entries = build_index(&vec![file("/etc/passwd", 1)]);
    assert!(entries.iter().any(|e| e.path.as_str() == "/etc/passwd"));
}

#[test]
fn drops_empty_and_dot_only_paths() {
    let entries = build_index(&vec![file("", 1), file(".", 1)]);
    assert!(entries.is_empty());
}

#[test]
fn deduplicates_explicit_and_synthesized_directories() {
    let mut dir = file("a/", 0);
    dir.is_dir = true;
    let entries = build_index(&vec![dir, file("a/b.txt", 1)]);
    assert_eq!(entries.iter().filter(|e| e.path.as_str() == "/a").count(), 1);
}

#[test]
fn links_in_an_archive_keep_only_safe_targets() {
    let mut good = file("good", 0);
    good.is_symlink = true;
    good.symlink_target = Some("dir/file".to_string());
    let mut bad = file("bad", 0);
    bad.is_symlink = true;
    bad.symlink_target = Some("../../etc/passwd".to_string());
    let entries = build_index(&vec![good, bad]);
    let kind = |p: &str| &entries.iter().find(|e| e.path.as_str() == p).unwrap().kind;
    assert!(matches!(kind("/good"), EntryKind::Symlink { target: Some(t) } if t.as_str() == "/dir/file"));
    assert!(matches!(kind("/bad"), EntryKind::Symlink { target: None }));
}

fn tar_with(name: &str, data: &[u8]) -> Vec<u8> {
    let mut builder = tar::Builder::new(Vec::new());
    let mut header = tar::Header::new_gnu();
    header.set_size(data.len() as u64);
    header.set_mode(0o644);
    header.set_cksum();
    builder.append_data(&mut header, name, data).unwrap();
    builder.into_inner().unwrap()
}

fn make_tar() -> Vec<u8> {
    tar_with("dir/file.txt", b"hello from tar")
}

fn make_tar_zst() -> Vec<u8> {
    zstd::encode_all(Cursor::new(tar_with("compressed.txt", b"hello from tar.zst")), 0).unwrap()
}

fn make_zip() -> Vec<u8> {
    let mut zip = zip::ZipWriter::new(Cursor::new(Vec::new()));
    zip.start_file("dir/file.txt", zip::write::SimpleFileOptions::default()).unwrap();
    zip.write_all(b"hello from zip").unwrap();
    zip.finish().unwrap().into_inner()
}

#[test]
fn browses_and_extracts_tar_contents() {
    let archive = ArchiveFs::open(make_tar(), ArchiveFormat::Tar).unwrap();
    let root = archive.list_dir(&VfsPath::new("/")).unwrap();
    assert_eq!(root.len(), 1);
    assert_eq!(root[0].name, "dir");
    assert!(root[0].kind.is_dir());

    let inner = archive.list_dir(&VfsPath::new("/dir")).unwrap();
    assert_eq!(inner.len(), 1);
    assert_eq!(inner[0].name, "file.txt");
    assert_eq!(inner[0].size, 14);
    assert_eq!(inner[0].permissions, Some(0o644));

    let content = archive.open_read(&VfsPath::new("/dir/file.txt")).unwrap();
    assert_eq!(content, b"hello from tar");
}

#[test]
fn browses_and_extracts_tar_zst_contents() {
    let archive = ArchiveFs::open(make_tar_zst(), ArchiveFormat::TarZst).unwrap();
    let root = archive.list_dir(&VfsPath::new("/")).unwrap();
    assert_eq!(root.len(), 1);
    assert_eq!(root[0].name, "compressed.txt");

    let content = archive.open_read(&VfsPath::new("/compressed.txt")).unwrap();
    assert_eq!(content, b"hello from tar.zst");
}

#[test]
fn browses_and_extracts_zip_contents() {
    let archive = ArchiveFs::open(make_zip(), ArchiveFormat::Zip).unwrap();
    let inner = archive.list_dir(&VfsPath::new("/dir")).unwrap();
    assert_eq!(inner.len(), 1);
    assert_eq!(inner[0].name, "file.txt");

    let content = archive.open_read(&VfsPath::new("/dir/file.txt")).unwrap();
    assert_eq!(content, b"hello from zip");
}

#[test]
fn write_operations_are_rejected() {
    let archive = ArchiveFs::open(make_tar(), ArchiveFormat::Tar).unwrap();
    assert!(archive.mkdir(&VfsPath::new("/new"), None).is_err());
    assert!(!archive.capabilities().can_write);
    assert!(matches!(archive.write_operation(), Err(VfsError::Unsupported(_))));
    assert_eq!(archive.root().as_str(), "/");
}

#[test]
fn stat_on_missing_path_is_not_found() {
    let archive = ArchiveFs::open(make_tar(), ArchiveFormat::Tar).unwrap();
    let err = archive.stat(&VfsPath::new("/nope")).unwrap_err();
    assert!(matches!(err, VfsError::NotFound(_)));
    assert!(matches!(archive.open_read(&VfsPath::new("/nope")), Err(VfsError::NotFound(_))));
    assert!(archive.stat(&VfsPath::new("/")).unwrap().kind.is_dir());
}

#[test]
fn links_and_directories_of_a_tar_are_told_apart() {
    let mut builder = tar::Builder::new(Vec::new());
    let mut header = tar::Header::new_gnu();
    header.set_entry_type(tar::EntryType::Directory);
    header.set_size(0);
    header.set_mode(0o755);
    header.set_mtime(1_700_000_000);
    header.set_cksum();
    builder.append_data(&mut header, "d/", &b""[..]).unwrap();
    let mut header = tar::Header::new_gnu();
    header.set_entry_type(tar::EntryType::Symlink);
    header.set_size(0);
    builder.append_link(&mut header, "l", "d/x").unwrap();
    let archive = ArchiveFs::open(builder.into_inner().unwrap(), ArchiveFormat::Tar).unwrap();
    let d = archive.stat(&VfsPath::new("/d")).unwrap();
    assert!(d.kind.is_dir());
    assert_eq!(d.modified, Some(FileTime { seconds: 1_700_000_000, nanos: 0 }));
    let l = archive.stat(&VfsPath::new("/l")).unwrap();
    assert!(matches!(l.kind, EntryKind::Symlink { target: Some(t) } if t.as_str() == "/d/x"));
}

#[test]
fn files_that_are_no_archives_do_not_open() {
    let junk = vec![7u8; 2000];
    assert!(ArchiveFs::open(junk.clone(), ArchiveFormat::Tar).is_err());
    assert!(ArchiveFs::open(junk.clone(), ArchiveFormat::TarZst).is_err());
    assert!(ArchiveFs::open(junk, ArchiveFormat::Zip).is_err());
}

fn local(is_dir: bool, size: u64) -> LocalStat {
    LocalStat {
        is_symlink: false,
        is_dir,
        is_file: !is_dir,
        target: None,
        size,
        modified: None,
        mode: if is_dir { 0o040755 } else { 0o100640 },
    }
}

#[test]
fn list_dir_and_stat() {
    let root = VfsPath::new("/root");
    let entries = vec![
        LocalEntry { name: Some("file.txt".to_string()), stat: Some(local(false, 5)) },
        LocalEntry { name: Some("subdir".to_string()), stat: Some(local(true, 0)) },
        LocalEntry { name: None, stat: Some(local(true, 0)) },
        LocalEntry { name: Some("vanished".to_string()), stat: None },
    ];
    let fs = LocalFs::new();
    let listed = fs.list_dir(&root, &entries);
    assert_eq!(listed.len(), 2);
    // Directories come first.
    assert_eq!(listed[0].name, "subdir");
    assert!(listed[0].kind.is_dir());
    assert_eq!(listed[1].name, "file.txt");
    assert!(listed[1].kind == EntryKind::File);
    assert_eq!(listed[1].size, 5);
    assert_eq!(listed[1].permissions, Some(0o640));
    assert_eq!(listed[1].path.as_str(), "/root/file.txt");

    let stat = fs.stat(&root.join("file.txt"), &local(false, 5));
    assert_eq!(stat.name, "file.txt");
    assert_eq!(stat.size, 5);
    assert_eq!(fs.stat(&fs.root(), &local(true, 0)).name, "/");
    assert!(fs.capabilities().can_write);
}

#[test]
fn symlink_reports_target() {
    let target = VfsPath::new("/root/target.txt");
    let stat = LocalStat { is_symlink: true, is_file: false, target: Some(target.clone()), ..local(false, 1) };
    let meta = LocalFs::new().stat(&VfsPath::new("/root/link.txt"), &stat);
    match meta.kind {
        EntryKind::Symlink { target: Some(t) } => assert!(t == target),
        other => panic!("expected symlink with target, got {other:?}"),
    }
}

#[test]
fn failures_become_errors_about_the_path() {
    let at = VfsPath::new("/x");
    let why = || "why".to_string();
    assert!(matches!(map_io_err(IoFailure::NotFound, why(), &at), VfsError::NotFound(_)));
    assert!(matches!(map_io_err(IoFailure::PermissionDenied, why(), &at), VfsError::PermissionDenied(_)));
    assert!(matches!(map_io_err(IoFailure::AlreadyExists, why(), &at), VfsError::AlreadyExists(_)));
    assert!(matches!(map_io_err(IoFailure::Other, why(), &at), VfsError::Io(w) if w == "why"));
    assert!(matches!(map_ssh_err(IoFailure::NotFound, why(), &at), VfsError::NotFound(_)));
}

#[test]
fn quick_hashes_are_those_of_xxh64() {
    let fs = LocalFs::new();
    assert_eq!(fs.quick_hash(&vec![]), Some(0xef46_db37_51d8_e999));
    assert_eq!(fs.quick_hash(&b"a".to_vec()), Some(0xd24e_c4f1_a98c_6e5b));
    assert_eq!(fs.quick_hash(&b"a".to_vec()), parse_hash_output(0, "d24ec4f1a98c6e5b  /tmp/a\n"));
}

#[test]
fn hash_output_is_read_only_after_success() {
    assert_eq!(parse_hash_output(0, "  00ff  file\n"), Some(255));
    assert_eq!(parse_hash_output(127, "00ff  file\n"), None);
    assert_eq!(parse_hash_output(0, "sh: not found\n"), None);
    assert_eq!(parse_hash_output(0, ""), None);
    let mut probe = HashProbe::new();
    assert!(probe.worth_asking());
    assert_eq!(probe.on_answer(None), None);
    assert!(!probe.worth_asking(), "the first failure decides");
    let mut probe = HashProbe::new();
    assert_eq!(probe.on_answer(Some(1)), Some(1));
    assert_eq!(probe.on_answer(None), None);
    assert!(probe.worth_asking());
}

fn remote_stat(is_dir: bool) -> RemoteStat {
    RemoteStat { is_dir, is_symlink: false, is_file: !is_dir, size: Some(3), mtime: Some(10), perm: Some(0o100755) }
}

#[test]
fn remote_entries_are_listed_like_local_ones() {
    let entries = vec![
        RemoteEntry { path: Some(VfsPath::new("/r/b")), stat: remote_stat(false), target: None },
        RemoteEntry { path: None, stat: remote_stat(false), target: None },
        RemoteEntry { path: Some(VfsPath::new("/r/z")), stat: remote_stat(true), target: None },
    ];
    let listed = remote_listing(&entries);
    assert_eq!(listed.iter().map(|e| e.name.as_str()).collect::<Vec<_>>(), vec!["z", "b"]);
    assert_eq!(listed[1].permissions, Some(0o755));
    assert_eq!(listed[1].modified, Some(FileTime { seconds: 10, nanos: 0 }));
    let odd = RemoteStat { is_file: false, size: None, mtime: None, perm: None, ..remote_stat(false) };
    let meta = entry_meta_from_stat(VfsPath::new("/r/o"), "o".to_string(), &odd, &None);
    assert!(meta.kind == EntryKind::Other && meta.size == 0 && meta.permissions.is_none());
    assert_eq!((file_mode(None), dir_mode(None), file_mode(Some(0o600))), (0o644, 0o755, 0o600));
}

#[test]
fn a_remote_tree_is_removed_from_the_leaves_up() {
    let mut removal = Removal::start(&VfsPath::new("/t"), true);
    let mut log = Vec::new();
    while let Some(step) = removal.next() {
        match step {
            RemovalStep::List(p) => {
                let stat = remote_stat(false);
                let listed = if p.as_str() == "/t" {
                    vec![
                        entry_meta_from_stat(VfsPath::new("/t/d"), "d".into(), &remote_stat(true), &None),
                        entry_meta_from_stat(VfsPath::new("/t/f"), "f".into(), &stat, &None),
                    ]
                } else {
                    vec![entry_meta_from_stat(VfsPath::new("/t/d/g"), "g".into(), &stat, &None)]
                };
                removal.on_listed(Ok(listed));
            }
            RemovalStep::RemoveFile(p) | RemovalStep::RemoveDir(p) => {
                log.push(p.as_str().to_string());
                removal.on_removed(Ok(()));
            }
        }
    }
    assert!(removal.finish().is_ok());
    assert_eq!(log, vec!["/t/d/g", "/t/d", "/t/f", "/t"]);
}

fn remote(id: &str) -> Location {
    Location::Remote { profile_id: id.to_string() }
}

#[test]
fn flag_off_falls_back_to_stream_even_when_fast_transport_available() {
    let route = negotiate_transport(&Location::Local, &remote("r1"), false, true, false);
    assert_eq!(route, TransferRoute::Stream);
}

#[test]
fn remote_dst_uses_fast_path_when_enabled_and_available() {
    let route = negotiate_transport(&Location::Local, &remote("r1"), false, true, true);
    assert_eq!(route, TransferRoute::FastWrite);
}

#[test]
fn remote_src_uses_fast_path_when_enabled_and_available() {
    let route = negotiate_transport(&remote("r1"), &Location::Local, true, false, true);
    assert_eq!(route, TransferRoute::FastRead);
}

#[test]
fn both_local_never_uses_fast_path() {
    let route = negotiate_transport(&Location::Local, &Location::Local, true, true, true);
    assert_eq!(route, TransferRoute::Stream);
}

#[test]
fn both_remote_never_uses_fast_path() {
    let route = negotiate_transport(&remote("r1"), &remote("r2"), true, true, true);
    assert_eq!(route, TransferRoute::Stream);
}

#[test]
fn falls_back_when_fast_transport_returns_none() {
    let route = negotiate_transport(&Location::Local, &remote("r1"), false, false, true);
    assert_eq!(route, TransferRoute::Stream);
}

#[test]
fn cancellation_mid_transfer_stops_a_multi_chunk_upload() {
    // 20 bytes in reads of 4 bytes are 5 chunks, so cancelling after the 2nd
    // chunk's progress report stops the transfer partway through.
    let cancel = CancellationToken::new();
    let mut progress = JobProgress::default();
    let mut chunks_seen = 0;
    let mut left: usize = 20;
    let result = loop {
        if let Err(e) = before_io(cancel.is_cancelled()) {
            break Err(JobError::Vfs(e));
        }
        let n = left.min(4);
        left -= n;
        if after_io(n, &mut progress) {
            chunks_seen += 1;
            if chunks_seen == 2 {
                cancel.cancel();
            }
        }
        if n == 0 {
            break Ok(());
        }
    };
    let err = finish_fast(result, cancel.is_cancelled()).unwrap_err();

    assert!(matches!(err, JobError::Cancelled));
    assert!(progress.bytes_done < 20, "cancellation should stop the transfer before all chunks are read");
    assert!(progress.bytes_done > 0, "at least the chunks read before cancellation should still count");
    assert_eq!(progress.bytes_done, 8);
}

#[test]
fn ends_of_transfers_over_a_fast_channel() {
    assert!(finish_fast(Ok(()), false).is_ok());
    let e = finish_fast(Err(JobError::Vfs(VfsError::Io("lost".into()))), false).unwrap_err();
    assert_eq!(e.message(), "lost");

    let mut download = Download::new();
    assert!(download.on_chunk(10, Ok(())));
    assert!(!download.on_chunk(5, Err("disk full".into())));
    assert_eq!(download.finish(Ok(15)).unwrap_err().message(), "disk full");
    let mut download = Download::new();
    assert!(download.on_chunk(10, Ok(())));
    assert_eq!(download.finish(Ok(10)).unwrap(), 10);
    assert_eq!(Download::new().finish(Err("reset".into())).unwrap_err().message(), "reset");

    assert!(matches!(upload_step(Ok(0)), UploadStep::Stop));
    assert!(matches!(upload_step(Ok(7)), UploadStep::Send { len: 7 }));
    assert!(matches!(upload_step(Err("bad".into())), UploadStep::SendError(e) if e == "bad"));
    assert!(finish_upload(Ok(())).is_ok());
    assert_eq!(finish_upload(Err("gone".into())).unwrap_err().message(), "gone");

    let mut meter = ChunkMeter::new();
    let logged: Vec<u64> = (0..80).filter_map(|_| meter.on_chunk(2)).collect();
    assert_eq!(logged, vec![80, 160]);
}

fn looked_up(check: KeyCheck, port: u16) -> KeyVerification {
    let mut v = verify_host_key("host", port, "/known");
    for _ in 0..3 {
        v.on_step(Ok(()));
    }
    v.on_check(check);
    v
}

#[test]
fn host_keys_are_trusted_on_first_use_only() {
    assert!(matches!(looked_up(KeyCheck::Match, 22).stage, KeyStage::Ended(Ok(()))));
    let changed = looked_up(KeyCheck::Mismatch, 2222);
    assert!(matches!(changed.stage, KeyStage::Ended(Err(why)) if why
        == "host key for [host]:2222 does not match the one in /known — possible man-in-the-middle attack, \
            refusing to connect"));
    assert!(matches!(looked_up(KeyCheck::Failure, 22).stage, KeyStage::Ended(Err(why)) if why == "host key check failed"));

    let mut new = looked_up(KeyCheck::NotFound, 22);
    new.ask(&AcceptNewPolicy, &Some(vec![0xab]));
    assert!(matches!(new.stage, KeyStage::Record));
    new.on_step(Ok(()));
    new.on_step(Ok(()));
    assert!(matches!(new.stage, KeyStage::Ended(Ok(()))));

    let mut refused = looked_up(KeyCheck::NotFound, 22);
    refused.ask(&RejectUnknownPolicy, &None);
    assert!(matches!(refused.stage, KeyStage::Ended(Err(why)) if why == "host key for host rejected by policy"));

    assert_eq!(host_key_id("h", 22), "h");
    assert_eq!(fingerprint(&Some(vec![1, 255])), "SHA256:01ff");
    assert_eq!(fingerprint(&None), "<unavailable>");
    assert_eq!(default_known_hosts_path(&VfsPath::new("/home/me")).as_str(), "/home/me/.ssh/known_hosts");
}

#[test]
fn failed_steps_of_a_key_verification_say_why() {
    let mut v = verify_host_key("h", 22, "/known");
    v.on_step(Err("x".into()));
    assert!(matches!(v.stage, KeyStage::Ended(Err(why)) if why == "could not initialize known_hosts: x"));
    let mut v = verify_host_key("h", 22, "/known");
    v.on_step(Ok(()));
    v.on_step(Err("x".into()));
    assert!(matches!(v.stage, KeyStage::Ended(Err(why)) if why == "could not read /known: x"));
    let mut v = looked_up(KeyCheck::NotFound, 22);
    v.on_decision(true);
    v.on_step(Err("x".into()));
    assert!(matches!(v.stage, KeyStage::Ended(Err(why)) if why == "could not record host key: x"));
}

#[test]
fn all_ways_of_authenticating_are_tried_in_order() {
    let keys = default_key_files(&Some(VfsPath::new("/home/me")));
    assert_eq!(keys[0].as_str(), "/home/me/.ssh/id_ed25519");
    let mut auth = Authentication::start(&AuthMethod::Auto { password: Some("pw".into()) }, &keys);
    let mut order = Vec::new();
    while let Some(attempt) = auth.next() {
        order.push(match attempt {
            AuthAttempt::Agent => "agent",
            AuthAttempt::DefaultKey { .. } => "key",
            AuthAttempt::Password(_) => "password",
            AuthAttempt::KeyboardInteractive(_) => "prompt",
            AuthAttempt::KeyFile { .. } => "file",
        });
        auth.on_result(Err("no".into()));
    }
    assert_eq!(order, vec!["agent", "key", "key", "key", "password", "prompt"]);
    assert!(matches!(auth.ended, Some(Err(_))));

    let mut auth = Authentication::start(&AuthMethod::Password("pw".into()), &keys);
    auth.on_result(Err("wrong".into()));
    assert!(matches!(auth.ended, Some(Err(why)) if why == "password auth failed: wrong"));
    let mut auth = Authentication::start(&AuthMethod::Agent, &keys);
    auth.on_result(Ok(()));
    assert!(matches!(auth.ended, Some(Ok(()))));
}

#[test]
fn connecting_ends_at_the_first_failure() {
    let profile = ConnectionProfile {
        id: "u@h:22".into(),
        host: "h".into(),
        port: 22,
        username: "u".into(),
        auth: AuthMethod::Agent,
    };
    let failing_at = |n: usize| {
        let mut c = Connecting::start(&profile);
        for _ in 0..n {
            c.on_result(Ok(()));
        }
        c.on_result(Err("x".into()));
        match c.stage {
            ConnectStage::Ended(Err(e)) => e.message(),
            other => panic!("not ended: {other:?}"),
        }
    };
    assert_eq!(failing_at(0), "tcp connect to h:22 failed: x");
    assert_eq!(failing_at(1), "ssh handshake failed: x");
    assert_eq!(failing_at(2), "host key verification failed: x");
    assert_eq!(failing_at(3), "authentication failed: x");
    assert_eq!(failing_at(4), "authentication failed: server did not confirm authentication");
    assert_eq!(failing_at(5), "sftp subsystem init failed: x");
    let mut c = Connecting::start(&profile);
    for _ in 0..6 {
        c.on_result(Ok(()));
    }
    assert!(matches!(c.stage, ConnectStage::Ended(Ok(()))));
}

#[test]
fn paths_follow_the_rules_of_camino() {
    for (base, child) in [("/a", "b"), ("/a/", "b"), ("", "b"), ("/a", "/b"), ("/", "x/y"), ("a", "")] {
        let expected = camino::Utf8Path::new(base).join(child).into_string();
        assert_eq!(VfsPath::new(base).join(child).as_str(), expected);
    }
    for p in ["/a/b", "/a/b/", "/", "", "a", "..", "/a/..", ".", "./", "/a/./b.tar.gz", "/.hidden", "/x.", "a//b"] {
        let path = camino::Utf8Path::new(p);
        let ours = VfsPath::new(p);
        assert_eq!(ours.file_name().as_deref(), path.file_name(), "{p}");
        assert_eq!(ours.parent().map(|up| up.as_str().to_string()), path.parent().map(|up| up.to_string()), "{p}");
        assert_eq!(ours.extension().as_deref(), path.extension(), "{p}");
    }
    for (p, up) in [
        ("/a/b", "/a"),
        ("/a//b", "/a"),
        ("/a/./b", "/a"),
        ("/a/b/", "/a"),
        ("//a", "/"),
        ("/./a", "/"),
        ("a/b", "a"),
        ("a", ""),
        ("./b", "."),
        (".//b", "."),
        (".//./b", "."),
        ("./", ""),
        ("a/../b", "a/.."),
    ] {
        assert_eq!(VfsPath::new(p).parent().unwrap().as_str(), up, "{p}");
    }
    assert!(VfsPath::new("/a//b/./c/") == VfsPath::new("/a/b/c"));
    assert!(VfsPath::new("/a") != VfsPath::new("a"));
}

#[test]
fn editors_are_looked_for_in_order() {
    let dirs = vec![VfsPath::new("/usr/bin"), VfsPath::new("/bin")];
    let paths = editor_paths(&dirs);
    let texts: Vec<&str> = paths.iter().map(|p| p.as_str()).collect();
    assert_eq!(
        texts,
        vec!["/usr/bin/nano", "/bin/nano", "/usr/bin/pico", "/bin/pico", "/usr/bin/vi", "/bin/vi"]
    );
    let found = find_editor(&paths, &vec![false, false, false, false, true, true]).unwrap();
    assert_eq!(found.as_str(), "/usr/bin/vi");
    assert!(find_editor(&paths, &vec![false; 6]).is_none());
    assert_eq!(which(&dirs, "ls")[1].as_str(), "/bin/ls");
    assert!(is_executable(true, 0o100755));
    assert!(!is_executable(false, 0o040755));
    assert!(!is_executable(true, 0o100644));
}

fn remote_registry() -> VfsRegistry {
    let mut registry = VfsRegistry::new();
    let info = ConnectionInfo { protocol: "SFTP", remote_os: None, quic: None };
    registry.connect_and_cache(RemoteBackend { profile_id: "p".into(), fast: false, info });
    registry
}

#[test]
fn remote_files_are_saved_back_only_if_changed() {
    let registry = remote_registry();
    let mut status = None;
    let target = || EditTarget { location: remote("p"), path: VfsPath::new("/etc/app.conf") };
    let before = Some((FileTime { seconds: 1, nanos: 0 }, 10));
    let after = Some((FileTime { seconds: 2, nanos: 0 }, 10));

    let mut edit = edit_file(target());
    edit.on_editor(Some(VfsPath::new("/bin/vi")), &registry, &mut status);
    assert!(matches!(&edit.stage, EditStage::Fetch { suffix, .. } if suffix == ".conf"));
    edit.on_fetched(Ok(VfsPath::new("/tmp/x.conf")), &mut status);
    edit.on_run(Ok(()), &before, &before, &mut status);
    assert!(matches!(edit.stage, EditStage::Reload), "an unchanged file is not saved back");

    let mut edit = edit_file(target());
    edit.on_editor(Some(VfsPath::new("/bin/vi")), &registry, &mut status);
    edit.on_fetched(Ok(VfsPath::new("/tmp/x.conf")), &mut status);
    edit.on_run(Ok(()), &before, &after, &mut status);
    assert!(matches!(&edit.stage, EditStage::Save { file } if file.as_str() == "/tmp/x.conf"));
    assert!(status.is_none());
    edit.on_saved(Err("denied".into()), &mut status);
    assert_eq!(status.as_deref(), Some("failed to save changes back: denied"));
    assert!(matches!(edit.stage, EditStage::Reload));
    edit.on_reloaded();
    assert!(matches!(edit.stage, EditStage::Over));
    assert!(has_changed(&None, &after) && !has_changed(&None, &None));
}

#[test]
fn local_files_are_edited_in_place() {
    let registry = VfsRegistry::new();
    let mut status = None;
    let target = EditTarget { location: Location::Local, path: VfsPath::new("/f") };
    let mut edit = edit_file(target);
    edit.on_editor(Some(VfsPath::new("/bin/vi")), &registry, &mut status);
    assert!(matches!(&edit.stage, EditStage::Run { file, .. } if file.as_str() == "/f"));
    edit.on_run(Ok(()), &None, &Some((FileTime { seconds: 1, nanos: 0 }, 1)), &mut status);
    assert!(matches!(edit.stage, EditStage::Reload));
}

#[test]
fn failures_of_an_edit_are_told() {
    let registry = VfsRegistry::new();
    let mut status = None;
    let target = || EditTarget { location: remote("p"), path: VfsPath::new("/f") };
    let mut edit = edit_file(target());
    edit.on_editor(None, &registry, &mut status);
    assert_eq!(status.as_deref(), Some("no editor found on PATH (tried nano, pico, vi)"));
    let mut edit = edit_file(target());
    edit.on_editor(Some(VfsPath::new("/bin/vi")), &registry, &mut status);
    assert_eq!(status.as_deref(), Some("edit failed: connection lost: no active connection for profile p"));
    assert!(matches!(edit.stage, EditStage::Over));
    let registry = remote_registry();
    let mut edit = edit_file(target());
    edit.on_editor(Some(VfsPath::new("/bin/vi")), &registry, &mut status);
    edit.on_fetched(Err("gone".into()), &mut status);
    assert_eq!(status.as_deref(), Some("could not fetch file for editing: gone"));
    let mut edit = edit_file(target());
    edit.on_editor(Some(VfsPath::new("/bin/vi")), &registry, &mut status);
    edit.on_fetched(Ok(VfsPath::new("/tmp/f")), &mut status);
    edit.on_run(Err("denied".into()), &None, &None, &mut status);
    assert_eq!(status.as_deref(), Some("failed to launch /bin/vi: denied"));
    assert!(matches!(edit.stage, EditStage::Over), "the panels are not listed again");
}

#[test]
fn keystrokes_can_be_paused() {
    let input = InputGate::new();
    let reader = input.clone();
    assert!(!reader.is_paused());
    input.pause();
    assert!(reader.is_paused());
    input.resume();
    assert!(!reader.is_paused());
    assert!(!InputGate::default().is_paused());
}

#[test]
fn a_file_over_a_fast_channel_counts_once() {
    let mut work = copy_job(&vec![VfsPath::new("/f")], &VfsPath::new("/dst"));
    let meta = LocalFs::new().stat(&VfsPath::new("/f"), &local(false, 20));
    work.on_stat(Ok(meta));
    let mut done = JobProgress::default();
    loop {
        match work.next() {
            WorkStep::Do(JobOp::Transfer { .. }) => {
                let mut progress = work.progress();
                assert!(after_io(20, &mut progress));
                assert!(finish_fast(Ok(()), false).is_ok());
                assert_eq!(progress.files_done, 0);
                work.set_progress(progress);
                work.on_result(OpResult::Done);
            }
            WorkStep::Do(_) => {
                done = work.progress();
                work.on_result(OpResult::Done);
            }
            WorkStep::GoOn => work.advance(),
            WorkStep::Ask(_) => panic!("nothing else to ask"),
            WorkStep::End => break,
        }
    }
    assert!(work.outcome().is_ok());
    assert_eq!((done.files_done, done.files_total, done.bytes_done), (1, 1, 20));
}

/// A GNU header of a sparse member with further blocks, and one more block.
fn sparse_tar(size_field: [u8; 12]) -> Vec<u8> {
    let mut bytes = vec![0u8; 1024];
    bytes[0] = b'f';
    bytes[100..107].copy_from_slice(b"0000644");
    bytes[108..115].copy_from_slice(b"0000000");
    bytes[116..123].copy_from_slice(b"0000000");
    bytes[124..136].copy_from_slice(&size_field);
    bytes[136..147].copy_from_slice(b"00000000000");
    bytes[156] = b'S';
    bytes[257..265].copy_from_slice(b"ustar  \0");
    bytes[482] = 1;
    bytes[483..494].copy_from_slice(b"00000000000");
    let sum: u32 = bytes[..148].iter().chain(&bytes[156..512]).map(|b| u32::from(*b)).sum::<u32>() + 8 * 32;
    bytes[148..156].copy_from_slice(format!("{sum:06o}\0 ").as_bytes());
    bytes
}

#[test]
fn oversized_sparse_members_are_an_error() {
    let huge = sparse_tar([0x80, 0, 0, 0, 0xff, 0xff, 0xff, 0xff, 0xff, 0xff, 0xfc, 0]);
    assert!(sparse_may_overflow(&huge));
    let packed = zstd::encode_all(huge.as_slice(), 1).unwrap();
    for (bytes, format) in [(huge, ArchiveFormat::Tar), (packed, ArchiveFormat::TarZst)] {
        match ArchiveFs::open(bytes, format) {
            Err(VfsError::Io(why)) => assert_eq!(why, "size overflow"),
            other => panic!("expected an error, got {other:?}"),
        }
    }
}

/// A header of that type for 28 bytes, and a block that begins with a record of a
/// large size.
fn record_tar(kind: u8) -> Vec<u8> {
    let mut bytes = sparse_tar(*b"00000000034\0");
    bytes[156] = kind;
    bytes[482] = 0;
    bytes[512..540].copy_from_slice(b"28 size=9223372036854775808\n");
    bytes
}

#[test]
fn oversized_records_count_only_for_the_member_they_go_with() {
    let sparse = sparse_tar(*b"00000000000\0");
    assert!(!sparse_may_overflow(&sparse));
    assert!(ArchiveFs::open(sparse.clone(), ArchiveFormat::Tar).is_ok());

    let joined = |parts: &[&Vec<u8>]| -> Vec<u8> { parts.iter().flat_map(|p| p.iter().copied()).collect() };
    let records = record_tar(b'x');
    let name = record_tar(b'L');
    let file = record_tar(b'0');
    assert!(sparse_may_overflow(&joined(&[&records, &sparse])));
    assert!(sparse_may_overflow(&joined(&[&records, &name, &sparse])));
    // The text of a file is no record, and records are about the next member.
    assert!(!sparse_may_overflow(&joined(&[&file, &sparse])));
    assert!(!sparse_may_overflow(&joined(&[&records, &file, &sparse])));
    assert!(!sparse_may_overflow(&joined(&[&sparse, &records])));
    let mut small = records.clone();
    small[525] = b' ';
    assert!(!sparse_may_overflow(&joined(&[&small, &sparse])));
    assert!(!sparse_may_overflow(&Vec::new()));
    assert!(!sparse_may_overflow(&make_tar()));
}
