//! The program's flows from key to file, against disks in memory.

use std::collections::BTreeMap;

use pfnc::actions::{handle_job_event, handle_key, reload_both, Effect, JobWork};
use pfnc::app::{App, PaneSide};
use pfnc::archive::ArchiveFs;
use pfnc::config::{Config, PanelLocationConfig, PanelSessionConfig};
use pfnc::job::{
    CancellationToken, JobError, JobEvent, JobId, JobOp, JobOutcome, JobProgress, OpResult, SyncPlan,
};
use pfnc::keymap::KeyCode;
use pfnc::local::{LocalEntry, LocalFs, LocalStat};
use pfnc::mode::{JobKind, Mode, ProgressState, SavedProfileSummary};
use pfnc::path::VfsPath;
use pfnc::registry::Backend;
use pfnc::scan::{ScanRequest, Side};
use pfnc::transfer::{StreamEvent, StreamStage, VfsStreamTransport, COPY_CHUNK_SIZE};
use pfnc::vfs::{EntryMeta, FileTime, Location, VfsError, VfsResult};
use pfnc::work::{
    build_sync_plan, copy_job, delete_job, execute_sync_plan, move_cross_backend, move_job, Work,
    WorkStep,
};

#[derive(Clone, Debug, PartialEq)]
enum Node {
    Dir,
    File { data: Vec<u8>, time: i64 },
    Link { target: String },
}

/// A disk in memory.
struct Disk {
    nodes: BTreeMap<String, Node>,
    clock: i64,
    hashing: bool,
    /// Whether links can be made.
    linking: bool,
}

fn parent_of(path: &str) -> String {
    match path.rfind('/') {
        Some(0) => "/".to_string(),
        Some(i) => path[..i].to_string(),
        None => "/".to_string(),
    }
}

impl Disk {
    fn new() -> Disk {
        let mut nodes = BTreeMap::new();
        nodes.insert("/".to_string(), Node::Dir);
        Disk { nodes, clock: 1000, hashing: true, linking: true }
    }

    fn mkdir(&mut self, path: &str) {
        if path != "/" {
            self.mkdir(&parent_of(path));
            self.nodes.insert(path.to_string(), Node::Dir);
        }
    }

    fn write(&mut self, path: &str, data: &[u8]) {
        self.clock += 10;
        let time = self.clock;
        self.nodes.insert(path.to_string(), Node::File { data: data.to_vec(), time });
    }

    fn link(&mut self, path: &str, target: &str) {
        self.nodes.insert(path.to_string(), Node::Link { target: target.to_string() });
    }

    fn read(&self, path: &str) -> Option<Vec<u8>> {
        match self.nodes.get(path) {
            Some(Node::File { data, .. }) => Some(data.clone()),
            _ => None,
        }
    }

    fn has(&self, path: &str) -> bool {
        self.nodes.contains_key(path)
    }

    fn is_dir(&self, path: &str) -> bool {
        self.nodes.get(path) == Some(&Node::Dir)
    }

    fn below(&self, path: &str) -> Vec<String> {
        let prefix = if path == "/" { "/".to_string() } else { format!("{path}/") };
        self.nodes.keys().filter(|k| k.starts_with(&prefix) && *k != path).cloned().collect()
    }

    fn local_stat(&self, path: &str) -> Option<LocalStat> {
        let node = self.nodes.get(path)?;
        Some(LocalStat {
            is_symlink: matches!(node, Node::Link { .. }),
            is_dir: matches!(node, Node::Dir),
            is_file: matches!(node, Node::File { .. }),
            target: match node {
                Node::Link { target } => Some(VfsPath::new(target)),
                _ => None,
            },
            size: match node {
                Node::File { data, .. } => data.len() as u64,
                _ => 0,
            },
            modified: match node {
                Node::File { time, .. } => Some(FileTime { seconds: *time, nanos: 0 }),
                _ => None,
            },
            mode: if matches!(node, Node::Dir) { 0o040755 } else { 0o100644 },
        })
    }

    fn list_dir(&self, path: &VfsPath) -> VfsResult<Vec<EntryMeta>> {
        if !self.is_dir(path.as_str()) {
            return Err(VfsError::NotFound(path.clone()));
        }
        let mut entries = Vec::new();
        for child in self.below(path.as_str()) {
            if parent_of(&child) == path.as_str() {
                let name = child.rsplit('/').next().unwrap().to_string();
                entries.push(LocalEntry { name: Some(name), stat: self.local_stat(&child) });
            }
        }
        Ok(LocalFs::new().list_dir(path, &entries))
    }

    fn stat(&self, path: &VfsPath) -> VfsResult<EntryMeta> {
        match self.local_stat(path.as_str()) {
            Some(stat) => Ok(LocalFs::new().stat(path, &stat)),
            None => Err(VfsError::NotFound(path.clone())),
        }
    }

    fn quick_hash(&self, path: &VfsPath) -> VfsResult<Option<u64>> {
        if !self.hashing {
            return Ok(None);
        }
        match self.read(path.as_str()) {
            Some(data) => Ok(LocalFs::new().quick_hash(&data)),
            None => Err(VfsError::NotFound(path.clone())),
        }
    }

    fn remove_file(&mut self, path: &VfsPath) -> VfsResult<()> {
        if self.is_dir(path.as_str()) || self.nodes.remove(path.as_str()).is_none() {
            return Err(VfsError::NotFound(path.clone()));
        }
        Ok(())
    }

    fn remove_dir(&mut self, path: &VfsPath, recursive: bool) -> VfsResult<()> {
        let below = self.below(path.as_str());
        if !self.is_dir(path.as_str()) {
            return Err(VfsError::NotFound(path.clone()));
        }
        if !below.is_empty() && !recursive {
            return Err(VfsError::Io("directory not empty".to_string()));
        }
        for child in below {
            self.nodes.remove(&child);
        }
        self.nodes.remove(path.as_str());
        Ok(())
    }

    fn rename(&mut self, from: &VfsPath, to: &VfsPath) -> VfsResult<()> {
        let mut moved = self.below(from.as_str());
        if self.has(from.as_str()) {
            moved.push(from.as_str().to_string());
        } else {
            return Err(VfsError::NotFound(from.clone()));
        }
        for old in moved {
            let node = self.nodes.remove(&old).unwrap();
            let new = format!("{}{}", to.as_str(), &old[from.as_str().len()..]);
            self.nodes.insert(new, node);
        }
        Ok(())
    }
}

/// Everything around the app: the local disk, that of a remote host, the opened
/// archives and the jobs that have been started and not yet run.
struct World {
    disk: Disk,
    far: Disk,
    archives: Vec<ArchiveFs>,
    queue: Vec<(JobId, JobWork)>,
}

enum Reader<'a> {
    Disk(&'a Disk),
    Archive(&'a ArchiveFs),
}

impl Reader<'_> {
    fn stat(&self, path: &VfsPath) -> VfsResult<EntryMeta> {
        match self {
            Reader::Disk(d) => d.stat(path),
            Reader::Archive(a) => a.stat(path),
        }
    }

    fn list_dir(&self, path: &VfsPath) -> VfsResult<Vec<EntryMeta>> {
        match self {
            Reader::Disk(d) => d.list_dir(path),
            Reader::Archive(a) => a.list_dir(path),
        }
    }

    fn read(&self, path: &VfsPath) -> VfsResult<Vec<u8>> {
        match self {
            Reader::Disk(d) => d.read(path.as_str()).ok_or(VfsError::NotFound(path.clone())),
            Reader::Archive(a) => a.open_read(path),
        }
    }

    fn quick_hash(&self, path: &VfsPath) -> VfsResult<Option<u64>> {
        match self {
            Reader::Disk(d) => d.quick_hash(path),
            Reader::Archive(_) => Ok(None),
        }
    }
}

impl World {
    fn new() -> World {
        World { disk: Disk::new(), far: Disk::new(), archives: Vec::new(), queue: Vec::new() }
    }

    fn reader(&self, backend: Backend) -> Reader<'_> {
        match backend {
            Backend::Archive(i) => Reader::Archive(&self.archives[i]),
            Backend::Remote(_) => Reader::Disk(&self.far),
            Backend::Local => Reader::Disk(&self.disk),
        }
    }

    fn disk_of(&mut self, backend: Backend) -> &mut Disk {
        match backend {
            Backend::Remote(_) => &mut self.far,
            _ => &mut self.disk,
        }
    }

    fn perform(&mut self, app: &mut App, effects: Vec<Effect>) {
        for effect in effects {
            match effect {
                Effect::Reload { side, select } => {
                    let (location, cwd) = match side {
                        PaneSide::Left => (app.left.location.clone(), app.left.cwd.clone()),
                        PaneSide::Right => (app.right.location.clone(), app.right.cwd.clone()),
                    };
                    let listing = match app.registry.resolve(&location) {
                        Ok(backend) => self.reader(backend).list_dir(&cwd),
                        Err(e) => Err(e),
                    };
                    app.on_listed(side, listing, &select);
                }
                Effect::MakeDir { location, path } => {
                    let result = match app.registry.resolve(&location) {
                        Ok(Backend::Local) => {
                            self.disk.mkdir(path.as_str());
                            Ok(())
                        }
                        Ok(_) => Err(VfsError::Unsupported("read-only")),
                        Err(e) => Err(e),
                    };
                    app.on_mkdir(result);
                }
                Effect::Spawn { id, work } => self.queue.push((id, work)),
                Effect::Cancel { id } => {
                    app.jobs.cancel(id);
                }
            }
        }
    }

    fn start(&mut self, config: Config, dir: &str) -> App {
        let left = pfnc::app::restorable_local_cwd(&config.session.left);
        let right = pfnc::app::restorable_local_cwd(&config.session.right);
        let left_exists = left.map(|p| self.disk.is_dir(p.as_str())).unwrap_or(false);
        let right_exists = right.map(|p| self.disk.is_dir(p.as_str())).unwrap_or(false);
        let mut app = App::new_with_config(config, VfsPath::new(dir), left_exists, right_exists);
        self.perform(&mut app, reload_both());
        app
    }

    fn press(&mut self, app: &mut App, key: KeyCode) {
        let effects = handle_key(app, key, "me");
        self.perform(app, effects);
    }

    fn event(&mut self, app: &mut App, event: JobEvent) {
        let effects = handle_job_event(app, event);
        self.perform(app, effects);
    }

    /// Runs the job that is on screen to its end.
    fn wait_for_job_to_finish(&mut self, app: &mut App) {
        while matches!(app.mode, Mode::Progress(_)) {
            let (id, work) = self.queue.remove(0);
            let token = app.jobs.token(id).unwrap();
            let result = self.run_job(app, id, work, &token);
            let outcome = JobOutcome::from_result(&result);
            self.event(app, JobEvent::Finished { job_id: id, outcome });
        }
    }

    fn run_job(&mut self, app: &mut App, id: JobId, work: JobWork, token: &CancellationToken) -> Result<(), JobError> {
        let backend = |app: &App, location: &Location| app.registry.resolve(location).map_err(JobError::Vfs);
        let mut reports = Vec::new();
        let result = match work {
            JobWork::Copy { src, dst, items, dest_dir, .. } => {
                let (s, d) = (backend(app, &src)?, backend(app, &dst)?);
                self.run(copy_job(&items, &dest_dir), s, d, token, &mut reports).outcome()
            }
            JobWork::Delete { location, items } => {
                let b = backend(app, &location)?;
                self.run(delete_job(&items), b, b, token, &mut reports).outcome()
            }
            JobWork::Rename { location, pairs } => {
                let b = backend(app, &location)?;
                self.run(move_job(&pairs), b, b, token, &mut reports).outcome()
            }
            JobWork::MoveAcross { src, dst, items, dest_dir, .. } => {
                let (s, d) = (backend(app, &src)?, backend(app, &dst)?);
                self.run(move_cross_backend(items, &dest_dir), s, d, token, &mut reports).outcome()
            }
            JobWork::ScanSync { src, dst, src_root, dst_root, delete_extraneous } => {
                let (s, d) = (backend(app, &src)?, backend(app, &dst)?);
                let mut done =
                    self.run(build_sync_plan(&src_root, &dst_root, delete_extraneous), s, d, token, &mut reports);
                if let Some(plan) = done.plan.take() {
                    app.on_plan(id, plan);
                }
                done.outcome()
            }
            JobWork::ExecuteSync { src, dst, plan, .. } => {
                let (s, d) = (backend(app, &src)?, backend(app, &dst)?);
                self.run(execute_sync_plan(&plan), s, d, token, &mut reports).outcome()
            }
            JobWork::OpenArchive { location } => {
                let (format, base) = app.registry.archive_to_open(&location).map_err(JobError::Vfs)?;
                let path = match &location {
                    Location::Archive { archive_path, .. } => archive_path.clone(),
                    _ => unreachable!("not an archive"),
                };
                let bytes = self.reader(base).read(&path).map_err(JobError::Vfs)?;
                let fs = ArchiveFs::open(bytes, format).map_err(JobError::Vfs)?;
                let number = app.registry.open_archive_and_cache(location);
                assert_eq!(number, self.archives.len());
                self.archives.push(fs);
                Ok(())
            }
            JobWork::Connect { .. } | JobWork::WarmFastPath { .. } => Ok(()),
        };
        for progress in reports {
            self.event(app, JobEvent::Progress { job_id: id, progress });
        }
        result
    }

    fn run(
        &mut self,
        mut work: Work,
        src: Backend,
        dst: Backend,
        token: &CancellationToken,
        reports: &mut Vec<JobProgress>,
    ) -> Work {
        loop {
            match work.next() {
                WorkStep::Ask(request) => {
                    let pick = |side: Side| if side == Side::Src { src } else { dst };
                    match request {
                        ScanRequest::Stat { side, path } => work.on_stat(self.reader(pick(side)).stat(&path)),
                        ScanRequest::List { side, path } => work.on_list(self.reader(pick(side)).list_dir(&path)),
                        ScanRequest::Hash { side, path } => work.on_hash(self.reader(pick(side)).quick_hash(&path)),
                    }
                }
                WorkStep::Do(op) => {
                    let result = self.operate(&mut work, op, src, dst, token, reports);
                    work.on_result(result);
                }
                WorkStep::GoOn => work.advance(),
                WorkStep::End => return work,
            }
        }
    }

    fn operate(
        &mut self,
        work: &mut Work,
        op: JobOp,
        src: Backend,
        dst: Backend,
        token: &CancellationToken,
        reports: &mut Vec<JobProgress>,
    ) -> OpResult {
        let result = match op {
            JobOp::Report => {
                reports.push(work.progress());
                Ok(())
            }
            JobOp::CheckCancel => {
                if token.is_cancelled() {
                    return OpResult::Cancelled;
                }
                Ok(())
            }
            JobOp::RemoveFile { side, path } => {
                self.disk_of(if side == Side::Src { src } else { dst }).remove_file(&path)
            }
            JobOp::RemoveDir { side, path, recursive } => {
                self.disk_of(if side == Side::Src { src } else { dst }).remove_dir(&path, recursive)
            }
            JobOp::Mkdir { path, .. } => {
                self.disk_of(dst).mkdir(path.as_str());
                Ok(())
            }
            JobOp::Symlink { target, link } => {
                let disk = self.disk_of(dst);
                if disk.linking {
                    disk.link(link.as_str(), target.as_str());
                    Ok(())
                } else {
                    Err(VfsError::Unsupported("no links here"))
                }
            }
            JobOp::Rename { from, to } => self.disk_of(dst).rename(&from, &to),
            JobOp::Transfer { src: from, dst: to, .. } => {
                return self.transfer(work, &from, &to, src, dst, token, reports);
            }
            JobOp::Start { .. } | JobOp::Count => unreachable!("done by the run itself"),
        };
        match result {
            Ok(()) => OpResult::Done,
            Err(e) => OpResult::Failed(e),
        }
    }

    fn transfer(
        &mut self,
        work: &mut Work,
        from: &VfsPath,
        to: &VfsPath,
        src: Backend,
        dst: Backend,
        token: &CancellationToken,
        reports: &mut Vec<JobProgress>,
    ) -> OpResult {
        let mut copy = VfsStreamTransport.transfer();
        let mut progress = work.progress();
        let mut data = Vec::new();
        let mut at = 0;
        let mut out: Vec<u8> = Vec::new();
        loop {
            let event = match &copy.stage {
                StreamStage::OpenRead => match self.reader(src).read(from) {
                    Ok(bytes) => {
                        data = bytes;
                        StreamEvent::Done
                    }
                    Err(e) => StreamEvent::Failed(e),
                },
                StreamStage::CreateWrite => {
                    self.disk_of(dst).write(to.as_str(), b"");
                    StreamEvent::Done
                }
                StreamStage::CheckCancel => {
                    if token.is_cancelled() {
                        StreamEvent::Cancelled
                    } else {
                        StreamEvent::Done
                    }
                }
                StreamStage::Read => {
                    let len = (data.len() - at).min(COPY_CHUNK_SIZE);
                    StreamEvent::ReadBytes { len }
                }
                StreamStage::Write { len } => {
                    out.extend_from_slice(&data[at..at + len]);
                    at += len;
                    StreamEvent::Done
                }
                StreamStage::Report => {
                    reports.push(progress.clone());
                    StreamEvent::Done
                }
                StreamStage::Flush => {
                    self.disk_of(dst).write(to.as_str(), &out);
                    StreamEvent::Done
                }
                StreamStage::Ended(_) => break,
            };
            copy.on_event(event, &mut progress);
        }
        work.set_progress(progress);
        match copy.stage {
            StreamStage::Ended(Ok(())) => OpResult::Done,
            StreamStage::Ended(Err(JobError::Cancelled)) => OpResult::Cancelled,
            StreamStage::Ended(Err(JobError::Vfs(e))) => OpResult::Failed(e),
            other => panic!("ended at {other:?}"),
        }
    }
}

fn names(entries: &[EntryMeta]) -> Vec<&str> {
    entries.iter().map(|e| e.name.as_str()).collect()
}

fn fresh(world: &mut World) -> App {
    world.disk.mkdir("/root");
    world.start(Config::default(), "/root")
}

#[test]
fn f10_quits_like_q_and_esc() {
    let mut world = World::new();
    let mut app = fresh(&mut world);
    assert!(!app.should_quit);
    world.press(&mut app, KeyCode::F(10));
    assert!(app.should_quit);
    for key in [KeyCode::Char('q'), KeyCode::Esc] {
        let mut app = fresh(&mut world);
        world.press(&mut app, key);
        assert!(app.should_quit);
    }
}

#[test]
fn f1_opens_help_and_any_key_dismisses_it() {
    let mut world = World::new();
    let mut app = fresh(&mut world);

    world.press(&mut app, KeyCode::F(1));
    assert!(matches!(app.mode, Mode::Help));

    world.press(&mut app, KeyCode::Char('x'));
    assert!(matches!(app.mode, Mode::Browsing), "any key should dismiss the help box");
}

#[test]
fn session_restore_uses_saved_local_cwd_when_it_still_exists() {
    let mut world = World::new();
    world.disk.mkdir("/root/saved");
    let mut config = Config::default();
    config.session.left =
        Some(PanelSessionConfig { location: PanelLocationConfig::Local, cwd: "/root/saved".to_string() });
    // Right panel has no saved session, so it should fall back.
    let app = world.start(config, "/root");

    assert!(app.left.cwd == VfsPath::new("/root/saved"));
    assert!(app.right.cwd == VfsPath::new("/root"));
}

#[test]
fn session_restore_falls_back_when_saved_dir_no_longer_exists() {
    let mut world = World::new();
    world.disk.mkdir("/root");
    let mut config = Config::default();
    config.session.left =
        Some(PanelSessionConfig { location: PanelLocationConfig::Local, cwd: "/root/deleted".to_string() });
    let app = world.start(config, "/root");

    assert!(app.left.cwd == VfsPath::new("/root"));
}

#[test]
fn a_saved_remote_panel_is_not_restored() {
    let mut world = World::new();
    world.disk.mkdir("/root");
    let mut config = Config::default();
    config.session.left = Some(PanelSessionConfig {
        location: PanelLocationConfig::Remote { profile_id: "u@h:22".to_string() },
        cwd: "/".to_string(),
    });
    let app = world.start(config, "/root");
    assert!(app.left.location == Location::Local);
    assert!(app.left.cwd == VfsPath::new("/root"));
}

#[test]
fn sync_session_into_config_only_persists_local_panels() {
    let mut world = World::new();
    let mut app = fresh(&mut world);
    app.right.location = Location::Remote { profile_id: "u@h:22".to_string() };

    app.sync_session_into_config();

    assert!(app.config.session.left.is_some());
    assert!(app.config.session.right.is_none());
    assert_eq!(app.config.session.left.unwrap().cwd, "/root");
}

fn connecting(app: &mut App, job_id: JobId, target_left: bool) {
    app.mode = Mode::Progress(ProgressState {
        job_id,
        title: "Connecting".into(),
        progress: Default::default(),
        kind: JobKind::Connect {
            target_left,
            profile: SavedProfileSummary {
                id: "alice@example.com:22".to_string(),
                host: "example.com".to_string(),
                port: 22,
                username: "alice".to_string(),
            },
        },
    });
}

#[test]
fn successful_connect_upserts_profile_in_memory() {
    let mut world = World::new();
    let mut app = fresh(&mut world);
    assert!(app.config.profiles.is_empty());

    let job_id: JobId = 42;
    connecting(&mut app, job_id, true);
    world.event(&mut app, JobEvent::Finished { job_id, outcome: JobOutcome::Completed });

    assert_eq!(app.config.profiles.len(), 1);
    assert_eq!(app.config.profiles[0].host, "example.com");
    assert!(app.left.location == Location::Remote { profile_id: "alice@example.com:22".to_string() });
    assert!(app.right.location == Location::Local);
    assert!(world.queue.is_empty(), "no fast channel is set up unless the config asks for it");
}

#[test]
fn failed_connect_saves_nothing_and_tells_why() {
    let mut world = World::new();
    let mut app = fresh(&mut world);
    connecting(&mut app, 7, true);
    world.event(&mut app, JobEvent::Finished { job_id: 7, outcome: JobOutcome::Failed("no route".to_string()) });

    assert!(matches!(app.mode, Mode::Browsing));
    assert!(app.config.profiles.is_empty());
    assert!(app.left.location == Location::Local);
    assert_eq!(app.status.as_deref(), Some("Job failed: no route"));
}

#[test]
fn fast_channel_is_warmed_in_the_background_when_enabled() {
    let mut world = World::new();
    let mut app = fresh(&mut world);
    app.config.general.enable_quic_fast_path = true;
    connecting(&mut app, 7, false);
    world.event(&mut app, JobEvent::Finished { job_id: 7, outcome: JobOutcome::Completed });

    assert_eq!(world.queue.len(), 1);
    let (id, work) = world.queue.remove(0);
    assert!(matches!(work, JobWork::WarmFastPath { profile_id } if profile_id == "alice@example.com:22"));
    assert_eq!(app.background_jobs.len(), 1);
    assert!(!app.right.quic_available);

    // Something else is on screen when the background job ends.
    world.press(&mut app, KeyCode::F(7));
    let info = pfnc::vfs::ConnectionInfo { protocol: "SFTP", remote_os: None, quic: None };
    app.registry.connect_and_cache(pfnc::registry::RemoteBackend {
        profile_id: "alice@example.com:22".to_string(),
        fast: true,
        info,
    });
    world.event(&mut app, JobEvent::Finished { job_id: id, outcome: JobOutcome::Completed });
    assert!(app.right.quic_available);
    assert!(!app.left.quic_available);
    assert!(matches!(app.mode, Mode::TextInput(_)), "the prompt stays open");
    assert!(app.background_jobs.is_empty());
}

fn test_tar() -> Vec<u8> {
    let mut builder = tar::Builder::new(Vec::new());
    let mut header = tar::Header::new_gnu();
    let data = b"archived content";
    header.set_size(data.len() as u64);
    header.set_mode(0o644);
    header.set_cksum();
    builder.append_data(&mut header, "inner/note.txt", &data[..]).unwrap();
    builder.into_inner().unwrap()
}

#[test]
fn enter_archive_browse_and_pop_back_out() {
    let mut world = World::new();
    world.disk.mkdir("/root");
    world.disk.write("/root/backup.tar", &test_tar());
    let mut app = world.start(Config::default(), "/root");

    // Only entry in the root is "backup.tar" (cursor already on it).
    world.press(&mut app, KeyCode::Enter);
    world.wait_for_job_to_finish(&mut app);

    assert!(matches!(app.left.location, Location::Archive { .. }));
    assert!(app.left.cwd == VfsPath::new("/"));
    assert_eq!(app.left.entries.len(), 1);
    assert_eq!(app.left.entries[0].name, "inner");

    // Descend into the archive's own subdirectory.
    world.press(&mut app, KeyCode::Enter);
    assert!(app.left.cwd == VfsPath::new("/inner"));
    assert_eq!(app.left.entries[0].name, "note.txt");

    // Backspace out of the subdirectory, back to the archive root.
    world.press(&mut app, KeyCode::Backspace);
    assert!(app.left.cwd == VfsPath::new("/"));
    assert!(matches!(app.left.location, Location::Archive { .. }));

    // Backspace again at the archive root pops all the way back out to the
    // location the archive file lives in.
    world.press(&mut app, KeyCode::Backspace);
    assert!(app.left.location == Location::Local);
    assert!(app.left.cwd == VfsPath::new("/root"));
    assert!(app.left.entries.iter().any(|e| e.name == "backup.tar"));
    assert_eq!(app.left.entries[app.left.cursor].name, "backup.tar");
}

#[test]
fn extract_file_out_of_archive_via_copy() {
    let mut world = World::new();
    world.disk.mkdir("/root/dest");
    world.disk.write("/root/backup.tar", &test_tar());
    let mut app = world.start(Config::default(), "/root");

    // Entries sorted folders-first: dest(0), backup.tar(1).
    world.press(&mut app, KeyCode::Down); // onto backup.tar
    world.press(&mut app, KeyCode::Enter); // open backup.tar
    world.wait_for_job_to_finish(&mut app);
    world.press(&mut app, KeyCode::Enter); // descend into inner/

    // Right panel -> dest (cursor already on it, folders sort first).
    world.press(&mut app, KeyCode::Tab);
    world.press(&mut app, KeyCode::Enter);
    world.press(&mut app, KeyCode::Tab); // back to the archive panel

    world.press(&mut app, KeyCode::F(5));
    world.press(&mut app, KeyCode::Enter); // confirm prefilled "dest" destination
    world.wait_for_job_to_finish(&mut app);

    assert_eq!(world.disk.read("/root/dest/note.txt").unwrap(), b"archived content");
}

#[test]
fn cursor_resets_to_top_when_entering_a_directory() {
    let mut world = World::new();
    world.disk.mkdir("/root/a");
    world.disk.mkdir("/root/b");
    world.disk.write("/root/b/inner.txt", b"x");
    let mut app = world.start(Config::default(), "/root");

    // Move cursor down to "b" (entries sorted: a, b), then descend.
    world.press(&mut app, KeyCode::Down);
    assert_eq!(app.left.cursor, 1);
    world.press(&mut app, KeyCode::Enter);

    assert_eq!(app.left.cursor, 0);
    assert_eq!(app.left.entries.len(), 1);
    assert_eq!(app.left.entries[0].name, "inner.txt");
}

#[test]
fn page_down_and_page_up_move_by_a_full_screen() {
    let mut world = World::new();
    world.disk.mkdir("/root");
    for i in 0..20 {
        world.disk.write(&format!("/root/f{i:02}"), b"x");
    }
    let mut app = world.start(Config::default(), "/root");
    assert_eq!(app.left.entries.len(), 20);
    app.left.viewport_height = 5;

    world.press(&mut app, KeyCode::PageDown);
    assert_eq!(app.left.cursor, 5);
    world.press(&mut app, KeyCode::PageDown);
    assert_eq!(app.left.cursor, 10);

    world.press(&mut app, KeyCode::PageUp);
    assert_eq!(app.left.cursor, 5);

    // Clamps at the ends rather than wrapping or erroring.
    for _ in 0..10 {
        world.press(&mut app, KeyCode::PageUp);
    }
    assert_eq!(app.left.cursor, 0);
    for _ in 0..10 {
        world.press(&mut app, KeyCode::PageDown);
    }
    assert_eq!(app.left.cursor, 19);
}

#[test]
fn ascend_restores_cursor_to_the_directory_just_left() {
    let mut world = World::new();
    world.disk.mkdir("/root/a");
    world.disk.mkdir("/root/b");
    world.disk.mkdir("/root/c");
    let mut app = world.start(Config::default(), "/root");

    // Entries sorted: a(0), b(1), c(2).
    world.press(&mut app, KeyCode::Down);
    world.press(&mut app, KeyCode::Down);
    assert_eq!(app.left.cursor, 2);
    world.press(&mut app, KeyCode::Enter); // descend into "c"

    world.press(&mut app, KeyCode::Backspace); // ascend back up
    assert_eq!(
        app.left.entries[app.left.cursor].name, "c",
        "the cursor should land back on the folder just left, not reset to the top"
    );
    assert!(app.left.cwd == VfsPath::new("/root"));
}

#[test]
fn ascending_from_the_root_does_nothing() {
    let mut world = World::new();
    world.disk.mkdir("/root");
    let mut app = world.start(Config::default(), "/");
    world.press(&mut app, KeyCode::Left);
    assert!(app.left.cwd == VfsPath::new("/"));
    assert_eq!(names(&app.left.entries), vec!["root"]);
}

#[test]
fn mkdir_via_text_input_creates_directory_and_reloads() {
    let mut world = World::new();
    let mut app = fresh(&mut world);

    world.press(&mut app, KeyCode::F(7));
    assert!(matches!(app.mode, Mode::TextInput(_)));
    for c in "newdir".chars() {
        world.press(&mut app, KeyCode::Char(c));
    }
    world.press(&mut app, KeyCode::Enter);

    assert!(matches!(app.mode, Mode::Browsing));
    assert!(world.disk.is_dir("/root/newdir"));
    assert!(app.left.entries.iter().any(|e| e.name == "newdir"));
}

#[test]
fn a_directory_that_cannot_be_made_is_reported() {
    let mut world = World::new();
    let mut app = fresh(&mut world);
    app.on_mkdir(Err(VfsError::PermissionDenied(VfsPath::new("/root/x"))));
    assert_eq!(app.status.as_deref(), Some("mkdir failed: permission denied: /root/x"));
    app.on_mkdir(Ok(()));
    assert!(app.status.is_none());
}

#[test]
fn copy_selected_files_to_other_panel_via_f5() {
    let mut world = World::new();
    world.disk.mkdir("/root/src");
    world.disk.write("/root/src/a.txt", b"aaa");
    world.disk.write("/root/src/b.txt", b"bbb");
    world.disk.mkdir("/root/dest");
    let mut app = world.start(Config::default(), "/root");

    // Right panel -> dest (entries sorted: dest(0), src(1); already at 0).
    world.press(&mut app, KeyCode::Tab);
    world.press(&mut app, KeyCode::Enter);
    // Left panel -> src, select both files.
    world.press(&mut app, KeyCode::Tab);
    world.press(&mut app, KeyCode::Down);
    world.press(&mut app, KeyCode::Enter);
    world.press(&mut app, KeyCode::Char(' '));
    world.press(&mut app, KeyCode::Char(' '));

    world.press(&mut app, KeyCode::F(5));
    assert!(matches!(app.mode, Mode::TextInput(_)));
    world.press(&mut app, KeyCode::Enter); // confirm prefilled "dest" destination

    assert!(matches!(app.mode, Mode::Progress(_)));
    world.wait_for_job_to_finish(&mut app);

    assert_eq!(world.disk.read("/root/dest/a.txt").unwrap(), b"aaa");
    assert_eq!(world.disk.read("/root/dest/b.txt").unwrap(), b"bbb");
    // Copy leaves the originals in place.
    assert!(world.disk.has("/root/src/a.txt"));
    assert_eq!(names(&app.right.entries), vec!["a.txt", "b.txt"]);
}

#[test]
fn rename_single_item_via_f6() {
    let mut world = World::new();
    world.disk.mkdir("/root");
    world.disk.write("/root/old.txt", b"data");
    let mut app = world.start(Config::default(), "/root");
    world.press(&mut app, KeyCode::F(6));
    let Mode::TextInput(prompt) = &app.mode else {
        panic!("expected TextInput mode");
    };
    assert_eq!(prompt.text.value, "/root/old.txt");

    // Clear the prefilled value and type the new full path.
    for _ in 0.."/root/old.txt".len() {
        world.press(&mut app, KeyCode::Backspace);
    }
    for c in "/root/new.txt".chars() {
        world.press(&mut app, KeyCode::Char(c));
    }
    world.press(&mut app, KeyCode::Enter);

    world.wait_for_job_to_finish(&mut app);
    assert!(!world.disk.has("/root/old.txt"));
    assert_eq!(world.disk.read("/root/new.txt").unwrap(), b"data");
}

#[test]
fn move_selected_items_into_the_other_panels_directory() {
    let mut world = World::new();
    world.disk.mkdir("/root/dest");
    world.disk.write("/root/one.txt", b"1");
    world.disk.write("/root/two.txt", b"2");
    let mut app = world.start(Config::default(), "/root");
    world.press(&mut app, KeyCode::Tab);
    world.press(&mut app, KeyCode::Enter);
    world.press(&mut app, KeyCode::Tab);
    world.press(&mut app, KeyCode::Char('j'));
    world.press(&mut app, KeyCode::Char(' '));
    world.press(&mut app, KeyCode::Char(' '));
    world.press(&mut app, KeyCode::F(6));
    world.press(&mut app, KeyCode::Enter);
    assert!(matches!(&world.queue[0].1, JobWork::Rename { pairs, .. } if pairs.len() == 2));
    world.wait_for_job_to_finish(&mut app);
    assert_eq!(world.disk.read("/root/dest/one.txt").unwrap(), b"1");
    assert_eq!(world.disk.read("/root/dest/two.txt").unwrap(), b"2");
    assert!(!world.disk.has("/root/one.txt"));
}

fn move_away(world: &mut World, items: Vec<&str>, src: Backend, dst: Backend) -> Result<(), JobError> {
    let items = items.into_iter().map(VfsPath::new).collect();
    let work = move_cross_backend(items, &VfsPath::new("/dst"));
    world.run(work, src, dst, &CancellationToken::new(), &mut Vec::new()).outcome()
}

#[test]
fn move_between_backends_copies_then_deletes_the_originals() {
    let mut world = World::new();
    world.disk.mkdir("/src/tree");
    world.disk.write("/src/tree/f", b"content");
    world.far.mkdir("/dst");
    // The same paths exist over there and must stay.
    world.far.mkdir("/src/tree");
    world.far.write("/src/tree/f", b"another");
    assert!(move_away(&mut world, vec!["/src/tree"], Backend::Local, Backend::Remote(0)).is_ok());
    assert_eq!(world.far.read("/dst/tree/f").unwrap(), b"content");
    assert!(!world.disk.has("/src/tree"));
    assert!(!world.disk.has("/dst/tree"));
    assert_eq!(world.far.read("/src/tree/f").unwrap(), b"another");
}

#[test]
fn move_from_a_remote_host_deletes_there() {
    let mut world = World::new();
    world.far.mkdir("/src");
    world.far.write("/src/f", b"content");
    world.disk.mkdir("/dst");
    assert!(move_away(&mut world, vec!["/src/f"], Backend::Remote(0), Backend::Local).is_ok());
    assert_eq!(world.disk.read("/dst/f").unwrap(), b"content");
    assert!(!world.far.has("/src/f"));
}

#[test]
fn a_failed_copy_keeps_the_originals_of_a_move() {
    let mut world = World::new();
    world.disk.mkdir("/src");
    world.disk.write("/src/kept", b"content");
    let result = move_away(&mut world, vec!["/src/kept", "/src/missing"], Backend::Local, Backend::Remote(0));
    assert!(matches!(result, Err(JobError::Vfs(VfsError::NotFound(_)))));
    assert_eq!(world.disk.read("/src/kept").unwrap(), b"content");
}

#[test]
fn a_link_that_cannot_be_made_keeps_the_originals_of_a_move() {
    let mut world = World::new();
    world.disk.mkdir("/src/tree");
    world.disk.write("/src/tree/f", b"content");
    world.disk.link("/src/tree/l", "/src/tree/f");
    world.far.mkdir("/dst");
    world.far.linking = false;
    let result = move_away(&mut world, vec!["/src/tree"], Backend::Local, Backend::Remote(0));
    assert!(matches!(result, Err(JobError::Vfs(VfsError::Unsupported(_)))));
    assert!(world.disk.has("/src/tree/l"));
    assert_eq!(world.disk.read("/src/tree/f").unwrap(), b"content");

    // A plain copy leaves such a link out and goes on.
    let work = copy_job(&vec![VfsPath::new("/src/tree")], &VfsPath::new("/dst"));
    let done = world.run(work, Backend::Local, Backend::Remote(0), &CancellationToken::new(), &mut Vec::new());
    assert!(done.outcome().is_ok());
    assert!(!world.far.has("/dst/tree/l"));
    assert_eq!(world.far.read("/dst/tree/f").unwrap(), b"content");
}

#[test]
fn delete_with_confirmation_via_f8() {
    let mut world = World::new();
    world.disk.mkdir("/root");
    world.disk.write("/root/gone.txt", b"x");
    let mut app = world.start(Config::default(), "/root");
    world.press(&mut app, KeyCode::F(8));
    let Mode::Confirm(dialog) = &app.mode else {
        panic!("expected a question");
    };
    assert_eq!(dialog.message, "Delete '/root/gone.txt'?");
    world.press(&mut app, KeyCode::Char('x'));
    assert!(matches!(app.mode, Mode::Confirm(_)), "any other key leaves the question open");
    world.press(&mut app, KeyCode::Char('y'));

    world.wait_for_job_to_finish(&mut app);
    assert!(!world.disk.has("/root/gone.txt"));
    assert!(app.left.entries.is_empty());
}

#[test]
fn the_question_counts_several_items() {
    let mut world = World::new();
    world.disk.mkdir("/root");
    for i in 0..12 {
        world.disk.write(&format!("/root/f{i:02}"), b"x");
    }
    let mut app = world.start(Config::default(), "/root");
    for _ in 0..12 {
        world.press(&mut app, KeyCode::Char(' '));
    }
    // The cursor stops at the end, so the last one was toggled once.
    assert_eq!(app.left.selected.len(), 12);
    world.press(&mut app, KeyCode::F(8));
    let Mode::Confirm(dialog) = &app.mode else {
        panic!("expected a question");
    };
    assert_eq!(dialog.message, "Delete 12 items?");
}

#[test]
fn confirm_delete_false_skips_dialog_and_deletes_immediately() {
    let mut world = World::new();
    world.disk.mkdir("/root");
    world.disk.write("/root/gone.txt", b"x");
    let mut config = Config::default();
    config.general.confirm_delete = false;
    let mut app = world.start(config, "/root");

    world.press(&mut app, KeyCode::F(8));
    assert!(matches!(app.mode, Mode::Progress(_)), "should skip straight to the delete job");

    world.wait_for_job_to_finish(&mut app);
    assert!(!world.disk.has("/root/gone.txt"));
}

#[test]
fn delete_confirmation_cancel_leaves_file_untouched() {
    let mut world = World::new();
    world.disk.mkdir("/root");
    world.disk.write("/root/stays.txt", b"x");
    let mut app = world.start(Config::default(), "/root");
    world.press(&mut app, KeyCode::F(8));
    world.press(&mut app, KeyCode::Char('n'));

    assert!(matches!(app.mode, Mode::Browsing));
    assert!(world.disk.has("/root/stays.txt"));
    assert!(world.queue.is_empty());
}

/// Both panels of a new app, the left one in `srcdir`, the right one in `dstdir`.
fn in_both_dirs(world: &mut World, app: &mut App) {
    world.press(app, KeyCode::Tab);
    world.press(app, KeyCode::Enter);
    world.press(app, KeyCode::Tab);
    world.press(app, KeyCode::Down);
    world.press(app, KeyCode::Enter);
}

#[test]
fn sync_via_f4_scans_confirms_and_copies_only_whats_needed() {
    let mut world = World::new();
    world.disk.mkdir("/root/dstdir");
    world.disk.mkdir("/root/srcdir");
    world.disk.write("/root/srcdir/new.txt", b"fresh");
    world.disk.write("/root/srcdir/same.txt", b"identical");
    world.disk.write("/root/dstdir/same.txt", b"identical");
    world.disk.write("/root/dstdir/extra.txt", b"only on dest");
    let mut app = world.start(Config::default(), "/root");
    in_both_dirs(&mut world, &mut app);

    world.press(&mut app, KeyCode::F(4)); // sync's default binding
    assert!(matches!(app.mode, Mode::Progress(_)), "should start a scan job");
    world.wait_for_job_to_finish(&mut app);

    let Mode::Confirm(dialog) = &app.mode else {
        panic!("expected a Confirm summary after the scan, got {:?}", app.mode);
    };
    assert!(dialog.message.contains("1 to copy"), "only new.txt should need copying: {}", dialog.message);
    // extra.txt is dest-only but delete_extraneous defaults to false.
    assert!(!dialog.message.contains("delete"), "must not offer to delete: {}", dialog.message);
    assert_eq!(dialog.message, "1 to copy (5 B) — proceed?");

    world.press(&mut app, KeyCode::Enter); // confirm
    assert!(matches!(app.mode, Mode::Progress(_)), "should start the execute job");
    world.wait_for_job_to_finish(&mut app);

    assert_eq!(world.disk.read("/root/dstdir/new.txt").unwrap(), b"fresh");
    assert_eq!(world.disk.read("/root/dstdir/same.txt").unwrap(), b"identical");
    assert!(world.disk.has("/root/dstdir/extra.txt"), "extraneous file must survive a non-mirroring sync");
}

#[test]
fn sync_with_delete_extraneous_removes_dest_only_files() {
    let mut world = World::new();
    world.disk.mkdir("/root/dstdir");
    world.disk.mkdir("/root/srcdir");
    world.disk.write("/root/dstdir/extra.txt", b"only on dest");
    let mut config = Config::default();
    config.general.sync_delete_extraneous = true;
    let mut app = world.start(config, "/root");
    in_both_dirs(&mut world, &mut app);

    world.press(&mut app, KeyCode::F(4));
    world.wait_for_job_to_finish(&mut app);

    let Mode::Confirm(dialog) = &app.mode else {
        panic!("expected a Confirm summary after the scan, got {:?}", app.mode);
    };
    assert!(dialog.message.contains("1 to delete"), "{}", dialog.message);

    world.press(&mut app, KeyCode::Enter);
    world.wait_for_job_to_finish(&mut app);

    assert!(!world.disk.has("/root/dstdir/extra.txt"));
}

#[test]
fn sync_with_nothing_to_do_shows_status_not_a_confirm_dialog() {
    let mut world = World::new();
    world.disk.mkdir("/root/dstdir");
    world.disk.mkdir("/root/srcdir");
    world.disk.write("/root/srcdir/same.txt", b"identical");
    world.disk.write("/root/dstdir/same.txt", b"identical");
    let mut app = world.start(Config::default(), "/root");
    in_both_dirs(&mut world, &mut app);

    world.press(&mut app, KeyCode::F(4));
    world.wait_for_job_to_finish(&mut app);

    assert!(matches!(app.mode, Mode::Browsing), "a no-op sync should not show a confirm dialog");
    assert_eq!(app.status.as_deref(), Some("Nothing to sync"));
}

#[test]
fn a_scan_without_a_plan_is_reported() {
    let mut world = World::new();
    let mut app = fresh(&mut world);
    world.press(&mut app, KeyCode::F(4));
    let (id, _) = world.queue.remove(0);
    world.event(&mut app, JobEvent::Finished { job_id: id, outcome: JobOutcome::Completed });
    assert_eq!(app.status.as_deref(), Some("sync scan produced no plan"));
}

#[test]
fn escape_cancels_the_job_on_screen() {
    let mut world = World::new();
    world.disk.mkdir("/root/dest");
    world.disk.write("/root/f", b"x");
    let mut app = world.start(Config::default(), "/root");
    world.press(&mut app, KeyCode::Tab);
    world.press(&mut app, KeyCode::Enter);
    world.press(&mut app, KeyCode::Tab);
    world.press(&mut app, KeyCode::Down);
    world.press(&mut app, KeyCode::F(5));
    world.press(&mut app, KeyCode::Enter);
    world.press(&mut app, KeyCode::Esc);
    assert!(matches!(app.mode, Mode::Progress(_)), "the screen stays until the job has stopped");
    world.wait_for_job_to_finish(&mut app);
    assert_eq!(app.status.as_deref(), Some("Cancelled"));
    assert!(!world.disk.has("/root/dest/f"));
}

#[test]
fn the_end_of_another_job_leaves_the_screen_alone() {
    let mut world = World::new();
    let mut app = fresh(&mut world);
    connecting(&mut app, 7, true);
    app.status = Some("kept".to_string());
    world.event(&mut app, JobEvent::Finished { job_id: 8, outcome: JobOutcome::Completed });
    assert!(matches!(app.mode, Mode::Progress(_)));
    assert_eq!(app.status.as_deref(), Some("kept"));
    let progress = JobProgress { bytes_done: 3, ..Default::default() };
    world.event(&mut app, JobEvent::Progress { job_id: 8, progress });
    let Mode::Progress(state) = &app.mode else {
        panic!("expected progress");
    };
    assert_eq!(state.progress.bytes_done, 0);
}

#[test]
fn a_lost_location_refuses_copy_sync_and_move() {
    let mut world = World::new();
    world.disk.mkdir("/root");
    world.disk.write("/root/f", b"x");
    let mut app = world.start(Config::default(), "/root");
    app.right.location = Location::Remote { profile_id: "u@h:22".to_string() };
    let lost = "connection lost: no active connection for profile u@h:22";

    world.press(&mut app, KeyCode::F(5));
    world.press(&mut app, KeyCode::Enter);
    assert!(matches!(app.mode, Mode::Browsing));
    assert_eq!(app.status.as_deref(), Some(format!("copy failed: {lost}").as_str()));

    world.press(&mut app, KeyCode::F(4));
    assert_eq!(app.status.as_deref(), Some(format!("sync failed: {lost}").as_str()));

    world.press(&mut app, KeyCode::Char(' '));
    world.press(&mut app, KeyCode::F(6));
    world.press(&mut app, KeyCode::Enter);
    assert_eq!(app.status.as_deref(), Some(format!("move failed: {lost}").as_str()));
    assert!(world.queue.is_empty());
}

#[test]
fn edit_is_asked_for_files_only() {
    let mut world = World::new();
    world.disk.mkdir("/root/dir");
    world.disk.write("/root/file.txt", b"x");
    let mut app = world.start(Config::default(), "/root");
    world.press(&mut app, KeyCode::F(3));
    assert!(app.edit_request.is_none());
    world.press(&mut app, KeyCode::Down);
    world.press(&mut app, KeyCode::F(3));
    let target = app.edit_request.take().unwrap();
    assert_eq!(target.path.as_str(), "/root/file.txt");
    assert!(target.location == Location::Local);
}

fn type_text(world: &mut World, app: &mut App, text: &str) {
    for c in text.chars() {
        world.press(app, KeyCode::Char(c));
    }
}

#[test]
fn the_connect_form_checks_its_fields_and_connects() {
    let mut world = World::new();
    let mut app = fresh(&mut world);
    world.press(&mut app, KeyCode::F(9));
    world.press(&mut app, KeyCode::Enter);
    let Mode::Connect(form) = &app.mode else {
        panic!("expected the form");
    };
    assert_eq!(form.error.as_deref(), Some("Host is required"));
    assert_eq!(form.username(), "me");

    type_text(&mut world, &mut app, " example.com ");
    world.press(&mut app, KeyCode::Tab);
    type_text(&mut world, &mut app, "x");
    world.press(&mut app, KeyCode::Enter);
    let Mode::Connect(form) = &app.mode else {
        panic!("expected the form");
    };
    assert_eq!(form.error.as_deref(), Some("Port must be a number"));

    world.press(&mut app, KeyCode::Backspace);
    type_text(&mut world, &mut app, "22");
    world.press(&mut app, KeyCode::Up);
    world.press(&mut app, KeyCode::Up);
    type_text(&mut world, &mut app, "secret");
    world.press(&mut app, KeyCode::Enter);
    assert!(matches!(app.mode, Mode::Progress(_)));
    let (_, work) = world.queue.remove(0);
    let JobWork::Connect { profile } = work else {
        panic!("expected a connect job");
    };
    assert_eq!(profile.id, "me@example.com:2222");
    assert_eq!(profile.host, "example.com");
    assert_eq!(profile.port, 2222);
    assert!(
        matches!(profile.auth, pfnc::auth::AuthMethod::Auto { password: Some(p) } if p == "secret"),
        "the password goes to the job"
    );
}

#[test]
fn function_keys_pick_saved_profiles_but_keep_the_password() {
    let mut world = World::new();
    let mut app = fresh(&mut world);
    app.config.upsert_profile(pfnc::config::ConnectionProfileConfig {
        id: "a@h:2200".to_string(),
        host: "h".to_string(),
        port: 2200,
        username: "a".to_string(),
    });
    world.press(&mut app, KeyCode::F(9));
    world.press(&mut app, KeyCode::Up);
    type_text(&mut world, &mut app, "pw");
    world.press(&mut app, KeyCode::F(1));
    let Mode::Connect(form) = &app.mode else {
        panic!("expected the form");
    };
    assert_eq!((form.host(), form.port(), form.username(), form.password()), ("h", "2200", "a", "pw"));
    world.press(&mut app, KeyCode::F(2));
    let Mode::Connect(form) = &app.mode else {
        panic!("expected the form");
    };
    assert_eq!(form.host(), "h");
}

#[test]
fn only_nine_saved_profiles_can_be_picked() {
    let mut world = World::new();
    let mut app = fresh(&mut world);
    for i in 1..=10 {
        app.config.upsert_profile(pfnc::config::ConnectionProfileConfig {
            id: format!("a@h{i}:22"),
            host: format!("h{i}"),
            port: 22,
            username: "a".to_string(),
        });
    }
    world.press(&mut app, KeyCode::F(9));
    world.press(&mut app, KeyCode::F(9));
    world.press(&mut app, KeyCode::F(10));
    let Mode::Connect(form) = &app.mode else {
        panic!("expected the form");
    };
    assert_eq!(form.host(), "h9");
}

// Jobs without the app around them.

fn run_alone(world: &mut World, work: Work) -> (Work, Vec<JobProgress>) {
    let token = CancellationToken::new();
    let mut reports = Vec::new();
    let done = world.run(work, Backend::Local, Backend::Local, &token, &mut reports);
    (done, reports)
}

#[test]
fn copy_job_copies_file_and_directory_tree() {
    let mut world = World::new();
    world.disk.mkdir("/root/src/nested");
    world.disk.write("/root/src/a.txt", b"aaa");
    world.disk.write("/root/src/nested/b.txt", b"bb");
    world.disk.mkdir("/root/dest");

    let work = copy_job(&vec![VfsPath::new("/root/src")], &VfsPath::new("/root/dest"));
    let (done, _) = run_alone(&mut world, work);
    assert!(done.outcome().is_ok());

    assert_eq!(world.disk.read("/root/dest/src/a.txt").unwrap(), b"aaa");
    assert_eq!(world.disk.read("/root/dest/src/nested/b.txt").unwrap(), b"bb");
    // Original is untouched by a copy.
    assert!(world.disk.has("/root/src/a.txt"));
}

#[test]
fn copy_job_reports_progress_and_totals() {
    let mut world = World::new();
    world.disk.mkdir("/root/dest");
    world.disk.write("/root/f.bin", &vec![0u8; 10_000]);

    let work = copy_job(&vec![VfsPath::new("/root/f.bin")], &VfsPath::new("/root/dest"));
    let (done, reports) = run_alone(&mut world, work);
    assert!(done.outcome().is_ok());

    let last = reports.last().unwrap();
    assert_eq!(last.files_total, 1);
    assert_eq!(last.files_done, 1);
    assert_eq!(last.bytes_total, 10_000);
    assert_eq!(last.bytes_done, 10_000);
}

#[test]
fn copy_job_respects_cancellation() {
    let mut world = World::new();
    world.disk.mkdir("/root/dest");
    world.disk.write("/root/big.bin", &vec![0u8; 1_000_000]);

    let token = CancellationToken::new();
    token.cancel();
    let work = copy_job(&vec![VfsPath::new("/root/big.bin")], &VfsPath::new("/root/dest"));
    let done = world.run(work, Backend::Local, Backend::Local, &token, &mut Vec::new());
    assert!(matches!(done.outcome(), Err(JobError::Cancelled)));
}

#[test]
fn move_job_renames_via_vfs_rename() {
    let mut world = World::new();
    world.disk.mkdir("/root");
    world.disk.write("/root/orig.txt", b"data");
    let pairs = vec![(VfsPath::new("/root/orig.txt"), VfsPath::new("/root/moved.txt"))];
    let (done, _) = run_alone(&mut world, move_job(&pairs));
    assert!(done.outcome().is_ok());

    assert!(!world.disk.has("/root/orig.txt"));
    assert_eq!(world.disk.read("/root/moved.txt").unwrap(), b"data");
}

#[test]
fn delete_job_removes_files_and_nested_dirs() {
    let mut world = World::new();
    world.disk.mkdir("/root/victim/nested");
    world.disk.write("/root/victim/a.txt", b"x");
    world.disk.write("/root/victim/nested/b.txt", b"y");
    let (done, _) = run_alone(&mut world, delete_job(&vec![VfsPath::new("/root/victim")]));
    assert!(done.outcome().is_ok());

    assert!(!world.disk.has("/root/victim"));
}

/// Scans a sync from `/src` to `/dst` and applies what it finds.
fn run_sync(world: &mut World, delete_extraneous: bool) -> SyncPlan {
    let scan = build_sync_plan(&VfsPath::new("/src"), &VfsPath::new("/dst"), delete_extraneous);
    let (mut done, _) = run_alone(world, scan);
    let plan = done.plan.take().unwrap();
    assert!(done.outcome().is_ok());
    let (done, _) = run_alone(world, execute_sync_plan(&plan));
    assert!(done.outcome().is_ok());
    plan
}

fn two_dirs() -> World {
    let mut world = World::new();
    world.disk.mkdir("/src");
    world.disk.mkdir("/dst");
    world
}

#[test]
fn new_file_is_copied() {
    let mut world = two_dirs();
    world.disk.write("/src/new.txt", b"fresh content");
    let plan = run_sync(&mut world, false);
    assert_eq!(plan.files_to_copy, 1);
    assert_eq!(world.disk.read("/dst/new.txt").unwrap(), b"fresh content");
}

#[test]
fn changed_file_different_size_is_overwritten() {
    let mut world = two_dirs();
    world.disk.write("/src/f.txt", b"much longer new content");
    world.disk.write("/dst/f.txt", b"old");
    run_sync(&mut world, false);
    assert_eq!(world.disk.read("/dst/f.txt").unwrap(), b"much longer new content");
}

#[test]
fn identical_file_is_left_untouched() {
    let mut world = two_dirs();
    world.disk.write("/src/same.txt", b"identical content");
    world.disk.write("/dst/same.txt", b"identical content");
    let before = world.disk.nodes["/dst/same.txt"].clone();
    let plan = run_sync(&mut world, false);
    assert_eq!(plan.files_to_copy, 0, "identical content must not be re-copied");
    assert_eq!(world.disk.nodes["/dst/same.txt"], before, "untouched file's mtime must not change");
}

#[test]
fn same_size_different_content_is_caught_by_hashing_even_when_destination_is_newer() {
    let mut world = two_dirs();
    world.disk.write("/src/f.txt", b"aaaaaaaaaa");
    world.disk.write("/dst/f.txt", b"bbbbbbbbbb");
    let plan = run_sync(&mut world, false);
    assert_eq!(plan.files_to_copy, 1, "hash must catch a same-size content change mtime would miss");
    assert_eq!(world.disk.read("/dst/f.txt").unwrap(), b"aaaaaaaaaa");
}

#[test]
fn without_hashes_the_times_decide() {
    let mut world = two_dirs();
    world.disk.hashing = false;
    world.disk.write("/src/older.txt", b"aaaa");
    world.disk.write("/dst/older.txt", b"bbbb");
    world.disk.write("/dst/newer.txt", b"bbbb");
    world.disk.write("/src/newer.txt", b"aaaa");
    let plan = run_sync(&mut world, false);
    assert_eq!(plan.files_to_copy, 1);
    assert_eq!(world.disk.read("/dst/older.txt").unwrap(), b"bbbb");
    assert_eq!(world.disk.read("/dst/newer.txt").unwrap(), b"aaaa");
}

#[test]
fn nested_directories_are_created() {
    let mut world = two_dirs();
    world.disk.mkdir("/src/a/b");
    world.disk.write("/src/a/b/deep.txt", b"deep");
    run_sync(&mut world, false);
    assert_eq!(world.disk.read("/dst/a/b/deep.txt").unwrap(), b"deep");
}

#[test]
fn dest_only_file_kept_without_delete_extraneous_removed_with_it() {
    let mut world = two_dirs();
    world.disk.write("/dst/extra.txt", b"only on dest");

    let plan = run_sync(&mut world, false);
    assert_eq!(plan.items_to_delete, 0);
    assert!(world.disk.has("/dst/extra.txt"), "must not delete without delete_extraneous");

    let plan = run_sync(&mut world, true);
    assert_eq!(plan.items_to_delete, 1);
    assert!(!world.disk.has("/dst/extra.txt"), "must delete once delete_extraneous is set");
}

#[test]
fn extraneous_directories_go_with_their_contents() {
    let mut world = two_dirs();
    world.disk.mkdir("/dst/old/deep");
    world.disk.write("/dst/old/deep/f", b"x");
    let plan = run_sync(&mut world, true);
    let order: Vec<&str> = plan.delete.iter().map(|(p, _)| p.as_str()).collect();
    assert_eq!(order, vec!["/dst/old/deep/f", "/dst/old/deep", "/dst/old"]);
    assert!(!world.disk.has("/dst/old"));
}

#[test]
fn type_mismatch_file_replaced_by_directory() {
    let mut world = two_dirs();
    world.disk.mkdir("/src/conflict");
    world.disk.write("/src/conflict/inner.txt", b"inner");
    world.disk.write("/dst/conflict", b"was a plain file");
    run_sync(&mut world, false);
    assert!(world.disk.is_dir("/dst/conflict"));
    assert_eq!(world.disk.read("/dst/conflict/inner.txt").unwrap(), b"inner");
}

#[test]
fn type_mismatch_directory_replaced_by_file() {
    let mut world = two_dirs();
    world.disk.write("/src/conflict", b"now a file");
    world.disk.mkdir("/dst/conflict/nested");
    world.disk.write("/dst/conflict/nested/old.txt", b"old");
    run_sync(&mut world, false);
    assert!(!world.disk.is_dir("/dst/conflict"));
    assert_eq!(world.disk.read("/dst/conflict").unwrap(), b"now a file");
}

#[test]
fn mismatched_symlink_is_recreated() {
    let mut world = two_dirs();
    world.disk.write("/target_a", b"a");
    world.disk.write("/target_b", b"b");
    world.disk.link("/src/link", "/target_a");
    world.disk.link("/dst/link", "/target_b");
    run_sync(&mut world, false);
    assert_eq!(world.disk.nodes["/dst/link"], Node::Link { target: "/target_a".to_string() });
}

#[test]
fn a_sync_into_an_empty_destination_that_does_not_exist_is_an_error() {
    let mut world = World::new();
    world.disk.mkdir("/src");
    let scan = build_sync_plan(&VfsPath::new("/src"), &VfsPath::new("/dst"), false);
    let (done, _) = run_alone(&mut world, scan);
    assert!(matches!(done.outcome(), Err(JobError::Vfs(VfsError::NotFound(_)))));
}

/// A source with everything that a sync can copy, and a destination that differs
/// in every way.
fn different_dirs() -> World {
    let mut world = two_dirs();
    world.disk.mkdir("/src/new/deep");
    world.disk.write("/src/new/deep/f", b"new");
    world.disk.write("/src/same", b"same");
    world.disk.write("/dst/same", b"same");
    world.disk.write("/src/longer", b"longer content");
    world.disk.write("/dst/longer", b"short");
    world.disk.write("/dst/edited", b"old");
    world.disk.write("/src/edited", b"new");
    world.disk.link("/src/link", "/a");
    world.disk.link("/dst/link", "/b");
    world.disk.write("/src/was_dir", b"file now");
    world.disk.mkdir("/dst/was_dir/inner");
    world.disk.mkdir("/src/was_file/inner");
    world.disk.write("/dst/was_file", b"file");
    world.disk.mkdir("/src/both");
    world.disk.mkdir("/dst/both/extra/more");
    world.disk.write("/dst/both/extra/more/f", b"extra");
    world.disk.write("/dst/only_here", b"extra");
    world
}

#[test]
fn after_a_sync_there_is_nothing_left_to_sync() {
    for delete_extraneous in [false, true] {
        let mut world = different_dirs();
        let plan = run_sync(&mut world, delete_extraneous);
        assert!(!plan.is_empty());
        assert_eq!(world.disk.has("/dst/only_here"), !delete_extraneous);
        assert_eq!(world.disk.read("/dst/was_dir").unwrap(), b"file now");
        let again = run_sync(&mut world, delete_extraneous);
        assert!(again.is_empty());
        assert_eq!((again.files_to_copy, again.items_to_delete), (0, 0));
    }
}

#[test]
fn a_plan_names_no_place_twice_and_contents_before_their_directory() {
    let mut world = different_dirs();
    let plan = run_sync(&mut world, true);
    let places: Vec<&str> = plan.copy.iter().map(|c| c.dst_path.as_str()).collect();
    for (i, place) in places.iter().enumerate() {
        assert!(!places[i + 1..].contains(place));
    }
    let deleted: Vec<&str> = plan.delete.iter().map(|d| d.0.as_str()).collect();
    assert_eq!(
        deleted,
        vec!["/dst/both/extra/more/f", "/dst/both/extra/more", "/dst/both/extra", "/dst/only_here"]
    );
}
