//! What keys and job events do. Nothing here touches a disk or a network: what
//! has to be done there comes back as a list of effects, to be done in order.

use vstd::prelude::*;

use crate::app;
use crate::app::{App, PaneSide};
use crate::archive;
use crate::archive::detect_format;
use crate::auth::{AuthMethod, ConnectionProfile};
use crate::config;
use crate::config::ConnectionProfileConfig;
use crate::editor::EditTarget;
use crate::job;
use crate::job::{JobEvent, JobId, JobOutcome, JobProgress, SyncPlan};
use crate::jobs;
use crate::keymap::{Action, KeyCode};
use crate::mode;
use crate::mode::{
    ConfirmDialog, ConfirmPurpose, ConnectForm, EditableText, JobKind, Mode, ProgressState,
    SavedProfileSummary, SyncPlanCell, TextInputPrompt, TextInputPurpose,
};
use crate::numbers;
use crate::panel;
use crate::panel::{page_size, selected_items, PanelState};
use crate::path;
use crate::path::VfsPath;
use crate::registry;
use crate::registry::quic_available_for;
use crate::text;
use crate::text::{from_chars, joined_text, owned, to_chars, trim, trim_chars};
use crate::vfs;
use crate::vfs::{clone_paths, Location, ProfileId};
use crate::view;
use crate::view::format_bytes;

verus! {

/// What a job is to do.
#[derive(Debug)]
pub enum JobWork {
    /// `fast`: whether a fast channel may be used.
    Copy {
        src: Location,
        dst: Location,
        items: Vec<VfsPath>,
        dest_dir: VfsPath,
        fast: bool,
    },
    Delete { location: Location, items: Vec<VfsPath> },
    /// A move within one backend.
    Rename { location: Location, pairs: Vec<(VfsPath, VfsPath)> },
    /// A move between two backends.
    MoveAcross {
        src: Location,
        dst: Location,
        items: Vec<VfsPath>,
        dest_dir: VfsPath,
        fast: bool,
    },
    /// Find out what a sync would do.
    ScanSync {
        src: Location,
        dst: Location,
        src_root: VfsPath,
        dst_root: VfsPath,
        delete_extraneous: bool,
    },
    /// Apply an approved plan.
    ExecuteSync { src: Location, dst: Location, plan: SyncPlan, fast: bool },
    OpenArchive { location: Location },
    Connect { profile: ConnectionProfile },
    /// Get a fast channel ready.
    WarmFastPath { profile_id: ProfileId },
}

/// Something to be done outside.
#[derive(Debug)]
pub enum Effect {
    /// List a panel's directory and hand the result to [`App::on_listed`].
    Reload { side: PaneSide, select: Option<String> },
    /// Make a directory and hand the result to [`App::on_mkdir`].
    MakeDir { location: Location, path: VfsPath },
    /// Start a job that has been registered.
    Spawn { id: JobId, work: JobWork },
    /// Ask a job to stop.
    Cancel { id: JobId },
}

/// Whether an effect lists a panel again.
pub open spec fn is_reload(effect: Effect, side: PaneSide, select: Option<Seq<char>>) -> bool {
    effect matches Effect::Reload { side: s, select: n } && s == side && app::name_text(n)
        == select
}

/// Whether the only effect lists a panel again.
pub open spec fn reloads(
    effects: Seq<Effect>,
    side: PaneSide,
    select: Option<Seq<char>>,
) -> bool {
    effects.len() == 1 && is_reload(effects[0], side, select)
}

/// Whether the effects list both panels again.
pub open spec fn reloads_both(effects: Seq<Effect>) -> bool {
    &&& effects.len() == 2
    &&& is_reload(effects[0], PaneSide::Left, None)
    &&& is_reload(effects[1], PaneSide::Right, None)
}

/// Whether nothing at all happens.
pub open spec fn unchanged(pre: App, post: App, effects: Seq<Effect>) -> bool {
    post == pre && effects.len() == 0
}

/// Whether a job is started and put on screen. What it does is `started_work`,
/// and what its end means is `started_kind`.
pub open spec fn starts_job(
    pre: App,
    post: App,
    effects: Seq<Effect>,
    label: Seq<char>,
    title: Seq<char>,
) -> bool {
    &&& jobs::is_spawned(pre.jobs, post.jobs, label)
    &&& post == (App { mode: post.mode, jobs: post.jobs, ..pre })
    &&& post.mode matches Mode::Progress(state)
    &&& state.job_id == pre.jobs.next_id
    &&& state.title@ == title
    &&& state.progress == job::no_progress()
    &&& effects.len() == 1
    &&& effects[0] matches Effect::Spawn { id, work }
    &&& id == pre.jobs.next_id
}

/// What the job that is started does.
pub open spec fn started_work(effects: Seq<Effect>) -> JobWork {
    effects[0]->work
}

/// What the end of the job on screen means.
pub open spec fn started_kind(post: App) -> JobKind {
    post.mode->Progress_0.kind
}

fn nothing() -> (r: Vec<Effect>)
    ensures
        r@.len() == 0,
{
    Vec::new()
}

fn only(effect: Effect) -> (r: Vec<Effect>)
    ensures
        r@.len() == 1,
        r@[0] == effect,
{
    let mut out: Vec<Effect> = Vec::new();
    out.push(effect);
    out
}

fn start_job(app: &mut App, label: &str, title: &str, kind: JobKind, work: JobWork) -> (r: Vec<
    Effect,
>)
    ensures
        starts_job(*old(app), *final(app), r@, label@, title@),
        old(app).is_distinct() ==> final(app).is_distinct(),
        started_kind(*final(app)) == kind,
        started_work(r@) == work,
{
    let id: JobId = app.jobs.spawn(label);
    app.mode = Mode::Progress(
        ProgressState { job_id: id, title: owned(title), progress: JobProgress::default(), kind },
    );
    only(Effect::Spawn { id, work })
}

/// Lists both panels again.
pub fn reload_both() -> (r: Vec<Effect>)
    ensures
        reloads_both(r@),
{
    let mut out: Vec<Effect> = Vec::new();
    out.push(Effect::Reload { side: PaneSide::Left, select: None });
    out.push(Effect::Reload { side: PaneSide::Right, select: None });
    out
}

/// The active panel's cursor moves by `delta`.
pub open spec fn cursor_moves(pre: App, post: App, effects: Seq<Effect>, delta: int) -> bool {
    let p = pre.panel(pre.active);
    &&& post == pre.with_panel(
        pre.active,
        PanelState { cursor: panel::moved_cursor(p, delta), ..p },
    )
    &&& effects.len() == 0
}

/// The entry under the cursor is selected, or no longer, and the cursor goes on.
pub open spec fn selection_toggles(pre: App, post: App, effects: Seq<Effect>) -> bool {
    let p = pre.panel(pre.active);
    let q = post.panel(pre.active);
    match p.at_cursor() {
        None => unchanged(pre, post, effects),
        Some(entry) => {
            &&& q.selected@ == panel::toggled(p.selected@, entry.path)
            &&& q == (PanelState {
                selected: q.selected,
                cursor: panel::moved_cursor(p, 1),
                ..p
            })
            &&& post == pre.with_panel(pre.active, q)
            &&& effects.len() == 0
        },
    }
}

fn toggle_selection(app: &mut App) -> (r: Vec<Effect>)
    ensures
        old(app).is_distinct() ==> final(app).is_distinct(),
        selection_toggles(*old(app), *final(app), r@),
{
    let p = app.active_panel_mut();
    let path: Option<VfsPath> = match p.cursor_entry() {
        Some(entry) => Some(entry.path.clone()),
        None => None,
    };
    match path {
        Some(path) => {
            proof {
                if panel::no_path_twice(p.selected@) {
                    panel::law_toggle(p.selected@, path);
                }
            }
            p.toggle(path);
            p.move_cursor(1);
        },
        None => {},
    }
    nothing()
}

/// A directory under the cursor is entered, with the cursor at its top; an
/// archive is opened by a job; anything else is left alone.
pub open spec fn descends(pre: App, post: App, effects: Seq<Effect>) -> bool {
    let p = pre.panel(pre.active);
    match p.at_cursor() {
        None => unchanged(pre, post, effects),
        Some(entry) => if entry.kind is Dir {
            &&& post == pre.with_panel(pre.active, PanelState { cwd: entry.path, cursor: 0, ..p })
            &&& reloads(effects, pre.active, None)
        } else if archive::format_of(entry.path@) is Some {
            let location = Location::Archive {
                base: Box::new(p.location),
                archive_path: entry.path,
            };
            &&& starts_job(pre, post, effects, "Open archive"@, "Opening archive"@)
            &&& started_work(effects) == (JobWork::OpenArchive { location })
            &&& started_kind(post) == (JobKind::OpenArchive {
                target_left: pre.active == PaneSide::Left,
                location,
            })
        } else {
            unchanged(pre, post, effects)
        },
    }
}

fn descend(app: &mut App) -> (r: Vec<Effect>)
    ensures
        old(app).is_distinct() ==> final(app).is_distinct(),
        descends(*old(app), *final(app), r@),
{
    let p = app.active_panel();
    let (dir, path) = match p.cursor_entry() {
        Some(entry) => (entry.kind.is_dir(), entry.path.clone()),
        None => {
            return nothing();
        },
    };
    if dir {
        let side: PaneSide = app.active;
        let p = app.active_panel_mut();
        p.cwd = path;
        p.cursor = 0;
        return only(Effect::Reload { side, select: None });
    }
    match detect_format(&path) {
        Some(_) => {
            let location = Location::Archive {
                base: Box::new(p.location.clone()),
                archive_path: path,
            };
            let target_left: bool = app.active == PaneSide::Left;
            start_job(
                app,
                "Open archive",
                "Opening archive",
                JobKind::OpenArchive { target_left, location: location.clone() },
                JobWork::OpenArchive { location },
            )
        },
        None => nothing(),
    }
}

/// The directory that an archive's file is in, or the root if its path has no
/// parent.
pub open spec fn is_home_of(dir: VfsPath, archive_path: VfsPath) -> bool {
    if path::components(archive_path@).len() > 0 {
        path::is_parent(dir@, archive_path@)
    } else {
        dir@ == "/"@
    }
}

/// The panel goes up to the directory above, with the cursor back on what was
/// left: from an archive's root to the directory that the archive is in, and
/// otherwise to the parent directory if there is one.
pub open spec fn ascends(pre: App, post: App, effects: Seq<Effect>) -> bool {
    let p = pre.panel(pre.active);
    let q = post.panel(pre.active);
    if path::same_path(p.cwd@, "/"@) && p.location is Archive {
        &&& is_home_of(q.cwd, p.location->archive_path)
        &&& q == (PanelState { location: *p.location->base, cwd: q.cwd, cursor: 0, ..p })
        &&& post == pre.with_panel(pre.active, q)
        &&& reloads(effects, pre.active, path::last_name(p.location->archive_path@))
    } else if path::components(p.cwd@).len() > 0 {
        &&& path::is_parent(q.cwd@, p.cwd@)
        &&& q == (PanelState { cwd: q.cwd, cursor: 0, ..p })
        &&& post == pre.with_panel(pre.active, q)
        &&& reloads(effects, pre.active, path::last_name(p.cwd@))
    } else {
        unchanged(pre, post, effects)
    }
}

fn ascend(app: &mut App) -> (r: Vec<Effect>)
    ensures
        old(app).is_distinct() ==> final(app).is_distinct(),
        ascends(*old(app), *final(app), r@),
{
    let side: PaneSide = app.active;
    let p = app.active_panel_mut();
    if p.cwd == VfsPath::new("/") {
        let up: Option<(Location, VfsPath, Option<String>)> = match &p.location {
            Location::Archive { base, archive_path } => {
                let cwd: VfsPath = match archive_path.parent() {
                    Some(parent) => parent,
                    None => VfsPath::new("/"),
                };
                Some(((**base).clone(), cwd, archive_path.file_name()))
            },
            _ => None,
        };
        match up {
            Some((location, cwd, select)) => {
                p.location = location;
                p.cwd = cwd;
                p.cursor = 0;
                return only(Effect::Reload { side, select });
            },
            None => {},
        }
    }
    match p.cwd.parent() {
        Some(parent) => {
            let select: Option<String> = p.cwd.file_name();
            p.cwd = parent;
            p.cursor = 0;
            only(Effect::Reload { side, select })
        },
        None => nothing(),
    }
}

/// Whether the keyboard is now for a prompt, prefilled with `value` and with the
/// cursor at its end. What it is for is `prompt_purpose`.
pub open spec fn prompts(pre: App, post: App, title: Seq<char>, value: Seq<char>) -> bool {
    &&& post == (App { mode: post.mode, ..pre })
    &&& post.mode matches Mode::TextInput(prompt)
    &&& prompt.title@ == title
    &&& prompt.text.value@ == value
    &&& prompt.text.cursor == value.len()
}

/// What the prompt is for.
pub open spec fn prompt_purpose(post: App) -> TextInputPurpose {
    post.mode->TextInput_0.purpose
}

/// A copy asks where to: the other panel's directory is suggested.
pub open spec fn copy_asked(pre: App, post: App, effects: Seq<Effect>) -> bool {
    let p = pre.panel(pre.active);
    if p.chosen().len() == 0 {
        unchanged(pre, post, effects)
    } else {
        &&& prompts(pre, post, "Copy to:"@, pre.panel(pre.active.across()).cwd@)
        &&& prompt_purpose(post) matches TextInputPurpose::CopyToDir { items }
        &&& items@ == p.chosen()
        &&& effects.len() == 0
    }
}

fn start_copy(app: &mut App) -> (r: Vec<Effect>)
    ensures
        old(app).is_distinct() ==> final(app).is_distinct(),
        copy_asked(*old(app), *final(app), r@),
{
    let items: Vec<VfsPath> = selected_items(app.active_panel());
    if items.len() == 0 {
        return nothing();
    }
    let prompt = TextInputPrompt::new(
        "Copy to:",
        app.inactive_panel().cwd.as_str(),
        TextInputPurpose::CopyToDir { items },
    );
    app.mode = Mode::TextInput(prompt);
    nothing()
}

/// A move of selected items asks for a directory, with the other panel's as a
/// suggestion; a move of the entry under the cursor asks for its new path, with
/// the present one as a suggestion.
pub open spec fn move_asked(pre: App, post: App, effects: Seq<Effect>) -> bool {
    let p = pre.panel(pre.active);
    if p.selected@.len() > 0 {
        &&& prompts(pre, post, "Move to:"@, pre.panel(pre.active.across()).cwd@)
        &&& prompt_purpose(post) matches TextInputPurpose::MoveToDir { items }
        &&& items@ == p.selected@
        &&& effects.len() == 0
    } else {
        match p.at_cursor() {
            Some(entry) => {
                &&& prompts(pre, post, "Rename/move to:"@, path::joined(p.cwd@, entry.name@))
                &&& prompt_purpose(post) == (TextInputPurpose::RenameOrMove { item: entry.path })
                &&& effects.len() == 0
            },
            None => unchanged(pre, post, effects),
        }
    }
}

fn start_move(app: &mut App) -> (r: Vec<Effect>)
    ensures
        old(app).is_distinct() ==> final(app).is_distinct(),
        move_asked(*old(app), *final(app), r@),
{
    let p = app.active_panel();
    if p.selected.len() > 0 {
        let items: Vec<VfsPath> = clone_paths(&p.selected);
        let prompt = TextInputPrompt::new(
            "Move to:",
            app.inactive_panel().cwd.as_str(),
            TextInputPurpose::MoveToDir { items },
        );
        app.mode = Mode::TextInput(prompt);
        return nothing();
    }
    let prompt: Option<TextInputPrompt> = match p.cursor_entry() {
        Some(entry) => Some(
            TextInputPrompt::new(
                "Rename/move to:",
                p.cwd.join(entry.name.as_str()).as_str(),
                TextInputPurpose::RenameOrMove { item: entry.path.clone() },
            ),
        ),
        None => None,
    };
    match prompt {
        Some(prompt) => {
            app.mode = Mode::TextInput(prompt);
        },
        None => {},
    }
    nothing()
}

/// The file under the cursor is to be edited; directories are not.
pub open spec fn edit_asked(pre: App, post: App, effects: Seq<Effect>) -> bool {
    let p = pre.panel(pre.active);
    match p.at_cursor() {
        Some(entry) => if entry.kind is Dir {
            unchanged(pre, post, effects)
        } else {
            &&& post == (App {
                edit_request: Some(EditTarget { location: p.location, path: entry.path }),
                ..pre
            })
            &&& effects.len() == 0
        },
        None => unchanged(pre, post, effects),
    }
}

fn start_edit(app: &mut App) -> (r: Vec<Effect>)
    ensures
        old(app).is_distinct() ==> final(app).is_distinct(),
        edit_asked(*old(app), *final(app), r@),
{
    let p = app.active_panel();
    let target: Option<EditTarget> = match p.cursor_entry() {
        Some(entry) => if entry.kind.is_dir() {
            None
        } else {
            Some(EditTarget { location: p.location.clone(), path: entry.path.clone() })
        },
        None => None,
    };
    match target {
        Some(target) => {
            app.edit_request = Some(target);
        },
        None => {},
    }
    nothing()
}

/// A new directory asks for its name.
pub open spec fn mkdir_asked(pre: App, post: App, effects: Seq<Effect>) -> bool {
    &&& prompts(pre, post, "New directory name:"@, ""@)
    &&& prompt_purpose(post) is Mkdir
    &&& effects.len() == 0
}

fn start_mkdir(app: &mut App) -> (r: Vec<Effect>)
    ensures
        old(app).is_distinct() ==> final(app).is_distinct(),
        mkdir_asked(*old(app), *final(app), r@),
{
    app.mode = Mode::TextInput(
        TextInputPrompt::new("New directory name:", "", TextInputPurpose::Mkdir),
    );
    nothing()
}

/// The question before a deletion.
pub open spec fn delete_question(items: Seq<VfsPath>) -> Seq<char> {
    if items.len() == 1 {
        "Delete '"@ + items[0]@ + "'?"@
    } else {
        "Delete "@ + numbers::decimal(items.len()) + " items?"@
    }
}

/// A job deletes `items` from where the active panel is.
pub open spec fn delete_starts(
    pre: App,
    post: App,
    effects: Seq<Effect>,
    items: Seq<VfsPath>,
) -> bool {
    &&& starts_job(pre, post, effects, "Delete"@, "Deleting"@)
    &&& started_kind(post) is FileOp
    &&& started_work(effects) matches JobWork::Delete { location, items: given }
    &&& location == pre.panel(pre.active).location
    &&& given@ == items
}

fn spawn_delete(app: &mut App, items: Vec<VfsPath>) -> (r: Vec<Effect>)
    ensures
        old(app).is_distinct() ==> final(app).is_distinct(),
        delete_starts(*old(app), *final(app), r@, items@),
{
    let location: Location = app.active_panel().location.clone();
    start_job(app, "Delete", "Deleting", JobKind::FileOp, JobWork::Delete { location, items })
}

/// A deletion asks for confirmation, unless the config says not to.
pub open spec fn delete_asked(pre: App, post: App, effects: Seq<Effect>) -> bool {
    let items = pre.panel(pre.active).chosen();
    if items.len() == 0 {
        unchanged(pre, post, effects)
    } else if !pre.config.general.confirm_delete {
        delete_starts(pre, post, effects, items)
    } else {
        &&& post == (App { mode: post.mode, ..pre })
        &&& post.mode matches Mode::Confirm(dialog)
        &&& dialog.message@ == delete_question(items)
        &&& dialog.purpose matches ConfirmPurpose::Delete { items: given }
        &&& given@ == items
        &&& effects.len() == 0
    }
}

fn start_delete(app: &mut App) -> (r: Vec<Effect>)
    ensures
        old(app).is_distinct() ==> final(app).is_distinct(),
        delete_asked(*old(app), *final(app), r@),
{
    let items: Vec<VfsPath> = selected_items(app.active_panel());
    if items.len() == 0 {
        return nothing();
    }
    if !app.config.general.confirm_delete {
        return spawn_delete(app, items);
    }
    let message: String = if items.len() == 1 {
        joined_text(joined_text("Delete '", items[0].as_str()).as_str(), "'?")
    } else {
        let count: String = from_chars(&numbers::decimal_chars(items.len() as u64));
        joined_text(joined_text("Delete ", count.as_str()).as_str(), " items?")
    };
    app.mode = Mode::Confirm(ConfirmDialog { message, purpose: ConfirmPurpose::Delete { items } });
    nothing()
}

/// What the connect form shows of a saved profile.
pub open spec fn summary_of(p: ConnectionProfileConfig) -> SavedProfileSummary {
    SavedProfileSummary { id: p.id, host: p.host, port: p.port, username: p.username }
}

/// What the connect form shows of the saved profiles.
pub open spec fn summaries(profiles: Seq<ConnectionProfileConfig>) -> Seq<SavedProfileSummary> {
    Seq::new(profiles.len(), |i: int| summary_of(profiles[i]))
}

fn saved_summaries(profiles: &Vec<ConnectionProfileConfig>) -> (r: Vec<SavedProfileSummary>)
    ensures
        r@ == summaries(profiles@),
{
    let mut out: Vec<SavedProfileSummary> = Vec::new();
    let mut i: usize = 0;
    while i < profiles.len()
        invariant
            i <= profiles@.len(),
            out@ =~= summaries(profiles@).take(i as int),
        decreases profiles.len() - i,
    {
        let p = &profiles[i];
        out.push(
            SavedProfileSummary {
                id: p.id.clone(),
                host: p.host.clone(),
                port: p.port,
                username: p.username.clone(),
            },
        );
        i += 1;
    }
    proof {
        assert(summaries(profiles@).take(i as int) =~= summaries(profiles@));
    }
    out
}

/// Whether a form is empty but for the port and the user name.
pub open spec fn is_blank_form(form: ConnectForm, user: Seq<char>) -> bool {
    &&& form.is_valid()
    &&& form.focus == 0
    &&& form.error is None
    &&& form.fields@[0].label@ == "Host"@
    &&& form.fields@[1].label@ == "Port"@
    &&& form.fields@[2].label@ == "Username"@
    &&& form.fields@[3].label@ == "Password"@
    &&& form.fields@[0].text.value@ == ""@
    &&& form.fields@[1].text.value@ == "22"@
    &&& form.fields@[2].text.value@ == user
    &&& form.fields@[3].text.value@ == ""@
    &&& forall|i: int|
        0 <= i < 4 ==> (#[trigger] form.fields@[i]).text.cursor == form.fields@[i].text.value@.len()
            && form.fields@[i].secret == (i == 3)
}

/// A connect form opens, with the user's name and the saved profiles in it.
pub open spec fn connect_asked(pre: App, post: App, effects: Seq<Effect>, user: Seq<char>) -> bool {
    &&& post == (App { mode: post.mode, ..pre })
    &&& post.mode matches Mode::Connect(form)
    &&& is_blank_form(form, user)
    &&& form.saved@ == summaries(pre.config.profiles@)
    &&& effects.len() == 0
}

fn start_connect(app: &mut App, user: &str) -> (r: Vec<Effect>)
    ensures
        old(app).is_distinct() ==> final(app).is_distinct(),
        connect_asked(*old(app), *final(app), r@, user@),
{
    let saved: Vec<SavedProfileSummary> = saved_summaries(&app.config.profiles);
    app.mode = Mode::Connect(ConnectForm::new(user, saved));
    nothing()
}

/// Why one of two locations cannot be used, in words.
pub open spec fn pair_failure(app: App, src: Location, dst: Location) -> Option<Seq<char>> {
    match app.registry.failure(src) {
        Some(why) => Some(why),
        None => app.registry.failure(dst),
    }
}

fn check_pair(app: &App, src: &Location, dst: &Location) -> (r: Option<String>)
    ensures
        app::name_text(r) == pair_failure(*app, *src, *dst),
{
    match app.registry.resolve(src) {
        Err(e) => Some(e.message()),
        Ok(_) => match app.registry.resolve(dst) {
            Err(e) => Some(e.message()),
            Ok(_) => None,
        },
    }
}

/// Nothing happens but that the user is told why.
pub open spec fn refuses(pre: App, post: App, effects: Seq<Effect>, why: Seq<char>) -> bool {
    &&& post == (App { status: post.status, ..pre })
    &&& text::says(post.status, why)
    &&& effects.len() == 0
}

/// A job finds out what a sync of the active panel's directory to the other
/// panel's would do; nothing is copied or deleted yet.
pub open spec fn sync_asked(pre: App, post: App, effects: Seq<Effect>) -> bool {
    let src = pre.panel(pre.active);
    let dst = pre.panel(pre.active.across());
    match pair_failure(pre, src.location, dst.location) {
        Some(why) => refuses(pre, post, effects, "sync failed: "@ + why),
        None => {
            &&& starts_job(pre, post, effects, "Scan sync"@, "Scanning for sync"@)
            &&& started_work(effects) == (JobWork::ScanSync {
                src: src.location,
                dst: dst.location,
                src_root: src.cwd,
                dst_root: dst.cwd,
                delete_extraneous: pre.config.general.sync_delete_extraneous,
            })
            &&& started_kind(post) matches JobKind::ScanSync {
                src_location,
                dst_location,
                plan_cell,
            }
            &&& src_location == src.location
            &&& dst_location == dst.location
            &&& plan_cell@ is None
        },
    }
}

fn start_sync(app: &mut App) -> (r: Vec<Effect>)
    ensures
        old(app).is_distinct() ==> final(app).is_distinct(),
        sync_asked(*old(app), *final(app), r@),
{
    let src: Location = app.active_panel().location.clone();
    let src_root: VfsPath = app.active_panel().cwd.clone();
    let dst: Location = app.inactive_panel().location.clone();
    let dst_root: VfsPath = app.inactive_panel().cwd.clone();
    let delete_extraneous: bool = app.config.general.sync_delete_extraneous;
    match check_pair(app, &src, &dst) {
        Some(why) => {
            app.status = Some(joined_text("sync failed: ", why.as_str()));
            nothing()
        },
        None => {
            let kind = JobKind::ScanSync {
                src_location: src.clone(),
                dst_location: dst.clone(),
                plan_cell: SyncPlanCell::new(),
            };
            let work = JobWork::ScanSync { src, dst, src_root, dst_root, delete_extraneous };
            start_job(app, "Scan sync", "Scanning for sync", kind, work)
        },
    }
}

/// A job applies exactly the plan that was approved.
pub open spec fn sync_starts(
    pre: App,
    post: App,
    effects: Seq<Effect>,
    plan: SyncPlan,
    src: Location,
    dst: Location,
) -> bool {
    &&& starts_job(pre, post, effects, "Sync"@, "Syncing"@)
    &&& started_kind(post) is ExecuteSync
    &&& started_work(effects) == (JobWork::ExecuteSync {
        src,
        dst,
        plan,
        fast: pre.config.general.enable_quic_fast_path,
    })
}

fn spawn_execute_sync(app: &mut App, plan: SyncPlan, src: Location, dst: Location) -> (r: Vec<
    Effect,
>)
    ensures
        old(app).is_distinct() ==> final(app).is_distinct(),
        sync_starts(*old(app), *final(app), r@, plan, src, dst),
{
    let fast: bool = app.config.general.enable_quic_fast_path;
    start_job(
        app,
        "Sync",
        "Syncing",
        JobKind::ExecuteSync,
        JobWork::ExecuteSync { src, dst, plan, fast },
    )
}

/// What a key does while a question is open: yes does what was asked, no goes
/// back, and any other key leaves the question open.
pub open spec fn confirm_answered(
    pre: App,
    dialog: ConfirmDialog,
    key: KeyCode,
    post: App,
    effects: Seq<Effect>,
) -> bool {
    if key == KeyCode::Char('y') || key == KeyCode::Enter {
        match dialog.purpose {
            ConfirmPurpose::Delete { items } => delete_starts(pre, post, effects, items@),
            ConfirmPurpose::Sync { plan, src_location, dst_location } => sync_starts(
                pre,
                post,
                effects,
                plan,
                src_location,
                dst_location,
            ),
        }
    } else if key == KeyCode::Char('n') || key == KeyCode::Esc {
        unchanged(App { mode: Mode::Browsing, ..pre }, post, effects)
    } else {
        unchanged(App { mode: Mode::Confirm(dialog), ..pre }, post, effects)
    }
}

fn handle_confirm_key(app: &mut App, dialog: ConfirmDialog, key: KeyCode) -> (r: Vec<Effect>)
    ensures
        old(app).is_distinct() ==> final(app).is_distinct(),
        confirm_answered(*old(app), dialog, key, *final(app), r@),
{
    match key {
        KeyCode::Char('y') | KeyCode::Enter => match dialog.purpose {
            ConfirmPurpose::Delete { items } => spawn_delete(app, items),
            ConfirmPurpose::Sync { plan, src_location, dst_location } => spawn_execute_sync(
                app,
                plan,
                src_location,
                dst_location,
            ),
        },
        KeyCode::Char('n') | KeyCode::Esc => {
            app.mode = Mode::Browsing;
            nothing()
        },
        _ => {
            app.mode = Mode::Confirm(dialog);
            nothing()
        },
    }
}

/// What a key does to a line of text.
pub open spec fn text_edited(before: EditableText, key: KeyCode, after: EditableText) -> bool {
    match key {
        KeyCode::Backspace => {
            &&& after.value@ == (if 0 < before.cursor <= before.value@.len() {
                before.value@.remove(before.cursor - 1)
            } else {
                before.value@
            })
            &&& after.cursor == (if before.cursor == 0 {
                0
            } else {
                before.cursor - 1
            })
        },
        KeyCode::Left => after == (EditableText {
            cursor: if before.cursor == 0 {
                0
            } else {
                (before.cursor - 1) as usize
            },
            ..before
        }),
        KeyCode::Right => after == (EditableText {
            cursor: if before.cursor < before.value@.len() {
                (before.cursor + 1) as usize
            } else {
                before.cursor
            },
            ..before
        }),
        KeyCode::Home => after == (EditableText { cursor: 0, ..before }),
        KeyCode::End => after.value == before.value && after.cursor == before.value@.len(),
        KeyCode::Char(c) => {
            &&& after.value@ == (if before.cursor < before.value@.len() {
                before.value@.insert(before.cursor as int, c)
            } else {
                before.value@.push(c)
            })
            &&& after.cursor == (if before.cursor == usize::MAX {
                usize::MAX as int
            } else {
                before.cursor + 1
            })
        },
        _ => after == before,
    }
}

fn edit_text(line: &mut EditableText, key: KeyCode)
    ensures
        text_edited(*old(line), key, *final(line)),
{
    match key {
        KeyCode::Backspace => line.backspace(),
        KeyCode::Left => line.move_left(),
        KeyCode::Right => line.move_right(),
        KeyCode::Home => line.move_home(),
        KeyCode::End => line.move_end(),
        KeyCode::Char(c) => line.insert_char(c),
        _ => {},
    }
}

/// A job copies `items` from where the active panel is into a directory where
/// the other panel is.
pub open spec fn copy_starts(
    pre: App,
    post: App,
    effects: Seq<Effect>,
    items: Seq<VfsPath>,
    dest_dir: Seq<char>,
) -> bool {
    let src_location = pre.panel(pre.active).location;
    let dst_location = pre.panel(pre.active.across()).location;
    match pair_failure(pre, src_location, dst_location) {
        Some(why) => refuses(pre, post, effects, "copy failed: "@ + why),
        None => {
            &&& starts_job(pre, post, effects, "Copy"@, "Copying"@)
            &&& started_kind(post) is FileOp
            &&& started_work(effects) matches JobWork::Copy {
                src,
                dst,
                items: given,
                dest_dir: dir,
                fast,
            }
            &&& src == src_location
            &&& dst == dst_location
            &&& given@ == items
            &&& dir@ == dest_dir
            &&& fast == pre.config.general.enable_quic_fast_path
        },
    }
}

fn spawn_copy(app: &mut App, items: Vec<VfsPath>, dest_dir: VfsPath) -> (r: Vec<Effect>)
    ensures
        old(app).is_distinct() ==> final(app).is_distinct(),
        copy_starts(*old(app), *final(app), r@, items@, dest_dir@),
{
    let src: Location = app.active_panel().location.clone();
    let dst: Location = app.inactive_panel().location.clone();
    let fast: bool = app.config.general.enable_quic_fast_path;
    match check_pair(app, &src, &dst) {
        Some(why) => {
            app.status = Some(joined_text("copy failed: ", why.as_str()));
            nothing()
        },
        None => start_job(
            app,
            "Copy",
            "Copying",
            JobKind::FileOp,
            JobWork::Copy { src, dst, items, dest_dir, fast },
        ),
    }
}

/// A job renames within one backend.
pub open spec fn rename_starts(
    pre: App,
    post: App,
    effects: Seq<Effect>,
    location: Location,
    pairs: Seq<(Seq<char>, Seq<char>)>,
) -> bool {
    &&& starts_job(pre, post, effects, "Move"@, "Moving"@)
    &&& started_kind(post) is FileOp
    &&& started_work(effects) matches JobWork::Rename { location: place, pairs: given }
    &&& place == location
    &&& pair_texts(given@) == pairs
}

/// Pairs of paths as texts.
pub open spec fn pair_texts(pairs: Seq<(VfsPath, VfsPath)>) -> Seq<(Seq<char>, Seq<char>)> {
    Seq::new(pairs.len(), |i: int| (pairs[i].0@, pairs[i].1@))
}

/// Where each item goes when all are moved into a directory: it keeps its name.
/// An item without a name is left out.
pub open spec fn moves_into(items: Seq<VfsPath>, dest_dir: Seq<char>) -> Seq<
    (Seq<char>, Seq<char>),
>
    decreases items.len(),
{
    if items.len() == 0 {
        Seq::empty()
    } else {
        let before = moves_into(items.drop_last(), dest_dir);
        match path::last_name(items.last()@) {
            Some(name) => before.push((items.last()@, path::joined(dest_dir, name))),
            None => before,
        }
    }
}

fn move_pairs(items: &Vec<VfsPath>, dest_dir: &VfsPath) -> (r: Vec<(VfsPath, VfsPath)>)
    ensures
        pair_texts(r@) == moves_into(items@, dest_dir@),
{
    let mut out: Vec<(VfsPath, VfsPath)> = Vec::new();
    let mut i: usize = 0;
    proof {
        assert(items@.take(0) =~= Seq::<VfsPath>::empty());
        assert(pair_texts(out@) =~= moves_into(items@.take(0), dest_dir@));
    }
    while i < items.len()
        invariant
            i <= items@.len(),
            pair_texts(out@) == moves_into(items@.take(i as int), dest_dir@),
        decreases items.len() - i,
    {
        let ghost before = pair_texts(out@);
        proof {
            let t = items@.take(i + 1);
            assert(t.drop_last() =~= items@.take(i as int));
            assert(t.last() == items@[i as int]);
        }
        match items[i].file_name() {
            Some(name) => {
                let to: VfsPath = dest_dir.join(name.as_str());
                let ghost pair = (items@[i as int]@, to@);
                out.push((items[i].clone(), to));
                proof {
                    assert(pair_texts(out@) =~= before.push(pair));
                }
            },
            None => {},
        }
        i += 1;
    }
    proof {
        assert(items@.take(i as int) =~= items@);
    }
    out
}

fn spawn_move_same_backend(app: &mut App, location: Location, pairs: Vec<(VfsPath, VfsPath)>) -> (r:
    Vec<Effect>)
    ensures
        old(app).is_distinct() ==> final(app).is_distinct(),
        rename_starts(*old(app), *final(app), r@, location, pair_texts(pairs@)),
{
    start_job(app, "Move", "Moving", JobKind::FileOp, JobWork::Rename { location, pairs })
}

/// A job moves `items` into a directory where the other panel is: by renaming
/// if both panels are on the same backend, and else by copying and deleting.
pub open spec fn move_starts(
    pre: App,
    post: App,
    effects: Seq<Effect>,
    items: Seq<VfsPath>,
    dest_dir: Seq<char>,
) -> bool {
    let src_location = pre.panel(pre.active).location;
    let dst_location = pre.panel(pre.active.across()).location;
    if vfs::same_location(src_location, dst_location) {
        rename_starts(pre, post, effects, src_location, moves_into(items, dest_dir))
    } else {
        match pair_failure(pre, src_location, dst_location) {
            Some(why) => refuses(pre, post, effects, "move failed: "@ + why),
            None => {
                &&& starts_job(pre, post, effects, "Move"@, "Moving"@)
                &&& started_kind(post) is FileOp
                &&& started_work(effects) matches JobWork::MoveAcross {
                    src,
                    dst,
                    items: given,
                    dest_dir: dir,
                    fast,
                }
                &&& src == src_location
                &&& dst == dst_location
                &&& given@ == items
                &&& dir@ == dest_dir
                &&& fast == pre.config.general.enable_quic_fast_path
            },
        }
    }
}

fn spawn_move_to_dir(app: &mut App, items: Vec<VfsPath>, dest_dir: VfsPath) -> (r: Vec<Effect>)
    ensures
        old(app).is_distinct() ==> final(app).is_distinct(),
        move_starts(*old(app), *final(app), r@, items@, dest_dir@),
{
    let src: Location = app.active_panel().location.clone();
    let dst: Location = app.inactive_panel().location.clone();
    if src == dst {
        let pairs: Vec<(VfsPath, VfsPath)> = move_pairs(&items, &dest_dir);
        return spawn_move_same_backend(app, src, pairs);
    }
    let fast: bool = app.config.general.enable_quic_fast_path;
    match check_pair(app, &src, &dst) {
        Some(why) => {
            app.status = Some(joined_text("move failed: ", why.as_str()));
            nothing()
        },
        None => start_job(
            app,
            "Move",
            "Moving",
            JobKind::FileOp,
            JobWork::MoveAcross { src, dst, items, dest_dir, fast },
        ),
    }
}

/// A directory is made where the active panel is, and the panel listed again.
pub open spec fn mkdir_starts(pre: App, post: App, effects: Seq<Effect>, name: Seq<char>) -> bool {
    let p = pre.panel(pre.active);
    &&& post == pre
    &&& effects.len() == 2
    &&& effects[0] matches Effect::MakeDir { location, path: dir }
    &&& location == p.location
    &&& dir@ == path::joined(p.cwd@, name)
    &&& is_reload(effects[1], pre.active, None)
}

/// What an entered text does, without the white space around it; an empty one
/// does nothing.
pub open spec fn text_submitted(
    pre: App,
    prompt: TextInputPrompt,
    post: App,
    effects: Seq<Effect>,
) -> bool {
    let value = text::trimmed(prompt.text.value@);
    let back = App { mode: Mode::Browsing, ..pre };
    if value.len() == 0 {
        unchanged(back, post, effects)
    } else {
        match prompt.purpose {
            TextInputPurpose::Mkdir => mkdir_starts(back, post, effects, value),
            TextInputPurpose::CopyToDir { items } => copy_starts(
                back,
                post,
                effects,
                items@,
                value,
            ),
            TextInputPurpose::MoveToDir { items } => move_starts(
                back,
                post,
                effects,
                items@,
                value,
            ),
            TextInputPurpose::RenameOrMove { item } => rename_starts(
                back,
                post,
                effects,
                pre.panel(pre.active).location,
                seq![(item@, value)],
            ),
        }
    }
}

fn submit_text_input(app: &mut App, prompt: TextInputPrompt) -> (r: Vec<Effect>)
    ensures
        old(app).is_distinct() ==> final(app).is_distinct(),
        text_submitted(*old(app), prompt, *final(app), r@),
{
    let value: String = trim(prompt.text.value.as_str());
    app.mode = Mode::Browsing;
    if to_chars(value.as_str()).len() == 0 {
        return nothing();
    }
    match prompt.purpose {
        TextInputPurpose::Mkdir => {
            let p = app.active_panel();
            let path: VfsPath = p.cwd.join(value.as_str());
            let location: Location = p.location.clone();
            let mut out: Vec<Effect> = Vec::new();
            out.push(Effect::MakeDir { location, path });
            out.push(Effect::Reload { side: app.active, select: None });
            out
        },
        TextInputPurpose::CopyToDir { items } => spawn_copy(
            app,
            items,
            VfsPath::from_text(value),
        ),
        TextInputPurpose::MoveToDir { items } => spawn_move_to_dir(
            app,
            items,
            VfsPath::from_text(value),
        ),
        TextInputPurpose::RenameOrMove { item } => {
            let location: Location = app.active_panel().location.clone();
            let ghost expected = seq![(item@, value@)];
            let mut pairs: Vec<(VfsPath, VfsPath)> = Vec::new();
            pairs.push((item, VfsPath::from_text(value)));
            proof {
                assert(pair_texts(pairs@) =~= expected);
            }
            spawn_move_same_backend(app, location, pairs)
        },
    }
}

/// What a key does while a prompt is open.
pub open spec fn text_key(
    pre: App,
    prompt: TextInputPrompt,
    key: KeyCode,
    post: App,
    effects: Seq<Effect>,
) -> bool {
    if key == KeyCode::Enter {
        text_submitted(pre, prompt, post, effects)
    } else if key == KeyCode::Esc {
        unchanged(App { mode: Mode::Browsing, ..pre }, post, effects)
    } else {
        &&& post == (App { mode: post.mode, ..pre })
        &&& post.mode matches Mode::TextInput(after)
        &&& after == (TextInputPrompt { text: after.text, ..prompt })
        &&& text_edited(prompt.text, key, after.text)
        &&& effects.len() == 0
    }
}

fn handle_text_input_key(app: &mut App, prompt: TextInputPrompt, key: KeyCode) -> (r: Vec<Effect>)
    ensures
        old(app).is_distinct() ==> final(app).is_distinct(),
        text_key(*old(app), prompt, key, *final(app), r@),
{
    match key {
        KeyCode::Enter => submit_text_input(app, prompt),
        KeyCode::Esc => {
            app.mode = Mode::Browsing;
            nothing()
        },
        _ => {
            let mut prompt = prompt;
            edit_text(&mut prompt.text, key);
            app.mode = Mode::TextInput(prompt);
            nothing()
        },
    }
}

/// Whether `after` is `form` with the field in focus edited by a key.
pub open spec fn form_edited(form: ConnectForm, key: KeyCode, after: ConnectForm) -> bool {
    let at = form.focus as int;
    &&& after == (ConnectForm { fields: after.fields, ..form })
    &&& after.fields@.len() == form.fields@.len()
    &&& forall|i: int|
        0 <= i < form.fields@.len() && i != at ==> #[trigger] after.fields@[i] == form.fields@[i]
    &&& after.fields@[at].label == form.fields@[at].label
    &&& after.fields@[at].secret == form.fields@[at].secret
    &&& text_edited(form.fields@[at].text, key, after.fields@[at].text)
}

/// Whether `after` is `form` filled from a saved profile. The password is left
/// as it is.
pub open spec fn form_refilled(
    form: ConnectForm,
    profile: SavedProfileSummary,
    after: ConnectForm,
) -> bool {
    &&& after == (ConnectForm { fields: after.fields, ..form })
    &&& after.fields@.len() == 4
    &&& mode::is_refilled(after.fields@[0], form.fields@[0], profile.host@)
    &&& mode::is_refilled(
        after.fields@[1],
        form.fields@[1],
        numbers::decimal(profile.port as nat),
    )
    &&& mode::is_refilled(after.fields@[2], form.fields@[2], profile.username@)
    &&& after.fields@[3] == form.fields@[3]
}

/// Whether the form stays open and says why it cannot be submitted.
pub open spec fn form_rejected(
    pre: App,
    form: ConnectForm,
    post: App,
    effects: Seq<Effect>,
    why: Seq<char>,
) -> bool {
    &&& post == (App { mode: post.mode, ..pre })
    &&& post.mode matches Mode::Connect(after)
    &&& after == (ConnectForm { error: after.error, ..form })
    &&& text::says(after.error, why)
    &&& effects.len() == 0
}

/// The name under which a connection is known.
pub open spec fn profile_name(username: Seq<char>, host: Seq<char>, port: nat) -> Seq<char> {
    username + "@"@ + host + ":"@ + numbers::decimal(port)
}

/// Whether an optional password is the given text; an empty text is none.
pub open spec fn is_password(password: Option<String>, given: Seq<char>) -> bool {
    if given.len() == 0 {
        password is None
    } else {
        text::says(password, given)
    }
}

/// What submitting the form does: host and user name count without the white
/// space around them, the host must not be empty and the port must be a number
/// up to 65535; then a job connects. The password goes to that job only.
pub open spec fn connect_submitted(
    pre: App,
    form: ConnectForm,
    post: App,
    effects: Seq<Effect>,
) -> bool {
    let host = text::trimmed(form.fields@[0].text.value@);
    let username = text::trimmed(form.fields@[2].text.value@);
    if host.len() == 0 {
        form_rejected(pre, form, post, effects, "Host is required"@)
    } else {
        match numbers::parsed(text::trimmed(form.fields@[1].text.value@), 10, 65535) {
            None => form_rejected(pre, form, post, effects, "Port must be a number"@),
            Some(port) => {
                &&& starts_job(pre, post, effects, "Connect"@, "Connecting"@)
                &&& started_kind(post) matches JobKind::Connect { target_left, profile: saved }
                &&& target_left == (pre.active == PaneSide::Left)
                &&& saved.id@ == profile_name(username, host, port)
                &&& saved.host@ == host
                &&& saved.port == port
                &&& saved.username@ == username
                &&& started_work(effects) matches JobWork::Connect { profile }
                &&& profile.id == saved.id
                &&& profile.host == saved.host
                &&& profile.port == port
                &&& profile.username == saved.username
                &&& profile.auth matches AuthMethod::Auto { password }
                &&& is_password(password, form.fields@[3].text.value@)
            },
        }
    }
}

fn reject_form(app: &mut App, form: ConnectForm, why: &str) -> (r: Vec<Effect>)
    ensures
        old(app).is_distinct() ==> final(app).is_distinct(),
        form_rejected(*old(app), form, *final(app), r@, why@),
{
    let mut form = form;
    form.error = Some(owned(why));
    app.mode = Mode::Connect(form);
    nothing()
}

fn submit_connect(app: &mut App, form: ConnectForm) -> (r: Vec<Effect>)
    requires
        form.is_valid(),
    ensures
        old(app).is_distinct() ==> final(app).is_distinct(),
        connect_submitted(*old(app), form, *final(app), r@),
{
    let host: String = trim(form.host());
    if to_chars(host.as_str()).len() == 0 {
        return reject_form(app, form, "Host is required");
    }
    let digits: Vec<char> = trim_chars(&to_chars(form.port()));
    let port: u16 = match numbers::parse_number(&digits, 10, 65535) {
        Some(n) => n as u16,
        None => {
            return reject_form(app, form, "Port must be a number");
        },
    };
    let username: String = trim(form.username());
    let password: String = owned(form.password());
    let password: Option<String> = if to_chars(password.as_str()).len() == 0 {
        None
    } else {
        Some(password)
    };
    let id: String = joined_text(username.as_str(), "@");
    let id: String = joined_text(id.as_str(), host.as_str());
    let id: String = joined_text(id.as_str(), ":");
    let id: String = joined_text(
        id.as_str(),
        from_chars(&numbers::decimal_chars(port as u64)).as_str(),
    );
    let saved = SavedProfileSummary {
        id: id.clone(),
        host: host.clone(),
        port,
        username: username.clone(),
    };
    let profile = ConnectionProfile {
        id,
        host,
        port,
        username,
        auth: AuthMethod::Auto { password },
    };
    let target_left: bool = app.active == PaneSide::Left;
    start_job(
        app,
        "Connect",
        "Connecting",
        JobKind::Connect { target_left, profile: saved },
        JobWork::Connect { profile },
    )
}

/// Whether a key picks a saved profile: the function keys F1 to F9 do, as far as
/// there are profiles.
pub open spec fn picks_profile(form: ConnectForm, key: KeyCode) -> bool {
    key matches KeyCode::F(n) && 1 <= n <= 9 && n <= form.saved@.len()
}

/// What a key does while the connect form is open.
pub open spec fn connect_key(
    pre: App,
    form: ConnectForm,
    key: KeyCode,
    post: App,
    effects: Seq<Effect>,
) -> bool {
    if picks_profile(form, key) {
        &&& post == (App { mode: post.mode, ..pre })
        &&& post.mode matches Mode::Connect(after)
        &&& form_refilled(form, form.saved@[key->F_0 - 1], after)
        &&& effects.len() == 0
    } else {
        match key {
            KeyCode::Esc => unchanged(App { mode: Mode::Browsing, ..pre }, post, effects),
            KeyCode::Enter => connect_submitted(pre, form, post, effects),
            KeyCode::Tab | KeyCode::Down => unchanged(
                App {
                    mode: Mode::Connect(
                        ConnectForm { focus: ((form.focus + 1) % 4) as usize, ..form },
                    ),
                    ..pre
                },
                post,
                effects,
            ),
            KeyCode::Up => unchanged(
                App {
                    mode: Mode::Connect(
                        ConnectForm { focus: ((form.focus + 3) % 4) as usize, ..form },
                    ),
                    ..pre
                },
                post,
                effects,
            ),
            _ => {
                &&& post == (App { mode: post.mode, ..pre })
                &&& post.mode matches Mode::Connect(after)
                &&& form_edited(form, key, after)
                &&& effects.len() == 0
            },
        }
    }
}

fn handle_connect_key(app: &mut App, form: ConnectForm, key: KeyCode) -> (r: Vec<Effect>)
    requires
        form.is_valid(),
    ensures
        old(app).is_distinct() ==> final(app).is_distinct(),
        connect_key(*old(app), form, key, *final(app), r@),
        final(app).is_valid(),
{
    let mut form = form;
    match key {
        KeyCode::F(n) => {
            if 1 <= n && n <= 9 && (n as usize) <= form.saved.len() {
                let profile: SavedProfileSummary = form.saved[n as usize - 1].clone();
                form.apply_saved(&profile);
                app.mode = Mode::Connect(form);
                return nothing();
            }
        },
        _ => {},
    }
    match key {
        KeyCode::Esc => {
            app.mode = Mode::Browsing;
        },
        KeyCode::Enter => {
            return submit_connect(app, form);
        },
        KeyCode::Tab | KeyCode::Down => {
            form.next_field();
            app.mode = Mode::Connect(form);
        },
        KeyCode::Up => {
            form.prev_field();
            app.mode = Mode::Connect(form);
        },
        _ => {
            edit_text(&mut form.focused_mut().text, key);
            app.mode = Mode::Connect(form);
        },
    }
    nothing()
}

/// What a key does while a job is on screen: escape asks the job to stop, and
/// the screen stays until it has.
pub open spec fn progress_key(
    pre: App,
    state: ProgressState,
    key: KeyCode,
    post: App,
    effects: Seq<Effect>,
) -> bool {
    &&& post == (App { mode: Mode::Progress(state), ..pre })
    &&& if key == KeyCode::Esc {
        effects.len() == 1 && effects[0] == (Effect::Cancel { id: state.job_id })
    } else {
        effects.len() == 0
    }
}

fn handle_progress_key(app: &mut App, state: ProgressState, key: KeyCode) -> (r: Vec<Effect>)
    ensures
        old(app).is_distinct() ==> final(app).is_distinct(),
        progress_key(*old(app), state, key, *final(app), r@),
{
    let id: JobId = state.job_id;
    app.mode = Mode::Progress(state);
    match key {
        KeyCode::Esc => only(Effect::Cancel { id }),
        _ => nothing(),
    }
}

/// What the keys do that cannot be bound to anything else, so that a mistake in
/// the config cannot lock anyone out.
pub open spec fn fixed_key(pre: App, key: KeyCode, post: App, effects: Seq<Effect>) -> bool {
    let p = pre.panel(pre.active);
    match key {
        KeyCode::Char('q') | KeyCode::Esc => unchanged(
            App { should_quit: true, ..pre },
            post,
            effects,
        ),
        KeyCode::Tab => unchanged(App { active: pre.active.across(), ..pre }, post, effects),
        KeyCode::Up | KeyCode::Char('k') => cursor_moves(pre, post, effects, -1),
        KeyCode::Down | KeyCode::Char('j') => cursor_moves(pre, post, effects, 1),
        KeyCode::PageUp => cursor_moves(pre, post, effects, -p.page()),
        KeyCode::PageDown => cursor_moves(pre, post, effects, p.page()),
        KeyCode::Char(' ') => selection_toggles(pre, post, effects),
        KeyCode::Enter => descends(pre, post, effects),
        KeyCode::Backspace | KeyCode::Left => ascends(pre, post, effects),
        KeyCode::F(1) => if pre.keymap.help is None {
            unchanged(App { mode: Mode::Help, ..pre }, post, effects)
        } else {
            unchanged(pre, post, effects)
        },
        _ => unchanged(pre, post, effects),
    }
}

/// What a key does while browsing: what it is bound to, or else what it does
/// anyway.
pub open spec fn browsing_key(
    pre: App,
    key: KeyCode,
    user: Seq<char>,
    post: App,
    effects: Seq<Effect>,
) -> bool {
    match pre.keymap.lookup(key) {
        Some(Action::Quit) => unchanged(App { should_quit: true, ..pre }, post, effects),
        Some(Action::Edit) => edit_asked(pre, post, effects),
        Some(Action::Sync) => sync_asked(pre, post, effects),
        Some(Action::Copy) => copy_asked(pre, post, effects),
        Some(Action::Move) => move_asked(pre, post, effects),
        Some(Action::Mkdir) => mkdir_asked(pre, post, effects),
        Some(Action::Delete) => delete_asked(pre, post, effects),
        Some(Action::Connect) => connect_asked(pre, post, effects, user),
        Some(Action::Help) => unchanged(App { mode: Mode::Help, ..pre }, post, effects),
        None => fixed_key(pre, key, post, effects),
    }
}

fn handle_fixed_key(app: &mut App, key: KeyCode) -> (r: Vec<Effect>)
    ensures
        old(app).is_distinct() ==> final(app).is_distinct(),
        fixed_key(*old(app), key, *final(app), r@),
{
    match key {
        KeyCode::Char('q') | KeyCode::Esc => {
            app.should_quit = true;
        },
        KeyCode::Tab => {
            app.active = app.active.other();
        },
        KeyCode::Up | KeyCode::Char('k') => {
            app.active_panel_mut().move_cursor(-1);
        },
        KeyCode::Down | KeyCode::Char('j') => {
            app.active_panel_mut().move_cursor(1);
        },
        KeyCode::PageUp => {
            let page: isize = page_size(app.active_panel());
            app.active_panel_mut().move_cursor(-page);
        },
        KeyCode::PageDown => {
            let page: isize = page_size(app.active_panel());
            app.active_panel_mut().move_cursor(page);
        },
        KeyCode::Char(' ') => {
            return toggle_selection(app);
        },
        KeyCode::Enter => {
            return descend(app);
        },
        KeyCode::Backspace | KeyCode::Left => {
            return ascend(app);
        },
        KeyCode::F(1) => {
            if app.keymap.help.is_none() {
                app.mode = Mode::Help;
            }
        },
        _ => {},
    }
    nothing()
}

fn handle_browsing_key(app: &mut App, key: KeyCode, user: &str) -> (r: Vec<Effect>)
    ensures
        old(app).is_distinct() ==> final(app).is_distinct(),
        browsing_key(*old(app), key, user@, *final(app), r@),
{
    match app.keymap.find(key) {
        Some(Action::Quit) => {
            app.should_quit = true;
            nothing()
        },
        Some(Action::Edit) => start_edit(app),
        Some(Action::Sync) => start_sync(app),
        Some(Action::Copy) => start_copy(app),
        Some(Action::Move) => start_move(app),
        Some(Action::Mkdir) => start_mkdir(app),
        Some(Action::Delete) => start_delete(app),
        Some(Action::Connect) => start_connect(app, user),
        Some(Action::Help) => {
            app.mode = Mode::Help;
            nothing()
        },
        None => handle_fixed_key(app, key),
    }
}

/// What a key does.
pub open spec fn key_handled(
    pre: App,
    key: KeyCode,
    user: Seq<char>,
    post: App,
    effects: Seq<Effect>,
) -> bool {
    let back = App { mode: Mode::Browsing, ..pre };
    match pre.mode {
        Mode::Browsing => browsing_key(pre, key, user, post, effects),
        Mode::Confirm(dialog) => confirm_answered(back, dialog, key, post, effects),
        Mode::TextInput(prompt) => text_key(back, prompt, key, post, effects),
        Mode::Connect(form) => connect_key(back, form, key, post, effects),
        Mode::Progress(state) => progress_key(back, state, key, post, effects),
        Mode::Help => unchanged(back, post, effects),
    }
}

/// Handles a key. `user` is the name that a new connect form suggests.
pub fn handle_key(app: &mut App, key: KeyCode, user: &str) -> (r: Vec<Effect>)
    requires
        old(app).is_valid(),
    ensures
        key_handled(*old(app), key, user@, *final(app), r@),
        final(app).is_valid(),
        old(app).cursors_in_range() ==> final(app).cursors_in_range(),
        old(app).is_distinct() ==> final(app).is_distinct(),
{
    let mut mode = Mode::Browsing;
    std::mem::swap(&mut app.mode, &mut mode);
    match mode {
        Mode::Browsing => handle_browsing_key(app, key, user),
        Mode::Confirm(dialog) => handle_confirm_key(app, dialog, key),
        Mode::TextInput(prompt) => handle_text_input_key(app, prompt, key),
        Mode::Connect(form) => handle_connect_key(app, form, key),
        Mode::Progress(state) => handle_progress_key(app, state, key),
        Mode::Help => nothing(),
    }
}

/// What the user is told about how the job on screen ended.
pub open spec fn outcome_told(status: Option<String>, outcome: JobOutcome) -> bool {
    match outcome {
        JobOutcome::Completed => status is None,
        JobOutcome::Cancelled => text::says(status, "Cancelled"@),
        JobOutcome::Failed(why) => text::says(status, "Job failed: "@ + why@),
    }
}

/// The question before a sync.
pub open spec fn sync_question(plan: SyncPlan) -> Seq<char> {
    numbers::decimal(plan.files_to_copy as nat) + " to copy ("@ + view::bytes_text(
        plan.bytes_total,
    ) + ")"@ + (if plan.items_to_delete > 0 {
        ", "@ + numbers::decimal(plan.items_to_delete as nat) + " to delete"@
    } else {
        Seq::empty()
    }) + " — proceed?"@
}

fn sync_message(plan: &SyncPlan) -> (r: String)
    ensures
        r@ == sync_question(*plan),
{
    let files: String = from_chars(&numbers::decimal_chars(plan.files_to_copy as u64));
    let head: String = joined_text(files.as_str(), " to copy (");
    let head: String = joined_text(head.as_str(), format_bytes(plan.bytes_total).as_str());
    let head: String = joined_text(head.as_str(), ")");
    let ghost start = head@;
    let head: String = if plan.items_to_delete > 0 {
        let items: String = from_chars(&numbers::decimal_chars(plan.items_to_delete as u64));
        let more: String = joined_text(joined_text(", ", items.as_str()).as_str(), " to delete");
        joined_text(head.as_str(), more.as_str())
    } else {
        proof {
            assert(start + Seq::<char>::empty() =~= start);
        }
        head
    };
    joined_text(head.as_str(), " — proceed?")
}

/// Whether a panel has been taken to the root of another location, with the
/// cursor at its top.
pub open spec fn is_moved_to(
    before: PanelState,
    after: PanelState,
    location: Location,
    fast: bool,
) -> bool {
    &&& after.cwd@ == "/"@
    &&& after == (PanelState {
        location,
        cwd: after.cwd,
        cursor: 0,
        quic_available: fast,
        ..before
    })
}

/// The panel that a job was for.
pub open spec fn target_side(target_left: bool) -> PaneSide {
    if target_left {
        PaneSide::Left
    } else {
        PaneSide::Right
    }
}

/// A panel goes to the root of a location that is now at hand.
fn show_location(app: &mut App, side: PaneSide, location: Location)
    ensures
        old(app).is_distinct() ==> final(app).is_distinct(),
        is_moved_to(
            old(app).panel(side),
            final(app).panel(side),
            location,
            registry::has_fast_channel(old(app).registry, location),
        ),
        *final(app) == old(app).with_panel(side, final(app).panel(side)),
{
    let fast: bool = quic_available_for(&app.registry, &location);
    let p = app.panel_mut(side);
    p.location = location;
    p.cwd = VfsPath::new("/");
    p.cursor = 0;
    p.quic_available = fast;
}

/// The profile that is saved after a connection was made.
pub open spec fn saved_profile(p: SavedProfileSummary) -> ConnectionProfileConfig {
    ConnectionProfileConfig { id: p.id, host: p.host, port: p.port, username: p.username }
}

/// Everything but the mode, the status, the panels, the jobs and the profiles
/// stays as it is.
pub open spec fn job_frame(pre: App, post: App) -> bool {
    post == (App {
        left: post.left,
        right: post.right,
        mode: post.mode,
        jobs: post.jobs,
        background_jobs: post.background_jobs,
        status: post.status,
        config: config::Config { profiles: post.config.profiles, ..pre.config },
        ..pre
    })
}

/// What the end of a connect job does to the app, once the job has been cleared
/// away: after a success the profile is saved, the panel goes to the connection,
/// and if the config allows it a background job gets a fast channel ready.
pub open spec fn connect_ended(
    pre: App,
    side: PaneSide,
    profile: SavedProfileSummary,
    completed: bool,
    post: App,
    effects: Seq<Effect>,
) -> bool {
    if completed {
        let location = Location::Remote { profile_id: profile.id };
        let fast = registry::has_fast_channel(pre.registry, location);
        &&& post.config.profiles@ == config::upserted(
            pre.config.profiles@,
            saved_profile(profile),
        )
        &&& is_moved_to(pre.panel(side), post.panel(side), location, fast)
        &&& post.panel(side.across()) == pre.panel(side.across())
        &&& effects.len() > 0
        &&& is_reload(effects[0], side, None)
        &&& if pre.config.general.enable_quic_fast_path {
            let id = pre.jobs.next_id;
            &&& jobs::is_spawned(pre.jobs, post.jobs, "QUIC fast path"@)
            &&& post.background_jobs@ == app::without_background(pre.background_jobs@, id).push(
                (id, app::BackgroundJob::WarmQuicFastPath { profile_id: profile.id }),
            )
            &&& effects.len() == 2
            &&& effects[1] == (Effect::Spawn {
                id,
                work: JobWork::WarmFastPath { profile_id: profile.id },
            })
        } else {
            &&& post.jobs == pre.jobs
            &&& post.background_jobs == pre.background_jobs
            &&& effects.len() == 1
        }
    } else {
        &&& post.config == pre.config
        &&& post.left == pre.left
        &&& post.right == pre.right
        &&& post.jobs == pre.jobs
        &&& post.background_jobs == pre.background_jobs
        &&& effects.len() == 0
    }
}

fn end_connect(app: &mut App, target_left: bool, profile: SavedProfileSummary) -> (r: Vec<Effect>)
    ensures
        old(app).is_distinct() ==> final(app).is_distinct(),
        job_frame(*old(app), *final(app)),
        final(app).mode == old(app).mode,
        final(app).status == old(app).status,
        connect_ended(
            *old(app),
            target_side(target_left),
            profile,
            true,
            *final(app),
            r@,
        ),
{
    let side: PaneSide = if target_left {
        PaneSide::Left
    } else {
        PaneSide::Right
    };
    let id: ProfileId = profile.id.clone();
    app.config.upsert_profile(
        ConnectionProfileConfig {
            id: profile.id,
            host: profile.host,
            port: profile.port,
            username: profile.username,
        },
    );
    show_location(app, side, Location::Remote { profile_id: id.clone() });
    proof {
        if app::background_ids_differ(app.background_jobs@) {
            app::law_background_ids(
                app.background_jobs@,
                app.jobs.next_id,
                app::BackgroundJob::WarmQuicFastPath { profile_id: profile.id },
            );
        }
    }
    let mut out: Vec<Effect> = only(Effect::Reload { side, select: None });
    if app.config.general.enable_quic_fast_path {
        let job_id: JobId = app.jobs.spawn("QUIC fast path");
        match find_background(app, job_id) {
            Some(i) => {
                let _ = app.background_jobs.remove(i);
            },
            None => {},
        }
        app.background_jobs.push(
            (job_id, app::BackgroundJob::WarmQuicFastPath { profile_id: id.clone() }),
        );
        out.push(Effect::Spawn { id: job_id, work: JobWork::WarmFastPath { profile_id: id } });
    }
    out
}

/// What the end of a sync scan does: a plan with something to do becomes a
/// question, and nothing else happens.
pub open spec fn scan_ended(
    pre: App,
    src: Location,
    dst: Location,
    plan: Option<SyncPlan>,
    post: App,
    effects: Seq<Effect>,
) -> bool {
    &&& effects.len() == 0
    &&& match plan {
        None => {
            &&& post == (App { status: post.status, ..pre })
            &&& text::says(post.status, "sync scan produced no plan"@)
        },
        Some(plan) => if plan.copy@.len() == 0 && plan.delete@.len() == 0 {
            &&& post == (App { status: post.status, ..pre })
            &&& text::says(post.status, "Nothing to sync"@)
        } else {
            &&& post == (App { mode: post.mode, ..pre })
            &&& post.mode matches Mode::Confirm(dialog)
            &&& dialog.message@ == sync_question(plan)
            &&& dialog.purpose == (ConfirmPurpose::Sync {
                plan,
                src_location: src,
                dst_location: dst,
            })
        },
    }
}

fn end_scan(app: &mut App, src: Location, dst: Location, plan: Option<SyncPlan>) -> (r: Vec<Effect>)
    ensures
        old(app).is_distinct() ==> final(app).is_distinct(),
        scan_ended(*old(app), src, dst, plan, *final(app), r@),
{
    match plan {
        None => {
            app.status = Some(owned("sync scan produced no plan"));
        },
        Some(plan) => {
            if plan.is_empty() {
                app.status = Some(owned("Nothing to sync"));
            } else {
                let message: String = sync_message(&plan);
                app.mode = Mode::Confirm(
                    ConfirmDialog {
                        message,
                        purpose: ConfirmPurpose::Sync { plan, src_location: src, dst_location: dst },
                    },
                );
            }
        },
    }
    nothing()
}

/// What the end of the job on screen does, once it has been cleared away, the
/// screen is back to browsing and the user has been told how it ended.
pub open spec fn kind_ended(
    pre: App,
    kind: JobKind,
    outcome: JobOutcome,
    post: App,
    effects: Seq<Effect>,
) -> bool {
    let completed = outcome is Completed;
    match kind {
        JobKind::FileOp | JobKind::ExecuteSync => post == pre && reloads_both(effects),
        JobKind::Connect { target_left, profile } => {
            &&& post.mode == pre.mode
            &&& post.status == pre.status
            &&& connect_ended(pre, target_side(target_left), profile, completed, post, effects)
        },
        JobKind::OpenArchive { target_left, location } => if completed {
            let side = target_side(target_left);
            &&& is_moved_to(
                pre.panel(side),
                post.panel(side),
                location,
                registry::has_fast_channel(pre.registry, location),
            )
            &&& post == pre.with_panel(side, post.panel(side))
            &&& reloads(effects, side, None)
        } else {
            unchanged(pre, post, effects)
        },
        JobKind::ScanSync { src_location, dst_location, plan_cell } => if completed {
            scan_ended(pre, src_location, dst_location, plan_cell@, post, effects)
        } else {
            unchanged(pre, post, effects)
        },
    }
}

fn end_kind(app: &mut App, kind: JobKind, outcome: &JobOutcome) -> (r: Vec<Effect>)
    requires
        !(old(app).mode is Connect),
    ensures
        old(app).is_distinct() ==> final(app).is_distinct(),
        kind_ended(*old(app), kind, *outcome, *final(app), r@),
        job_frame(*old(app), *final(app)),
        final(app).is_valid(),
{
    let completed: bool = matches!(outcome, JobOutcome::Completed);
    match kind {
        JobKind::FileOp | JobKind::ExecuteSync => reload_both(),
        JobKind::Connect { target_left, profile } => {
            if completed {
                end_connect(app, target_left, profile)
            } else {
                nothing()
            }
        },
        JobKind::OpenArchive { target_left, location } => {
            if completed {
                let side: PaneSide = if target_left {
                    PaneSide::Left
                } else {
                    PaneSide::Right
                };
                show_location(app, side, location);
                only(Effect::Reload { side, select: None })
            } else {
                nothing()
            }
        },
        JobKind::ScanSync { src_location, dst_location, plan_cell } => {
            if completed {
                let mut plan_cell = plan_cell;
                let plan: Option<SyncPlan> = plan_cell.take();
                end_scan(app, src_location, dst_location, plan)
            } else {
                nothing()
            }
        },
    }
}

/// Whether `jobs` is `before` without the job that has ended.
pub open spec fn is_reaped(before: jobs::JobManager, id: JobId, after: jobs::JobManager) -> bool {
    after.next_id == before.next_id && after.jobs@ == jobs::without_job(before.jobs@, id)
}

/// What the end of a job does. The end of a background job never disturbs what
/// is on screen, and neither does that of a job that is not on screen.
pub open spec fn finish_handled(
    pre: App,
    id: JobId,
    outcome: JobOutcome,
    post: App,
    effects: Seq<Effect>,
) -> bool {
    let at = app::first_background(pre.background_jobs@, id, 0);
    if at >= 0 {
        let app::BackgroundJob::WarmQuicFastPath { profile_id } = pre.background_jobs@[at].1;
        &&& is_reaped(pre.jobs, id, post.jobs)
        &&& post.background_jobs@ == pre.background_jobs@.remove(at)
        &&& post == (App {
            jobs: post.jobs,
            background_jobs: post.background_jobs,
            left: app::warmed(pre.registry, pre.left, profile_id@),
            right: app::warmed(pre.registry, pre.right, profile_id@),
            ..pre
        })
        &&& effects.len() == 0
    } else if pre.mode is Progress && pre.mode->Progress_0.job_id == id {
        exists|jobs: jobs::JobManager, status: Option<String>|
            #![trigger is_reaped(pre.jobs, id, jobs), outcome_told(status, outcome)]
            {
                &&& is_reaped(pre.jobs, id, jobs)
                &&& outcome_told(status, outcome)
                &&& kind_ended(
                    App { jobs, status, mode: Mode::Browsing, ..pre },
                    pre.mode->Progress_0.kind,
                    outcome,
                    post,
                    effects,
                )
                &&& job_frame(pre, post)
            }
    } else {
        &&& is_reaped(pre.jobs, id, post.jobs)
        &&& post == (App { jobs: post.jobs, ..pre })
        &&& effects.len() == 0
    }
}

/// What an event of a job does.
pub open spec fn event_handled(pre: App, event: JobEvent, post: App, effects: Seq<Effect>) -> bool {
    match event {
        JobEvent::Progress { job_id, progress } => {
            &&& effects.len() == 0
            &&& if pre.mode is Progress && pre.mode->Progress_0.job_id == job_id {
                post == (App {
                    mode: Mode::Progress(ProgressState { progress, ..pre.mode->Progress_0 }),
                    ..pre
                })
            } else {
                post == pre
            }
        },
        JobEvent::Finished { job_id, outcome } => finish_handled(
            pre,
            job_id,
            outcome,
            post,
            effects,
        ),
    }
}

fn find_background(app: &App, id: JobId) -> (r: Option<usize>)
    ensures
        r matches Some(i) ==> i < app.background_jobs@.len() && app::first_background(
            app.background_jobs@,
            id,
            0,
        ) == i,
        r is None ==> app::first_background(app.background_jobs@, id, 0) < 0,
{
    let mut i: usize = 0;
    while i < app.background_jobs.len()
        invariant
            i <= app.background_jobs@.len(),
            app::first_background(app.background_jobs@, id, 0) == app::first_background(
                app.background_jobs@,
                id,
                i as int,
            ),
        decreases app.background_jobs.len() - i,
    {
        if app.background_jobs[i].0 == id {
            return Some(i);
        }
        i += 1;
    }
    None
}

fn handle_finish(app: &mut App, id: JobId, outcome: JobOutcome) -> (r: Vec<Effect>)
    requires
        old(app).is_valid(),
    ensures
        finish_handled(*old(app), id, outcome, *final(app), r@),
        final(app).is_valid(),
        old(app).cursors_in_range() ==> final(app).cursors_in_range(),
        old(app).is_distinct() ==> final(app).is_distinct(),
{
    app.jobs.reap(id);
    match find_background(app, id) {
        Some(i) => {
            let (_, job) = app.background_jobs.remove(i);
            proof {
                if app::background_ids_differ(old(app).background_jobs@) {
                    app::law_background_ids(old(app).background_jobs@, id, job);
                }
            }
            match job {
                app::BackgroundJob::WarmQuicFastPath { profile_id } => {
                    app::update_quic_available_for_profile(app, &profile_id);
                },
            }
            return nothing();
        },
        None => {},
    }
    let on_screen: bool = match &app.mode {
        Mode::Progress(state) => state.job_id == id,
        _ => false,
    };
    if !on_screen {
        return nothing();
    }
    let mut mode = Mode::Browsing;
    std::mem::swap(&mut app.mode, &mut mode);
    match mode {
        Mode::Progress(state) => {
            app.status = match &outcome {
                JobOutcome::Completed => None,
                JobOutcome::Cancelled => Some(owned("Cancelled")),
                JobOutcome::Failed(why) => Some(joined_text("Job failed: ", why.as_str())),
            };
            proof {
                assert(is_reaped(old(app).jobs, id, app.jobs));
                assert(outcome_told(app.status, outcome));
            }
            end_kind(app, state.kind, &outcome)
        },
        _ => nothing(),
    }
}

/// Handles an event of a job.
pub fn handle_job_event(app: &mut App, event: JobEvent) -> (r: Vec<Effect>)
    requires
        old(app).is_valid(),
    ensures
        event_handled(*old(app), event, *final(app), r@),
        final(app).is_valid(),
        old(app).cursors_in_range() ==> final(app).cursors_in_range(),
        old(app).is_distinct() ==> final(app).is_distinct(),
{
    match event {
        JobEvent::Progress { job_id, progress } => {
            match &mut app.mode {
                Mode::Progress(state) => {
                    if state.job_id == job_id {
                        state.progress = progress;
                    }
                },
                _ => {},
            }
            nothing()
        },
        JobEvent::Finished { job_id, outcome } => handle_finish(app, job_id, outcome),
    }
}

} // verus!
