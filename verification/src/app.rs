//! Everything the program knows while it runs.

use vstd::prelude::*;

use crate::config::{Config, PanelLocationConfig, PanelSessionConfig};
use crate::editor::EditTarget;
use crate::job::{JobId, SyncPlan};
use crate::jobs;
use crate::jobs::JobManager;
use crate::keymap;
use crate::keymap::{Action, Keymap};
use crate::mode::{JobKind, Mode};
use crate::panel;
use crate::panel::PanelState;
use crate::path::VfsPath;
use crate::registry;
use crate::registry::{location_uses_profile, quic_available_for, VfsRegistry};
use crate::text;
use crate::text::{joined_text, owned};
use crate::vfs::{EntryMeta, Location, ProfileId, VfsResult};

verus! {

/// One of the two panes.
#[derive(Clone, Copy, Debug, PartialEq, Eq, Structural)]
pub enum PaneSide {
    Left,
    Right,
}

impl PaneSide {
    /// The other pane.
    pub open spec fn across(self) -> PaneSide {
        match self {
            PaneSide::Left => PaneSide::Right,
            PaneSide::Right => PaneSide::Left,
        }
    }

    /// The other pane.
    pub fn other(&self) -> (r: PaneSide)
        ensures
            r == self.across(),
    {
        match self {
            PaneSide::Left => PaneSide::Right,
            PaneSide::Right => PaneSide::Left,
        }
    }
}

/// A job that runs in the background like any other, but never takes over the
/// keyboard: its end is handled without disturbing whatever is on screen.
#[derive(Debug)]
pub enum BackgroundJob {
    /// Gets a fast channel ready for a connection that is already in use. At
    /// its end the panels that are on the connection show whether there is one.
    WarmQuicFastPath { profile_id: ProfileId },
}

/// Everything the program knows while it runs.
pub struct App {
    pub registry: VfsRegistry,
    pub left: PanelState,
    pub right: PanelState,
    pub active: PaneSide,
    pub mode: Mode,
    pub jobs: JobManager,
    /// The jobs whose end is not that of the job on screen.
    pub background_jobs: Vec<(JobId, BackgroundJob)>,
    pub status: Option<String>,
    pub should_quit: bool,
    /// The file that the user wants to edit.
    pub edit_request: Option<EditTarget>,
    pub keymap: Keymap,
    pub config: Config,
}

/// Whether a panel was saved at a local directory.
pub open spec fn saved_at(saved: Option<PanelSessionConfig>) -> Option<Seq<char>> {
    match saved {
        Some(s) => if s.location is Local {
            Some(s.cwd@)
        } else {
            None
        },
        None => None,
    }
}

/// Where a panel starts: at its saved local directory if that still exists,
/// and else at the fallback.
pub open spec fn start_at(
    saved: Option<PanelSessionConfig>,
    exists: bool,
    fallback: Seq<char>,
) -> Seq<char> {
    match saved_at(saved) {
        Some(cwd) => if exists {
            cwd
        } else {
            fallback
        },
        None => fallback,
    }
}

/// The local directory that a panel was saved at. Remote panels are never
/// restored: that would take a password, and none is ever saved.
pub fn restorable_local_cwd(saved: &Option<PanelSessionConfig>) -> (r: Option<VfsPath>)
    ensures
        r is Some <==> saved_at(*saved) is Some,
        r matches Some(p) ==> saved_at(*saved) == Some(p@),
{
    match saved {
        Some(s) => match s.location {
            PanelLocationConfig::Local => Some(VfsPath::new(s.cwd.as_str())),
            _ => None,
        },
        None => None,
    }
}

fn start_dir(saved: &Option<PanelSessionConfig>, exists: bool, fallback: &VfsPath) -> (r: VfsPath)
    ensures
        r@ == start_at(*saved, exists, fallback@),
{
    match restorable_local_cwd(saved) {
        Some(p) => if exists {
            p
        } else {
            fallback.clone()
        },
        None => fallback.clone(),
    }
}

/// Whether a panel is a local one that shows nothing yet.
pub open spec fn is_fresh(p: PanelState, cwd: Seq<char>) -> bool {
    &&& p.location is Local
    &&& p.cwd@ == cwd
    &&& p.entries@.len() == 0
    &&& p.selected@.len() == 0
    &&& p.cursor == 0
    &&& p.scroll_offset == 0
    &&& p.viewport_height == 0
    &&& !p.quic_available
}

/// What is saved of a panel: where it is if it is local, and else nothing.
pub open spec fn is_session_of(saved: Option<PanelSessionConfig>, p: PanelState) -> bool {
    if p.location is Local {
        saved matches Some(s) && s.location is Local && s.cwd@ == p.cwd@
    } else {
        saved is None
    }
}

fn panel_session_config(p: &PanelState) -> (r: Option<PanelSessionConfig>)
    ensures
        is_session_of(r, *p),
{
    match p.location {
        Location::Local => Some(
            PanelSessionConfig {
                location: PanelLocationConfig::Local,
                cwd: owned(p.cwd.as_str()),
            },
        ),
        _ => None,
    }
}

/// The entries of a listing; a listing that failed has none.
pub open spec fn listed_entries(listing: VfsResult<Vec<EntryMeta>>) -> Seq<EntryMeta> {
    match listing {
        Ok(entries) => entries@,
        Err(_) => Seq::empty(),
    }
}

/// Where the cursor is after a listing: on the first entry of the wanted name,
/// or else as near to where it was as the listing allows.
pub open spec fn listed_cursor(
    cursor: usize,
    entries: Seq<EntryMeta>,
    select: Option<Seq<char>>,
) -> int {
    let at = match select {
        Some(name) => panel::first_named(entries, name, 0),
        None => -1,
    };
    if at >= 0 {
        at
    } else if entries.len() == 0 {
        0
    } else if cursor >= entries.len() {
        entries.len() - 1
    } else {
        cursor as int
    }
}

/// Whether `after` is what a listing makes of a panel.
pub open spec fn is_reloaded(
    before: PanelState,
    after: PanelState,
    entries: Seq<EntryMeta>,
    select: Option<Seq<char>>,
) -> bool {
    &&& after.entries@ == entries
    &&& after.selected@.len() == 0
    &&& after.cursor == listed_cursor(before.cursor, entries, select)
    &&& after == (PanelState {
        entries: after.entries,
        selected: after.selected,
        cursor: after.cursor,
        ..before
    })
}

/// The text of an optional name.
pub open spec fn name_text(name: Option<String>) -> Option<Seq<char>> {
    match name {
        Some(n) => Some(n@),
        None => None,
    }
}

/// Takes a listing over into a panel: the selection is cleared and the cursor
/// kept in range. A listing that failed leaves the panel empty.
pub fn reload(p: &mut PanelState, listing: VfsResult<Vec<EntryMeta>>, select: &Option<String>)
    ensures
        is_reloaded(*old(p), *final(p), listed_entries(listing), name_text(*select)),
{
    match listing {
        Ok(entries) => {
            p.entries = entries;
        },
        Err(_) => {
            p.entries = Vec::new();
        },
    }
    p.selected = Vec::new();
    p.clamp_cursor();
    proof {
        assert(p.entries@ =~= listed_entries(listing));
    }
    match select {
        Some(name) => {
            let len: usize = p.entries.len();
            proof {
                lemma_first_named(p.entries@, name@, 0);
                assert(p.entries@.len() == len);
            }
            p.select_by_name(name.as_str());
        },
        None => {},
    }
}

proof fn lemma_first_named(entries: Seq<EntryMeta>, name: Seq<char>, from: int)
    requires
        0 <= from <= entries.len(),
    ensures
        panel::first_named(entries, name, from) >= 0 ==> from <= panel::first_named(
            entries,
            name,
            from,
        ) < entries.len() && entries[panel::first_named(entries, name, from)].name@ == name,
        panel::first_named(entries, name, from) < 0 ==> forall|i: int|
            from <= i < entries.len() ==> (#[trigger] entries[i]).name@ != name,
    decreases entries.len() - from,
{
    if from < entries.len() && entries[from].name@ != name {
        lemma_first_named(entries, name, from + 1);
    }
}

/// A listing leaves the cursor in range.
pub proof fn law_cursor_stays_in_range(
    before: PanelState,
    after: PanelState,
    entries: Seq<EntryMeta>,
    select: Option<Seq<char>>,
)
    requires
        is_reloaded(before, after, entries, select),
    ensures
        after.cursor_in_range(),
{
    match select {
        Some(name) => {
            lemma_first_named(entries, name, 0);
        },
        None => {},
    }
}

/// A listing that has an entry of the wanted name leaves the cursor on such an
/// entry.
pub proof fn law_cursor_finds_name(
    before: PanelState,
    after: PanelState,
    entries: Seq<EntryMeta>,
    name: Seq<char>,
    i: int,
)
    requires
        is_reloaded(before, after, entries, Some(name)),
        0 <= i < entries.len(),
        entries[i].name@ == name,
    ensures
        after.at_cursor() matches Some(e) && e.name@ == name,
{
    lemma_first_named(entries, name, 0);
}

/// The position of the first background job with this id, or -1.
pub open spec fn first_background(
    list: Seq<(JobId, BackgroundJob)>,
    id: JobId,
    from: int,
) -> int
    decreases list.len() - from,
{
    if from < 0 || from >= list.len() {
        -1
    } else if list[from].0 == id {
        from
    } else {
        first_background(list, id, from + 1)
    }
}

/// The background jobs without the first that has this id.
pub open spec fn without_background(
    list: Seq<(JobId, BackgroundJob)>,
    id: JobId,
) -> Seq<(JobId, BackgroundJob)> {
    let at = first_background(list, id, 0);
    if at >= 0 {
        list.remove(at)
    } else {
        list
    }
}

/// Whether no two background jobs have the same id.
pub open spec fn background_ids_differ(list: Seq<(JobId, BackgroundJob)>) -> bool {
    forall|i: int, j: int|
        0 <= i < j < list.len() ==> (#[trigger] list[i]).0 != (#[trigger] list[j]).0
}

pub proof fn lemma_first_background(list: Seq<(JobId, BackgroundJob)>, id: JobId, from: int)
    requires
        0 <= from <= list.len(),
    ensures
        first_background(list, id, from) >= 0 ==> from <= first_background(list, id, from)
            < list.len() && list[first_background(list, id, from)].0 == id,
        first_background(list, id, from) < 0 ==> forall|k: int|
            from <= k < list.len() ==> (#[trigger] list[k]).0 != id,
    decreases list.len() - from,
{
    if from < list.len() && list[from].0 != id {
        lemma_first_background(list, id, from + 1);
    }
}

/// Background jobs keep ids of their own: one that is taken off the list is gone
/// from it, and one that is put on it takes the place of any other with its id.
pub proof fn law_background_ids(list: Seq<(JobId, BackgroundJob)>, id: JobId, job: BackgroundJob)
    requires
        background_ids_differ(list),
    ensures
        background_ids_differ(without_background(list, id)),
        first_background(without_background(list, id), id, 0) < 0,
        background_ids_differ(without_background(list, id).push((id, job))),
{
    let at = first_background(list, id, 0);
    let after = without_background(list, id);
    lemma_first_background(list, id, 0);
    assert forall|i: int| 0 <= i < after.len() implies (#[trigger] after[i]).0 != id by {
        if at < 0 {
            assert(list[i].0 != id);
        } else if i < at {
            assert(list[i].0 != list[at].0);
        } else {
            assert(list[at].0 != list[i + 1].0);
        }
    }
    assert forall|i: int, j: int| 0 <= i < j < after.len() implies (#[trigger] after[i]).0 != (
    #[trigger] after[j]).0 by {
        let a = if at >= 0 && i >= at {
            i + 1
        } else {
            i
        };
        let b = if at >= 0 && j >= at {
            j + 1
        } else {
            j
        };
        assert(list[a].0 != list[b].0);
    }
    lemma_first_background(after, id, 0);
    let more = after.push((id, job));
    assert forall|i: int, j: int| 0 <= i < j < more.len() implies (#[trigger] more[i]).0 != (
    #[trigger] more[j]).0 by {
        assert(more[i] == after[i]);
        if j < after.len() {
            assert(more[j] == after[j]);
        }
    }
}

/// Whether `after` is `before` with the plan of a scan left in it, if that scan is
/// on screen.
pub open spec fn plan_left(before: App, job_id: JobId, plan: SyncPlan, after: App) -> bool {
    &&& after == (App { mode: after.mode, ..before })
    &&& match before.mode {
        Mode::Progress(state) => if state.job_id == job_id && state.kind is ScanSync {
            &&& after.mode matches Mode::Progress(then)
            &&& then.job_id == job_id
            &&& then.title == state.title
            &&& then.progress == state.progress
            &&& then.kind is ScanSync
            &&& then.kind->ScanSync_src_location == state.kind->ScanSync_src_location
            &&& then.kind->ScanSync_dst_location == state.kind->ScanSync_dst_location
            &&& then.kind->plan_cell@ == Some(plan)
        } else {
            after.mode == before.mode
        },
        _ => after.mode == before.mode,
    }
}

/// A panel after it was found out which connections have a fast channel, if it
/// is on the connection in question.
pub open spec fn warmed(r: VfsRegistry, p: PanelState, profile_id: Seq<char>) -> PanelState {
    if registry::connection_of(p.location) == Some(profile_id) {
        PanelState { quic_available: registry::has_fast_channel(r, p.location), ..p }
    } else {
        p
    }
}

impl App {
    /// A panel.
    pub open spec fn panel(self, side: PaneSide) -> PanelState {
        match side {
            PaneSide::Left => self.left,
            PaneSide::Right => self.right,
        }
    }

    /// Everything as it is, but for one panel.
    pub open spec fn with_panel(self, side: PaneSide, p: PanelState) -> App {
        match side {
            PaneSide::Left => App { left: p, ..self },
            PaneSide::Right => App { right: p, ..self },
        }
    }

    /// Whether an open form has its fields.
    pub open spec fn is_valid(self) -> bool {
        self.mode matches Mode::Connect(form) ==> form.is_valid()
    }

    /// Whether both cursors are on entries or at the top of empty panels.
    pub open spec fn cursors_in_range(self) -> bool {
        self.left.cursor_in_range() && self.right.cursor_in_range()
    }

    /// Whether what has to differ does: no panel has a path chosen twice, and no
    /// two jobs or background jobs have the same id.
    pub open spec fn is_distinct(self) -> bool {
        &&& self.left.is_valid()
        &&& self.right.is_valid()
        &&& jobs::job_ids_differ(self.jobs.jobs@)
        &&& background_ids_differ(self.background_jobs@)
    }

    /// Whether nothing has happened yet since the program was started.
    pub open spec fn is_started(self) -> bool {
        &&& self.registry.remotes@.len() == 0
        &&& self.registry.archives@.len() == 0
        &&& self.active == PaneSide::Left
        &&& self.mode is Browsing
        &&& self.jobs.next_id == 0
        &&& self.jobs.jobs@.len() == 0
        &&& self.background_jobs@.len() == 0
        &&& self.status is None
        &&& !self.should_quit
        &&& self.edit_request is None
    }

    /// A program with both panels at `start_dir` and the config of a first run.
    /// The panels are to be listed before they show anything.
    pub fn new(start_dir: VfsPath) -> (r: Self)
        ensures
            r.is_started(),
            r.is_valid(),
            r.cursors_in_range(),
            r.is_distinct(),
            r.config.is_default(),
            is_fresh(r.left, start_dir@),
            is_fresh(r.right, start_dir@),
            forall|action: Action| #[trigger] r.keymap.key_of(action) == action.default_key(),
    {
        App::new_with_config(Config::default(), start_dir, false, false)
    }

    /// A program that restores each panel's last local directory from the
    /// config if it still exists (`left_exists`, `right_exists`) and else starts
    /// it at `fallback_dir`, and that has the config's keys.
    pub fn new_with_config(
        config: Config,
        fallback_dir: VfsPath,
        left_exists: bool,
        right_exists: bool,
    ) -> (r: Self)
        ensures
            r.is_started(),
            r.is_valid(),
            r.cursors_in_range(),
            r.is_distinct(),
            r.config == config,
            is_fresh(r.left, start_at(config.session.left, left_exists, fallback_dir@)),
            is_fresh(r.right, start_at(config.session.right, right_exists, fallback_dir@)),
            forall|action: Action|
                #[trigger] r.keymap.key_of(action) == keymap::resolved(
                    config.keybindings@,
                    action,
                ),
    {
        let keymap = Keymap::from_overrides(&config.keybindings);
        let left = PanelState::new(
            Location::Local,
            start_dir(&config.session.left, left_exists, &fallback_dir),
        );
        let right = PanelState::new(
            Location::Local,
            start_dir(&config.session.right, right_exists, &fallback_dir),
        );
        App {
            registry: VfsRegistry::new(),
            left,
            right,
            active: PaneSide::Left,
            mode: Mode::Browsing,
            jobs: JobManager::new(),
            background_jobs: Vec::new(),
            status: None,
            should_quit: false,
            edit_request: None,
            keymap,
            config,
        }
    }

    /// The panel that the keyboard works on.
    pub fn active_panel(&self) -> (r: &PanelState)
        ensures
            *r == self.panel(self.active),
    {
        match self.active {
            PaneSide::Left => &self.left,
            PaneSide::Right => &self.right,
        }
    }

    /// A panel.
    pub fn panel_mut(&mut self, side: PaneSide) -> (r: &mut PanelState)
        ensures
            *r == old(self).panel(side),
            *final(self) == old(self).with_panel(side, *final(r)),
    {
        match side {
            PaneSide::Left => &mut self.left,
            PaneSide::Right => &mut self.right,
        }
    }

    /// The panel that the keyboard works on.
    pub fn active_panel_mut(&mut self) -> (r: &mut PanelState)
        ensures
            *r == old(self).panel(old(self).active),
            *final(self) == old(self).with_panel(old(self).active, *final(r)),
    {
        match self.active {
            PaneSide::Left => &mut self.left,
            PaneSide::Right => &mut self.right,
        }
    }

    /// The other panel.
    pub fn inactive_panel(&self) -> (r: &PanelState)
        ensures
            *r == self.panel(self.active.across()),
    {
        match self.active {
            PaneSide::Left => &self.right,
            PaneSide::Right => &self.left,
        }
    }

    /// Takes a listing over into a panel, with the cursor on the entry named
    /// `select` if there is one.
    pub fn on_listed(
        &mut self,
        side: PaneSide,
        listing: VfsResult<Vec<EntryMeta>>,
        select: &Option<String>,
    )
        ensures
            old(self).is_distinct() ==> final(self).is_distinct(),
            is_reloaded(
                old(self).panel(side),
                final(self).panel(side),
                listed_entries(listing),
                name_text(*select),
            ),
            *final(self) == old(self).with_panel(side, final(self).panel(side)),
    {
        reload(self.panel_mut(side), listing, select);
    }

    /// Tells the user how making a directory went.
    pub fn on_mkdir(&mut self, result: VfsResult<()>)
        ensures
            old(self).is_distinct() ==> final(self).is_distinct(),
            match result {
                Ok(_) => final(self).status is None,
                Err(e) => text::says(final(self).status, "mkdir failed: "@ + e.text()),
            },
            *final(self) == (App { status: final(self).status, ..*old(self) }),
    {
        self.status = match result {
            Ok(_) => None,
            Err(e) => Some(joined_text("mkdir failed: ", e.message().as_str())),
        };
    }

    /// Leaves the plan of a finished scan for the scan's end to find.
    pub fn on_plan(&mut self, job_id: JobId, plan: SyncPlan)
        ensures
            plan_left(*old(self), job_id, plan, *final(self)),
            old(self).is_distinct() ==> final(self).is_distinct(),
            match old(self).mode {
                Mode::Progress(state) => if state.job_id == job_id && state.kind is ScanSync {
                    &&& final(self).mode matches Mode::Progress(after)
                    &&& after.job_id == job_id
                    &&& after.title == state.title
                    &&& after.progress == state.progress
                    &&& after.kind matches JobKind::ScanSync {
                        src_location,
                        dst_location,
                        plan_cell,
                    }
                    &&& src_location == state.kind->ScanSync_src_location
                    &&& dst_location == state.kind->ScanSync_dst_location
                    &&& plan_cell@ == Some(plan)
                } else {
                    final(self).mode == old(self).mode
                },
                _ => final(self).mode == old(self).mode,
            },
            *final(self) == (App { mode: final(self).mode, ..*old(self) }),
    {
        match &mut self.mode {
            Mode::Progress(state) => {
                if state.job_id == job_id {
                    match &mut state.kind {
                        JobKind::ScanSync { src_location: _, dst_location: _, plan_cell } => {
                            plan_cell.set(plan);
                        },
                        _ => {},
                    }
                }
            },
            _ => {},
        }
    }

    /// Snapshots the local panels into the config, ready to be saved.
    pub fn sync_session_into_config(&mut self)
        ensures
            old(self).is_distinct() ==> final(self).is_distinct(),
            is_session_of(final(self).config.session.left, old(self).left),
            is_session_of(final(self).config.session.right, old(self).right),
            *final(self) == (App {
                config: Config {
                    session: final(self).config.session,
                    ..old(self).config
                },
                ..*old(self)
            }),
    {
        self.config.session.left = panel_session_config(&self.left);
        self.config.session.right = panel_session_config(&self.right);
    }
}

/// Lets the panels that are on a connection show whether it has a fast channel.
pub fn update_quic_available_for_profile(app: &mut App, profile_id: &ProfileId)
    ensures
        old(app).is_distinct() ==> final(app).is_distinct(),
        *final(app) == (App {
            left: warmed(old(app).registry, old(app).left, profile_id@),
            right: warmed(old(app).registry, old(app).right, profile_id@),
            ..*old(app)
        }),
{
    if location_uses_profile(&app.left.location, profile_id) {
        app.left.quic_available = quic_available_for(&app.registry, &app.left.location);
    }
    if location_uses_profile(&app.right.location, profile_id) {
        app.right.quic_available = quic_available_for(&app.registry, &app.right.location);
    }
}

/// A session that was saved is restored: a local panel whose directory still
/// exists starts where it was.
pub proof fn law_session_is_restored(
    p: PanelState,
    saved: Option<PanelSessionConfig>,
    fallback: Seq<char>,
)
    requires
        is_session_of(saved, p),
    ensures
        p.location is Local ==> start_at(saved, true, fallback) == p.cwd@,
        !(p.location is Local) ==> start_at(saved, true, fallback) == fallback,
{
}

/// There are two panes, and each is across from the other.
pub proof fn law_panes(a: App, side: PaneSide, p: PanelState)
    ensures
        side.across() != side,
        side.across().across() == side,
        a.panel(PaneSide::Left) == a.left,
        a.panel(PaneSide::Right) == a.right,
        a.with_panel(side, p).panel(side) == p,
        a.with_panel(side, p).panel(side.across()) == a.panel(side.across()),
{
}

/// A listing is shown as it came, with nothing selected, and the cursor stays on
/// its row as long as there is one and no entry is wanted by name.
pub proof fn law_listing_is_shown(
    before: PanelState,
    after: PanelState,
    entries: Seq<EntryMeta>,
    select: Option<Seq<char>>,
    i: int,
)
    requires
        is_reloaded(before, after, entries, select),
    ensures
        after.entries@ == entries,
        after.selected@.len() == 0,
        after.location == before.location,
        after.cwd == before.cwd,
        select is None && before.cursor < entries.len() ==> after.cursor == before.cursor,
        select is None && before.cursor >= entries.len() > 0 ==> after.cursor == entries.len() - 1,
        select matches Some(name) ==> ((forall|k: int|
            0 <= k < entries.len() ==> (#[trigger] entries[k]).name@ != name) && before.cursor
            < entries.len() ==> after.cursor == before.cursor),
        select matches Some(name) ==> (0 <= i < entries.len() && entries[i].name@ == name
            ==> after.cursor <= i),
{
    if let Some(name) = select {
        lemma_first_named(entries, name, 0);
        if 0 <= i < entries.len() && entries[i].name@ == name {
            lemma_first_named_is_first(entries, name, 0, i);
        }
    }
}

proof fn lemma_first_named_is_first(entries: Seq<EntryMeta>, name: Seq<char>, from: int, i: int)
    requires
        0 <= from <= i < entries.len(),
        entries[i].name@ == name,
    ensures
        0 <= panel::first_named(entries, name, from) <= i,
    decreases entries.len() - from,
{
    if entries[from].name@ != name {
        lemma_first_named_is_first(entries, name, from + 1, i);
    }
}

/// A directory that was saved and is gone is not restored.
pub proof fn law_lost_directory_is_not_restored(
    saved: Option<PanelSessionConfig>,
    fallback: Seq<char>,
)
    ensures
        start_at(saved, false, fallback) == fallback,
        saved is None ==> start_at(saved, true, fallback) == fallback,
{
}

/// Taking a background job off the list leaves every other on it.
pub proof fn law_background_others_stay(
    list: Seq<(JobId, BackgroundJob)>,
    id: JobId,
    i: int,
)
    requires
        0 <= i < list.len(),
        list[i].0 != id,
    ensures
        without_background(list, id).contains(list[i]),
{
    lemma_first_background(list, id, 0);
    let at = first_background(list, id, 0);
    let after = without_background(list, id);
    if at < 0 || i < at {
        assert(after[i] == list[i]);
    } else {
        assert(after[i - 1] == list[i]);
    }
}

/// When a connection has got its fast channel, each panel that is on it, or in an
/// archive on it, shows so; a panel elsewhere shows what it showed.
pub proof fn law_warmed(r: VfsRegistry, p: PanelState, id: Seq<char>, n: int)
    requires
        0 <= n < r.remotes@.len(),
        r.remotes@[n].profile_id@ == id,
        forall|k: int| 0 <= k < n ==> (#[trigger] r.remotes@[k]).profile_id@ != id,
    ensures
        registry::connection_of(p.location) == Some(id) ==> warmed(r, p, id).quic_available
            == r.remotes@[n].fast,
        p.location matches Location::Remote { profile_id } ==> (profile_id@ == id ==> warmed(
            r,
            p,
            id,
        ).quic_available == r.remotes@[n].fast),
        registry::connection_of(p.location) != Some(id) ==> warmed(r, p, id) == p,
        p.location is Local ==> warmed(r, p, id) == p,
        warmed(r, p, id).cwd == p.cwd,
        warmed(r, p, id).entries == p.entries,
        warmed(r, p, id).location == p.location,
{
    registry::lemma_remote_number_is(r.remotes@, id, 0, n);
}

} // verus!
