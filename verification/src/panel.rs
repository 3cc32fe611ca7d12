//! What a single pane knows about itself.

use vstd::prelude::*;

use crate::path;
use crate::path::VfsPath;
use crate::text::same_text;
use crate::vfs::{clone_paths, EntryMeta, Location};

verus! {

/// One pane: where it is, what it shows and where its cursor is.
#[derive(Debug)]
pub struct PanelState {
    pub location: Location,
    pub cwd: VfsPath,
    pub entries: Vec<EntryMeta>,
    /// The chosen paths; no path is in it twice.
    pub selected: Vec<VfsPath>,
    pub cursor: usize,
    /// Index of the first entry currently shown on screen.
    pub scroll_offset: usize,
    /// Number of entry rows that fit in this panel's last rendered area.
    pub viewport_height: usize,
    /// Whether this panel's connection has a QUIC fast-path agent.
    pub quic_available: bool,
}

/// `x` brought into the range from `low` to `high`.
pub open spec fn clamped(x: int, low: int, high: int) -> int {
    if x < low {
        low
    } else if x > high {
        high
    } else {
        x
    }
}

/// The cursor after moving it by `delta` entries, stopping at both ends.
pub open spec fn moved_cursor(panel: PanelState, delta: int) -> usize {
    if panel.entries@.len() == 0 {
        0
    } else {
        clamped(panel.cursor + delta, 0, panel.entries@.len() - 1) as usize
    }
}

/// The position of the first entry with this name, or -1.
pub open spec fn first_named(entries: Seq<EntryMeta>, name: Seq<char>, from: int) -> int
    decreases entries.len() - from,
{
    if from < 0 || from >= entries.len() {
        -1
    } else if entries[from].name@ == name {
        from
    } else {
        first_named(entries, name, from + 1)
    }
}

/// The cursor after looking for an entry by name: on the first entry of that
/// name, or where it was if there is none.
pub open spec fn cursor_by_name(panel: PanelState, name: Seq<char>) -> usize {
    let at = first_named(panel.entries@, name, 0);
    if at >= 0 {
        at as usize
    } else {
        panel.cursor
    }
}

/// The first row to show so that the cursor is on a screen of `height` rows:
/// as little away from `offset` as that takes, and not so far down that rows
/// stay empty while entries are hidden above.
pub open spec fn viewport_offset(offset: int, cursor: int, height: int, len: int) -> int {
    if height <= 0 {
        0
    } else {
        let o = if cursor < offset {
            cursor
        } else if cursor >= offset + height {
            cursor + 1 - height
        } else {
            offset
        };
        let most = if len > height {
            len - height
        } else {
            0
        };
        if o > most {
            most
        } else {
            o
        }
    }
}

/// Whether one of `paths` is the path `p`.
pub open spec fn has_path(paths: Seq<VfsPath>, p: Seq<char>) -> bool {
    exists|i: int| 0 <= i < paths.len() && path::same_path((#[trigger] paths[i])@, p)
}

/// The position of the first of `paths` that is the path `p`, or -1.
pub open spec fn first_path(paths: Seq<VfsPath>, p: Seq<char>, from: int) -> int
    decreases paths.len() - from,
{
    if from < 0 || from >= paths.len() {
        -1
    } else if path::same_path(paths[from]@, p) {
        from
    } else {
        first_path(paths, p, from + 1)
    }
}

/// A selection with `p` taken out if it is in, and put in if it is not.
pub open spec fn toggled(paths: Seq<VfsPath>, p: VfsPath) -> Seq<VfsPath> {
    let at = first_path(paths, p@, 0);
    if at >= 0 {
        paths.remove(at)
    } else {
        paths.push(p)
    }
}

impl PanelState {
    /// A pane at `cwd` that shows nothing yet.
    pub fn new(location: Location, cwd: VfsPath) -> (r: Self)
        ensures
            r.is_valid(),
            r.location == location,
            r.cwd == cwd,
            r.entries@.len() == 0,
            r.selected@.len() == 0,
            r.cursor == 0,
            r.scroll_offset == 0,
            r.viewport_height == 0,
            !r.quic_available,
    {
        PanelState {
            location,
            cwd,
            entries: Vec::new(),
            selected: Vec::new(),
            cursor: 0,
            scroll_offset: 0,
            viewport_height: 0,
            quic_available: false,
        }
    }

    /// Whether no path is chosen twice.
    pub open spec fn is_valid(self) -> bool {
        no_path_twice(self.selected@)
    }

    /// Whether the cursor is on an entry, or at the top of an empty pane.
    pub open spec fn cursor_in_range(self) -> bool {
        self.cursor < self.entries@.len() || (self.cursor == 0 && self.entries@.len() == 0)
    }

    /// The entry under the cursor.
    pub open spec fn at_cursor(self) -> Option<EntryMeta> {
        if self.cursor < self.entries@.len() {
            Some(self.entries@[self.cursor as int])
        } else {
            None
        }
    }

    /// The entry under the cursor.
    pub fn cursor_entry(&self) -> (r: Option<&EntryMeta>)
        ensures
            r == (match self.at_cursor() {
                Some(e) => Some(&e),
                None => None,
            }),
    {
        if self.cursor < self.entries.len() {
            Some(&self.entries[self.cursor])
        } else {
            None
        }
    }

    /// Moves the cursor by `delta` entries, stopping at both ends.
    pub fn move_cursor(&mut self, delta: isize)
        ensures
            *final(self) == (PanelState {
                cursor: moved_cursor(*old(self), delta as int),
                ..*old(self)
            }),
            final(self).cursor_in_range(),
    {
        if self.entries.len() == 0 {
            self.cursor = 0;
            return;
        }
        let max: i128 = self.entries.len() as i128 - 1;
        let next: i128 = self.cursor as i128 + delta as i128;
        self.cursor = if next < 0 {
            0
        } else if next > max {
            max as usize
        } else {
            next as usize
        };
    }

    /// Moves the cursor onto the entry named `name`, if present; otherwise
    /// leaves it where it is.
    pub fn select_by_name(&mut self, name: &str)
        ensures
            *final(self) == (PanelState { cursor: cursor_by_name(*old(self), name@), ..*old(self) }),
    {
        let mut i: usize = 0;
        while i < self.entries.len()
            invariant
                *self == *old(self),
                i <= self.entries@.len(),
                first_named(self.entries@, name@, 0) == first_named(
                    self.entries@,
                    name@,
                    i as int,
                ),
            decreases self.entries.len() - i,
        {
            if same_text(self.entries[i].name.as_str(), name) {
                self.cursor = i;
                return;
            }
            i += 1;
        }
    }

    /// Keeps the cursor in range after the entries have changed.
    pub fn clamp_cursor(&mut self)
        ensures
            *final(self) == (PanelState {
                cursor: if old(self).entries@.len() == 0 {
                    0
                } else if old(self).cursor >= old(self).entries@.len() {
                    (old(self).entries@.len() - 1) as usize
                } else {
                    old(self).cursor
                },
                ..*old(self)
            }),
            final(self).cursor_in_range(),
    {
        if self.entries.len() == 0 {
            self.cursor = 0;
        } else if self.cursor >= self.entries.len() {
            self.cursor = self.entries.len() - 1;
        }
    }

    /// Keeps the shown part of a pane of `height` rows with the cursor.
    pub fn sync_viewport(&mut self, height: usize)
        ensures
            *final(self) == (PanelState {
                viewport_height: height,
                scroll_offset: viewport_offset(
                    old(self).scroll_offset as int,
                    old(self).cursor as int,
                    height as int,
                    old(self).entries@.len() as int,
                ) as usize,
                ..*old(self)
            }),
    {
        self.viewport_height = height;
        if height == 0 {
            self.scroll_offset = 0;
            return;
        }
        if self.cursor < self.scroll_offset {
            self.scroll_offset = self.cursor;
        } else if self.cursor - self.scroll_offset >= height {
            self.scroll_offset = self.cursor - (height - 1);
        }
        let max_offset: usize = if self.entries.len() > height {
            self.entries.len() - height
        } else {
            0
        };
        if self.scroll_offset > max_offset {
            self.scroll_offset = max_offset;
        }
    }

    /// Whether `p` is selected.
    pub fn is_selected(&self, p: &VfsPath) -> (r: bool)
        ensures
            r == has_path(self.selected@, p@),
    {
        let mut i: usize = 0;
        while i < self.selected.len()
            invariant
                i <= self.selected@.len(),
                forall|k: int|
                    0 <= k < i ==> !path::same_path((#[trigger] self.selected@[k])@, p@),
            decreases self.selected.len() - i,
        {
            if self.selected[i] == *p {
                return true;
            }
            i += 1;
        }
        false
    }

    /// Selects `p`, or takes it out of the selection.
    pub fn toggle(&mut self, p: VfsPath)
        ensures
            final(self).selected@ == toggled(old(self).selected@, p),
            *final(self) == (PanelState { selected: final(self).selected, ..*old(self) }),
    {
        let mut i: usize = 0;
        while i < self.selected.len()
            invariant
                *self == *old(self),
                i <= self.selected@.len(),
                first_path(self.selected@, p@, 0) == first_path(self.selected@, p@, i as int),
            decreases self.selected.len() - i,
        {
            if self.selected[i] == p {
                let _ = self.selected.remove(i);
                return;
            }
            i += 1;
        }
        self.selected.push(p);
    }

    /// The paths an action works on: the selection, or else the entry under
    /// the cursor.
    pub open spec fn chosen(self) -> Seq<VfsPath> {
        if self.selected@.len() > 0 {
            self.selected@
        } else {
            match self.at_cursor() {
                Some(e) => seq![e.path],
                None => Seq::empty(),
            }
        }
    }

    /// How far a page key moves the cursor: as many rows as the pane last
    /// showed, and at least one.
    pub open spec fn page(self) -> int {
        if self.viewport_height == 0 {
            1
        } else if self.viewport_height > isize::MAX {
            isize::MAX as int
        } else {
            self.viewport_height as int
        }
    }
}

/// The paths an action works on.
pub fn selected_items(panel: &PanelState) -> (r: Vec<VfsPath>)
    ensures
        r@ == panel.chosen(),
{
    if panel.selected.len() > 0 {
        return clone_paths(&panel.selected);
    }
    let mut out: Vec<VfsPath> = Vec::new();
    match panel.cursor_entry() {
        Some(e) => {
            out.push(e.path.clone());
        },
        None => {},
    }
    proof {
        assert(out@ =~= panel.chosen());
    }
    out
}

/// How far a page key moves the cursor.
pub fn page_size(panel: &PanelState) -> (r: isize)
    ensures
        r == panel.page(),
        r >= 1,
{
    if panel.viewport_height == 0 {
        1
    } else if panel.viewport_height > isize::MAX as usize {
        isize::MAX
    } else {
        panel.viewport_height as isize
    }
}

/// The cursor is on the screen, no row stays empty while entries are hidden
/// above, and a screen that already shows the cursor and is full stays as it
/// is.
pub proof fn law_viewport(offset: int, cursor: int, height: int, len: int)
    requires
        height > 0,
        offset >= 0,
        0 <= cursor < len,
    ensures
        viewport_offset(offset, cursor, height, len) <= cursor < viewport_offset(
            offset,
            cursor,
            height,
            len,
        ) + height,
        viewport_offset(offset, cursor, height, len) == 0 || viewport_offset(
            offset,
            cursor,
            height,
            len,
        ) + height <= len,
        offset <= cursor < offset + height && (offset == 0 || offset + height <= len)
            ==> viewport_offset(offset, cursor, height, len) == offset,
        viewport_offset(viewport_offset(offset, cursor, height, len), cursor, height, len)
            == viewport_offset(offset, cursor, height, len),
{
}

/// Whether no path is in the list twice.
pub open spec fn no_path_twice(paths: Seq<VfsPath>) -> bool {
    forall|i: int, j: int|
        0 <= i < j < paths.len() ==> !path::same_path(
            (#[trigger] paths[i])@,
            (#[trigger] paths[j])@,
        )
}

/// A selection holds no path twice, and toggling changes whether it holds the
/// path.
pub proof fn law_toggle(paths: Seq<VfsPath>, p: VfsPath)
    requires
        no_path_twice(paths),
    ensures
        no_path_twice(toggled(paths, p)),
        has_path(toggled(paths, p), p@) != has_path(paths, p@),
{
    lemma_first_path(paths, p@, 0);
    let at = first_path(paths, p@, 0);
    let after = toggled(paths, p);
    if at >= 0 {
        assert(path::same_path(paths[at]@, p@));
        assert forall|i: int| 0 <= i < after.len() implies !path::same_path(
            (#[trigger] after[i])@,
            p@,
        ) by {
            if i < at {
                assert(after[i] == paths[i]);
                assert(!path::same_path(paths[i]@, paths[at]@));
            } else {
                assert(after[i] == paths[i + 1]);
                assert(!path::same_path(paths[at]@, paths[i + 1]@));
            }
        }
    } else {
        assert(after[paths.len() as int] == p);
        assert forall|i: int, j: int| 0 <= i < j < after.len() implies !path::same_path(
            (#[trigger] after[i])@,
            (#[trigger] after[j])@,
        ) by {
            assert(after[i] == paths[i]);
            if j < paths.len() {
                assert(after[j] == paths[j]);
            }
        }
    }
}

proof fn lemma_first_path(paths: Seq<VfsPath>, p: Seq<char>, from: int)
    requires
        0 <= from <= paths.len(),
    ensures
        first_path(paths, p, from) >= 0 ==> from <= first_path(paths, p, from) < paths.len()
            && path::same_path(paths[first_path(paths, p, from)]@, p),
        first_path(paths, p, from) < 0 ==> forall|i: int|
            from <= i < paths.len() ==> !path::same_path((#[trigger] paths[i])@, p),
    decreases paths.len() - from,
{
    if from < paths.len() && !path::same_path(paths[from]@, p) {
        lemma_first_path(paths, p, from + 1);
    }
}

/// How far two positions are apart.
pub open spec fn distance(a: int, b: int) -> int {
    if a < b {
        b - a
    } else {
        a - b
    }
}

/// A moved cursor is on an entry, and on no other than the one that is nearest
/// to where it was sent.
pub proof fn law_moved_cursor(panel: PanelState, delta: int, j: int)
    requires
        panel.entries@.len() <= usize::MAX,
        0 <= j < panel.entries@.len(),
    ensures
        moved_cursor(panel, delta) < panel.entries@.len(),
        j != moved_cursor(panel, delta) ==> distance(
            moved_cursor(panel, delta) as int,
            panel.cursor + delta,
        ) < distance(j, panel.cursor + delta),
{
}

/// Scrolling is never more than what it takes: no other first row that shows the
/// cursor and leaves no row empty is nearer to the one that was there.
pub proof fn law_viewport_moves_little(offset: int, cursor: int, height: int, len: int, o: int)
    requires
        height > 0,
        offset >= 0,
        0 <= cursor < len,
        o <= cursor < o + height,
        o == 0 || (o > 0 && o + height <= len),
    ensures
        distance(viewport_offset(offset, cursor, height, len), offset) <= distance(o, offset),
{
}

/// Toggling a path leaves every other path in the selection or out of it.
pub proof fn law_toggle_keeps_others(paths: Seq<VfsPath>, p: VfsPath, q: Seq<char>)
    requires
        !path::same_path(p@, q),
    ensures
        has_path(toggled(paths, p), q) == has_path(paths, q),
{
    lemma_first_path(paths, p@, 0);
    let at = first_path(paths, p@, 0);
    let after = toggled(paths, p);
    if has_path(paths, q) {
        let i = choose|i: int| 0 <= i < paths.len() && path::same_path((#[trigger] paths[i])@, q);
        if at < 0 || i < at {
            assert(after[i] == paths[i]);
        } else if i > at {
            assert(after[i - 1] == paths[i]);
        }
    }
    if has_path(after, q) {
        let i = choose|i: int| 0 <= i < after.len() && path::same_path((#[trigger] after[i])@, q);
        if at < 0 {
            if i < paths.len() {
                assert(after[i] == paths[i]);
            }
        } else if i < at {
            assert(after[i] == paths[i]);
        } else {
            assert(after[i] == paths[i + 1]);
        }
    }
}

/// An action works on all that is selected and on nothing else; where nothing is
/// selected, on the entry under the cursor alone.
pub proof fn law_chosen(panel: PanelState, p: Seq<char>)
    ensures
        panel.selected@.len() > 0 ==> has_path(panel.chosen(), p) == has_path(panel.selected@, p),
        panel.selected@.len() == 0 && panel.cursor < panel.entries@.len() ==> has_path(
            panel.chosen(),
            p,
        ) == path::same_path(panel.entries@[panel.cursor as int].path@, p),
        panel.selected@.len() == 0 && panel.cursor >= panel.entries@.len() ==> !has_path(
            panel.chosen(),
            p,
        ),
{
    if panel.selected@.len() == 0 && panel.cursor < panel.entries@.len() {
        let e = panel.entries@[panel.cursor as int];
        assert(panel.chosen()[0] == e.path);
    }
}

/// Two page keys one after the other show adjoining screens: the cursor moves by
/// the height of the screen, and by no less than one entry.
pub proof fn law_page(panel: PanelState)
    requires
        panel.viewport_height <= isize::MAX,
    ensures
        panel.page() >= 1,
        panel.viewport_height >= 1 ==> panel.page() == panel.viewport_height,
        panel.cursor + panel.page() < panel.entries@.len() && panel.entries@.len() <= usize::MAX
            ==> moved_cursor(panel, panel.page()) == panel.cursor + panel.page(),
        panel.cursor >= panel.page() && panel.cursor < panel.entries@.len()
            && panel.entries@.len() <= usize::MAX ==> moved_cursor(panel, -panel.page())
            == panel.cursor - panel.page(),
{
}

} // verus!
