//! "Edit": runs an external editor on the file under the cursor. Local files are
//! edited in place; other files are fetched first and only saved back if the
//! editor changed them.

use std::sync::atomic::{AtomicBool, Ordering};
use std::sync::Arc;

use vstd::prelude::*;

use crate::path;
use crate::path::VfsPath;
use crate::registry::VfsRegistry;
use crate::text;
use crate::text::{joined_text, owned};
use crate::vfs::{FileTime, Location};
use crate::view;

verus! {

/// Lets the thread that reads the keyboard be told not to consume keystrokes
/// while an external editor has the terminal. Clones share the flag.
pub struct InputGate(Arc<AtomicBool>);

impl InputGate {
    /// Whether the flag was made unset.
    pub closed spec fn starts(&self) -> bool {
        call_ensures(AtomicBool::new, (false,), *self.0)
    }

    /// Whether the flag has been given the value `to`.
    pub closed spec fn sets(&self, to: bool) -> bool {
        call_ensures(AtomicBool::store, (&*self.0, to, Ordering::Release), ())
    }

    /// Whether a look at the flag has found `r`.
    pub closed spec fn finds(&self, r: bool) -> bool {
        call_ensures(AtomicBool::load, (&*self.0, Ordering::Acquire), r)
    }

    /// Lets keystrokes be read. What a later look at the shared flag finds depends
    /// on every thread that holds a clone.
    pub fn new() -> (r: Self)
        ensures
            r.starts(),
    {
        InputGate(Arc::new(AtomicBool::new(false)))
    }

    /// Whether keystrokes are to be left alone, as threads with a clone have asked.
    pub fn is_paused(&self) -> (r: bool)
        ensures
            self.finds(r),
    {
        self.0.load(Ordering::Acquire)
    }

    /// Has keystrokes left alone.
    pub fn pause(&self)
        ensures
            self.sets(true),
    {
        self.0.store(true, Ordering::Release);
    }

    /// Has keystrokes read again.
    pub fn resume(&self)
        ensures
            self.sets(false),
    {
        self.0.store(false, Ordering::Release);
    }
}

impl Clone for InputGate {
    fn clone(&self) -> (r: Self)
        ensures
            r == *self,
    {
        InputGate(self.0.clone())
    }
}

impl Default for InputGate {
    fn default() -> (r: Self)
        ensures
            r.starts(),
    {
        InputGate::new()
    }
}

/// A file to edit.
#[derive(Debug)]
pub struct EditTarget {
    pub location: Location,
    pub path: VfsPath,
}

/// Whether a file can be run as a program.
pub open spec fn can_be_run(is_file: bool, mode: u32) -> bool {
    is_file && mode & 0o111 != 0
}

/// Whether a file can be run as a program.
pub fn is_executable(is_file: bool, mode: u32) -> (r: bool)
    ensures
        r == can_be_run(is_file, mode),
        r == (is_file && mode & 0o111 != 0),
{
    is_file && mode & 0o111 != 0
}

/// Where a program of this name is looked for, in order.
pub fn which(dirs: &Vec<VfsPath>, name: &str) -> (r: Vec<VfsPath>)
    ensures
        r@.len() == dirs@.len(),
        forall|i: int|
            0 <= i < dirs@.len() ==> (#[trigger] r@[i])@ == path::joined(dirs@[i]@, name@),
{
    let mut out: Vec<VfsPath> = Vec::new();
    let mut i: usize = 0;
    while i < dirs.len()
        invariant
            i <= dirs@.len(),
            out@.len() == i,
            forall|k: int|
                0 <= k < i ==> (#[trigger] out@[k])@ == path::joined(dirs@[k]@, name@),
        decreases dirs.len() - i,
    {
        out.push(dirs[i].join(name));
        i += 1;
    }
    out
}

/// The editors that are tried: `nano`, `pico` and `vi`, in this order.
pub open spec fn editor_name(i: int) -> Seq<char> {
    if i == 0 {
        "nano"@
    } else if i == 1 {
        "pico"@
    } else {
        "vi"@
    }
}

/// Where editors are looked for, in order: the first editor in all directories,
/// then the second, then the third.
pub fn editor_paths(dirs: &Vec<VfsPath>) -> (r: Vec<VfsPath>)
    ensures
        r@.len() == 3 * dirs@.len(),
        forall|k: int, i: int|
            0 <= k < 3 && 0 <= i < dirs@.len() ==> #[trigger] path::joined(
                dirs@[i]@,
                editor_name(k),
            ) == r@[k * dirs@.len() + i]@,
{
    let a: Vec<VfsPath> = which(dirs, "nano");
    let b: Vec<VfsPath> = which(dirs, "pico");
    let c: Vec<VfsPath> = which(dirs, "vi");
    let ghost n = dirs@.len() as int;
    let ghost (sa, sb, sc) = (a@, b@, c@);
    let mut out: Vec<VfsPath> = a;
    let mut b: Vec<VfsPath> = b;
    let mut c: Vec<VfsPath> = c;
    out.append(&mut b);
    out.append(&mut c);
    proof {
        assert(out@ =~= sa + sb + sc);
        assert forall|k: int, i: int| 0 <= k < 3 && 0 <= i < n implies #[trigger] path::joined(
            dirs@[i]@,
            editor_name(k),
        ) == out@[k * n + i]@ by {
            if k == 0 {
                assert(out@[i] == sa[i]);
                assert(0 * n + i == i);
            } else if k == 1 {
                assert(out@[n + i] == sb[i]);
                assert(1 * n + i == n + i);
            } else {
                assert(out@[n + n + i] == sc[i]);
                assert(2 * n + i == n + n + i);
            }
        }
    }
    out
}

/// The position of the first flag that is set, or -1.
pub open spec fn first_set(flags: Seq<bool>, from: int) -> int
    decreases flags.len() - from,
{
    if from < 0 || from >= flags.len() {
        -1
    } else if flags[from] {
        from
    } else {
        first_set(flags, from + 1)
    }
}

/// The editor: of the paths that were looked at, the first that can be run.
pub open spec fn chosen_editor(paths: Seq<VfsPath>, executable: Seq<bool>) -> Option<VfsPath> {
    let at = first_set(executable, 0);
    if at >= 0 {
        Some(paths[at])
    } else {
        None
    }
}

/// The editor: of the paths that were looked at, the first that can be run.
pub fn find_editor(paths: &Vec<VfsPath>, executable: &Vec<bool>) -> (r: Option<VfsPath>)
    requires
        executable@.len() == paths@.len(),
    ensures
        r == chosen_editor(paths@, executable@),
        match first_set(executable@, 0) {
            at => if at >= 0 {
                r == Some(paths@[at])
            } else {
                r is None
            },
        },
{
    let mut i: usize = 0;
    while i < executable.len()
        invariant
            i <= executable@.len(),
            executable@.len() == paths@.len(),
            first_set(executable@, 0) == first_set(executable@, i as int),
        decreases executable.len() - i,
    {
        if executable[i] {
            return Some(paths[i].clone());
        }
        i += 1;
    }
    None
}

/// When a file was last changed and how long it is, if that can be told.
pub type Snapshot = Option<(FileTime, u64)>;

/// Whether a file has changed between two looks at it.
pub fn has_changed(before: &Snapshot, after: &Snapshot) -> (r: bool)
    ensures
        r == (*before != *after),
{
    match (before, after) {
        (None, None) => false,
        (Some(a), Some(b)) => !(a.0 == b.0 && a.1 == b.1),
        _ => true,
    }
}

/// How far an edit has got.
#[derive(Debug)]
pub enum EditStage {
    /// Look for an editor.
    FindEditor,
    /// Fetch the target into a temporary file whose name ends in `suffix`.
    Fetch { editor: VfsPath, suffix: String },
    /// Run the editor on `file`, and look at the file before and after.
    Run { editor: VfsPath, file: VfsPath },
    /// Save `file` back as the target.
    Save { file: VfsPath },
    /// List both panels again.
    Reload,
    /// It is over.
    Over,
}

/// An edit under way.
#[derive(Debug)]
pub struct Editing {
    pub target: EditTarget,
    pub stage: EditStage,
}

/// How the name of a temporary copy of a file ends: like the file's.
pub open spec fn temp_suffix(p: Seq<char>) -> Seq<char> {
    match path::extension_of(p) {
        Some(ext) => "."@ + ext,
        None => Seq::empty(),
    }
}

fn suffix_for(p: &VfsPath) -> (r: String)
    ensures
        r@ == temp_suffix(p@),
{
    match p.extension() {
        Some(ext) => joined_text(".", ext.as_str()),
        None => {
            let empty: String = String::new();
            proof {
                assert(empty@ =~= Seq::<char>::empty());
            }
            empty
        },
    }
}

/// Starts the edit of a file.
pub fn edit_file(target: EditTarget) -> (r: Editing)
    ensures
        r.target == target,
        r.stage is FindEditor,
{
    Editing { target, stage: EditStage::FindEditor }
}

impl Editing {
    /// Goes on after the search for an editor: a local file is edited where it
    /// is, any other is fetched first.
    pub fn on_editor(
        &mut self,
        found: Option<VfsPath>,
        registry: &VfsRegistry,
        status: &mut Option<String>,
    )
        requires
            old(self).stage is FindEditor,
        ensures
            editor_chosen(
                *old(self),
                found,
                registry.failure(old(self).target.location),
                *final(self),
            ),
            final(self).target == old(self).target,
            match found {
                None => {
                    &&& final(self).stage is Over
                    &&& text::says(*final(status), "no editor found on PATH (tried nano, pico, vi)"@)
                },
                Some(editor) => match registry.failure(old(self).target.location) {
                    Some(why) => {
                        &&& final(self).stage is Over
                        &&& text::says(*final(status), "edit failed: "@ + why)
                    },
                    None => {
                        &&& *final(status) == *old(status)
                        &&& if old(self).target.location is Local {
                            final(self).stage == (EditStage::Run {
                                editor,
                                file: old(self).target.path,
                            })
                        } else {
                            final(self).stage matches EditStage::Fetch { editor: e, suffix }
                                && e == editor && suffix@ == temp_suffix(old(self).target.path@)
                        }
                    },
                },
            },
    {
        let editor: VfsPath = match found {
            Some(editor) => editor,
            None => {
                *status = Some(owned("no editor found on PATH (tried nano, pico, vi)"));
                self.stage = EditStage::Over;
                return;
            },
        };
        match registry.resolve(&self.target.location) {
            Err(e) => {
                *status = Some(joined_text("edit failed: ", e.message().as_str()));
                self.stage = EditStage::Over;
            },
            Ok(_) => {
                self.stage = if matches!(self.target.location, Location::Local) {
                    EditStage::Run { editor, file: self.target.path.clone() }
                } else {
                    EditStage::Fetch { editor, suffix: suffix_for(&self.target.path) }
                };
            },
        }
    }

    /// Goes on after a file has been fetched.
    pub fn on_fetched(&mut self, fetched: Result<VfsPath, String>, status: &mut Option<String>)
        requires
            old(self).stage is Fetch,
        ensures
            was_fetched(*old(self), fetched, *final(self)),
            final(self).target == old(self).target,
            match fetched {
                Ok(file) => {
                    &&& *final(status) == *old(status)
                    &&& final(self).stage == (EditStage::Run {
                        editor: old(self).stage->Fetch_editor,
                        file,
                    })
                },
                Err(why) => {
                    &&& final(self).stage is Over
                    &&& text::says(*final(status), "could not fetch file for editing: "@ + why@)
                },
            },
    {
        let mut stage = EditStage::Over;
        std::mem::swap(&mut self.stage, &mut stage);
        match (fetched, stage) {
            (Ok(file), EditStage::Fetch { editor, suffix: _ }) => {
                self.stage = EditStage::Run { editor, file };
            },
            (Err(why), _) => {
                *status = Some(joined_text("could not fetch file for editing: ", why.as_str()));
            },
            _ => {},
        }
    }

    /// Goes on after the editor has run. A file that was fetched is saved back
    /// if, and only if, it has changed.
    pub fn on_run(
        &mut self,
        result: Result<(), String>,
        before: &Snapshot,
        after: &Snapshot,
        status: &mut Option<String>,
    )
        requires
            old(self).stage is Run,
        ensures
            was_run(*old(self), result, *before, *after, *final(self)),
            final(self).target == old(self).target,
            match result {
                Err(why) => {
                    &&& final(self).stage is Over
                    &&& text::says(
                        *final(status),
                        "failed to launch "@ + old(self).stage->Run_editor@ + ": "@ + why@,
                    )
                },
                Ok(_) => {
                    &&& *final(status) == *old(status)
                    &&& final(self).stage == (if !(old(self).target.location is Local) && *before
                        != *after {
                        EditStage::Save { file: old(self).stage->Run_file }
                    } else {
                        EditStage::Reload
                    })
                },
            },
    {
        let mut stage = EditStage::Over;
        std::mem::swap(&mut self.stage, &mut stage);
        match stage {
            EditStage::Run { editor, file } => match result {
                Err(why) => {
                    let head: String = joined_text("failed to launch ", editor.as_str());
                    let head: String = joined_text(head.as_str(), ": ");
                    *status = Some(joined_text(head.as_str(), why.as_str()));
                },
                Ok(_) => {
                    self.stage = if !matches!(self.target.location, Location::Local)
                        && has_changed(before, after) {
                        EditStage::Save { file }
                    } else {
                        EditStage::Reload
                    };
                },
            },
            _ => {},
        }
    }

    /// Goes on after the file has been saved back.
    pub fn on_saved(&mut self, result: Result<(), String>, status: &mut Option<String>)
        requires
            old(self).stage is Save,
        ensures
            final(self).target == old(self).target,
            final(self).stage is Reload,
            match result {
                Ok(_) => *final(status) == *old(status),
                Err(why) => text::says(*final(status), "failed to save changes back: "@ + why@),
            },
    {
        self.stage = EditStage::Reload;
        match result {
            Ok(_) => {},
            Err(why) => {
                *status = Some(joined_text("failed to save changes back: ", why.as_str()));
            },
        }
    }

    /// Ends the edit once both panels have been listed again.
    pub fn on_reloaded(&mut self)
        requires
            old(self).stage is Reload,
        ensures
            final(self).target == old(self).target,
            final(self).stage is Over,
    {
        self.stage = EditStage::Over;
    }
}

/// Whether an edit goes on from the search for an editor: on the file itself where
/// that is local, and else on a copy that is to be fetched.
pub open spec fn editor_chosen(
    before: Editing,
    found: Option<VfsPath>,
    failure: Option<Seq<char>>,
    after: Editing,
) -> bool {
    &&& after.target == before.target
    &&& if found is None || failure is Some {
        after.stage is Over
    } else if before.target.location is Local {
        after.stage == (EditStage::Run { editor: found->0, file: before.target.path })
    } else {
        after.stage matches EditStage::Fetch { editor, suffix } && editor == found->0
    }
}

/// Whether an edit goes on from the fetching of a copy: with the same editor on
/// that copy.
pub open spec fn was_fetched(
    before: Editing,
    fetched: Result<VfsPath, String>,
    after: Editing,
) -> bool {
    &&& after.target == before.target
    &&& match fetched {
        Ok(file) => after.stage == (EditStage::Run { editor: before.stage->Fetch_editor, file }),
        Err(_) => after.stage is Over,
    }
}

/// Whether an edit goes on from the run of the editor.
pub open spec fn was_run(
    before: Editing,
    result: Result<(), String>,
    earlier: Snapshot,
    later: Snapshot,
    after: Editing,
) -> bool {
    &&& after.target == before.target
    &&& match result {
        Err(_) => after.stage is Over,
        Ok(_) => if before.target.location is Local || earlier == later {
            after.stage is Reload
        } else {
            after.stage == (EditStage::Save { file: before.stage->Run_file })
        },
    }
}

/// A local file is edited in place and never fetched or saved back. Any other is
/// fetched, the editor works on the copy, and the copy is saved back as the very
/// file that was asked for if the editor changed its length or its time, and not
/// if it left both alone.
pub proof fn law_edit(
    start: Editing,
    found: Option<VfsPath>,
    failure: Option<Seq<char>>,
    chosen: Editing,
    fetched: Result<VfsPath, String>,
    ready: Editing,
    result: Result<(), String>,
    earlier: Snapshot,
    later: Snapshot,
    done: Editing,
)
    requires
        start.stage is FindEditor,
        editor_chosen(start, found, failure, chosen),
        chosen.stage is Fetch ==> was_fetched(chosen, fetched, ready),
        !(chosen.stage is Fetch) ==> ready == chosen,
        ready.stage is Run ==> was_run(ready, result, earlier, later, done),
        !(ready.stage is Run) ==> done == ready,
    ensures
        done.target == start.target,
        start.target.location is Local ==> !(chosen.stage is Fetch) && !(done.stage is Save),
        start.target.location is Local && found is Some && failure is None ==> ready.stage
            == (EditStage::Run { editor: found->0, file: start.target.path }),
        !(start.target.location is Local) && found is Some && failure is None ==> (fetched matches
            Ok(copy) ==> {
            &&& ready.stage == (EditStage::Run { editor: found->0, file: copy })
            &&& result is Ok && earlier != later ==> done.stage == (EditStage::Save { file: copy })
            &&& result is Ok && earlier == later ==> done.stage is Reload
        }),
        found is None ==> done.stage is Over,
        result is Err ==> !(done.stage is Save),
{
}

/// The editor is the first of those that were looked for that can be run.
pub proof fn law_first_set(flags: Seq<bool>, i: int)
    requires
        0 <= i < flags.len(),
        flags[i],
    ensures
        0 <= first_set(flags, 0) <= i,
        flags[first_set(flags, 0)],
        forall|k: int| 0 <= k < first_set(flags, 0) ==> !(#[trigger] flags[k]),
{
    lemma_first_set(flags, 0, i);
}

proof fn lemma_first_set(flags: Seq<bool>, from: int, i: int)
    requires
        0 <= from <= i < flags.len(),
        flags[i],
    ensures
        from <= first_set(flags, from) <= i,
        flags[first_set(flags, from)],
        forall|k: int| from <= k < first_set(flags, from) ==> !(#[trigger] flags[k]),
    decreases i - from,
{
    if !flags[from] {
        lemma_first_set(flags, from + 1, i);
    }
}

/// A copy of a file has a name that ends like the file's, so that the editor treats
/// it alike.
pub proof fn law_copy_is_named_alike(p: Seq<char>, ext: Seq<char>)
    ensures
        path::extension_of(p) == Some(ext) ==> temp_suffix(p).len() == ext.len() + 1 && temp_suffix(
            p,
        )[0] == '.' && temp_suffix(p).skip(1) == ext,
        path::extension_of(p) is None ==> temp_suffix(p).len() == 0,
{
    reveal_strlit(".");
    assert(("."@ + ext).skip(1) =~= ext);
}

/// A file can be run if it is one and its owner, its group or anybody else may run
/// it, as the letters of its permissions tell.
pub proof fn law_can_be_run(is_file: bool, mode: u32)
    ensures
        can_be_run(is_file, mode) <==> is_file && (view::perms_text(Some(mode))[2] == 'x'
            || view::perms_text(Some(mode))[5] == 'x' || view::perms_text(Some(mode))[8] == 'x'),
{
    view::law_permissions(mode);
    assert(mode & 0o111 != 0 <==> mode & 0o100 != 0 || mode & 0o010 != 0 || mode & 0o001 != 0)
        by (bit_vector);
}

/// The editor that is used can be run and none before it can; there is none exactly
/// if none of them can.
pub proof fn law_editor(paths: Seq<VfsPath>, executable: Seq<bool>, i: int)
    requires
        executable.len() == paths.len(),
        0 <= i < paths.len(),
    ensures
        executable[i] && (forall|k: int| 0 <= k < i ==> !(#[trigger] executable[k]))
            ==> chosen_editor(paths, executable) == Some(paths[i]),
        (forall|k: int| 0 <= k < executable.len() ==> !(#[trigger] executable[k]))
            ==> chosen_editor(paths, executable) is None,
{
    if executable[i] {
        law_first_set(executable, i);
    }
    if forall|k: int| 0 <= k < executable.len() ==> !(#[trigger] executable[k]) {
        lemma_none_set(executable, 0);
    }
}

proof fn lemma_none_set(flags: Seq<bool>, from: int)
    requires
        0 <= from <= flags.len(),
        forall|k: int| 0 <= k < flags.len() ==> !(#[trigger] flags[k]),
    ensures
        first_set(flags, from) < 0,
    decreases flags.len() - from,
{
    if from < flags.len() {
        lemma_none_set(flags, from + 1);
    }
}

} // verus!
