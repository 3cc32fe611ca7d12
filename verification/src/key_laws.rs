//! What holds of the keys while browsing, typing and filling in forms, and of the
//! ends of jobs.

use vstd::prelude::*;

use crate::actions;
use crate::actions::{Effect, JobWork};
use crate::app;
use crate::app::{App, PaneSide};
use crate::app_laws;
use crate::auth::AuthMethod;
use crate::config;
use crate::job::{JobEvent, JobId, JobOutcome, JobProgress, SyncPlan};
use crate::keymap::{Action, KeyCode, Keymap};
use crate::mode::{
    ConfirmPurpose, ConnectForm, EditableText, JobKind, Mode, TextInputPrompt, TextInputPurpose,
};
use crate::numbers;
use crate::panel;
use crate::panel::PanelState;
use crate::path;
use crate::text;
use crate::vfs::{EntryMeta, Location};

verus! {

/// Whether no action is bound to a key.
pub open spec fn is_free(keymap: Keymap, key: KeyCode) -> bool {
    &&& keymap.quit != key
    &&& keymap.edit != key
    &&& keymap.sync != key
    &&& keymap.copy != key
    &&& keymap.move_items != key
    &&& keymap.mkdir != key
    &&& keymap.delete != key
    &&& keymap.connect != key
    &&& keymap.help != Some(key)
}

/// Whether a key is pressed in the panels and nothing is bound to it, so that it
/// does what it always does.
pub open spec fn is_pressed(
    pre: App,
    key: KeyCode,
    user: Seq<char>,
    post: App,
    effects: Seq<Effect>,
) -> bool {
    &&& pre.mode is Browsing
    &&& is_free(pre.keymap, key)
    &&& actions::key_handled(pre, key, user, post, effects)
}

/// Whether a key is pressed in the panels that is bound to exactly one action.
pub open spec fn is_asked(
    pre: App,
    action: Action,
    user: Seq<char>,
    post: App,
    effects: Seq<Effect>,
    key: KeyCode,
) -> bool {
    &&& pre.mode is Browsing
    &&& pre.keymap.key_of(action) == Some(key)
    &&& forall|other: Action| #[trigger] pre.keymap.key_of(other) == Some(key) ==> other == action
    &&& actions::key_handled(pre, key, user, post, effects)
}

/// The panel that the keyboard works on.
pub open spec fn here(a: App) -> PanelState {
    if a.active == PaneSide::Left {
        a.left
    } else {
        a.right
    }
}

/// The panel across from it.
pub open spec fn there(a: App) -> PanelState {
    if a.active == PaneSide::Left {
        a.right
    } else {
        a.left
    }
}

/// Tab hands the keyboard to the other panel and touches nothing else, so that a
/// second one hands it back.
pub proof fn law_tab(pre: App, user: Seq<char>, post: App, effects: Seq<Effect>)
    requires
        is_pressed(pre, KeyCode::Tab, user, post, effects),
    ensures
        post.active != pre.active,
        post.left == pre.left,
        post.right == pre.right,
        here(post) == there(pre),
        there(post) == here(pre),
        effects.len() == 0,
{
}

/// The keys that move the cursor move it by one entry or by one screen, and never
/// past an end; what the panel shows and what is selected stay as they are.
pub proof fn law_cursor_keys(
    pre: App,
    key: KeyCode,
    user: Seq<char>,
    post: App,
    effects: Seq<Effect>,
    by: int,
)
    requires
        is_pressed(pre, key, user, post, effects),
        here(pre).cursor < here(pre).entries@.len() <= usize::MAX,
        here(pre).viewport_height <= isize::MAX,
        match key {
            KeyCode::Up => by == -1,
            KeyCode::Char('k') => by == -1,
            KeyCode::Down => by == 1,
            KeyCode::Char('j') => by == 1,
            KeyCode::PageUp => by == -here(pre).viewport_height && by < 0,
            KeyCode::PageDown => by == here(pre).viewport_height && by > 0,
            _ => false,
        },
    ensures
        post.active == pre.active,
        0 <= here(pre).cursor + by < here(pre).entries@.len() ==> here(post).cursor == here(
            pre,
        ).cursor + by,
        here(pre).cursor + by < 0 ==> here(post).cursor == 0,
        here(pre).cursor + by >= here(pre).entries@.len() ==> here(post).cursor == here(
            pre,
        ).entries@.len() - 1,
        here(post).entries == here(pre).entries,
        here(post).selected == here(pre).selected,
        here(post).cwd == here(pre).cwd,
        here(post).location == here(pre).location,
        there(post) == there(pre),
        effects.len() == 0,
{
}

/// The space bar changes whether the entry under the cursor is selected, changes
/// that of no other path, and goes on to the next entry if there is one.
pub proof fn law_space(
    pre: App,
    user: Seq<char>,
    post: App,
    effects: Seq<Effect>,
    entry: EntryMeta,
    p: Seq<char>,
)
    requires
        is_pressed(pre, KeyCode::Char(' '), user, post, effects),
        panel::no_path_twice(here(pre).selected@),
        here(pre).cursor < here(pre).entries@.len() <= usize::MAX,
        entry == here(pre).entries@[here(pre).cursor as int],
    ensures
        path::same_path(entry.path@, p) ==> panel::has_path(here(post).selected@, p)
            != panel::has_path(here(pre).selected@, p),
        !path::same_path(entry.path@, p) ==> panel::has_path(here(post).selected@, p)
            == panel::has_path(here(pre).selected@, p),
        here(pre).cursor + 1 < here(pre).entries@.len() ==> here(post).cursor == here(pre).cursor
            + 1,
        here(post).entries == here(pre).entries,
        there(post) == there(pre),
        effects.len() == 0,
{
    let before = here(pre).selected@;
    let after = here(post).selected@;
    panel::law_toggle(before, entry.path);
    if path::same_path(entry.path@, p) {
        assert forall|paths: Seq<path::VfsPath>| panel::has_path(paths, p) == #[trigger]
            panel::has_path(paths, entry.path@) by {
            if panel::has_path(paths, p) {
                let i = choose|i: int|
                    0 <= i < paths.len() && path::same_path((#[trigger] paths[i])@, p);
                assert(path::same_path(paths[i]@, entry.path@));
            }
            if panel::has_path(paths, entry.path@) {
                let i = choose|i: int|
                    0 <= i < paths.len() && path::same_path((#[trigger] paths[i])@, entry.path@);
                assert(path::same_path(paths[i]@, p));
            }
        }
        assert(panel::has_path(before, entry.path@) == panel::has_path(before, p));
        assert(panel::has_path(after, entry.path@) == panel::has_path(after, p));
    } else {
        panel::law_toggle_keeps_others(before, entry.path, p);
    }
}

/// Enter on a directory makes it the panel's directory, with the cursor at its top,
/// and has it listed. Enter on a file whose name ends like that of an archive, in
/// whatever case, has it opened by a job, and on any other file does nothing.
pub proof fn law_enter(
    pre: App,
    user: Seq<char>,
    post: App,
    effects: Seq<Effect>,
    entry: EntryMeta,
    name: Seq<char>,
)
    requires
        is_pressed(pre, KeyCode::Enter, user, post, effects),
        here(pre).cursor < here(pre).entries@.len(),
        entry == here(pre).entries@[here(pre).cursor as int],
        path::components(entry.path@).len() > 0,
        name == path::components(entry.path@).last(),
        path::is_normal(name),
    ensures
        entry.kind is Dir ==> {
            &&& here(post).cwd == entry.path
            &&& here(post).location == here(pre).location
            &&& here(post).cursor == 0
            &&& post.mode is Browsing
            &&& effects.len() == 1
            &&& effects[0] matches Effect::Reload { side, select }
            &&& side == pre.active
            &&& select is None
        },
        !(entry.kind is Dir) && (text::has_suffix(text::ascii_lower(name), ".zip"@)
            || text::has_suffix(text::ascii_lower(name), ".tar"@) || text::has_suffix(
            text::ascii_lower(name),
            ".tar.zst"@,
        ) || text::has_suffix(text::ascii_lower(name), ".tzst"@)) ==> {
            &&& effects.len() == 1
            &&& app_laws::work_of(effects[0]) matches Some(JobWork::OpenArchive { location })
            &&& location == (Location::Archive {
                base: Box::new(here(pre).location),
                archive_path: entry.path,
            })
            &&& here(post) == here(pre)
            &&& post.mode is Progress
        },
        !(entry.kind is Dir) && !text::has_suffix(text::ascii_lower(name), ".zip"@)
            && !text::has_suffix(text::ascii_lower(name), ".tar"@) && !text::has_suffix(
            text::ascii_lower(name),
            ".tar.zst"@,
        ) && !text::has_suffix(text::ascii_lower(name), ".tzst"@) ==> effects.len() == 0 && post
            == pre,
        there(post) == there(pre),
{
}

/// Backspace leads to the directory above, where the directory that was left is to
/// be under the cursor; from the root of an archive it leads to the directory that
/// the archive's file is in, where that file is to be under the cursor.
pub proof fn law_backspace(
    pre: App,
    key: KeyCode,
    user: Seq<char>,
    post: App,
    effects: Seq<Effect>,
)
    requires
        is_pressed(pre, key, user, post, effects),
        key == KeyCode::Backspace || key == KeyCode::Left,
    ensures
        path::components(here(pre).cwd@).len() > 0 ==> {
            &&& path::components(here(post).cwd@) == path::components(here(pre).cwd@).drop_last()
            &&& here(post).location == here(pre).location
            &&& effects.len() == 1
            &&& effects[0] matches Effect::Reload { side, select }
            &&& side == pre.active
            &&& path::is_normal(path::components(here(pre).cwd@).last()) ==> text::says(
                select,
                path::components(here(pre).cwd@).last(),
            )
        },
        here(pre).cwd@ == "/"@ ==> (here(pre).location matches Location::Archive {
            base,
            archive_path,
        } ==> (path::components(archive_path@).len() > 0 && path::is_normal(
            path::components(archive_path@).last(),
        ) ==> {
            &&& here(post).location == *base
            &&& path::components(here(post).cwd@) == path::components(archive_path@).drop_last()
            &&& effects.len() == 1
            &&& effects[0] matches Effect::Reload { side, select }
            &&& side == pre.active
            &&& text::says(select, path::components(archive_path@).last())
        })),
        here(pre).cwd@ == "/"@ && !(here(pre).location is Archive) ==> here(post) == here(pre)
            && effects.len() == 0,
        there(post) == there(pre),
{
    app_laws::lemma_root_has_no_components();
}

/// What the copy, move, delete, edit and sync keys are about: the selection, or
/// without one the entry under the cursor.
pub open spec fn is_about(items: Seq<path::VfsPath>, p: PanelState) -> bool {
    if p.selected@.len() > 0 {
        items == p.selected@
    } else {
        &&& p.cursor < p.entries@.len()
        &&& items.len() == 1
        &&& items[0] == p.entries@[p.cursor as int].path
    }
}

/// Whether a panel has something to work on.
pub open spec fn has_something(p: PanelState) -> bool {
    p.selected@.len() > 0 || p.cursor < p.entries@.len()
}

/// The copy key asks where to copy what is selected, and suggests the other panel's
/// directory.
pub proof fn law_copy_key(pre: App, user: Seq<char>, post: App, effects: Seq<Effect>, key: KeyCode)
    requires
        is_asked(pre, Action::Copy, user, post, effects, key),
    ensures
        effects.len() == 0,
        !has_something(here(pre)) ==> post == pre,
        has_something(here(pre)) ==> {
            &&& post.mode matches Mode::TextInput(prompt)
            &&& prompt.text.value@ == there(pre).cwd@
            &&& prompt.text.cursor == there(pre).cwd@.len()
            &&& prompt.purpose matches TextInputPurpose::CopyToDir { items }
            &&& is_about(items@, here(pre))
        },
        post.left == pre.left,
        post.right == pre.right,
{
    lemma_is_asked(pre, Action::Copy, key);
}

/// The move key asks for a directory for what is selected and suggests the other
/// panel's; for the entry under the cursor it asks for a path and suggests the
/// entry's own.
pub proof fn law_move_key(pre: App, user: Seq<char>, post: App, effects: Seq<Effect>, key: KeyCode)
    requires
        is_asked(pre, Action::Move, user, post, effects, key),
    ensures
        effects.len() == 0,
        !has_something(here(pre)) ==> post == pre,
        here(pre).selected@.len() > 0 ==> {
            &&& post.mode matches Mode::TextInput(prompt)
            &&& prompt.text.value@ == there(pre).cwd@
            &&& prompt.purpose matches TextInputPurpose::MoveToDir { items }
            &&& items@ == here(pre).selected@
        },
        here(pre).selected@.len() == 0 && here(pre).cursor < here(pre).entries@.len() ==> {
            let entry = here(pre).entries@[here(pre).cursor as int];
            &&& post.mode matches Mode::TextInput(prompt)
            &&& prompt.text.value@ == path::joined(here(pre).cwd@, entry.name@)
            &&& prompt.purpose matches TextInputPurpose::RenameOrMove { item }
            &&& item == entry.path
        },
        post.left == pre.left,
        post.right == pre.right,
{
    lemma_is_asked(pre, Action::Move, key);
}

/// The delete key asks before it deletes what is selected, unless the config says
/// not to ask; then a job deletes it at once.
pub proof fn law_delete_key(
    pre: App,
    user: Seq<char>,
    post: App,
    effects: Seq<Effect>,
    key: KeyCode,
)
    requires
        is_asked(pre, Action::Delete, user, post, effects, key),
    ensures
        !has_something(here(pre)) ==> post == pre && effects.len() == 0,
        has_something(here(pre)) && pre.config.general.confirm_delete ==> {
            &&& effects.len() == 0
            &&& post.mode matches Mode::Confirm(dialog)
            &&& dialog.purpose matches ConfirmPurpose::Delete { items }
            &&& is_about(items@, here(pre))
        },
        has_something(here(pre)) && !pre.config.general.confirm_delete ==> {
            &&& effects.len() == 1
            &&& app_laws::work_of(effects[0]) matches Some(JobWork::Delete { location, items })
            &&& location == here(pre).location
            &&& is_about(items@, here(pre))
        },
        post.left == pre.left,
        post.right == pre.right,
{
    lemma_is_asked(pre, Action::Delete, key);
}

/// The edit key asks for the file under the cursor to be edited where the panel is;
/// a directory is not edited.
pub proof fn law_edit_key(pre: App, user: Seq<char>, post: App, effects: Seq<Effect>, key: KeyCode)
    requires
        is_asked(pre, Action::Edit, user, post, effects, key),
        here(pre).cursor < here(pre).entries@.len(),
    ensures
        effects.len() == 0,
        ({
            let entry = here(pre).entries@[here(pre).cursor as int];
            if entry.kind is Dir {
                post == pre
            } else {
                &&& post.edit_request matches Some(target)
                &&& target.location == here(pre).location
                &&& target.path == entry.path
            }
        }),
{
    lemma_is_asked(pre, Action::Edit, key);
}

/// The sync key has a job scan from the active panel's directory to the other
/// panel's; extraneous files come into it only if the config says so.
pub proof fn law_sync_key(pre: App, user: Seq<char>, post: App, effects: Seq<Effect>, key: KeyCode)
    requires
        is_asked(pre, Action::Sync, user, post, effects, key),
        pre.registry.failure(here(pre).location) is None,
        pre.registry.failure(there(pre).location) is None,
    ensures
        effects.len() == 1,
        app_laws::work_of(effects[0]) matches Some(
            JobWork::ScanSync { src, dst, src_root, dst_root, delete_extraneous },
        ) && src == here(pre).location && dst == there(pre).location && src_root == here(pre).cwd
            && dst_root == there(pre).cwd && delete_extraneous
            == pre.config.general.sync_delete_extraneous,
        post.left == pre.left,
        post.right == pre.right,
{
    lemma_is_asked(pre, Action::Sync, key);
}

/// The other action keys: one asks for a directory's name, one opens a form with
/// the user's name in it, one shows the help and one ends the program.
pub proof fn law_other_keys(
    pre: App,
    action: Action,
    user: Seq<char>,
    post: App,
    effects: Seq<Effect>,
    key: KeyCode,
)
    requires
        is_asked(pre, action, user, post, effects, key),
    ensures
        action is Mkdir ==> {
            &&& post.mode matches Mode::TextInput(prompt)
            &&& prompt.text.value@.len() == 0
            &&& prompt.purpose is Mkdir
        },
        action is Connect ==> {
            &&& post.mode matches Mode::Connect(form)
            &&& form.fields@.len() == 4
            &&& form.fields@[2].text.value@ == user
            &&& form.fields@[3].text.value@.len() == 0
            &&& form.fields@[3].secret
            &&& numbers::parsed(form.fields@[1].text.value@, 10, 65535) == Some(22nat)
            &&& form.saved@.len() == pre.config.profiles@.len()
            &&& forall|i: int|
                0 <= i < form.saved@.len() ==> (#[trigger] form.saved@[i]).host
                    == pre.config.profiles@[i].host && form.saved@[i].port
                    == pre.config.profiles@[i].port && form.saved@[i].username
                    == pre.config.profiles@[i].username
        },
        action is Help ==> post.mode is Help,
        action is Quit ==> post.should_quit,
        !(action is Quit) ==> post.should_quit == pre.should_quit,
        action is Mkdir || action is Connect || action is Help || action is Quit ==> effects.len()
            == 0 && post.left == pre.left && post.right == pre.right,
{
    lemma_is_asked(pre, action, key);
    reveal_strlit("");
    assert(""@ =~= Seq::<char>::empty());
    reveal_strlit("22");
    assert(numbers::decimal(22) =~= "22"@) by {
        reveal_with_fuel(numbers::decimal, 3);
    }
    numbers::lemma_decimal_reads_back(22, 65535);
}

proof fn lemma_is_asked(pre: App, action: Action, key: KeyCode)
    requires
        pre.keymap.key_of(action) == Some(key),
        forall|other: Action| #[trigger] pre.keymap.key_of(other) == Some(key) ==> other == action,
    ensures
        pre.keymap.lookup(key) == Some(action),
{
    crate::keymap::law_lookup(pre.keymap, key);
    match pre.keymap.lookup(key) {
        Some(found) => {
            assert(pre.keymap.key_of(found) == Some(key));
        },
        None => {
            assert(pre.keymap.key_of(action) != Some(key));
        },
    }
}

/// A line of text as the parts before and behind the cursor.
pub open spec fn is_split(line: EditableText, before: Seq<char>, behind: Seq<char>) -> bool {
    line.value@ == before + behind && line.cursor == before.len()
}

/// What a key makes of the parts of a line before and behind the cursor.
pub open spec fn is_typed(
    key: KeyCode,
    before: Seq<char>,
    behind: Seq<char>,
    after: EditableText,
) -> bool {
    match key {
        KeyCode::Char(c) => is_split(after, before.push(c), behind),
        KeyCode::Backspace => if before.len() > 0 {
            is_split(after, before.drop_last(), behind)
        } else {
            is_split(after, before, behind)
        },
        KeyCode::Left => if before.len() > 0 {
            is_split(after, before.drop_last(), seq![before.last()] + behind)
        } else {
            is_split(after, before, behind)
        },
        KeyCode::Right => if behind.len() > 0 {
            is_split(after, before.push(behind.first()), behind.drop_first())
        } else {
            is_split(after, before, behind)
        },
        KeyCode::Home => is_split(after, Seq::empty(), before + behind),
        KeyCode::End => is_split(after, before + behind, Seq::empty()),
        _ => is_split(after, before, behind),
    }
}

proof fn lemma_typed(
    line: EditableText,
    key: KeyCode,
    after: EditableText,
    before: Seq<char>,
    behind: Seq<char>,
)
    requires
        actions::text_edited(line, key, after),
        is_split(line, before, behind),
        line.value@.len() < usize::MAX,
    ensures
        is_typed(key, before, behind, after),
{
    match key {
        KeyCode::Char(c) => {
            assert(after.value@ =~= before.push(c) + behind);
        },
        KeyCode::Backspace => {
            if before.len() > 0 {
                assert(after.value@ =~= before.drop_last() + behind);
            }
        },
        KeyCode::Left => {
            if before.len() > 0 {
                assert(line.value@ =~= before.drop_last() + (seq![before.last()] + behind));
            }
        },
        KeyCode::Right => {
            if behind.len() > 0 {
                assert(line.value@ =~= before.push(behind.first()) + behind.drop_first());
            }
        },
        KeyCode::Home => {
            assert(line.value@ =~= Seq::<char>::empty() + (before + behind));
        },
        KeyCode::End => {
            assert(line.value@ =~= (before + behind) + Seq::<char>::empty());
        },
        _ => {},
    }
}

/// Typing into a prompt puts characters in at the cursor and takes them out before
/// it; what the prompt is for stays as it is, and nothing else happens.
pub proof fn law_typing(
    pre: App,
    key: KeyCode,
    user: Seq<char>,
    post: App,
    effects: Seq<Effect>,
    prompt: TextInputPrompt,
    before: Seq<char>,
    behind: Seq<char>,
)
    requires
        pre.mode == Mode::TextInput(prompt),
        is_split(prompt.text, before, behind),
        prompt.text.value@.len() < usize::MAX,
        key != KeyCode::Enter,
        key != KeyCode::Esc,
        actions::key_handled(pre, key, user, post, effects),
    ensures
        post.mode matches Mode::TextInput(after) && is_typed(key, before, behind, after.text)
            && after.purpose == prompt.purpose && after.title == prompt.title,
        post.left == pre.left,
        post.right == pre.right,
        effects.len() == 0,
{
    match post.mode {
        Mode::TextInput(after) => {
            lemma_typed(prompt.text, key, after.text, before, behind);
        },
        _ => {},
    }
}

/// Typing into a form changes the field in focus and no other.
pub proof fn law_typing_in_form(
    pre: App,
    key: KeyCode,
    user: Seq<char>,
    post: App,
    effects: Seq<Effect>,
    form: ConnectForm,
    before: Seq<char>,
    behind: Seq<char>,
    i: int,
)
    requires
        pre.mode == Mode::Connect(form),
        form.fields@.len() == 4,
        form.focus < 4,
        is_split(form.fields@[form.focus as int].text, before, behind),
        form.fields@[form.focus as int].text.value@.len() < usize::MAX,
        0 <= i < 4,
        key is Char || key == KeyCode::Backspace || key == KeyCode::Left || key == KeyCode::Right
            || key == KeyCode::Home || key == KeyCode::End,
        actions::key_handled(pre, key, user, post, effects),
    ensures
        post.mode matches Mode::Connect(after) && after.focus == form.focus
            && after.fields@.len() == 4 && is_typed(
            key,
            before,
            behind,
            after.fields@[form.focus as int].text,
        ) && (i != form.focus ==> after.fields@[i] == form.fields@[i]),
        effects.len() == 0,
{
    match post.mode {
        Mode::Connect(after) => {
            let at = form.focus as int;
            lemma_typed(form.fields@[at].text, key, after.fields@[at].text, before, behind);
        },
        _ => {},
    }
}

/// In a form, Tab goes to the next field and Up to the one before, round and round.
pub proof fn law_focus_keys(
    pre: App,
    key: KeyCode,
    user: Seq<char>,
    post: App,
    effects: Seq<Effect>,
    form: ConnectForm,
)
    requires
        pre.mode == Mode::Connect(form),
        form.focus < 4,
        key == KeyCode::Tab || key == KeyCode::Down || key == KeyCode::Up,
        actions::key_handled(pre, key, user, post, effects),
    ensures
        post.mode matches Mode::Connect(after) && after.fields == form.fields && (if key
            == KeyCode::Up {
            form.focus == after.focus + 1 || (form.focus == 0 && after.focus == 3)
        } else {
            after.focus == form.focus + 1 || (form.focus == 3 && after.focus == 0)
        }),
        effects.len() == 0,
{
}

/// A function key fills a form in from the saved profile of its number; the
/// password is left alone.
pub proof fn law_saved_profile_keys(
    pre: App,
    n: u8,
    user: Seq<char>,
    post: App,
    effects: Seq<Effect>,
    form: ConnectForm,
)
    requires
        pre.mode == Mode::Connect(form),
        form.fields@.len() == 4,
        1 <= n <= 9,
        n <= form.saved@.len(),
        actions::key_handled(pre, KeyCode::F(n), user, post, effects),
    ensures
        post.mode matches Mode::Connect(after) && after.fields@.len() == 4
            && after.fields@[0].text.value@ == form.saved@[n - 1].host@
            && numbers::parsed(after.fields@[1].text.value@, 10, 65535) == Some(
            form.saved@[n - 1].port as nat,
        ) && after.fields@[2].text.value@ == form.saved@[n - 1].username@ && after.fields@[3]
            == form.fields@[3],
        effects.len() == 0,
{
    numbers::lemma_decimal_reads_back(form.saved@[n - 1].port as nat, 65535);
}

/// Confirming a form has a job connect to the host, port and user name that were
/// typed, without white space around them, and with exactly the password that was
/// typed, if there was one. A form with a port that is no number stays open, and
/// nothing happens.
pub proof fn law_form_connects(
    pre: App,
    user: Seq<char>,
    post: App,
    effects: Seq<Effect>,
    form: ConnectForm,
    host: Seq<char>,
    digits: Seq<char>,
    name: Seq<char>,
    port: u16,
)
    requires
        pre.mode == Mode::Connect(form),
        form.fields@.len() == 4,
        text::is_padded(form.fields@[0].text.value@, host),
        text::is_padded(form.fields@[1].text.value@, digits),
        text::is_padded(form.fields@[2].text.value@, name),
        text::has_firm_ends(host),
        text::has_firm_ends(digits),
        text::has_firm_ends(name) || (name.len() == 0 && text::is_blank(
            form.fields@[2].text.value@,
        )),
        actions::key_handled(pre, KeyCode::Enter, user, post, effects),
    ensures
        numbers::parsed(digits, 10, 65535) == Some(port as nat) ==> {
            &&& effects.len() == 1
            &&& app_laws::work_of(effects[0]) matches Some(JobWork::Connect { profile })
            &&& profile.host@ == host
            &&& profile.port == port
            &&& profile.username@ == name
            &&& profile.auth matches AuthMethod::Auto { password }
            &&& form.fields@[3].text.value@.len() > 0 ==> text::says(
                password,
                form.fields@[3].text.value@,
            )
            &&& form.fields@[3].text.value@.len() == 0 ==> password is None
            &&& post.mode is Progress
        },
        numbers::parsed(digits, 10, 65535) is None ==> effects.len() == 0 && post.mode is Connect,
{
    text::law_padding_does_not_count(form.fields@[0].text.value@, host);
    text::law_padding_does_not_count(form.fields@[1].text.value@, digits);
    text::law_padding_does_not_count(form.fields@[2].text.value@, name);
    if name.len() == 0 {
        assert(text::trimmed(form.fields@[2].text.value@) =~= name);
    }
}

/// A form whose host is blank stays open with all its fields, says that something is
/// wrong, and does nothing else.
pub proof fn law_form_needs_a_host(
    pre: App,
    user: Seq<char>,
    post: App,
    effects: Seq<Effect>,
    form: ConnectForm,
)
    requires
        pre.mode == Mode::Connect(form),
        form.fields@.len() == 4,
        text::is_blank(form.fields@[0].text.value@),
        actions::key_handled(pre, KeyCode::Enter, user, post, effects),
    ensures
        effects.len() == 0,
        post.mode matches Mode::Connect(after) && after.fields == form.fields && after.error is Some,
{
    text::law_padding_does_not_count(form.fields@[0].text.value@, Seq::empty());
}

/// Whether the end of the job on screen is reported and handled.
pub open spec fn is_end_of(
    pre: App,
    kind: JobKind,
    outcome: JobOutcome,
    post: App,
    effects: Seq<Effect>,
) -> bool {
    &&& pre.mode matches Mode::Progress(state)
    &&& state.kind == kind
    &&& forall|i: int|
        0 <= i < pre.background_jobs@.len() ==> (#[trigger] pre.background_jobs@[i]).0
            != state.job_id
    &&& actions::event_handled(
        pre,
        JobEvent::Finished { job_id: state.job_id, outcome },
        post,
        effects,
    )
}

proof fn lemma_end(
    pre: App,
    kind: JobKind,
    outcome: JobOutcome,
    post: App,
    effects: Seq<Effect>,
) -> (mid: App)
    requires
        is_end_of(pre, kind, outcome, post, effects),
    ensures
        mid == (App { jobs: mid.jobs, status: mid.status, mode: Mode::Browsing, ..pre }),
        actions::outcome_told(mid.status, outcome),
        actions::kind_ended(mid, kind, outcome, post, effects),
{
    let id = pre.mode->Progress_0.job_id;
    app::lemma_first_background(pre.background_jobs@, id, 0);
    let (jobs, status) = choose|jobs: crate::jobs::JobManager, status: Option<String>|
        #![trigger actions::is_reaped(pre.jobs, id, jobs), actions::outcome_told(status, outcome)]
        {
            &&& actions::is_reaped(pre.jobs, id, jobs)
            &&& actions::outcome_told(status, outcome)
            &&& actions::kind_ended(
                App { jobs, status, mode: Mode::Browsing, ..pre },
                pre.mode->Progress_0.kind,
                outcome,
                post,
                effects,
            )
            &&& actions::job_frame(pre, post)
        };
    App { jobs, status, mode: Mode::Browsing, ..pre }
}

/// When a job that changed files ends, however it ends, both panels are listed
/// again and the keyboard is back with them; a failure is told in its own words.
pub proof fn law_file_job_ends(
    pre: App,
    kind: JobKind,
    outcome: JobOutcome,
    post: App,
    effects: Seq<Effect>,
)
    requires
        is_end_of(pre, kind, outcome, post, effects),
        kind is FileOp || kind is ExecuteSync,
    ensures
        post.mode is Browsing,
        post.left == pre.left,
        post.right == pre.right,
        effects.len() == 2,
        effects[0] matches Effect::Reload { side, select } && side == PaneSide::Left,
        effects[1] matches Effect::Reload { side, select } && side == PaneSide::Right,
        outcome is Completed ==> post.status is None,
        outcome is Cancelled ==> post.status is Some,
        outcome matches JobOutcome::Failed(why) ==> (post.status matches Some(told)
            && text::has_suffix(told@, why@)),
{
    let mid = lemma_end(pre, kind, outcome, post, effects);
    match outcome {
        JobOutcome::Failed(why) => {
            let told = "Job failed: "@ + why@;
            assert(told.skip(told.len() - why@.len()) =~= why@);
        },
        _ => {},
    }
}

/// When a connection is made, the panel it was made for is at its root, and the
/// profile it was made with is saved; when it is not made, neither happens.
pub proof fn law_connect_job_ends(
    pre: App,
    kind: JobKind,
    outcome: JobOutcome,
    post: App,
    effects: Seq<Effect>,
)
    requires
        is_end_of(pre, kind, outcome, post, effects),
        kind is Connect,
        config::ids_differ(pre.config.profiles@),
    ensures
        ({
            let left = kind->Connect_target_left;
            let profile = kind->Connect_profile;
            let shown = if left {
                post.left
            } else {
                post.right
            };
            if outcome is Completed {
                &&& shown.location == (Location::Remote { profile_id: profile.id })
                &&& shown.cwd@ == "/"@
                &&& shown.cursor == 0
                &&& left ==> post.right == pre.right
                &&& !left ==> post.left == pre.left
                &&& effects.len() > 0
                &&& effects[0] matches Effect::Reload { side, select }
                &&& (side == PaneSide::Left) == left
                &&& exists|i: int|
                    0 <= i < post.config.profiles@.len() && {
                        &&& (#[trigger] post.config.profiles@[i]).id == profile.id
                        &&& post.config.profiles@[i].host == profile.host
                        &&& post.config.profiles@[i].port == profile.port
                        &&& post.config.profiles@[i].username == profile.username
                    }
            } else {
                &&& post.left == pre.left
                &&& post.right == pre.right
                &&& post.config == pre.config
                &&& post.status is Some
                &&& effects.len() == 0
            }
        }),
{
    let mid = lemma_end(pre, kind, outcome, post, effects);
    if outcome is Completed {
        let saved = actions::saved_profile(kind->Connect_profile);
        config::law_upsert(pre.config.profiles@, saved);
        let i = choose|i: int|
            0 <= i < post.config.profiles@.len() && post.config.profiles@[i] == saved;
        assert(post.config.profiles@[i] == saved);
    }
}

/// When an archive is opened, the panel it was opened for is at its root.
pub proof fn law_archive_job_ends(
    pre: App,
    kind: JobKind,
    outcome: JobOutcome,
    post: App,
    effects: Seq<Effect>,
)
    requires
        is_end_of(pre, kind, outcome, post, effects),
        kind is OpenArchive,
    ensures
        ({
            let left = kind->OpenArchive_target_left;
            let shown = if left {
                post.left
            } else {
                post.right
            };
            if outcome is Completed {
                &&& shown.location == kind->OpenArchive_location
                &&& shown.cwd@ == "/"@
                &&& shown.cursor == 0
                &&& left ==> post.right == pre.right
                &&& !left ==> post.left == pre.left
                &&& effects.len() == 1
                &&& effects[0] matches Effect::Reload { side, select }
                &&& (side == PaneSide::Left) == left
            } else {
                &&& post.left == pre.left
                &&& post.right == pre.right
                &&& post.status is Some
                &&& effects.len() == 0
            }
        }),
{
    let mid = lemma_end(pre, kind, outcome, post, effects);
}

/// When a scan ends with something to do, the user is asked about the very plan
/// that was found, for the two places that were scanned; with nothing to do, and
/// when the scan fails, nobody is asked.
pub proof fn law_scan_job_ends(
    pre: App,
    kind: JobKind,
    outcome: JobOutcome,
    post: App,
    effects: Seq<Effect>,
    plan: SyncPlan,
)
    requires
        is_end_of(pre, kind, outcome, post, effects),
        kind is ScanSync,
        kind->plan_cell@ == Some(plan),
    ensures
        effects.len() == 0,
        post.left == pre.left,
        post.right == pre.right,
        outcome is Completed && (plan.copy@.len() > 0 || plan.delete@.len() > 0) ==> {
            &&& post.mode matches Mode::Confirm(dialog)
            &&& dialog.purpose matches ConfirmPurpose::Sync {
                plan: asked,
                src_location,
                dst_location,
            }
            &&& asked == plan
            &&& src_location == kind->ScanSync_src_location
            &&& dst_location == kind->ScanSync_dst_location
        },
        outcome is Completed && plan.copy@.len() == 0 && plan.delete@.len() == 0
            ==> post.mode is Browsing && post.status is Some,
        !(outcome is Completed) ==> post.mode is Browsing && post.status is Some,
{
    let mid = lemma_end(pre, kind, outcome, post, effects);
}

/// A report on the job on screen is shown at once; a report on any other changes
/// nothing. Escape asks exactly the job on screen to stop.
pub proof fn law_progress_is_shown(
    pre: App,
    id: JobId,
    progress: JobProgress,
    user: Seq<char>,
    post: App,
    effects: Seq<Effect>,
)
    requires
        pre.mode is Progress,
    ensures
        actions::event_handled(pre, JobEvent::Progress { job_id: id, progress }, post, effects)
            && id == pre.mode->Progress_0.job_id ==> post.mode is Progress
            && post.mode->Progress_0.progress == progress,
        actions::event_handled(pre, JobEvent::Progress { job_id: id, progress }, post, effects)
            && id != pre.mode->Progress_0.job_id ==> post == pre,
        actions::key_handled(pre, KeyCode::Esc, user, post, effects) ==> effects.len() == 1
            && effects[0] == (Effect::Cancel { id: pre.mode->Progress_0.job_id }),
{
}

/// The question before a deletion names the only item, or says how many there are.
pub proof fn law_delete_question(items: Seq<path::VfsPath>)
    requires
        items.len() > 0,
    ensures
        ({
            let q = actions::delete_question(items);
            &&& items.len() == 1 ==> q.len() >= 8 + items[0]@.len() && q.subrange(
                8,
                8 + items[0]@.len() as int,
            ) == items[0]@
            &&& items.len() > 1 ==> numbers::parsed(
                q.subrange(7, 7 + numbers::decimal(items.len()).len() as int),
                10,
                items.len(),
            ) == Some(items.len())
        }),
{
    reveal_strlit("Delete '");
    reveal_strlit("'?");
    reveal_strlit("Delete ");
    reveal_strlit(" items?");
    let q = actions::delete_question(items);
    if items.len() == 1 {
        assert(q.subrange(8, 8 + items[0]@.len() as int) =~= items[0]@);
    } else {
        let n = numbers::decimal(items.len());
        assert(q.subrange(7, 7 + n.len() as int) =~= n);
        numbers::lemma_decimal_reads_back(items.len(), items.len());
    }
}

/// The question before a sync begins with how many files it copies; deletions are
/// spoken of exactly if there are any.
pub proof fn law_sync_question(plan: SyncPlan, other: SyncPlan)
    ensures
        ({
            let q = actions::sync_question(plan);
            let n = numbers::decimal(plan.files_to_copy as nat);
            &&& q.take(n.len() as int) == n
            &&& plan.items_to_delete == 0 && other.items_to_delete > 0 && plan.files_to_copy
                == other.files_to_copy && plan.bytes_total == other.bytes_total
                ==> actions::sync_question(other).len() > q.len()
        }),
{
    reveal_strlit(" to delete");
    let q = actions::sync_question(plan);
    let n = numbers::decimal(plan.files_to_copy as nat);
    assert(q.take(n.len() as int) =~= n);
}

/// Connections of one user to different ports of a host are known under different
/// names, and so are those of different users to one port.
pub proof fn law_profile_names(
    user: Seq<char>,
    other: Seq<char>,
    host: Seq<char>,
    p: u16,
    q: u16,
)
    ensures
        actions::profile_name(user, host, p as nat) == actions::profile_name(user, host, q as nat)
            ==> p == q,
        actions::profile_name(user, host, p as nat) == actions::profile_name(other, host, p as nat)
            ==> user == other,
        user.is_prefix_of(actions::profile_name(user, host, p as nat)),
{
    reveal_strlit("@");
    reveal_strlit(":");
    let a = actions::profile_name(user, host, p as nat);
    let b = actions::profile_name(user, host, q as nat);
    let c = actions::profile_name(other, host, p as nat);
    let n = user.len() + host.len() + 2;
    assert(a.skip(n as int) =~= numbers::decimal(p as nat));
    assert(b.skip(n as int) =~= numbers::decimal(q as nat));
    numbers::lemma_decimal_reads_back(p as nat, 65535);
    numbers::lemma_decimal_reads_back(q as nat, 65535);
    assert(user.is_prefix_of(a));
    if a == c {
        assert(user.len() == other.len());
        assert(a.take(user.len() as int) =~= user);
        assert(c.take(other.len() as int) =~= other);
    }
}

/// Different hosts are known under different names too, whatever the user and the
/// port.
pub proof fn law_profile_hosts(user: Seq<char>, host: Seq<char>, other: Seq<char>, p: u16)
    ensures
        actions::profile_name(user, host, p as nat) == actions::profile_name(user, other, p as nat)
            ==> host == other,
{
    reveal_strlit("@");
    reveal_strlit(":");
    let a = actions::profile_name(user, host, p as nat);
    let b = actions::profile_name(user, other, p as nat);
    let n = numbers::decimal(p as nat).len();
    assert("@"@.len() == 1 && ":"@.len() == 1);
    assert(a.len() == user.len() + 1 + host.len() + 1 + n);
    assert(b.len() == user.len() + 1 + other.len() + 1 + n);
    if a == b {
        let from = user.len() as int + 1;
        assert(a.subrange(from, from + host.len()) =~= host);
        assert(b.subrange(from, from + other.len()) =~= other);
    }
}

/// The plan that a scan came to is the one that the user is asked about when the scan
/// ends, for the places that were scanned.
pub proof fn law_plan_reaches_the_question(
    before: App,
    plan: SyncPlan,
    mid: App,
    post: App,
    effects: Seq<Effect>,
)
    requires
        before.mode matches Mode::Progress(state) && state.kind is ScanSync && (forall|i: int|
            0 <= i < before.background_jobs@.len() ==> (#[trigger] before.background_jobs@[i]).0
                != state.job_id),
        app::plan_left(before, before.mode->Progress_0.job_id, plan, mid),
        actions::event_handled(
            mid,
            JobEvent::Finished {
                job_id: before.mode->Progress_0.job_id,
                outcome: JobOutcome::Completed,
            },
            post,
            effects,
        ),
        plan.copy@.len() > 0 || plan.delete@.len() > 0,
    ensures
        post.mode matches Mode::Confirm(dialog) && (dialog.purpose matches ConfirmPurpose::Sync {
            plan: asked,
            src_location,
            dst_location,
        } && asked == plan && src_location
            == before.mode->Progress_0.kind->ScanSync_src_location && dst_location
            == before.mode->Progress_0.kind->ScanSync_dst_location),
        effects.len() == 0,
{
    law_scan_job_ends(
        mid,
        mid.mode->Progress_0.kind,
        JobOutcome::Completed,
        post,
        effects,
        plan,
    );
}

/// Keys that mean nothing do nothing: a question stays open, a running job goes on
/// and the panels stay as they are. Only the help is closed by any key.
pub proof fn law_keys_that_mean_nothing(
    pre: App,
    key: KeyCode,
    user: Seq<char>,
    post: App,
    effects: Seq<Effect>,
)
    requires
        actions::key_handled(pre, key, user, post, effects),
    ensures
        pre.mode is Confirm && key != KeyCode::Char('y') && key != KeyCode::Char('n') && key
            != KeyCode::Enter && key != KeyCode::Esc ==> post == pre && effects.len() == 0,
        pre.mode is Progress && key != KeyCode::Esc ==> post == pre && effects.len() == 0,
        pre.mode is Help ==> post.mode is Browsing && effects.len() == 0 && post.left == pre.left
            && post.right == pre.right && post.should_quit == pre.should_quit,
        pre.mode is Browsing && is_free(pre.keymap, key) && (key == KeyCode::Other || key
            == KeyCode::Home || key == KeyCode::End || key == KeyCode::Right || (key matches
            KeyCode::F(n) && n != 1)) ==> post == pre && effects.len() == 0,
        pre.mode is Browsing && is_free(pre.keymap, key) && key == KeyCode::F(1)
            && pre.keymap.help is None ==> post.mode is Help && effects.len() == 0,
{
}

/// Where one of the two places is not connected or opened any more, a copy and a sync
/// are refused with a message, and nothing is started.
pub proof fn law_lost_places_are_refused(
    pre: App,
    key: KeyCode,
    user: Seq<char>,
    post: App,
    effects: Seq<Effect>,
    prompt: TextInputPrompt,
    given: Seq<char>,
)
    requires
        !pre.registry.has(here(pre).location) || !pre.registry.has(there(pre).location),
        actions::key_handled(pre, key, user, post, effects),
    ensures
        app_laws::typed(pre, prompt, given) && prompt.purpose is CopyToDir && key == KeyCode::Enter
            ==> effects.len() == 0 && post.status is Some && post.mode is Browsing && post.jobs
            == pre.jobs,
        is_asked(pre, Action::Sync, user, post, effects, key) ==> effects.len() == 0
            && post.status is Some && post.mode is Browsing && post.jobs == pre.jobs,
{
    text::law_padding_does_not_count(prompt.text.value@, given);
    if is_asked(pre, Action::Sync, user, post, effects, key) {
        lemma_is_asked(pre, Action::Sync, key);
    }
}

/// With the fast path switched on, a new connection has one got ready in the
/// background, and only then; without it nothing is started.
pub proof fn law_fast_path_is_warmed(
    pre: App,
    kind: JobKind,
    outcome: JobOutcome,
    post: App,
    effects: Seq<Effect>,
)
    requires
        is_end_of(pre, kind, outcome, post, effects),
        kind is Connect,
        outcome is Completed,
    ensures
        pre.config.general.enable_quic_fast_path ==> {
            &&& effects.len() == 2
            &&& app_laws::work_of(effects[1]) matches Some(JobWork::WarmFastPath { profile_id })
            &&& profile_id == kind->Connect_profile.id
        },
        !pre.config.general.enable_quic_fast_path ==> effects.len() == 1,
        post.mode is Browsing,
{
    let mid = lemma_end(pre, kind, outcome, post, effects);
}

/// When a fast path has been got ready, or has not, the panels on that connection
/// show so, and the job is off both lists.
pub proof fn law_warm_job_ends(
    pre: App,
    at: int,
    outcome: JobOutcome,
    post: App,
    effects: Seq<Effect>,
    n: int,
)
    requires
        app::background_ids_differ(pre.background_jobs@),
        crate::jobs::job_ids_differ(pre.jobs.jobs@),
        0 <= at < pre.background_jobs@.len(),
        actions::event_handled(
            pre,
            JobEvent::Finished { job_id: pre.background_jobs@[at].0, outcome },
            post,
            effects,
        ),
        0 <= n < pre.registry.remotes@.len(),
        pre.registry.remotes@[n].profile_id@
            == pre.background_jobs@[at].1->WarmQuicFastPath_profile_id@,
        forall|k: int|
            0 <= k < n ==> (#[trigger] pre.registry.remotes@[k]).profile_id@
                != pre.registry.remotes@[n].profile_id@,
    ensures
        pre.left.location matches Location::Remote { profile_id } ==> (profile_id@
            == pre.registry.remotes@[n].profile_id@ ==> post.left.quic_available
            == pre.registry.remotes@[n].fast),
        pre.right.location matches Location::Remote { profile_id } ==> (profile_id@
            == pre.registry.remotes@[n].profile_id@ ==> post.right.quic_available
            == pre.registry.remotes@[n].fast),
        pre.left.location is Local ==> post.left == pre.left,
        pre.right.location is Local ==> post.right == pre.right,
        post.mode == pre.mode,
        effects.len() == 0,
        post.background_jobs@ == pre.background_jobs@.remove(at),
        post.jobs.job(pre.background_jobs@[at].0) is None,
{
    let id = pre.background_jobs@[at].0;
    app::lemma_first_background(pre.background_jobs@, id, 0);
    let first = app::first_background(pre.background_jobs@, id, 0);
    if first < 0 {
        assert(pre.background_jobs@[at].0 != id);
    } else if first < at {
        assert(pre.background_jobs@[first].0 != pre.background_jobs@[at].0);
    } else if first > at {
        assert(pre.background_jobs@[at].0 != pre.background_jobs@[first].0);
    }
    let profile_id = pre.registry.remotes@[n].profile_id@;
    app::law_warmed(pre.registry, pre.left, profile_id, n);
    app::law_warmed(pre.registry, pre.right, profile_id, n);
    crate::jobs::law_reap(pre.jobs.jobs@, id);
    crate::jobs::lemma_first_job(post.jobs.jobs@, id, 0);
    let found = crate::jobs::first_job(post.jobs.jobs@, id, 0);
    if found >= 0 {
        assert(crate::jobs::without_job(pre.jobs.jobs@, id)[found].id != id);
    }
}

} // verus!
