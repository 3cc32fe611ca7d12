//! What holds of keys and job events as a whole.

use vstd::prelude::*;

use crate::actions;
use crate::actions::{Effect, JobWork};
use crate::app;
use crate::app::App;
use crate::job::{JobEvent, JobId, JobOutcome};
use crate::keymap::KeyCode;
use crate::mode::{ConfirmPurpose, Mode, TextInputPrompt, TextInputPurpose};
use crate::path;
use crate::path::VfsPath;
use crate::registry;
use crate::registry::Backend;
use crate::text;
use crate::vfs::{EntryMeta, VfsError};

verus! {

/// The job that an effect starts, if it starts one.
pub open spec fn work_of(effect: Effect) -> Option<JobWork> {
    match effect {
        Effect::Spawn { id, work } => Some(work),
        _ => None,
    }
}

/// Nothing is synced without having been scanned, summed up and approved: a key
/// starts the application of a plan only by answering yes to the question about
/// that very plan.
pub proof fn law_sync_needs_approval(
    pre: App,
    key: KeyCode,
    user: Seq<char>,
    post: App,
    effects: Seq<Effect>,
    i: int,
)
    requires
        actions::key_handled(pre, key, user, post, effects),
        0 <= i < effects.len(),
        work_of(effects[i]) matches Some(JobWork::ExecuteSync { src, dst, plan, fast }),
    ensures
        key == KeyCode::Char('y') || key == KeyCode::Enter,
        pre.mode matches Mode::Confirm(dialog) && (dialog.purpose matches ConfirmPurpose::Sync {
            plan,
            src_location,
            dst_location,
        } && work_of(effects[i]) == Some(
            JobWork::ExecuteSync {
                src: src_location,
                dst: dst_location,
                plan,
                fast: pre.config.general.enable_quic_fast_path,
            },
        )),
{
}

/// As long as the config asks for confirmation, a key starts a deletion only by
/// answering yes to the question about those very items.
pub proof fn law_delete_needs_approval(
    pre: App,
    key: KeyCode,
    user: Seq<char>,
    post: App,
    effects: Seq<Effect>,
    i: int,
)
    requires
        actions::key_handled(pre, key, user, post, effects),
        pre.config.general.confirm_delete,
        0 <= i < effects.len(),
        work_of(effects[i]) matches Some(JobWork::Delete { location, items }),
    ensures
        key == KeyCode::Char('y') || key == KeyCode::Enter,
        pre.mode matches Mode::Confirm(dialog) && (dialog.purpose matches ConfirmPurpose::Delete {
            items,
        } && items@ == (work_of(effects[i])->0)->Delete_items@),
{
}

/// No job event ever starts a job that changes files.
pub proof fn law_events_change_no_files(
    pre: App,
    event: JobEvent,
    post: App,
    effects: Seq<Effect>,
    i: int,
)
    requires
        actions::event_handled(pre, event, post, effects),
        0 <= i < effects.len(),
    ensures
        effects[i] is Reload || (work_of(effects[i]) matches Some(
            JobWork::WarmFastPath { profile_id },
        )),
{
}

/// The end of a job that is not on screen, and in particular of a background
/// job, leaves the screen, the message line and the listings as they are.
pub proof fn law_foreign_end_leaves_screen(
    pre: App,
    id: JobId,
    outcome: JobOutcome,
    post: App,
    effects: Seq<Effect>,
)
    requires
        actions::finish_handled(pre, id, outcome, post, effects),
        app::first_background(pre.background_jobs@, id, 0) >= 0 || !(pre.mode is Progress
            && pre.mode->Progress_0.job_id == id),
    ensures
        post.mode == pre.mode,
        post.status == pre.status,
        post.config == pre.config,
        post.left.entries == pre.left.entries,
        post.left.cursor == pre.left.cursor,
        post.left.cwd == pre.left.cwd,
        post.right.entries == pre.right.entries,
        post.right.cursor == pre.right.cursor,
        post.right.cwd == pre.right.cwd,
        effects.len() == 0,
{
}

/// A job that is on screen leaves the screen exactly when it ends: no key closes
/// it, and its progress does not either.
pub proof fn law_progress_stays_until_the_end(
    pre: App,
    key: KeyCode,
    user: Seq<char>,
    progress_event: JobEvent,
    post: App,
    effects: Seq<Effect>,
)
    requires
        pre.mode is Progress,
        actions::key_handled(pre, key, user, post, effects) || (progress_event is Progress
            && actions::event_handled(pre, progress_event, post, effects)),
    ensures
        post.mode is Progress,
        post.mode->Progress_0.job_id == pre.mode->Progress_0.job_id,
        post.mode->Progress_0.kind == pre.mode->Progress_0.kind,
{
}

/// No key changes the config, and with it the saved profiles.
pub proof fn law_keys_keep_config(
    pre: App,
    key: KeyCode,
    user: Seq<char>,
    post: App,
    effects: Seq<Effect>,
)
    requires
        actions::key_handled(pre, key, user, post, effects),
    ensures
        post.config == pre.config,
        post.keymap == pre.keymap,
        post.registry == pre.registry,
{
}

/// Whatever key is pressed, the panel that the keyboard does not work on stays as
/// it is.
pub proof fn law_other_panel_is_kept(
    pre: App,
    key: KeyCode,
    user: Seq<char>,
    post: App,
    effects: Seq<Effect>,
)
    requires
        actions::key_handled(pre, key, user, post, effects),
    ensures
        post.panel(pre.active.across()) == pre.panel(pre.active.across()),
{
}

/// Entering a directory and going up again leads back to where one was, and the
/// cursor is to be put on the directory that was left.
pub proof fn law_ascend_returns(
    before: App,
    inside: App,
    entering: Seq<Effect>,
    listed: App,
    after: App,
    leaving: Seq<Effect>,
    entry: EntryMeta,
)
    requires
        before.panel(before.active).at_cursor() == Some(entry),
        entry.kind is Dir,
        entry.path@ == path::joined(before.panel(before.active).cwd@, entry.name@),
        path::is_plain_name(entry.name@),
        before.panel(before.active).cwd@.len() > 0,
        actions::descends(before, inside, entering),
        listed.active == inside.active,
        listed.panel(listed.active).cwd == inside.panel(inside.active).cwd,
        listed.panel(listed.active).location == inside.panel(inside.active).location,
        actions::ascends(listed, after, leaving),
    ensures
        after.active == before.active,
        after.panel(before.active).location == before.panel(before.active).location,
        path::same_path(after.panel(before.active).cwd@, before.panel(before.active).cwd@),
        actions::reloads(leaving, before.active, Some(entry.name@)),
{
    let base = before.panel(before.active).cwd@;
    path::lemma_join_adds_component(base, entry.name@);
    let cwd = listed.panel(listed.active).cwd@;
    assert(path::components(cwd) == path::components(base).push(entry.name@));
    assert(path::components(cwd).drop_last() =~= path::components(base));
    lemma_root_has_no_components();
}

/// The root has no components.
pub proof fn lemma_root_has_no_components()
    ensures
        path::components("/"@).len() == 0,
{
    reveal_strlit("/");
    assert("/"@ =~= seq!['/']);
    assert(path::components(seq!['/']).len() == 0) by {
        reveal_with_fuel(path::pieces, 3);
        reveal_with_fuel(path::named_pieces, 4);
        assert(seq!['/'].drop_last() =~= Seq::<char>::empty());
        let p = path::pieces(seq!['/']);
        assert(p =~= seq![Seq::<char>::empty(), Seq::<char>::empty()]);
        assert(p.drop_last() =~= seq![Seq::<char>::empty()]);
        assert(p.drop_last().drop_last() =~= Seq::<Seq<char>>::empty());
    }
}

/// Quitting works from the panels, whatever is bound to other keys.
pub proof fn law_quit_keys(
    pre: App,
    key: KeyCode,
    user: Seq<char>,
    post: App,
    effects: Seq<Effect>,
)
    requires
        actions::key_handled(pre, key, user, post, effects),
        pre.mode is Browsing,
        key == KeyCode::Char('q') || key == KeyCode::Esc,
        pre.keymap.lookup(key) is None,
    ensures
        post.should_quit,
{
}

/// Whether a prompt is open with a text in it, and perhaps with white space around
/// the text.
pub open spec fn typed(pre: App, prompt: TextInputPrompt, given: Seq<char>) -> bool {
    &&& pre.mode == Mode::TextInput(prompt)
    &&& text::is_padded(prompt.text.value@, given)
    &&& text::has_firm_ends(given)
}

/// Confirming a prompt with nothing but white space in it closes it, and does
/// nothing else.
pub proof fn law_blank_answer(
    pre: App,
    user: Seq<char>,
    post: App,
    effects: Seq<Effect>,
    prompt: TextInputPrompt,
)
    requires
        pre.mode == Mode::TextInput(prompt),
        text::is_blank(prompt.text.value@),
        actions::key_handled(pre, KeyCode::Enter, user, post, effects),
    ensures
        effects.len() == 0,
        post.mode is Browsing,
        post.left == pre.left,
        post.right == pre.right,
        post.jobs == pre.jobs,
{
    text::law_padding_does_not_count(prompt.text.value@, Seq::empty());
}

/// Confirming a move into a directory moves the items to where the other panel
/// is. Between different backends a job copies them to the other panel's location
/// and then deletes them; on one backend they are renamed, each keeping its name
/// in the directory.
pub proof fn law_move_goes_to_the_other_panel(
    pre: App,
    user: Seq<char>,
    post: App,
    effects: Seq<Effect>,
    prompt: TextInputPrompt,
    given: Seq<char>,
    items: Vec<VfsPath>,
    x: Backend,
    y: Backend,
)
    requires
        typed(pre, prompt, given),
        prompt.purpose == (TextInputPurpose::MoveToDir { items }),
        actions::key_handled(pre, KeyCode::Enter, user, post, effects),
        pre.registry.remotes@.len() <= usize::MAX,
        pre.registry.archives@.len() <= usize::MAX,
        pre.registry.resolves(
            pre.panel(pre.active).location,
            Ok::<Backend, VfsError>(x),
        ),
        pre.registry.resolves(
            pre.panel(pre.active.across()).location,
            Ok::<Backend, VfsError>(y),
        ),
    ensures
        x != y ==> {
            &&& effects.len() == 1
            &&& work_of(effects[0]) matches Some(
                JobWork::MoveAcross { src, dst, items: moved, dest_dir, fast },
            )
            &&& src == pre.panel(pre.active).location
            &&& dst == pre.panel(pre.active.across()).location
            &&& moved@ == items@
            &&& dest_dir@ == given
        },
        x == y ==> {
            &&& effects.len() == 1
            &&& work_of(effects[0]) matches Some(JobWork::Rename { location, pairs })
            &&& location == pre.panel(pre.active).location
            &&& (forall|i: int|
                0 <= i < items@.len() ==> path::last_name((#[trigger] items@[i])@) is Some)
                ==> pairs@.len() == items@.len() && forall|i: int|
                0 <= i < items@.len() ==> (#[trigger] pairs@[i]).0@ == items@[i]@ && pairs@[i].1@
                    == path::joined(given, path::components(items@[i]@).last())
        },
{
    text::law_padding_does_not_count(prompt.text.value@, given);
    let src = pre.panel(pre.active).location;
    let dst = pre.panel(pre.active.across()).location;
    registry::law_same_location_same_backend(pre.registry, src, dst, x, y);
    if x == y {
        let pairs = (work_of(effects[0])->0)->pairs@;
        let texts = actions::pair_texts(pairs);
        assert(texts == actions::moves_into(items@, given));
        if forall|i: int|
            0 <= i < items@.len() ==> path::last_name((#[trigger] items@[i])@) is Some {
            lemma_moves_into(items@, given);
            assert forall|i: int| 0 <= i < items@.len() implies (#[trigger] pairs[i]).0@
                == items@[i]@ && pairs[i].1@ == path::joined(
                given,
                path::components(items@[i]@).last(),
            ) by {
                assert(texts[i] == (pairs[i].0@, pairs[i].1@));
            }
        }
    }
}

proof fn lemma_moves_into(items: Seq<VfsPath>, given: Seq<char>)
    requires
        forall|i: int| 0 <= i < items.len() ==> path::last_name((#[trigger] items[i])@) is Some,
    ensures
        actions::moves_into(items, given).len() == items.len(),
        forall|i: int|
            0 <= i < items.len() ==> #[trigger] actions::moves_into(items, given)[i] == (
                items[i]@,
                path::joined(given, path::components(items[i]@).last()),
            ),
    decreases items.len(),
{
    if items.len() > 0 {
        let before = items.drop_last();
        assert forall|i: int| 0 <= i < before.len() implies path::last_name(
            (#[trigger] before[i])@,
        ) is Some by {
            assert(before[i] == items[i]);
        }
        lemma_moves_into(before, given);
        assert(path::last_name(items[items.len() - 1]@) is Some);
        let all = actions::moves_into(items, given);
        assert forall|i: int| 0 <= i < items.len() implies #[trigger] all[i] == (
            items[i]@,
            path::joined(given, path::components(items[i]@).last()),
        ) by {
            if i < before.len() {
                assert(all[i] == actions::moves_into(before, given)[i]);
            }
        }
    }
}

/// Confirming a copy into a directory starts a job that copies exactly the items
/// of the prompt, from where the active panel is to the directory that was typed,
/// where the other panel is. Nothing is removed.
pub proof fn law_copy_goes_to_the_other_panel(
    pre: App,
    user: Seq<char>,
    post: App,
    effects: Seq<Effect>,
    prompt: TextInputPrompt,
    given: Seq<char>,
    items: Vec<VfsPath>,
    x: Backend,
    y: Backend,
)
    requires
        typed(pre, prompt, given),
        prompt.purpose == (TextInputPurpose::CopyToDir { items }),
        actions::key_handled(pre, KeyCode::Enter, user, post, effects),
        pre.registry.resolves(
            pre.panel(pre.active).location,
            Ok::<Backend, VfsError>(x),
        ),
        pre.registry.resolves(
            pre.panel(pre.active.across()).location,
            Ok::<Backend, VfsError>(y),
        ),
    ensures
        effects.len() == 1,
        work_of(effects[0]) matches Some(
            JobWork::Copy { src, dst, items: copied, dest_dir, fast },
        ) && src == pre.panel(pre.active).location && dst == pre.panel(
            pre.active.across(),
        ).location && copied@ == items@ && dest_dir@ == given && fast
            == pre.config.general.enable_quic_fast_path,
        post.mode is Progress,
{
    text::law_padding_does_not_count(prompt.text.value@, given);
}

/// Confirming a new path for one item renames exactly that item to it, where the
/// active panel is; confirming a name for a directory makes it in the active
/// panel's directory, and the panel is listed again.
pub proof fn law_rename_and_mkdir(
    pre: App,
    user: Seq<char>,
    post: App,
    effects: Seq<Effect>,
    prompt: TextInputPrompt,
    given: Seq<char>,
)
    requires
        typed(pre, prompt, given),
        actions::key_handled(pre, KeyCode::Enter, user, post, effects),
    ensures
        prompt.purpose matches TextInputPurpose::RenameOrMove { item } ==> {
            &&& effects.len() == 1
            &&& work_of(effects[0]) matches Some(JobWork::Rename { location, pairs })
            &&& location == pre.panel(pre.active).location
            &&& pairs@.len() == 1
            &&& pairs@[0].0@ == item@
            &&& pairs@[0].1@ == given
        },
        prompt.purpose is Mkdir ==> {
            &&& effects.len() == 2
            &&& effects[0] matches Effect::MakeDir { location, path: made }
            &&& location == pre.panel(pre.active).location
            &&& made@ == path::joined(pre.panel(pre.active).cwd@, given)
            &&& effects[1] matches Effect::Reload { side, select }
            &&& side == pre.active
            &&& post.mode is Browsing
        },
{
    text::law_padding_does_not_count(prompt.text.value@, given);
    if let TextInputPurpose::RenameOrMove { item } = prompt.purpose {
        let pairs = (work_of(effects[0])->0)->pairs@;
        assert(actions::pair_texts(pairs) == seq![(item@, given)]);
        assert(actions::pair_texts(pairs)[0] == (pairs[0].0@, pairs[0].1@));
    }
}

/// Confirming a deletion starts a job that deletes exactly the items of the
/// question where the active panel is; refusing does nothing, and so does leaving
/// a prompt.
pub proof fn law_answers(
    pre: App,
    key: KeyCode,
    user: Seq<char>,
    post: App,
    effects: Seq<Effect>,
)
    requires
        actions::key_handled(pre, key, user, post, effects),
    ensures
        pre.mode matches Mode::Confirm(dialog) ==> (dialog.purpose matches ConfirmPurpose::Delete {
            items,
        } ==> (key == KeyCode::Char('y') || key == KeyCode::Enter ==> {
            &&& effects.len() == 1
            &&& work_of(effects[0]) matches Some(JobWork::Delete { location, items: deleted })
            &&& location == pre.panel(pre.active).location
            &&& deleted@ == items@
        })),
        pre.mode is Confirm && (key == KeyCode::Char('n') || key == KeyCode::Esc) ==> effects.len()
            == 0 && post.mode is Browsing && post.left == pre.left && post.right == pre.right,
        pre.mode is TextInput && key == KeyCode::Esc ==> effects.len() == 0 && post.mode is Browsing,
        pre.mode is Connect && key == KeyCode::Esc ==> effects.len() == 0 && post.mode is Browsing,
{
}

/// A move within one backend renames only items that have a name, each to that name
/// in the directory; an item without a name stays where it is.
pub proof fn law_only_named_items_move(items: Seq<VfsPath>, given: Seq<char>, k: int) -> (i: int)
    requires
        0 <= k < actions::moves_into(items, given).len(),
    ensures
        0 <= i < items.len(),
        path::components(items[i]@).len() > 0,
        path::is_normal(path::components(items[i]@).last()),
        actions::moves_into(items, given)[k].0 == items[i]@,
        actions::moves_into(items, given)[k].1 == path::joined(
            given,
            path::components(items[i]@).last(),
        ),
    decreases items.len(),
{
    let before = items.drop_last();
    if k < actions::moves_into(before, given).len() {
        law_only_named_items_move(before, given, k)
    } else {
        items.len() - 1
    }
}

} // verus!
