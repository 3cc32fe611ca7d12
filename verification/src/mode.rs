//! `Mode` and the dialog state it carries: plain data with small,
//! self-contained text editing.

use vstd::prelude::*;

use crate::job::{JobId, JobProgress, SyncPlan};
use crate::numbers;
use crate::path::VfsPath;
use crate::text::{from_chars, owned, to_chars};
use crate::vfs::Location;

verus! {

/// What the keyboard is for at the moment.
#[derive(Debug)]
pub enum Mode {
    Browsing,
    Confirm(ConfirmDialog),
    TextInput(TextInputPrompt),
    Connect(ConnectForm),
    Progress(ProgressState),
    Help,
}

/// A question with yes or no for an answer.
#[derive(Debug)]
pub struct ConfirmDialog {
    pub message: String,
    pub purpose: ConfirmPurpose,
}

/// What happens when the user confirms a `Mode::Confirm` dialog.
#[derive(Debug)]
pub enum ConfirmPurpose {
    Delete { items: Vec<VfsPath> },
    /// Approving an already-scanned directory sync: `plan` is exactly what
    /// gets applied.
    Sync { plan: SyncPlan, src_location: Location, dst_location: Location },
}

/// A single line of editable text with a char-index cursor.
#[derive(Debug)]
pub struct EditableText {
    pub value: String,
    /// Char index (not byte index) of the edit cursor within `value`.
    pub cursor: usize,
}

impl EditableText {
    /// Whether the cursor is within the text or right behind it.
    pub open spec fn is_valid(self) -> bool {
        self.cursor <= self.value@.len()
    }

    /// A text with the cursor at its end.
    pub fn new(value: &str) -> (r: Self)
        ensures
            r.value@ == value@,
            r.cursor == value@.len(),
    {
        let chars: Vec<char> = to_chars(value);
        EditableText { value: from_chars(&chars), cursor: chars.len() }
    }

    /// Puts `c` in at the cursor, which moves behind it. A cursor behind the
    /// text counts as being at its end.
    pub fn insert_char(&mut self, c: char)
        ensures
            final(self).value@ == (if old(self).cursor < old(self).value@.len() {
                old(self).value@.insert(old(self).cursor as int, c)
            } else {
                old(self).value@.push(c)
            }),
            final(self).cursor == (if old(self).cursor == usize::MAX {
                usize::MAX
            } else {
                (old(self).cursor + 1) as usize
            }),
            old(self).is_valid() ==> final(self).is_valid(),
    {
        let mut chars: Vec<char> = to_chars(self.value.as_str());
        if self.cursor < chars.len() {
            chars.insert(self.cursor, c);
        } else {
            chars.push(c);
        }
        self.value = from_chars(&chars);
        if self.cursor < usize::MAX {
            self.cursor = self.cursor + 1;
        }
    }

    /// Takes out the character before the cursor, which moves to its place.
    pub fn backspace(&mut self)
        ensures
            final(self).value@ == (if 0 < old(self).cursor <= old(self).value@.len() {
                old(self).value@.remove(old(self).cursor - 1)
            } else {
                old(self).value@
            }),
            final(self).cursor == (if old(self).cursor == 0 {
                0
            } else {
                (old(self).cursor - 1) as usize
            }),
            old(self).is_valid() ==> final(self).is_valid(),
    {
        if self.cursor == 0 {
            return;
        }
        let mut chars: Vec<char> = to_chars(self.value.as_str());
        if self.cursor <= chars.len() {
            let _ = chars.remove(self.cursor - 1);
            self.value = from_chars(&chars);
        }
        self.cursor = self.cursor - 1;
    }

    /// Moves the cursor one character to the left, if there is one.
    pub fn move_left(&mut self)
        ensures
            *final(self) == (EditableText {
                cursor: if old(self).cursor == 0 {
                    0
                } else {
                    (old(self).cursor - 1) as usize
                },
                ..*old(self)
            }),
            old(self).is_valid() ==> final(self).is_valid(),
    {
        if self.cursor > 0 {
            self.cursor = self.cursor - 1;
        }
    }

    /// Moves the cursor one character to the right, if there is one.
    pub fn move_right(&mut self)
        ensures
            *final(self) == (EditableText {
                cursor: if old(self).cursor < old(self).value@.len() {
                    (old(self).cursor + 1) as usize
                } else {
                    old(self).cursor
                },
                ..*old(self)
            }),
            old(self).is_valid() ==> final(self).is_valid(),
    {
        let chars: Vec<char> = to_chars(self.value.as_str());
        if self.cursor < chars.len() {
            self.cursor = self.cursor + 1;
        }
    }

    /// Moves the cursor to the start.
    pub fn move_home(&mut self)
        ensures
            *final(self) == (EditableText { cursor: 0, ..*old(self) }),
            final(self).is_valid(),
    {
        self.cursor = 0;
    }

    /// Moves the cursor to the end.
    pub fn move_end(&mut self)
        ensures
            final(self).value == old(self).value,
            final(self).cursor == old(self).value@.len(),
    {
        let chars: Vec<char> = to_chars(self.value.as_str());
        self.cursor = chars.len();
    }
}

/// Taking back what was just typed leaves the text as it was.
pub proof fn law_backspace_undoes_insert(value: Seq<char>, cursor: int, c: char)
    requires
        0 <= cursor <= value.len(),
    ensures
        (if cursor < value.len() {
            value.insert(cursor, c)
        } else {
            value.push(c)
        }).remove(cursor) == value,
{
    if cursor < value.len() {
        assert(value.insert(cursor, c).remove(cursor) =~= value);
    } else {
        assert(value.push(c).remove(cursor) =~= value);
    }
}

/// What an entered text is for.
#[derive(Debug)]
pub enum TextInputPurpose {
    Mkdir,
    /// Entered text is treated as a destination *directory* for a copy.
    CopyToDir { items: Vec<VfsPath> },
    /// Entered text is treated as a destination *directory* for a move of
    /// multiple selected items.
    MoveToDir { items: Vec<VfsPath> },
    /// Entered text is the exact destination path.
    RenameOrMove { item: VfsPath },
}

/// A prompt for one line of text.
#[derive(Debug)]
pub struct TextInputPrompt {
    pub title: String,
    pub text: EditableText,
    pub purpose: TextInputPurpose,
}

impl TextInputPrompt {
    /// A prompt prefilled with `value`.
    pub fn new(title: &str, value: &str, purpose: TextInputPurpose) -> (r: Self)
        ensures
            r.title@ == title@,
            r.text.value@ == value@,
            r.text.cursor == value@.len(),
            r.purpose == purpose,
    {
        TextInputPrompt { title: owned(title), text: EditableText::new(value), purpose }
    }
}

/// One field of a `ConnectForm`. `secret` fields (the password) are shown
/// masked.
#[derive(Debug)]
pub struct ConnectField {
    pub label: &'static str,
    pub text: EditableText,
    pub secret: bool,
}

impl ConnectField {
    /// A field prefilled with `value`.
    pub fn new(label: &'static str, value: &str, secret: bool) -> (r: Self)
        ensures
            r.label == label,
            r.text.value@ == value@,
            r.text.cursor == value@.len(),
            r.secret == secret,
    {
        ConnectField { label, text: EditableText::new(value), secret }
    }
}

/// A saved connection, enough to refill the form's host/port/username
/// fields; never a password.
#[derive(Debug)]
pub struct SavedProfileSummary {
    pub id: String,
    pub host: String,
    pub port: u16,
    pub username: String,
}

impl Clone for SavedProfileSummary {
    fn clone(&self) -> (r: Self)
        ensures
            r == *self,
    {
        SavedProfileSummary {
            id: self.id.clone(),
            host: self.host.clone(),
            port: self.port,
            username: self.username.clone(),
        }
    }
}

/// The host/port/username/password connect form.
#[derive(Debug)]
pub struct ConnectForm {
    pub fields: Vec<ConnectField>,
    pub focus: usize,
    pub error: Option<String>,
    /// Selectable via F1..F9 while this form is open.
    pub saved: Vec<SavedProfileSummary>,
}

pub const CONNECT_FIELD_HOST: usize = 0;

pub const CONNECT_FIELD_PORT: usize = 1;

pub const CONNECT_FIELD_USERNAME: usize = 2;

pub const CONNECT_FIELD_PASSWORD: usize = 3;

/// Whether a field is `before` with its text set to `value` and the cursor at
/// the end.
pub open spec fn is_refilled(after: ConnectField, before: ConnectField, value: Seq<char>) -> bool {
    &&& after.label == before.label
    &&& after.secret == before.secret
    &&& after.text.value@ == value
    &&& after.text.cursor == value.len()
}

impl ConnectForm {
    /// Whether the form has its four fields and the focus is on one of them.
    pub open spec fn is_valid(self) -> bool {
        self.fields@.len() == 4 && self.focus < 4
    }

    /// An empty form, but for the port and the user name.
    pub fn new(default_username: &str, saved: Vec<SavedProfileSummary>) -> (r: Self)
        ensures
            r.is_valid(),
            r.focus == CONNECT_FIELD_HOST,
            r.error is None,
            r.saved == saved,
            r.fields@[0].label@ == "Host"@,
            r.fields@[1].label@ == "Port"@,
            r.fields@[2].label@ == "Username"@,
            r.fields@[3].label@ == "Password"@,
            r.fields@[0].text.value@ == ""@,
            r.fields@[1].text.value@ == "22"@,
            r.fields@[2].text.value@ == default_username@,
            r.fields@[3].text.value@ == ""@,
            forall|i: int|
                0 <= i < 4 ==> (#[trigger] r.fields@[i]).text.cursor == r.fields@[i].text.value@.len()
                    && r.fields@[i].secret == (i == CONNECT_FIELD_PASSWORD),
    {
        let mut fields: Vec<ConnectField> = Vec::new();
        fields.push(ConnectField::new("Host", "", false));
        fields.push(ConnectField::new("Port", "22", false));
        fields.push(ConnectField::new("Username", default_username, false));
        fields.push(ConnectField::new("Password", "", true));
        ConnectForm { fields, focus: CONNECT_FIELD_HOST, error: None, saved }
    }

    fn refill(&mut self, i: usize, value: &str)
        requires
            i < old(self).fields@.len(),
        ensures
            final(self).fields@.len() == old(self).fields@.len(),
            is_refilled(final(self).fields@[i as int], old(self).fields@[i as int], value@),
            forall|k: int|
                0 <= k < old(self).fields@.len() && k != i ==> final(self).fields@[k]
                    == #[trigger] old(self).fields@[k],
            *final(self) == (ConnectForm { fields: final(self).fields, ..*old(self) }),
    {
        let label: &'static str = self.fields[i].label;
        let secret: bool = self.fields[i].secret;
        self.fields.set(i, ConnectField::new(label, value, secret));
    }

    /// Fills the host, port and username fields from a saved profile, leaving
    /// the password field untouched.
    pub fn apply_saved(&mut self, profile: &SavedProfileSummary)
        requires
            old(self).is_valid(),
        ensures
            final(self).is_valid(),
            is_refilled(final(self).fields@[0], old(self).fields@[0], profile.host@),
            is_refilled(
                final(self).fields@[1],
                old(self).fields@[1],
                numbers::decimal(profile.port as nat),
            ),
            is_refilled(final(self).fields@[2], old(self).fields@[2], profile.username@),
            final(self).fields@[3] == old(self).fields@[3],
            *final(self) == (ConnectForm { fields: final(self).fields, ..*old(self) }),
    {
        let port: String = from_chars(&numbers::decimal_chars(profile.port as u64));
        self.refill(CONNECT_FIELD_HOST, profile.host.as_str());
        self.refill(CONNECT_FIELD_PORT, port.as_str());
        self.refill(CONNECT_FIELD_USERNAME, profile.username.as_str());
    }

    /// The field that is being edited.
    pub fn focused_mut(&mut self) -> (r: &mut ConnectField)
        requires
            old(self).focus < old(self).fields@.len(),
        ensures
            *r == old(self).fields@[old(self).focus as int],
            final(self).fields@ == old(self).fields@.update(old(self).focus as int, *final(r)),
            *final(self) == (ConnectForm { fields: final(self).fields, ..*old(self) }),
    {
        &mut self.fields[self.focus]
    }

    /// Goes to the next field; after the last comes the first.
    pub fn next_field(&mut self)
        requires
            old(self).is_valid(),
        ensures
            *final(self) == (ConnectForm {
                focus: ((old(self).focus + 1) % 4) as usize,
                ..*old(self)
            }),
            final(self).is_valid(),
    {
        self.focus = (self.focus + 1) % self.fields.len();
    }

    /// Goes to the previous field; before the first comes the last.
    pub fn prev_field(&mut self)
        requires
            old(self).is_valid(),
        ensures
            *final(self) == (ConnectForm {
                focus: ((old(self).focus + 3) % 4) as usize,
                ..*old(self)
            }),
            final(self).is_valid(),
    {
        self.focus = (self.focus + self.fields.len() - 1) % self.fields.len();
    }

    /// What stands in the host field.
    pub fn host(&self) -> (r: &str)
        requires
            self.is_valid(),
        ensures
            r@ == self.fields@[0].text.value@,
    {
        self.fields[CONNECT_FIELD_HOST].text.value.as_str()
    }

    /// What stands in the port field.
    pub fn port(&self) -> (r: &str)
        requires
            self.is_valid(),
        ensures
            r@ == self.fields@[1].text.value@,
    {
        self.fields[CONNECT_FIELD_PORT].text.value.as_str()
    }

    /// What stands in the username field.
    pub fn username(&self) -> (r: &str)
        requires
            self.is_valid(),
        ensures
            r@ == self.fields@[2].text.value@,
    {
        self.fields[CONNECT_FIELD_USERNAME].text.value.as_str()
    }

    /// What stands in the password field.
    pub fn password(&self) -> (r: &str)
        requires
            self.is_valid(),
        ensures
            r@ == self.fields@[3].text.value@,
    {
        self.fields[CONNECT_FIELD_PASSWORD].text.value.as_str()
    }
}

/// Going to the next field and back (or back and then on) ends where it began.
pub proof fn law_fields_cycle(focus: int)
    requires
        0 <= focus < 4,
    ensures
        ((focus + 1) % 4 + 3) % 4 == focus,
        ((focus + 3) % 4 + 1) % 4 == focus,
{
}

/// Where a finished sync scan leaves its plan until its end has been noticed.
#[derive(Debug)]
pub struct SyncPlanCell {
    plan: Option<SyncPlan>,
}

impl View for SyncPlanCell {
    type V = Option<SyncPlan>;

    closed spec fn view(&self) -> Option<SyncPlan> {
        self.plan
    }
}

impl SyncPlanCell {
    /// A cell without a plan.
    pub fn new() -> (r: Self)
        ensures
            r@ is None,
    {
        SyncPlanCell { plan: None }
    }

    /// Leaves a plan in the cell, in place of any other.
    pub fn set(&mut self, plan: SyncPlan)
        ensures
            final(self)@ == Some(plan),
    {
        self.plan = Some(plan);
    }

    /// Takes the plan out, if there is one.
    pub fn take(&mut self) -> (r: Option<SyncPlan>)
        ensures
            r == old(self)@,
            final(self)@ is None,
    {
        let mut out: Option<SyncPlan> = None;
        std::mem::swap(&mut self.plan, &mut out);
        out
    }
}

/// What a running job (`Mode::Progress`) should do when it finishes.
#[derive(Debug)]
pub enum JobKind {
    /// A copy/move/delete: just reload the affected panels.
    FileOp,
    /// A connect attempt: on success, the panel identified by `target_left`
    /// switches to the connection, and `profile` is saved.
    Connect { target_left: bool, profile: SavedProfileSummary },
    /// Indexing an archive: on success, the panel identified by `target_left`
    /// switches to `location`.
    OpenArchive { target_left: bool, location: Location },
    /// Scanning two directories: on success, the plan becomes a summary to
    /// confirm.
    ScanSync { src_location: Location, dst_location: Location, plan_cell: SyncPlanCell },
    /// Applying an already-approved `SyncPlan`.
    ExecuteSync,
}

/// The job whose progress is on screen.
#[derive(Debug)]
pub struct ProgressState {
    pub job_id: JobId,
    pub title: String,
    pub progress: JobProgress,
    pub kind: JobKind,
}

} // verus!
