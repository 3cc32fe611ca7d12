//! What is shown on screen, as text: panel rows, titles, dialogs, and numbers
//! in a form for reading.

use vstd::prelude::*;

use crate::job::JobProgress;
use crate::mode::{
    ConfirmDialog, ConnectField, ConnectForm, ProgressState, SavedProfileSummary, TextInputPrompt,
};
use crate::numbers;
use crate::panel;
use crate::panel::PanelState;
use crate::text::{from_chars, joined_text, owned, to_chars};
use crate::vfs::{ConnectionInfo, EntryKind, EntryMeta, Location};

verus! {

/// `a / b` to the nearest whole number; of two that are equally near, the even
/// one.
pub open spec fn rounded(a: nat, b: nat) -> nat {
    let q = a / b;
    let r = a % b;
    if 2 * r < b || (2 * r == b && q % 2 == 0) {
        q
    } else {
        q + 1
    }
}

/// The distance between the numbers near `n` that a 64-bit float can hold.
pub open spec fn float_step(n: nat) -> nat
    decreases n,
{
    if n < 0x20_0000_0000_0000 {
        1
    } else {
        2 * float_step(n / 2)
    }
}

/// The number nearest to `n` that a 64-bit float can hold.
pub open spec fn float_of(n: nat) -> nat {
    rounded(n, float_step(n)) * float_step(n)
}

/// 1024 to the power of `u`.
pub open spec fn unit_size(u: nat) -> nat {
    if u == 0 {
        1
    } else if u == 1 {
        0x400
    } else if u == 2 {
        0x10_0000
    } else if u == 3 {
        0x4000_0000
    } else {
        0x100_0000_0000
    }
}

/// The unit for a size: the first with which the number is below 1024, and no
/// larger than the fifth.
pub open spec fn unit_for(n: nat) -> nat {
    if n < 0x400 {
        0
    } else if n < 0x10_0000 {
        1
    } else if n < 0x4000_0000 {
        2
    } else if n < 0x100_0000_0000 {
        3
    } else {
        4
    }
}

/// A number of tenths with one digit behind the point.
pub open spec fn tenths_text(t: nat) -> Seq<char> {
    numbers::decimal(t / 10).push('.').push(numbers::digit_char(t % 10))
}

/// A size in its unit, with one digit behind the point.
pub open spec fn scaled_text(bytes: nat) -> Seq<char> {
    let n = float_of(bytes);
    tenths_text(rounded(10 * n, unit_size(unit_for(n))))
}

proof fn lemma_float_step(n: nat)
    requires
        n < 0x1_0000_0000_0000_0000,
    ensures
        1 <= float_step(n) <= 2048,
        n < 0x20_0000_0000_0000 ==> float_step(n) == 1,
        n >= 0x20_0000_0000_0000 ==> float_step(n) >= 2 && float_step(n) % 2 == 0,
{
    reveal_with_fuel(float_step, 13);
}

fn step_of(n: u64) -> (r: u64)
    ensures
        r == float_step(n as nat),
        1 <= r <= 2048,
    decreases n,
{
    proof {
        lemma_float_step(n as nat);
    }
    if n < 0x20_0000_0000_0000 {
        1
    } else {
        2 * step_of(n / 2)
    }
}

fn round(a: u128, b: u128) -> (r: u128)
    requires
        b > 0,
        b <= 0x100_0000_0000,
        a <= 0x100_0000_0000_0000_0000,
    ensures
        r == rounded(a as nat, b as nat),
        r <= a + 1,
{
    let q: u128 = a / b;
    let r: u128 = a % b;
    proof {
        assert(q <= a) by (nonlinear_arith)
            requires
                q == a as int / b as int,
                b > 0,
        ;
    }
    if 2 * r < b || (2 * r == b && q % 2 == 0) {
        q
    } else {
        q + 1
    }
}

fn as_float(n: u64) -> (r: u128)
    ensures
        r == float_of(n as nat),
        r <= 0x1_0000_0000_0000_0800,
        n < 0x400 ==> r == n,
        r < 0x400 <==> n < 0x400,
{
    let step: u64 = step_of(n);
    let q: u128 = round(n as u128, step as u128);
    proof {
        let a = n as int;
        let s = step as int;
        assert(a == s * (a / s) + a % s) by (nonlinear_arith)
            requires
                s > 0,
        ;
        assert(q * s <= s * (a / s) + s) by (nonlinear_arith)
            requires
                q == a / s || q == a / s + 1,
                s > 0,
        ;
        assert(0 <= a % s < s) by (nonlinear_arith)
            requires
                s > 0,
        ;
        lemma_float_step(n as nat);
        if step == 1 {
            assert(a / 1 == a);
            assert(a % 1 == 0);
            assert(q == a);
            assert(q * s == q) by (nonlinear_arith)
                requires
                    s == 1,
            ;
        } else {
            assert(q * s >= s * (a / s)) by (nonlinear_arith)
                requires
                    q == a / s || q == a / s + 1,
                    s > 0,
            ;
        }
        assert(q * s == q * step);
    }
    q * step as u128
}

fn tenths_chars(t: u64) -> (r: Vec<char>)
    ensures
        r@ == tenths_text(t as nat),
{
    let mut out: Vec<char> = numbers::decimal_chars(t / 10);
    out.push('.');
    out.push(numbers::digit_to_char((t % 10) as u8));
    out
}

fn unit_number(n: u128) -> (r: usize)
    ensures
        r == unit_for(n as nat),
        r <= 4,
{
    if n < 0x400 {
        0
    } else if n < 0x10_0000 {
        1
    } else if n < 0x4000_0000 {
        2
    } else if n < 0x100_0000_0000 {
        3
    } else {
        4
    }
}

fn scaled(bytes: u64) -> (r: (String, usize))
    requires
        bytes >= 0x400,
    ensures
        r.0@ == scaled_text(bytes as nat),
        r.1 == unit_for(float_of(bytes as nat)),
        1 <= r.1 <= 4,
{
    let n: u128 = as_float(bytes);
    let unit: usize = unit_number(n);
    let size: u128 = if unit == 1 {
        0x400
    } else if unit == 2 {
        0x10_0000
    } else if unit == 3 {
        0x4000_0000
    } else {
        0x100_0000_0000
    };
    let t: u128 = round(10 * n, size);
    proof {
        let a = 10 * n as int;
        let b = size as int;
        assert(a / b <= 0x1000_0000_0000_0000) by (nonlinear_arith)
            requires
                0 <= a <= 10 * 0x1_0000_0000_0000_0800,
                b >= 0x400,
        ;
    }
    (from_chars(&tenths_chars(t as u64)), unit)
}

/// A size as the panels show it: `<DIR>` for a directory, else the number in a
/// one-letter unit.
pub open spec fn size_text(size: u64, kind: EntryKind) -> Seq<char> {
    if kind is Dir {
        "<DIR>"@
    } else {
        match unit_for(float_of(size as nat)) {
            u => if u == 0 {
                numbers::decimal(size as nat) + "B"@
            } else if u == 1 {
                scaled_text(size as nat) + "K"@
            } else if u == 2 {
                scaled_text(size as nat) + "M"@
            } else if u == 3 {
                scaled_text(size as nat) + "G"@
            } else {
                scaled_text(size as nat) + "T"@
            },
        }
    }
}

/// A size as the panels show it.
pub fn format_size(size: u64, kind: &EntryKind) -> (r: String)
    ensures
        r@ == size_text(size, *kind),
{
    if kind.is_dir() {
        return owned("<DIR>");
    }
    let n: u128 = as_float(size);
    if size < 0x400 {
        return joined_text(from_chars(&numbers::decimal_chars(size)).as_str(), "B");
    }
    let (number, unit) = scaled(size);
    if unit == 1 {
        joined_text(number.as_str(), "K")
    } else if unit == 2 {
        joined_text(number.as_str(), "M")
    } else if unit == 3 {
        joined_text(number.as_str(), "G")
    } else {
        joined_text(number.as_str(), "T")
    }
}

/// A number of bytes for reading, e.g. `3.4 MB`.
pub open spec fn bytes_text(bytes: u64) -> Seq<char> {
    match unit_for(float_of(bytes as nat)) {
        u => if u == 0 {
            numbers::decimal(bytes as nat) + " B"@
        } else if u == 1 {
            scaled_text(bytes as nat) + " KB"@
        } else if u == 2 {
            scaled_text(bytes as nat) + " MB"@
        } else if u == 3 {
            scaled_text(bytes as nat) + " GB"@
        } else {
            scaled_text(bytes as nat) + " TB"@
        },
    }
}

/// A number of bytes for reading.
pub fn format_bytes(bytes: u64) -> (r: String)
    ensures
        r@ == bytes_text(bytes),
{
    let n: u128 = as_float(bytes);
    if bytes < 0x400 {
        return joined_text(from_chars(&numbers::decimal_chars(bytes)).as_str(), " B");
    }
    let (number, unit) = scaled(bytes);
    if unit == 1 {
        joined_text(number.as_str(), " KB")
    } else if unit == 2 {
        joined_text(number.as_str(), " MB")
    } else if unit == 3 {
        joined_text(number.as_str(), " GB")
    } else {
        joined_text(number.as_str(), " TB")
    }
}

/// Whether a bit of a mode is set; `weight` is that bit's value.
pub open spec fn has_bit(mode: u32, weight: u32) -> bool {
    mode / weight % 2 == 1
}

/// The letter for a bit of a mode.
pub open spec fn bit_letter(mode: u32, weight: u32, letter: char) -> char {
    if has_bit(mode, weight) {
        letter
    } else {
        '-'
    }
}

/// Permission bits as nine letters, or nine question marks.
pub open spec fn perms_text(perms: Option<u32>) -> Seq<char> {
    match perms {
        None => "?????????"@,
        Some(m) => seq![
            bit_letter(m, 256, 'r'),
            bit_letter(m, 128, 'w'),
            bit_letter(m, 64, 'x'),
            bit_letter(m, 32, 'r'),
            bit_letter(m, 16, 'w'),
            bit_letter(m, 8, 'x'),
            bit_letter(m, 4, 'r'),
            bit_letter(m, 2, 'w'),
            bit_letter(m, 1, 'x'),
        ],
    }
}

fn letter(mode: u32, weight: u32, c: char) -> (r: char)
    requires
        weight > 0,
    ensures
        r == bit_letter(mode, weight, c),
{
    if mode / weight % 2 == 1 {
        c
    } else {
        '-'
    }
}

/// Permission bits as nine letters.
pub fn format_perms(perms: Option<u32>) -> (r: String)
    ensures
        r@ == perms_text(perms),
{
    match perms {
        None => owned("?????????"),
        Some(m) => {
            let mut out: Vec<char> = Vec::new();
            out.push(letter(m, 256, 'r'));
            out.push(letter(m, 128, 'w'));
            out.push(letter(m, 64, 'x'));
            out.push(letter(m, 32, 'r'));
            out.push(letter(m, 16, 'w'));
            out.push(letter(m, 8, 'x'));
            out.push(letter(m, 4, 'r'));
            out.push(letter(m, 2, 'w'));
            out.push(letter(m, 1, 'x'));
            proof {
                assert(out@ =~= perms_text(perms));
            }
            from_chars(&out)
        },
    }
}

/// A location in words.
pub open spec fn label_text(location: Location) -> Seq<char>
    decreases location,
{
    match location {
        Location::Local => "local"@,
        Location::Remote { profile_id } => "remote:"@ + profile_id@,
        Location::Archive { base, archive_path } => label_text(*base) + "::"@ + archive_path@,
    }
}

/// A location in words.
pub fn location_label(location: &Location) -> (r: String)
    ensures
        r@ == label_text(*location),
    decreases location,
{
    match location {
        Location::Local => owned("local"),
        Location::Remote { profile_id } => joined_text("remote:", profile_id.as_str()),
        Location::Archive { base, archive_path } => {
            let inner: String = location_label(&**base);
            joined_text(joined_text(inner.as_str(), "::").as_str(), archive_path.as_str())
        },
    }
}

/// The sign for the connection of a location; an archive has that of what it
/// is layered over.
pub open spec fn symbol_text(location: Location) -> Seq<char>
    decreases location,
{
    match location {
        Location::Local => "⌂"@,
        Location::Remote { .. } => "⇄"@,
        Location::Archive { base, .. } => symbol_text(*base),
    }
}

/// The sign for the connection of a location.
pub fn location_symbol(location: &Location) -> (r: &'static str)
    ensures
        r@ == symbol_text(*location),
    decreases location,
{
    match location {
        Location::Local => "⌂",
        Location::Remote { .. } => "⇄",
        Location::Archive { base, .. } => location_symbol(&**base),
    }
}

/// A panel's title.
pub open spec fn title_text(panel: PanelState) -> Seq<char> {
    " "@ + symbol_text(panel.location) + " "@ + label_text(panel.location) + ":"@ + panel.cwd@ + " "@
}

fn panel_title(panel: &PanelState) -> (r: String)
    ensures
        r@ == title_text(*panel),
{
    let a: String = joined_text(" ", location_symbol(&panel.location));
    let b: String = joined_text(a.as_str(), " ");
    let c: String = joined_text(b.as_str(), location_label(&panel.location).as_str());
    let d: String = joined_text(c.as_str(), ":");
    let e: String = joined_text(d.as_str(), panel.cwd.as_str());
    joined_text(e.as_str(), " ")
}

/// How a row is to stand out.
#[derive(Clone, Copy, Debug, PartialEq, Eq, Structural)]
pub enum RowStyle {
    Plain,
    Selected,
    /// The row of the active panel's cursor, selected or not.
    Cursor,
}

/// One row of a panel.
#[derive(Debug)]
pub struct PanelRow {
    pub name: String,
    pub size: String,
    pub perms: String,
    pub style: RowStyle,
}

/// An entry's name with the sign of its kind.
pub open spec fn entry_text(e: EntryMeta) -> Seq<char> {
    match e.kind {
        EntryKind::Dir => e.name@ + "/"@,
        EntryKind::Symlink { .. } => e.name@ + "@"@,
        _ => e.name@,
    }
}

/// Whether a row is that of the entry at `i`.
pub open spec fn is_row_of(row: PanelRow, panel: PanelState, i: int, is_active: bool) -> bool {
    let e = panel.entries@[i];
    &&& row.name@ == entry_text(e)
    &&& row.size@ == size_text(e.size, e.kind)
    &&& row.perms@ == perms_text(e.permissions)
    &&& row.style == (if i == panel.cursor && is_active {
        RowStyle::Cursor
    } else if panel::has_path(panel.selected@, e.path@) {
        RowStyle::Selected
    } else {
        RowStyle::Plain
    })
}

/// A panel as it is shown.
#[derive(Debug)]
pub struct PanelView {
    pub title: String,
    pub is_active: bool,
    pub rows: Vec<PanelRow>,
}

/// The rows that a panel's border takes.
pub const BORDER_ROWS: u16 = 2;

/// How many rows a scrolled panel shows.
pub open spec fn shown_rows(panel: PanelState) -> int {
    if panel.entries@.len() < panel.scroll_offset + panel.viewport_height {
        panel.entries@.len() - panel.scroll_offset
    } else {
        panel.viewport_height as int
    }
}

/// Whether `view` is a panel laid out in an area of `area_height` rows, and `after`
/// the panel scrolled for it.
pub open spec fn is_shown(
    before: PanelState,
    area_height: u16,
    is_active: bool,
    after: PanelState,
    view: PanelView,
) -> bool {
    &&& after == (PanelState {
        viewport_height: if area_height >= 2 {
            (area_height - 2) as usize
        } else {
            0
        },
        scroll_offset: panel::viewport_offset(
            before.scroll_offset as int,
            before.cursor as int,
            after.viewport_height as int,
            before.entries@.len() as int,
        ) as usize,
        ..before
    })
    &&& view.title@ == title_text(before)
    &&& view.is_active == is_active
    &&& view.rows@.len() == shown_rows(after)
    &&& forall|k: int|
        0 <= k < view.rows@.len() ==> is_row_of(
            #[trigger] view.rows@[k],
            after,
            after.scroll_offset + k,
            is_active,
        )
}

/// Lays a panel out in an area of `area_height` rows, scrolling it so that its
/// cursor is on screen.
pub fn render_panel(panel: &mut PanelState, area_height: u16, is_active: bool) -> (r: PanelView)
    ensures
        is_shown(*old(panel), area_height, is_active, *final(panel), r),
        *final(panel) == (PanelState {
            viewport_height: if area_height >= BORDER_ROWS {
                (area_height - BORDER_ROWS) as usize
            } else {
                0
            },
            scroll_offset: panel::viewport_offset(
                old(panel).scroll_offset as int,
                old(panel).cursor as int,
                final(panel).viewport_height as int,
                old(panel).entries@.len() as int,
            ) as usize,
            ..*old(panel)
        }),
        r.title@ == title_text(*old(panel)),
        r.is_active == is_active,
        r.rows@.len() == shown_rows(*final(panel)),
        forall|k: int|
            0 <= k < r.rows@.len() ==> is_row_of(
                #[trigger] r.rows@[k],
                *final(panel),
                final(panel).scroll_offset + k,
                is_active,
            ),
{
    let height: usize = if area_height >= BORDER_ROWS {
        (area_height - BORDER_ROWS) as usize
    } else {
        0
    };
    panel.sync_viewport(height);
    let title: String = panel_title(panel);
    let mut rows: Vec<PanelRow> = Vec::new();
    let len: usize = panel.entries.len();
    let offset: usize = panel.scroll_offset;
    proof {
        assert(offset <= len);
    }
    let count: usize = if len - offset < height {
        len - offset
    } else {
        height
    };
    let mut k: usize = 0;
    while k < count
        invariant
            k <= count,
            offset + count <= len,
            len == panel.entries@.len(),
            offset == panel.scroll_offset,
            rows@.len() == k,
            forall|j: int|
                0 <= j < k ==> is_row_of(#[trigger] rows@[j], *panel, offset + j, is_active),
        decreases count - k,
    {
        let i: usize = offset + k;
        let entry: &EntryMeta = &panel.entries[i];
        let name: String = match &entry.kind {
            EntryKind::Dir => joined_text(entry.name.as_str(), "/"),
            EntryKind::Symlink { .. } => joined_text(entry.name.as_str(), "@"),
            _ => entry.name.clone(),
        };
        let style: RowStyle = if i == panel.cursor && is_active {
            RowStyle::Cursor
        } else if panel.is_selected(&entry.path) {
            RowStyle::Selected
        } else {
            RowStyle::Plain
        };
        let row = PanelRow {
            name,
            size: format_size(entry.size, &entry.kind),
            perms: format_perms(entry.permissions),
            style,
        };
        rows.push(row);
        k += 1;
    }
    PanelView { title, is_active, rows }
}

/// What a line of the connect dialog is.
#[derive(Clone, Copy, Debug, PartialEq, Eq, Structural)]
pub enum LineKind {
    Field,
    /// The field that is being edited.
    Focused,
    Error,
    Blank,
    Saved,
    Hint,
}

/// One line of the connect dialog.
#[derive(Debug)]
pub struct DialogLine {
    pub kind: LineKind,
    pub text: String,
}

/// Lines with their texts as plain sequences.
pub open spec fn line_facts(lines: Seq<DialogLine>) -> Seq<(LineKind, Seq<char>)> {
    Seq::new(lines.len(), |i: int| (lines[i].kind, lines[i].text@))
}

/// The column of a field's value.
pub const VALUE_COLUMN: usize = 9;

/// `s` filled up with blanks to `width`.
pub open spec fn padded(s: Seq<char>, width: nat) -> Seq<char> {
    if s.len() >= width {
        s
    } else {
        s + Seq::new((width - s.len()) as nat, |i: int| ' ')
    }
}

/// What is shown of a field's value: asterisks if it is secret.
pub open spec fn shown_value(f: ConnectField) -> Seq<char> {
    if f.secret {
        Seq::new(f.text.value@.len(), |i: int| '*')
    } else {
        f.text.value@
    }
}

/// A field's line.
pub open spec fn field_text(f: ConnectField) -> Seq<char> {
    padded(f.label@ + ":"@, VALUE_COLUMN as nat) + shown_value(f)
}

/// The lines of the fields.
pub open spec fn field_lines(form: ConnectForm) -> Seq<(LineKind, Seq<char>)> {
    Seq::new(
        form.fields@.len(),
        |i: int|
            (
                if i == form.focus {
                    LineKind::Focused
                } else {
                    LineKind::Field
                },
                field_text(form.fields@[i]),
            ),
    )
}

/// The line of the error, if there is one.
pub open spec fn error_lines(form: ConnectForm) -> Seq<(LineKind, Seq<char>)> {
    match form.error {
        None => Seq::empty(),
        Some(e) => seq![(LineKind::Error, e@)],
    }
}

/// How many saved profiles are offered.
pub open spec fn saved_count(form: ConnectForm) -> nat {
    if form.saved@.len() < 9 {
        form.saved@.len()
    } else {
        9
    }
}

/// A saved profile's line.
pub open spec fn saved_text(i: int, p: SavedProfileSummary) -> Seq<char> {
    "[F"@ + numbers::decimal((i + 1) as nat) + "] "@ + p.username@ + "@"@ + p.host@ + ":"@
        + numbers::decimal(p.port as nat)
}

/// The lines of the saved profiles, behind a blank one if there are any.
pub open spec fn saved_lines(form: ConnectForm) -> Seq<(LineKind, Seq<char>)> {
    if saved_count(form) == 0 {
        Seq::empty()
    } else {
        seq![(LineKind::Blank, Seq::<char>::empty())] + Seq::new(
            saved_count(form),
            |i: int| (LineKind::Saved, saved_text(i, form.saved@[i])),
        )
    }
}

/// The lines of the connect dialog.
pub open spec fn connect_lines(form: ConnectForm) -> Seq<(LineKind, Seq<char>)> {
    field_lines(form) + error_lines(form) + saved_lines(form) + seq![
        (LineKind::Hint, "[Tab] Next field   [Enter] Connect   [Esc] Cancel"@),
    ]
}

fn pad(s: &str, width: usize) -> (r: Vec<char>)
    ensures
        r@ == padded(s@, width as nat),
{
    let mut out: Vec<char> = to_chars(s);
    let ghost start = out@;
    proof {
        assert(start + Seq::new(0, |i: int| ' ') =~= start);
    }
    while out.len() < width
        invariant
            out@.len() >= start.len(),
            out@.len() <= width || out@ == start,
            out@ =~= start + Seq::new((out@.len() - start.len()) as nat, |i: int| ' '),
        decreases width - out.len(),
    {
        out.push(' ');
    }
    proof {
        assert(out@ =~= padded(s@, width as nat));
    }
    out
}

fn field_line(f: &ConnectField) -> (r: String)
    ensures
        r@ == field_text(*f),
{
    let label: String = joined_text(f.label, ":");
    let mut out: Vec<char> = pad(label.as_str(), VALUE_COLUMN);
    let value: Vec<char> = to_chars(f.text.value.as_str());
    let ghost start = out@;
    let mut i: usize = 0;
    proof {
        assert(start + shown_value(*f).take(0) =~= start);
    }
    while i < value.len()
        invariant
            i <= value@.len(),
            value@ == f.text.value@,
            out@ == start + shown_value(*f).take(i as int),
        decreases value.len() - i,
    {
        out.push(
            if f.secret {
                '*'
            } else {
                value[i]
            },
        );
        proof {
            assert(out@ =~= start + shown_value(*f).take(i + 1));
        }
        i += 1;
    }
    proof {
        assert(shown_value(*f).take(i as int) =~= shown_value(*f));
    }
    from_chars(&out)
}

fn saved_line(i: usize, p: &SavedProfileSummary) -> (r: String)
    requires
        i < 9,
    ensures
        r@ == saved_text(i as int, *p),
{
    let a: String = joined_text("[F", from_chars(&numbers::decimal_chars(i as u64 + 1)).as_str());
    let b: String = joined_text(a.as_str(), "] ");
    let c: String = joined_text(b.as_str(), p.username.as_str());
    let d: String = joined_text(c.as_str(), "@");
    let e: String = joined_text(d.as_str(), p.host.as_str());
    let f: String = joined_text(e.as_str(), ":");
    joined_text(f.as_str(), from_chars(&numbers::decimal_chars(p.port as u64)).as_str())
}

/// The connect dialog as it is shown: its lines, and the line and column of the
/// text cursor.
#[derive(Debug)]
pub struct ConnectView {
    pub lines: Vec<DialogLine>,
    pub cursor_row: usize,
    pub cursor_column: usize,
}

/// Lays the connect dialog out. A secret value shows only how long it is.
pub fn render_connect(form: &ConnectForm) -> (r: ConnectView)
    requires
        form.is_valid(),
    ensures
        line_facts(r.lines@) == connect_lines(*form),
        r.cursor_row == form.focus,
        r.cursor_column == (if form.fields@[form.focus as int].text.cursor > usize::MAX
            - VALUE_COLUMN {
            usize::MAX as int
        } else {
            VALUE_COLUMN + form.fields@[form.focus as int].text.cursor
        }),
{
    let mut lines: Vec<DialogLine> = Vec::new();
    let mut i: usize = 0;
    proof {
        assert(line_facts(lines@) =~= field_lines(*form).take(0));
    }
    while i < form.fields.len()
        invariant
            i <= form.fields@.len(),
            line_facts(lines@) == field_lines(*form).take(i as int),
        decreases form.fields.len() - i,
    {
        let kind: LineKind = if i == form.focus {
            LineKind::Focused
        } else {
            LineKind::Field
        };
        let ghost before = line_facts(lines@);
        lines.push(DialogLine { kind, text: field_line(&form.fields[i]) });
        proof {
            assert(line_facts(lines@) =~= before.push((kind, field_text(form.fields@[i as int]))));
            assert(line_facts(lines@) =~= field_lines(*form).take(i + 1));
        }
        i += 1;
    }
    let ghost fields = field_lines(*form);
    proof {
        assert(fields.take(i as int) =~= fields);
    }
    match &form.error {
        Some(e) => {
            lines.push(DialogLine { kind: LineKind::Error, text: e.clone() });
        },
        None => {},
    }
    let ghost with_error = fields + error_lines(*form);
    proof {
        assert(line_facts(lines@) =~= with_error);
    }
    let count: usize = if form.saved.len() < 9 {
        form.saved.len()
    } else {
        9
    };
    if count > 0 {
        lines.push(DialogLine { kind: LineKind::Blank, text: String::new() });
        let mut k: usize = 0;
        proof {
            assert(line_facts(lines@) =~= with_error + saved_lines(*form).take(1));
        }
        while k < count
            invariant
                k <= count <= 9,
                count <= form.saved@.len(),
                count == saved_count(*form),
                count > 0,
                line_facts(lines@) == with_error + saved_lines(*form).take(k + 1),
            decreases count - k,
        {
            let ghost before = line_facts(lines@);
            lines.push(DialogLine { kind: LineKind::Saved, text: saved_line(k, &form.saved[k]) });
            proof {
                assert(line_facts(lines@) =~= before.push(
                    (LineKind::Saved, saved_text(k as int, form.saved@[k as int])),
                ));
                assert(line_facts(lines@) =~= with_error + saved_lines(*form).take(k + 2));
            }
            k += 1;
        }
        proof {
            assert(saved_lines(*form).take(k + 1) =~= saved_lines(*form));
        }
    } else {
        proof {
            assert(line_facts(lines@) =~= with_error + saved_lines(*form));
        }
    }
    lines.push(
        DialogLine {
            kind: LineKind::Hint,
            text: owned("[Tab] Next field   [Enter] Connect   [Esc] Cancel"),
        },
    );
    proof {
        assert(line_facts(lines@) =~= connect_lines(*form));
    }
    let cursor: usize = form.fields[form.focus].text.cursor;
    let cursor_column: usize = if cursor > usize::MAX - VALUE_COLUMN {
        usize::MAX
    } else {
        VALUE_COLUMN + cursor
    };
    ConnectView { lines, cursor_row: form.focus, cursor_column }
}

/// What is shown of a secret field depends only on how long its value is.
pub proof fn law_secret_is_masked(a: ConnectField, b: ConnectField)
    requires
        a.secret,
        b.secret,
        a.label@ == b.label@,
        a.text.value@.len() == b.text.value@.len(),
    ensures
        field_text(a) == field_text(b),
{
    assert(shown_value(a) =~= shown_value(b));
}

/// A question's text with the keys that answer it.
pub fn render_confirm(dialog: &ConfirmDialog) -> (r: String)
    ensures
        r@ == dialog.message@ + "\n\n[y] Yes   [n/Esc] No"@,
{
    joined_text(dialog.message.as_str(), "\n\n[y] Yes   [n/Esc] No")
}

/// What is known about a connection, for the help box.
pub open spec fn connection_text(info: ConnectionInfo) -> Seq<char> {
    "Active panel connection: "@ + info.protocol@ + "\nRemote OS: "@ + (match info.remote_os {
        Some(os) => os@,
        None => "unknown"@,
    }) + (match info.quic {
        None => "\nQUIC fast path: not available for this connection\n"@,
        Some(q) => "\nQUIC fast path: enabled\n  local port "@ + (match q.local_port {
            Some(p) => numbers::decimal(p as nat),
            None => "?"@,
        }) + " <-> remote port "@ + numbers::decimal(q.remote_port as nat)
            + "\n  listening: pfnc-agent (pid "@ + numbers::decimal(q.agent_pid as nat) + ")\n"@,
    })
}

/// The text of the help box.
pub open spec fn help_lines(connection: Option<ConnectionInfo>) -> Seq<char> {
    "pfnc — dual-pane file manager for local + SSH/SFTP\nDirectory sync, archive browsing (tar/zip), TOFU host keys\nBuilt with Rust, ratatui, and libssh2\n\nhttps://github.com/pascalbrax\n"@
        + (match connection {
        Some(info) => connection_text(info),
        None => Seq::empty(),
    }) + "[any key] Close"@
}

fn connection_lines(info: &ConnectionInfo) -> (r: String)
    ensures
        r@ == connection_text(*info),
{
    let a: String = joined_text("Active panel connection: ", info.protocol);
    let b: String = joined_text(a.as_str(), "\nRemote OS: ");
    let c: String = match &info.remote_os {
        Some(os) => joined_text(b.as_str(), os.as_str()),
        None => joined_text(b.as_str(), "unknown"),
    };
    let d: String = match &info.quic {
        None => owned("\nQUIC fast path: not available for this connection\n"),
        Some(q) => {
            let local: String = match q.local_port {
                Some(p) => from_chars(&numbers::decimal_chars(p as u64)),
                None => owned("?"),
            };
            let e: String = joined_text(
                "\nQUIC fast path: enabled\n  local port ",
                local.as_str(),
            );
            let f: String = joined_text(e.as_str(), " <-> remote port ");
            let port: String = from_chars(&numbers::decimal_chars(q.remote_port as u64));
            let g: String = joined_text(f.as_str(), port.as_str());
            let h: String = joined_text(g.as_str(), "\n  listening: pfnc-agent (pid ");
            let pid: String = from_chars(&numbers::decimal_chars(q.agent_pid as u64));
            let i: String = joined_text(h.as_str(), pid.as_str());
            joined_text(i.as_str(), ")\n")
        },
    };
    joined_text(c.as_str(), d.as_str())
}

/// The text of the help box.
pub fn render_help(connection: &Option<ConnectionInfo>) -> (r: String)
    ensures
        r@ == help_lines(*connection),
{
    let about: String = owned(
        "pfnc — dual-pane file manager for local + SSH/SFTP\nDirectory sync, archive browsing (tar/zip), TOFU host keys\nBuilt with Rust, ratatui, and libssh2\n\nhttps://github.com/pascalbrax\n",
    );
    let middle: String = match connection {
        Some(info) => connection_lines(info),
        None => String::new(),
    };
    let head: String = joined_text(about.as_str(), middle.as_str());
    proof {
        if connection is None {
            assert(middle@ =~= Seq::<char>::empty());
        }
    }
    joined_text(head.as_str(), "[any key] Close")
}

/// How far a job has got, as a fraction: by bytes if any are expected, else by
/// files, and never more than the whole.
pub open spec fn fraction(p: JobProgress) -> (u64, u64) {
    if p.bytes_total > 0 {
        (
            if p.bytes_done > p.bytes_total {
                p.bytes_total
            } else {
                p.bytes_done
            },
            p.bytes_total,
        )
    } else if p.files_total > 0 {
        (
            (if p.files_done > p.files_total {
                p.files_total
            } else {
                p.files_done
            }) as u64,
            p.files_total as u64,
        )
    } else {
        (0, 1)
    }
}

fn progress_fraction(p: &JobProgress) -> (r: (u64, u64))
    ensures
        r == fraction(*p),
        r.0 <= r.1,
        r.1 > 0,
{
    if p.bytes_total > 0 {
        (
            if p.bytes_done > p.bytes_total {
                p.bytes_total
            } else {
                p.bytes_done
            },
            p.bytes_total,
        )
    } else if p.files_total > 0 {
        (
            (if p.files_done > p.files_total {
                p.files_total
            } else {
                p.files_done
            }) as u64,
            p.files_total as u64,
        )
    } else {
        (0, 1)
    }
}

fn progress_file(p: &JobProgress) -> (r: String)
    ensures
        r@ == (match p.current_file {
            Some(f) => f@,
            None => Seq::empty(),
        }),
{
    match &p.current_file {
        Some(f) => owned(f.as_str()),
        None => {
            let empty: String = String::new();
            proof {
                assert(empty@ =~= Seq::<char>::empty());
            }
            empty
        },
    }
}

fn progress_counts(p: &JobProgress) -> (r: String)
    ensures
        r@ == numbers::decimal(p.files_done as nat) + "/"@ + numbers::decimal(p.files_total as nat)
            + " files   [Esc] Cancel"@,
{
    let a: String = from_chars(&numbers::decimal_chars(p.files_done as u64));
    let b: String = joined_text(a.as_str(), "/");
    let c: String = joined_text(
        b.as_str(),
        from_chars(&numbers::decimal_chars(p.files_total as u64)).as_str(),
    );
    joined_text(c.as_str(), " files   [Esc] Cancel")
}

/// The box of a running job: its title, the path it is working on, how far it has
/// got as a fraction, and how many files it has done.
#[derive(Debug)]
pub struct ProgressView {
    pub title: String,
    pub file: String,
    pub done: u64,
    pub total: u64,
    pub counts: String,
}

/// Lays the box of a running job out.
pub fn render_progress(state: &ProgressState) -> (r: ProgressView)
    ensures
        r.title@ == " "@ + state.title@ + " "@,
        r.file@ == (match state.progress.current_file {
            Some(f) => f@,
            None => Seq::empty(),
        }),
        (r.done, r.total) == fraction(state.progress),
        r.done <= r.total,
        r.total > 0,
        r.counts@ == numbers::decimal(state.progress.files_done as nat) + "/"@
            + numbers::decimal(state.progress.files_total as nat) + " files   [Esc] Cancel"@,
{
    let (done, total) = progress_fraction(&state.progress);
    ProgressView {
        title: joined_text(joined_text(" ", state.title.as_str()).as_str(), " "),
        file: progress_file(&state.progress),
        done,
        total,
        counts: progress_counts(&state.progress),
    }
}

/// A prompt as it is shown: its title, its text, the keys that answer it and the
/// column of the text cursor.
#[derive(Debug)]
pub struct TextInputView {
    pub title: String,
    pub text: String,
    pub hint: &'static str,
    pub cursor_column: usize,
}

/// Lays a prompt out.
pub fn render_text_input(prompt: &TextInputPrompt) -> (r: TextInputView)
    ensures
        r.title@ == " "@ + prompt.title@ + " "@,
        r.text == prompt.text.value,
        r.hint@ == "[Enter] Confirm   [Esc] Cancel"@,
        r.cursor_column == prompt.text.cursor,
{
    TextInputView {
        title: joined_text(joined_text(" ", prompt.title.as_str()).as_str(), " "),
        text: prompt.text.value.clone(),
        hint: "[Enter] Confirm   [Esc] Cancel",
        cursor_column: prompt.text.cursor,
    }
}

/// The line that names the function keys.
pub fn render_fkey_bar() -> (r: &'static str)
    ensures
        r@
            == "F1 Help  F2 Menu  F3 Edit  F4 Sync  F5 Copy  F6 Move  F7 MkDir  F8 Delete  F9 Connect  F10 Quit "@,
{
    "F1 Help  F2 Menu  F3 Edit  F4 Sync  F5 Copy  F6 Move  F7 MkDir  F8 Delete  F9 Connect  F10 Quit "
}

/// How far two numbers are apart.
pub open spec fn gap(a: int, b: int) -> int {
    if a < b {
        b - a
    } else {
        a - b
    }
}

/// Rounding gives the nearest whole number: what it is off by is no more than
/// half.
pub proof fn law_rounded(a: nat, b: nat)
    requires
        b > 0,
    ensures
        2 * gap((rounded(a, b) * b) as int, a as int) <= b,
        a % b == 0 ==> rounded(a, b) * b == a,
{
    let q = a / b;
    let r = a % b;
    assert(a == q * b + r) by (nonlinear_arith)
        requires
            b > 0,
            q == a / b,
            r == a % b,
    ;
    assert((q + 1) * b == q * b + b) by (nonlinear_arith);
}

/// Every unit is 1024 times the one before it, and a size is shown in the unit in
/// which it is at least one and less than 1024, as far as there are units.
pub proof fn law_units(n: nat, u: nat)
    ensures
        unit_size(0) == 1,
        u < 4 ==> unit_size(u + 1) == 1024 * unit_size(u),
        unit_for(n) <= 4,
        n > 0 ==> unit_size(unit_for(n)) <= n,
        unit_for(n) < 4 ==> n < 1024 * unit_size(unit_for(n)),
{
}

/// The number that a size is shown as is the size in its unit, to the nearest
/// tenth. Sizes up to many terabytes are not rounded before that.
pub proof fn law_size_is_shown(bytes: nat) -> (t: nat)
    requires
        bytes < 0x20_0000_0000_0000,
    ensures
        float_of(bytes) == bytes,
        scaled_text(bytes) == numbers::decimal(t / 10).push('.').push(numbers::digit_char(t % 10)),
        2 * gap((t * unit_size(unit_for(bytes))) as int, 10 * bytes as int) <= unit_size(unit_for(bytes)),
{
    law_rounded(bytes, 1);
    assert(rounded(bytes, 1) * 1 == bytes);
    assert(float_of(bytes) == bytes);
    let u = unit_size(unit_for(bytes));
    law_rounded(10 * bytes, u);
    rounded(10 * bytes, u)
}

/// A larger size is off by no more than half of what 64-bit floats are apart there.
pub proof fn law_large_sizes(bytes: nat)
    requires
        bytes < 0x1_0000_0000_0000_0000,
    ensures
        2 * gap(float_of(bytes) as int, bytes as int) <= float_step(bytes) <= 2048,
{
    lemma_float_step(bytes);
    law_rounded(bytes, float_step(bytes));
}

/// Small sizes are shown to the byte, and a directory shows no size.
pub proof fn law_small_sizes(size: u64, kind: EntryKind)
    ensures
        size < 1024 && !(kind is Dir) ==> size_text(size, kind) == numbers::decimal(size as nat)
            + "B"@,
        size < 1024 ==> bytes_text(size) == numbers::decimal(size as nat) + " B"@,
        kind is Dir ==> size_text(size, kind) == "<DIR>"@,
        1024 <= size < 0x10_0000 && !(kind is Dir) ==> size_text(size, kind).last() == 'K',
        0x10_0000 <= size < 0x4000_0000 && !(kind is Dir) ==> size_text(size, kind).last() == 'M',
        0x4000_0000 <= size < 0x100_0000_0000 && !(kind is Dir) ==> size_text(size, kind).last()
            == 'G',
        0x100_0000_0000 <= size < 0x20_0000_0000_0000 && !(kind is Dir) ==> size_text(
            size,
            kind,
        ).last() == 'T',
{
    if size < 0x20_0000_0000_0000 {
        let t = law_size_is_shown(size as nat);
    }
    reveal_strlit("K");
    reveal_strlit("M");
    reveal_strlit("G");
    reveal_strlit("T");
}

/// The nine letters of the permissions stand for the nine lowest bits of the mode,
/// those of the owner first.
pub proof fn law_permissions(m: u32)
    ensures
        perms_text(Some(m)).len() == 9,
        perms_text(Some(m))[0] == (if m & 0o400 != 0 { 'r' } else { '-' }),
        perms_text(Some(m))[1] == (if m & 0o200 != 0 { 'w' } else { '-' }),
        perms_text(Some(m))[2] == (if m & 0o100 != 0 { 'x' } else { '-' }),
        perms_text(Some(m))[3] == (if m & 0o040 != 0 { 'r' } else { '-' }),
        perms_text(Some(m))[4] == (if m & 0o020 != 0 { 'w' } else { '-' }),
        perms_text(Some(m))[5] == (if m & 0o010 != 0 { 'x' } else { '-' }),
        perms_text(Some(m))[6] == (if m & 0o004 != 0 { 'r' } else { '-' }),
        perms_text(Some(m))[7] == (if m & 0o002 != 0 { 'w' } else { '-' }),
        perms_text(Some(m))[8] == (if m & 0o001 != 0 { 'x' } else { '-' }),
{
    assert((m / 256 % 2 == 1 <==> m & 0o400 != 0) && (m / 128 % 2 == 1 <==> m & 0o200 != 0) && (m
        / 64 % 2 == 1 <==> m & 0o100 != 0) && (m / 32 % 2 == 1 <==> m & 0o040 != 0) && (m / 16 % 2
        == 1 <==> m & 0o020 != 0) && (m / 8 % 2 == 1 <==> m & 0o010 != 0) && (m / 4 % 2 == 1
        <==> m & 0o004 != 0) && (m / 2 % 2 == 1 <==> m & 0o002 != 0) && (m / 1 % 2 == 1 <==> m
        & 0o001 != 0)) by (bit_vector);
}

/// A row shows the name of its entry, marks directories and links, and no row but
/// that of the active panel's cursor looks like it.
pub proof fn law_row(row: PanelRow, p: PanelState, i: int, is_active: bool)
    requires
        is_row_of(row, p, i, is_active),
    ensures
        p.entries@[i].name@.is_prefix_of(row.name@),
        p.entries@[i].kind is Dir ==> row.name@ == p.entries@[i].name@.push('/'),
        p.entries@[i].kind is Symlink ==> row.name@ == p.entries@[i].name@.push('@'),
        p.entries@[i].kind is File ==> row.name@ == p.entries@[i].name@,
        row.style == RowStyle::Cursor <==> i == p.cursor && is_active,
        row.style == RowStyle::Selected ==> panel::has_path(
            p.selected@,
            p.entries@[i].path@,
        ),
        row.style == RowStyle::Plain ==> !panel::has_path(p.selected@, p.entries@[i].path@),
{
    reveal_strlit("/");
    reveal_strlit("@");
    let name = p.entries@[i].name@;
    assert(name + "/"@ =~= name.push('/'));
    assert(name + "@"@ =~= name.push('@'));
}

/// A panel that was scrolled for its screen shows the entry under its cursor, and
/// as many entries as there are or as there is room for.
pub proof fn law_cursor_is_on_screen(before: PanelState, p: PanelState)
    requires
        before.cursor < before.entries@.len() <= usize::MAX,
        p.viewport_height > 0,
        p == (PanelState {
            viewport_height: p.viewport_height,
            scroll_offset: panel::viewport_offset(
                before.scroll_offset as int,
                before.cursor as int,
                p.viewport_height as int,
                before.entries@.len() as int,
            ) as usize,
            ..before
        }),
    ensures
        p.scroll_offset <= p.cursor < p.scroll_offset + shown_rows(p),
        shown_rows(p) <= p.viewport_height,
        shown_rows(p) == p.viewport_height || shown_rows(p) == p.entries@.len(),
{
    panel::law_viewport(
        before.scroll_offset as int,
        before.cursor as int,
        p.viewport_height as int,
        before.entries@.len() as int,
    );
}

/// The name of a location tells it from the local one, ends in what it names, and
/// for an archive begins with the name of the place that the archive is in.
pub proof fn law_labels(location: Location)
    ensures
        location matches Location::Remote { profile_id } ==> label_text(location).skip(7)
            == profile_id@,
        location matches Location::Archive { base, archive_path } ==> {
            &&& label_text(*base).is_prefix_of(label_text(location))
            &&& label_text(location).skip(label_text(*base).len() as int + 2) == archive_path@
            &&& symbol_text(location) == symbol_text(*base)
        },
        location is Remote ==> symbol_text(location) != symbol_text(Location::Local) && label_text(
            location,
        ) != label_text(Location::Local),
{
    reveal_strlit("remote:");
    reveal_strlit("local");
    reveal_strlit("::");
    reveal_strlit("⌂");
    reveal_strlit("⇄");
    match location {
        Location::Remote { profile_id } => {
            assert(("remote:"@ + profile_id@).skip(7) =~= profile_id@);
            assert(label_text(location)[0] == 'r');
            assert(label_text(Location::Local)[0] == 'l');
            assert("⌂"@[0] != "⇄"@[0]);
        },
        Location::Archive { base, archive_path } => {
            let inner = label_text(*base);
            assert((inner + "::"@ + archive_path@).skip(inner.len() as int + 2) =~= archive_path@);
        },
        _ => {},
    }
}

/// The title of a panel ends in its directory.
pub proof fn law_title(p: PanelState)
    ensures
        ({
            let t = title_text(p);
            t.len() > p.cwd@.len() && t.subrange(t.len() - 1 - p.cwd@.len(), t.len() - 1) == p.cwd@
        }),
{
    reveal_strlit(" ");
    reveal_strlit(":");
    let t = title_text(p);
    assert(t.subrange(t.len() - 1 - p.cwd@.len(), t.len() - 1) =~= p.cwd@);
}

/// The bar of a job is full exactly when all is done that there is to do, and is
/// never shorter when more is done.
pub proof fn law_bar(p: JobProgress, q: JobProgress)
    ensures
        fraction(p).0 <= fraction(p).1,
        fraction(p).1 > 0,
        p.bytes_total > 0 ==> fraction(p).1 == p.bytes_total && (fraction(p).0 == fraction(p).1
            <==> p.bytes_done >= p.bytes_total) && (p.bytes_done <= p.bytes_total ==> fraction(p).0
            == p.bytes_done),
        p.bytes_total == 0 && p.files_total > 0 ==> fraction(p).1 == p.files_total && (fraction(
            p,
        ).0 == fraction(p).1 <==> p.files_done >= p.files_total) && (p.files_done <= p.files_total
            ==> fraction(p).0 == p.files_done),
        p.bytes_total == 0 && p.files_total == 0 ==> fraction(p).0 == 0,
        p.bytes_total == q.bytes_total && p.files_total == q.files_total && p.bytes_done
            <= q.bytes_done && p.files_done <= q.files_done ==> fraction(p).0 <= fraction(q).0,
{
}

/// The connect dialog has a line for each field, in order, with its label and what
/// may be shown of its value; only the field in focus is marked.
pub proof fn law_field_lines(form: ConnectForm, i: int)
    requires
        0 <= i < form.fields@.len(),
    ensures
        connect_lines(form).len() > i,
        form.fields@[i].label@.is_prefix_of(connect_lines(form)[i].1),
        !form.fields@[i].secret && form.fields@[i].label@.len() < 9 ==> connect_lines(
            form,
        )[i].1.skip(9) == form.fields@[i].text.value@,
        form.fields@[i].secret && form.fields@[i].label@.len() < 9 ==> connect_lines(
            form,
        )[i].1.len() == 9 + form.fields@[i].text.value@.len() && forall|k: int|
            9 <= k < connect_lines(form)[i].1.len() ==> #[trigger] connect_lines(form)[i].1[k]
                == '*',
        connect_lines(form)[i].0 == LineKind::Focused <==> i == form.focus,
{
    reveal_strlit(":");
    let f = form.fields@[i];
    assert(connect_lines(form)[i] == field_lines(form)[i]);
    let label = f.label@ + ":"@;
    let line = connect_lines(form)[i].1;
    assert(line == padded(label, 9) + shown_value(f));
    if f.label@.len() < 9 {
        assert(padded(label, 9).len() == 9);
        assert(line.skip(9) =~= shown_value(f));
    }
}

/// A panel that has room shows entries that follow one another, each with its own
/// name, and among them the one under the cursor; in the active panel that row and
/// no other stands out as the cursor's. Nothing of the panel changes but how far it
/// is scrolled.
pub proof fn law_panel_is_shown(
    before: PanelState,
    area_height: u16,
    is_active: bool,
    after: PanelState,
    view: PanelView,
    k: int,
)
    requires
        is_shown(before, area_height, is_active, after, view),
        before.cursor < before.entries@.len() <= usize::MAX,
        area_height > 2,
    ensures
        after.entries == before.entries,
        after.cursor == before.cursor,
        after.selected == before.selected,
        after.cwd == before.cwd,
        after.viewport_height == area_height - 2,
        after.scroll_offset <= before.cursor < after.scroll_offset + view.rows@.len(),
        view.rows@.len() == area_height - 2 || view.rows@.len() == before.entries@.len(),
        0 <= k < view.rows@.len() ==> {
            &&& after.scroll_offset + k < before.entries@.len()
            &&& before.entries@[after.scroll_offset + k].name@.is_prefix_of(view.rows@[k].name@)
            &&& view.rows@[k].style == RowStyle::Cursor <==> is_active && after.scroll_offset + k
                == before.cursor
        },
{
    law_cursor_is_on_screen(before, after);
    if 0 <= k < view.rows@.len() {
        law_row(view.rows@[k], after, after.scroll_offset + k, is_active);
    }
}

} // verus!
