//! Maps configurable actions (the F-key commands) to keys, with built-in
//! defaults that the config can override.

use vstd::prelude::*;

use crate::config::KeyBindings;
use crate::numbers;
use crate::text;
use crate::text::{same_chars, slice_chars, to_chars, trim_chars};

verus! {

/// A key of the keyboard.
#[derive(Clone, Copy, Debug, PartialEq, Eq, Structural)]
pub enum KeyCode {
    Backspace,
    Enter,
    Left,
    Right,
    Up,
    Down,
    Home,
    End,
    PageUp,
    PageDown,
    Tab,
    Esc,
    F(u8),
    Char(char),
    /// Any key that nothing here is bound to.
    Other,
}

/// What a key can be bound to.
#[derive(Clone, Copy, Debug, PartialEq, Eq, Structural)]
pub enum Action {
    Quit,
    Edit,
    Sync,
    Copy,
    Move,
    Mkdir,
    Delete,
    Connect,
    Help,
}

impl Action {
    /// The name by which the config knows the action.
    pub open spec fn spec_name(self) -> Seq<char> {
        match self {
            Action::Quit => "quit"@,
            Action::Edit => "edit"@,
            Action::Sync => "sync"@,
            Action::Copy => "copy"@,
            Action::Move => "move"@,
            Action::Mkdir => "mkdir"@,
            Action::Delete => "delete"@,
            Action::Connect => "connect"@,
            Action::Help => "help"@,
        }
    }

    /// The name by which the config knows the action.
    pub fn name(&self) -> (r: &'static str)
        ensures
            r@ == self.spec_name(),
    {
        match self {
            Action::Quit => "quit",
            Action::Edit => "edit",
            Action::Sync => "sync",
            Action::Copy => "copy",
            Action::Move => "move",
            Action::Mkdir => "mkdir",
            Action::Delete => "delete",
            Action::Connect => "connect",
            Action::Help => "help",
        }
    }

    /// The key that an action has unless the config says otherwise. Help has
    /// none of its own: its key works as long as nothing else is bound to it.
    pub open spec fn default_key(self) -> Option<KeyCode> {
        match self {
            Action::Quit => Some(KeyCode::F(10)),
            Action::Edit => Some(KeyCode::F(3)),
            Action::Sync => Some(KeyCode::F(4)),
            Action::Copy => Some(KeyCode::F(5)),
            Action::Move => Some(KeyCode::F(6)),
            Action::Mkdir => Some(KeyCode::F(7)),
            Action::Delete => Some(KeyCode::F(8)),
            Action::Connect => Some(KeyCode::F(9)),
            Action::Help => None,
        }
    }

    fn built_in_key(&self) -> (r: Option<KeyCode>)
        ensures
            r == self.default_key(),
    {
        match self {
            Action::Quit => Some(KeyCode::F(10)),
            Action::Edit => Some(KeyCode::F(3)),
            Action::Sync => Some(KeyCode::F(4)),
            Action::Copy => Some(KeyCode::F(5)),
            Action::Move => Some(KeyCode::F(6)),
            Action::Mkdir => Some(KeyCode::F(7)),
            Action::Delete => Some(KeyCode::F(8)),
            Action::Connect => Some(KeyCode::F(9)),
            Action::Help => None,
        }
    }
}

/// The key that a name written out stands for.
pub open spec fn named_key(s: Seq<char>) -> Option<KeyCode> {
    if s == "Esc"@ || s == "Escape"@ {
        Some(KeyCode::Esc)
    } else if s == "Enter"@ || s == "Return"@ {
        Some(KeyCode::Enter)
    } else if s == "Tab"@ {
        Some(KeyCode::Tab)
    } else if s == "Backspace"@ {
        Some(KeyCode::Backspace)
    } else if s == "Space"@ {
        Some(KeyCode::Char(' '))
    } else if s == "Left"@ {
        Some(KeyCode::Left)
    } else if s == "Right"@ {
        Some(KeyCode::Right)
    } else if s == "Up"@ {
        Some(KeyCode::Up)
    } else if s == "Down"@ {
        Some(KeyCode::Down)
    } else if s == "Home"@ {
        Some(KeyCode::Home)
    } else if s == "End"@ {
        Some(KeyCode::End)
    } else if s.len() == 1 {
        Some(KeyCode::Char(s[0]))
    } else {
        None
    }
}

/// Whether a trimmed key name is that of a function key: an `F` and digits.
pub open spec fn is_function_name(s: Seq<char>) -> bool {
    &&& s.len() > 1
    &&& s[0] == 'F' || s[0] == 'f'
    &&& numbers::all_digits(s.skip(1), 10)
}

/// The key that a key name of the config stands for: `F` and a number up to
/// 255, one of the written-out names, or a single character taken literally.
pub open spec fn key_named(text_given: Seq<char>) -> Option<KeyCode> {
    let s = text::trimmed(text_given);
    if is_function_name(s) {
        match numbers::parsed(s.skip(1), 10, 255) {
            Some(n) => Some(KeyCode::F(n as u8)),
            None => None,
        }
    } else {
        named_key(s)
    }
}

fn is_text(s: &Vec<char>, other: &str) -> (r: bool)
    ensures
        r == (s@ == other@),
{
    same_chars(s, &to_chars(other))
}

fn find_named_key(s: &Vec<char>) -> (r: Option<KeyCode>)
    ensures
        r == named_key(s@),
{
    if is_text(s, "Esc") || is_text(s, "Escape") {
        Some(KeyCode::Esc)
    } else if is_text(s, "Enter") || is_text(s, "Return") {
        Some(KeyCode::Enter)
    } else if is_text(s, "Tab") {
        Some(KeyCode::Tab)
    } else if is_text(s, "Backspace") {
        Some(KeyCode::Backspace)
    } else if is_text(s, "Space") {
        Some(KeyCode::Char(' '))
    } else if is_text(s, "Left") {
        Some(KeyCode::Left)
    } else if is_text(s, "Right") {
        Some(KeyCode::Right)
    } else if is_text(s, "Up") {
        Some(KeyCode::Up)
    } else if is_text(s, "Down") {
        Some(KeyCode::Down)
    } else if is_text(s, "Home") {
        Some(KeyCode::Home)
    } else if is_text(s, "End") {
        Some(KeyCode::End)
    } else if s.len() == 1 {
        Some(KeyCode::Char(s[0]))
    } else {
        None
    }
}

fn all_decimal(s: &Vec<char>) -> (r: bool)
    ensures
        r == numbers::all_digits(s@, 10),
{
    let mut i: usize = 0;
    while i < s.len()
        invariant
            i <= s@.len(),
            forall|k: int| 0 <= k < i ==> #[trigger] numbers::is_digit(s@[k], 10),
        decreases s.len() - i,
    {
        if !('0' <= s[i] && s[i] <= '9') {
            proof {
                assert(!numbers::is_digit(s@[i as int], 10));
            }
            return false;
        }
        i += 1;
    }
    true
}

/// Reads a key name of the config. There are no modifier combinations.
pub fn parse_key_name(s: &str) -> (r: Option<KeyCode>)
    ensures
        r == key_named(s@),
{
    let t: Vec<char> = trim_chars(&to_chars(s));
    if t.len() > 1 && (t[0] == 'F' || t[0] == 'f') {
        let rest: Vec<char> = slice_chars(&t, 1, t.len());
        proof {
            assert(rest@ =~= t@.skip(1));
        }
        if all_decimal(&rest) {
            return match numbers::parse_number(&rest, 10, 255) {
                Some(n) => Some(KeyCode::F(n as u8)),
                None => None,
            };
        }
    }
    find_named_key(&t)
}

/// Which key each action has.
#[derive(Debug)]
pub struct Keymap {
    pub quit: KeyCode,
    pub edit: KeyCode,
    pub sync: KeyCode,
    pub copy: KeyCode,
    pub move_items: KeyCode,
    pub mkdir: KeyCode,
    pub delete: KeyCode,
    pub connect: KeyCode,
    /// The key for help, if the config binds one.
    pub help: Option<KeyCode>,
}

/// The key that an action has under some overrides: the one that the config
/// names if that name means a key, and else the built-in one.
pub open spec fn resolved(overrides: Map<Seq<char>, Seq<char>>, action: Action) -> Option<KeyCode> {
    if overrides.contains_key(action.spec_name()) && key_named(
        overrides[action.spec_name()],
    ) is Some {
        key_named(overrides[action.spec_name()])
    } else {
        action.default_key()
    }
}

fn resolve(overrides: &KeyBindings, action: Action) -> (r: Option<KeyCode>)
    ensures
        r == resolved(overrides@, action),
{
    match overrides.get(action.name()) {
        Some(key) => match parse_key_name(key.as_str()) {
            Some(code) => Some(code),
            None => action.built_in_key(),
        },
        None => action.built_in_key(),
    }
}

fn or_key(key: Option<KeyCode>, default: KeyCode) -> (r: KeyCode)
    ensures
        r == (match key {
            Some(k) => k,
            None => default,
        }),
{
    match key {
        Some(k) => k,
        None => default,
    }
}

impl Keymap {
    /// The key of an action; help may have none.
    pub open spec fn key_of(self, action: Action) -> Option<KeyCode> {
        match action {
            Action::Quit => Some(self.quit),
            Action::Edit => Some(self.edit),
            Action::Sync => Some(self.sync),
            Action::Copy => Some(self.copy),
            Action::Move => Some(self.move_items),
            Action::Mkdir => Some(self.mkdir),
            Action::Delete => Some(self.delete),
            Action::Connect => Some(self.connect),
            Action::Help => self.help,
        }
    }

    /// Builds the effective keymap: the built-in keys, with any override that
    /// names a known action and a key in their place. Other overrides are
    /// ignored.
    pub fn from_overrides(overrides: &KeyBindings) -> (r: Self)
        ensures
            forall|action: Action| #[trigger] r.key_of(action) == resolved(overrides@, action),
    {
        Keymap {
            quit: or_key(resolve(overrides, Action::Quit), KeyCode::F(10)),
            edit: or_key(resolve(overrides, Action::Edit), KeyCode::F(3)),
            sync: or_key(resolve(overrides, Action::Sync), KeyCode::F(4)),
            copy: or_key(resolve(overrides, Action::Copy), KeyCode::F(5)),
            move_items: or_key(resolve(overrides, Action::Move), KeyCode::F(6)),
            mkdir: or_key(resolve(overrides, Action::Mkdir), KeyCode::F(7)),
            delete: or_key(resolve(overrides, Action::Delete), KeyCode::F(8)),
            connect: or_key(resolve(overrides, Action::Connect), KeyCode::F(9)),
            help: resolve(overrides, Action::Help),
        }
    }

    /// The action that a key is bound to; of several actions with the same key
    /// the first in the order of [`Action`].
    pub open spec fn lookup(self, key: KeyCode) -> Option<Action> {
        if self.quit == key {
            Some(Action::Quit)
        } else if self.edit == key {
            Some(Action::Edit)
        } else if self.sync == key {
            Some(Action::Sync)
        } else if self.copy == key {
            Some(Action::Copy)
        } else if self.move_items == key {
            Some(Action::Move)
        } else if self.mkdir == key {
            Some(Action::Mkdir)
        } else if self.delete == key {
            Some(Action::Delete)
        } else if self.connect == key {
            Some(Action::Connect)
        } else if self.help == Some(key) {
            Some(Action::Help)
        } else {
            None
        }
    }

    /// The action that a key is bound to.
    pub fn find(&self, key: KeyCode) -> (r: Option<Action>)
        ensures
            r == self.lookup(key),
    {
        if self.quit == key {
            Some(Action::Quit)
        } else if self.edit == key {
            Some(Action::Edit)
        } else if self.sync == key {
            Some(Action::Sync)
        } else if self.copy == key {
            Some(Action::Copy)
        } else if self.move_items == key {
            Some(Action::Move)
        } else if self.mkdir == key {
            Some(Action::Mkdir)
        } else if self.delete == key {
            Some(Action::Delete)
        } else if self.connect == key {
            Some(Action::Connect)
        } else {
            match self.help {
                Some(k) => if k == key {
                    Some(Action::Help)
                } else {
                    None
                },
                None => None,
            }
        }
    }

    /// The name of the action that a key is bound to.
    pub fn action_for(&self, key: KeyCode) -> (r: Option<&'static str>)
        ensures
            match self.lookup(key) {
                Some(action) => r matches Some(name) && name@ == action.spec_name(),
                None => r is None,
            },
    {
        match self.find(key) {
            Some(action) => Some(action.name()),
            None => None,
        }
    }
}

impl Default for Keymap {
    fn default() -> (r: Self)
        ensures
            forall|action: Action| #[trigger] r.key_of(action) == action.default_key(),
    {
        Keymap::from_overrides(&KeyBindings::new())
    }
}

/// Every action that has a key is found by it or gives way to an earlier
/// action with the same key, and a key that nothing is bound to finds nothing.
pub proof fn law_lookup(keymap: Keymap, key: KeyCode)
    ensures
        keymap.lookup(key) matches Some(action) ==> keymap.key_of(action) == Some(key),
        keymap.lookup(key) is None ==> forall|action: Action|
            #[trigger] keymap.key_of(action) != Some(key),
{
}

/// An override whose key name means nothing leaves the action with its
/// built-in key.
pub proof fn law_bad_override_is_ignored(overrides: Map<Seq<char>, Seq<char>>, action: Action)
    requires
        overrides.contains_key(action.spec_name()),
        key_named(overrides[action.spec_name()]) is None,
    ensures
        resolved(overrides, action) == action.default_key(),
{
}

/// Of several actions with the same key the first has it: quitting before editing,
/// and so on in the order of the function keys.
pub proof fn law_first_action_wins(keymap: Keymap, key: KeyCode)
    ensures
        keymap.quit == key ==> keymap.lookup(key) == Some(Action::Quit),
        keymap.edit == key && keymap.quit != key ==> keymap.lookup(key) == Some(Action::Edit),
        keymap.sync == key && keymap.quit != key && keymap.edit != key ==> keymap.lookup(key)
            == Some(Action::Sync),
        keymap.copy == key && keymap.quit != key && keymap.edit != key && keymap.sync != key
            ==> keymap.lookup(key) == Some(Action::Copy),
        keymap.help == Some(key) && keymap.lookup(key) != Some(Action::Help) ==> exists|
            action: Action,
        | action != Action::Help && #[trigger] keymap.key_of(action) == Some(key),
{
    if keymap.help == Some(key) {
        match keymap.lookup(key) {
            Some(action) => {
                assert(keymap.key_of(action) == Some(key));
            },
            None => {},
        }
    }
}

/// A function key can be named by an `F` and its number, and a character by itself;
/// an action that the config gives such a name has that key and no other.
pub proof fn law_override_takes_effect(
    overrides: Map<Seq<char>, Seq<char>>,
    action: Action,
    n: u8,
    c: char,
)
    ensures
        overrides.contains_key(action.spec_name()) && overrides[action.spec_name()] == seq!['F']
            + numbers::decimal(n as nat) ==> resolved(overrides, action) == Some(KeyCode::F(n)),
        overrides.contains_key(action.spec_name()) && overrides[action.spec_name()] == seq![c]
            && 0x21 <= c as int <= 0x7e ==> resolved(overrides, action) == Some(KeyCode::Char(c)),
        !overrides.contains_key(action.spec_name()) ==> resolved(overrides, action)
            == action.default_key(),
{
    let d = numbers::decimal(n as nat);
    let name = seq!['F'] + d;
    numbers::lemma_decimal_reads_back(n as nat, 255);
    numbers::lemma_decimal_digits(n as nat);
    assert(name.skip(1) =~= d);
    assert(name.last() == d.last());
    assert(numbers::is_digit(d.last(), 10));
    text::law_trimmed_keeps(name);
    assert(key_named(name) == Some(KeyCode::F(n)));
    if 0x21 <= c as int <= 0x7e {
        let one = seq![c];
        text::law_trimmed_keeps(one);
        lemma_single(one);
    }
}

proof fn lemma_single(s: Seq<char>)
    requires
        s.len() == 1,
    ensures
        named_key(s) == Some(KeyCode::Char(s[0])),
{
    reveal_strlit("Esc");
    reveal_strlit("Escape");
    reveal_strlit("Enter");
    reveal_strlit("Return");
    reveal_strlit("Tab");
    reveal_strlit("Backspace");
    reveal_strlit("Space");
    reveal_strlit("Left");
    reveal_strlit("Right");
    reveal_strlit("Up");
    reveal_strlit("Down");
    reveal_strlit("Home");
    reveal_strlit("End");
}

/// Different actions have different names and different built-in keys, so that an
/// override of one never changes another.
pub proof fn law_actions_differ(a: Action, b: Action)
    requires
        a != b,
    ensures
        a.spec_name() != b.spec_name(),
        a.default_key() is Some ==> a.default_key() != b.default_key(),
{
    reveal_strlit("quit");
    reveal_strlit("edit");
    reveal_strlit("sync");
    reveal_strlit("copy");
    reveal_strlit("move");
    reveal_strlit("mkdir");
    reveal_strlit("delete");
    reveal_strlit("connect");
    reveal_strlit("help");
    assert("quit"@[0] == 'q');
    assert("edit"@[0] == 'e');
    assert("sync"@[0] == 's');
    assert("copy"@[0] == 'c' && "copy"@[2] == 'p');
    assert("move"@[0] == 'm' && "move"@[1] == 'o');
    assert("mkdir"@[0] == 'm' && "mkdir"@[1] == 'k');
    assert("delete"@[0] == 'd');
    assert("connect"@[0] == 'c' && "connect"@[2] == 'n');
    assert("help"@[0] == 'h');
}

/// How a config names a key; a key that cannot be named has no name.
pub open spec fn name_of(key: KeyCode) -> Option<Seq<char>> {
    match key {
        KeyCode::Backspace => Some("Backspace"@),
        KeyCode::Enter => Some("Enter"@),
        KeyCode::Left => Some("Left"@),
        KeyCode::Right => Some("Right"@),
        KeyCode::Up => Some("Up"@),
        KeyCode::Down => Some("Down"@),
        KeyCode::Home => Some("Home"@),
        KeyCode::End => Some("End"@),
        KeyCode::Tab => Some("Tab"@),
        KeyCode::Esc => Some("Esc"@),
        KeyCode::F(n) => Some(seq!['F'] + numbers::decimal(n as nat)),
        KeyCode::Char(c) => if c == ' ' {
            Some("Space"@)
        } else if 0x21 <= c as int <= 0x7e {
            Some(seq![c])
        } else {
            None
        },
        _ => None,
    }
}

/// Every key that has a name is meant by it, also with white space around it, and by
/// no other key's name.
pub proof fn law_key_names(key: KeyCode, other: KeyCode, written: Seq<char>)
    requires
        name_of(key) is Some,
    ensures
        key_named(name_of(key)->0) == Some(key),
        text::is_padded(written, name_of(key)->0) ==> key_named(written) == Some(key),
        name_of(other) == name_of(key) ==> other == key,
{
    lemma_key_name(key);
    text::law_padding_does_not_count(written, name_of(key)->0);
    if name_of(other) == name_of(key) {
        lemma_key_name(other);
    }
}

proof fn lemma_key_name(key: KeyCode)
    requires
        name_of(key) is Some,
    ensures
        key_named(name_of(key)->0) == Some(key),
        text::trimmed(name_of(key)->0) == name_of(key)->0,
        text::has_firm_ends(name_of(key)->0),
{
    reveal_strlit("Esc");
    reveal_strlit("Escape");
    reveal_strlit("Enter");
    reveal_strlit("Return");
    reveal_strlit("Tab");
    reveal_strlit("Backspace");
    reveal_strlit("Space");
    reveal_strlit("Left");
    reveal_strlit("Right");
    reveal_strlit("Up");
    reveal_strlit("Down");
    reveal_strlit("Home");
    reveal_strlit("End");
    assert("Esc"@[0] == 'E' && "Esc"@[1] == 's');
    assert("Enter"@[0] == 'E' && "Enter"@[1] == 'n');
    assert("End"@[0] == 'E' && "End"@[1] == 'n');
    assert("Tab"@[0] == 'T');
    assert("Backspace"@[0] == 'B');
    assert("Space"@[0] == 'S');
    assert("Left"@[0] == 'L');
    assert("Right"@[0] == 'R' && "Right"@[1] == 'i');
    assert("Return"@[0] == 'R' && "Return"@[1] == 'e');
    assert("Up"@[0] == 'U');
    assert("Down"@[0] == 'D');
    assert("Home"@[0] == 'H');
    let name = name_of(key)->0;
    match key {
        KeyCode::F(n) => {
            let d = numbers::decimal(n as nat);
            numbers::lemma_decimal_reads_back(n as nat, 255);
            numbers::lemma_decimal_digits(n as nat);
            assert(name.skip(1) =~= d);
            assert(name.last() == d.last());
            assert(numbers::is_digit(d.last(), 10));
            text::law_trimmed_keeps(name);
        },
        KeyCode::Char(c) => {
            text::law_trimmed_keeps(name);
            if c != ' ' {
                lemma_single(name);
            }
        },
        _ => {
            text::law_trimmed_keeps(name);
        },
    }
}

} // verus!
