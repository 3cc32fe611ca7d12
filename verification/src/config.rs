//! Application config: general settings, keybinding overrides, saved SSH
//! connection profiles (never a password), and the last session's local panel
//! locations.

use vstd::prelude::*;

use crate::path::VfsPath;
use crate::text::{joined_text, owned};

verus! {

/// General settings.
#[derive(Clone, Copy, Debug, PartialEq, Eq, Structural)]
pub struct GeneralConfig {
    pub confirm_delete: bool,
    pub show_hidden: bool,
    /// Whether `sync` also removes what only the destination has.
    pub sync_delete_extraneous: bool,
    /// Whether a copy between a local and a remote side may use the QUIC agent.
    pub enable_quic_fast_path: bool,
}

/// The settings of a first run.
pub open spec fn default_general() -> GeneralConfig {
    GeneralConfig {
        confirm_delete: true,
        show_hidden: false,
        sync_delete_extraneous: false,
        enable_quic_fast_path: false,
    }
}

impl Default for GeneralConfig {
    fn default() -> (r: Self)
        ensures
            r == default_general(),
    {
        GeneralConfig {
            confirm_delete: true,
            show_hidden: false,
            sync_delete_extraneous: false,
            enable_quic_fast_path: false,
        }
    }
}

/// A saved connection: everything needed to refill the Connect dialog's
/// host/port/username fields. There is no password in it on purpose.
#[derive(Debug)]
pub struct ConnectionProfileConfig {
    pub id: String,
    pub host: String,
    pub port: u16,
    pub username: String,
}

/// Where a saved panel was.
#[derive(Debug)]
pub enum PanelLocationConfig {
    Local,
    Remote { profile_id: String },
}

/// A saved panel.
#[derive(Debug)]
pub struct PanelSessionConfig {
    pub location: PanelLocationConfig,
    pub cwd: String,
}

/// The panels of the last session.
#[derive(Debug)]
pub struct SessionConfig {
    pub left: Option<PanelSessionConfig>,
    pub right: Option<PanelSessionConfig>,
}

/// Action name (e.g. `"copy"`) to key name (e.g. `"F5"`).
#[derive(Debug)]
pub struct KeyBindings {
    items: Vec<(String, String)>,
}

/// The position of the first binding of an action in a list of actions and keys,
/// or -1.
pub open spec fn position_of(
    bindings: Seq<(Seq<char>, Seq<char>)>,
    action: Seq<char>,
    from: int,
) -> int
    decreases bindings.len() - from,
{
    if from < 0 || from >= bindings.len() {
        -1
    } else if bindings[from].0 == action {
        from
    } else {
        position_of(bindings, action, from + 1)
    }
}

/// What a list of actions and keys binds: for each action its first key.
pub open spec fn binding_map(bindings: Seq<(Seq<char>, Seq<char>)>) -> Map<Seq<char>, Seq<char>> {
    Map::new(
        |action: Seq<char>| position_of(bindings, action, 0) >= 0,
        |action: Seq<char>| bindings[position_of(bindings, action, 0)].1,
    )
}

/// The list in which `action` is bound to `key`: in place of its other key, or
/// else at the end.
pub open spec fn rebound(
    bindings: Seq<(Seq<char>, Seq<char>)>,
    action: Seq<char>,
    key: Seq<char>,
) -> Seq<(Seq<char>, Seq<char>)> {
    let at = position_of(bindings, action, 0);
    if at >= 0 {
        bindings.update(at, (action, key))
    } else {
        bindings.push((action, key))
    }
}

impl View for KeyBindings {
    type V = Map<Seq<char>, Seq<char>>;

    open spec fn view(&self) -> Map<Seq<char>, Seq<char>> {
        binding_map(self.bindings())
    }
}

impl KeyBindings {
    /// All bindings in order, as action and key.
    pub closed spec fn bindings(&self) -> Seq<(Seq<char>, Seq<char>)> {
        Seq::new(self.items@.len(), |i: int| (self.items@[i].0@, self.items@[i].1@))
    }

    /// Whether no action is bound twice.
    pub open spec fn is_valid(&self) -> bool {
        forall|i: int, j: int|
            0 <= i < j < self.bindings().len() ==> (#[trigger] self.bindings()[i]).0 != (
            #[trigger] self.bindings()[j]).0
    }

    /// No bindings.
    pub fn new() -> (r: Self)
        ensures
            r.is_valid(),
            r.bindings().len() == 0,
            r@ == Map::<Seq<char>, Seq<char>>::empty(),
    {
        let r = KeyBindings { items: Vec::new() };
        proof {
            assert(r@ =~= Map::<Seq<char>, Seq<char>>::empty());
        }
        r
    }

    fn position(&self, action: &str) -> (r: Option<usize>)
        ensures
            r matches Some(i) ==> i < self.bindings().len() && position_of(
                self.bindings(),
                action@,
                0,
            ) == i,
            r is None ==> position_of(self.bindings(), action@, 0) < 0,
    {
        let mut i: usize = 0;
        while i < self.items.len()
            invariant
                i <= self.items@.len(),
                position_of(self.bindings(), action@, 0) == position_of(
                    self.bindings(),
                    action@,
                    i as int,
                ),
            decreases self.items.len() - i,
        {
            if crate::text::same_text(self.items[i].0.as_str(), action) {
                return Some(i);
            }
            i += 1;
        }
        None
    }

    /// The key that is bound to an action.
    pub fn get(&self, action: &str) -> (r: Option<&String>)
        ensures
            r is Some <==> self@.contains_key(action@),
            r matches Some(key) ==> self@[action@] == key@,
    {
        match self.position(action) {
            Some(i) => Some(&self.items[i].1),
            None => None,
        }
    }

    /// Binds a key to an action, in place of any other key.
    pub fn insert(&mut self, action: String, key: String)
        ensures
            final(self).bindings() == rebound(old(self).bindings(), action@, key@),
            final(self)@ == old(self)@.insert(action@, key@),
            old(self).is_valid() ==> final(self).is_valid(),
    {
        let ghost name = action@;
        let ghost value = key@;
        proof {
            law_rebinding(self.bindings(), name, value);
        }
        match self.position(action.as_str()) {
            Some(i) => {
                self.items.set(i, (action, key));
            },
            None => {
                self.items.push((action, key));
            },
        }
        proof {
            assert(self.bindings() =~= rebound(old(self).bindings(), name, value));
        }
    }

    /// How many bindings there are.
    pub fn len(&self) -> (r: usize)
        ensures
            r == self.bindings().len(),
    {
        self.items.len()
    }

    /// The binding at a position, as action and key.
    pub fn entry(&self, i: usize) -> (r: Option<(&String, &String)>)
        ensures
            r is Some <==> i < self.bindings().len(),
            r matches Some(e) ==> (e.0@, e.1@) == self.bindings()[i as int],
    {
        if i < self.items.len() {
            Some((&self.items[i].0, &self.items[i].1))
        } else {
            None
        }
    }
}

proof fn lemma_position(bindings: Seq<(Seq<char>, Seq<char>)>, action: Seq<char>, from: int)
    requires
        0 <= from <= bindings.len(),
    ensures
        position_of(bindings, action, from) >= 0 ==> from <= position_of(bindings, action, from)
            < bindings.len() && bindings[position_of(bindings, action, from)].0 == action
            && forall|k: int|
            from <= k < position_of(bindings, action, from) ==> (#[trigger] bindings[k]).0 != action,
        position_of(bindings, action, from) < 0 ==> forall|k: int|
            from <= k < bindings.len() ==> (#[trigger] bindings[k]).0 != action,
    decreases bindings.len() - from,
{
    if from < bindings.len() && bindings[from].0 != action {
        lemma_position(bindings, action, from + 1);
    }
}

proof fn lemma_position_is(bindings: Seq<(Seq<char>, Seq<char>)>, action: Seq<char>, at: int)
    requires
        0 <= at < bindings.len(),
        bindings[at].0 == action,
        forall|k: int| 0 <= k < at ==> (#[trigger] bindings[k]).0 != action,
    ensures
        position_of(bindings, action, 0) == at,
{
    lemma_position(bindings, action, 0);
    let f = position_of(bindings, action, 0);
    if 0 <= f < at {
        assert(bindings[f].0 != action);
    }
}

/// Binding a key to an action changes nothing else: what the list binds is what
/// it bound before but for that action, and no action gets bound twice.
pub proof fn law_rebinding(
    bindings: Seq<(Seq<char>, Seq<char>)>,
    action: Seq<char>,
    key: Seq<char>,
)
    ensures
        binding_map(rebound(bindings, action, key)) == binding_map(bindings).insert(action, key),
        (forall|i: int, j: int|
            0 <= i < j < bindings.len() ==> (#[trigger] bindings[i]).0 != (
            #[trigger] bindings[j]).0) ==> forall|i: int, j: int|
            0 <= i < j < rebound(bindings, action, key).len() ==> (#[trigger] rebound(
                bindings,
                action,
                key,
            )[i]).0 != (#[trigger] rebound(bindings, action, key)[j]).0,
{
    let after = rebound(bindings, action, key);
    let at = position_of(bindings, action, 0);
    lemma_position(bindings, action, 0);
    assert forall|a: Seq<char>| a != action implies #[trigger] position_of(after, a, 0)
        == position_of(bindings, a, 0) || (position_of(after, a, 0) < 0 && position_of(
        bindings,
        a,
        0,
    ) < 0) by {
        lemma_position(bindings, a, 0);
        lemma_position(after, a, 0);
        let f = position_of(bindings, a, 0);
        let g = position_of(after, a, 0);
        if f >= 0 {
            assert forall|k: int| 0 <= k < f implies (#[trigger] after[k]).0 != a by {
                assert(bindings[k].0 != a);
            }
            assert(after[f].0 == a);
            lemma_position_is(after, a, f);
        } else if g >= 0 {
            assert(after[g].0 == a);
            assert(g < bindings.len() && g != at);
            assert(bindings[g].0 != a);
        }
    }
    let to = if at >= 0 {
        at
    } else {
        bindings.len() as int
    };
    assert forall|k: int| 0 <= k < to implies (#[trigger] after[k]).0 != action by {
        assert(bindings[k].0 != action);
    }
    lemma_position_is(after, action, to);
    let want = binding_map(bindings).insert(action, key);
    let got = binding_map(after);
    assert forall|a: Seq<char>| got.contains_key(a) == want.contains_key(a) by {
        if a != action {
            assert(position_of(after, a, 0) == position_of(bindings, a, 0) || (position_of(
                after,
                a,
                0,
            ) < 0 && position_of(bindings, a, 0) < 0));
        }
    }
    assert forall|a: Seq<char>| got.contains_key(a) implies got[a] == want[a] by {
        if a != action {
            lemma_position(bindings, a, 0);
            let f = position_of(bindings, a, 0);
            assert(position_of(after, a, 0) == f);
            assert(after[f] == bindings[f]);
        }
    }
    assert(got =~= want);
}

/// Everything that is kept from one run to the next.
#[derive(Debug)]
pub struct Config {
    pub general: GeneralConfig,
    /// Only actions present here override the built-in default.
    pub keybindings: KeyBindings,
    pub profiles: Vec<ConnectionProfileConfig>,
    pub session: SessionConfig,
}

impl Config {
    /// Whether this is the config of a first run.
    pub open spec fn is_default(self) -> bool {
        &&& self.general == default_general()
        &&& self.keybindings@ == Map::<Seq<char>, Seq<char>>::empty()
        &&& self.profiles@.len() == 0
        &&& self.session.left is None
        &&& self.session.right is None
    }
}

impl Default for Config {
    fn default() -> (r: Self)
        ensures
            r.is_default(),
    {
        Config {
            general: GeneralConfig::default(),
            keybindings: KeyBindings::new(),
            profiles: Vec::new(),
            session: SessionConfig { left: None, right: None },
        }
    }
}

/// Why a config could not be loaded or saved.
#[derive(Debug)]
pub enum ConfigError {
    NoConfigDir,
    Read(VfsPath, String),
    Parse(VfsPath, String),
    Write(VfsPath, String),
    Serialize(String),
}

impl ConfigError {
    /// The error in words.
    pub open spec fn text(self) -> Seq<char> {
        match self {
            ConfigError::NoConfigDir => "could not determine the config directory"@,
            ConfigError::Read(p, why) => "failed to read "@ + p@ + ": "@ + why@,
            ConfigError::Parse(p, why) => "failed to parse "@ + p@ + ": "@ + why@,
            ConfigError::Write(p, why) => "failed to write "@ + p@ + ": "@ + why@,
            ConfigError::Serialize(why) => "failed to serialize config: "@ + why@,
        }
    }

    /// The error in words.
    pub fn message(&self) -> (r: String)
        ensures
            r@ == self.text(),
    {
        match self {
            ConfigError::NoConfigDir => owned("could not determine the config directory"),
            ConfigError::Read(p, why) => about_file("failed to read ", p, why),
            ConfigError::Parse(p, why) => about_file("failed to parse ", p, why),
            ConfigError::Write(p, why) => about_file("failed to write ", p, why),
            ConfigError::Serialize(why) => joined_text("failed to serialize config: ", why.as_str()),
        }
    }
}

fn about_file(what: &str, p: &VfsPath, why: &String) -> (r: String)
    ensures
        r@ == what@ + p@ + ": "@ + why@,
{
    let head: String = joined_text(joined_text(what, p.as_str()).as_str(), ": ");
    joined_text(head.as_str(), why.as_str())
}

/// What was found at the place of the config file.
#[derive(Debug)]
pub enum ConfigFile {
    /// There is no place for config files.
    NoDirectory,
    /// The place is known, and there is no file yet.
    Missing,
    /// The file could not be read.
    Unreadable { path: VfsPath, why: String },
    /// The file was read, and this is what it says or why it says nothing.
    Read { path: VfsPath, parsed: Result<Config, String> },
}

/// The steps of saving a config.
#[derive(Debug)]
pub enum SaveStep {
    /// Create the directory that the file is in.
    MakeDir,
    /// Write the config out as text.
    Serialize,
    /// Write that text to the file.
    Write,
    Done,
}

/// A config that is being saved.
#[derive(Debug)]
pub struct ConfigSave {
    pub path: VfsPath,
    pub step: SaveStep,
}

impl ConfigSave {
    /// Goes on after a step; a failure ends the saving with its error.
    pub fn on_result(&mut self, result: Result<(), String>) -> (r: Result<(), ConfigError>)
        ensures
            save_went_on(*old(self), result is Ok, *final(self)),
            r is Ok <==> result is Ok,
            final(self).path == old(self).path,
            match result {
                Ok(_) => {
                    &&& r is Ok
                    &&& final(self).step == (match old(self).step {
                        SaveStep::MakeDir => SaveStep::Serialize,
                        SaveStep::Serialize => SaveStep::Write,
                        SaveStep::Write => SaveStep::Done,
                        SaveStep::Done => SaveStep::Done,
                    })
                },
                Err(why) => {
                    &&& final(self).step is Done
                    &&& r == Err::<(), ConfigError>(
                        match old(self).step {
                            SaveStep::Serialize => ConfigError::Serialize(why),
                            _ => ConfigError::Write(old(self).path, why),
                        },
                    )
                },
            },
    {
        match result {
            Ok(_) => {
                self.step = match self.step {
                    SaveStep::MakeDir => SaveStep::Serialize,
                    SaveStep::Serialize => SaveStep::Write,
                    SaveStep::Write => SaveStep::Done,
                    SaveStep::Done => SaveStep::Done,
                };
                Ok(())
            },
            Err(why) => {
                let e: ConfigError = match self.step {
                    SaveStep::Serialize => ConfigError::Serialize(why),
                    _ => ConfigError::Write(self.path.clone(), why),
                };
                self.step = SaveStep::Done;
                Err(e)
            },
        }
    }
}

/// The position of the first profile with this id, or -1.
pub open spec fn first_profile(
    profiles: Seq<ConnectionProfileConfig>,
    id: Seq<char>,
    from: int,
) -> int
    decreases profiles.len() - from,
{
    if from < 0 || from >= profiles.len() {
        -1
    } else if profiles[from].id@ == id {
        from
    } else {
        first_profile(profiles, id, from + 1)
    }
}

/// The profiles with `profile` in place of the first of the same id, or at the
/// end.
pub open spec fn upserted(
    profiles: Seq<ConnectionProfileConfig>,
    profile: ConnectionProfileConfig,
) -> Seq<ConnectionProfileConfig> {
    let at = first_profile(profiles, profile.id@, 0);
    if at >= 0 {
        profiles.update(at, profile)
    } else {
        profiles.push(profile)
    }
}

impl Config {
    /// The config for a run: the file's, or the default if there is no file
    /// yet. A file that cannot be read or understood is an error, never
    /// silently replaced.
    pub fn load(file: ConfigFile) -> (r: Result<Self, ConfigError>)
        ensures
            is_loaded(file, r),
            match file {
                ConfigFile::NoDirectory => r == Err::<Config, ConfigError>(
                    ConfigError::NoConfigDir,
                ),
                ConfigFile::Missing => r matches Ok(config) && config.is_default(),
                ConfigFile::Unreadable { path, why } => r == Err::<Config, ConfigError>(
                    ConfigError::Read(path, why),
                ),
                ConfigFile::Read { path, parsed: Ok(config) } => r == Ok::<Config, ConfigError>(
                    config,
                ),
                ConfigFile::Read { path, parsed: Err(why) } => r == Err::<Config, ConfigError>(
                    ConfigError::Parse(path, why),
                ),
            },
    {
        match file {
            ConfigFile::NoDirectory => Err(ConfigError::NoConfigDir),
            ConfigFile::Missing => Ok(Config::default()),
            ConfigFile::Unreadable { path, why } => Err(ConfigError::Read(path, why)),
            ConfigFile::Read { path, parsed } => match parsed {
                Ok(config) => Ok(config),
                Err(why) => Err(ConfigError::Parse(path, why)),
            },
        }
    }

    /// Starts saving to `path`, the place of the config file if there is one.
    pub fn save(&self, path: Option<VfsPath>) -> (r: Result<ConfigSave, ConfigError>)
        ensures
            match path {
                None => r == Err::<ConfigSave, ConfigError>(ConfigError::NoConfigDir),
                Some(p) => r matches Ok(save) && save.path == p && save.step is MakeDir,
            },
    {
        match path {
            None => Err(ConfigError::NoConfigDir),
            Some(path) => Ok(ConfigSave { path, step: SaveStep::MakeDir }),
        }
    }

    /// Inserts or updates a saved profile by id.
    pub fn upsert_profile(&mut self, profile: ConnectionProfileConfig)
        ensures
            final(self).profiles@ == upserted(old(self).profiles@, profile),
            *final(self) == (Config { profiles: final(self).profiles, ..*old(self) }),
    {
        let mut i: usize = 0;
        while i < self.profiles.len()
            invariant
                *self == *old(self),
                i <= self.profiles@.len(),
                first_profile(self.profiles@, profile.id@, 0) == first_profile(
                    self.profiles@,
                    profile.id@,
                    i as int,
                ),
            decreases self.profiles.len() - i,
        {
            if self.profiles[i].id == profile.id {
                self.profiles.set(i, profile);
                return;
            }
            i += 1;
        }
        self.profiles.push(profile);
    }
}

proof fn lemma_first_profile(profiles: Seq<ConnectionProfileConfig>, id: Seq<char>, from: int)
    requires
        0 <= from <= profiles.len(),
    ensures
        first_profile(profiles, id, from) >= 0 ==> from <= first_profile(profiles, id, from)
            < profiles.len() && profiles[first_profile(profiles, id, from)].id@ == id,
        first_profile(profiles, id, from) < 0 ==> forall|k: int|
            from <= k < profiles.len() ==> (#[trigger] profiles[k]).id@ != id,
    decreases profiles.len() - from,
{
    if from < profiles.len() && profiles[from].id@ != id {
        lemma_first_profile(profiles, id, from + 1);
    }
}

/// Whether no two profiles have the same id.
pub open spec fn ids_differ(profiles: Seq<ConnectionProfileConfig>) -> bool {
    forall|i: int, j: int|
        0 <= i < j < profiles.len() ==> (#[trigger] profiles[i]).id@ != (
        #[trigger] profiles[j]).id@
}

/// Saving a profile keeps ids apart, puts the profile in, and leaves every
/// profile with another id where it was.
pub proof fn law_upsert(
    profiles: Seq<ConnectionProfileConfig>,
    profile: ConnectionProfileConfig,
)
    requires
        ids_differ(profiles),
    ensures
        ids_differ(upserted(profiles, profile)),
        upserted(profiles, profile).contains(profile),
        forall|i: int|
            0 <= i < profiles.len() && (#[trigger] profiles[i]).id@ != profile.id@ ==> upserted(
                profiles,
                profile,
            )[i] == profiles[i],
        upserted(upserted(profiles, profile), profile) == upserted(profiles, profile),
{
    lemma_first_profile(profiles, profile.id@, 0);
    let at = first_profile(profiles, profile.id@, 0);
    let after = upserted(profiles, profile);
    let place = if at >= 0 {
        at
    } else {
        profiles.len() as int
    };
    assert(after[place] == profile);
    assert forall|i: int, j: int| 0 <= i < j < after.len() implies (#[trigger] after[i]).id@ != (
    #[trigger] after[j]).id@ by {
        if at >= 0 {
            assert(profiles[i].id@ != profiles[j].id@);
        } else if j < profiles.len() {
            assert(profiles[i].id@ != profiles[j].id@);
        } else {
            assert(profiles[i].id@ != profile.id@);
        }
    }
    lemma_first_profile(after, profile.id@, 0);
    let again = first_profile(after, profile.id@, 0);
    if again < 0 {
        assert(after[place].id@ != profile.id@);
    } else if again < place {
        assert(after[again].id@ != after[place].id@);
    } else if place < again {
        assert(after[place].id@ != after[again].id@);
    }
    assert(after.update(place, profile) =~= after);
}

/// A first run asks before it deletes, and neither a sync that deletes nor the fast
/// path is on unless the user turns it on; nothing is bound, saved or restored.
pub proof fn law_careful_by_default(config: Config, action: Seq<char>)
    requires
        config.is_default(),
    ensures
        config.general.confirm_delete,
        !config.general.sync_delete_extraneous,
        !config.general.enable_quic_fast_path,
        !config.general.show_hidden,
        !config.keybindings@.contains_key(action),
        config.profiles@.len() == 0,
        config.session.left is None,
        config.session.right is None,
{
}

/// Whether `r` is what loading the config gives.
pub open spec fn is_loaded(file: ConfigFile, r: Result<Config, ConfigError>) -> bool {
    match file {
        ConfigFile::NoDirectory => r is Err,
        ConfigFile::Missing => r matches Ok(config) && config.is_default(),
        ConfigFile::Unreadable { path, why } => r is Err,
        ConfigFile::Read { path, parsed } => match parsed {
            Ok(config) => r == Ok::<Config, ConfigError>(config),
            Err(_) => r is Err,
        },
    }
}

/// A config that was saved is used as it is. Only where there is none yet is it that
/// of a first run: one that cannot be read or understood is never replaced.
pub proof fn law_config_is_kept(file: ConfigFile, r: Result<Config, ConfigError>)
    requires
        is_loaded(file, r),
    ensures
        r matches Ok(config) ==> {
            ||| file is Missing && config.is_default()
            ||| file is Read && file->parsed == Ok::<Config, String>(config)
        },
        file is Missing ==> r is Ok,
        file is Read && file->parsed is Ok ==> r is Ok,
{
}

/// Whether the saving of a config goes from one state to the next by how a step
/// went.
pub open spec fn save_went_on(before: ConfigSave, good: bool, after: ConfigSave) -> bool {
    &&& after.path == before.path
    &&& if good {
        match before.step {
            SaveStep::MakeDir => after.step is Serialize,
            SaveStep::Serialize => after.step is Write,
            _ => after.step is Done,
        }
    } else {
        after.step is Done
    }
}

/// A config that is saved without a failure is saved where it should be: its
/// directory is made first, then it is written out as text, and then that text is
/// written, each once.
pub proof fn law_config_is_saved(a: ConfigSave, b: ConfigSave, c: ConfigSave, d: ConfigSave)
    requires
        a.step is MakeDir,
        save_went_on(a, true, b),
        save_went_on(b, true, c),
        save_went_on(c, true, d),
    ensures
        b.step is Serialize,
        c.step is Write,
        d.step is Done,
        d.path == a.path,
{
}

} // verus!
