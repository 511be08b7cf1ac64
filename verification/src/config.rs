//! The settings that are kept on disk.

pub mod laws;

use vstd::prelude::*;

use crate::json;
use crate::json::Json;
use crate::text;

verus! {

/// A tracked channel. Only channels that were found are kept.
#[derive(Debug)]
pub struct Channel {
    pub login: String,
    pub id: u64,
    pub display_name: Option<String>,
}

pub struct ChannelView {
    pub login: Seq<char>,
    pub id: u64,
    pub display_name: Option<Seq<char>>,
}

impl View for Channel {
    type V = ChannelView;

    open spec fn view(&self) -> ChannelView {
        ChannelView { login: self.login@, id: self.id, display_name: text::opt(self.display_name) }
    }
}

impl Clone for Channel {
    fn clone(&self) -> (r: Channel)
        ensures
            r@ == self@,
    {
        Channel {
            login: self.login.clone(),
            id: self.id,
            display_name: text::copy_option(&self.display_name),
        }
    }
}

/// What channels hold.
pub open spec fn channel_views(channels: Seq<Channel>) -> Seq<ChannelView> {
    Seq::new(channels.len(), |i: int| channels[i]@)
}

/// A copy of channels.
pub fn copy_channels(channels: &Vec<Channel>) -> (r: Vec<Channel>)
    ensures
        channel_views(r@) == channel_views(channels@),
{
    let mut r: Vec<Channel> = Vec::new();
    for i in 0..channels.len()
        invariant
            r@.len() == i,
            forall|k: int| 0 <= k < i ==> (#[trigger] r@[k])@ == channels@[k]@,
    {
        r.push(channels[i].clone());
    }
    assert(channel_views(r@) =~= channel_views(channels@));
    r
}

/// The settings. `version` says which layout a file has: one that is newer than this program
/// is not read, an older one is brought up to date step by step.
#[derive(Debug)]
pub struct Config {
    pub version: u32,
    pub channels: Vec<Channel>,
    pub notify_title_changes: bool,
    pub sound: bool,
    pub filtered_words: Vec<String>,
}

#[verifier::ext_equal]
pub struct ConfigView {
    pub version: u32,
    pub channels: Seq<ChannelView>,
    pub notify_title_changes: bool,
    pub sound: bool,
    pub filtered_words: Seq<Seq<char>>,
}

impl View for Config {
    type V = ConfigView;

    open spec fn view(&self) -> ConfigView {
        ConfigView {
            version: self.version,
            channels: channel_views(self.channels@),
            notify_title_changes: self.notify_title_changes,
            sound: self.sound,
            filtered_words: text::views(self.filtered_words@),
        }
    }
}

/// The settings of a new installation.
pub open spec fn default_config() -> ConfigView {
    ConfigView {
        version: Config::VERSION,
        channels: seq![],
        notify_title_changes: true,
        sound: true,
        filtered_words: seq!["offline"@],
    }
}

impl Default for Config {
    fn default() -> (r: Config)
        ensures
            r@ == default_config(),
    {
        let mut words: Vec<String> = Vec::new();
        words.push("offline".to_string());
        let r = Config {
            version: Config::VERSION,
            channels: Vec::new(),
            notify_title_changes: true,
            sound: true,
            filtered_words: words,
        };
        assert(r@ =~= default_config()) by {
            assert(text::views(words@) =~= seq!["offline"@]);
            assert(r@.channels =~= seq![]);
        }
        r
    }
}

impl Config {
    /// The layout that this program writes.
    pub const VERSION: u32 = 2;

    /// The settings that were read; those of a new installation where they could not be. What
    /// was read has been brought up to date before, so that any other layout counts as
    /// unreadable: what is loaded always has the current one.
    pub fn load(decoded: Option<Config>) -> (r: Config)
        ensures
            r.version == Config::VERSION,
            match decoded {
                Some(config) => if config.version == Config::VERSION {
                    r == config
                } else {
                    r@ == default_config()
                },
                None => r@ == default_config(),
            },
    {
        match decoded {
            Some(config) => {
                if config.version == Config::VERSION {
                    config
                } else {
                    Config::default()
                }
            },
            None => Config::default(),
        }
    }
}

impl Clone for Config {
    fn clone(&self) -> (r: Config)
        ensures
            r@ == self@,
    {
        Config {
            version: self.version,
            channels: copy_channels(&self.channels),
            notify_title_changes: self.notify_title_changes,
            sound: self.sound,
            filtered_words: text::copy_texts(&self.filtered_words),
        }
    }
}

/// Why settings cannot be read.
#[derive(Debug)]
pub enum LoadError {
    /// The bytes are no JSON, for this reason.
    Unreadable(String),
    /// The layout is newer than this program knows.
    Newer(u64),
    /// The JSON is no object.
    NoObject,
    /// There is no step that leads on from this layout.
    NoStep(u64),
}

#[verifier::ext_equal]
pub enum LoadErrorView {
    Unreadable(Seq<char>),
    Newer(u64),
    NoObject,
    NoStep(u64),
}

impl View for LoadError {
    type V = LoadErrorView;

    open spec fn view(&self) -> LoadErrorView {
        match *self {
            LoadError::Unreadable(reason) => LoadErrorView::Unreadable(reason@),
            LoadError::Newer(version) => LoadErrorView::Newer(version),
            LoadError::NoObject => LoadErrorView::NoObject,
            LoadError::NoStep(version) => LoadErrorView::NoStep(version),
        }
    }
}

impl LoadErrorView {
    /// The error in words.
    pub open spec fn words(self) -> Seq<char> {
        match self {
            LoadErrorView::Unreadable(reason) => reason,
            LoadErrorView::Newer(version) => "ignoring config version "@ + text::decimal(
                version as nat,
            ),
            LoadErrorView::NoObject => "config root is not an object"@,
            LoadErrorView::NoStep(version) => "no migration from config version "@
                + text::decimal(version as nat),
        }
    }
}

impl LoadError {
    pub fn message(self) -> (r: String)
        ensures
            r@ == self@.words(),
    {
        match self {
            LoadError::Unreadable(reason) => reason,
            LoadError::Newer(version) => {
                let mut r: String = "ignoring config version ".to_string();
                text::append_decimal(&mut r, version);
                r
            },
            LoadError::NoObject => "config root is not an object".to_string(),
            LoadError::NoStep(version) => {
                let mut r: String = "no migration from config version ".to_string();
                text::append_decimal(&mut r, version);
                r
            },
        }
    }
}

/// The words that are filtered unless the settings say otherwise.
pub open spec fn default_words() -> Json {
    json::texts_json(seq!["offline"@])
}

/// The settings after the step from layout 1, which had no filter: it is on for "offline" unless
/// the file says otherwise.
pub open spec fn with_filter(members: Map<Seq<char>, Json>) -> Map<Seq<char>, Json> {
    if members.contains_key("filteredWords"@) {
        members
    } else {
        members.insert("filteredWords"@, default_words())
    }
}

/// The settings one layout on. Files of layout 0 are from before there was a version and look
/// like those of layout 1.
pub open spec fn stepped(members: Map<Seq<char>, Json>, version: u64) -> Result<
    Map<Seq<char>, Json>,
    LoadErrorView,
> {
    if version == 0 {
        Ok(members)
    } else if version == 1 {
        Ok(with_filter(members))
    } else {
        Err(LoadErrorView::NoStep(version))
    }
}

/// Brings settings of the layout `version` one layout on. What is there is kept.
pub fn migrate_step(
    map: &mut serde_json::Map<String, serde_json::Value>,
    version: u64,
) -> (r: Result<(), LoadError>)
    ensures
        match r {
            Ok(_) => stepped(json::members_of(*old(map)), version) == Ok::<_, LoadErrorView>(
                json::members_of(*final(map)),
            ),
            Err(error) => {
                &&& stepped(json::members_of(*old(map)), version) == Err::<
                    Map<Seq<char>, Json>,
                    LoadErrorView,
                >(error@)
                &&& json::members_of(*final(map)) == json::members_of(*old(map))
            },
        },
{
    match version {
        0 => Ok(()),
        1 => {
            let mut words: Vec<String> = Vec::new();
            words.push("offline".to_string());
            let value = json::texts(words.as_slice());
            assert(text::views(words@) =~= seq!["offline"@]);
            json::insert_if_absent(map, "filteredWords", value);
            Ok(())
        },
        _ => Err(LoadError::NoStep(version)),
    }
}

/// The layout of settings; 0 where none is given.
pub open spec fn version_of(value: Json) -> u64 {
    match json::unsigned_in(json::member(value, "version"@)) {
        Some(version) => version,
        None => 0,
    }
}

/// Settings brought up to the current layout. Newer ones are refused; in older ones the filter
/// is added if it is missing, and the version is set.
pub open spec fn up_to_date(value: Json) -> Result<Json, LoadErrorView> {
    if version_of(value) > Config::VERSION {
        Err(LoadErrorView::Newer(version_of(value)))
    } else {
        match value {
            Json::Object(members) => Ok(
                Json::Object(
                    if version_of(value) == Config::VERSION {
                        members
                    } else {
                        with_filter(members).insert(
                            "version"@,
                            Json::Unsigned(Config::VERSION as u64),
                        )
                    },
                ),
            ),
            _ => Err(LoadErrorView::NoObject),
        }
    }
}

/// Brings settings up to the current layout, one step for each version in between.
pub fn migrate(value: serde_json::Value) -> (r: Result<serde_json::Value, LoadError>)
    ensures
        up_to_date(json::json_of(value)) == (match r {
            Ok(v) => Ok(json::json_of(v)),
            Err(error) => Err(error@),
        }),
{
    let ghost start = json::json_of(value);
    let from: u64 = match json::as_u64(json::at(&value, "version")) {
        Some(version) => version,
        None => 0,
    };
    if from > Config::VERSION as u64 {
        return Err(LoadError::Newer(from));
    }
    match json::into_members(value) {
        Some(map) => {
            let mut map = map;
            let ghost members = json::members_of(map);
            let mut version: u64 = from;
            proof {
                reveal_strlit("version");
                reveal_strlit("filteredWords");
                assert("version"@.len() != "filteredWords"@.len());
            }
            while version < Config::VERSION as u64
                invariant
                    from <= version <= Config::VERSION,
                    "version"@ != "filteredWords"@,
                    json::members_of(map) == (if version == from {
                        members
                    } else if version == 1 {
                        members.insert("version"@, Json::Unsigned(1))
                    } else {
                        with_filter(members).insert("version"@, Json::Unsigned(2))
                    }),
                decreases Config::VERSION - version,
            {
                match migrate_step(&mut map, version) {
                    Ok(_) => {},
                    Err(error) => {
                        return Err(error);
                    },
                }
                version = version + 1;
                json::insert(&mut map, "version", json::number(version));
                proof {
                    if version == 1 {
                        assert(json::members_of(map) =~= members.insert(
                            "version"@,
                            Json::Unsigned(1),
                        ));
                    } else {
                        assert(json::members_of(map) =~= with_filter(members).insert(
                            "version"@,
                            Json::Unsigned(2),
                        ));
                    }
                }
            }
            Ok(json::object(map))
        },
        None => Err(LoadError::NoObject),
    }
}

/// Reads settings and brings them up to the current layout. The version is read before anything
/// else, so that files whose shape no longer fits are brought up to date too. What is given has
/// the current layout.
pub fn load_versioned(bytes: &[u8]) -> (r: Result<serde_json::Value, LoadError>)
    ensures
        r matches Ok(v) ==> version_of(json::json_of(v)) == Config::VERSION,
        (match json::parsed_bytes(bytes@) {
            Ok(value) => up_to_date(value),
            Err(reason) => Err(LoadErrorView::Unreadable(reason)),
        }) == (match r {
            Ok(v) => Ok(json::json_of(v)),
            Err(error) => Err(error@),
        }),
{
    match json::parse_bytes(bytes) {
        Ok(value) => migrate(value),
        Err(reason) => Err(LoadError::Unreadable(reason)),
    }
}

/// Bringing settings up to date keeps everything in them but the version, and adds at most the
/// filter.
pub proof fn lemma_migration_preserves(value: Json, key: Seq<char>)
    requires
        up_to_date(value) is Ok,
        value is Object,
        value->Object_0.contains_key(key),
        key != "version"@,
    ensures
        json::member(up_to_date(value)->Ok_0, key) == json::member(value, key),
{
}

/// Settings that were brought up to date have the current version, and doing it again changes
/// nothing.
pub proof fn lemma_migration_settles(value: Json)
    requires
        up_to_date(value) is Ok,
    ensures
        version_of(up_to_date(value)->Ok_0) == Config::VERSION,
        up_to_date(up_to_date(value)->Ok_0) == up_to_date(value),
{
}

/// Settings that hold a filter, as all that are written do, come back member by member; only the
/// version is the current one.
pub proof fn lemma_written_comes_back(members: Map<Seq<char>, Json>)
    requires
        members.contains_key("filteredWords"@),
        version_of(Json::Object(members)) <= Config::VERSION,
    ensures
        up_to_date(Json::Object(members)) == Ok::<Json, LoadErrorView>(
            Json::Object(members.insert("version"@, Json::Unsigned(Config::VERSION as u64))),
        ),
{
    if version_of(Json::Object(members)) == Config::VERSION {
        assert(members.insert("version"@, Json::Unsigned(Config::VERSION as u64)) =~= members);
    }
}

/// A step leads on from every layout below the current one.
pub proof fn lemma_steps_cover(members: Map<Seq<char>, Json>, version: u64)
    ensures
        stepped(members, version) is Ok <==> version < Config::VERSION,
{
}

} // verus!
