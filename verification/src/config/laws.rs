//! What settings are read as, whatever layout they have.

use vstd::prelude::*;

use crate::config;
use crate::config::{Channel, Config, LoadErrorView};
use crate::json;
use crate::json::Json;
use crate::text;

verus! {

/// A new installation tracks nobody, announces titles, rings, and filters the word "offline"; its
/// settings have layout 2.
pub proof fn new_installations()
    ensures
        ({
            let settings = config::default_config();
            &&& settings.version == 2
            &&& settings.channels.len() == 0
            &&& settings.notify_title_changes
            &&& settings.sound
            &&& settings.filtered_words.len() == 1
            &&& settings.filtered_words[0] == "offline"@
        }),
{
}

/// Settings are held as they are shown.
pub proof fn settings_hold_what_they_show(settings: Config)
    ensures
        settings@.version == settings.version,
        settings@.notify_title_changes == settings.notify_title_changes,
        settings@.sound == settings.sound,
        settings@.channels.len() == settings.channels@.len(),
        forall|i: int|
            0 <= i < settings.channels@.len() ==> #[trigger] settings@.channels[i]
                == settings.channels@[i]@,
        settings@.filtered_words.len() == settings.filtered_words@.len(),
        forall|i: int|
            0 <= i < settings.filtered_words@.len() ==> #[trigger] settings@.filtered_words[i]
                == settings.filtered_words@[i]@,
{
}

/// A channel of the settings is held as it is shown.
pub proof fn channels_hold_what_they_show(channel: Channel)
    ensures
        channel@.id == channel.id,
        channel@.login == channel.login@,
        channel.display_name matches Some(name) ==> channel@.display_name == Some(name@),
        channel.display_name is None ==> channel@.display_name is None,
{
}

/// The layout of settings is the number that they name as their version, and 0 where they name
/// none.
pub proof fn layouts_in_full(value: Json)
    ensures
        json::member(value, "version"@) matches Json::Unsigned(n) ==> config::version_of(value)
            == n,
        !(json::member(value, "version"@) is Unsigned) ==> config::version_of(value) == 0,
{
}

/// Settings are refused exactly if they are newer than layout 2 or no object, and the error says
/// which.
pub proof fn refusals_in_full(value: Json)
    ensures
        ({
            let newer = json::member(value, "version"@) matches Json::Unsigned(n) && n > 2;
            &&& newer ==> config::up_to_date(value) == Err::<Json, LoadErrorView>(
                LoadErrorView::Newer(json::member(value, "version"@)->Unsigned_0),
            )
            &&& !newer && !(value is Object) ==> config::up_to_date(value) == Err::<
                Json,
                LoadErrorView,
            >(LoadErrorView::NoObject)
            &&& !newer && value is Object ==> config::up_to_date(value) is Ok
        }),
{
}

/// Settings that are accepted come out with every member that they had, but for the version, which
/// is 2. Those of an older layout without a filter get one for the word "offline"; nothing else is
/// added, and to settings of layout 2 nothing at all.
pub proof fn migrations_in_full(members: Map<Seq<char>, Json>)
    requires
        json::member(Json::Object(members), "version"@) matches Json::Unsigned(n) ==> n <= 2,
    ensures
        config::up_to_date(Json::Object(members)) matches Ok(Json::Object(after)) && {
            let old = json::member(Json::Object(members), "version"@) != Json::Unsigned(2);
            &&& after.contains_key("version"@) && after["version"@] == Json::Unsigned(2)
            &&& forall|key: Seq<char>|
                members.contains_key(key) && key != "version"@ ==> (
                #[trigger] after.contains_key(key)) && after[key] == members[key]
            &&& forall|key: Seq<char>| #[trigger]
                after.contains_key(key) ==> members.contains_key(key) || key == "version"@ || (old
                    && key == "filteredWords"@)
            &&& old && !members.contains_key("filteredWords"@) ==> {
                &&& after.contains_key("filteredWords"@)
                &&& after["filteredWords"@] matches Json::Array(words) && words.len() == 1
                    && words[0] == Json::Text("offline"@)
            }
        },
{
    reveal_strlit("version");
    reveal_strlit("filteredWords");
    assert("version"@.len() == 7);
    assert("filteredWords"@.len() == 13);
}

/// One step leaves everything in place that is there. The one from layout 1 adds the filter for
/// the word "offline" where there is none; the one from layout 0 adds nothing.
pub proof fn steps_in_full(members: Map<Seq<char>, Json>, version: u64)
    ensures
        version == 0 ==> config::stepped(members, version) == Ok::<_, LoadErrorView>(members),
        version == 1 ==> (config::stepped(members, version) matches Ok(after) && {
            &&& forall|key: Seq<char>| #[trigger]
                members.contains_key(key) ==> after.contains_key(key) && after[key] == members[key]
            &&& forall|key: Seq<char>| #[trigger]
                after.contains_key(key) ==> members.contains_key(key) || key == "filteredWords"@
            &&& after.contains_key("filteredWords"@)
            &&& !members.contains_key("filteredWords"@) ==> (
            after["filteredWords"@] matches Json::Array(words) && words.len() == 1 && words[0]
                == Json::Text("offline"@))
        }),
        version >= 2 ==> config::stepped(members, version) is Err,
{
}

/// What is said of settings that cannot be read.
pub proof fn errors_in_words(version: u64, reason: Seq<char>)
    ensures
        LoadErrorView::Unreadable(reason).words() == reason,
        LoadErrorView::Newer(version).words() == "ignoring config version "@ + text::decimal(
            version as nat,
        ),
        LoadErrorView::NoObject.words() == "config root is not an object"@,
        LoadErrorView::NoStep(version).words() == "no migration from config version "@
            + text::decimal(version as nat),
{
}

} // verus!
