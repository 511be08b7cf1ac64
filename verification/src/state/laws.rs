//! What holds of the state whatever happens to it.

use vstd::prelude::*;

use crate::config::{ChannelView, Config, ConfigView};
use crate::event_loop;
use crate::gql::UserView;
use crate::state;
use crate::state::{CommandView, UiIntent, WorkEffectView, WorkView};
use crate::text;

verus! {

/// No two channels of the settings have the same identifier.
pub open spec fn distinct_ids(channels: Seq<ChannelView>) -> bool {
    forall|i: int, j: int|
        0 <= i < j < channels.len() ==> (#[trigger] channels[i]).id != (#[trigger] channels[j]).id
}

/// What is typed is taken without the white space around it, in small letters.
pub proof fn typed_logins_in_full(login: Seq<char>, from: int, to: int)
    requires
        0 <= from <= to <= login.len(),
        forall|i: int| 0 <= i < from ==> text::is_space(#[trigger] login[i]),
        forall|i: int| to <= i < login.len() ==> text::is_space(#[trigger] login[i]),
        from < to ==> !text::is_space(login[from]) && !text::is_space(login[to - 1]),
    ensures
        state::normalized(login) == text::lowercased(login.subrange(from, to)),
{
    text::laws::trimming_leaves(login, from, to);
}

/// A filter keeps exactly the members that pass.
pub proof fn filter_members<A>(s: Seq<A>, keep: spec_fn(A) -> bool)
    ensures
        forall|x: A| #[trigger] s.filter(keep).contains(x) <==> s.contains(x) && keep(x),
    decreases s.len(),
{
    reveal(Seq::filter);
    if s.len() > 0 {
        let head = s.drop_last();
        filter_members(head, keep);
        let kept = s.filter(keep);
        let before = head.filter(keep);
        assert forall|x: A| #[trigger] kept.contains(x) <==> s.contains(x) && keep(x) by {
            if s.contains(x) {
                let k = choose|k: int| 0 <= k < s.len() && s[k] == x;
                if k < head.len() {
                    assert(head[k] == x);
                }
            }
            if head.contains(x) {
                let k = choose|k: int| 0 <= k < head.len() && head[k] == x;
                assert(s[k] == x);
            }
            if keep(s.last()) {
                if before.contains(x) {
                    let k = choose|k: int| 0 <= k < before.len() && before[k] == x;
                    assert(kept[k] == x);
                }
                if x == s.last() {
                    assert(kept[before.len() as int] == x);
                    assert(s[s.len() - 1] == x);
                }
                if kept.contains(x) {
                    let k = choose|k: int| 0 <= k < kept.len() && kept[k] == x;
                    if k < before.len() {
                        assert(before[k] == x);
                    }
                }
            }
        }
    }
}

proof fn filter_keeps_distinct(s: Seq<ChannelView>, keep: spec_fn(ChannelView) -> bool)
    requires
        distinct_ids(s),
    ensures
        distinct_ids(s.filter(keep)),
    decreases s.len(),
{
    reveal(Seq::filter);
    if s.len() > 0 {
        let head = s.drop_last();
        assert(distinct_ids(head));
        filter_keeps_distinct(head, keep);
        filter_members(head, keep);
        let before = head.filter(keep);
        let kept = s.filter(keep);
        if keep(s.last()) {
            assert forall|i: int, j: int| 0 <= i < j < kept.len() implies (#[trigger] kept[i]).id
                != (#[trigger] kept[j]).id by {
                assert(kept[i] == before[i]);
                assert(before.contains(before[i]));
                if j < before.len() {
                    assert(kept[j] == before[j]);
                } else {
                    let k = choose|k: int| 0 <= k < head.len() && head[k] == before[i];
                    assert(s[k].id != s[s.len() - 1].id);
                }
            }
        }
    }
}

/// Removing a channel removes it, keeps every other, and keeps identifiers distinct.
pub proof fn removal_is_exact(channels: Seq<ChannelView>, id: u64)
    ensures
        !state::lists_id(channels.filter(state::other_ids(id)), id),
        forall|c: ChannelView| #[trigger]
            channels.contains(c) && c.id != id ==> channels.filter(state::other_ids(id)).contains(
                c,
            ),
        distinct_ids(channels) ==> distinct_ids(channels.filter(state::other_ids(id))),
{
    let kept = channels.filter(state::other_ids(id));
    filter_members(channels, state::other_ids(id));
    if state::lists_id(kept, id) {
        let i = choose|i: int| 0 <= i < kept.len() && (#[trigger] kept[i]).id == id;
        assert(kept.contains(kept[i]));
    }
    if distinct_ids(channels) {
        filter_keeps_distinct(channels, state::other_ids(id));
    }
}

/// Taking channels that are gone out leaves none of them, keeps every other, and keeps
/// identifiers distinct.
pub proof fn pruning_is_exact(channels: Seq<ChannelView>, ids: Seq<u64>)
    ensures
        forall|id: u64|
            ids.contains(id) ==> !#[trigger] state::lists_id(
                channels.filter(state::not_among(ids)),
                id,
            ),
        forall|c: ChannelView| #[trigger]
            channels.contains(c) && !ids.contains(c.id) ==> channels.filter(
                state::not_among(ids),
            ).contains(c),
        distinct_ids(channels) ==> distinct_ids(channels.filter(state::not_among(ids))),
{
    let kept = channels.filter(state::not_among(ids));
    filter_members(channels, state::not_among(ids));
    assert forall|id: u64| ids.contains(id) implies !#[trigger] state::lists_id(kept, id) by {
        if state::lists_id(kept, id) {
            let i = choose|i: int| 0 <= i < kept.len() && (#[trigger] kept[i]).id == id;
            assert(kept.contains(kept[i]));
        }
    }
    if distinct_ids(channels) {
        filter_keeps_distinct(channels, state::not_among(ids));
    }
}

/// A channel enters the settings only under an identifier of its own.
pub proof fn adding_keeps_distinct(channels: Seq<ChannelView>, user: UserView)
    requires
        distinct_ids(channels),
        !state::lists_id(channels, user.channel_id),
    ensures
        distinct_ids(channels.push(state::channel_of(user))),
{
    let more = channels.push(state::channel_of(user));
    assert forall|i: int, j: int| 0 <= i < j < more.len() implies (#[trigger] more[i]).id != (
    #[trigger] more[j]).id by {
        assert(more[i] == channels[i]);
        if j < channels.len() {
            assert(more[j] == channels[j]);
        }
    }
}

/// A login that was added is not worth adding again.
pub proof fn added_login_is_known(w: WorkView, user: UserView, login: Seq<char>)
    requires
        text::same_ignoring_case(user.channel_name, login),
    ensures
        ({
            let after = state::stamped(
                state::with_channels(w, w.config.channels.push(state::channel_of(user))),
            );
            !state::worth_adding(after, login)
        }),
{
    let more = w.config.channels.push(state::channel_of(user));
    assert(text::same_ignoring_case(more[w.config.channels.len() as int].login, login));
    assert(state::lists_login(more, login));
}

/// A login that is being looked up is not looked up again.
pub proof fn pending_login_is_known(w: WorkView, login: Seq<char>)
    ensures
        !state::worth_adding(state::begun(w, login), login),
{
    let more = w.pending_adds.push(login);
    assert(text::same_ignoring_case(more[w.pending_adds.len() as int], login));
}

/// A login that has been looked up is not pending any more, and no other login is touched.
pub proof fn looked_up_is_settled(w: WorkView, login: Seq<char>)
    ensures
        !state::lists_text(state::looked_up(w, login).pending_adds, login),
        forall|s: Seq<char>| #[trigger]
            w.pending_adds.contains(s) && !text::same_ignoring_case(s, login)
                ==> state::looked_up(w, login).pending_adds.contains(s),
{
    filter_members(w.pending_adds, state::other_texts(login));
    let kept = state::looked_up(w, login).pending_adds;
    if state::lists_text(kept, login) {
        let i = choose|i: int|
            0 <= i < kept.len() && text::same_ignoring_case(#[trigger] kept[i], login);
        assert(kept.contains(kept[i]));
    }
}

/// Settings that are handed over for writing have the current layout.
pub proof fn saved_settings_are_stamped(w: WorkView)
    ensures
        state::stamped(w).config.version == Config::VERSION,
        state::stamped(w).config.channels == w.config.channels,
        state::stamped(w).config.notify_title_changes == w.config.notify_title_changes,
        state::stamped(w).config.sound == w.config.sound,
        state::stamped(w).config.filtered_words == w.config.filtered_words,
{
}

/// What the window is shown: the settings and the error as they stand, and the state of the
/// session, once there is one, with the logins that are being looked up.
pub proof fn frames_in_full(w: WorkView)
    ensures
        ({
            let frame = state::frame_of(w);
            &&& frame.config == w.config
            &&& frame.error == w.error
            &&& w.status is None ==> frame.status is None
            &&& w.status matches Some(status) ==> {
                &&& frame.status matches Some(shown)
                &&& shown.status == status
                &&& shown.pending_adds == w.pending_adds
            }
        }),
{
}

/// A login is looked up exactly if it is not empty, in no channel of the settings and not being
/// looked up already, whatever the case. It then waits for its answer, the error is taken away,
/// and that is shown; else nothing happens.
pub proof fn begun_logins_in_full(
    w: WorkView,
    name: Seq<char>,
    after: WorkView,
    lookup: Option<Seq<char>>,
    effects: Seq<WorkEffectView>,
)
    requires
        state::begun_step(w, name, after, lookup, effects),
    ensures
        ({
            let fresh = name.len() > 0 && (forall|i: int|
                0 <= i < w.config.channels.len() ==> !text::same_ignoring_case(
                    (#[trigger] w.config.channels[i]).login,
                    name,
                )) && (forall|i: int|
                0 <= i < w.pending_adds.len() ==> !text::same_ignoring_case(
                    #[trigger] w.pending_adds[i],
                    name,
                ));
            if fresh {
                &&& lookup == Some(name)
                &&& after.pending_adds == w.pending_adds.push(name)
                &&& after.error.len() == 0
                &&& after.config == w.config
                &&& after.status == w.status
                &&& effects.len() == 1
                &&& effects[0] matches WorkEffectView::Frame(frame) && frame.error.len() == 0
                    && frame.config == w.config
            } else {
                after == w && lookup is None && effects.len() == 0
            }
        }),
{
}

proof fn first_named_at(users: Seq<UserView>, login: Seq<char>, k: int)
    requires
        0 <= k < users.len(),
        text::same_ignoring_case(users[k].channel_name, login),
        forall|j: int|
            0 <= j < k ==> !text::same_ignoring_case((#[trigger] users[j]).channel_name, login),
    ensures
        state::first_named(users, login) == Some(users[k]),
    decreases k,
{
    if k > 0 {
        let rest = users.drop_first();
        assert(!text::same_ignoring_case(users[0].channel_name, login));
        assert forall|j: int| 0 <= j < k - 1 implies !text::same_ignoring_case(
            (#[trigger] rest[j]).channel_name,
            login,
        ) by {
            assert(!text::same_ignoring_case(users[j + 1].channel_name, login));
        }
        first_named_at(rest, login, k - 1);
    }
}

proof fn none_named(users: Seq<UserView>, login: Seq<char>)
    requires
        forall|j: int|
            0 <= j < users.len() ==> !text::same_ignoring_case(
                (#[trigger] users[j]).channel_name,
                login,
            ),
    ensures
        state::first_named(users, login) is None,
    decreases users.len(),
{
    if users.len() > 0 {
        let rest = users.drop_first();
        assert(!text::same_ignoring_case(users[0].channel_name, login));
        assert forall|j: int| 0 <= j < rest.len() implies !text::same_ignoring_case(
            (#[trigger] rest[j]).channel_name,
            login,
        ) by {
            assert(!text::same_ignoring_case(users[j + 1].channel_name, login));
        }
        none_named(rest, login);
    }
}

/// A login whose channel was found and is new: the channel enters the settings as the last one,
/// under the names and the identifier that it was found with; the settings, in the current layout,
/// are to be written, and the session is told the channel's login once they are.
pub proof fn found_channels_enter_the_settings(
    w: WorkView,
    login: Seq<char>,
    users: Seq<UserView>,
    k: int,
    after: WorkView,
    save: Option<(ConfigView, CommandView)>,
    effects: Seq<WorkEffectView>,
)
    requires
        state::added_step(w, login, Ok(users), after, save, effects),
        0 <= k < users.len(),
        text::same_ignoring_case(users[k].channel_name, login),
        forall|j: int|
            0 <= j < k ==> !text::same_ignoring_case((#[trigger] users[j]).channel_name, login),
        forall|i: int|
            0 <= i < w.config.channels.len() ==> (#[trigger] w.config.channels[i]).id
                != users[k].channel_id,
    ensures
        ({
            let channels = after.config.channels;
            &&& channels.len() == w.config.channels.len() + 1
            &&& channels.drop_last() == w.config.channels
            &&& channels.last().id == users[k].channel_id
            &&& channels.last().login == users[k].channel_name
            &&& channels.last().display_name == Some(users[k].channel_display_name)
            &&& after.config == (ConfigView { version: 2, channels, ..w.config })
            &&& after.error == w.error
            &&& after.status == w.status
            &&& forall|s: Seq<char>| #[trigger]
                after.pending_adds.contains(s) <==> w.pending_adds.contains(s)
                    && !text::same_ignoring_case(s, login)
            &&& save == Some((after.config, CommandView::AddChannel(users[k].channel_name)))
            &&& effects.len() == 0
        }),
{
    first_named_at(users, login, k);
    filter_members(w.pending_adds, state::other_texts(login));
    assert(after.config.channels.drop_last() =~= w.config.channels);
}

/// A login whose channel was found and is in the settings already: nothing is written.
pub proof fn known_channels_are_not_written_again(
    w: WorkView,
    login: Seq<char>,
    users: Seq<UserView>,
    k: int,
    i: int,
    after: WorkView,
    save: Option<(ConfigView, CommandView)>,
    effects: Seq<WorkEffectView>,
)
    requires
        state::added_step(w, login, Ok(users), after, save, effects),
        0 <= k < users.len(),
        text::same_ignoring_case(users[k].channel_name, login),
        forall|j: int|
            0 <= j < k ==> !text::same_ignoring_case((#[trigger] users[j]).channel_name, login),
        0 <= i < w.config.channels.len(),
        w.config.channels[i].id == users[k].channel_id,
    ensures
        after.config == w.config,
        after.error == w.error,
        save is None,
        effects.len() == 1,
        effects[0] is Frame,
{
    first_named_at(users, login, k);
}

/// A login that names no channel, or that could not be looked up, never enters the settings; why
/// is shown as the error, and it is not pending any more.
pub proof fn logins_without_a_channel_in_full(
    w: WorkView,
    login: Seq<char>,
    result: Result<Seq<UserView>, Seq<char>>,
    after: WorkView,
    save: Option<(ConfigView, CommandView)>,
    effects: Seq<WorkEffectView>,
)
    requires
        state::added_step(w, login, result, after, save, effects),
        result matches Ok(users) ==> forall|j: int|
            0 <= j < users.len() ==> !text::same_ignoring_case(
                (#[trigger] users[j]).channel_name,
                login,
            ),
    ensures
        after.config == w.config,
        after.status == w.status,
        save is None,
        result is Ok ==> after.error == "channel "@ + login + " not found"@,
        result matches Err(error) ==> after.error == "failed to resolve "@ + login + ": "@ + error,
        forall|s: Seq<char>| #[trigger]
            after.pending_adds.contains(s) <==> w.pending_adds.contains(s)
                && !text::same_ignoring_case(s, login),
        effects.len() == 2,
        effects.last() matches WorkEffectView::Frame(frame) && frame.error == after.error
            && frame.config == w.config,
{
    if let Ok(users) = result {
        none_named(users, login);
    }
    filter_members(w.pending_adds, state::other_texts(login));
}

/// Once settings are written the command goes out and the state is shown. If they cannot be
/// written no command goes out, and the error is shown.
pub proof fn writing_in_full(
    w: WorkView,
    forward: CommandView,
    error: Option<Seq<char>>,
    after: WorkView,
    effects: Seq<WorkEffectView>,
)
    requires
        state::committed_step(w, forward, error, after, effects),
    ensures
        after.config == w.config,
        after.status == w.status,
        after.pending_adds == w.pending_adds,
        error is None ==> {
            &&& after.error == w.error
            &&& effects.len() == 2
            &&& effects[0] == WorkEffectView::Forward(forward)
            &&& effects[1] matches WorkEffectView::Frame(frame) && frame.config == w.config
        },
        error matches Some(reason) ==> {
            &&& after.error == reason
            &&& effects.len() == 1
            &&& effects[0] matches WorkEffectView::Frame(frame) && frame.error == reason
                && frame.config == w.config
        },
{
}

proof fn filter_drops(s: Seq<ChannelView>, keep: spec_fn(ChannelView) -> bool)
    ensures
        s.filter(keep).len() <= s.len(),
        s.filter(keep).len() == s.len() <==> forall|i: int|
            0 <= i < s.len() ==> keep(#[trigger] s[i]),
    decreases s.len(),
{
    reveal(Seq::filter);
    if s.len() > 0 {
        let head = s.drop_last();
        filter_drops(head, keep);
        if forall|i: int| 0 <= i < s.len() ==> keep(#[trigger] s[i]) {
            assert forall|i: int| 0 <= i < head.len() implies keep(#[trigger] head[i]) by {
                assert(keep(s[i]));
            }
            assert(keep(s[s.len() - 1]));
        } else if keep(s.last()) {
            let i = choose|i: int| 0 <= i < s.len() && !keep(#[trigger] s[i]);
            assert(!keep(head[i]));
        }
    }
}

/// Taking channels that are gone out of the settings: just those leave, the rest keep their order,
/// and the settings are written in the current layout; where none of them was there nothing
/// happens.
pub proof fn pruning_in_full(
    w: WorkView,
    ids: Seq<u64>,
    after: WorkView,
    save: Option<ConfigView>,
)
    requires
        state::pruned_step(w, w.config.channels.filter(state::not_among(ids)), after, save),
    ensures
        forall|c: ChannelView| #[trigger]
            after.config.channels.contains(c) <==> w.config.channels.contains(c) && !ids.contains(
                c.id,
            ),
        (forall|i: int|
            0 <= i < w.config.channels.len() ==> !ids.contains(
                (#[trigger] w.config.channels[i]).id,
            )) ==> after == w && save is None,
        (exists|i: int|
            0 <= i < w.config.channels.len() && ids.contains((#[trigger] w.config.channels[i]).id))
            ==> after.config.version == 2 && save == Some(after.config),
        after.config.notify_title_changes == w.config.notify_title_changes,
        after.config.sound == w.config.sound,
        after.config.filtered_words == w.config.filtered_words,
        after.error == w.error,
        after.status == w.status,
        after.pending_adds == w.pending_adds,
{
    let keep = state::not_among(ids);
    filter_members(w.config.channels, keep);
    filter_drops(w.config.channels, keep);
    if w.config.channels.filter(keep).len() == w.config.channels.len() {
        assert forall|c: ChannelView| #[trigger] w.config.channels.contains(c) implies !ids.contains(
            c.id,
        ) by {
            let i = choose|i: int| 0 <= i < w.config.channels.len() && w.config.channels[i] == c;
            assert(keep(w.config.channels[i]));
        }
        assert forall|i: int| 0 <= i < w.config.channels.len() implies !ids.contains(
            (#[trigger] w.config.channels[i]).id,
        ) by {
            assert(keep(w.config.channels[i]));
        }
    } else {
        let i = choose|i: int|
            0 <= i < w.config.channels.len() && !keep(#[trigger] w.config.channels[i]);
        assert(ids.contains(w.config.channels[i].id));
    }
}

/// Taking a login that names no channel out of the settings: just the channels with it leave.
pub proof fn pruning_a_login_in_full(
    w: WorkView,
    login: Seq<char>,
    after: WorkView,
    save: Option<ConfigView>,
)
    requires
        state::pruned_step(w, w.config.channels.filter(state::other_logins(login)), after, save),
    ensures
        forall|c: ChannelView| #[trigger]
            after.config.channels.contains(c) <==> w.config.channels.contains(c)
                && !text::same_ignoring_case(c.login, login),
        save is Some ==> save == Some(after.config) && after.config.version == 2,
        save is None ==> after == w,
{
    let keep = state::other_logins(login);
    filter_members(w.config.channels, keep);
    filter_drops(w.config.channels, keep);
    if w.config.channels.filter(keep).len() == w.config.channels.len() {
        assert forall|c: ChannelView| #[trigger] w.config.channels.contains(
            c,
        ) implies !text::same_ignoring_case(c.login, login) by {
            let i = choose|i: int| 0 <= i < w.config.channels.len() && w.config.channels[i] == c;
            assert(keep(w.config.channels[i]));
        }
    }
}

/// A wish to remove a channel takes just that channel out of the settings and tells the session
/// its identifier.
pub proof fn removal_wishes_in_full(w: WorkView, id: u64)
    ensures
        event_loop::changed(w, UiIntent::RemoveChannel(id)) matches Some((after, forward)) && {
            &&& forward == CommandView::RemoveChannel(id)
            &&& forall|c: ChannelView| #[trigger]
                after.config.channels.contains(c) <==> w.config.channels.contains(c) && c.id != id
            &&& after == (WorkView {
                config: ConfigView {
                    version: 2,
                    channels: after.config.channels,
                    ..w.config
                },
                ..w
            })
        },
{
    filter_members(w.config.channels, state::other_ids(id));
}

/// A wish to change a setting changes just that setting, and tells the session the value.
pub proof fn setting_wishes_in_full(w: WorkView, value: bool)
    ensures
        event_loop::changed(w, UiIntent::SetSound(value)) matches Some((after, forward)) && {
            &&& forward == CommandView::SetSound(value)
            &&& after.config.sound == value
            &&& after == (WorkView {
                config: ConfigView { version: 2, sound: after.config.sound, ..w.config },
                ..w
            })
        },
        event_loop::changed(w, UiIntent::SetNotifyTitleChanges(value)) matches Some(
            (after, forward),
        ) && {
            &&& forward == CommandView::SetNotifyTitleChanges(value)
            &&& after.config.notify_title_changes == value
            &&& after == (WorkView {
                config: ConfigView {
                    version: 2,
                    notify_title_changes: after.config.notify_title_changes,
                    ..w.config
                },
                ..w
            })
        },
{
}

} // verus!
