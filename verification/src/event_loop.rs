//! What each wish of the window leads to.

use vstd::prelude::*;

use crate::config::{ChannelView, ConfigView};
use crate::state;
use crate::state::{
    CommandView,
    PendingSave,
    UiIntent,
    WorkEffect,
    WorkEffectView,
    WorkState,
    WorkView,
};
use crate::text;

verus! {

/// What is to be done for a wish: effects at once, then perhaps a login to look up
/// ([`WorkState::finish_add_login`] goes on) or settings to write ([`WorkState::commit_save`]
/// goes on).
pub struct Step {
    pub effects: Vec<WorkEffect>,
    pub lookup: Option<String>,
    pub save: Option<PendingSave>,
}

/// The settings after a wish that changes them.
pub open spec fn changed(w: WorkView, intent: UiIntent) -> Option<(WorkView, CommandView)> {
    match intent {
        UiIntent::RemoveChannel(id) => Some(
            (
                state::stamped(
                    state::with_channels(w, w.config.channels.filter(state::other_ids(id))),
                ),
                CommandView::RemoveChannel(id),
            ),
        ),
        UiIntent::SetNotifyTitleChanges(value) => Some(
            (
                state::stamped(
                    WorkView {
                        config: ConfigView { notify_title_changes: value, ..w.config },
                        ..w
                    },
                ),
                CommandView::SetNotifyTitleChanges(value),
            ),
        ),
        UiIntent::SetSound(value) => Some(
            (
                state::stamped(WorkView { config: ConfigView { sound: value, ..w.config }, ..w }),
                CommandView::SetSound(value),
            ),
        ),
        _ => None,
    }
}

/// What a wish leads to: the state, the effects, the login to look up, and the settings to write
/// with the command that follows.
pub open spec fn intent_step(
    w: WorkView,
    intent: UiIntent,
    after: WorkView,
    effects: Seq<WorkEffectView>,
    lookup: Option<Seq<char>>,
    save: Option<(ConfigView, CommandView)>,
) -> bool {
    match intent {
        UiIntent::AddLogin(login) => {
            &&& state::begun_step(w, state::normalized(login@), after, lookup, effects)
            &&& save is None
        },
        UiIntent::ClearError => {
            &&& after == (WorkView { error: seq![], ..w })
            &&& lookup is None
            &&& save is None
            &&& effects == seq![WorkEffectView::Frame(state::frame_of(after))]
        },
        _ => {
            &&& changed(w, intent) matches Some((config, forward))
            &&& after == config
            &&& lookup is None
            &&& effects.len() == 0
            &&& save == Some((after.config, forward))
        },
    }
}

/// Clearing the error changes nothing else and shows the state at once; a setting or a removal is
/// written before it is shown or sent, and takes no login up; only an added login is looked up.
pub proof fn intents_in_full(
    w: WorkView,
    intent: UiIntent,
    after: WorkView,
    effects: Seq<WorkEffectView>,
    lookup: Option<Seq<char>>,
    save: Option<(ConfigView, CommandView)>,
)
    requires
        intent_step(w, intent, after, effects, lookup, save),
    ensures
        intent is ClearError ==> {
            &&& after.error.len() == 0
            &&& after == (WorkView { error: after.error, ..w })
            &&& effects.len() == 1 && effects[0] is Frame
            &&& effects[0]->Frame_0.error.len() == 0
            &&& save is None
        },
        intent matches UiIntent::SetSound(value) ==> {
            &&& after.config.sound == value
            &&& after == (WorkView {
                config: (ConfigView { sound: value, version: after.config.version, ..w.config }),
                ..w
            })
            &&& save == Some((after.config, CommandView::SetSound(value)))
        },
        intent matches UiIntent::SetNotifyTitleChanges(value) ==> {
            &&& after.config.notify_title_changes == value
            &&& after == (WorkView {
                config: (ConfigView {
                    notify_title_changes: value,
                    version: after.config.version,
                    ..w.config
                }),
                ..w
            })
            &&& save == Some((after.config, CommandView::SetNotifyTitleChanges(value)))
        },
        intent matches UiIntent::RemoveChannel(id) ==> {
            &&& forall|c: ChannelView| #[trigger]
                after.config.channels.contains(c) <==> w.config.channels.contains(c) && c.id != id
            &&& after == (WorkView {
                config: (ConfigView {
                    channels: after.config.channels,
                    version: after.config.version,
                    ..w.config
                }),
                ..w
            })
            &&& save == Some((after.config, CommandView::RemoveChannel(id)))
        },
        intent is AddLogin ==> save is None && after.config == w.config && after.status == w.status,
        !(intent is AddLogin) ==> lookup is None,
        save is Some ==> effects.len() == 0,
{
    if let UiIntent::RemoveChannel(id) = intent {
        state::laws::filter_members(w.config.channels, state::other_ids(id));
    }
}

/// Carries a wish of the window out.
pub fn handle_intent(work: &mut WorkState, intent: UiIntent) -> (step: Step)
    ensures
        intent_step(
            old(work)@,
            intent,
            final(work)@,
            state::effect_views(step.effects@),
            text::opt(step.lookup),
            state::save_view(step.save),
        ),
{
    match intent {
        UiIntent::AddLogin(login) => {
            let (lookup, effects) = work.begin_add_login(login.as_str());
            Step { effects, lookup, save: None }
        },
        UiIntent::RemoveChannel(id) => {
            let save = work.apply_remove_channel(id);
            Step { effects: Vec::new(), lookup: None, save: Some(save) }
        },
        UiIntent::SetNotifyTitleChanges(value) => {
            let save = work.apply_notify_title_changes(value);
            Step { effects: Vec::new(), lookup: None, save: Some(save) }
        },
        UiIntent::SetSound(value) => {
            let save = work.apply_sound(value);
            Step { effects: Vec::new(), lookup: None, save: Some(save) }
        },
        UiIntent::ClearError => {
            let effects = work.clear_error();
            Step { effects, lookup: None, save: None }
        },
    }
}

} // verus!
