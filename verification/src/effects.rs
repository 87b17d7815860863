use vstd::prelude::*;

use crate::command::{
    count_of,    layer_a_reapply, layer_a_reapply_commands, route_and_layer_a_reapply,
    route_and_layer_a_reapply_commands, route_reapply, route_reapply_commands, PwCommand,
};
use crate::event::{wire_event, wire_matches, EffectEvent, WireEvent};
use crossbeam_channel::{Receiver, Sender};

verus! {

#[verifier::external_type_specification]
#[verifier::external_body]
#[verifier::reject_recursive_types(T)]
pub struct ExSender<T>(Sender<T>);

#[verifier::external_type_specification]
#[verifier::external_body]
#[verifier::reject_recursive_types(T)]
pub struct ExReceiver<T>(Receiver<T>);

/// Whether a mutation changes the effective DSP settings.
#[derive(Clone, Copy, Debug, PartialEq, Eq, Structural)]
pub enum DspEffect {
    /// The DSP settings are untouched.
    Unchanged,
    /// The effective DSP settings are pushed to the filter.
    PushEffective,
}

/// What a profile mutation must do once the store has changed: the event to
/// announce, whether to push DSP settings, and the PipeWire work to post.
#[derive(Clone, Debug)]
pub struct ProfileEffects {
    pub event: Option<EffectEvent>,
    pub dsp: DspEffect,
    pub commands: Vec<PwCommand>,
}

/// The kinds of profile mutation, each with its own effect plan.
#[derive(Clone, Copy, Debug, PartialEq, Eq, Structural)]
pub enum EffectKind {
    ProfileUsed,
    ProfileReloaded,
    RouteRuleChanged,
    SettingsChanged,
    BypassChanged,
    PerAppChanged,
}

/// The PipeWire work that a mutation of kind `k` posts.
pub open spec fn commands_for(k: EffectKind) -> Seq<PwCommand> {
    match k {
        EffectKind::ProfileUsed => route_and_layer_a_reapply(),
        EffectKind::ProfileReloaded => route_and_layer_a_reapply(),
        EffectKind::RouteRuleChanged => route_reapply(),
        EffectKind::SettingsChanged => route_and_layer_a_reapply(),
        EffectKind::BypassChanged => route_reapply(),
        EffectKind::PerAppChanged => layer_a_reapply(),
    }
}

/// The DSP effect of a mutation of kind `k`.
pub open spec fn dsp_for(k: EffectKind) -> DspEffect {
    match k {
        EffectKind::ProfileUsed => DspEffect::PushEffective,
        EffectKind::ProfileReloaded => DspEffect::PushEffective,
        EffectKind::SettingsChanged => DspEffect::PushEffective,
        _ => DspEffect::Unchanged,
    }
}

impl ProfileEffects {
    /// A profile was made active: announce it by name, push DSP, re-evaluate
    /// routes and Layer A.
    pub fn profile_used(name: &str) -> (e: Self)
        ensures
            e.event matches Some(EffectEvent::ProfileUsed(n)) && n@ == name@,
            e.dsp == dsp_for(EffectKind::ProfileUsed),
            e.commands@ == commands_for(EffectKind::ProfileUsed),
    {
        ProfileEffects {
            event: Some(EffectEvent::ProfileUsed(name.to_owned())),
            dsp: DspEffect::PushEffective,
            commands: route_and_layer_a_reapply_commands(),
        }
    }

    /// Profiles were reloaded: announce the loaded names, push DSP,
    /// re-evaluate routes and Layer A.
    pub fn profile_reloaded(loaded: Vec<String>) -> (e: Self)
        ensures
            e.event == Some(EffectEvent::ProfileReloaded(loaded)),
            e.dsp == dsp_for(EffectKind::ProfileReloaded),
            e.commands@ == commands_for(EffectKind::ProfileReloaded),
    {
        ProfileEffects {
            event: Some(EffectEvent::ProfileReloaded(loaded)),
            dsp: DspEffect::PushEffective,
            commands: route_and_layer_a_reapply_commands(),
        }
    }

    /// A route rule changed: announce it and re-evaluate routes.
    pub fn route_rule_changed() -> (e: Self)
        ensures
            e.event == Some(EffectEvent::RouteRuleChanged),
            e.dsp == dsp_for(EffectKind::RouteRuleChanged),
            e.commands@ == commands_for(EffectKind::RouteRuleChanged),
    {
        ProfileEffects {
            event: Some(EffectEvent::RouteRuleChanged),
            dsp: DspEffect::Unchanged,
            commands: route_reapply_commands(),
        }
    }

    /// Settings changed: push DSP, re-evaluate routes and Layer A, announce
    /// nothing.
    pub fn settings_changed() -> (e: Self)
        ensures
            e.event == None::<EffectEvent>,
            e.dsp == dsp_for(EffectKind::SettingsChanged),
            e.commands@ == commands_for(EffectKind::SettingsChanged),
    {
        ProfileEffects {
            event: None,
            dsp: DspEffect::PushEffective,
            commands: route_and_layer_a_reapply_commands(),
        }
    }

    /// Global bypass changed: re-evaluate routes, announce nothing.
    pub fn bypass_changed() -> (e: Self)
        ensures
            e.event == None::<EffectEvent>,
            e.dsp == dsp_for(EffectKind::BypassChanged),
            e.commands@ == commands_for(EffectKind::BypassChanged),
    {
        ProfileEffects { event: None, dsp: DspEffect::Unchanged, commands: route_reapply_commands() }
    }

    /// A per-app rule changed: announce a rule change and re-evaluate Layer A.
    pub fn per_app_changed() -> (e: Self)
        ensures
            e.event == Some(EffectEvent::RouteRuleChanged),
            e.dsp == dsp_for(EffectKind::PerAppChanged),
            e.commands@ == commands_for(EffectKind::PerAppChanged),
    {
        ProfileEffects {
            event: Some(EffectEvent::RouteRuleChanged),
            dsp: DspEffect::Unchanged,
            commands: layer_a_reapply_commands(),
        }
    }
}


/// The part of the daemon state that profile effects act on.
pub struct DaemonState {
    /// Whether a DSP filter is attached to receive effective settings.
    pub filter_attached: bool,
    /// The channel to the PipeWire thread, once it runs.
    pub pw_command_tx: Option<Sender<PwCommand>>,
    /// The events published to subscribers, oldest first.
    pub published: Vec<WireEvent>,
}

/// The commands sent through a sender handle, oldest first.
pub uninterp spec fn sent_log(tx: Sender<PwCommand>) -> Seq<PwCommand>;

/// The commands handed to `send` through a sender handle, oldest first,
/// whether or not they went into the channel.
pub uninterp spec fn handed_log(tx: Sender<PwCommand>) -> Seq<PwCommand>;

/// Whether a sender handle belongs to a channel made without a capacity bound.
pub uninterp spec fn is_unbounded(tx: Sender<PwCommand>) -> bool;

/// Whether a sender handle and a receiver handle belong to the same channel.
pub uninterp spec fn same_channel(tx: Sender<PwCommand>, rx: Receiver<PwCommand>) -> bool;

/// Two sender handles belong to the same channel: they share every receiver.
pub open spec fn same_sender_channel(a: Sender<PwCommand>, b: Sender<PwCommand>) -> bool {
    forall|rx: Receiver<PwCommand>|
        #![trigger same_channel(a, rx)]
        #![trigger same_channel(b, rx)]
        same_channel(a, rx) == same_channel(b, rx)
}

/// Two optional senders are both absent, or both present on the same channel.
pub open spec fn keeps_channel(a: Option<Sender<PwCommand>>, b: Option<Sender<PwCommand>>) -> bool {
    match (a, b) {
        (None, None) => true,
        (Some(x), Some(y)) => same_sender_channel(x, y),
        _ => false,
    }
}

impl DaemonState {
    /// The state is well formed: its PipeWire channel, if any, is unbounded, so
    /// posting a command never waits.
    pub open spec fn wf(&self) -> bool {
        self.pw_command_tx matches Some(tx) ==> is_unbounded(tx)
    }

    /// The commands sent to the PipeWire thread through this state's channel.
    pub open spec fn sent(&self) -> Seq<PwCommand> {
        match self.pw_command_tx {
            Some(tx) => sent_log(tx),
            None => Seq::empty(),
        }
    }

    /// The commands handed to `send` on this state's channel, whether or not
    /// they went in.
    pub open spec fn handed(&self) -> Seq<PwCommand> {
        match self.pw_command_tx {
            Some(tx) => handed_log(tx),
            None => Seq::empty(),
        }
    }

    /// Opens an unbounded channel to the PipeWire thread and keeps its sending
    /// side; returns the receiving side.
    pub fn attach_pw_commands(&mut self) -> (rx: Receiver<PwCommand>)
        ensures
            final(self).wf(),
            final(self).pw_command_tx matches Some(tx) && same_channel(tx, rx),
            final(self).sent() == Seq::<PwCommand>::empty(),
            final(self).handed() == Seq::<PwCommand>::empty(),
            final(self).filter_attached == old(self).filter_attached,
            final(self).published@ == old(self).published@,
    {
        let (tx, rx) = command_channel();
        self.pw_command_tx = Some(tx);
        rx
    }
}

/// A daemon state with no filter, no PipeWire channel and nothing published.
pub fn shared_with_default_profile() -> (state: DaemonState)
    ensures
        state.wf(),
        !state.filter_attached,
        state.pw_command_tx is None,
        state.published@.len() == 0,
{
    DaemonState { filter_attached: false, pw_command_tx: None, published: Vec::new() }
}

/// What became of one posted command.
#[derive(Clone, Copy, Debug, PartialEq, Eq, Structural)]
pub enum PostOutcome {
    /// The command went into the PipeWire channel.
    Posted,
    /// There is no PipeWire channel; the command was skipped.
    Skipped,
    /// The PipeWire channel is closed; the command was lost.
    Lost,
}

/// A command and what became of it.
#[derive(Clone, Copy, Debug, PartialEq, Eq, Structural)]
pub struct CommandPost {
    pub command: PwCommand,
    pub outcome: PostOutcome,
}

/// What remains to be done once the state is released: whether to push the
/// effective DSP settings, and the record of the commands posted.
#[derive(Clone, Debug)]
pub struct PostProfileEffects {
    pub push_dsp: bool,
    pub posts: Vec<CommandPost>,
}

/// Calls `crossbeam_channel::unbounded`: a new channel without a capacity
/// bound, through which nothing has been sent yet.
#[verifier::external_body]
fn command_channel() -> (r: (Sender<PwCommand>, Receiver<PwCommand>))
    ensures
        is_unbounded(r.0),
        sent_log(r.0) == Seq::<PwCommand>::empty(),
        handed_log(r.0) == Seq::<PwCommand>::empty(),
        same_channel(r.0, r.1),
{
    crossbeam_channel::unbounded()
}

/// Calls `crossbeam_channel::Sender::send` on an unbounded channel, where it
/// does not wait. The command is handed over in every case and added to the
/// handle's handed log. `Ok` means the command went into the channel and is
/// added to the sent log; `Err` hands the command back because every receiver is
/// gone, and the sent log is unchanged. The handle stays on its channel and the
/// channel stays unbounded. Whether receivers remain is not stated.
#[verifier::external_body]
fn send_command(tx: &mut Sender<PwCommand>, cmd: PwCommand) -> (delivered: bool)
    requires
        is_unbounded(*old(tx)),
    ensures
        is_unbounded(*final(tx)),
        handed_log(*final(tx)) == handed_log(*old(tx)).push(cmd),
        forall|rx: Receiver<PwCommand>| #[trigger]
            same_channel(*final(tx), rx) == same_channel(*old(tx), rx),
        delivered ==> sent_log(*final(tx)) == sent_log(*old(tx)).push(cmd),
        !delivered ==> sent_log(*final(tx)) == sent_log(*old(tx)),
{
    match tx.send(cmd) {
        Ok(()) => true,
        Err(_) => false,
    }
}

/// The commands of a record of posts, in order.
pub open spec fn posted_commands(posts: Seq<CommandPost>) -> Seq<PwCommand> {
    posts.map_values(|p: CommandPost| p.command)
}

/// The commands of a record of posts that went into the channel, in order.
pub open spec fn delivered_commands(posts: Seq<CommandPost>) -> Seq<PwCommand>
    decreases posts.len(),
{
    if posts.len() == 0 {
        Seq::empty()
    } else {
        delivered_commands(posts.drop_last()) + if posts.last().outcome == PostOutcome::Posted {
            seq![posts.last().command]
        } else {
            Seq::empty()
        }
    }
}

/// `after` is `before` with the wire form of `event` published, if there is one.
pub open spec fn published_after(
    before: Seq<WireEvent>,
    after: Seq<WireEvent>,
    event: Option<EffectEvent>,
) -> bool {
    match event {
        None => after == before,
        Some(e) => {
            &&& after.len() == before.len() + 1
            &&& after.drop_last() == before
            &&& wire_matches(after.last(), e)
        },
    }
}

/// Publishes the wire form of `event`, if any.
pub fn publish(state: &mut DaemonState, event: Option<EffectEvent>)
    ensures
        published_after(old(state).published@, final(state).published@, event),
        final(state).filter_attached == old(state).filter_attached,
        final(state).pw_command_tx == old(state).pw_command_tx,
{
    match event {
        None => {},
        Some(e) => {
            let w = wire_event(&e);
            state.published.push(w);
            assert(state.published@.drop_last() =~= old(state).published@);
        },
    }
}

/// Posts one command to the PipeWire thread. It is skipped exactly when there
/// is no channel; otherwise it is handed to the channel exactly once and is
/// either posted, and then it went in, or lost when the channel is closed, and
/// then nothing went in. The state keeps its channel.
pub fn post_command(state: &mut DaemonState, cmd: &PwCommand) -> (outcome: PostOutcome)
    requires
        old(state).wf(),
    ensures
        final(state).wf(),
        (outcome == PostOutcome::Skipped) == (old(state).pw_command_tx is None),
        keeps_channel(old(state).pw_command_tx, final(state).pw_command_tx),
        final(state).handed() == if old(state).pw_command_tx is Some {
            old(state).handed().push(*cmd)
        } else {
            old(state).handed()
        },
        final(state).sent() == if outcome == PostOutcome::Posted {
            old(state).sent().push(*cmd)
        } else {
            old(state).sent()
        },
        final(state).filter_attached == old(state).filter_attached,
        final(state).published@ == old(state).published@,
{
    match &mut state.pw_command_tx {
        None => PostOutcome::Skipped,
        Some(tx) => {
            if send_command(tx, *cmd) {
                PostOutcome::Posted
            } else {
                PostOutcome::Lost
            }
        },
    }
}

impl ProfileEffects {
    /// Applies the effects to the state: publishes the event, decides whether
    /// the effective DSP settings are pushed (only with a filter attached), and
    /// posts every command once, in order. With a channel, every command is
    /// handed to it once, in order, and what goes in is exactly the commands
    /// posted, in order, and nothing else; the state keeps its channel.
    pub fn apply(self, state: &mut DaemonState) -> (post: PostProfileEffects)
        requires
            old(state).wf(),
        ensures
            final(state).wf(),
            published_after(old(state).published@, final(state).published@, self.event),
            final(state).filter_attached == old(state).filter_attached,
            keeps_channel(old(state).pw_command_tx, final(state).pw_command_tx),
            final(state).handed() == old(state).handed() + if old(state).pw_command_tx is Some {
                self.commands@
            } else {
                Seq::empty()
            },
            post.push_dsp == (self.dsp == DspEffect::PushEffective && old(state).filter_attached),
            posted_commands(post.posts@) == self.commands@,
            forall|i: int|
                0 <= i < post.posts@.len() ==> ((#[trigger] post.posts@[i]).outcome
                    == PostOutcome::Skipped) == (old(state).pw_command_tx is None),
            final(state).sent() == old(state).sent() + delivered_commands(post.posts@),
    {
        let ProfileEffects { event, dsp, commands } = self;
        publish(state, event);
        let push_dsp = match dsp {
            DspEffect::Unchanged => false,
            DspEffect::PushEffective => state.filter_attached,
        };
        let ghost sent0 = state.sent();
        let ghost handed0 = state.handed();
        let ghost tx0 = state.pw_command_tx;
        let ghost pub0 = state.published@;
        let ghost has_tx = state.pw_command_tx is Some;
        let mut posts: Vec<CommandPost> = Vec::new();
        let mut i: usize = 0;
        while i < commands.len()
            invariant
                i <= commands@.len(),
                posts@.len() == i,
                state.wf(),
                (state.pw_command_tx is Some) == has_tx,
                has_tx == (old(state).pw_command_tx is Some),
                keeps_channel(tx0, state.pw_command_tx),
                state.handed() == handed0 + if has_tx {
                    commands@.take(i as int)
                } else {
                    Seq::empty()
                },
                state.filter_attached == old(state).filter_attached,
                state.published@ == pub0,
                forall|j: int|
                    0 <= j < i ==> {
                        &&& (#[trigger] posts@[j]).command == commands@[j]
                        &&& (posts@[j].outcome == PostOutcome::Skipped) == !has_tx
                    },
                state.sent() == sent0 + delivered_commands(posts@),
            decreases commands@.len() - i,
        {
            assert(commands@.take(i as int + 1) =~= commands@.take(i as int).push(commands@[i as int]));
            let outcome = post_command(state, &commands[i]);
            let ghost before = posts@;
            posts.push(CommandPost { command: commands[i], outcome });
            assert(posts@.drop_last() =~= before);
            i = i + 1;
        }
        assert(posted_commands(posts@) =~= commands@);
        assert(commands@.take(i as int) =~= commands@);
        PostProfileEffects { push_dsp, posts }
    }
}

/// No mutation posts the same re-evaluation twice: each command occurs at
/// most once in the work of any kind of mutation.
pub proof fn lemma_reapply_at_most_once(k: EffectKind, c: PwCommand)
    ensures
        count_of(commands_for(k), c) <= 1,
{
    reveal_with_fuel(count_of, 3);
}

/// A mutation that pushes DSP settings can change anything a setting governs,
/// so it re-evaluates both routes and Layer A, each exactly once: no setting
/// change leaves stale routing or per-app state.
pub proof fn lemma_dsp_push_reapplies_routes_and_layer_a(k: EffectKind)
    requires
        dsp_for(k) == DspEffect::PushEffective,
    ensures
        count_of(commands_for(k), PwCommand::ReevaluateAll) == 1,
        count_of(commands_for(k), PwCommand::ReevaluateLayerA) == 1,
{
    reveal_with_fuel(count_of, 3);
}

/// Every kind of mutation posts some re-evaluation, and routes are
/// re-evaluated by every kind but a per-app change, which re-evaluates Layer A
/// alone.
pub proof fn lemma_reapply_targets(k: EffectKind)
    ensures
        commands_for(k).len() >= 1,
        count_of(commands_for(k), PwCommand::ReevaluateAll) == if k == EffectKind::PerAppChanged {
            0nat
        } else {
            1nat
        },
        count_of(commands_for(k), PwCommand::ReevaluateLayerA) == if k
            == EffectKind::RouteRuleChanged || k == EffectKind::BypassChanged {
            0nat
        } else {
            1nat
        },
{
    reveal_with_fuel(count_of, 3);
}


/// When every command of a record went into the channel, the channel received
/// exactly the posted commands, in order.
pub proof fn lemma_all_posted_delivers_every_command(posts: Seq<CommandPost>)
    requires
        forall|i: int| 0 <= i < posts.len() ==> (#[trigger] posts[i]).outcome == PostOutcome::Posted,
    ensures
        delivered_commands(posts) == posted_commands(posts),
    decreases posts.len(),
{
    if posts.len() > 0 {
        assert forall|i: int| 0 <= i < posts.drop_last().len() implies (
        #[trigger] posts.drop_last()[i]).outcome == PostOutcome::Posted by {
            assert(posts.drop_last()[i] == posts[i]);
        }
        lemma_all_posted_delivers_every_command(posts.drop_last());
        assert(posts[posts.len() - 1].outcome == PostOutcome::Posted);
        assert(posted_commands(posts) =~= posted_commands(posts.drop_last()).push(
            posts.last().command,
        ));
    }
}

/// No command reaches the channel more often than it was posted: together with
/// `lemma_reapply_at_most_once`, applying any effect sends each re-evaluation
/// at most once.
pub proof fn lemma_delivered_at_most_posted(posts: Seq<CommandPost>, c: PwCommand)
    ensures
        count_of(delivered_commands(posts), c) <= count_of(posted_commands(posts), c),
    decreases posts.len(),
{
    if posts.len() > 0 {
        lemma_delivered_at_most_posted(posts.drop_last(), c);
        let d = delivered_commands(posts.drop_last());
        assert(posted_commands(posts).drop_last() =~= posted_commands(posts.drop_last()));
        assert(posted_commands(posts).last() == posts.last().command);
        if posts.last().outcome == PostOutcome::Posted {
            assert((d + seq![posts.last().command]).drop_last() =~= d);
        } else {
            assert(d + Seq::<PwCommand>::empty() =~= d);
        }
    }
}


/// A mutation that pushes DSP settings re-evaluates routes first and Layer A
/// second, so Layer A is evaluated against the routes as they are after the
/// change: its plan is exactly that pair, in that order.
pub proof fn lemma_dsp_push_plan_is_routes_then_layer_a(k: EffectKind)
    requires
        dsp_for(k) == DspEffect::PushEffective,
    ensures
        commands_for(k).len() == 2,
        commands_for(k)[0] == PwCommand::ReevaluateAll,
        commands_for(k)[1] == PwCommand::ReevaluateLayerA,
{
}

/// In no plan does a route re-evaluation follow a Layer A re-evaluation.
pub proof fn lemma_routes_before_layer_a(k: EffectKind)
    ensures
        forall|i: int, j: int|
            0 <= i < j < commands_for(k).len() && commands_for(k)[i] == PwCommand::ReevaluateLayerA
                ==> commands_for(k)[j] != PwCommand::ReevaluateAll,
{
}


/// A mutation pushes DSP settings exactly when it re-evaluates both routes and
/// Layer A: changes that only touch routing or per-app rules leave the DSP alone.
pub proof fn lemma_dsp_push_iff_full_reapply(k: EffectKind)
    ensures
        (dsp_for(k) == DspEffect::PushEffective) <==> (count_of(
            commands_for(k),
            PwCommand::ReevaluateAll,
        ) == 1 && count_of(commands_for(k), PwCommand::ReevaluateLayerA) == 1),
{
    reveal_with_fuel(count_of, 3);
}

} // verus!
