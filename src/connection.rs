use vstd::prelude::*;
use crate::model::{Notifications, NotificationsView};
use crate::wire::{DecodeError, Packet, PacketView};

verus! {

/// Where a connection stands in its life.
#[derive(PartialEq, Eq, Structural, Clone, Copy, Debug)]
pub enum Phase {
    Handshaking,
    Open,
    Closed,
}

/// Which of the two optional hooks the scripting side defines.
#[derive(PartialEq, Eq, Structural, Clone, Copy, Debug)]
pub struct Hooks {
    pub on_update: bool,
    pub on_close: bool,
}

/// How the transport's handshake ended.
#[derive(PartialEq, Eq, Structural, Clone, Copy, Debug)]
pub enum Handshake {
    Accepted,
    /// The peer only probed the port and never asked for an upgrade.
    Probe,
    Failed,
}

/// What the transport reported to the handler.
#[derive(Debug)]
pub enum Event {
    Handshake(Handshake),
    /// A text message, decoded.
    Message(Result<Packet, DecodeError>),
    /// A frame that is not text (ping, pong, binary).
    OtherFrame,
    /// The peer closed the connection.
    PeerClosed,
    /// Any other transport error; `readable` tells whether reads may go on.
    TransportError { readable: bool },
}

/// What the handler must do next.
#[derive(Debug)]
pub enum Action {
    /// Read the next frame.
    Read,
    /// Write `snapshot` to the store; then, where `notify` holds a flag,
    /// call the on-update hook with it. Then read on.
    Apply { snapshot: Notifications, notify: Option<bool> },
    /// Report the dropped message and read on.
    Drop(DecodeError),
    /// Report the transport error and read on.
    Report,
    /// Call the on-close hook where `hook` holds; then stop. `failed`
    /// tells whether the connection ended on an error.
    Close { hook: bool, failed: bool },
    /// Report the failed handshake and stop.
    Fail,
    /// Stop without a word.
    Leave,
}

pub ghost enum EventView {
    Handshake(Handshake),
    Message(Result<PacketView, DecodeError>),
    OtherFrame,
    PeerClosed,
    TransportError { readable: bool },
}

pub ghost enum ActionView {
    Read,
    Apply { snapshot: NotificationsView, notify: Option<bool> },
    Drop(DecodeError),
    Report,
    Close { hook: bool, failed: bool },
    Fail,
    Leave,
}

impl View for Event {
    type V = EventView;

    open spec fn view(&self) -> EventView {
        match self {
            Event::Handshake(h) => EventView::Handshake(*h),
            Event::Message(Ok(p)) => EventView::Message(Ok(p@)),
            Event::Message(Err(e)) => EventView::Message(Err(*e)),
            Event::OtherFrame => EventView::OtherFrame,
            Event::PeerClosed => EventView::PeerClosed,
            Event::TransportError { readable } => EventView::TransportError { readable: *readable },
        }
    }
}

impl View for Action {
    type V = ActionView;

    open spec fn view(&self) -> ActionView {
        match self {
            Action::Read => ActionView::Read,
            Action::Apply { snapshot, notify } => ActionView::Apply { snapshot: snapshot@, notify: *notify },
            Action::Drop(e) => ActionView::Drop(*e),
            Action::Report => ActionView::Report,
            Action::Close { hook, failed } => ActionView::Close { hook: *hook, failed: *failed },
            Action::Fail => ActionView::Fail,
            Action::Leave => ActionView::Leave,
        }
    }
}

/// The phase and action that follow `event` in `phase`.
pub open spec fn next(phase: Phase, hooks: Hooks, event: EventView) -> (Phase, ActionView) {
    match phase {
        Phase::Handshaking => match event {
            EventView::Handshake(Handshake::Accepted) => (Phase::Open, ActionView::Read),
            EventView::Handshake(Handshake::Probe) => (Phase::Closed, ActionView::Leave),
            EventView::Handshake(Handshake::Failed) => (Phase::Closed, ActionView::Fail),
            _ => (Phase::Handshaking, ActionView::Read),
        },
        Phase::Open => match event {
            EventView::Message(Ok(PacketView::Update { payload, revive })) => (
                Phase::Open,
                ActionView::Apply {
                    snapshot: payload,
                    notify: if hooks.on_update {
                        Some(revive)
                    } else {
                        None
                    },
                },
            ),
            EventView::Message(Err(e)) => (Phase::Open, ActionView::Drop(e)),
            EventView::TransportError { readable } => if readable {
                (Phase::Open, ActionView::Report)
            } else {
                (Phase::Closed, ActionView::Close { hook: hooks.on_close, failed: true })
            },
            EventView::PeerClosed => (Phase::Closed, ActionView::Close { hook: hooks.on_close, failed: false }),
            _ => (Phase::Open, ActionView::Read),
        },
        Phase::Closed => (Phase::Closed, ActionView::Leave),
    }
}

/// The phase reached and the actions asked for, event by event.
pub open spec fn run(phase: Phase, hooks: Hooks, events: Seq<EventView>) -> (Phase, Seq<ActionView>)
    decreases events.len(),
{
    if events.len() == 0 {
        (phase, Seq::empty())
    } else {
        let (p, acts) = run(phase, hooks, events.drop_last());
        let (q, a) = next(p, hooks, events.last());
        (q, acts.push(a))
    }
}

/// The decisions of one connection handler.
pub struct Connection {
    phase: Phase,
    hooks: Hooks,
}

impl Connection {
    pub closed spec fn phase_spec(&self) -> Phase {
        self.phase
    }

    pub closed spec fn hooks_spec(&self) -> Hooks {
        self.hooks
    }

    /// A handler that waits for its handshake, with the hooks found for it.
    pub fn new(hooks: Hooks) -> (r: Connection)
        ensures
            r.phase_spec() == Phase::Handshaking,
            r.hooks_spec() == hooks,
    {
        Connection { phase: Phase::Handshaking, hooks }
    }

    pub fn phase(&self) -> (r: Phase)
        ensures
            r == self.phase_spec(),
    {
        self.phase
    }

    pub fn hooks(&self) -> (r: Hooks)
        ensures
            r == self.hooks_spec(),
    {
        self.hooks
    }

    /// Takes in one event and says what to do about it.
    pub fn step(&mut self, event: Event) -> (r: Action)
        ensures
            (final(self).phase_spec(), r@) == next(old(self).phase_spec(), old(self).hooks_spec(), event@),
            final(self).hooks_spec() == old(self).hooks_spec(),
    {
        match self.phase {
            Phase::Handshaking => match event {
                Event::Handshake(Handshake::Accepted) => {
                    self.phase = Phase::Open;
                    Action::Read
                },
                Event::Handshake(Handshake::Probe) => {
                    self.phase = Phase::Closed;
                    Action::Leave
                },
                Event::Handshake(Handshake::Failed) => {
                    self.phase = Phase::Closed;
                    Action::Fail
                },
                _ => Action::Read,
            },
            Phase::Open => match event {
                Event::Message(Ok(Packet::Update { payload, revive })) => {
                    let notify = if self.hooks.on_update {
                        Some(revive)
                    } else {
                        None
                    };
                    Action::Apply { snapshot: payload, notify }
                },
                Event::Message(Err(e)) => Action::Drop(e),
                Event::TransportError { readable } => {
                    if readable {
                        Action::Report
                    } else {
                        self.phase = Phase::Closed;
                        Action::Close { hook: self.hooks.on_close, failed: true }
                    }
                },
                Event::PeerClosed => {
                    self.phase = Phase::Closed;
                    Action::Close { hook: self.hooks.on_close, failed: false }
                },
                _ => Action::Read,
            },
            Phase::Closed => Action::Leave,
        }
    }
}

/// The event of a valid update message.
pub open spec fn update_event(payload: NotificationsView, revive: bool) -> EventView {
    EventView::Message(Ok(PacketView::Update { payload, revive }))
}

/// The action that an open connection takes on a valid update.
pub open spec fn apply_action(hooks: Hooks, payload: NotificationsView, revive: bool) -> ActionView {
    ActionView::Apply {
        snapshot: payload,
        notify: if hooks.on_update {
            Some(revive)
        } else {
            None
        },
    }
}

/// Whether an action asks for one of the scripting side's hooks.
pub open spec fn calls_hook(a: ActionView) -> bool {
    match a {
        ActionView::Apply { notify, .. } => notify is Some,
        ActionView::Close { hook, .. } => hook,
        _ => false,
    }
}

/// On one open connection, updates are applied and reported to the
/// on-update hook one by one, in the order they arrived, each with its own
/// snapshot and flag, and the connection stays open.
pub proof fn lemma_updates_in_order(hooks: Hooks, updates: Seq<(NotificationsView, bool)>)
    ensures
        run(Phase::Open, hooks, updates.map_values(|u: (NotificationsView, bool)| update_event(u.0, u.1)))
            == (Phase::Open, updates.map_values(|u: (NotificationsView, bool)| apply_action(hooks, u.0, u.1))),
    decreases updates.len(),
{
    let events = updates.map_values(|u: (NotificationsView, bool)| update_event(u.0, u.1));
    let acts = updates.map_values(|u: (NotificationsView, bool)| apply_action(hooks, u.0, u.1));
    if updates.len() > 0 {
        let init = updates.drop_last();
        lemma_updates_in_order(hooks, init);
        assert(events.drop_last() =~= init.map_values(|u: (NotificationsView, bool)| update_event(u.0, u.1)));
        assert(acts =~= init.map_values(|u: (NotificationsView, bool)| apply_action(hooks, u.0, u.1)).push(
            apply_action(hooks, updates.last().0, updates.last().1),
        ));
    } else {
        assert(acts =~= Seq::<ActionView>::empty());
    }
}

/// A message that fails to decode is dropped and the connection stays
/// open: a valid update that follows it is applied.
pub proof fn lemma_malformed_then_valid(hooks: Hooks, error: DecodeError, payload: NotificationsView, revive: bool)
    ensures
        run(Phase::Open, hooks, seq![EventView::Message(Err(error)), update_event(payload, revive)]) == (
            Phase::Open,
            seq![ActionView::Drop(error), apply_action(hooks, payload, revive)],
        ),
{
    let events = seq![EventView::Message(Err(error)), update_event(payload, revive)];
    assert(events.drop_last() =~= seq![EventView::Message(Err(error))]);
    assert(events.drop_last().drop_last() =~= Seq::<EventView>::empty());
    assert(run(Phase::Open, hooks, events.drop_last().drop_last()).1 =~= Seq::<ActionView>::empty());
    assert(run(Phase::Open, hooks, events.drop_last()).1 =~= seq![ActionView::Drop(error)]);
    assert(run(Phase::Open, hooks, events).1 =~= seq![ActionView::Drop(error), apply_action(hooks, payload, revive)]);
}

/// Without hooks, no sequence of events leads to a hook call.
pub proof fn lemma_no_hooks_no_calls(phase: Phase, events: Seq<EventView>)
    ensures
        forall|i: int|
            0 <= i < run(phase, Hooks { on_update: false, on_close: false }, events).1.len() ==> !calls_hook(
                #[trigger] run(phase, Hooks { on_update: false, on_close: false }, events).1[i],
            ),
    decreases events.len(),
{
    let hooks = Hooks { on_update: false, on_close: false };
    if events.len() > 0 {
        lemma_no_hooks_no_calls(phase, events.drop_last());
        let init = run(phase, hooks, events.drop_last());
        let acts = run(phase, hooks, events).1;
        assert(acts == init.1.push(next(init.0, hooks, events.last()).1));
        assert forall|i: int| 0 <= i < acts.len() implies !calls_hook(#[trigger] acts[i]) by {
            if i < init.1.len() {
                assert(acts[i] == init.1[i]);
            }
        }
    }
}

/// Without hooks, an open connection still applies an update and then
/// closes when the peer leaves, neither step asking for a hook.
pub proof fn lemma_no_hooks_update_then_close(payload: NotificationsView, revive: bool)
    ensures
        run(Phase::Open, Hooks { on_update: false, on_close: false }, seq![update_event(payload, revive), EventView::PeerClosed])
            == (
            Phase::Closed,
            seq![
                ActionView::Apply { snapshot: payload, notify: None },
                ActionView::Close { hook: false, failed: false },
            ],
        ),
{
    let hooks = Hooks { on_update: false, on_close: false };
    let events = seq![update_event(payload, revive), EventView::PeerClosed];
    assert(events.drop_last() =~= seq![update_event(payload, revive)]);
    assert(events.drop_last().drop_last() =~= Seq::<EventView>::empty());
    assert(run(Phase::Open, hooks, events.drop_last().drop_last()).1 =~= Seq::<ActionView>::empty());
    assert(run(Phase::Open, hooks, events.drop_last()).1 =~= seq![
        ActionView::Apply { snapshot: payload, notify: None },
    ]);
    assert(run(Phase::Open, hooks, events).1 =~= seq![
        ActionView::Apply { snapshot: payload, notify: None },
        ActionView::Close { hook: false, failed: false },
    ]);
}

proof fn lemma_closed_after_close(phase: Phase, hooks: Hooks, events: Seq<EventView>, i: int)
    requires
        0 <= i < run(phase, hooks, events).1.len(),
        run(phase, hooks, events).1[i] is Close,
    ensures
        run(phase, hooks, events).0 == Phase::Closed,
        forall|j: int| i < j < run(phase, hooks, events).1.len() ==> #[trigger] run(phase, hooks, events).1[j] is Leave,
    decreases events.len(),
{
    let init = run(phase, hooks, events.drop_last());
    if i < init.1.len() {
        lemma_closed_after_close(phase, hooks, events.drop_last(), i);
    }
}

/// Once a connection has asked for its close, every later event is
/// ignored: the on-close hook is asked for at most once.
pub proof fn lemma_close_at_most_once(phase: Phase, hooks: Hooks, events: Seq<EventView>)
    ensures
        forall|i: int, j: int|
            0 <= i < j < run(phase, hooks, events).1.len() && (#[trigger] run(phase, hooks, events).1[i]) is Close
                ==> !(#[trigger] run(phase, hooks, events).1[j] is Close),
{
    assert forall|i: int, j: int|
        0 <= i < j < run(phase, hooks, events).1.len() && (#[trigger] run(phase, hooks, events).1[i]) is Close
            implies !(#[trigger] run(phase, hooks, events).1[j] is Close) by {
        lemma_closed_after_close(phase, hooks, events, i);
    }
}

} // verus!
