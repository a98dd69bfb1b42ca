//! The session coordinator: the one place where connections are counted,
//! registered and forgotten, and where it is decided when the camera runs.
//!
//! The coordinator performs nothing itself. It takes one event at a time and
//! answers with what is to be done; the caller starts or stops the camera,
//! decodes a request, writes a response, and reports back.

use crate::address::{get_current_ip_address, spec_current_ip_address, NetworkInterface};
use crate::messages::{HelloRequest, HelloResponse, ServoRotateRequest};
use crate::networking::MessageType;
use crate::reader::{Event, EventView, ReceivedMessage, ReceivedMessageView};
use crate::registry::ConnectionRegistry;
use crate::servo::ServoControl;
use vstd::prelude::*;

verus! {

/// Bit of the feature set that says that a camera is present.
pub const FEATURE_CAMERA: u32 = 1;

/// Bit of the feature set that says that a servo is present.
pub const FEATURE_SERVO: u32 = 2;

/// The feature set of a server: the camera always, the servo if there is one.
pub open spec fn spec_feature_set(servo: bool) -> u32 {
    if servo {
        3
    } else {
        1
    }
}

/// The feature set that a server announces to its clients.
pub fn get_feature_set(servo: bool) -> (features: u32)
    ensures
        features == spec_feature_set(servo),
        features & FEATURE_CAMERA == FEATURE_CAMERA,
        (features & FEATURE_SERVO == FEATURE_SERVO) == servo,
{
    let mut features: u32 = FEATURE_CAMERA;
    if servo {
        features = features | FEATURE_SERVO;
    }
    assert(1u32 | 2u32 == 3u32 && 3u32 & 1u32 == 1u32 && 3u32 & 2u32 == 2u32 && 1u32 & 1u32 == 1u32
        && 1u32 & 2u32 == 0u32) by (bit_vector);
    features
}

/// The two events in the life of a connection that the camera depends on.
#[derive(Clone, Copy, Debug, PartialEq, Eq, Structural)]
pub enum Lifecycle {
    Connected,
    Disconnected,
}

/// What is to be done with the camera.
#[derive(Clone, Copy, Debug, PartialEq, Eq, Structural)]
pub enum CameraAction {
    NoAction,
    StartCamera,
    StopCamera,
}

/// The rule of the resource arbiter.
///
/// A connection that arrives is counted, and the first one starts the camera.
/// A connection that leaves is discounted, and the last one stops the camera.
/// When nothing is counted, a connection that leaves changes nothing.
pub open spec fn spec_decide(event: Lifecycle, count_before: nat) -> (nat, CameraAction) {
    match event {
        Lifecycle::Connected => (
            count_before + 1,
            if count_before == 0 {
                CameraAction::StartCamera
            } else {
                CameraAction::NoAction
            },
        ),
        Lifecycle::Disconnected => if count_before == 0 {
            (0, CameraAction::NoAction)
        } else {
            (
                (count_before - 1) as nat,
                if count_before == 1 {
                    CameraAction::StopCamera
                } else {
                    CameraAction::NoAction
                },
            )
        },
    }
}

/// The resource arbiter: the count of live connections after `event`, and
/// what is to be done with the camera. The count is a `u32`, so a connection
/// cannot be counted beyond `u32::MAX`.
pub fn decide(event: Lifecycle, count_before: u32) -> (decision: (u32, CameraAction))
    requires
        event is Connected ==> count_before < u32::MAX,
    ensures
        (decision.0 as nat, decision.1) == spec_decide(event, count_before as nat),
{
    match event {
        Lifecycle::Connected => {
            if count_before == 0 {
                (1, CameraAction::StartCamera)
            } else {
                (count_before + 1, CameraAction::NoAction)
            }
        },
        Lifecycle::Disconnected => {
            if count_before == 0 {
                (0, CameraAction::NoAction)
            } else if count_before == 1 {
                (0, CameraAction::StopCamera)
            } else {
                (count_before - 1, CameraAction::NoAction)
            }
        },
    }
}

/// The count after a run of events, and the actions that they called for, one
/// for each event.
pub open spec fn spec_run(count: nat, events: Seq<Lifecycle>) -> (nat, Seq<CameraAction>)
    decreases events.len(),
{
    if events.len() == 0 {
        (count, Seq::empty())
    } else {
        let (next, action) = spec_decide(events[0], count);
        let (last, actions) = spec_run(next, events.subrange(1, events.len() as int));
        (last, seq![action] + actions)
    }
}

/// How often `action` occurs in `actions`.
pub open spec fn spec_occurrences(actions: Seq<CameraAction>, action: CameraAction) -> nat
    decreases actions.len(),
{
    if actions.len() == 0 {
        0
    } else {
        let here: nat = if actions[0] == action {
            1
        } else {
            0
        };
        here + spec_occurrences(actions.subrange(1, actions.len() as int), action)
    }
}

/// `n` times the same event.
pub open spec fn spec_repeat(event: Lifecycle, n: nat) -> Seq<Lifecycle> {
    Seq::new(n, |i: int| event)
}

/// What the coordinator keeps of the session as a whole.
#[derive(Clone, Copy, Debug, PartialEq, Eq, Structural)]
pub struct SessionState {
    /// The number of connections that have arrived and not left.
    pub active_connection_count: u32,
    /// Whether the camera runs, as far as the last attempts to start and to
    /// stop it tell.
    pub camera_running: bool,
}

/// What the coordinator asks of its caller in answer to an event.
#[derive(Clone, Debug, PartialEq, Eq)]
pub enum Reaction {
    /// Nothing is left to do.
    Settled,
    /// Start the camera and report the outcome.
    StartCamera,
    /// Stop the camera and report the outcome.
    StopCamera,
    /// Decode the payload as the request that its kind names and hand the
    /// request to its handler.
    Dispatch(ReceivedMessage),
}

/// A [`Reaction`] as contracts see it.
pub enum ReactionView {
    Settled,
    StartCamera,
    StopCamera,
    Dispatch(ReceivedMessageView),
}

impl View for Reaction {
    type V = ReactionView;

    open spec fn view(&self) -> ReactionView {
        match self {
            Reaction::Settled => ReactionView::Settled,
            Reaction::StartCamera => ReactionView::StartCamera,
            Reaction::StopCamera => ReactionView::StopCamera,
            Reaction::Dispatch(message) => ReactionView::Dispatch(message@),
        }
    }
}

/// The reaction that carries out a camera action.
pub open spec fn spec_reaction_of(action: CameraAction) -> ReactionView {
    match action {
        CameraAction::NoAction => ReactionView::Settled,
        CameraAction::StartCamera => ReactionView::StartCamera,
        CameraAction::StopCamera => ReactionView::StopCamera,
    }
}

/// The camera action that a reaction carries out, if it is one.
pub open spec fn spec_action_of(reaction: ReactionView) -> CameraAction {
    match reaction {
        ReactionView::StartCamera => CameraAction::StartCamera,
        ReactionView::StopCamera => CameraAction::StopCamera,
        _ => CameraAction::NoAction,
    }
}

/// The arrival or departure that an event is, if it is one.
pub open spec fn spec_lifecycle_of(event: EventView) -> Option<Lifecycle> {
    match event {
        EventView::Connected(_) => Some(Lifecycle::Connected),
        EventView::Disconnected(_) => Some(Lifecycle::Disconnected),
        EventView::MessageReceived(_) => None,
    }
}

/// The arrivals and departures among `events`, in order.
pub open spec fn spec_lifecycles(events: Seq<EventView>) -> Seq<Lifecycle>
    decreases events.len(),
{
    if events.len() == 0 {
        Seq::empty()
    } else {
        let rest = spec_lifecycles(events.subrange(1, events.len() as int));
        match spec_lifecycle_of(events[0]) {
            Some(lifecycle) => seq![lifecycle] + rest,
            None => rest,
        }
    }
}

/// Whether the server has a handler for messages of this kind. It handles
/// requests; a response that a client sends is ignored.
pub open spec fn spec_is_handled(msg_type: MessageType) -> bool {
    msg_type is HelloRequest || msg_type is ServoRotateRequest
}

/// A response together with the one connection that it is to be written to.
#[derive(Clone, Copy, Debug, PartialEq, Eq, Structural)]
pub struct HelloReply {
    pub recipient: u32,
    pub response: HelloResponse,
}

/// The nearest rotation step to `value` that a request may carry.
pub open spec fn spec_clamp_step(value: i32) -> i8 {
    if value < -127 {
        -127i8
    } else if value > 127 {
        127i8
    } else {
        value as i8
    }
}

/// A coordinator as contracts see it.
pub struct ServerModel<W> {
    /// The write handle of every registered connection.
    pub connections: Map<u32, W>,
    pub session: SessionState,
    /// The id that the next connection gets.
    pub next_id: u32,
    pub camera_port: u16,
    pub servo: bool,
}

impl<W> ServerModel<W> {
    /// The invariant of a coordinator: every registered connection has an id
    /// that was given out already, so the next id is new.
    pub open spec fn wf(self) -> bool {
        forall|id: u32| #[trigger] self.connections.contains_key(id) ==> id < self.next_id
    }

    /// The coordinator after `event`, and its reaction.
    pub open spec fn handle_event(self, event: EventView) -> (ServerModel<W>, ReactionView) {
        match event {
            EventView::Connected(id) => {
                let (count, action) = spec_decide(
                    Lifecycle::Connected,
                    self.session.active_connection_count as nat,
                );
                (
                    ServerModel {
                        connections: self.connections,
                        session: SessionState {
                            active_connection_count: count as u32,
                            camera_running: self.session.camera_running,
                        },
                        next_id: self.next_id,
                        camera_port: self.camera_port,
                        servo: self.servo,
                    },
                    spec_reaction_of(action),
                )
            },
            EventView::Disconnected(id) => {
                let (count, action) = spec_decide(
                    Lifecycle::Disconnected,
                    self.session.active_connection_count as nat,
                );
                (
                    ServerModel {
                        connections: self.connections.remove(id),
                        session: SessionState {
                            active_connection_count: count as u32,
                            camera_running: self.session.camera_running,
                        },
                        next_id: self.next_id,
                        camera_port: self.camera_port,
                        servo: self.servo,
                    },
                    spec_reaction_of(action),
                )
            },
            EventView::MessageReceived(message) => (
                self,
                if spec_is_handled(message.msg_type) {
                    ReactionView::Dispatch(message)
                } else {
                    ReactionView::Settled
                },
            ),
        }
    }

    /// The coordinator after the camera has been asked to do `action` and has
    /// said whether it did. A failure leaves the record as it was.
    pub open spec fn camera_outcome(self, action: CameraAction, succeeded: bool) -> ServerModel<W> {
        ServerModel {
            connections: self.connections,
            session: SessionState {
                active_connection_count: self.session.active_connection_count,
                camera_running: match action {
                    CameraAction::NoAction => self.session.camera_running,
                    CameraAction::StartCamera => succeeded || self.session.camera_running,
                    CameraAction::StopCamera => !succeeded && self.session.camera_running,
                },
            },
            next_id: self.next_id,
            camera_port: self.camera_port,
            servo: self.servo,
        }
    }

    /// The coordinator after a run of events, and the camera action that each
    /// of them called for.
    pub open spec fn run(self, events: Seq<EventView>) -> (ServerModel<W>, Seq<CameraAction>)
        decreases events.len(),
    {
        if events.len() == 0 {
            (self, Seq::empty())
        } else {
            let (next, reaction) = self.handle_event(events[0]);
            let (last, actions) = next.run(events.subrange(1, events.len() as int));
            (last, seq![spec_action_of(reaction)] + actions)
        }
    }

    /// Whether the record of the camera agrees with the count: the camera
    /// runs exactly while a connection is there.
    pub open spec fn is_settled(self) -> bool {
        self.session.camera_running == (self.session.active_connection_count > 0)
    }
}

/// The session coordinator. `W` is the write handle of a connection.
pub struct Server<W> {
    client_connections: ConnectionRegistry<W>,
    session: SessionState,
    current_client_id: u32,
    camera_port: u16,
    servo: bool,
}

impl<W> View for Server<W> {
    type V = ServerModel<W>;

    closed spec fn view(&self) -> ServerModel<W> {
        ServerModel {
            connections: self.client_connections@,
            session: self.session,
            next_id: self.current_client_id,
            camera_port: self.camera_port,
            servo: self.servo,
        }
    }
}

impl<W> Server<W> {
    /// A coordinator without connections, for a camera that streams on
    /// `camera_port`, with or without a servo.
    pub fn new(camera_port: u16, servo: bool) -> (server: Self)
        ensures
            server@.wf(),
            server@ == (ServerModel {
                connections: Map::<u32, W>::empty(),
                session: SessionState { active_connection_count: 0, camera_running: false },
                next_id: 0,
                camera_port,
                servo,
            }),
    {
        Server {
            client_connections: ConnectionRegistry::new(),
            session: SessionState { active_connection_count: 0, camera_running: false },
            current_client_id: 0,
            camera_port,
            servo,
        }
    }

    /// What the coordinator keeps of the session as a whole.
    pub fn session(&self) -> (session: SessionState)
        ensures
            session == self@.session,
    {
        self.session
    }

    /// Takes a new connection in: its write handle is registered under the
    /// next id, which is handed back for the connection's reader. Ids go up
    /// by one and are never given twice; once they are used up, the handle is
    /// handed back and nothing changes.
    pub fn accept(&mut self, writer: W) -> (accepted: Result<u32, W>)
        requires
            old(self)@.wf(),
        ensures
            final(self)@.wf(),
            match accepted {
                Ok(id) => {
                    &&& id == old(self)@.next_id
                    &&& id < u32::MAX
                    &&& !old(self)@.connections.contains_key(id)
                    &&& final(self)@ == (ServerModel {
                        connections: old(self)@.connections.insert(id, writer),
                        next_id: (id + 1) as u32,
                        ..old(self)@
                    })
                },
                Err(refused) => {
                    &&& old(self)@.next_id == u32::MAX
                    &&& refused == writer
                    &&& final(self)@ == old(self)@
                },
            },
    {
        if self.current_client_id == u32::MAX {
            return Err(writer);
        }
        let id: u32 = self.current_client_id;
        self.client_connections.insert(id, writer);
        self.current_client_id = id + 1;
        assert forall|other: u32| #[trigger] self@.connections.contains_key(other) implies other
            < self@.next_id by {
            if other != id {
                assert(old(self)@.connections.contains_key(other));
            }
        }
        Ok(id)
    }

    /// Takes one event and says what is to be done.
    ///
    /// A connection that arrives or leaves is counted by the rule of the
    /// arbiter, and one that leaves is taken out of the registry. A message
    /// of a kind that the server handles is handed back for dispatch; any
    /// other is ignored.
    pub fn handle_event(&mut self, event: Event) -> (reaction: Reaction)
        requires
            old(self)@.wf(),
            event is Connected ==> old(self)@.session.active_connection_count < u32::MAX,
        ensures
            final(self)@.wf(),
            (final(self)@, reaction@) == old(self)@.handle_event(event@),
    {
        match event {
            Event::Connected(_id) => {
                let (count, action) = decide(
                    Lifecycle::Connected,
                    self.session.active_connection_count,
                );
                self.session.active_connection_count = count;
                Self::reaction_of(action)
            },
            Event::Disconnected(id) => {
                let (count, action) = decide(
                    Lifecycle::Disconnected,
                    self.session.active_connection_count,
                );
                self.session.active_connection_count = count;
                self.client_connections.remove(id);
                Self::reaction_of(action)
            },
            Event::MessageReceived(message) => {
                match message.msg_type {
                    MessageType::HelloRequest => Reaction::Dispatch(message),
                    MessageType::ServoRotateRequest => Reaction::Dispatch(message),
                    MessageType::HelloResponse => Reaction::Settled,
                }
            },
        }
    }

    fn reaction_of(action: CameraAction) -> (reaction: Reaction)
        ensures
            reaction@ == spec_reaction_of(action),
    {
        match action {
            CameraAction::NoAction => Reaction::Settled,
            CameraAction::StartCamera => Reaction::StartCamera,
            CameraAction::StopCamera => Reaction::StopCamera,
        }
    }

    /// Records how an attempt to start or stop the camera went. The count of
    /// connections stays as it is either way.
    pub fn camera_outcome(&mut self, action: CameraAction, succeeded: bool)
        requires
            old(self)@.wf(),
        ensures
            final(self)@.wf(),
            final(self)@ == old(self)@.camera_outcome(action, succeeded),
    {
        match action {
            CameraAction::NoAction => {},
            CameraAction::StartCamera => {
                if succeeded {
                    self.session.camera_running = true;
                }
            },
            CameraAction::StopCamera => {
                if succeeded {
                    self.session.camera_running = false;
                }
            },
        }
        assert forall|id: u32| #[trigger] self@.connections.contains_key(id) implies id
            < self@.next_id by {
            assert(old(self)@.connections.contains_key(id));
        }
    }

    /// Answers a hello request from connection `sender_id`: the response goes
    /// to that connection and to no other. It names the address that the
    /// machine is reached at, chosen among `interfaces`, the camera's port and
    /// the server's features. A sender that is not registered gets no answer.
    pub fn on_hello_request(
        &self,
        sender_id: u32,
        _request: HelloRequest,
        interfaces: &Vec<NetworkInterface>,
    ) -> (reply: Option<HelloReply>)
        ensures
            reply == if self@.connections.contains_key(sender_id) {
                Some(
                    HelloReply {
                        recipient: sender_id,
                        response: HelloResponse {
                            stream_host: spec_current_ip_address(interfaces@),
                            stream_port: self@.camera_port as i32,
                            feature_set: spec_feature_set(self@.servo),
                        },
                    },
                )
            } else {
                None
            },
    {
        if self.client_connections.contains(sender_id) {
            Some(
                HelloReply {
                    recipient: sender_id,
                    response: HelloResponse {
                        stream_host: get_current_ip_address(interfaces),
                        stream_port: self.camera_port as i32,
                        feature_set: get_feature_set(self.servo),
                    },
                },
            )
        } else {
            None
        }
    }

    /// Turns a rotate request into the command for the servo pipeline. Steps
    /// beyond what a command can carry are brought to the nearest that it
    /// can. Without a servo there is nothing to command.
    pub fn on_servo_rotate_request(&self, _sender_id: u32, request: ServoRotateRequest) -> (command:
        Option<ServoControl>)
        ensures
            command == if self@.servo {
                Some(
                    ServoControl {
                        dx: spec_clamp_step(request.dx),
                        dy: spec_clamp_step(request.dy),
                    },
                )
            } else {
                None
            },
    {
        if self.servo {
            Some(ServoControl { dx: clamp_step(request.dx), dy: clamp_step(request.dy) })
        } else {
            None
        }
    }

    /// The write handle of connection `id`, to send a response through.
    /// `None` means that the connection is gone; the response is dropped.
    pub fn connection_mut(&mut self, id: u32) -> (handle: Option<&mut W>)
        requires
            old(self)@.wf(),
        ensures
            final(self)@.wf(),
            match handle {
                Some(found) => {
                    &&& old(self)@.connections.contains_key(id)
                    &&& *found == old(self)@.connections[id]
                    &&& final(self)@ == (ServerModel {
                        connections: old(self)@.connections.insert(id, *final(found)),
                        ..old(self)@
                    })
                },
                None => !old(self)@.connections.contains_key(id) && final(self)@ == old(self)@,
            },
    {
        proof {
            if self@.connections.contains_key(id) {
                lemma_rewriting_keeps_ids(self@, id);
            }
        }
        self.client_connections.get_mut(id)
    }
}

/// Whatever is written through the handle of a registered connection, the
/// ids of the registered connections stay those that were given out.
proof fn lemma_rewriting_keeps_ids<W>(model: ServerModel<W>, id: u32)
    requires
        model.wf(),
        model.connections.contains_key(id),
    ensures
        forall|written: W| #[trigger]
            (ServerModel { connections: model.connections.insert(id, written), ..model }).wf(),
{
    assert forall|written: W| #[trigger]
        (ServerModel { connections: model.connections.insert(id, written), ..model }).wf() by {
        let after = ServerModel { connections: model.connections.insert(id, written), ..model };
        assert forall|other: u32| #[trigger] after.connections.contains_key(other) implies other
            < after.next_id by {
            assert(model.connections.contains_key(other));
        }
    }
}

/// Brings a requested step into the range that a command can carry.
pub fn clamp_step(value: i32) -> (step: i8)
    ensures
        step == spec_clamp_step(value),
        -127 <= step <= 127,
{
    if value < -127 {
        -127
    } else if value > 127 {
        127
    } else {
        value as i8
    }
}

/// A run over two stretches of events is the run over the first, continued
/// over the second.
pub proof fn lemma_run_append(count: nat, first: Seq<Lifecycle>, second: Seq<Lifecycle>)
    ensures
        spec_run(count, first + second) == (
            spec_run(spec_run(count, first).0, second).0,
            spec_run(count, first).1 + spec_run(spec_run(count, first).0, second).1,
        ),
    decreases first.len(),
{
    if first.len() == 0 {
        assert(first + second =~= second);
        assert(Seq::<CameraAction>::empty() + spec_run(count, second).1 =~= spec_run(
            count,
            second,
        ).1);
    } else {
        let (next, action) = spec_decide(first[0], count);
        let tail = first.subrange(1, first.len() as int);
        assert((first + second).subrange(1, (first + second).len() as int) =~= tail + second);
        lemma_run_append(next, tail, second);
        let middle = spec_run(next, tail);
        let rest = spec_run(middle.0, second);
        assert(seq![action] + (middle.1 + rest.1) =~= (seq![action] + middle.1) + rest.1);
    }
}

/// Occurrences add up over two stretches of actions.
pub proof fn lemma_occurrences_append(
    first: Seq<CameraAction>,
    second: Seq<CameraAction>,
    action: CameraAction,
)
    ensures
        spec_occurrences(first + second, action) == spec_occurrences(first, action)
            + spec_occurrences(second, action),
    decreases first.len(),
{
    if first.len() == 0 {
        assert(first + second =~= second);
    } else {
        let tail = first.subrange(1, first.len() as int);
        assert((first + second).subrange(1, (first + second).len() as int) =~= tail + second);
        lemma_occurrences_append(tail, second, action);
    }
}

/// `n` connections that arrive raise the count by `n`. The camera is started
/// once, by the first of them, if none was there before; it is never stopped.
pub proof fn lemma_run_connects(count: nat, n: nat)
    ensures
        spec_run(count, spec_repeat(Lifecycle::Connected, n)).0 == count + n,
        spec_run(count, spec_repeat(Lifecycle::Connected, n)).1.len() == n,
        spec_occurrences(
            spec_run(count, spec_repeat(Lifecycle::Connected, n)).1,
            CameraAction::StartCamera,
        ) == if count == 0 && n > 0 {
            1nat
        } else {
            0nat
        },
        spec_occurrences(
            spec_run(count, spec_repeat(Lifecycle::Connected, n)).1,
            CameraAction::StopCamera,
        ) == 0,
        count == 0 && n > 0 ==> spec_run(count, spec_repeat(Lifecycle::Connected, n)).1[0]
            == CameraAction::StartCamera,
    decreases n,
{
    let events = spec_repeat(Lifecycle::Connected, n);
    if n > 0 {
        assert(events.subrange(1, n as int) =~= spec_repeat(
            Lifecycle::Connected,
            (n - 1) as nat,
        ));
        lemma_run_connects(count + 1, (n - 1) as nat);
        let rest = spec_run(count + 1, spec_repeat(Lifecycle::Connected, (n - 1) as nat)).1;
        let actions = spec_run(count, events).1;
        assert(actions.subrange(1, actions.len() as int) =~= rest);
    }
}

/// `n` connections that leave, out of at least `n` that are there, lower the
/// count by `n`. The camera is stopped once, by the last of them, if none is
/// left; it is never started.
pub proof fn lemma_run_disconnects(count: nat, n: nat)
    requires
        n <= count,
    ensures
        spec_run(count, spec_repeat(Lifecycle::Disconnected, n)).0 == count - n,
        spec_run(count, spec_repeat(Lifecycle::Disconnected, n)).1.len() == n,
        spec_occurrences(
            spec_run(count, spec_repeat(Lifecycle::Disconnected, n)).1,
            CameraAction::StopCamera,
        ) == if count == n && n > 0 {
            1nat
        } else {
            0nat
        },
        spec_occurrences(
            spec_run(count, spec_repeat(Lifecycle::Disconnected, n)).1,
            CameraAction::StartCamera,
        ) == 0,
        count == n && n > 0 ==> spec_run(count, spec_repeat(Lifecycle::Disconnected, n)).1[n - 1]
            == CameraAction::StopCamera,
    decreases n,
{
    let events = spec_repeat(Lifecycle::Disconnected, n);
    if n > 0 {
        assert(events.subrange(1, n as int) =~= spec_repeat(
            Lifecycle::Disconnected,
            (n - 1) as nat,
        ));
        lemma_run_disconnects((count - 1) as nat, (n - 1) as nat);
        let rest = spec_run(
            (count - 1) as nat,
            spec_repeat(Lifecycle::Disconnected, (n - 1) as nat),
        ).1;
        let actions = spec_run(count, events).1;
        assert(actions.subrange(1, actions.len() as int) =~= rest);
        if n > 1 && count == n {
            assert(actions[n - 1] == rest[n - 2]);
        }
    }
}

/// From no connection at all, `n` connections that arrive and then leave
/// start the camera exactly once, with the first to arrive, and stop it
/// exactly once, with the last to leave. In the end no connection is counted.
pub proof fn lemma_connects_then_disconnects(n: nat)
    requires
        n >= 1,
    ensures
        ({
            let events = spec_repeat(Lifecycle::Connected, n) + spec_repeat(
                Lifecycle::Disconnected,
                n,
            );
            let (count, actions) = spec_run(0, events);
            &&& count == 0
            &&& actions.len() == 2 * n
            &&& spec_occurrences(actions, CameraAction::StartCamera) == 1
            &&& spec_occurrences(actions, CameraAction::StopCamera) == 1
            &&& actions[0] == CameraAction::StartCamera
            &&& actions[2 * n - 1] == CameraAction::StopCamera
        }),
{
    let connects = spec_repeat(Lifecycle::Connected, n);
    let disconnects = spec_repeat(Lifecycle::Disconnected, n);
    lemma_run_append(0, connects, disconnects);
    lemma_run_connects(0, n);
    lemma_run_disconnects(n, n);
    let up = spec_run(0, connects).1;
    let down = spec_run(n, disconnects).1;
    lemma_occurrences_append(up, down, CameraAction::StartCamera);
    lemma_occurrences_append(up, down, CameraAction::StopCamera);
    assert((up + down)[0] == up[0]);
    assert((up + down)[2 * n - 1] == down[n - 1]);
}

/// Whatever the order of arrivals and departures, starts and stops take
/// turns: the camera has been started once more than stopped exactly while a
/// connection is counted. So it is never started twice in a row, and the
/// count never falls below zero.
pub proof fn lemma_starts_and_stops_balance(count: nat, events: Seq<Lifecycle>)
    ensures
        ({
            let (last, actions) = spec_run(count, events);
            let was_running: nat = if count > 0 {
                1
            } else {
                0
            };
            let is_running: nat = if last > 0 {
                1
            } else {
                0
            };
            spec_occurrences(actions, CameraAction::StartCamera) + was_running == spec_occurrences(
                actions,
                CameraAction::StopCamera,
            ) + is_running
        }),
    decreases events.len(),
{
    if events.len() > 0 {
        let (next, action) = spec_decide(events[0], count);
        let tail = events.subrange(1, events.len() as int);
        lemma_starts_and_stops_balance(next, tail);
        let rest = spec_run(next, tail).1;
        let actions = spec_run(count, events).1;
        assert(actions.subrange(1, actions.len() as int) =~= rest);
    }
}

/// The coordinator counts and acts as the arbiter rules, whatever messages
/// arrive between the arrivals and departures and whichever connections they
/// are about: it counts what the arbiter counts, and starts and stops the
/// camera as often.
pub proof fn lemma_coordinator_follows_arbiter<W>(model: ServerModel<W>, events: Seq<EventView>)
    requires
        model.session.active_connection_count + events.len() <= u32::MAX,
    ensures
        ({
            let (after, actions) = model.run(events);
            let (count, decided) = spec_run(
                model.session.active_connection_count as nat,
                spec_lifecycles(events),
            );
            &&& after.session.active_connection_count == count
            &&& spec_occurrences(actions, CameraAction::StartCamera) == spec_occurrences(
                decided,
                CameraAction::StartCamera,
            )
            &&& spec_occurrences(actions, CameraAction::StopCamera) == spec_occurrences(
                decided,
                CameraAction::StopCamera,
            )
        }),
    decreases events.len(),
{
    if events.len() > 0 {
        let tail = events.subrange(1, events.len() as int);
        let (next, reaction) = model.handle_event(events[0]);
        lemma_coordinator_follows_arbiter(next, tail);
        let action = spec_action_of(reaction);
        let actions = model.run(events).1;
        assert(actions.subrange(1, actions.len() as int) =~= next.run(tail).1);
        match spec_lifecycle_of(events[0]) {
            Some(lifecycle) => {
                let lifecycles = spec_lifecycles(events);
                assert(lifecycles.subrange(1, lifecycles.len() as int) =~= spec_lifecycles(tail));
                let decided = spec_run(
                    model.session.active_connection_count as nat,
                    lifecycles,
                ).1;
                let rest = spec_run(
                    next.session.active_connection_count as nat,
                    spec_lifecycles(tail),
                ).1;
                assert(decided.subrange(1, decided.len() as int) =~= rest);
            },
            None => {},
        }
    }
}

/// From no connection at all, `n` connections that arrive and then leave
/// make the coordinator start the camera exactly once and stop it exactly
/// once, whatever messages arrive in between; in the end it counts none.
pub proof fn lemma_session_starts_and_stops_once<W>(
    model: ServerModel<W>,
    events: Seq<EventView>,
    n: nat,
)
    requires
        n >= 1,
        model.session.active_connection_count == 0,
        events.len() <= u32::MAX,
        spec_lifecycles(events) == spec_repeat(Lifecycle::Connected, n) + spec_repeat(
            Lifecycle::Disconnected,
            n,
        ),
    ensures
        model.run(events).0.session.active_connection_count == 0,
        spec_occurrences(model.run(events).1, CameraAction::StartCamera) == 1,
        spec_occurrences(model.run(events).1, CameraAction::StopCamera) == 1,
{
    lemma_coordinator_follows_arbiter(model, events);
    lemma_connects_then_disconnects(n);
}

/// As long as the camera does what it is asked, the record of the camera
/// agrees with the count after every event.
pub proof fn lemma_settled_is_kept<W>(model: ServerModel<W>, event: EventView)
    requires
        model.is_settled(),
        event is Connected ==> model.session.active_connection_count < u32::MAX,
    ensures
        ({
            let (next, reaction) = model.handle_event(event);
            next.camera_outcome(spec_action_of(reaction), true).is_settled()
        }),
{
}

/// A message changes nothing of what the coordinator keeps: neither the
/// count, nor the record of the camera, nor the registry.
pub proof fn lemma_message_leaves_server_as_it_is<W>(
    model: ServerModel<W>,
    message: ReceivedMessageView,
)
    ensures
        model.handle_event(EventView::MessageReceived(message)).0 == model,
{
}

} // verus!
