//! The watcher: which office is asked next, what an answer leads to, and
//! when the alert goes out.
//!
//! The watcher performs nothing itself. [`Client::run`] takes the state and
//! what happened last, and returns the next state and what is to be done;
//! the caller does it and reports back.

use crate::endpoint::{
    base_text, base_url, endpoint_resolves, endpoint_text, ends_with,
    lemma_booking_names_office_in_path, lemma_query_names_type_and_office, query_parameters,
    query_text, DmvEndpoints,
};
use crate::response::{decode_response, decoded, slot_open, AvailabilityResponse};
use crate::sms::{
    lemma_recipients_bounded, message_text, messages_for, twilio_line, Dispatch, MessageView,
    OutgoingMessage, SMS,
};
use crate::structs::{LocationMap, SchedulerError};
use crate::text::{form_encoded, free_of, percent_decoded, segment_encoded};
use crate::utils::Utils;
use vstd::prelude::*;
use vstd::utf8::encode_utf8;

verus! {

/// How long the watcher waits, and whether it goes on after an alert.
#[derive(Debug, Clone, Copy, PartialEq, Eq, Structural)]
pub struct Schedule {
    /// The pause before each availability query, in seconds.
    pub check_delay_seconds: u64,
    /// The pause after a pass, in seconds.
    pub pass_delay_seconds: u64,
    /// Whether the watcher ends once an alert is out. Otherwise it rests and
    /// scans again.
    pub stop_after_alert: bool,
}

/// Where the watcher stands.
#[derive(Debug, Clone, Copy, PartialEq, Eq, Structural)]
pub enum State {
    /// No pass is under way.
    Idle,
    /// The office at `index` has been asked and the answer is awaited.
    Scanning { index: usize },
    /// The office at `index` has a slot; `sent` messages of the alert are out
    /// and the next one is under way.
    Found { index: usize, sent: usize },
    /// The watcher has ended.
    Terminated,
}

/// What happened since the last action.
#[derive(Debug)]
pub enum Event {
    /// The watcher is started, or the rest after a pass is over.
    Begin,
    /// The portal answered the query with this HTTP status and body.
    Response { status: u16, body: Vec<u8> },
    /// The query found no answer.
    Unreachable,
    /// The provider confirmed the message.
    Delivered,
    /// The message could not be sent or was not delivered.
    Undelivered,
}

/// An `Event` with its body as a sequence of bytes.
pub enum EventView {
    Begin,
    Response { status: u16, body: Seq<u8> },
    Unreachable,
    Delivered,
    Undelivered,
}

impl View for Event {
    type V = EventView;

    open spec fn view(&self) -> EventView {
        match *self {
            Event::Begin => EventView::Begin,
            Event::Response { status, body } => EventView::Response { status, body: body@ },
            Event::Unreachable => EventView::Unreachable,
            Event::Delivered => EventView::Delivered,
            Event::Undelivered => EventView::Undelivered,
        }
    }
}

/// What the caller is to do next.
#[derive(Debug)]
pub enum Action {
    /// Wait `delay_seconds`, request `endpoint` and report the answer.
    Check { delay_seconds: u64, endpoint: String },
    /// Send `message`, whose request body is `payload`, and report whether
    /// it was delivered.
    Send { message: OutgoingMessage, payload: String },
    /// Wait `delay_seconds` and report `Begin`.
    Rest { delay_seconds: u64 },
    /// Nothing is left to do.
    Halt,
    /// The watcher failed, for this reason.
    Fail(SchedulerError),
}

/// An `Action` with its texts as sequences of characters.
pub enum ActionView {
    Check { delay_seconds: u64, endpoint: Seq<char> },
    Send { message: MessageView, payload: Seq<char> },
    Rest { delay_seconds: u64 },
    Halt,
    Fail(SchedulerError),
}

impl View for Action {
    type V = ActionView;

    open spec fn view(&self) -> ActionView {
        match *self {
            Action::Check { delay_seconds, endpoint } => ActionView::Check {
                delay_seconds,
                endpoint: endpoint@,
            },
            Action::Send { message, payload } => ActionView::Send {
                message: message@,
                payload: payload@,
            },
            Action::Rest { delay_seconds } => ActionView::Rest { delay_seconds },
            Action::Halt => ActionView::Halt,
            Action::Fail(e) => ActionView::Fail(e),
        }
    }
}

/// How a pass goes on after an event.
#[derive(Debug)]
pub enum Pass {
    /// The pass is under way: the new state, and what is to be done.
    Next(State, Action),
    /// The pass is over: whether an alert went out, or why the pass failed.
    Done(Result<bool, SchedulerError>),
}

/// A `Pass` with its action as a view.
pub enum PassView {
    Next(State, ActionView),
    Done(Result<bool, SchedulerError>),
}

impl View for Pass {
    type V = PassView;

    open spec fn view(&self) -> PassView {
        match *self {
            Pass::Next(state, action) => PassView::Next(state, action@),
            Pass::Done(outcome) => PassView::Done(outcome),
        }
    }
}

/// What an event says about the office that was asked: whether it has a
/// slot, or that this could not be learned. Only an answer in the 2xx range
/// whose body decodes says anything.
pub open spec fn answer(event: EventView) -> Result<bool, SchedulerError> {
    match event {
        EventView::Response { status, body } => match decoded(status, body) {
            Some(fields) => Ok(slot_open(fields)),
            None => Err(SchedulerError::TransportError),
        },
        _ => Err(SchedulerError::TransportError),
    }
}

/// Whether the `url` crate arrives at the documented addresses of every
/// office in `ids`.
pub open spec fn all_resolve(ids: Seq<Seq<char>>) -> bool {
    forall|i: int|
        0 <= i < ids.len() ==> endpoint_resolves(
            DmvEndpoints::GetNextAvailableDate,
            #[trigger] ids[i],
        ) && endpoint_resolves(DmvEndpoints::AppointmentWizard, ids[i])
}

/// The watcher's configuration: the directory, the recipients, the
/// schedule, and the two addresses of every office.
pub struct Client {
    utils: Utils,
    sms: SMS,
    schedule: Schedule,
    endpoints: Vec<(String, String)>,
}

impl Client {
    /// The directory that is scanned.
    pub closed spec fn directory(&self) -> LocationMap {
        self.utils.mapping()
    }

    /// The account and the recipients of an alert.
    pub closed spec fn alerts(&self) -> SMS {
        self.sms
    }

    /// The pauses and whether the watcher ends after an alert.
    pub closed spec fn schedule(&self) -> Schedule {
        self.schedule
    }

    /// The directory has no id twice, and for every office the two
    /// addresses are kept, each the documented one and each what the `url`
    /// crate arrives at.
    #[verifier::type_invariant]
    pub closed spec fn wf(&self) -> bool {
        &&& self.utils.mapping().wf()
        &&& all_resolve(self.utils.mapping().ids())
        &&& self.endpoints@.len() == self.utils.mapping().ids().len()
        &&& self.endpoints@.len() == self.utils.mapping().records().len()
        &&& forall|i: int|
            0 <= i < self.endpoints@.len() ==> (#[trigger] self.endpoints@[i]).0@ == endpoint_text(
                DmvEndpoints::GetNextAvailableDate,
                self.utils.mapping().ids()[i],
            ) && self.endpoints@[i].1@ == endpoint_text(
                DmvEndpoints::AppointmentWizard,
                self.utils.mapping().ids()[i],
            )
    }

    /// The ids of the offices, in the order of a pass.
    pub open spec fn ids(&self) -> Seq<Seq<char>> {
        self.directory().ids()
    }

    /// The messages that alert to a slot at the office at `index`: one for
    /// each recipient, in order, each with the office's name and its
    /// booking address.
    pub open spec fn alert(&self, index: int) -> Seq<MessageView> {
        messages_for(
            message_text(
                self.directory().records()[index].title,
                endpoint_text(DmvEndpoints::AppointmentWizard, self.ids()[index]),
            ),
            self.alerts().sender(),
            self.alerts().recipients(),
        )
    }

    /// The pass from the office at `index` on: that office is asked, or, if
    /// there is none, the pass is over without an alert.
    pub open spec fn scan(&self, index: int) -> PassView {
        if 0 <= index < self.ids().len() {
            PassView::Next(
                State::Scanning { index: index as usize },
                ActionView::Check {
                    delay_seconds: self.schedule().check_delay_seconds,
                    endpoint: endpoint_text(DmvEndpoints::GetNextAvailableDate, self.ids()[index]),
                },
            )
        } else {
            PassView::Done(Ok(false))
        }
    }

    /// The alert for the office at `index` once `sent` of its messages are
    /// out: the next message leaves, or, if there is none, the pass is over
    /// with the alert out.
    pub open spec fn dispatch(&self, index: int, sent: int) -> PassView {
        let messages = self.alert(index);
        if 0 <= sent < messages.len() {
            PassView::Next(
                State::Found { index: index as usize, sent: sent as usize },
                ActionView::Send {
                    message: messages[sent],
                    payload: twilio_line(
                        messages[sent].body,
                        messages[sent].from,
                        messages[sent].to,
                    ),
                },
            )
        } else {
            PassView::Done(Ok(true))
        }
    }

    /// How a pass goes on from `state` after `event`.
    ///
    /// An idle watcher begins with the first office. An office without a
    /// slot leads to the next one; the first office with a slot leads to
    /// the alert, and no further office is asked in this pass. An answer
    /// that could not be had fails the pass, and so does a message that did
    /// not go out.
    pub open spec fn pass(&self, state: State, event: EventView) -> PassView {
        match state {
            State::Idle => self.scan(0),
            State::Scanning { index } => if index >= self.ids().len() {
                PassView::Done(Err(SchedulerError::NotFoundError))
            } else {
                match answer(event) {
                    Ok(true) => self.dispatch(index as int, 0),
                    Ok(false) => self.scan(index + 1),
                    Err(e) => PassView::Done(Err(e)),
                }
            },
            State::Found { index, sent } => if index >= self.ids().len() {
                PassView::Done(Err(SchedulerError::NotFoundError))
            } else {
                match event {
                    EventView::Delivered => self.dispatch(index as int, sent + 1),
                    _ => PassView::Done(Err(SchedulerError::NotificationError)),
                }
            },
            State::Terminated => PassView::Next(State::Terminated, ActionView::Halt),
        }
    }

    /// What the watcher does once a pass is over with `outcome`: it fails
    /// with the pass, ends after an alert if the schedule says so, and
    /// otherwise rests before the next pass.
    pub open spec fn settle(&self, outcome: Result<bool, SchedulerError>) -> (State, ActionView) {
        match outcome {
            Err(e) => (State::Terminated, ActionView::Fail(e)),
            Ok(alerted) => if alerted && self.schedule().stop_after_alert {
                (State::Terminated, ActionView::Halt)
            } else {
                (State::Idle, ActionView::Rest { delay_seconds: self.schedule().pass_delay_seconds })
            },
        }
    }

    /// The watcher's step: the state after `event` and what is to be done.
    /// An idle watcher waits for `Begin`.
    pub open spec fn step(&self, state: State, event: EventView) -> (State, ActionView) {
        if state is Idle && !(event is Begin) {
            (State::Idle, ActionView::Rest { delay_seconds: self.schedule().pass_delay_seconds })
        } else {
            match self.pass(state, event) {
                PassView::Next(next, action) => (next, action),
                PassView::Done(outcome) => self.settle(outcome),
            }
        }
    }

    /// The watcher of `utils` that alerts through `sms`, with a pause of two
    /// seconds before each query, none between passes, and an end after the
    /// first alert.
    pub fn new(utils: Utils, sms: SMS) -> (r: Result<Self, SchedulerError>)
        ensures
            match r {
                Ok(client) => {
                    &&& client.wf()
                    &&& all_resolve(utils.mapping().ids())
                    &&& client.directory() == utils.mapping()
                    &&& client.alerts() == sms
                    &&& client.schedule() == (Schedule {
                        check_delay_seconds: 2,
                        pass_delay_seconds: 0,
                        stop_after_alert: true,
                    })
                },
                Err(e) => !all_resolve(utils.mapping().ids()) && e == SchedulerError::ConfigError,
            },
    {
        Client::with_schedule(
            utils,
            sms,
            Schedule { check_delay_seconds: 2, pass_delay_seconds: 0, stop_after_alert: true },
        )
    }

    /// The watcher of `utils` that alerts through `sms` and keeps to
    /// `schedule`. The two addresses of every office are built here; a
    /// directory with an office for which the `url` crate does not arrive at
    /// the documented addresses is refused. That is so for an office whose
    /// id is `.` or `..`, which no address can carry as a path segment.
    pub fn with_schedule(utils: Utils, sms: SMS, schedule: Schedule) -> (r: Result<
        Self,
        SchedulerError,
    >)
        ensures
            match r {
                Ok(client) => {
                    &&& client.wf()
                    &&& all_resolve(utils.mapping().ids())
                    &&& client.directory() == utils.mapping()
                    &&& client.alerts() == sms
                    &&& client.schedule() == schedule
                },
                Err(e) => !all_resolve(utils.mapping().ids()) && e == SchedulerError::ConfigError,
            },
    {
        let mut endpoints: Vec<(String, String)> = Vec::new();
        let map = utils.get_location_mapping();
        let mut i: usize = 0;
        while i < map.len()
            invariant
                *map == utils.mapping(),
                i <= map.ids().len(),
                endpoints@.len() == i,
                forall|k: int|
                    0 <= k < i ==> endpoint_resolves(
                        DmvEndpoints::GetNextAvailableDate,
                        #[trigger] map.ids()[k],
                    ) && endpoint_resolves(DmvEndpoints::AppointmentWizard, map.ids()[k]),
                forall|k: int|
                    0 <= k < i ==> (#[trigger] endpoints@[k]).0@ == endpoint_text(
                        DmvEndpoints::GetNextAvailableDate,
                        map.ids()[k],
                    ) && endpoints@[k].1@ == endpoint_text(
                        DmvEndpoints::AppointmentWizard,
                        map.ids()[k],
                    ),
            decreases map.ids().len() - i,
        {
            let id = map.id_at(i);
            let query = match crate::endpoint::build_endpoint(
                DmvEndpoints::GetNextAvailableDate,
                id.as_str(),
            ) {
                Ok(text) => text,
                Err(e) => {
                    assert(!endpoint_resolves(DmvEndpoints::GetNextAvailableDate, map.ids()[i as int]));
                    return Err(e);
                },
            };
            let booking = match crate::endpoint::build_endpoint(
                DmvEndpoints::AppointmentWizard,
                id.as_str(),
            ) {
                Ok(text) => text,
                Err(e) => {
                    assert(!endpoint_resolves(DmvEndpoints::AppointmentWizard, map.ids()[i as int]));
                    return Err(e);
                },
            };
            endpoints.push((query, booking));
            i += 1;
        }
        Ok(Client { utils, sms, schedule, endpoints })
    }

    /// The address under which the portal lives.
    pub fn url(&self) -> (base: &'static str)
        ensures
            base@ == base_text(),
    {
        base_url()
    }

    /// The directory that is scanned.
    pub fn utils(&self) -> (utils: &Utils)
        ensures
            utils.mapping() == self.directory(),
    {
        &self.utils
    }

    /// The account and the recipients of an alert.
    pub fn sms(&self) -> (sms: &SMS)
        ensures
            *sms == self.alerts(),
    {
        &self.sms
    }

    /// Builds the address of `endpoint` for the office `location_id` with
    /// the `url` crate, and hands it out if it is the documented one.
    pub fn build_endpoint(&self, endpoint: DmvEndpoints, location_id: &str) -> (r: Result<
        String,
        SchedulerError,
    >)
        ensures
            match r {
                Ok(text) => endpoint_resolves(endpoint, location_id@) && text@ == endpoint_text(
                    endpoint,
                    location_id@,
                ),
                Err(e) => !endpoint_resolves(endpoint, location_id@) && e
                    == SchedulerError::ConfigError,
            },
    {
        crate::endpoint::build_endpoint(endpoint, location_id)
    }

    /// Whether an answer says that the office has a slot; an answer that
    /// could not be had stays the failure that it is.
    pub fn check_appointment_response(
        &self,
        response_result: Result<AvailabilityResponse, SchedulerError>,
    ) -> (r: Result<bool, SchedulerError>)
        ensures
            r == match response_result {
                Ok(response) => Ok::<bool, SchedulerError>(slot_open(response@)),
                Err(e) => Err(e),
            },
    {
        match response_result {
            Ok(response) => Ok(response.is_available()),
            Err(e) => Err(e),
        }
    }

    /// Asks the office at `index`, if there is one.
    fn get_next_available_appointment(&self, index: usize) -> (pass: Pass)
        ensures
            pass@ == self.scan(index as int),
    {
        proof {
            use_type_invariant(self);
        }
        if index < self.endpoints.len() {
            Pass::Next(
                State::Scanning { index },
                Action::Check {
                    delay_seconds: self.schedule.check_delay_seconds,
                    endpoint: self.endpoints[index].0.clone(),
                },
            )
        } else {
            Pass::Done(Ok(false))
        }
    }

    /// Goes on with the alert for the office at `index`, of which `sent`
    /// messages are out.
    fn alert_from(&self, index: usize, sent: usize) -> (pass: Pass)
        requires
            index < self.ids().len(),
        ensures
            pass@ == self.dispatch(index as int, sent as int),
    {
        proof {
            use_type_invariant(self);
        }
        let location = self.utils.get_location_mapping().location_at(index);
        let messages = self.sms.alert_receipients(location, self.endpoints[index].1.as_str());
        match self.sms.send_messages(&messages, sent) {
            Dispatch::Send { message, payload } => Pass::Next(
                State::Found { index, sent },
                Action::Send { message, payload },
            ),
            Dispatch::Done => Pass::Done(Ok(true)),
        }
    }

    /// How a pass goes on from `state` after `event`.
    pub fn check_available_appointments(&self, state: State, event: &Event) -> (pass: Pass)
        ensures
            pass@ == self.pass(state, event@),
    {
        proof {
            use_type_invariant(self);
        }
        match state {
            State::Idle => self.get_next_available_appointment(0),
            State::Scanning { index } => {
                if index >= self.endpoints.len() {
                    return Pass::Done(Err(SchedulerError::NotFoundError));
                }
                let response_result = match event {
                    Event::Response { status, body } => decode_response(*status, body.as_slice()),
                    _ => Err(SchedulerError::TransportError),
                };
                match self.check_appointment_response(response_result) {
                    Ok(true) => self.alert_from(index, 0),
                    Ok(false) => self.get_next_available_appointment(index + 1),
                    Err(e) => Pass::Done(Err(e)),
                }
            },
            State::Found { index, sent } => {
                if index >= self.endpoints.len() {
                    return Pass::Done(Err(SchedulerError::NotFoundError));
                }
                match event {
                    Event::Delivered => {
                        if sent >= self.sms.target_numbers().len() {
                            Pass::Done(Ok(true))
                        } else {
                            self.alert_from(index, sent + 1)
                        }
                    },
                    _ => Pass::Done(Err(SchedulerError::NotificationError)),
                }
            },
            State::Terminated => Pass::Next(State::Terminated, Action::Halt),
        }
    }

    /// The watcher's step: the state after `event` and what is to be done.
    pub fn run(&self, state: State, event: &Event) -> (r: (State, Action))
        ensures
            (r.0, r.1@) == self.step(state, event@),
    {
        let idle = match state {
            State::Idle => true,
            _ => false,
        };
        let begin = match event {
            Event::Begin => true,
            _ => false,
        };
        if idle && !begin {
            return (State::Idle, Action::Rest { delay_seconds: self.schedule.pass_delay_seconds });
        }
        match self.check_available_appointments(state, event) {
            Pass::Next(next, action) => (next, action),
            Pass::Done(Err(e)) => (State::Terminated, Action::Fail(e)),
            Pass::Done(Ok(alerted)) => {
                if alerted && self.schedule.stop_after_alert {
                    (State::Terminated, Action::Halt)
                } else {
                    (
                        State::Idle,
                        Action::Rest { delay_seconds: self.schedule.pass_delay_seconds },
                    )
                }
            },
        }
    }
}

impl Client {
    /// Where the watcher stands, and what it has asked for, once `events`
    /// have happened one after another from `state`.
    pub open spec fn trace(&self, state: State, events: Seq<EventView>) -> (State, Seq<ActionView>)
        decreases events.len(),
    {
        if events.len() == 0 {
            (state, Seq::<ActionView>::empty())
        } else {
            let (next, action) = self.step(state, events.first());
            let (last, actions) = self.trace(next, events.drop_first());
            (last, seq![action] + actions)
        }
    }

    /// The queries for the offices from position `from` up to, and without,
    /// position `to`, in order.
    pub open spec fn checks(&self, from: int, to: int) -> Seq<ActionView> {
        Seq::new(
            (to - from) as nat,
            |j: int|
                ActionView::Check {
                    delay_seconds: self.schedule().check_delay_seconds,
                    endpoint: endpoint_text(
                        DmvEndpoints::GetNextAvailableDate,
                        self.ids()[from + j],
                    ),
                },
        )
    }

    /// The messages of the alert for the office at `index` from message
    /// `from` on, in order, each with its request body.
    pub open spec fn sends(&self, index: int, from: int) -> Seq<ActionView> {
        Seq::new(
            (self.alert(index).len() - from) as nat,
            |r: int|
                ActionView::Send {
                    message: self.alert(index)[from + r],
                    payload: twilio_line(
                        self.alert(index)[from + r].body,
                        self.alert(index)[from + r].from,
                        self.alert(index)[from + r].to,
                    ),
                },
        )
    }
}

/// Whether `events` are the answers of offices without a slot, then the
/// answer of an office with one, then a confirmation for each of `messages`
/// messages.
pub open spec fn found_after(events: Seq<EventView>, closed: int, messages: int) -> bool {
    &&& events.len() == closed + 1 + messages
    &&& forall|j: int| 0 <= j < closed ==> answer(#[trigger] events[j]) == Ok::<bool, SchedulerError>(false)
    &&& answer(events[closed]) == Ok::<bool, SchedulerError>(true)
    &&& forall|r: int| closed < r < events.len() ==> #[trigger] events[r] == EventView::Delivered
}

/// Every query that a watcher asks for names the appointment type and the
/// office that is asked, and nothing else: the address that goes with the
/// office at `index` has exactly these two parameters.
pub proof fn lemma_watcher_asks_by_type_and_office(client: Client, index: int)
    requires
        0 <= index < client.ids().len(),
    ensures
        client.scan(index) matches PassView::Next(_, ActionView::Check { endpoint, .. })
            && query_parameters(endpoint) == seq![
            ("appointmentTypeId"@, "15"@),
            ("locationId"@, form_encoded(encode_utf8(client.ids()[index]))),
        ],
{
    lemma_query_names_type_and_office(client.ids()[index]);
}

/// Every alert points to the booking page of the office that has the
/// slot, whatever the id of the office holds: the address in its text has
/// no query and no fragment, and ends with `/15/` and the id as one encoded
/// segment, which decodes to the id.
pub proof fn lemma_alert_points_to_booking_page(client: Client, index: int, recipient: int)
    requires
        0 <= index < client.ids().len(),
        0 <= recipient < client.alerts().recipients().len(),
    ensures
        client.alert(index)[recipient].to == client.alerts().recipients()[recipient],
        client.alert(index)[recipient].body == message_text(
            client.directory().records()[index].title,
            endpoint_text(DmvEndpoints::AppointmentWizard, client.ids()[index]),
        ),
        query_text(endpoint_text(DmvEndpoints::AppointmentWizard, client.ids()[index])) is None,
        free_of(endpoint_text(DmvEndpoints::AppointmentWizard, client.ids()[index]), '#'),
        ends_with(
            endpoint_text(DmvEndpoints::AppointmentWizard, client.ids()[index]),
            "/15/"@ + segment_encoded(encode_utf8(client.ids()[index])),
        ),
        percent_decoded(segment_encoded(encode_utf8(client.ids()[index]))) == encode_utf8(
            client.ids()[index],
        ),
{
    lemma_booking_names_office_in_path(client.ids()[index]);
}

/// A watcher that has ended asks for nothing more, whatever happens.
pub proof fn lemma_terminated_is_final(client: Client, events: Seq<EventView>)
    ensures
        client.trace(State::Terminated, events).0 == State::Terminated,
        client.trace(State::Terminated, events).1.len() == events.len(),
        forall|k: int|
            0 <= k < events.len() ==> #[trigger] client.trace(State::Terminated, events).1[k]
                == ActionView::Halt,
    decreases events.len(),
{
    if events.len() > 0 {
        lemma_terminated_is_final(client, events.drop_first());
    }
}

/// An answer that could not be had ends the watcher at once: the failure
/// is reported as a transport error, and no message is sent, then or later.
pub proof fn lemma_failed_check_sends_nothing(
    client: Client,
    index: usize,
    event: EventView,
    later: Seq<EventView>,
)
    requires
        index < client.ids().len(),
        answer(event) is Err,
    ensures
        client.step(State::Scanning { index }, event) == (
            State::Terminated,
            ActionView::Fail(SchedulerError::TransportError),
        ),
        client.trace(State::Scanning { index }, seq![event] + later).0 == State::Terminated,
        forall|k: int|
            0 <= k < later.len() + 1 ==> !(#[trigger] client.trace(
                State::Scanning { index },
                seq![event] + later,
            ).1[k] is Send),
{
    let events = seq![event] + later;
    assert(events.first() == event);
    assert(events.drop_first() =~= later);
    lemma_terminated_is_final(client, later);
}

/// Once a message of an alert is under way and every confirmation comes
/// in, the remaining messages leave one by one, in order, and then the pass
/// is settled as one with an alert.
pub proof fn lemma_alert_completes(client: Client, index: usize, sent: usize, events: Seq<EventView>)
    requires
        index < client.ids().len(),
        sent < client.alert(index as int).len(),
        events.len() == client.alert(index as int).len() - sent,
        forall|r: int| 0 <= r < events.len() ==> #[trigger] events[r] == EventView::Delivered,
    ensures
        client.trace(State::Found { index, sent }, events) == (
            client.settle(Ok(true)).0,
            client.sends(index as int, sent + 1) + seq![client.settle(Ok(true)).1],
        ),
    decreases client.alert(index as int).len() - sent,
{
    let state = State::Found { index, sent };
    let rest = events.drop_first();
    let last = seq![client.settle(Ok(true)).1];
    lemma_recipients_bounded(client.alerts());
    assert(events.first() == EventView::Delivered);
    let (next, action) = client.step(state, events.first());
    assert(client.trace(state, events) == (
        client.trace(next, rest).0,
        seq![action] + client.trace(next, rest).1,
    ));
    if sent + 1 < client.alert(index as int).len() {
        assert(next == State::Found { index, sent: (sent + 1) as usize });
        assert forall|r: int| 0 <= r < rest.len() implies #[trigger] rest[r]
            == EventView::Delivered by {
            assert(rest[r] == events[r + 1]);
        }
        lemma_alert_completes(client, index, (sent + 1) as usize, rest);
        assert(client.sends(index as int, sent + 1) =~= seq![action] + client.sends(
            index as int,
            sent + 2,
        ));
        assert(seq![action] + (client.sends(index as int, sent + 2) + last) =~= client.sends(
            index as int,
            sent + 1,
        ) + last);
    } else {
        assert(rest =~= Seq::<EventView>::empty());
        assert(next == client.settle(Ok(true)).0);
        assert(client.trace(next, rest) == (next, Seq::<ActionView>::empty()));
        assert(client.sends(index as int, sent + 1) =~= Seq::<ActionView>::empty());
        assert(last + Seq::<ActionView>::empty() =~= client.sends(index as int, sent + 1) + last);
    }
}

/// From an office that has been asked: while the answers say that there is
/// no slot the next office is asked, and the first answer that says there
/// is one leads to the alert for that office.
pub proof fn lemma_scan_finds_first(client: Client, index: usize, found: usize, events: Seq<EventView>)
    requires
        index <= found < client.ids().len(),
        found_after(events, found - index, client.alert(found as int).len() as int),
    ensures
        client.trace(State::Scanning { index }, events) == (
            client.settle(Ok(true)).0,
            client.checks(index + 1, found + 1) + client.sends(found as int, 0)
                + seq![client.settle(Ok(true)).1],
        ),
    decreases found - index,
{
    let state = State::Scanning { index };
    let rest = events.drop_first();
    let last = seq![client.settle(Ok(true)).1];
    let messages = client.alert(found as int);
    lemma_recipients_bounded(client.alerts());
    let (next, action) = client.step(state, events.first());
    assert(client.trace(state, events) == (
        client.trace(next, rest).0,
        seq![action] + client.trace(next, rest).1,
    ));
    if index == found {
        assert(answer(events.first()) == Ok::<bool, SchedulerError>(true));
        assert(client.checks(index + 1, found + 1) =~= Seq::<ActionView>::empty());
        if messages.len() > 0 {
            assert(next == State::Found { index, sent: 0 });
            assert forall|r: int| 0 <= r < rest.len() implies #[trigger] rest[r]
                == EventView::Delivered by {
                assert(rest[r] == events[r + 1]);
            }
            lemma_alert_completes(client, found, 0, rest);
            assert(client.sends(found as int, 0) =~= seq![action] + client.sends(found as int, 1));
            assert(seq![action] + (client.sends(found as int, 1) + last) =~= client.checks(
                index + 1,
                found + 1,
            ) + client.sends(found as int, 0) + last);
        } else {
            assert(rest =~= Seq::<EventView>::empty());
            assert(next == client.settle(Ok(true)).0);
            assert(client.trace(next, rest) == (next, Seq::<ActionView>::empty()));
            assert(client.sends(found as int, 0) =~= Seq::<ActionView>::empty());
            assert(last + Seq::<ActionView>::empty() =~= client.checks(index + 1, found + 1)
                + client.sends(found as int, 0) + last);
        }
    } else {
        assert(answer(events[0]) == Ok::<bool, SchedulerError>(false));
        let ahead = (index + 1) as usize;
        assert(next == State::Scanning { index: ahead });
        assert(found_after(rest, found - ahead, messages.len() as int)) by {
            assert forall|j: int| 0 <= j < found - ahead implies answer(#[trigger] rest[j]) == Ok::<
                bool,
                SchedulerError,
            >(false) by {
                assert(rest[j] == events[j + 1]);
            }
            assert(rest[found - ahead] == events[found - index]);
            assert forall|r: int| found - ahead < r < rest.len() implies #[trigger] rest[r]
                == EventView::Delivered by {
                assert(rest[r] == events[r + 1]);
            }
        }
        lemma_scan_finds_first(client, ahead, found, rest);
        assert(client.checks(index + 1, found + 1) =~= seq![action] + client.checks(
            index + 2,
            found + 1,
        ));
        assert(seq![action] + (client.checks(index + 2, found + 1) + client.sends(found as int, 0)
            + last) =~= client.checks(index + 1, found + 1) + client.sends(found as int, 0)
            + last);
    }
}

/// The first office with a slot wins. When a pass begins, the offices
/// before position `found` answer that they have no slot, the office at
/// `found` answers that it has one, and every message is confirmed, then
/// the watcher asks the offices up to `found`, in order and none after it,
/// sends each message of the alert for that office once, in the order of
/// the recipients, and then settles the pass.
pub proof fn lemma_first_open_slot_wins(client: Client, found: usize, events: Seq<EventView>)
    requires
        found < client.ids().len(),
        found_after(events, found as int, client.alert(found as int).len() as int),
    ensures
        client.trace(State::Idle, seq![EventView::Begin] + events).1 == client.checks(
            0,
            found + 1,
        ) + client.sends(found as int, 0) + seq![client.settle(Ok(true)).1],
        client.trace(State::Idle, seq![EventView::Begin] + events).0 == client.settle(Ok(true)).0,
{
    let all = seq![EventView::Begin] + events;
    let last = seq![client.settle(Ok(true)).1];
    assert(all.first() == EventView::Begin);
    assert(all.drop_first() =~= events);
    let (next, action) = client.step(State::Idle, all.first());
    assert(client.trace(State::Idle, all) == (
        client.trace(next, events).0,
        seq![action] + client.trace(next, events).1,
    ));
    assert(next == State::Scanning { index: 0 });
    lemma_scan_finds_first(client, 0, found, events);
    assert(client.checks(0, found + 1) =~= seq![action] + client.checks(1, found + 1));
    assert(seq![action] + (client.checks(1, found + 1) + client.sends(found as int, 0) + last)
        =~= client.checks(0, found + 1) + client.sends(found as int, 0) + last);
}

} // verus!
