//! The broker: who is sent each frame, and who is dropped.
//!
//! The broker is a machine that is told what happened and answers what to do.
//! It waits for two things at once, the timer and the intake of new clients,
//! and is told of whichever came first. When the timer has expired it has one
//! frame sent to every client on its roster; when the sends have finished it
//! drops the clients whose send failed and has the timer armed again. When a
//! client has arrived it puts the client at the end of the roster.
//!
//! A client is known to the broker by a number, given on arrival and never
//! given twice. The sending ends of the clients' queues stay with the
//! program that runs the machine, each under its client's number.

use crate::countdown::{frame, frame_at};
use crate::moment::{in_reach, span, Moment};
use vstd::prelude::*;
use vstd::seq_lib::lemma_seq_contains_after_push;

verus! {

/// Milliseconds from one tick to the next.
pub const TICK_MILLIS: u64 = 100;

/// What the broker knows.
pub struct State {
    /// The moment counted down to.
    pub target: Moment,
    /// The clients that are sent each frame, in the order of their arrival.
    pub roster: Seq<u64>,
    /// How many clients have arrived so far; the next to arrive gets this
    /// number.
    pub admitted: nat,
    /// How many ticks have been completed.
    pub ticks: nat,
}

/// What the broker is told, as a mathematical value.
pub enum EventView {
    TimerExpired { now: Moment },
    ClientArrived,
    IntakeClosed,
    SendsFinished { failed: Seq<u64> },
}

/// What the broker answers, as a mathematical value.
pub enum ActionView {
    Broadcast { frame: Seq<char>, to: Seq<u64> },
    Attach { client: u64, position: nat },
    AwaitIntake,
    Rearm { millis: u64, dropped: Seq<u64> },
}

/// What the broker is told.
#[derive(Debug, PartialEq, Eq)]
pub enum Event {
    /// The timer has expired, at the moment `now`.
    TimerExpired { now: Moment },
    /// The intake has yielded the queue of a new client.
    ClientArrived,
    /// The intake has yielded its end: no client will arrive any more.
    IntakeClosed,
    /// The sends of the last broadcast have all finished; those to the
    /// clients in `failed` have failed.
    SendsFinished { failed: Vec<u64> },
}

/// What the broker answers.
#[derive(Debug, PartialEq, Eq)]
pub enum Action {
    /// Send `frame` once to each client in `to`, all at the same time, and
    /// tell the broker when the sends have finished. The timer is not armed
    /// and the intake is left waiting as it is.
    Broadcast { frame: String, to: Vec<u64> },
    /// Keep the queue that arrived under the number `client`, which is now
    /// the `position`-th on the roster, counted from one, and wait for the
    /// intake again. The timer is left running as it is.
    Attach { client: u64, position: usize },
    /// Wait for the intake again. The timer is left running as it is.
    AwaitIntake,
    /// Let go of the queues of the clients in `dropped`, and arm the timer
    /// for `millis` milliseconds from now. The intake is left waiting as it
    /// is.
    Rearm { millis: u64, dropped: Vec<u64> },
}

impl View for Event {
    type V = EventView;

    open spec fn view(&self) -> EventView {
        match *self {
            Event::TimerExpired { now } => EventView::TimerExpired { now },
            Event::ClientArrived => EventView::ClientArrived,
            Event::IntakeClosed => EventView::IntakeClosed,
            Event::SendsFinished { failed } => EventView::SendsFinished { failed: failed@ },
        }
    }
}

impl View for Action {
    type V = ActionView;

    open spec fn view(&self) -> ActionView {
        match *self {
            Action::Broadcast { frame, to } => ActionView::Broadcast { frame: frame@, to: to@ },
            Action::Attach { client, position } => ActionView::Attach {
                client,
                position: position as nat,
            },
            Action::AwaitIntake => ActionView::AwaitIntake,
            Action::Rearm { millis, dropped } => ActionView::Rearm { millis, dropped: dropped@ },
        }
    }
}

/// Whether each client of `roster` has a higher number than those before it.
pub open spec fn ascending(roster: Seq<u64>) -> bool {
    forall|i: int, j: int| 0 <= i < j < roster.len() ==> roster[i] < roster[j]
}

/// The clients of `roster` that are not in `failed`, in the order of `roster`.
pub open spec fn kept(roster: Seq<u64>, failed: Seq<u64>) -> Seq<u64> {
    roster.filter(|client: u64| !failed.contains(client))
}

/// The clients of `roster` that are in `failed`, in the order of `roster`.
pub open spec fn dropped(roster: Seq<u64>, failed: Seq<u64>) -> Seq<u64> {
    roster.filter(|client: u64| failed.contains(client))
}

/// What a broker knows when it starts.
pub open spec fn initial(target: Moment) -> State {
    State { target, roster: Seq::empty(), admitted: 0, ticks: 0 }
}

/// What must hold of what a broker knows: the numbers on the roster ascend,
/// so that no client is on it twice, and each of them has been given out.
pub open spec fn wf(s: State) -> bool {
    &&& ascending(s.roster)
    &&& forall|i: int| 0 <= i < s.roster.len() ==> (#[trigger] s.roster[i]) < s.admitted
    &&& s.admitted <= u64::MAX
    &&& s.ticks <= u64::MAX
}

/// Whether the machine can take the event `e` in the state `s`: the time
/// left must fit into 64 bits of nanoseconds, and the two counters must not
/// run over.
pub open spec fn takes(s: State, e: EventView) -> bool {
    match e {
        EventView::TimerExpired { now } => in_reach(span(s.target, now)),
        EventView::ClientArrived => s.admitted < u64::MAX,
        EventView::IntakeClosed => true,
        EventView::SendsFinished { failed } => s.ticks < u64::MAX,
    }
}

/// What the broker knows after the event `e`.
pub open spec fn next(s: State, e: EventView) -> State {
    match e {
        EventView::TimerExpired { now } => s,
        EventView::ClientArrived => State {
            roster: s.roster.push(s.admitted as u64),
            admitted: s.admitted + 1,
            ..s
        },
        EventView::IntakeClosed => s,
        EventView::SendsFinished { failed } => State {
            roster: kept(s.roster, failed),
            ticks: s.ticks + 1,
            ..s
        },
    }
}

/// What the broker answers to the event `e`.
pub open spec fn answer(s: State, e: EventView) -> ActionView {
    match e {
        EventView::TimerExpired { now } => ActionView::Broadcast {
            frame: frame_at(s.target, now),
            to: s.roster,
        },
        EventView::ClientArrived => ActionView::Attach {
            client: s.admitted as u64,
            position: s.roster.len() + 1,
        },
        EventView::IntakeClosed => ActionView::AwaitIntake,
        EventView::SendsFinished { failed } => ActionView::Rearm {
            millis: TICK_MILLIS,
            dropped: dropped(s.roster, failed),
        },
    }
}

/// The broker.
#[derive(Debug)]
pub struct Broker {
    target: Moment,
    roster: Vec<u64>,
    admitted: u64,
    ticks: u64,
}

impl View for Broker {
    type V = State;

    closed spec fn view(&self) -> State {
        State {
            target: self.target,
            roster: self.roster@,
            admitted: self.admitted as nat,
            ticks: self.ticks as nat,
        }
    }
}

/// Whether `client` is in `list`.
fn holds(list: &Vec<u64>, client: u64) -> (found: bool)
    ensures
        found == list@.contains(client),
{
    let mut i: usize = 0;
    while i < list.len()
        invariant
            i <= list.len(),
            forall|j: int| 0 <= j < i ==> list@[j] != client,
        decreases list.len() - i,
    {
        if list[i] == client {
            return true;
        }
        i += 1;
    }
    false
}

/// Parts `roster` into the clients that are not in `failed` and those that
/// are, each in the order of `roster`.
fn part(roster: &Vec<u64>, failed: &Vec<u64>) -> (parted: (Vec<u64>, Vec<u64>))
    ensures
        parted.0@ == kept(roster@, failed@),
        parted.1@ == dropped(roster@, failed@),
{
    let mut stay: Vec<u64> = Vec::new();
    let mut go: Vec<u64> = Vec::new();
    let mut i: usize = 0;
    proof {
        reveal(Seq::filter);
    }
    while i < roster.len()
        invariant
            i <= roster.len(),
            stay@ == kept(roster@.take(i as int), failed@),
            go@ == dropped(roster@.take(i as int), failed@),
        decreases roster.len() - i,
    {
        let client = roster[i];
        proof {
            reveal(Seq::filter);
            assert(roster@.take(i + 1).drop_last() =~= roster@.take(i as int));
        }
        if holds(failed, client) {
            go.push(client);
        } else {
            stay.push(client);
        }
        i += 1;
    }
    proof {
        assert(roster@.take(i as int) =~= roster@);
    }
    (stay, go)
}

impl Broker {
    /// A broker for the countdown to `target`, with nobody on its roster.
    pub fn new(target: Moment) -> (broker: Broker)
        ensures
            broker@ == initial(target),
            wf(broker@),
    {
        Broker { target, roster: Vec::new(), admitted: 0, ticks: 0 }
    }

    /// The moment counted down to.
    pub fn target(&self) -> (target: Moment)
        ensures
            target == self@.target,
    {
        self.target
    }

    /// The clients that are sent each frame, in the order of their arrival.
    pub fn roster(&self) -> (roster: &Vec<u64>)
        ensures
            roster@ == self@.roster,
    {
        &self.roster
    }

    /// How many clients have arrived so far.
    pub fn admitted(&self) -> (admitted: u64)
        ensures
            admitted == self@.admitted,
    {
        self.admitted
    }

    /// How many ticks have been completed.
    pub fn ticks(&self) -> (ticks: u64)
        ensures
            ticks == self@.ticks,
    {
        self.ticks
    }

    /// Whether the broker can take `event` as it stands.
    pub fn can_take(&self, event: &Event) -> (ready: bool)
        ensures
            ready == takes(self@, event@),
    {
        match event {
            Event::TimerExpired { now } => self.target.nanos_since(now).is_some(),
            Event::ClientArrived => self.admitted < u64::MAX,
            Event::IntakeClosed => true,
            Event::SendsFinished { failed: _ } => self.ticks < u64::MAX,
        }
    }

    /// Takes `event` and answers what to do.
    pub fn step(&mut self, event: Event) -> (action: Action)
        requires
            wf(old(self)@),
            takes(old(self)@, event@),
        ensures
            final(self)@ == next(old(self)@, event@),
            action@ == answer(old(self)@, event@),
            wf(final(self)@),
    {
        match event {
            Event::TimerExpired { now } => {
                let text = frame(&self.target, &now);
                let to = self.roster.clone();
                Action::Broadcast { frame: text, to }
            },
            Event::ClientArrived => {
                let client = self.admitted;
                self.roster.push(client);
                self.admitted = client + 1;
                Action::Attach { client, position: self.roster.len() }
            },
            Event::IntakeClosed => Action::AwaitIntake,
            Event::SendsFinished { failed } => {
                let (stay, go) = part(&self.roster, &failed);
                proof {
                    kept_ascends(self.roster@, failed@);
                }
                self.roster = stay;
                self.ticks = self.ticks + 1;
                Action::Rearm { millis: TICK_MILLIS, dropped: go }
            },
        }
    }
}

/// What is kept of an ascending roster ascends, and holds exactly the
/// clients of the roster that are not in `failed`.
pub proof fn kept_ascends(roster: Seq<u64>, failed: Seq<u64>)
    requires
        ascending(roster),
    ensures
        ascending(kept(roster, failed)),
        forall|client: u64|
            kept(roster, failed).contains(client) <==> roster.contains(client) && !failed.contains(
                client,
            ),
    decreases roster.len(),
{
    reveal(Seq::filter);
    if roster.len() > 0 {
        let before = roster.drop_last();
        let last = roster.last();
        kept_ascends(before, failed);
        let rest = kept(before, failed);
        assert(kept(roster, failed) == if failed.contains(last) {
            rest
        } else {
            rest.push(last)
        });
        assert forall|client: u64| before.contains(client) implies roster.contains(client)
            && client < last by {
            let j = choose|j: int| 0 <= j < before.len() && before[j] == client;
            assert(roster[j] == client);
        }
        assert forall|client: u64| roster.contains(client) implies before.contains(client)
            || client == last by {
            let j = choose|j: int| 0 <= j < roster.len() && roster[j] == client;
            if j < before.len() {
                assert(before[j] == client);
            }
        }
        assert(roster[roster.len() - 1] == last);
        assert forall|i: int| 0 <= i < rest.len() implies rest[i] < last by {
            assert(rest.contains(rest[i]));
        }
        if !failed.contains(last) {
            assert(rest.push(last)[rest.len() as int] == last);
        }
    }
}

/// What the broker knows after the events `es`, taken one after the other.
pub open spec fn run(s: State, es: Seq<EventView>) -> State
    decreases es.len(),
{
    if es.len() == 0 {
        s
    } else {
        next(run(s, es.drop_last()), es.last())
    }
}

/// What the broker answers to the events `es`, taken one after the other.
pub open spec fn answers(s: State, es: Seq<EventView>) -> Seq<ActionView>
    decreases es.len(),
{
    if es.len() == 0 {
        Seq::empty()
    } else {
        answers(s, es.drop_last()).push(answer(run(s, es.drop_last()), es.last()))
    }
}

/// The frames that `client` is sent when `actions` are done one after the
/// other.
pub open spec fn sent_to(actions: Seq<ActionView>, client: u64) -> Seq<Seq<char>>
    decreases actions.len(),
{
    if actions.len() == 0 {
        Seq::empty()
    } else {
        let before = sent_to(actions.drop_last(), client);
        match actions.last() {
            ActionView::Broadcast { frame, to } => if to.contains(client) {
                before.push(frame)
            } else {
                before
            },
            _ => before,
        }
    }
}

/// The frames of a countdown to `target` at the expiries of the timer among
/// `es`, in their order.
pub open spec fn frames_of(target: Moment, es: Seq<EventView>) -> Seq<Seq<char>>
    decreases es.len(),
{
    if es.len() == 0 {
        Seq::empty()
    } else {
        let before = frames_of(target, es.drop_last());
        match es.last() {
            EventView::TimerExpired { now } => before.push(frame_at(target, now)),
            _ => before,
        }
    }
}

/// How many of the events `es` are expiries of the timer.
pub open spec fn expiries(es: Seq<EventView>) -> nat
    decreases es.len(),
{
    if es.len() == 0 {
        0
    } else if es.last() is TimerExpired {
        expiries(es.drop_last()) + 1
    } else {
        expiries(es.drop_last())
    }
}

/// Whether none of the events `es` reports a failed send to `client`.
pub open spec fn spares(es: Seq<EventView>, client: u64) -> bool {
    forall|i: int|
        0 <= i < es.len() ==> ((#[trigger] es[i]) matches EventView::SendsFinished { failed }
            ==> !failed.contains(client))
}

/// Events that spare a client spare it without the last of them too.
proof fn lemma_spares_before(es: Seq<EventView>, client: u64)
    requires
        es.len() > 0,
        spares(es, client),
    ensures
        spares(es.drop_last(), client),
        es.last() matches EventView::SendsFinished { failed } ==> !failed.contains(client),
{
    let before = es.drop_last();
    assert forall|i: int| 0 <= i < before.len() implies ((#[trigger] before[i]) matches EventView::SendsFinished {
        failed,
    } ==> !failed.contains(client)) by {
        assert(before[i] == es[i]);
    }
    assert(es[es.len() - 1] == es.last());
}

/// The number of a client on the roster has been given out.
proof fn lemma_given_out(s: State, client: u64)
    requires
        wf(s),
        s.roster.contains(client),
    ensures
        client < s.admitted,
{
    let i = choose|i: int| 0 <= i < s.roster.len() && s.roster[i] == client;
    assert(s.roster[i] < s.admitted);
}

/// No client is on the roster twice.
pub proof fn no_client_twice(s: State)
    requires
        wf(s),
    ensures
        s.roster.no_duplicates(),
{
}

/// Whatever happens, what the broker knows stays well formed, the target
/// stays what it was, and neither counter goes back.
pub proof fn next_keeps_well_formed(s: State, e: EventView)
    requires
        wf(s),
        takes(s, e),
    ensures
        wf(next(s, e)),
        next(s, e).target == s.target,
        next(s, e).admitted >= s.admitted,
        next(s, e).ticks >= s.ticks,
{
    if let EventView::SendsFinished { failed } = e {
        kept_ascends(s.roster, failed);
    }
}

/// Whether the machine can take the events `es` one after the other,
/// starting in the state `s`.
pub open spec fn takes_all(s: State, es: Seq<EventView>) -> bool
    decreases es.len(),
{
    es.len() > 0 ==> takes_all(s, es.drop_last()) && takes(run(s, es.drop_last()), es.last())
}

/// Over any events, what the broker knows stays well formed, the target
/// stays what it was, and neither counter goes back.
pub proof fn run_keeps_well_formed(s: State, es: Seq<EventView>)
    requires
        wf(s),
        takes_all(s, es),
    ensures
        wf(run(s, es)),
        run(s, es).target == s.target,
        run(s, es).admitted >= s.admitted,
        run(s, es).ticks >= s.ticks,
    decreases es.len(),
{
    if es.len() > 0 {
        run_keeps_well_formed(s, es.drop_last());
        next_keeps_well_formed(run(s, es.drop_last()), es.last());
    }
}

/// Fan-out: a client on the roster that no report names as failed stays on
/// the roster and is sent one frame for each expiry of the timer, in the
/// order of the expiries: the frame of the countdown at that moment. The
/// frames do not depend on the client, so all such clients are sent the same
/// text.
pub proof fn fan_out(s: State, es: Seq<EventView>, client: u64)
    requires
        wf(s),
        takes_all(s, es),
        s.roster.contains(client),
        spares(es, client),
    ensures
        run(s, es).roster.contains(client),
        sent_to(answers(s, es), client) == frames_of(s.target, es),
        frames_of(s.target, es).len() == expiries(es),
    decreases es.len(),
{
    if es.len() > 0 {
        let before = es.drop_last();
        let e = es.last();
        lemma_spares_before(es, client);
        fan_out(s, before, client);
        run_keeps_well_formed(s, before);
        let mid = run(s, before);
        assert(answers(s, es).drop_last() == answers(s, before));
        match e {
            EventView::ClientArrived => {
                lemma_seq_contains_after_push(mid.roster, mid.admitted as u64, client);
            },
            EventView::SendsFinished { failed } => {
                kept_ascends(mid.roster, failed);
            },
            _ => {},
        }
    }
}

/// Two clients on the roster that no report names as failed are sent the
/// same frames in the same order.
pub proof fn fan_out_alike(s: State, es: Seq<EventView>, one: u64, other: u64)
    requires
        wf(s),
        takes_all(s, es),
        s.roster.contains(one),
        s.roster.contains(other),
        spares(es, one),
        spares(es, other),
    ensures
        sent_to(answers(s, es), one) == sent_to(answers(s, es), other),
{
    fan_out(s, es, one);
    fan_out(s, es, other);
}

/// A client that has arrived and is not on the roster never comes back to it
/// and is sent nothing more.
pub proof fn gone_for_good(s: State, es: Seq<EventView>, client: u64)
    requires
        wf(s),
        takes_all(s, es),
        client < s.admitted,
        !s.roster.contains(client),
    ensures
        !run(s, es).roster.contains(client),
        sent_to(answers(s, es), client) == Seq::<Seq<char>>::empty(),
    decreases es.len(),
{
    if es.len() > 0 {
        let before = es.drop_last();
        let e = es.last();
        gone_for_good(s, before, client);
        run_keeps_well_formed(s, before);
        let mid = run(s, before);
        assert(answers(s, es).drop_last() == answers(s, before));
        match e {
            EventView::ClientArrived => {
                lemma_seq_contains_after_push(mid.roster, mid.admitted as u64, client);
            },
            EventView::SendsFinished { failed } => {
                kept_ascends(mid.roster, failed);
            },
            _ => {},
        }
    }
}

/// Drop on failure: when the sends have finished, a client whose send failed
/// is off the roster, the clients whose sends did not fail are all still on
/// it, in their order, and whatever happens later, the dropped client never
/// comes back and is sent nothing more.
pub proof fn drop_on_failure(s: State, failed: Seq<u64>, es: Seq<EventView>, client: u64)
    requires
        wf(s),
        takes(s, EventView::SendsFinished { failed }),
        takes_all(next(s, EventView::SendsFinished { failed }), es),
        s.roster.contains(client),
        failed.contains(client),
    ensures
        next(s, EventView::SendsFinished { failed }).roster == kept(s.roster, failed),
        !next(s, EventView::SendsFinished { failed }).roster.contains(client),
        forall|other: u64|
            s.roster.contains(other) && !failed.contains(other) ==> next(
                s,
                EventView::SendsFinished { failed },
            ).roster.contains(other),
        !run(next(s, EventView::SendsFinished { failed }), es).roster.contains(client),
        sent_to(answers(next(s, EventView::SendsFinished { failed }), es), client) == Seq::<
            Seq<char>,
        >::empty(),
{
    let e = EventView::SendsFinished { failed };
    kept_ascends(s.roster, failed);
    next_keeps_well_formed(s, e);
    lemma_given_out(s, client);
    gone_for_good(next(s, e), es, client);
}

/// Admission: a client that arrives gets a number that no client had before
/// and is put at the end of the roster, and the next frame is sent to every
/// client that was on the roster and to the new one.
pub proof fn admission(s: State, now: Moment)
    requires
        wf(s),
        takes(s, EventView::ClientArrived),
    ensures
        !s.roster.contains(s.admitted as u64),
        next(s, EventView::ClientArrived).roster == s.roster.push(s.admitted as u64),
        answer(s, EventView::ClientArrived) == (ActionView::Attach {
            client: s.admitted as u64,
            position: s.roster.len() + 1,
        }),
        answer(next(s, EventView::ClientArrived), EventView::TimerExpired { now }) == (
        ActionView::Broadcast {
            frame: frame_at(s.target, now),
            to: s.roster.push(s.admitted as u64),
        }),
        s.roster.push(s.admitted as u64).contains(s.admitted as u64),
{
    lemma_seq_contains_after_push(s.roster, s.admitted as u64, s.admitted as u64);
    if s.roster.contains(s.admitted as u64) {
        lemma_given_out(s, s.admitted as u64);
    }
}

/// From its arrival on, a client that no report names as failed is sent one
/// frame for each expiry of the timer, the first of them at the first expiry
/// after its arrival.
pub proof fn admitted_from_then_on(s: State, es: Seq<EventView>)
    requires
        wf(s),
        takes(s, EventView::ClientArrived),
        takes_all(next(s, EventView::ClientArrived), es),
        spares(es, s.admitted as u64),
    ensures
        sent_to(answers(next(s, EventView::ClientArrived), es), s.admitted as u64) == frames_of(
            s.target,
            es,
        ),
        run(next(s, EventView::ClientArrived), es).roster.contains(s.admitted as u64),
{
    admission(s, Moment { nanos: 0 });
    next_keeps_well_formed(s, EventView::ClientArrived);
    fan_out(next(s, EventView::ClientArrived), es, s.admitted as u64);
}

} // verus!
