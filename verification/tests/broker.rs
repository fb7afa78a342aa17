use tj_counter::broker::{Action, Broker, Event, TICK_MILLIS};
use tj_counter::countdown::frame;
use tj_counter::moment::Moment;

const TARGET_NANOS: i64 = 1_644_595_200_000_000_000;
const START_NANOS: i64 = TARGET_NANOS - 3_600_000_000_000;
const TICK_NANOS: i64 = 100_000_000;

fn fresh() -> Broker {
    Broker::new(Moment::from_nanos(TARGET_NANOS))
}

fn at_tick(k: i64) -> Moment {
    Moment::from_nanos(START_NANOS + k * TICK_NANOS)
}

fn arrive(broker: &mut Broker) -> u64 {
    assert!(broker.can_take(&Event::ClientArrived));
    match broker.step(Event::ClientArrived) {
        Action::Attach { client, .. } => client,
        other => panic!("{:?}", other),
    }
}

fn broadcast(broker: &mut Broker, now: Moment) -> (String, Vec<u64>) {
    let event = Event::TimerExpired { now };
    assert!(broker.can_take(&event));
    match broker.step(event) {
        Action::Broadcast { frame, to } => (frame, to),
        other => panic!("{:?}", other),
    }
}

fn finish(broker: &mut Broker, failed: Vec<u64>) -> (u64, Vec<u64>) {
    let event = Event::SendsFinished { failed };
    assert!(broker.can_take(&event));
    match broker.step(event) {
        Action::Rearm { millis, dropped } => (millis, dropped),
        other => panic!("{:?}", other),
    }
}

#[test]
fn tick_is_a_tenth_of_a_second() {
    assert_eq!(TICK_MILLIS, 100);
}

#[test]
fn new_broker_has_nobody() {
    let broker = fresh();
    assert!(broker.roster().is_empty());
    assert_eq!(broker.admitted(), 0);
    assert_eq!(broker.ticks(), 0);
    assert_eq!(broker.target(), Moment::from_nanos(TARGET_NANOS));
}

#[test]
fn arrivals_are_numbered_and_appended() {
    let mut broker = fresh();
    for expected in 0..5u64 {
        match broker.step(Event::ClientArrived) {
            Action::Attach { client, position } => {
                assert_eq!(client, expected);
                assert_eq!(position as u64, expected + 1);
            }
            other => panic!("{:?}", other),
        }
    }
    assert_eq!(broker.roster(), &vec![0, 1, 2, 3, 4]);
    assert_eq!(broker.admitted(), 5);
    assert_eq!(broker.ticks(), 0);
}

#[test]
fn closed_intake_changes_nothing() {
    let mut broker = fresh();
    arrive(&mut broker);
    assert!(broker.can_take(&Event::IntakeClosed));
    match broker.step(Event::IntakeClosed) {
        Action::AwaitIntake => {}
        other => panic!("{:?}", other),
    }
    assert_eq!(broker.roster(), &vec![0]);
    assert_eq!(broker.admitted(), 1);
    assert_eq!(broker.ticks(), 0);
    let (_, to) = broadcast(&mut broker, at_tick(1));
    assert_eq!(to, vec![0]);
}

#[test]
fn broadcast_goes_to_the_whole_roster_in_order() {
    let mut broker = fresh();
    for _ in 0..4 {
        arrive(&mut broker);
    }
    let now = at_tick(1);
    let (text, to) = broadcast(&mut broker, now);
    assert_eq!(to, vec![0, 1, 2, 3]);
    assert_eq!(text, frame(&Moment::from_nanos(TARGET_NANOS), &now));
    assert_eq!(text, "event: uptime\ndata: {\"time\": \"event: 0 days 00:59:59,9\"}\n\n");
    assert_eq!(broker.roster(), &vec![0, 1, 2, 3]);
    assert_eq!(broker.ticks(), 0);
}

#[test]
fn broadcast_to_nobody_is_still_a_frame() {
    let mut broker = fresh();
    let (text, to) = broadcast(&mut broker, at_tick(0));
    assert!(to.is_empty());
    assert_eq!(text, "event: uptime\ndata: {\"time\": \"event: 0 days 01:00:00,0\"}\n\n");
    let (millis, dropped) = finish(&mut broker, vec![]);
    assert_eq!(millis, 100);
    assert!(dropped.is_empty());
    assert_eq!(broker.ticks(), 1);
}

#[test]
fn finished_sends_rearm_the_timer_and_count_the_tick() {
    let mut broker = fresh();
    arrive(&mut broker);
    broadcast(&mut broker, at_tick(1));
    let (millis, dropped) = finish(&mut broker, vec![]);
    assert_eq!(millis, 100);
    assert!(dropped.is_empty());
    assert_eq!(broker.ticks(), 1);
    assert_eq!(broker.roster(), &vec![0]);
}

#[test]
fn failed_clients_are_dropped_and_the_rest_keep_their_order() {
    let mut broker = fresh();
    for _ in 0..6 {
        arrive(&mut broker);
    }
    broadcast(&mut broker, at_tick(1));
    let (_, dropped) = finish(&mut broker, vec![4, 1]);
    assert_eq!(dropped, vec![1, 4]);
    assert_eq!(broker.roster(), &vec![0, 2, 3, 5]);
    let (_, to) = broadcast(&mut broker, at_tick(2));
    assert_eq!(to, vec![0, 2, 3, 5]);
}

#[test]
fn failures_of_strangers_drop_nobody() {
    let mut broker = fresh();
    arrive(&mut broker);
    arrive(&mut broker);
    broadcast(&mut broker, at_tick(1));
    let (_, dropped) = finish(&mut broker, vec![7, 7, 99]);
    assert!(dropped.is_empty());
    assert_eq!(broker.roster(), &vec![0, 1]);
}

#[test]
fn everyone_can_fail_at_once() {
    let mut broker = fresh();
    for _ in 0..3 {
        arrive(&mut broker);
    }
    broadcast(&mut broker, at_tick(1));
    let (_, dropped) = finish(&mut broker, vec![0, 1, 2, 1]);
    assert_eq!(dropped, vec![0, 1, 2]);
    assert!(broker.roster().is_empty());
    let (_, to) = broadcast(&mut broker, at_tick(2));
    assert!(to.is_empty());
}

#[test]
fn dropped_numbers_are_not_given_again() {
    let mut broker = fresh();
    arrive(&mut broker);
    arrive(&mut broker);
    broadcast(&mut broker, at_tick(1));
    finish(&mut broker, vec![0, 1]);
    assert_eq!(arrive(&mut broker), 2);
    assert_eq!(broker.roster(), &vec![2]);
    assert_eq!(broker.admitted(), 3);
}

#[test]
fn target_never_changes() {
    let mut broker = fresh();
    arrive(&mut broker);
    for k in 1..=5 {
        broadcast(&mut broker, at_tick(k));
        finish(&mut broker, vec![]);
        arrive(&mut broker);
    }
    broker.step(Event::IntakeClosed);
    assert_eq!(broker.target(), Moment::from_nanos(TARGET_NANOS));
}

#[test]
fn every_client_gets_every_frame_in_order() {
    let mut broker = fresh();
    let clients: Vec<u64> = (0..4).map(|_| arrive(&mut broker)).collect();
    let mut got: Vec<Vec<String>> = vec![Vec::new(); clients.len()];
    let mut all: Vec<String> = Vec::new();
    for k in 1..=25 {
        let (text, to) = broadcast(&mut broker, at_tick(k));
        for client in to {
            got[client as usize].push(text.clone());
        }
        all.push(text);
        finish(&mut broker, vec![]);
    }
    assert_eq!(all.len(), 25);
    for frames in &got {
        assert_eq!(frames, &all);
    }
    for k in 1..25 {
        assert_ne!(all[k - 1], all[k]);
    }
    assert_eq!(broker.ticks(), 25);
}

#[test]
fn late_client_gets_the_frames_from_its_arrival_on() {
    let mut broker = fresh();
    let first = arrive(&mut broker);
    let second = arrive(&mut broker);
    let mut third = None;
    let mut got: Vec<Vec<String>> = vec![Vec::new(); 3];
    for k in 1..=10 {
        if k == 3 {
            // 250 ms have passed: the third client comes before the third tick.
            third = Some(arrive(&mut broker));
        }
        let (text, to) = broadcast(&mut broker, at_tick(k));
        for client in to {
            got[client as usize].push(text.clone());
        }
        let (millis, dropped) = finish(&mut broker, vec![]);
        assert_eq!(millis, 100);
        assert!(dropped.is_empty());
    }
    let third = third.unwrap();
    assert_eq!((first, second, third), (0, 1, 2));
    assert_eq!(got[0].len(), 10);
    assert_eq!(got[1].len(), 10);
    assert_eq!(got[2].len(), 8);
    assert_eq!(got[0], got[1]);
    assert_eq!(got[2][..], got[0][2..]);
}

#[test]
fn client_that_left_after_three_frames_is_gone_by_the_next_tick() {
    let mut broker = fresh();
    let stays = arrive(&mut broker);
    let leaves = arrive(&mut broker);
    let also_stays = arrive(&mut broker);
    let mut got: Vec<Vec<String>> = vec![Vec::new(); 3];
    for k in 1..=3 {
        let (text, to) = broadcast(&mut broker, at_tick(k));
        assert_eq!(to, vec![stays, leaves, also_stays]);
        for client in to {
            got[client as usize].push(text.clone());
        }
        finish(&mut broker, vec![]);
    }
    assert_eq!(got[leaves as usize].len(), 3);
    // The client has gone: the send of the fourth tick fails.
    let (text, to) = broadcast(&mut broker, at_tick(4));
    assert_eq!(to, vec![stays, leaves, also_stays]);
    got[stays as usize].push(text.clone());
    got[also_stays as usize].push(text);
    let (_, dropped) = finish(&mut broker, vec![leaves]);
    assert_eq!(dropped, vec![leaves]);
    assert_eq!(broker.roster(), &vec![stays, also_stays]);
    for k in 5..=8 {
        let (text, to) = broadcast(&mut broker, at_tick(k));
        assert_eq!(to, vec![stays, also_stays]);
        for client in to {
            got[client as usize].push(text.clone());
        }
        finish(&mut broker, vec![]);
    }
    assert_eq!(got[stays as usize].len(), 8);
    assert_eq!(got[stays as usize], got[also_stays as usize]);
    assert_eq!(got[leaves as usize].len(), 3);
    assert_eq!(got[leaves as usize][..], got[stays as usize][..3]);
}

#[test]
fn client_arriving_while_frames_are_out_is_kept() {
    let mut broker = fresh();
    arrive(&mut broker);
    let (_, to) = broadcast(&mut broker, at_tick(1));
    assert_eq!(to, vec![0]);
    let late = arrive(&mut broker);
    finish(&mut broker, vec![0]);
    assert_eq!(broker.roster(), &vec![late]);
    let (_, to) = broadcast(&mut broker, at_tick(2));
    assert_eq!(to, vec![late]);
}

#[test]
fn broker_cannot_take_a_moment_out_of_reach() {
    let broker = Broker::new(Moment::from_nanos(i64::MAX));
    assert!(!broker.can_take(&Event::TimerExpired { now: Moment::from_nanos(-1) }));
    assert!(broker.can_take(&Event::TimerExpired { now: Moment::from_nanos(0) }));
    assert!(broker.can_take(&Event::ClientArrived));
    assert!(broker.can_take(&Event::IntakeClosed));
    assert!(broker.can_take(&Event::SendsFinished { failed: vec![] }));
}

#[test]
fn frames_after_the_target_count_backwards() {
    let mut broker = fresh();
    arrive(&mut broker);
    let (text, _) = broadcast(&mut broker, Moment::from_nanos(TARGET_NANOS + 86_400_000_000_000));
    assert_eq!(text, "event: uptime\ndata: {\"time\": \"event: -1 days 00:00:00,0\"}\n\n");
}
