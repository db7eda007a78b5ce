use line_relay::aggregator::{Aggregator, Effect, Notice};
use line_relay::fanout::Delivery;
use line_relay::framer::Framer;
use line_relay::reactor::Reactor;
use std::collections::HashMap;

/// Simulated peers: what each connection id has been written so far.
fn deliver(job: &Delivery, inboxes: &mut HashMap<u64, Vec<Vec<u8>>>) {
    for id in job.recipients.iter() {
        inboxes.entry(*id).or_default().push(job.payload.clone());
    }
}

fn received(inboxes: &HashMap<u64, Vec<Vec<u8>>>, id: u64) -> Vec<Vec<u8>> {
    inboxes.get(&id).cloned().unwrap_or_default()
}

#[test]
fn aggregator_three_clients_then_departure() {
    // A, B, C connect in that order; A sends "hi\n": B and C each receive
    // "Message: hi\n", A receives nothing. B disconnects; A sends "bye\n":
    // only C receives "Message: bye\n".
    let (a, b, c) = (0u64, 1u64, 2u64);
    let mut agg: Aggregator<u32> = Aggregator::new();
    let mut inboxes: HashMap<u64, Vec<Vec<u8>>> = HashMap::new();
    for (id, handle) in [(a, 100u32), (b, 200), (c, 300)] {
        match agg.apply(Notice::ClientStart { id, handle }) {
            Effect::Accepted { fresh } => assert!(fresh),
            _ => panic!("start must register"),
        }
    }

    let mut framer_a = Framer::new();
    for payload in framer_a.feed(b"hi\n") {
        match agg.apply(Notice::ChatMessage { origin: a, payload }) {
            Effect::Deliver { job } => deliver(&job, &mut inboxes),
            _ => panic!("chat must deliver"),
        }
    }
    assert_eq!(received(&inboxes, b), vec![b"Message: hi\n".to_vec()]);
    assert_eq!(received(&inboxes, c), vec![b"Message: hi\n".to_vec()]);
    assert!(received(&inboxes, a).is_empty());

    match agg.apply(Notice::ClientEnd { id: b }) {
        Effect::Release { handle } => assert_eq!(handle, Some(200)),
        _ => panic!("end must release"),
    }

    for payload in framer_a.feed(b"bye\n") {
        match agg.apply(Notice::ChatMessage { origin: a, payload }) {
            Effect::Deliver { job } => {
                assert_eq!(job.recipients, vec![c]);
                deliver(&job, &mut inboxes);
            }
            _ => panic!("chat must deliver"),
        }
    }
    assert_eq!(received(&inboxes, b), vec![b"Message: hi\n".to_vec()]);
    assert_eq!(
        received(&inboxes, c),
        vec![b"Message: hi\n".to_vec(), b"Message: bye\n".to_vec()]
    );
    assert!(received(&inboxes, a).is_empty());
}

#[test]
fn aggregator_end_is_idempotent() {
    let mut agg: Aggregator<u32> = Aggregator::new();
    agg.apply(Notice::ClientStart { id: 4, handle: 40 });
    match agg.apply(Notice::ClientEnd { id: 4 }) {
        Effect::Release { handle } => assert_eq!(handle, Some(40)),
        _ => panic!("end must release"),
    }
    match agg.apply(Notice::ClientEnd { id: 4 }) {
        Effect::Release { handle } => assert_eq!(handle, None),
        _ => panic!("end must release"),
    }
}

#[test]
fn aggregator_all_others_exactly_once() {
    // With n clients connected, a message is owed to the n - 1 others, each
    // exactly once.
    let n: u64 = 5;
    let mut agg: Aggregator<u64> = Aggregator::new();
    for id in 0..n {
        agg.apply(Notice::ClientStart { id, handle: id * 10 });
    }
    let origin = 2u64;
    let mut framer = Framer::new();
    for payload in framer.feed(b"all\n") {
        match agg.apply(Notice::ChatMessage { origin, payload }) {
            Effect::Deliver { job } => {
                assert_eq!(job.recipients.len() as u64, n - 1);
                for other in 0..n {
                    let count = job.recipients.iter().filter(|r| **r == other).count();
                    assert_eq!(count, if other == origin { 0 } else { 1 });
                }
            }
            _ => panic!("chat must deliver"),
        }
    }
}

#[test]
fn reactor_three_clients_then_departure() {
    let mut reactor: Reactor<u32> = Reactor::new();
    let mut inboxes: HashMap<u64, Vec<Vec<u8>>> = HashMap::new();
    let a = reactor.on_accept(100);
    let b = reactor.on_accept(200);
    let c = reactor.on_accept(300);
    assert_eq!((a, b, c), (1, 2, 3));

    reactor.on_ready(a);
    for job in reactor.on_data(a, b"hi\n") {
        deliver(&job, &mut inboxes);
    }
    reactor.on_rearm(a);
    assert_eq!(received(&inboxes, b), vec![b"Message: hi\n".to_vec()]);
    assert_eq!(received(&inboxes, c), vec![b"Message: hi\n".to_vec()]);
    assert!(received(&inboxes, a).is_empty());

    assert_eq!(reactor.disconnect(b), Some(200));

    reactor.on_ready(a);
    for job in reactor.on_data(a, b"bye\n") {
        assert_eq!(job.recipients, vec![c]);
        deliver(&job, &mut inboxes);
    }
    reactor.on_rearm(a);
    assert_eq!(received(&inboxes, b), vec![b"Message: hi\n".to_vec()]);
    assert_eq!(
        received(&inboxes, c),
        vec![b"Message: hi\n".to_vec(), b"Message: bye\n".to_vec()]
    );
    assert!(received(&inboxes, a).is_empty());
}

#[test]
fn reactor_partial_line_across_reads() {
    // "partial" then "line\n" from the same connection broadcast exactly one
    // frame, "Message: partialline\n".
    let mut reactor: Reactor<u32> = Reactor::new();
    let sender = reactor.on_accept(100);
    let peer = reactor.on_accept(200);

    reactor.on_ready(sender);
    let first = reactor.on_data(sender, b"partial");
    assert!(first.is_empty());
    let second = reactor.on_data(sender, b"line\n");
    assert_eq!(second.len(), 1);
    assert_eq!(second[0].payload, b"Message: partialline\n".to_vec());
    assert_eq!(second[0].recipients, vec![peer]);
    reactor.on_rearm(sender);
}

#[test]
fn reactor_late_joiner_misses_earlier_broadcasts() {
    let mut reactor: Reactor<u32> = Reactor::new();
    let mut inboxes: HashMap<u64, Vec<Vec<u8>>> = HashMap::new();
    let a = reactor.on_accept(100);
    let b = reactor.on_accept(200);

    reactor.on_ready(a);
    for job in reactor.on_data(a, b"early\n") {
        deliver(&job, &mut inboxes);
    }
    reactor.on_rearm(a);

    let late = reactor.on_accept(300);
    assert!(late != a && late != b);
    assert!(received(&inboxes, late).is_empty());

    reactor.on_ready(a);
    for job in reactor.on_data(a, b"again\n") {
        deliver(&job, &mut inboxes);
    }
    reactor.on_rearm(a);
    assert_eq!(received(&inboxes, late), vec![b"Message: again\n".to_vec()]);
    assert_eq!(
        received(&inboxes, b),
        vec![b"Message: early\n".to_vec(), b"Message: again\n".to_vec()]
    );
}

#[test]
fn reactor_disconnect_is_idempotent_and_ids_are_fresh() {
    let mut reactor: Reactor<u32> = Reactor::new();
    let a = reactor.on_accept(100);
    assert_eq!(reactor.disconnect(a), Some(100));
    assert_eq!(reactor.disconnect(a), None);
    // Identifiers are never reused, even after a departure.
    let b = reactor.on_accept(200);
    assert!(b != a);
}

#[test]
fn reactor_write_failure_cleans_up_like_eof() {
    let mut reactor: Reactor<u32> = Reactor::new();
    let a = reactor.on_accept(100);
    let b = reactor.on_accept(200);
    let c = reactor.on_accept(300);

    reactor.on_ready(a);
    let jobs = reactor.on_data(a, b"one\n");
    assert_eq!(jobs[0].recipients, vec![b, c]);
    reactor.on_rearm(a);

    // Writing to b failed irrecoverably: the reactor has no read-side signal
    // for it, so it is deregistered at once and never targeted again.
    assert_eq!(reactor.disconnect(b), Some(200));
    reactor.on_ready(a);
    let jobs = reactor.on_data(a, b"two\n");
    assert_eq!(jobs[0].recipients, vec![c]);
    reactor.on_rearm(a);
}
