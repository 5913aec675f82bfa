use mandelbrot::producer::{Action, Event, Producer};
use mandelbrot::render::MandelReply;

fn feed(mut p: Producer<u32>, events: Vec<Event<u32>>) -> (Producer<u32>, Vec<Action<u32>>) {
    let mut actions = Vec::new();
    for e in events {
        let (q, a) = p.step(e);
        p = q;
        actions.push(a);
    }
    (p, actions)
}

fn reply(byte: u8) -> MandelReply {
    MandelReply { data: vec![byte; 4], width: 1, height: 1, stride: 4 }
}

#[test]
fn three_queued_requests_render_only_the_last() {
    let (p, actions) = feed(
        Producer::new(),
        vec![Event::Request(1), Event::Request(2), Event::Request(3), Event::NoMore],
    );
    assert!(matches!(p, Producer::Idle));
    assert_eq!(actions.len(), 4);
    assert!(matches!(actions[0], Action::PollQueue));
    assert!(matches!(actions[1], Action::PollQueue));
    assert!(matches!(actions[2], Action::PollQueue));
    assert!(matches!(actions[3], Action::Render(3)));
    let renders = actions.iter().filter(|a| matches!(a, Action::Render(_))).count();
    assert_eq!(renders, 1);
}

#[test]
fn rendered_image_is_sent_once() {
    let (p, actions) = feed(
        Producer::new(),
        vec![Event::Request(7), Event::NoMore, Event::Rendered(Some(reply(9)))],
    );
    assert!(matches!(p, Producer::Idle));
    match &actions[2] {
        Action::Send(r) => assert_eq!(r.data, vec![9u8; 4]),
        _ => panic!("expected a send"),
    }
}

#[test]
fn repeated_request_takes_the_same_actions() {
    let cycle = || vec![Event::Request(5), Event::NoMore, Event::Rendered(Some(reply(3)))];
    let (p, first) = feed(Producer::new(), cycle());
    let (_, second) = feed(p, cycle());
    assert_eq!(first.len(), second.len());
    for (a, b) in first.iter().zip(second.iter()) {
        match (a, b) {
            (Action::PollQueue, Action::PollQueue) => {}
            (Action::Render(x), Action::Render(y)) => assert_eq!(x, y),
            (Action::Send(x), Action::Send(y)) => assert_eq!(x.data, y.data),
            _ => panic!("actions differ"),
        }
    }
}

#[test]
fn failed_render_sends_nothing() {
    let (p, actions) = feed(Producer::new(), vec![Event::Request(1), Event::NoMore, Event::Rendered(None)]);
    assert!(matches!(p, Producer::Idle));
    assert!(matches!(actions[2], Action::WaitForRequest));
    assert!(!actions.iter().any(|a| matches!(a, Action::Send(_))));
}

#[test]
fn closed_channel_stops_the_loop() {
    let (p, actions) = feed(
        Producer::new(),
        vec![Event::ChannelClosed, Event::Request(1), Event::NoMore, Event::Rendered(Some(reply(1)))],
    );
    assert!(matches!(p, Producer::Closed));
    assert!(actions.iter().all(|a| matches!(a, Action::Stop)));
}

#[test]
fn closed_queue_while_draining_still_renders() {
    let (_, actions) = feed(Producer::new(), vec![Event::Request(4), Event::ChannelClosed]);
    assert!(matches!(actions[1], Action::Render(4)));
}

#[test]
fn idle_waits_for_requests() {
    let (p, actions) = feed(Producer::new(), vec![Event::NoMore]);
    assert!(matches!(p, Producer::Idle));
    assert!(matches!(actions[0], Action::WaitForRequest));
}
