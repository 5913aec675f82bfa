use vstd::prelude::*;

use crate::render::MandelReply;

verus! {

/// State of the producer loop that turns a stream of render requests into
/// renders of the latest one.
pub enum Producer<R> {
    /// No request taken: waiting on the request channel, or rendering.
    Idle,
    /// A request taken; the queue is being drained, keeping only the newest.
    Draining(R),
    /// The request channel closed: nothing more is done.
    Closed,
}

/// What the driver of the loop observed.
pub enum Event<R> {
    /// A request arrived (from the blocking wait, or from polling the queue).
    Request(R),
    /// Polling found the queue empty (or closed).
    NoMore,
    /// The blocking wait found the request channel closed.
    ChannelClosed,
    /// A render finished, with its reply or `None` where it produced no image.
    Rendered(Option<MandelReply>),
}

/// What the driver of the loop is to do next.
pub enum Action<R> {
    /// Block until a request arrives or the channel closes.
    WaitForRequest,
    /// Take a queued request without blocking, if there is one.
    PollQueue,
    /// Render this request, then report the outcome with `Event::Rendered`.
    Render(R),
    /// Send this reply (dropping it where the reply channel is full or
    /// closed), then wait for a request.
    Send(MandelReply),
    /// End the loop.
    Stop,
}

/// The transition function of the producer loop.
pub open spec fn next<R>(s: Producer<R>, e: Event<R>) -> (Producer<R>, Action<R>) {
    match s {
        Producer::Idle => match e {
            Event::Request(r) => (Producer::Draining(r), Action::PollQueue),
            Event::ChannelClosed => (Producer::Closed, Action::Stop),
            Event::Rendered(Some(reply)) => (Producer::Idle, Action::Send(reply)),
            _ => (Producer::Idle, Action::WaitForRequest),
        },
        Producer::Draining(r) => match e {
            Event::Request(newer) => (Producer::Draining(newer), Action::PollQueue),
            Event::NoMore => (Producer::Idle, Action::Render(r)),
            Event::ChannelClosed => (Producer::Idle, Action::Render(r)),
            Event::Rendered(_) => (Producer::Draining(r), Action::PollQueue),
        },
        Producer::Closed => (Producer::Closed, Action::Stop),
    }
}

/// The state reached and the actions taken when `events` are observed one by
/// one from state `s`.
pub open spec fn run<R>(s: Producer<R>, events: Seq<Event<R>>) -> (Producer<R>, Seq<Action<R>>)
    decreases events.len(),
{
    if events.len() == 0 {
        (s, Seq::empty())
    } else {
        let (s1, a) = next(s, events[0]);
        let (s2, rest) = run(s1, events.drop_first());
        (s2, seq![a] + rest)
    }
}

impl<R> Producer<R> {
    /// The state in which the loop starts.
    pub fn new() -> (r: Producer<R>)
        ensures
            r == Producer::<R>::Idle,
    {
        Producer::Idle
    }

    /// Takes one observation and gives the next state and action.
    pub fn step(self, e: Event<R>) -> (r: (Producer<R>, Action<R>))
        ensures
            r == next(self, e),
    {
        match self {
            Producer::Idle => match e {
                Event::Request(r) => (Producer::Draining(r), Action::PollQueue),
                Event::ChannelClosed => (Producer::Closed, Action::Stop),
                Event::Rendered(Some(reply)) => (Producer::Idle, Action::Send(reply)),
                _ => (Producer::Idle, Action::WaitForRequest),
            },
            Producer::Draining(r) => match e {
                Event::Request(newer) => (Producer::Draining(newer), Action::PollQueue),
                Event::NoMore => (Producer::Idle, Action::Render(r)),
                Event::ChannelClosed => (Producer::Idle, Action::Render(r)),
                Event::Rendered(_) => (Producer::Draining(r), Action::PollQueue),
            },
            Producer::Closed => (Producer::Closed, Action::Stop),
        }
    }
}

/// Each of `rs`, in order, arriving as a request.
pub open spec fn requests<R>(rs: Seq<R>) -> Seq<Event<R>> {
    rs.map_values(|r: R| Event::Request(r))
}

/// `n` polls of the queue.
pub open spec fn polls<R>(n: nat) -> Seq<Action<R>> {
    Seq::new(n, |i: int| Action::PollQueue)
}

/// The action that follows a render with outcome `outcome`.
pub open spec fn after_render<R>(outcome: Option<MandelReply>) -> Action<R> {
    match outcome {
        Some(reply) => Action::Send(reply),
        None => Action::WaitForRequest,
    }
}

/// One request handled from start to end: it arrives, the queue is found
/// empty, and its render ends with `outcome`.
pub open spec fn cycle<R>(r: R, outcome: Option<MandelReply>) -> Seq<Event<R>> {
    seq![Event::Request(r), Event::NoMore, Event::Rendered(outcome)]
}

/// Observing `a` and then `b` is observing `a + b`.
pub proof fn lemma_run_concat<R>(s: Producer<R>, a: Seq<Event<R>>, b: Seq<Event<R>>)
    ensures
        run(s, a + b) == (run(run(s, a).0, b).0, run(s, a).1 + run(run(s, a).0, b).1),
    decreases a.len(),
{
    if a.len() == 0 {
        assert(a + b =~= b);
        assert(Seq::<Action<R>>::empty() + run(s, b).1 =~= run(s, b).1);
    } else {
        let s1 = next(s, a[0]).0;
        let x = next(s, a[0]).1;
        assert((a + b)[0] == a[0]);
        assert((a + b).drop_first() =~= a.drop_first() + b);
        lemma_run_concat(s1, a.drop_first(), b);
        let ra = run(s1, a.drop_first());
        let rb = run(ra.0, b);
        assert(seq![x] + (ra.1 + rb.1) =~= (seq![x] + ra.1) + rb.1);
    }
}

/// From `Idle` or from `Draining(r0)`, queued requests `rs` followed by an empty
/// queue lead to one poll per request and one render of the newest request.
proof fn lemma_drain<R>(s: Producer<R>, r0: R, rs: Seq<R>)
    requires
        s == Producer::Draining(r0) || (s == Producer::<R>::Idle && rs.len() > 0),
    ensures
        run(s, requests(rs) + seq![Event::<R>::NoMore]) == (
            Producer::<R>::Idle,
            polls::<R>(rs.len()) + seq![
                Action::Render(
                    if rs.len() == 0 {
                        r0
                    } else {
                        rs.last()
                    },
                ),
            ],
        ),
    decreases rs.len(),
{
    let events = requests(rs) + seq![Event::<R>::NoMore];
    if rs.len() == 0 {
        assert(events =~= seq![Event::<R>::NoMore]);
        assert(events.drop_first() =~= Seq::<Event<R>>::empty());
        assert(run(Producer::<R>::Idle, events.drop_first()) == (
            Producer::<R>::Idle,
            Seq::<Action<R>>::empty(),
        ));
        assert(seq![Action::Render(r0)] + Seq::<Action<R>>::empty() =~= seq![Action::Render(r0)]);
        assert(polls::<R>(0) + seq![Action::Render(r0)] =~= seq![Action::Render(r0)]);
    } else {
        assert(events[0] == Event::Request(rs[0]));
        assert(events.drop_first() =~= requests(rs.drop_first()) + seq![Event::<R>::NoMore]);
        lemma_drain(Producer::Draining(rs[0]), rs[0], rs.drop_first());
        let tail_last = if rs.drop_first().len() == 0 {
            rs[0]
        } else {
            rs.drop_first().last()
        };
        assert(tail_last == rs.last());
        assert(seq![Action::<R>::PollQueue] + (polls::<R>((rs.len() - 1) as nat) + seq![
            Action::Render(tail_last),
        ]) =~= polls::<R>(rs.len()) + seq![Action::Render(rs.last())]);
    }
}

/// Requests that pile up before the loop takes the first of them are
/// coalesced: when requests `rs` are queued and then the queue is found empty,
/// the loop polls once per request and then renders exactly once, the last
/// request, and the earlier ones are never rendered.
pub proof fn lemma_latest_request_wins<R>(rs: Seq<R>)
    requires
        rs.len() > 0,
    ensures
        run(Producer::Idle, requests(rs) + seq![Event::<R>::NoMore]) == (
            Producer::<R>::Idle,
            polls::<R>(rs.len()) + seq![Action::Render(rs.last())],
        ),
{
    lemma_drain(Producer::Idle, rs[0], rs);
}

/// A request handled from start to end is rendered once, followed by its
/// reply when the render gave one, and the loop is back where it started: so
/// sending the same request again, once the first reply is in, takes the
/// same actions and sends the same reply (a render's outcome is a function of
/// its inputs, see `render_reply`).
pub proof fn lemma_repeated_request<R>(r: R, outcome: Option<MandelReply>)
    ensures
        run(Producer::Idle, cycle(r, outcome)) == (
            Producer::<R>::Idle,
            seq![Action::PollQueue, Action::Render(r), after_render::<R>(outcome)],
        ),
        run(Producer::Idle, cycle(r, outcome) + cycle(r, outcome)) == (
            Producer::<R>::Idle,
            seq![Action::PollQueue, Action::Render(r), after_render::<R>(outcome)] + seq![
                Action::PollQueue,
                Action::Render(r),
                after_render::<R>(outcome),
            ],
        ),
{
    lemma_one_cycle(r, outcome);
    lemma_run_concat(Producer::Idle, cycle(r, outcome), cycle(r, outcome));
}

proof fn lemma_one_cycle<R>(r: R, outcome: Option<MandelReply>)
    ensures
        run(Producer::Idle, cycle(r, outcome)) == (
            Producer::<R>::Idle,
            seq![Action::PollQueue, Action::Render(r), after_render::<R>(outcome)],
        ),
{
    let c = cycle(r, outcome);
    let c1 = c.drop_first();
    let c2 = c1.drop_first();
    let c3 = c2.drop_first();
    assert(c3.len() == 0);
    assert(c[0] == Event::Request(r));
    assert(c1[0] == Event::<R>::NoMore);
    assert(c2[0] == Event::<R>::Rendered(outcome));
    assert(run(Producer::<R>::Idle, c3) == (Producer::<R>::Idle, Seq::<Action<R>>::empty()));
    assert(next(Producer::<R>::Idle, c2[0]) == (Producer::<R>::Idle, after_render::<R>(outcome)));
    assert(seq![after_render::<R>(outcome)] + Seq::<Action<R>>::empty() =~= seq![
        after_render::<R>(outcome),
    ]);
    assert(run(Producer::<R>::Idle, c2).1 =~= seq![after_render::<R>(outcome)]);
    assert(run(Producer::Draining(r), c1).1 =~= seq![
        Action::Render(r),
        after_render::<R>(outcome),
    ]);
    assert(run(Producer::Idle, c).1 =~= seq![
        Action::PollQueue,
        Action::Render(r),
        after_render::<R>(outcome),
    ]);
}

/// A render that produced no image (an invalid viewport, a stride the format
/// rejected, a failed band) is followed by no reply at all: the loop goes
/// back to waiting.
pub proof fn lemma_no_image_no_reply<R>(r: R)
    ensures
        run(Producer::Idle, cycle(r, None)) == (
            Producer::<R>::Idle,
            seq![Action::PollQueue, Action::Render(r), Action::<R>::WaitForRequest],
        ),
        forall|i: int|
            0 <= i < run(Producer::Idle, cycle::<R>(r, None)).1.len() ==> !(#[trigger] run(
                Producer::Idle,
                cycle::<R>(r, None),
            ).1[i] is Send),
{
    lemma_one_cycle(r, None);
}

/// Once the request channel has closed, the loop only stops: it renders and
/// sends nothing more, whatever it observes.
pub proof fn lemma_closed_stays_closed<R>(events: Seq<Event<R>>)
    ensures
        run(Producer::Closed, events) == (
            Producer::<R>::Closed,
            Seq::new(events.len(), |i: int| Action::<R>::Stop),
        ),
    decreases events.len(),
{
    if events.len() > 0 {
        lemma_closed_stays_closed(events.drop_first());
        assert(seq![Action::<R>::Stop] + Seq::new(
            (events.len() - 1) as nat,
            |i: int| Action::<R>::Stop,
        ) =~= Seq::new(events.len(), |i: int| Action::<R>::Stop));
    }
}

} // verus!
