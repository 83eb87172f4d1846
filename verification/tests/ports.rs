use asynchronix::channel::{Channel, RecvError, RecvPoll, SendError, SendOp, SendPoll};
use asynchronix::ports::broadcast_future::{recycle_vec, BroadcastAction, BroadcastFuture};
use asynchronix::ports::broadcaster::{
    Broadcast, BroadcastError, BroadcasterInner, EventBroadcaster, QueryBroadcaster,
};
use asynchronix::ports::event_buffer::EventBuffer;
use asynchronix::ports::event_slot::EventSlot;
use asynchronix::ports::output::{Output, Requestor};
use asynchronix::ports::sender::{FilterMapSender, MapSender, ReplierSender};
use asynchronix::ports::source::SourceBroadcaster;
use asynchronix::ports::LineError;

const N_RECV: usize = 4;
const MESSAGE: usize = 42;
// Special ID signaling that the message must reach all receivers.
const BROADCAST_ALL: usize = 42;

/// The mailboxes of models that compute something out of each message and reply,
/// if a reply is expected.
struct Models {
    mailboxes: Vec<Channel<(usize, usize)>>,
    replies: Vec<Option<usize>>,
    sum: usize,
}

impl Models {
    fn new() -> Self {
        Models {
            mailboxes: (0..N_RECV).map(|_| Channel::new(10)).collect(),
            replies: Vec::new(),
            sum: 0,
        }
    }

    /// Processes all messages and returns the indices of the replies.
    fn process(&mut self, compute: fn(usize) -> usize) -> Vec<usize> {
        let mut replied = Vec::new();
        for mailbox in self.mailboxes.iter_mut() {
            while let RecvPoll::Received(borrow) = mailbox.poll_recv(0) {
                let ((ticket, message), _) = mailbox.consume(borrow);
                let result = compute(message);
                self.sum += result;
                if ticket < self.replies.len() {
                    self.replies[ticket] = Some(result);
                }
                replied.push(ticket);
            }
        }
        replied
    }
}

/// Sending of a query to a mailbox.
struct Query {
    mailbox: usize,
    message: usize,
    ticket: usize,
    op: Option<SendOp<(usize, usize)>>,
    sender: ReplierSender,
    is_sent: bool,
}

impl Query {
    fn new(mailbox: usize, message: usize) -> Self {
        Query {
            mailbox,
            message,
            ticket: 0,
            op: None,
            sender: ReplierSender::new(),
            is_sent: false,
        }
    }

    fn poll(&mut self, models: &mut Models, map: fn(usize) -> usize) -> Option<Result<usize, SendError>> {
        let mailbox = &mut models.mailboxes[self.mailbox];
        if !self.is_sent {
            if self.op.is_none() {
                self.ticket = models.replies.len();
                models.replies.push(None);
                self.op = Some(mailbox.send((self.ticket, self.message)));
            }
            match mailbox.poll_send(self.op.as_mut().unwrap(), 0) {
                SendPoll::Pending => return None,
                SendPoll::Sent(_) => {
                    self.is_sent = true;
                    self.sender.sent(Ok(())).unwrap();
                }
                SendPoll::Failed(e) => return Some(Err(self.sender.sent(Err(e)).unwrap_err())),
            }
        }
        models.replies[self.ticket].take().map(|reply| {
            self.sender
                .received_and_mapped(Ok::<usize, RecvError>(reply), &map)
        })
    }
}

/// Sends an event to the mailbox.
fn send_event(models: &mut Models, mailbox: usize, message: usize) -> Result<(), SendError> {
    let mailbox = &mut models.mailboxes[mailbox];
    let mut op = mailbox.send((usize::MAX, message));
    match mailbox.poll_send(&mut op, 0) {
        SendPoll::Sent(_) => Ok(()),
        SendPoll::Failed(e) => Err(e),
        SendPoll::Pending => panic!("the mailbox is full"),
    }
}

/// Awaits the completion of a broadcast of events.
fn broadcast_events(
    models: &mut Models,
    broadcast: Broadcast<(usize, usize)>,
) -> Result<(), BroadcastError> {
    match broadcast {
        Broadcast::Empty => Ok(()),
        Broadcast::Single((mailbox, message)) => {
            EventBroadcaster::<usize>::single_result(send_event(models, mailbox, message))
        }
        Broadcast::Multiple(futures) => {
            let mut join = BroadcastFuture::new(futures.len());
            let mut action = join.poll();
            loop {
                action = match action {
                    BroadcastAction::PollFuture(i) => {
                        let result = send_event(models, futures[i].0, futures[i].1);
                        join.polled(Some(result))
                    }
                    BroadcastAction::Ready(result) => return result,
                    _ => panic!("the futures should be ready"),
                };
            }
        }
    }
}

/// Awaits the completion of a broadcast of queries, which are processed when
/// nothing else can be done.
fn broadcast_queries(
    models: &mut Models,
    broadcast: Broadcast<Query>,
    compute: fn(usize) -> usize,
    map: fn(usize) -> usize,
) -> Result<Vec<usize>, BroadcastError> {
    match broadcast {
        Broadcast::Empty => Ok(Vec::new()),
        Broadcast::Single(mut query) => {
            assert!(query.poll(models, map).is_none());
            models.process(compute);
            let result = query.poll(models, map).unwrap();
            QueryBroadcaster::<usize>::single_result(result)
        }
        Broadcast::Multiple(mut queries) => {
            let mut join = BroadcastFuture::new(queries.len());
            let mut action = join.poll();
            loop {
                action = match action {
                    BroadcastAction::PollFuture(i) => {
                        let result = queries[i].poll(models, map);
                        join.polled(result)
                    }
                    BroadcastAction::RegisterWaker => join.registered(),
                    BroadcastAction::Pending => {
                        let mut notify = false;
                        for ticket in models.process(compute) {
                            let i = queries.iter().position(|q| q.ticket == ticket).unwrap();
                            notify |= join.wake(i);
                        }
                        assert!(notify);
                        join.poll()
                    }
                    BroadcastAction::Ready(Ok(())) => return Ok(join.into_outputs()),
                    BroadcastAction::Ready(Err(e)) => return Err(e),
                };
            }
        }
    }
}

fn identity(x: usize) -> usize {
    x
}

fn double(x: usize) -> usize {
    2 * x
}

fn triple(x: usize) -> usize {
    3 * x
}

#[test]
fn broadcaster_broadcast_event_smoke() {
    // Output broadcaster.
    let mut models = Models::new();
    let mut broadcaster = EventBroadcaster::default();
    for i in 0..N_RECV {
        assert!(broadcaster.can_add());
        broadcaster.add(i);
    }
    let broadcast = broadcaster.broadcast(&MESSAGE, |i: &usize, arg: &usize| Some((*i, *arg)));
    broadcast_events(&mut models, broadcast).unwrap();
    models.process(identity);
    assert_eq!(models.sum, N_RECV * MESSAGE);

    // Source broadcaster.
    let mut models = Models::new();
    let mut broadcaster = SourceBroadcaster::default();
    for i in 0..N_RECV {
        assert!(broadcaster.can_add());
        broadcaster.add(i);
    }
    let broadcast = broadcaster.broadcast(&MESSAGE, |i: &usize, arg: &usize| Some((*i, *arg)));
    broadcast_events(&mut models, broadcast).unwrap();
    models.process(identity);
    assert_eq!(models.sum, N_RECV * MESSAGE);
}

/// Senders that each filter out messages that are not meant for a receiver.
fn id_filters() -> Vec<FilterMapSender<impl Fn(&usize) -> Option<usize>>> {
    (0..N_RECV)
        .map(|id| {
            FilterMapSender::new(move |x: &usize| (*x == id || *x == BROADCAST_ALL).then_some(*x))
        })
        .collect()
}

/// Messages reaching only one receiver each, a message to all receivers, and
/// again messages reaching only one receiver each.
fn filtered_messages() -> Vec<usize> {
    (0..N_RECV)
        .chain(std::iter::once(BROADCAST_ALL))
        .chain(0..N_RECV)
        .collect()
}

#[test]
fn broadcaster_broadcast_event_filter_map() {
    let filters = id_filters();

    // Output broadcaster.
    let mut models = Models::new();
    let mut broadcaster = EventBroadcaster::default();
    for i in 0..N_RECV {
        broadcaster.add(i);
    }
    for message in filtered_messages() {
        let broadcast = broadcaster.broadcast(&message, |i: &usize, arg: &usize| {
            filters[*i].message(arg).map(|arg| (*i, arg))
        });
        broadcast_events(&mut models, broadcast).unwrap();
    }
    assert_eq!(models.process(identity).len(), N_RECV * 3);
    assert_eq!(
        models.sum,
        N_RECV * ((N_RECV - 1) + BROADCAST_ALL) // Twice the sum of all IDs + N_RECV times the special value
    );

    // Source broadcaster.
    let mut models = Models::new();
    let mut broadcaster = SourceBroadcaster::default();
    for i in 0..N_RECV {
        broadcaster.add(i);
    }
    for message in filtered_messages() {
        let broadcast = broadcaster.broadcast(&message, |i: &usize, arg: &usize| {
            filters[*i].message(arg).map(|arg| (*i, arg))
        });
        broadcast_events(&mut models, broadcast).unwrap();
    }
    assert_eq!(models.process(identity).len(), N_RECV * 3);
    assert_eq!(models.sum, N_RECV * ((N_RECV - 1) + BROADCAST_ALL));
}

#[test]
fn broadcaster_broadcast_query_smoke() {
    // Output broadcaster.
    let mut models = Models::new();
    let mut broadcaster = QueryBroadcaster::default();
    for i in 0..N_RECV {
        assert!(broadcaster.can_add());
        broadcaster.add(i);
    }
    let broadcast =
        broadcaster.broadcast(&MESSAGE, |i: &usize, arg: &usize| Some(Query::new(*i, *arg)));
    let replies = broadcast_queries(&mut models, broadcast, double, identity);
    assert_eq!(
        replies.unwrap().into_iter().sum::<usize>(),
        N_RECV * MESSAGE * 2
    );

    // Source broadcaster.
    let mut models = Models::new();
    let mut broadcaster = SourceBroadcaster::default();
    for i in 0..N_RECV {
        broadcaster.add(i);
    }
    let broadcast =
        broadcaster.broadcast(&MESSAGE, |i: &usize, arg: &usize| Some(Query::new(*i, *arg)));
    let replies = broadcast_queries(&mut models, broadcast, double, identity);
    assert_eq!(
        replies.unwrap().into_iter().sum::<usize>(),
        N_RECV * MESSAGE * 2
    );
}

#[test]
fn broadcaster_broadcast_query_filter_map() {
    let filters = id_filters();
    let mut models = Models::new();
    let mut broadcaster = QueryBroadcaster::default();
    for i in 0..N_RECV {
        broadcaster.add(i);
    }
    let mut sum = 0;
    for message in filtered_messages() {
        let broadcast = broadcaster.broadcast(&message, |i: &usize, arg: &usize| {
            filters[*i].message(arg).map(|arg| Query::new(*i, arg))
        });
        let replies = broadcast_queries(&mut models, broadcast, double, triple).unwrap();
        sum += replies.into_iter().sum::<usize>();
    }
    assert_eq!(
        sum,
        N_RECV * ((N_RECV - 1) + BROADCAST_ALL) * 2 * 3, // Twice the sum of all IDs + N_RECV times the special value, then doubled and tripled
    );
}

/// Sender futures that complete when a value becomes available and that may be
/// awaken spuriously.
#[derive(Clone, Copy, Default)]
struct TestEvent {
    value: Option<usize>,
    has_waker: bool,
}

/// What is being done by the thread that polls a broadcast.
enum Poller {
    Act(BroadcastAction),
    Register(usize),
    Suspended,
    Ready(Vec<usize>),
}

/// Polls a broadcast while other threads each make a value available, or wake
/// the broadcast spuriously, along all interleavings of the operations with a
/// bounded number of preemptions.
fn loom_broadcast(values: &[usize], spurious: bool, preemption_bound: usize) {
    // Each sequence of choices determines an interleaving.
    let mut prefix: Vec<(usize, usize)> = Vec::new();
    loop {
        let mut at = 0;
        let mut pick = |options: usize| -> usize {
            if at == prefix.len() {
                prefix.push((0, options));
            }
            at += 1;
            prefix[at - 1].0
        };

        let mut events = vec![TestEvent::default(); values.len()];
        let mut join: Option<BroadcastFuture<usize>> = Some(BroadcastFuture::new(values.len()));
        let first = join.as_mut().unwrap().poll();
        let mut poller = Poller::Act(first);
        let mut is_scheduled = false;
        let mut has_waker = false;
        // Each thread sends a value, then wakes the sender future.
        let mut steps = vec![0; values.len() + spurious as usize];
        let mut current = steps.len();
        let mut preemptions = 0;

        loop {
            let mut enabled: Vec<usize> = (0..steps.len()).filter(|i| steps[*i] < 2).collect();
            let is_polling = match &poller {
                Poller::Act(_) | Poller::Register(_) => true,
                Poller::Suspended => is_scheduled,
                Poller::Ready(_) => false,
            };
            if is_polling {
                enabled.push(steps.len());
            }
            if enabled.is_empty() {
                break;
            }
            let thread = if !enabled.contains(&current) {
                enabled[pick(enabled.len())]
            } else if preemptions < preemption_bound {
                let next = enabled[pick(enabled.len())];
                preemptions += (next != current) as usize;
                next
            } else {
                current
            };
            current = thread;
            if thread < steps.len() {
                let target = if thread < values.len() { thread } else { 0 };
                if steps[thread] == 0 {
                    if thread < values.len() {
                        events[target].value = Some(values[target]);
                    }
                } else if events[target].has_waker {
                    if let Some(join) = join.as_mut() {
                        if join.wake(target) && has_waker {
                            is_scheduled = true;
                        }
                    }
                }
                steps[thread] += 1;
                continue;
            }
            let join_ref = join.as_mut().unwrap();
            poller = match poller {
                Poller::Act(BroadcastAction::PollFuture(i)) => {
                    if events[i].has_waker || events[i].value.is_some() {
                        let result = events[i].value.take().map(Ok);
                        Poller::Act(join_ref.polled(result))
                    } else {
                        events[i].has_waker = true;
                        Poller::Register(i)
                    }
                }
                // Check again once the waker was registered.
                Poller::Register(i) => {
                    let result = events[i].value.take().map(Ok);
                    Poller::Act(join_ref.polled(result))
                }
                Poller::Act(BroadcastAction::RegisterWaker) => {
                    has_waker = true;
                    Poller::Act(join_ref.registered())
                }
                Poller::Act(BroadcastAction::Pending) => Poller::Suspended,
                Poller::Act(BroadcastAction::Ready(Ok(()))) => {
                    Poller::Ready(join.take().unwrap().into_outputs())
                }
                Poller::Act(BroadcastAction::Ready(Err(_))) => panic!("sender error"),
                Poller::Suspended => {
                    is_scheduled = false;
                    Poller::Act(join_ref.poll())
                }
                Poller::Ready(_) => unreachable!(),
            };
        }

        match poller {
            Poller::Ready(outputs) => assert_eq!(outputs, values),
            _ => panic!("the future has not completed"),
        }

        // Move to the next sequence of choices.
        let mut found = false;
        while let Some((choice, options)) = prefix.pop() {
            if choice + 1 < options {
                prefix.push((choice + 1, options));
                found = true;
                break;
            }
        }
        if !found {
            break;
        }
    }
}

#[test]
fn loom_broadcast_basic() {
    loom_broadcast(&[3, 7, 42], false, 3);
}

#[test]
fn loom_broadcast_spurious() {
    loom_broadcast(&[3, 7], true, 3);
}

#[test]
fn loom_broadcast_query_basic() {
    loom_broadcast(&[3, 7, 42], false, 3);
}

#[test]
fn loom_broadcast_query_spurious() {
    loom_broadcast(&[3, 7], true, 3);
}

#[test]
fn broadcast_fails_if_a_sender_fails() {
    let mut join: BroadcastFuture<()> = BroadcastFuture::new(3);
    assert!(matches!(join.poll(), BroadcastAction::PollFuture(0)));
    assert!(matches!(
        join.polled(Some(Ok(()))),
        BroadcastAction::PollFuture(1)
    ));
    assert!(matches!(
        join.polled(Some(Err(SendError))),
        BroadcastAction::Ready(Err(BroadcastError {}))
    ));

    assert_eq!(EventBroadcaster::<u8>::single_result(Ok(())), Ok(()));
    assert_eq!(
        EventBroadcaster::<u8>::single_result(Err(SendError)),
        Err(BroadcastError {})
    );
    assert_eq!(QueryBroadcaster::<u8>::single_result(Ok(3)), Ok(vec![3]));
    assert_eq!(
        QueryBroadcaster::<u8>::single_result::<u8>(Err(SendError)),
        Err(BroadcastError {})
    );
}

#[test]
fn broadcast_of_several_wake_ups() {
    let mut join: BroadcastFuture<u8> = BroadcastFuture::new(2);
    assert!(matches!(join.poll(), BroadcastAction::PollFuture(0)));
    assert!(matches!(join.polled(None), BroadcastAction::PollFuture(1)));
    assert!(matches!(join.polled(None), BroadcastAction::RegisterWaker));
    assert!(matches!(join.registered(), BroadcastAction::Pending));
    // Only the first wake-up is notified.
    assert!(join.wake(1));
    assert!(!join.wake(0));
    assert!(!join.wake(1));
    // The tasks are polled in the order in which they were awaken.
    assert!(matches!(join.poll(), BroadcastAction::PollFuture(1)));
    assert!(matches!(
        join.polled(Some(Ok(10))),
        BroadcastAction::PollFuture(0)
    ));
    assert!(matches!(
        join.polled(Some(Ok(20))),
        BroadcastAction::Ready(Ok(()))
    ));
    assert_eq!(join.into_outputs(), vec![20, 10]);
}

#[test]
fn broadcasters_are_cloned_with_their_lines() {
    let mut broadcaster = EventBroadcaster::default();
    let a = broadcaster.add('a');
    let b = broadcaster.add('b');
    let mut other = broadcaster.clone();
    assert!(other.remove(a));
    assert!(!other.remove(a));
    assert_eq!(other.len(), 1);
    assert_eq!(broadcaster.len(), 2);
    // New lines are attributed independently.
    assert_eq!(broadcaster.add('c'), other.add('d'));
    assert!(broadcaster.remove(b));

    let mut broadcaster = QueryBroadcaster::default();
    let a = broadcaster.add('a');
    let mut other = broadcaster.clone();
    broadcaster.clear();
    assert!(!broadcaster.remove(a));
    assert!(other.remove(a));
}

#[test]
fn futures_are_collected_in_order() {
    let mut broadcaster = BroadcasterInner::default();
    for i in [3, 4, 5, 6, 8] {
        broadcaster.add(i);
    }
    // Only odd multiples are sent.
    let futures = broadcaster.futures(&3, |i: &u32, arg: &u32| {
        (*i % 2 == 1).then_some(*i * *arg)
    });
    assert_eq!(futures, vec![9, 15]);
    assert_eq!(recycle_vec::<u8, u8>(vec![1, 2]), Vec::<u8>::new());
}

#[test]
fn output_connections() {
    let mut output = Output::new();
    assert!(output.can_connect());
    assert!(matches!(
        output.send(&1, |_: &char, arg: &u8| Some(*arg)),
        Broadcast::Empty
    ));
    let a = output.connect('a');
    let b = output.connect('b');
    let c = output.connect_sink('c');
    assert!(a != b && b != c && a != c);
    assert_eq!(output.len(), 3);
    assert_eq!(output.to_text(), "Output (3 connected ports)");

    assert_eq!(output.disconnect(b), Ok(()));
    assert_eq!(output.disconnect(b), Err(LineError {}));
    assert_eq!(output.len(), 2);
    assert!(matches!(
        output.send(&1, |sender: &char, arg: &u8| (*sender == 'c').then_some(*arg)),
        Broadcast::Single(1)
    ));

    // Identifiers are not reused.
    let d = output.connect('d');
    assert!(d != b);
    output.disconnect_all();
    assert_eq!(output.len(), 0);
    assert_eq!(output.disconnect(a), Err(LineError {}));
    assert_eq!(Output::<u8>::default().len(), 0);
}

#[test]
fn requestor_connections() {
    let mut requestor = Requestor::new();
    assert!(requestor.can_connect());
    let a = requestor.connect('a');
    let b = requestor.connect('b');
    assert_eq!(requestor.len(), 2);
    assert_eq!(requestor.to_text(), "Requestor (2 connected ports)");
    match requestor.send(&7, |sender: &char, arg: &u8| Some((*sender, *arg))) {
        Broadcast::Multiple(futures) => assert_eq!(futures, vec![('a', 7), ('b', 7)]),
        _ => panic!(),
    }
    assert_eq!(requestor.disconnect(a), Ok(()));
    assert_eq!(requestor.disconnect(a), Err(LineError {}));
    assert_eq!(requestor.disconnect(b), Ok(()));
    requestor.connect('c');
    requestor.disconnect_all();
    assert_eq!(requestor.len(), 0);
    assert_eq!(Requestor::<u8>::default().len(), 0);
}

#[test]
fn mapped_messages() {
    let sender = MapSender::new(|x: &u32| format!("{}", x));
    assert_eq!(sender.message(&12), "12");
}

#[test]
fn replier_sender_errors() {
    let mut sender = ReplierSender::new();
    assert_eq!(sender.sent(Err(SendError)), Err(SendError));

    let mut sender = ReplierSender::new();
    assert_eq!(sender.sent(Ok(())), Ok(()));
    assert_eq!(sender.received::<u8>(Err(RecvError)), Err(SendError));

    let mut sender = ReplierSender::new();
    assert_eq!(sender.sent(Ok(())), Ok(()));
    assert_eq!(sender.received(Ok(7)), Ok(7));
}

#[test]
fn event_buffer_keeps_the_newest_events() {
    let mut buffer = EventBuffer::with_capacity(3);
    for i in 0..5 {
        buffer.write(i);
    }
    assert_eq!(buffer.next(), Some(2));
    buffer.write(5);
    assert_eq!(buffer.drain(), vec![3, 4, 5]);
    assert_eq!(buffer.next(), None);

    let mut buffer = EventBuffer::new();
    for i in 0..20 {
        buffer.write(i);
    }
    assert_eq!(buffer.drain(), (4..20).collect::<Vec<_>>());

    let mut buffer = EventBuffer::with_capacity(0);
    buffer.write(1);
    assert_eq!(buffer.next(), None);
}

#[test]
fn event_buffer_ignores_events_while_closed() {
    let mut buffer = EventBuffer::new_closed();
    buffer.write(1);
    buffer.open();
    buffer.write(2);
    buffer.close();
    buffer.write(3);
    // The events that were received are kept.
    assert_eq!(buffer.next(), Some(2));
    assert_eq!(buffer.next(), None);

    let mut buffer = EventBuffer::with_capacity_closed(1);
    buffer.write(1);
    assert_eq!(buffer.next(), None);
    buffer.open();
    buffer.write(1);
    buffer.write(2);
    assert_eq!(buffer.next(), Some(2));

    let mut buffer = EventBuffer::default();
    buffer.write(1);
    assert_eq!(buffer.next(), Some(1));
}

#[test]
fn event_slot_keeps_the_last_event() {
    let mut slot = EventSlot::new();
    assert_eq!(slot.next(), None);
    slot.write(1);
    slot.write(2);
    assert_eq!(slot.next(), Some(2));
    assert_eq!(slot.next(), None);
    slot.write(3);
    slot.close();
    slot.write(4);
    assert_eq!(slot.next(), Some(3));
    assert_eq!(slot.next(), None);
    slot.open();
    slot.write(5);
    assert_eq!(slot.next(), Some(5));

    let mut slot = EventSlot::new_closed();
    slot.write(1);
    assert_eq!(slot.next(), None);
    let mut slot = EventSlot::default();
    slot.write(1);
    assert_eq!(slot.next(), Some(1));
}

#[test]
fn event_buffer_try_fold() {
    let mut buffer = EventBuffer::with_capacity(3);
    for event in 1..=4 {
        buffer.write(event);
    }
    let concatenate = |text: String, event: i32| -> Result<String, i32> {
        if event < 10 {
            Ok(format!("{}{}", text, event))
        } else {
            Err(event)
        }
    };
    assert_eq!(
        buffer.try_fold(">".to_string(), concatenate),
        Ok(">234".to_string())
    );
    assert_eq!(buffer.next(), None);
    // All events are removed, even upon failure.
    buffer.write(5);
    buffer.write(17);
    buffer.write(18);
    assert_eq!(buffer.try_fold(String::new(), concatenate), Err(17));
    assert_eq!(buffer.next(), None);
    assert_eq!(
        buffer.try_fold("empty".to_string(), concatenate),
        Ok("empty".to_string())
    );
}
