use asynchronix::channel::{Channel, MessageFnOnce, RecvError, RecvPoll, SendError, SendPoll};

fn receive(channel: &mut Channel<u32>) -> (u32, Vec<u64>) {
    match channel.poll_recv(0) {
        RecvPoll::Received(borrow) => channel.consume(borrow),
        _ => panic!("a message was expected"),
    }
}

#[test]
fn channel_messages_are_received_in_order() {
    let mut channel = Channel::new(3);
    for i in 0..3 {
        let mut op = channel.send(i);
        assert_eq!(channel.poll_send(&mut op, 1), SendPoll::Sent(None));
    }
    assert_eq!(channel.len(), 3);
    for i in 0..3 {
        assert_eq!(receive(&mut channel), (i, vec![]));
    }
    assert_eq!(channel.len(), 0);
}

#[test]
fn channel_receiver_is_awaken() {
    let mut channel = Channel::new(1);
    assert!(matches!(channel.poll_recv(7), RecvPoll::Pending));
    let mut op = channel.send(1);
    assert_eq!(channel.poll_send(&mut op, 1), SendPoll::Sent(Some(7)));
    // The waker is invoked only once.
    assert_eq!(receive(&mut channel).0, 1);
    let mut op = channel.send(2);
    assert_eq!(channel.poll_send(&mut op, 1), SendPoll::Sent(None));
}

#[test]
fn channel_senders_wait_for_space() {
    let mut channel = Channel::new(1);
    let mut first = channel.send(1);
    assert_eq!(channel.poll_send(&mut first, 1), SendPoll::Sent(None));
    let mut second = channel.send(2);
    assert_eq!(channel.poll_send(&mut second, 2), SendPoll::Pending);
    let mut third = channel.send(3);
    assert_eq!(channel.poll_send(&mut third, 3), SendPoll::Pending);

    // A single sender is awaken for each message that was consumed.
    assert_eq!(receive(&mut channel), (1, vec![2]));
    assert_eq!(channel.poll_send(&mut second, 2), SendPoll::Sent(None));
    assert_eq!(receive(&mut channel), (2, vec![3]));
    assert_eq!(channel.poll_send(&mut third, 3), SendPoll::Sent(None));
    assert_eq!(receive(&mut channel), (3, vec![]));
}

#[test]
fn channel_abandoned_send_passes_its_notification() {
    let mut channel = Channel::new(1);
    let mut first = channel.send(1);
    assert_eq!(channel.poll_send(&mut first, 1), SendPoll::Sent(None));
    let mut second = channel.send(2);
    assert_eq!(channel.poll_send(&mut second, 2), SendPoll::Pending);
    let mut third = channel.send(3);
    assert_eq!(channel.poll_send(&mut third, 3), SendPoll::Pending);
    assert_eq!(receive(&mut channel), (1, vec![2]));
    // The operation was notified and is abandoned.
    assert_eq!(channel.abandon_send(second), Some(3));
    assert_eq!(channel.poll_send(&mut third, 3), SendPoll::Sent(None));

    // Nobody else waits.
    let op = channel.send(4);
    assert_eq!(channel.abandon_send(op), None);
}

#[test]
fn channel_closed_by_receiver() {
    let mut channel = Channel::new(1);
    channel.add_sender();
    let mut first = channel.send(1);
    assert_eq!(channel.poll_send(&mut first, 1), SendPoll::Sent(None));
    let mut second = channel.send(2);
    assert_eq!(channel.poll_send(&mut second, 2), SendPoll::Pending);
    assert!(!channel.is_closed());
    // Senders that wait are awaken so that they can fail.
    assert_eq!(channel.close_by_receiver(), vec![2]);
    assert!(channel.is_closed());
    assert_eq!(
        channel.poll_send(&mut second, 2),
        SendPoll::Failed(SendError)
    );
    // Messages that were sent before can still be received.
    assert_eq!(receive(&mut channel).0, 1);
    assert!(matches!(
        channel.poll_recv(0),
        RecvPoll::Failed(RecvError)
    ));
}

#[test]
fn channel_closed_by_sender() {
    let mut channel = Channel::<u32>::new(1);
    channel.add_sender();
    assert!(matches!(channel.poll_recv(5), RecvPoll::Pending));
    assert_eq!(channel.close_by_sender(), (Some(5), vec![]));
    assert!(channel.is_closed());
    assert!(matches!(
        channel.poll_recv(0),
        RecvPoll::Failed(RecvError)
    ));
}

#[test]
fn channel_is_closed_with_the_last_sender() {
    let mut channel = Channel::<u32>::new(1);
    channel.add_sender();
    channel.add_sender();
    assert!(matches!(channel.poll_recv(5), RecvPoll::Pending));
    assert_eq!(channel.drop_sender(), None);
    assert!(!channel.is_closed());
    assert_eq!(channel.drop_sender(), Some(5));
    assert!(channel.is_closed());
}

#[test]
fn channel_dropped_by_receiver() {
    let mut channel = Channel::new(2);
    channel.add_sender();
    let mut op = channel.send(1);
    assert_eq!(channel.poll_send(&mut op, 1), SendPoll::Sent(None));
    let mut op = channel.send(2);
    assert_eq!(channel.poll_send(&mut op, 1), SendPoll::Sent(None));
    let mut op = channel.send(3);
    assert_eq!(channel.poll_send(&mut op, 9), SendPoll::Pending);
    assert_eq!(channel.drop_receiver(), vec![9]);
    assert!(channel.is_closed());
    assert_eq!(channel.poll_send(&mut op, 9), SendPoll::Failed(SendError));
}

#[test]
fn channel_error_texts() {
    assert_eq!(SendError.to_text(), "sending message into a closed mailbox");
    assert_eq!(RecvError.to_text(), "receiving from a closed channel");
}

#[test]
fn message_is_taken_once() {
    let mut message = MessageFnOnce::new(|x: u32| x + 1);
    let f = message.take_once();
    assert_eq!(f(1), 2);
}

#[test]
fn channel_senders_are_awaken_for_each_free_slot() {
    let mut channel = Channel::new(2);
    for i in 0..2 {
        let mut op = channel.send(i);
        assert_eq!(channel.poll_send(&mut op, 0), SendPoll::Sent(None));
    }
    let mut waiting: Vec<_> = (2..5u32).map(|i| channel.send(i)).collect();
    for (i, op) in waiting.iter_mut().enumerate() {
        assert_eq!(channel.poll_send(op, 10 + i as u64), SendPoll::Pending);
    }
    // Both slots become free: two senders are notified, the last one waits.
    assert_eq!(receive(&mut channel), (0, vec![10]));
    assert_eq!(receive(&mut channel), (1, vec![11]));

    // The first sender is polled again but another sender takes its place.
    let mut other = channel.send(5);
    assert_eq!(channel.poll_send(&mut other, 20), SendPoll::Sent(None));
    assert_eq!(channel.poll_send(&mut waiting[0], 10), SendPoll::Sent(None));
    assert_eq!(channel.poll_send(&mut waiting[1], 11), SendPoll::Pending);
    assert_eq!(receive(&mut channel), (5, vec![12]));
    assert_eq!(channel.poll_send(&mut waiting[2], 12), SendPoll::Sent(None));
    assert_eq!(receive(&mut channel), (2, vec![11]));
    assert_eq!(channel.poll_send(&mut waiting[1], 11), SendPoll::Sent(None));
}
