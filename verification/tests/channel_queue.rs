use asynchronix::channel::queue::{PopError, PushError, Queue};

fn pop(queue: &mut Queue<u32>) -> Option<u32> {
    match queue.pop() {
        Ok(borrow) => Some(queue.release(borrow)),
        Err(_) => None,
    }
}

#[test]
fn queue_closed_by_sender() {
    let mut queue = Queue::new(3);

    assert!(matches!(queue.pop(), Err(PopError::Empty)));

    assert!(matches!(queue.push(42), Ok(_)));
    queue.close();

    let borrow = match queue.pop() {
        Ok(borrow) => borrow,
        Err(_) => panic!(),
    };
    assert_eq!(*borrow.deref(), 42);
    queue.release(borrow);
    assert!(matches!(queue.pop(), Err(PopError::Closed)));
}

#[test]
fn queue_closed_by_consumer() {
    let mut queue = Queue::new(3);

    assert_eq!(queue.is_closed(), false);
    assert!(matches!(queue.push(42), Ok(_)));

    queue.close();

    assert_eq!(queue.is_closed(), true);
    assert!(matches!(queue.push(13), Err(PushError::Closed)));

    let borrow = match queue.pop() {
        Ok(borrow) => borrow,
        Err(_) => panic!(),
    };
    assert_eq!(*borrow.deref(), 42);
    queue.release(borrow);
    assert!(matches!(queue.pop(), Err(PopError::Closed)));
}

#[test]
fn queue_len() {
    let mut queue = Queue::new(4);

    let _ = queue.push(0);
    assert_eq!(queue.len(), 1);
    let _ = queue.push(1);
    assert_eq!(queue.len(), 2);
    let _ = pop(&mut queue);
    assert_eq!(queue.len(), 1);
    let _ = queue.push(2);
    assert_eq!(queue.len(), 2);
    let _ = queue.push(3);
    assert_eq!(queue.len(), 3);
    let _ = pop(&mut queue);
    assert_eq!(queue.len(), 2);
    let _ = queue.push(4);
    assert_eq!(queue.len(), 3);
    let _ = pop(&mut queue);
    assert_eq!(queue.len(), 2);
    let _ = queue.push(5);
    assert_eq!(queue.len(), 3);
    let _ = queue.push(6);
    assert_eq!(queue.len(), 4);
    let _ = pop(&mut queue);
    assert_eq!(queue.len(), 3);
    let _ = queue.push(7);
    assert_eq!(queue.len(), 4);
    let _ = pop(&mut queue);
    assert_eq!(queue.len(), 3);
    let _ = queue.push(8);
    assert_eq!(queue.len(), 4);
    let _ = pop(&mut queue);
    assert_eq!(queue.len(), 3);
    let _ = queue.push(9);
    assert_eq!(queue.len(), 4);
    let _ = pop(&mut queue);
    assert_eq!(queue.len(), 3);
    let _ = pop(&mut queue);
    assert_eq!(queue.len(), 2);
    let _ = pop(&mut queue);
    assert_eq!(queue.len(), 1);
    let _ = pop(&mut queue);
    assert_eq!(queue.len(), 0);
}

#[test]
fn queue_refuses_messages_when_full() {
    for capacity in 1..6usize {
        let mut queue = Queue::new(capacity);
        for i in 0..capacity as u32 {
            assert!(queue.push(i).is_ok());
        }
        match queue.push(100) {
            Err(PushError::Full(message)) => assert_eq!(message, 100),
            _ => panic!(),
        }
        assert_eq!(queue.len(), capacity);
    }
}

#[test]
fn queue_is_first_in_first_out() {
    for capacity in 1..6usize {
        let mut queue = Queue::new(capacity);
        let mut sent = 0;
        let mut received = 0;
        // Go several times around the buffer, with a varying number of messages
        // in flight.
        for round in 0..50usize {
            let burst = round % (capacity + 1);
            for _ in 0..burst {
                assert!(queue.push(sent).is_ok());
                sent += 1;
            }
            for _ in 0..burst {
                assert_eq!(pop(&mut queue), Some(received));
                received += 1;
            }
            assert_eq!(pop(&mut queue), None);
        }
        assert_eq!(sent, received);
    }
}

#[test]
fn queue_slot_is_not_reused_while_its_message_is_lent() {
    let mut queue = Queue::new(1);
    assert!(queue.push(1).is_ok());
    let borrow = match queue.pop() {
        Ok(borrow) => borrow,
        Err(_) => panic!(),
    };
    assert!(matches!(queue.push(2), Err(PushError::Full(2))));
    assert_eq!(queue.release(borrow), 1);
    assert!(queue.push(2).is_ok());
    assert_eq!(pop(&mut queue), Some(2));
}
