use helix_wasm::channel::{
    pop_and_wake_sender, push_and_wake_receiver, Inner, RecvPoll, SendError, SendPoll,
    TrySendError, Wake,
};

#[test]
fn bounded_channel_delivers_in_order() {
    let mut c: Inner<u32> = Inner::bounded(4);
    for v in [1, 2, 3] {
        assert!(c.try_send(v).0.is_ok());
    }
    let mut got = Vec::new();
    while let (RecvPoll::Ready(Some(v)), _) = c.poll_recv() {
        got.push(v);
        if got.len() == 3 {
            break;
        }
    }
    assert_eq!(got, vec![1, 2, 3]);
}

#[test]
fn try_send_on_full_channel_hands_the_value_back() {
    let mut c: Inner<&str> = Inner::bounded(1);
    assert!(c.try_send("a").0.is_ok());
    match c.try_send("b") {
        (Err(TrySendError::Full(v)), Wake::Nobody) => assert_eq!(v, "b"),
        _ => panic!("expected Full"),
    }
    assert_eq!(c.len(), 1);
}

#[test]
fn try_send_after_receiver_closed_is_closed() {
    let mut c: Inner<u8> = Inner::bounded(2);
    assert_eq!(c.close_receiver(), Wake::Nobody);
    match c.try_send(7) {
        (Err(TrySendError::Closed(v)), _) => assert_eq!(v, 7),
        _ => panic!("expected Closed"),
    }
    match c.poll_send(8) {
        (SendPoll::Ready(Err(SendError(v))), _) => assert_eq!(v, 8),
        _ => panic!("expected a send error"),
    }
}

#[test]
fn waiting_receiver_is_woken_by_a_send() {
    let mut c: Inner<u8> = Inner::bounded(2);
    assert!(matches!(c.poll_recv(), (RecvPoll::Pending, Wake::Nobody)));
    let (r, w) = c.try_send(5);
    assert!(r.is_ok());
    assert_eq!(w, Wake::Receiver);
    assert!(matches!(c.poll_recv(), (RecvPoll::Ready(Some(5)), Wake::Nobody)));
}

#[test]
fn waiting_sender_is_woken_when_room_frees_up() {
    let mut c: Inner<u8> = Inner::bounded(1);
    assert!(matches!(c.poll_send(1), (SendPoll::Ready(Ok(())), _)));
    let v = match c.poll_send(2) {
        (SendPoll::Pending(v), Wake::Nobody) => v,
        _ => panic!("expected to wait"),
    };
    assert_eq!(v, 2);
    assert!(matches!(c.poll_recv(), (RecvPoll::Ready(Some(1)), Wake::Senders)));
    assert!(matches!(c.poll_send(v), (SendPoll::Ready(Ok(())), _)));
}

#[test]
fn last_sender_gone_ends_the_stream() {
    let mut c: Inner<u8> = Inner::bounded(2);
    c.add_sender();
    assert!(c.try_send(9).0.is_ok());
    assert_eq!(c.remove_sender(), Wake::Nobody);
    assert!(matches!(c.poll_recv(), (RecvPoll::Ready(Some(9)), _)));
    assert!(matches!(c.poll_recv(), (RecvPoll::Pending, _)));
    assert_eq!(c.remove_sender(), Wake::Receiver);
    assert!(matches!(c.poll_recv(), (RecvPoll::Ready(None), Wake::Nobody)));
}

#[test]
fn unbounded_channel_accepts_until_closed() {
    let mut c: Inner<u32> = Inner::unbounded();
    for v in 0..100 {
        assert!(c.send_unbounded(v).0.is_ok());
    }
    assert_eq!(c.len(), 100);
    c.close_unbounded_receiver();
    match c.send_unbounded(100) {
        (Err(SendError(v)), _) => assert_eq!(v, 100),
        _ => panic!("expected a send error"),
    }
}

#[test]
fn push_then_pop_returns_the_value() {
    let mut c: Inner<i64> = Inner::bounded(3);
    assert_eq!(push_and_wake_receiver(&mut c, -4), Wake::Nobody);
    let (v, w) = pop_and_wake_sender(&mut c);
    assert_eq!(v, Some(-4));
    assert_eq!(w, Wake::Nobody);
    let (v, _) = pop_and_wake_sender(&mut c);
    assert_eq!(v, None);
}

#[test]
fn error_texts() {
    assert_eq!(SendError(3u8).message(), "channel closed");
    assert_eq!(TrySendError::Full(1u8).describe(), "Full(..)");
    assert_eq!(TrySendError::Closed(1u8).describe(), "Closed(..)");
}

#[test]
fn every_waiting_sender_is_woken_when_room_frees_up() {
    let mut c: Inner<u8> = Inner::bounded(1);
    assert!(c.try_send(0).0.is_ok());
    let a = match c.poll_send(1) {
        (SendPoll::Pending(v), _) => v,
        _ => panic!("expected to wait"),
    };
    let b = match c.poll_send(2) {
        (SendPoll::Pending(v), _) => v,
        _ => panic!("expected to wait"),
    };
    assert!(matches!(c.poll_recv(), (RecvPoll::Ready(Some(0)), Wake::Senders)));
    assert!(matches!(c.poll_send(a), (SendPoll::Ready(Ok(())), _)));
    let b = match c.poll_send(b) {
        (SendPoll::Pending(v), Wake::Nobody) => v,
        _ => panic!("the second sender waits again"),
    };
    assert!(matches!(c.poll_recv(), (RecvPoll::Ready(Some(1)), Wake::Senders)));
    assert!(matches!(c.poll_send(b), (SendPoll::Ready(Ok(())), _)));
}

#[test]
fn closing_the_receiver_wakes_waiting_senders() {
    let mut c: Inner<u8> = Inner::bounded(1);
    assert!(c.try_send(0).0.is_ok());
    let _ = c.poll_send(1);
    assert_eq!(c.close_receiver(), Wake::Senders);
}
