use replicating_tmux::broadcast::{Broadcaster, Delivery};

fn take(b: &mut Broadcaster, id: u64) -> Vec<Vec<u8>> {
    match b.take_pending(id) {
        Delivery::Chunks(chunks) => chunks,
        Delivery::Overflowed => panic!("member {} overflowed", id),
        Delivery::Unknown => panic!("member {} unknown", id),
    }
}

#[test]
fn subscribers_get_ids_in_order() {
    let mut b = Broadcaster::new(4);
    assert_eq!(b.subscribe(), Some(0));
    assert_eq!(b.subscribe(), Some(1));
    assert_eq!(b.subscribe(), Some(2));
    assert_eq!(b.len(), 3);
}

#[test]
fn all_subscribers_see_identical_streams() {
    let mut b = Broadcaster::new(8);
    let ids: Vec<u64> = (0..3).map(|_| b.subscribe().unwrap()).collect();
    let chunks: Vec<Vec<u8>> = vec![b"one".to_vec(), b"two\r\n".to_vec(), vec![0, 255, 27]];
    for c in &chunks {
        assert!(b.publish(c.clone()).is_empty());
    }
    let streams: Vec<Vec<u8>> = ids.iter().map(|&id| take(&mut b, id).concat()).collect();
    assert_eq!(streams[0], b"onetwo\r\n\x00\xff\x1b".to_vec());
    assert_eq!(streams[0], streams[1]);
    assert_eq!(streams[1], streams[2]);
}

#[test]
fn late_subscriber_gets_no_history() {
    let mut b = Broadcaster::new(8);
    let early = b.subscribe().unwrap();
    b.publish(b"before".to_vec());
    let late = b.subscribe().unwrap();
    assert!(take(&mut b, late).is_empty());
    b.publish(b"after".to_vec());
    assert_eq!(take(&mut b, late), vec![b"after".to_vec()]);
    assert_eq!(take(&mut b, early), vec![b"before".to_vec(), b"after".to_vec()]);
}

#[test]
fn take_empties_the_queue() {
    let mut b = Broadcaster::new(8);
    let id = b.subscribe().unwrap();
    b.publish(b"x".to_vec());
    assert_eq!(take(&mut b, id), vec![b"x".to_vec()]);
    assert!(take(&mut b, id).is_empty());
}

#[test]
fn leaving_member_does_not_disturb_others() {
    let mut b = Broadcaster::new(8);
    let a = b.subscribe().unwrap();
    let c = b.subscribe().unwrap();
    b.publish(b"first".to_vec());
    assert!(b.unsubscribe(a));
    assert!(!b.unsubscribe(a));
    b.publish(b"second".to_vec());
    assert!(matches!(b.take_pending(a), Delivery::Unknown));
    assert_eq!(take(&mut b, c), vec![b"first".to_vec(), b"second".to_vec()]);
    assert_eq!(b.len(), 1);
}

#[test]
fn stalled_member_overflows_alone() {
    let mut b = Broadcaster::new(2);
    let stalled = b.subscribe().unwrap();
    let live = b.subscribe().unwrap();
    assert!(b.publish(b"1".to_vec()).is_empty());
    assert!(b.publish(b"2".to_vec()).is_empty());
    assert_eq!(take(&mut b, live), vec![b"1".to_vec(), b"2".to_vec()]);
    // the stalled member's queue is full: only it is cut off
    assert_eq!(b.publish(b"3".to_vec()), vec![stalled]);
    assert!(matches!(b.take_pending(stalled), Delivery::Overflowed));
    // an overflowed member is reported once, not on every publish
    assert!(b.publish(b"4".to_vec()).is_empty());
    assert_eq!(take(&mut b, live), vec![b"3".to_vec(), b"4".to_vec()]);
}

#[test]
fn zero_capacity_overflows_on_first_chunk() {
    let mut b = Broadcaster::new(0);
    let id = b.subscribe().unwrap();
    assert_eq!(b.publish(b"a".to_vec()), vec![id]);
    assert!(matches!(b.take_pending(id), Delivery::Overflowed));
}

#[test]
fn unknown_id_is_reported() {
    let mut b = Broadcaster::new(1);
    assert!(matches!(b.take_pending(7), Delivery::Unknown));
    assert!(!b.unsubscribe(7));
}

#[test]
fn echo_output_reaches_every_client() {
    let mut b = Broadcaster::new(16);
    let a = b.subscribe().unwrap();
    let c = b.subscribe().unwrap();
    b.publish(b"echo hi\r\n".to_vec());
    b.publish(b"hi\r\n$ ".to_vec());
    let seen_a = take(&mut b, a).concat();
    let seen_c = take(&mut b, c).concat();
    let text = String::from_utf8(seen_a.clone()).unwrap();
    assert!(text.contains("hi"));
    assert_eq!(seen_a, seen_c);
}

#[test]
fn pwd_output_survives_one_client_leaving() {
    let mut b = Broadcaster::new(16);
    let a = b.subscribe().unwrap();
    let c = b.subscribe().unwrap();
    b.publish(b"/home/user\r\n".to_vec());
    assert_eq!(take(&mut b, a).concat(), b"/home/user\r\n".to_vec());
    // a's socket is closed abruptly: its output pump leaves
    assert!(b.unsubscribe(a));
    b.publish(b"$ ".to_vec());
    assert_eq!(take(&mut b, c).concat(), b"/home/user\r\n$ ".to_vec());
}
