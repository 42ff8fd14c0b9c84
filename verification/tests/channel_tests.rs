use drudge::channel::Message;
use drudge::channel::ReceiverExt;
use drudge::channel::ReceiverIter;

#[test]
fn crossbeam_three_way_receive() {
    let (tx, rx) = crossbeam_channel::unbounded();
    tx.send(7usize).unwrap();
    assert!(matches!(rx.try_recv_msg(), Message::Received(7)));
    assert!(matches!(rx.try_recv_msg(), Message::ChannelEmpty));
    drop(tx);
    assert!(matches!(rx.try_recv_msg(), Message::ChannelDisconnected));
}

#[test]
fn flume_three_way_receive() {
    let (tx, rx) = flume::unbounded();
    tx.send(7usize).unwrap();
    assert!(matches!(rx.try_recv_msg(), Message::Received(7)));
    assert!(matches!(rx.try_recv_msg(), Message::ChannelEmpty));
    drop(tx);
    assert!(matches!(rx.try_recv_msg(), Message::ChannelDisconnected));
}

#[test]
fn kanal_three_way_receive() {
    let (tx, rx) = kanal::unbounded();
    tx.send(7usize).unwrap();
    assert!(matches!(rx.try_recv_msg(), Message::Received(7)));
    assert!(matches!(rx.try_recv_msg(), Message::ChannelEmpty));
    drop(tx);
    assert!(matches!(rx.try_recv_msg(), Message::ChannelDisconnected));
}

#[test]
fn loole_three_way_receive() {
    let (tx, rx) = loole::unbounded();
    tx.send(7usize).unwrap();
    assert!(matches!(rx.try_recv_msg(), Message::Received(7)));
    assert!(matches!(rx.try_recv_msg(), Message::ChannelEmpty));
    drop(tx);
    assert!(matches!(rx.try_recv_msg(), Message::ChannelDisconnected));
}

#[test]
fn kanal_receiver_drains_in_arrival_order() {
    let (tx, rx) = kanal::unbounded();
    for value in [2usize, 7, 1, 8] {
        tx.send(value).unwrap();
    }
    drop(tx);
    assert_eq!(ReceiverIter::iter(rx), vec![2, 7, 1, 8]);
}

#[test]
fn receiver_drains_in_arrival_order() {
    let (tx, rx) = crossbeam_channel::unbounded();
    for value in [3usize, 1, 4, 1, 5] {
        tx.send(value).unwrap();
    }
    drop(tx);
    assert_eq!(ReceiverIter::iter(rx), vec![3, 1, 4, 1, 5]);
}
