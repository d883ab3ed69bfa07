use rmud::world::{PeerState, RoomEvent, Shared, UserInput};
use tokio::sync::mpsc::{unbounded_channel, UnboundedReceiver};

fn positions(rx: &mut UnboundedReceiver<RoomEvent>) -> Vec<(usize, usize)> {
    match rx.try_recv().expect("an event") {
        RoomEvent::PeerMoved(p) => p,
    }
}

#[test]
fn new_peer_plays_at_origin() {
    let mut world = Shared::new();
    let (tx, _rx) = unbounded_channel();
    world.add_peer(7, tx);
    let p = world.get_peer_data(7).unwrap();
    assert_eq!(p.position(), (0, 0));
    assert_eq!(p.state(), PeerState::Playing);
    assert_eq!(p.addr(), 7);
    assert!(world.get_peer_data(8).is_none());
}

#[test]
fn movement_clamps_at_zero() {
    let mut world = Shared::new();
    let (tx, mut rx) = unbounded_channel();
    world.add_peer(1, tx);
    world.move_peer(1, UserInput::MoveUp);
    world.move_peer(1, UserInput::MoveLeft);
    assert_eq!(world.get_peer_data(1).unwrap().position(), (0, 0));
    world.move_peer(1, UserInput::MoveDown);
    world.move_peer(1, UserInput::MoveRight);
    assert_eq!(world.get_peer_data(1).unwrap().position(), (1, 1));
    assert_eq!(positions(&mut rx), vec![(0, 0)]);
    assert_eq!(positions(&mut rx), vec![(0, 0)]);
    assert_eq!(positions(&mut rx), vec![(0, 1)]);
    assert_eq!(positions(&mut rx), vec![(1, 1)]);
    assert!(rx.try_recv().is_err());
}

#[test]
fn action_reaches_every_peer() {
    let mut world = Shared::new();
    let (tx_a, mut rx_a) = unbounded_channel();
    let (tx_b, mut rx_b) = unbounded_channel();
    world.add_peer(10, tx_a);
    world.add_peer(20, tx_b);
    world.move_peer(20, UserInput::MoveRight);
    world.move_peer(10, UserInput::MoveDown);
    assert_eq!(positions(&mut rx_a), vec![(0, 0), (1, 0)]);
    assert_eq!(positions(&mut rx_a), vec![(0, 1), (1, 0)]);
    assert_eq!(positions(&mut rx_b), vec![(0, 0), (1, 0)]);
    assert_eq!(positions(&mut rx_b), vec![(0, 1), (1, 0)]);
}

#[test]
fn removed_peer_leaves_events() {
    let mut world = Shared::new();
    let (tx_a, mut rx_a) = unbounded_channel();
    let (tx_b, rx_b) = unbounded_channel();
    world.add_peer(1, tx_a);
    world.add_peer(2, tx_b);
    world.move_peer(2, UserInput::MoveDown);
    assert_eq!(positions(&mut rx_a), vec![(0, 0), (0, 1)]);
    world.remove_peer(2);
    drop(rx_b);
    assert!(world.get_peer_data(2).is_none());
    world.move_peer(1, UserInput::MoveRight);
    assert_eq!(positions(&mut rx_a), vec![(1, 0)]);
}

#[test]
fn closed_channel_does_not_stop_broadcast() {
    let mut world = Shared::new();
    let (tx_a, rx_a) = unbounded_channel();
    let (tx_b, mut rx_b) = unbounded_channel();
    world.add_peer(1, tx_a);
    world.add_peer(2, tx_b);
    drop(rx_a);
    world.move_peer(1, UserInput::Quit);
    assert_eq!(positions(&mut rx_b), vec![(0, 0), (0, 0)]);
}

#[test]
fn re_adding_an_id_resets_it() {
    let mut world = Shared::new();
    let (tx, _rx) = unbounded_channel();
    world.add_peer(3, tx);
    world.move_peer(3, UserInput::MoveDown);
    let (tx2, mut rx2) = unbounded_channel();
    world.add_peer(3, tx2);
    assert_eq!(world.get_peer_data(3).unwrap().position(), (0, 0));
    world.move_peer(3, UserInput::MoveRight);
    assert_eq!(positions(&mut rx2), vec![(1, 0)]);
}

#[test]
fn room_event_duplicate_is_equal() {
    let ev = RoomEvent::PeerMoved(vec![(4, 5), (6, 7)]);
    match ev.duplicate() {
        RoomEvent::PeerMoved(p) => assert_eq!(p, vec![(4, 5), (6, 7)]),
    }
}

#[test]
fn peer_data_mut_is_the_entry() {
    let mut world = Shared::new();
    let (tx, _rx) = unbounded_channel();
    world.add_peer(5, tx);
    world.move_peer(5, UserInput::MoveDown);
    assert_eq!(world.get_peer_data_mut(5).position(), (0, 1));
}
