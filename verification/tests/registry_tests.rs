use ovpnd::registry::ClientRegistry;
use ovpnd::status::SessionStatus;
use ovpnd::supervisor::StatusEvent;

fn event() -> StatusEvent {
    StatusEvent {
        guid: "g1".to_string(),
        name: "foo".to_string(),
        status: SessionStatus::Running,
    }
}

#[test]
fn ids_are_monotonic_and_never_reused() {
    let mut reg = ClientRegistry::new();
    assert_eq!(reg.add_client(), 1);
    assert_eq!(reg.add_client(), 2);
    assert_eq!(reg.add_client(), 3);
    reg.remove_client(2);
    assert_eq!(reg.clients, vec![1, 3]);
    // The freed id is not handed out again.
    assert_eq!(reg.add_client(), 4);
    assert_eq!(reg.clients, vec![1, 3, 4]);
}

#[test]
fn removing_an_absent_id_is_a_no_op() {
    let mut reg = ClientRegistry::new();
    reg.add_client();
    reg.add_client();
    reg.remove_client(99);
    assert_eq!(reg.clients, vec![1, 2]);
    assert_eq!(reg.last_client_id, 2);
}

#[test]
fn broadcast_reaches_every_client_with_identical_bytes() {
    let mut reg = ClientRegistry::new();
    reg.add_client();
    reg.add_client();
    reg.add_client();
    let frames = reg.broadcast_frames(&event());
    assert_eq!(frames.len(), 3);
    let expected = b"!14:g1:foo:Running\n".to_vec();
    for (i, (id, bytes)) in frames.iter().enumerate() {
        assert_eq!(*id, reg.clients[i]);
        assert_eq!(*bytes, expected);
    }
}

#[test]
fn one_lost_client_does_not_shrink_delivery_to_the_rest() {
    // A client whose connection broke is removed; the next broadcast
    // still carries the identical frame to each remaining client.
    let mut reg = ClientRegistry::new();
    reg.add_client();
    reg.add_client();
    reg.add_client();
    reg.remove_client(2);
    let frames = reg.broadcast_frames(&event());
    assert_eq!(frames.len(), 2);
    assert_eq!(frames[0].0, 1);
    assert_eq!(frames[1].0, 3);
    assert_eq!(frames[0].1, frames[1].1);
}

#[test]
fn broadcast_to_nobody_is_empty() {
    let reg = ClientRegistry::new();
    assert!(reg.broadcast_frames(&event()).is_empty());
}
