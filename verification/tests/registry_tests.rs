use promptforge::registry::StreamState;

#[test]
fn register_hands_back_previous_handle() {
    let mut state: StreamState<u32> = StreamState::new();
    let (id1, prev1) = state.register(11);
    assert_eq!(id1, 1);
    assert!(prev1.is_none());

    let (id2, prev2) = state.register(22);
    assert_eq!(id2, 2);
    assert_eq!(prev2, Some(11));

    assert_eq!(state.take(), Some(22));
    assert_eq!(state.take(), None);
}

#[test]
fn clear_if_is_gated_on_the_id() {
    let mut state: StreamState<u32> = StreamState::new();
    let (id, _) = state.register(7);

    // A stale id is a no-op.
    state.clear_if(id + 1);
    assert_eq!(state.take(), Some(7));

    let (id2, _) = state.register(8);
    // The current id empties the slot.
    state.clear_if(id2);
    // A second call with the same id is a no-op.
    state.clear_if(id2);
    assert_eq!(state.take(), None);
}

#[test]
fn ids_are_distinct_across_registrations() {
    let mut state: StreamState<u32> = StreamState::new();
    let (a, _) = state.register(1);
    let (b, _) = state.register(2);
    let (c, _) = state.register(3);
    assert!(a != b && b != c && a != c);
}

#[test]
fn superseded_cleanup_cannot_clobber_newer_session() {
    let mut state: StreamState<u32> = StreamState::new();
    let (old_id, _) = state.register(1);
    let (_new_id, prev) = state.register(2);
    assert_eq!(prev, Some(1));
    // The late cleanup of the superseded session finds a newer id and
    // leaves the slot alone.
    state.clear_if(old_id);
    assert_eq!(state.take(), Some(2));
}
