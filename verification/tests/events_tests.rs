use batch_vm::events::{
    into_user_logs, into_vm_events, EventSink, FrameRecord, RawEvent, UserL2ToL1Log, VmEvent,
};

#[test]
fn a_frame_dies_with_any_frame_above_it() {
    let mut sink = EventSink::new();
    let root = sink.open_frame(None);
    let child = sink.open_frame(Some(root));
    let grandchild = sink.open_frame(Some(child));
    let sibling = sink.open_frame(Some(root));
    assert_eq!((root, child, grandchild, sibling), (0, 1, 2, 3));
    assert!(sink.survives(grandchild));
    sink.mark_reverted(child);
    assert!(sink.survives(root));
    assert!(!sink.survives(child));
    assert!(!sink.survives(grandchild));
    assert!(sink.survives(sibling));
    assert!(!sink.survives(4));
    assert_eq!(sink.frame(child), FrameRecord { parent: Some(0), reverted: true });
    assert_eq!(sink.frame_count(), 4);
}

#[test]
fn merging_keeps_survivors_in_the_order_of_emission() {
    let mut sink = EventSink::new();
    let root = sink.open_frame(None);
    let child = sink.open_frame(Some(root));
    sink.emit(root, 0, false, 1, 10, 100);
    sink.emit(child, 0, false, 1, 11, 101);
    sink.emit(child, 0, true, 2, 12, 102);
    sink.emit(root, 1, true, 2, 13, 103);
    sink.emit(root, 1, false, 1, 14, 104);
    sink.mark_reverted(child);
    assert_eq!(sink.event_count(), 5);
    let (events, messages) = sink.flatten();
    assert_eq!(events.len(), 3);
    assert_eq!(messages.len(), 2);
    assert_eq!(
        events[1],
        RawEvent {
            frame: 1,
            sequence: 1,
            tx_number: 0,
            is_message: false,
            address: 1,
            key: 11,
            value: 101,
        }
    );
    let merged = sink.merge_events(&events);
    let keys: Vec<u64> = merged.iter().map(|event| event.key).collect();
    assert_eq!(keys, vec![10, 14]);
    assert_eq!(
        into_vm_events(&merged, 9),
        vec![
            VmEvent { batch_number: 9, tx_number: 0, address: 1, topic: 10, value: 100 },
            VmEvent { batch_number: 9, tx_number: 1, address: 1, topic: 14, value: 104 },
        ]
    );
    assert_eq!(
        into_user_logs(&sink.merge_events(&messages)),
        vec![UserL2ToL1Log { tx_number: 1, sender: 2, key: 13, value: 103 }]
    );
    let (late_events, late_messages) = sink.flatten_since(3);
    assert_eq!(late_events.len(), 1);
    assert_eq!(late_messages.len(), 1);
    assert_eq!(late_events[0].sequence, 4);
    let (none, nothing) = sink.flatten_since(6);
    assert_eq!(none.len() + nothing.len(), 0);
}

#[test]
fn a_copy_of_the_sink_is_independent() {
    let mut sink = EventSink::new();
    let root = sink.open_frame(None);
    sink.emit(root, 0, false, 1, 1, 1);
    let copy = sink.duplicate();
    sink.emit(root, 0, false, 1, 2, 2);
    sink.mark_reverted(root);
    assert_eq!(copy.event_count(), 1);
    assert!(copy.survives(root));
    assert_eq!(sink.event_count(), 2);
    assert_eq!(sink.merge_events(&sink.flatten().0).len(), 0);
    assert_eq!(into_vm_events(&Vec::new(), 1).len(), 0);
}
