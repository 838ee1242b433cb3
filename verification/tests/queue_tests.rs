use mosaic::queue::{CommandQueue, SyncCommand, QUEUE_CAPACITY};

fn cmd(n: u8) -> SyncCommand {
    SyncCommand::SyncDirectory(b"/data".to_vec(), vec![n])
}

#[test]
fn seventeenth_enqueue_must_wait_not_drop() {
    let mut q = CommandQueue::new();
    for i in 0..QUEUE_CAPACITY {
        assert!(q.try_enqueue(cmd(i as u8)));
    }
    assert_eq!(q.len(), 16);
    // the 17th command is refused: the caller has to wait; nothing pending
    // is dropped or overwritten
    assert!(!q.try_enqueue(cmd(99)));
    assert_eq!(q.len(), 16);
    // everything comes back out in FIFO order, without the refused command
    for i in 0..QUEUE_CAPACITY {
        match q.dequeue() {
            Some(SyncCommand::SyncDirectory(root, rel)) => {
                assert_eq!(root, b"/data".to_vec());
                assert_eq!(rel, vec![i as u8]);
            }
            None => panic!("queue drained early"),
        }
    }
    assert!(q.dequeue().is_none());
}

#[test]
fn dequeue_frees_a_slot() {
    let mut q = CommandQueue::new();
    for i in 0..QUEUE_CAPACITY {
        assert!(q.try_enqueue(cmd(i as u8)));
    }
    assert!(!q.try_enqueue(cmd(100)));
    assert!(q.dequeue().is_some());
    assert!(q.try_enqueue(cmd(100)));
    assert_eq!(q.len(), 16);
}
