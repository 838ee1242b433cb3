use vstd::prelude::*;

verus! {

/// How many sync commands may wait at once; a producer facing a full queue
/// must wait, never drop.
pub const QUEUE_CAPACITY: usize = 16;

/// A request for the sync worker.
pub enum SyncCommand {
    /// Sync the images in the directory. The first field is the root path and
    /// the second is the relative path inside the root.
    SyncDirectory(Vec<u8>, Vec<u8>),
}

/// The bounded FIFO command queue between request handlers and the single
/// sync worker. Commands leave in the order they entered; a full queue
/// refuses new commands instead of dropping or overwriting pending ones.
pub struct CommandQueue {
    items: Vec<SyncCommand>,
}

impl CommandQueue {
    /// The pending commands, oldest first.
    pub closed spec fn pending(&self) -> Seq<SyncCommand> {
        self.items@
    }

    /// The queue never holds more than `QUEUE_CAPACITY` commands.
    pub closed spec fn wf(&self) -> bool {
        self.items@.len() <= QUEUE_CAPACITY
    }

    /// An empty queue.
    pub fn new() -> (r: Self)
        ensures
            r.wf(),
            r.pending() == Seq::<SyncCommand>::empty(),
    {
        CommandQueue { items: Vec::new() }
    }

    /// How many commands are pending.
    pub fn len(&self) -> (r: usize)
        ensures
            r == self.pending().len(),
    {
        self.items.len()
    }

    /// Offers a command. On a full queue nothing is accepted and nothing
    /// already pending is dropped or overwritten: the caller must wait and
    /// offer the command again once the worker has freed a slot.
    pub fn try_enqueue(&mut self, cmd: SyncCommand) -> (accepted: bool)
        requires
            old(self).wf(),
        ensures
            final(self).wf(),
            old(self).pending().len() == QUEUE_CAPACITY ==> !accepted && final(self).pending()
                == old(self).pending(),
            old(self).pending().len() < QUEUE_CAPACITY ==> accepted && final(self).pending()
                == old(self).pending().push(cmd),
    {
        if self.items.len() == QUEUE_CAPACITY {
            false
        } else {
            self.items.push(cmd);
            true
        }
    }

    /// Takes the oldest pending command, if any.
    pub fn dequeue(&mut self) -> (r: Option<SyncCommand>)
        requires
            old(self).wf(),
        ensures
            final(self).wf(),
            old(self).pending().len() == 0 ==> r is None
                && final(self).pending() == old(self).pending(),
            old(self).pending().len() > 0 ==> r == Some(old(self).pending()[0])
                && final(self).pending() == old(self).pending().skip(1),
    {
        if self.items.len() == 0 {
            None
        } else {
            let cmd = self.items.remove(0);
            proof {
                assert(self.items@ =~= old(self).items@.skip(1));
            }
            Some(cmd)
        }
    }
}

} // verus!
