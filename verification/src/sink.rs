//! The bounded queue through which matches reach the one who prints them.

use std::collections::VecDeque;
use vstd::prelude::*;

verus! {

/// The state of a sink: the paths that wait in it, oldest first, how many it
/// can hold, and whether it has been closed.
pub struct Channel {
    pub items: Seq<Seq<char>>,
    pub capacity: nat,
    pub closed: bool,
}

/// Why a sink did not take a path. The path is handed back.
#[derive(Debug)]
pub enum Refused {
    /// The sink is full: the path can be offered again once one was taken.
    Full(String),
    /// The sink is closed and takes no more.
    Closed(String),
}

/// What a sink has for its reader.
#[derive(Debug)]
pub enum Received {
    /// The oldest path that was waiting.
    Path(String),
    /// Nothing waits now; more may come.
    Empty,
    /// Nothing waits and nothing will come: the sink is closed and drained.
    End,
}

/// A bounded queue of paths with an end.
pub struct ResultSink {
    items: VecDeque<String>,
    capacity: usize,
    closed: bool,
}

/// The texts of a queue of strings.
pub open spec fn texts(items: Seq<String>) -> Seq<Seq<char>> {
    Seq::new(items.len(), |i: int| items[i]@)
}

impl View for ResultSink {
    type V = Channel;

    closed spec fn view(&self) -> Channel {
        Channel {
            items: texts(self.items@),
            capacity: self.capacity as nat,
            closed: self.closed,
        }
    }
}

impl ResultSink {
    /// A sink holds no more than its capacity, which is not zero.
    pub open spec fn wf(&self) -> bool {
        0 < self@.capacity <= usize::MAX && self@.items.len() <= self@.capacity
    }

    /// An open, empty sink that holds up to `capacity` paths.
    pub fn new(capacity: usize) -> (sink: ResultSink)
        requires
            capacity > 0,
        ensures
            sink.wf(),
            sink@ == (Channel { items: Seq::empty(), capacity: capacity as nat, closed: false }),
    {
        let sink = ResultSink { items: VecDeque::new(), capacity, closed: false };
        assert(sink@.items =~= Seq::empty());
        sink
    }

    /// Puts a path at the end of the queue, unless the sink is closed or
    /// full; then the sink stays as it is and the path comes back.
    pub fn push(&mut self, path: String) -> (taken: Result<(), Refused>)
        requires
            old(self).wf(),
        ensures
            final(self).wf(),
            match taken {
                Ok(()) => {
                    &&& !old(self)@.closed
                    &&& old(self)@.items.len() < old(self)@.capacity
                    &&& final(self)@ == (Channel {
                        items: old(self)@.items.push(path@),
                        ..old(self)@
                    })
                },
                Err(Refused::Closed(back)) => {
                    &&& old(self)@.closed
                    &&& back@ == path@
                    &&& final(self)@ == old(self)@
                },
                Err(Refused::Full(back)) => {
                    &&& !old(self)@.closed
                    &&& old(self)@.items.len() == old(self)@.capacity
                    &&& back@ == path@
                    &&& final(self)@ == old(self)@
                },
            },
    {
        if self.closed {
            Err(Refused::Closed(path))
        } else if self.items.len() >= self.capacity {
            Err(Refused::Full(path))
        } else {
            let ghost text = path@;
            self.items.push_back(path);
            assert(self@.items =~= old(self)@.items.push(text));
            Ok(())
        }
    }

    /// Takes the oldest path out of the queue. An empty sink tells whether
    /// more may come.
    pub fn pop(&mut self) -> (received: Received)
        requires
            old(self).wf(),
        ensures
            final(self).wf(),
            match received {
                Received::Path(path) => {
                    &&& old(self)@.items.len() > 0
                    &&& path@ == old(self)@.items[0]
                    &&& final(self)@ == (Channel {
                        items: old(self)@.items.drop_first(),
                        ..old(self)@
                    })
                },
                Received::Empty => {
                    &&& old(self)@.items.len() == 0
                    &&& !old(self)@.closed
                    &&& final(self)@ == old(self)@
                },
                Received::End => {
                    &&& old(self)@.items.len() == 0
                    &&& old(self)@.closed
                    &&& final(self)@ == old(self)@
                },
            },
    {
        match self.items.pop_front() {
            Some(path) => {
                assert(self@.items =~= old(self)@.items.drop_first());
                Received::Path(path)
            },
            None => {
                assert(self@.items =~= old(self)@.items);
                if self.closed {
                    Received::End
                } else {
                    Received::Empty
                }
            },
        }
    }

    /// Closes the sink: it takes no more paths. Those that wait can still be
    /// taken out. Closing a closed sink changes nothing.
    pub fn close(&mut self)
        requires
            old(self).wf(),
        ensures
            final(self).wf(),
            final(self)@ == (Channel { closed: true, ..old(self)@ }),
    {
        self.closed = true;
    }

    /// The number of paths that wait.
    pub fn len(&self) -> (len: usize)
        requires
            self.wf(),
        ensures
            len == self@.items.len(),
    {
        self.items.len()
    }

    /// The number of paths that the sink can hold.
    pub fn capacity(&self) -> (capacity: usize)
        ensures
            capacity == self@.capacity,
    {
        self.capacity
    }

    /// Whether the sink is closed.
    pub fn is_closed(&self) -> (closed: bool)
        ensures
            closed == self@.closed,
    {
        self.closed
    }
}

} // verus!
