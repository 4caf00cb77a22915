//! The traversal as a whole: the units that wait, those that are under way,
//! the count of both, and the sink that takes the matches.
//!
//! The walker does no input or output. Its caller takes a unit, finds out
//! what the file system holds at the unit's path, and hands that back; the
//! walker decides what follows.

use crate::finder::Finder;
use crate::sink::{Channel, Received, ResultSink};
use crate::tracker::{CompletionTracker, Tracking};
use crate::visit::{Classified, DirectoryStep, EntryKind, FileStep};
use vstd::prelude::*;

verus! {

/// A unit of the traversal as the contracts see it: one path, and whether
/// the caller named it.
pub struct Task {
    pub path: Seq<char>,
    pub first: bool,
}

/// A unit of the traversal: one path to classify and process.
#[derive(Debug)]
pub struct Unit {
    pub path: String,
    /// Whether the caller named the path, rather than the traversal coming
    /// upon it in a directory.
    pub first: bool,
}

impl View for Unit {
    type V = Task;

    open spec fn view(&self) -> Task {
        Task { path: self.path@, first: self.first }
    }
}

/// What was found out about a path, as the contracts see it.
pub struct Findings {
    pub kind: Option<EntryKind>,
    pub hidden: Option<bool>,
    pub absolute: Option<Seq<char>>,
    pub entries: Option<Seq<Seq<char>>>,
}

/// What the caller found out about the path of a unit. A part that could not
/// be had, or that the unit does not need, is `None`.
#[derive(Debug)]
pub struct Probe {
    /// What the path's metadata says it is.
    pub kind: Option<EntryKind>,
    /// Whether the hidden filter holds the path to be hidden.
    pub hidden: Option<bool>,
    /// The path in absolute form.
    pub absolute: Option<String>,
    /// The paths of the entries of the directory.
    pub entries: Option<Vec<String>>,
}

/// The texts of a list of strings.
pub open spec fn paths_of(entries: Seq<String>) -> Seq<Seq<char>> {
    Seq::new(entries.len(), |i: int| entries[i]@)
}

impl View for Probe {
    type V = Findings;

    open spec fn view(&self) -> Findings {
        Findings {
            kind: self.kind,
            hidden: self.hidden,
            absolute: match self.absolute {
                Some(path) => Some(path@),
                None => None,
            },
            entries: match self.entries {
                Some(entries) => Some(paths_of(entries@)),
                None => None,
            },
        }
    }
}

/// What could not be found out about a path.
#[derive(Clone, Copy, Debug, PartialEq, Eq, Structural)]
pub enum Failure {
    /// The metadata of the path.
    Metadata,
    /// Whether the path is hidden.
    Hidden,
    /// The absolute form of the path.
    Absolute,
    /// The entries of the directory.
    Listing,
}

/// What the finder makes of a unit, given what was found out about its path.
pub enum Verdict {
    /// The unit ends with a warning: something could not be found out.
    Failed(Failure),
    /// The path is nothing that the search handles.
    Invalid,
    /// The path is hidden and is passed over.
    Ignored,
    /// The path is a file without a name to go by.
    Unnamed,
    /// The path is a file that is not reported.
    Unmatched,
    /// The path is a file that is reported, in this form.
    Report(Seq<char>),
    /// The path is a directory whose entries, these, become units.
    Descend(Seq<Seq<char>>),
}

/// How a unit ended.
#[derive(Clone, Copy, Debug, PartialEq, Eq, Structural)]
pub enum Outcome {
    /// With a warning: something could not be found out about the path.
    Failed(Failure),
    /// The path is nothing that the search handles.
    Invalid,
    /// The path is hidden and was passed over.
    Ignored,
    /// The path is a file without a name to go by.
    Unnamed,
    /// The path is a file that is not reported.
    Unmatched,
    /// The path is a file and went to the sink.
    Reported,
    /// The path is a directory and its entries became units.
    Descended,
    /// The reader of the sink is gone: the traversal is given up.
    Fatal,
}

impl Finder {
    /// What the finder makes of a unit, given what was found out about its
    /// path.
    pub open spec fn verdict(&self, task: Task, found: Findings) -> Verdict {
        match self.classify(task.first, found.kind) {
            Classified::Failed => Verdict::Failed(Failure::Metadata),
            Classified::Invalid => Verdict::Invalid,
            Classified::ProcessFile { .. } => match self.file_step(
                task.path,
                task.first,
                found.hidden,
            ) {
                FileStep::Failed => Verdict::Failed(Failure::Hidden),
                FileStep::Ignored => Verdict::Ignored,
                FileStep::Unnamed => Verdict::Unnamed,
                FileStep::Unmatched => Verdict::Unmatched,
                FileStep::Selected => if self.full() {
                    match found.absolute {
                        Some(path) => Verdict::Report(path),
                        None => Verdict::Failed(Failure::Absolute),
                    }
                } else {
                    Verdict::Report(task.path)
                },
            },
            Classified::ProcessDirectory { .. } => match self.directory_step(
                task.first,
                found.hidden,
            ) {
                DirectoryStep::Failed => Verdict::Failed(Failure::Hidden),
                DirectoryStep::Ignored => Verdict::Ignored,
                DirectoryStep::List => match found.entries {
                    Some(entries) => Verdict::Descend(entries),
                    None => Verdict::Failed(Failure::Listing),
                },
            },
        }
    }
}

/// What the finder makes of a unit, with the paths that go on from it.
#[derive(Debug)]
pub enum Decision {
    /// The unit ends with a warning: something could not be found out.
    Failed(Failure),
    /// The path is nothing that the search handles.
    Invalid,
    /// The path is hidden and is passed over.
    Ignored,
    /// The path is a file without a name to go by.
    Unnamed,
    /// The path is a file that is not reported.
    Unmatched,
    /// The path is a file that is reported, in this form.
    Report(String),
    /// The path is a directory whose entries, these, become units.
    Descend(Vec<String>),
}

impl View for Decision {
    type V = Verdict;

    open spec fn view(&self) -> Verdict {
        match self {
            Decision::Failed(failure) => Verdict::Failed(*failure),
            Decision::Invalid => Verdict::Invalid,
            Decision::Ignored => Verdict::Ignored,
            Decision::Unnamed => Verdict::Unnamed,
            Decision::Unmatched => Verdict::Unmatched,
            Decision::Report(path) => Verdict::Report(path@),
            Decision::Descend(entries) => Verdict::Descend(paths_of(entries@)),
        }
    }
}

impl Finder {
    /// Decides what becomes of a unit, given what was found out about its
    /// path: the classification of the path, then the processing of the file
    /// or of the directory.
    pub fn visit(&self, unit: &Unit, probe: Probe) -> (decision: Decision)
        ensures
            decision@ == self.verdict(unit@, probe@),
    {
        let Probe { kind, hidden, absolute, entries } = probe;
        match self.find_in_directory_impl(unit.first, kind) {
            Classified::Failed => Decision::Failed(Failure::Metadata),
            Classified::Invalid => Decision::Invalid,
            Classified::ProcessFile { first } => match self.process_file(
                unit.path.as_str(),
                first,
                hidden,
            ) {
                FileStep::Failed => Decision::Failed(Failure::Hidden),
                FileStep::Ignored => Decision::Ignored,
                FileStep::Unnamed => Decision::Unnamed,
                FileStep::Unmatched => Decision::Unmatched,
                FileStep::Selected => if self.is_full() {
                    match absolute {
                        Some(path) => Decision::Report(path),
                        None => Decision::Failed(Failure::Absolute),
                    }
                } else {
                    Decision::Report(unit.path.clone())
                },
            },
            Classified::ProcessDirectory { first } => match self.process_directory_impl(
                first,
                hidden,
            ) {
                DirectoryStep::Failed => Decision::Failed(Failure::Hidden),
                DirectoryStep::Ignored => Decision::Ignored,
                DirectoryStep::List => match entries {
                    Some(entries) => Decision::Descend(entries),
                    None => Decision::Failed(Failure::Listing),
                },
            },
        }
    }
}

/// The state of a traversal.
pub struct Run {
    /// The units that wait to be taken, the next one last.
    pub queue: Seq<Task>,
    /// The units that were taken and have not ended.
    pub running: Seq<Task>,
    /// The count of the units that have not ended.
    pub tracking: Tracking,
    /// The sink.
    pub channel: Channel,
    /// Whether the reader of the sink is gone.
    pub disconnected: bool,
    /// The units that have ended.
    pub visited: Set<Task>,
    /// Every path that the sink took, in the order in which it took them.
    pub reported: Seq<Seq<char>>,
    /// Every path that the reader took out of the sink, in that order.
    pub delivered: Seq<Seq<char>>,
}

/// The units that the entries of a directory become.
pub open spec fn children(entries: Seq<Seq<char>>) -> Seq<Task> {
    Seq::new(entries.len(), |i: int| Task { path: entries[i], first: false })
}

/// The units that the paths which the caller named become.
pub open spec fn roots(paths: Seq<Seq<char>>) -> Seq<Task> {
    Seq::new(paths.len(), |i: int| Task { path: paths[i], first: true })
}

/// `i` is the place of the first `task` among `tasks`.
pub open spec fn is_place(tasks: Seq<Task>, task: Task, i: int) -> bool {
    &&& 0 <= i < tasks.len()
    &&& tasks[i] == task
    &&& forall|j: int| 0 <= j < i ==> tasks[j] != task
}

/// The place of the first `task` among `tasks`, if it is among them.
pub open spec fn place(tasks: Seq<Task>, task: Task) -> Option<int> {
    if exists|i: int| is_place(tasks, task, i) {
        Some(choose|i: int| is_place(tasks, task, i))
    } else {
        None
    }
}

/// A unit has at most one first place among others; `place` is that place.
pub proof fn lemma_place_unique(tasks: Seq<Task>, task: Task, i: int)
    requires
        is_place(tasks, task, i),
    ensures
        place(tasks, task) == Some(i),
{
    let k = choose|k: int| is_place(tasks, task, k);
    assert(is_place(tasks, task, k));
    if k < i {
        assert(tasks[k] != task);
    } else if i < k {
        assert(tasks[i] != task);
    }
}

/// What holds of every state of a traversal: each unit that has not ended
/// is counted, the traversal is complete exactly when none is left, the sink
/// has room for a match of each unit under way, it is closed exactly when
/// the traversal is complete or its reader is gone, and it holds what it took
/// and the reader has not taken: no match is lost.
pub open spec fn consistent(run: Run) -> bool {
    &&& run.tracking.pending == run.queue.len() + run.running.len()
    &&& run.tracking.closed == (run.tracking.pending == 0)
    &&& 0 < run.channel.capacity
    &&& run.running.len() + run.channel.items.len() <= run.channel.capacity
    &&& run.channel.closed == (run.tracking.closed || run.disconnected)
    &&& run.disconnected ==> run.queue.len() == 0
    &&& run.reported == run.delivered + run.channel.items
}

/// The count covers every unit: as long as one waits or is under way the
/// count is above zero and the traversal is not complete, and the sink stays
/// open unless its reader is gone.
pub proof fn count_covers_every_unit(run: Run)
    requires
        consistent(run),
        run.queue.len() > 0 || run.running.len() > 0,
    ensures
        run.tracking.pending > 0,
        !run.tracking.closed,
        !run.disconnected ==> !run.channel.closed,
{
}

/// A traversal that is not complete can go on: a unit can be taken, or one
/// is under way and will end, or the reader can take a match out of the sink
/// and so make room. It never comes to a stop with work left.
pub proof fn unfinished_run_can_go_on(run: Run)
    requires
        consistent(run),
        !run.tracking.closed,
    ensures
        can_start(run) || run.running.len() > 0 || run.channel.items.len() > 0,
{
}

/// The state in which a traversal begins: the paths that the caller named
/// wait as units, and the sink is open and empty, unless there is no path.
pub open spec fn begun(paths: Seq<Seq<char>>, capacity: nat) -> Run {
    Run {
        queue: roots(paths),
        running: Seq::empty(),
        tracking: Tracking { pending: paths.len(), closed: paths.len() == 0 },
        channel: Channel { items: Seq::empty(), capacity, closed: paths.len() == 0 },
        disconnected: false,
        visited: Set::empty(),
        reported: Seq::empty(),
        delivered: Seq::empty(),
    }
}

/// Whether a unit can be taken: one waits, and the sink has room for its
/// match beside those of the units under way.
pub open spec fn can_start(run: Run) -> bool {
    &&& run.queue.len() > 0
    &&& run.running.len() + run.channel.items.len() < run.channel.capacity
}

/// The state after the next unit was taken.
pub open spec fn started(run: Run) -> Run {
    Run { queue: run.queue.drop_last(), running: run.running.push(run.queue.last()), ..run }
}

/// The state after a unit under way has ended, given what the finder makes
/// of it. Its match goes to the sink, its entries wait as units, and with
/// the last unit the sink is closed. Once the reader is gone, units only end.
/// A unit that is not under way changes nothing.
pub open spec fn resolved(run: Run, task: Task, verdict: Verdict) -> Run {
    match place(run.running, task) {
        None => run,
        Some(i) => {
            let spawned = match verdict {
                Verdict::Descend(entries) if !run.disconnected => children(entries),
                _ => Seq::empty(),
            };
            let matches = match verdict {
                Verdict::Report(path) if !run.disconnected => seq![path],
                _ => Seq::empty(),
            };
            let pending = (run.tracking.pending + spawned.len() - 1) as nat;
            Run {
                queue: run.queue + spawned,
                running: run.running.remove(i),
                tracking: Tracking { pending, closed: pending == 0 },
                channel: Channel {
                    items: run.channel.items + matches,
                    closed: run.channel.closed || pending == 0,
                    ..run.channel
                },
                disconnected: run.disconnected,
                visited: run.visited.insert(task),
                reported: run.reported + matches,
                delivered: run.delivered,
            }
        },
    }
}

/// How a unit ends, given what the finder makes of it.
pub open spec fn outcome_of(verdict: Verdict, disconnected: bool) -> Outcome {
    if disconnected {
        Outcome::Fatal
    } else {
        match verdict {
            Verdict::Failed(failure) => Outcome::Failed(failure),
            Verdict::Invalid => Outcome::Invalid,
            Verdict::Ignored => Outcome::Ignored,
            Verdict::Unnamed => Outcome::Unnamed,
            Verdict::Unmatched => Outcome::Unmatched,
            Verdict::Report(_) => Outcome::Reported,
            Verdict::Descend(_) => Outcome::Descended,
        }
    }
}

/// The state after the reader took the oldest match out of the sink.
pub open spec fn taken(run: Run) -> Run {
    if run.channel.items.len() > 0 {
        Run {
            channel: Channel { items: run.channel.items.drop_first(), ..run.channel },
            delivered: run.delivered.push(run.channel.items[0]),
            ..run
        }
    } else {
        run
    }
}

/// The state after the reader of the sink went away: the sink is closed, the
/// units that wait are dropped, and those under way are left to end.
pub open spec fn abandoned(run: Run) -> Run {
    Run {
        queue: Seq::empty(),
        tracking: Tracking { pending: run.running.len(), closed: run.running.len() == 0 },
        channel: Channel { closed: true, ..run.channel },
        disconnected: true,
        ..run
    }
}

/// What the walker has for a caller that asks for work.
#[derive(Debug)]
pub enum Turn {
    /// A unit to look at.
    Start(Unit),
    /// Units wait, but the sink has no room for another match: the reader
    /// has to take one out first, or a unit under way has to end.
    Blocked,
    /// No unit waits; some are under way and may bring more.
    Idle,
    /// Every unit has ended, or the reader is gone and none is under way.
    Finished,
}

/// The scheduler of a traversal.
pub struct Walker {
    finder: Finder,
    queue: Vec<Unit>,
    running: Vec<Unit>,
    tracker: CompletionTracker,
    sink: ResultSink,
    disconnected: bool,
    visited: Ghost<Set<Task>>,
    reported: Ghost<Seq<Seq<char>>>,
    delivered: Ghost<Seq<Seq<char>>>,
}

/// The units of a list as the contracts see them.
pub open spec fn tasks_of(units: Seq<Unit>) -> Seq<Task> {
    Seq::new(units.len(), |i: int| units[i]@)
}

impl View for Walker {
    type V = Run;

    closed spec fn view(&self) -> Run {
        Run {
            queue: tasks_of(self.queue@),
            running: tasks_of(self.running@),
            tracking: self.tracker@,
            channel: self.sink@,
            disconnected: self.disconnected,
            visited: self.visited@,
            reported: self.reported@,
            delivered: self.delivered@,
        }
    }
}

/// A copy of a unit.
fn copy_of(unit: &Unit) -> (copy: Unit)
    ensures
        copy@ == unit@,
{
    Unit { path: unit.path.clone(), first: unit.first }
}

impl Walker {
    /// The number of matches that the sink of a traversal holds at most.
    pub const CAPACITY: usize = 512;

    /// The finder that decides for this traversal.
    pub closed spec fn finder(&self) -> Finder {
        self.finder
    }

    /// The walker's parts fit together.
    pub closed spec fn wf(&self) -> bool {
        &&& self.tracker.wf()
        &&& self.sink.wf()
        &&& consistent(self@)
    }

    /// The state of a walker whose parts fit together is consistent.
    pub proof fn wf_is_consistent(&self)
        requires
            self.wf(),
        ensures
            consistent(self@),
    {
    }

    /// Begins a traversal of the paths that the caller named, with a sink
    /// that holds up to `capacity` matches.
    pub fn new(finder: Finder, paths: Vec<String>, capacity: usize) -> (walker: Walker)
        requires
            capacity > 0,
        ensures
            walker.wf(),
            walker.finder() == finder,
            walker@ == begun(paths_of(paths@), capacity as nat),
    {
        let mut tracker = CompletionTracker::new();
        let mut sink = ResultSink::new(capacity);
        let mut queue: Vec<Unit> = Vec::new();
        let mut i: usize = 0;
        while i < paths.len()
            invariant
                i <= paths.len(),
                tracker.wf(),
                tracker@ == (Tracking { pending: i as nat, closed: false }),
                queue@.len() == i,
                forall|j: int|
                    0 <= j < i ==> (#[trigger] queue@[j])@ == (Task { path: paths@[j]@, first: true }),
            decreases paths.len() - i,
        {
            tracker.enter();
            queue.push(Unit { path: paths[i].clone(), first: true });
            i = i + 1;
        }
        if tracker.close_if_idle() {
            sink.close();
        }
        let walker = Walker {
            finder,
            queue,
            running: Vec::new(),
            tracker,
            sink,
            disconnected: false,
            visited: Ghost(Set::empty()),
            reported: Ghost(Seq::empty()),
            delivered: Ghost(Seq::empty()),
        };
        proof {
            assert(walker@.queue =~= roots(paths_of(paths@)));
            assert(walker@.running =~= Seq::empty());
            assert(walker@.reported =~= walker@.delivered + walker@.channel.items);
        }
        walker
    }

    /// The finder that decides for this traversal.
    pub fn as_finder(&self) -> (finder: &Finder)
        ensures
            *finder == self.finder(),
    {
        &self.finder
    }

    /// Whether the traversal is over: every unit has ended.
    pub fn is_finished(&self) -> (finished: bool)
        requires
            self.wf(),
        ensures
            finished == self@.tracking.closed,
    {
        self.tracker.is_closed()
    }

    /// Hands out the next unit, if one waits and the sink has room for its
    /// match; else tells what the caller has to wait for.
    pub fn next_unit(&mut self) -> (turn: Turn)
        requires
            old(self).wf(),
        ensures
            final(self).wf(),
            final(self).finder() == old(self).finder(),
            match turn {
                Turn::Start(unit) => {
                    &&& can_start(old(self)@)
                    &&& unit@ == old(self)@.queue.last()
                    &&& final(self)@ == started(old(self)@)
                },
                Turn::Blocked => {
                    &&& old(self)@.queue.len() > 0
                    &&& !can_start(old(self)@)
                    &&& final(self)@ == old(self)@
                },
                Turn::Idle => {
                    &&& old(self)@.queue.len() == 0
                    &&& old(self)@.running.len() > 0
                    &&& final(self)@ == old(self)@
                },
                Turn::Finished => {
                    &&& old(self)@.tracking.closed
                    &&& final(self)@ == old(self)@
                },
            },
    {
        if self.tracker.is_closed() {
            return Turn::Finished;
        }
        if self.queue.len() == 0 {
            return Turn::Idle;
        }
        if self.running.len() >= self.sink.capacity() - self.sink.len() {
            return Turn::Blocked;
        }
        let unit = self.queue.pop().unwrap();
        let copy = copy_of(&unit);
        self.running.push(unit);
        proof {
            assert(self@.queue =~= old(self)@.queue.drop_last());
            assert(self@.running =~= old(self)@.running.push(old(self)@.queue.last()));
        }
        Turn::Start(copy)
    }

    /// The place of the first unit under way that equals `unit`.
    fn place_of(&self, unit: &Unit) -> (found: Option<usize>)
        ensures
            match found {
                Some(i) => place(self@.running, unit@) == Some(i as int) && i < self.running@.len(),
                None => place(self@.running, unit@) is None,
            },
    {
        let mut i: usize = 0;
        while i < self.running.len()
            invariant
                i <= self.running.len(),
                forall|j: int| 0 <= j < i ==> tasks_of(self.running@)[j] != unit@,
            decreases self.running.len() - i,
        {
            if self.running[i].first == unit.first && self.running[i].path == unit.path {
                proof {
                    assert(self.running@[i as int]@.path =~= unit@.path);
                    assert(is_place(self@.running, unit@, i as int));
                    lemma_place_unique(self@.running, unit@, i as int);
                }
                return Some(i);
            }
            i = i + 1;
        }
        proof {
            if exists|k: int| is_place(self@.running, unit@, k) {
                let k = choose|k: int| is_place(self@.running, unit@, k);
                assert(tasks_of(self.running@)[k] == unit@);
            }
        }
        None
    }

    /// Ends a unit under way, given what the caller found out about its path.
    /// The finder decides what becomes of it: a file that it reports goes to
    /// the sink, the entries of a directory that it enters wait as units, and
    /// when the last unit ends the sink is closed. The result tells how the
    /// unit ended, or is `None` where no such unit is under way.
    pub fn resolve(&mut self, unit: &Unit, probe: Probe) -> (outcome: Option<Outcome>)
        requires
            old(self).wf(),
        ensures
            final(self).wf(),
            final(self).finder() == old(self).finder(),
            final(self)@ == resolved(
                old(self)@,
                unit@,
                old(self).finder().verdict(unit@, probe@),
            ),
            outcome == match place(old(self)@.running, unit@) {
                Some(_) => Some(
                    outcome_of(
                        old(self).finder().verdict(unit@, probe@),
                        old(self)@.disconnected,
                    ),
                ),
                None => None,
            },
    {
        let found = self.place_of(unit);
        let i = match found {
            Some(i) => i,
            None => {
                return None;
            },
        };
        let ghost before = self@;
        let ghost verdict = self.finder.verdict(unit@, probe@);
        let decision = self.finder.visit(unit, probe);
        self.running.remove(i);
        proof {
            assert(self@.running =~= before.running.remove(i as int));
            self.visited@ = self.visited@.insert(unit@);
        }
        let outcome = if self.disconnected {
            Outcome::Fatal
        } else {
            match decision {
                Decision::Failed(failure) => Outcome::Failed(failure),
                Decision::Invalid => Outcome::Invalid,
                Decision::Ignored => Outcome::Ignored,
                Decision::Unnamed => Outcome::Unnamed,
                Decision::Unmatched => Outcome::Unmatched,
                Decision::Report(path) => {
                    let ghost text = path@;
                    let pushed = self.sink.push(path);
                    proof {
                        assert(pushed is Ok);
                        self.reported@ = self.reported@.push(text);
                        assert(self@.channel.items =~= before.channel.items + seq![text]);
                        assert(self@.reported =~= before.reported + seq![text]);
                    }
                    Outcome::Reported
                },
                Decision::Descend(entries) => {
                    self.spawn(&entries);
                    Outcome::Descended
                },
            }
        };
        let last = self.tracker.leave();
        if last {
            self.sink.close();
        }
        proof {
            let after = resolved(before, unit@, verdict);
            assert(self@.queue =~= after.queue);
            assert(self@.channel.items =~= after.channel.items);
            assert(self@.reported =~= after.reported);
            assert(self@.reported =~= self@.delivered + self@.channel.items);
        }
        Some(outcome)
    }

    /// Makes a unit of each entry of a directory, counts it and lets it wait.
    fn spawn(&mut self, entries: &Vec<String>)
        requires
            old(self).tracker.wf(),
            !old(self).tracker@.closed,
            old(self).tracker@.pending <= old(self).queue@.len() + old(self).running@.len() + 1,
        ensures
            final(self).tracker.wf(),
            final(self).tracker@ == (Tracking {
                pending: old(self).tracker@.pending + entries@.len() as nat,
                closed: false,
            }),
            final(self)@.queue == old(self)@.queue + children(paths_of(entries@)),
            final(self).finder == old(self).finder,
            final(self).running == old(self).running,
            final(self).sink == old(self).sink,
            final(self).disconnected == old(self).disconnected,
            final(self).visited == old(self).visited,
            final(self).reported == old(self).reported,
            final(self).delivered == old(self).delivered,
    {
        let mut k: usize = 0;
        proof {
            assert(self@.queue =~= old(self)@.queue + children(paths_of(entries@)).take(0));
        }
        while k < entries.len()
            invariant
                k <= entries.len(),
                self.tracker.wf(),
                self.tracker@ == (Tracking {
                    pending: old(self).tracker@.pending + k as nat,
                    closed: false,
                }),
                self.tracker@.pending <= self.queue@.len() + self.running@.len() + 1,
                self@.queue == old(self)@.queue + children(paths_of(entries@)).take(k as int),
                self.finder == old(self).finder,
                self.running == old(self).running,
                self.sink == old(self).sink,
                self.disconnected == old(self).disconnected,
                self.visited == old(self).visited,
                self.reported == old(self).reported,
                self.delivered == old(self).delivered,
            decreases entries.len() - k,
        {
            let ghost queue = self@.queue;
            assert(self.tracker@.pending < CompletionTracker::LIMIT) by {
                assert(self.queue.len() <= u64::MAX && self.running.len() <= u64::MAX);
            }
            self.tracker.enter();
            self.queue.push(Unit { path: entries[k].clone(), first: false });
            proof {
                let all = children(paths_of(entries@));
                assert(self@.queue =~= queue.push(all[k as int]));
                assert(all.take(k + 1) =~= all.take(k as int).push(all[k as int]));
                assert(self@.queue =~= old(self)@.queue + all.take(k + 1));
            }
            k = k + 1;
        }
        proof {
            let all = children(paths_of(entries@));
            assert(all.take(k as int) =~= all);
        }
    }

    /// Tells the walker that the reader of the sink is gone. The sink is
    /// closed, the units that wait are dropped, and those under way are left
    /// to end.
    pub fn disconnect(&mut self)
        requires
            old(self).wf(),
        ensures
            final(self).wf(),
            final(self).finder() == old(self).finder(),
            final(self)@ == abandoned(old(self)@),
    {
        while self.queue.len() > 0
            invariant
                self.tracker.wf(),
                self.sink.wf(),
                self.tracker@.pending == self.queue@.len() + self.running@.len(),
                self.tracker@.closed == (self.tracker@.pending == 0),
                self.finder == old(self).finder,
                self.running == old(self).running,
                self.sink == old(self).sink,
                self.visited == old(self).visited,
                self.reported == old(self).reported,
                self.delivered == old(self).delivered,
            decreases self.queue.len(),
        {
            self.queue.pop();
            self.tracker.leave();
        }
        self.tracker.close_if_idle();
        self.sink.close();
        self.disconnected = true;
        proof {
            assert(self@.queue =~= Seq::<Task>::empty());
        }
    }

    /// Takes the oldest match out of the sink.
    pub fn take_result(&mut self) -> (received: Received)
        requires
            old(self).wf(),
        ensures
            final(self).wf(),
            final(self).finder() == old(self).finder(),
            final(self)@ == taken(old(self)@),
            match received {
                Received::Path(path) => old(self)@.channel.items.len() > 0 && path@ == old(
                    self,
                )@.channel.items[0],
                Received::Empty => old(self)@.channel.items.len() == 0 && !old(
                    self,
                )@.channel.closed,
                Received::End => old(self)@.channel.items.len() == 0 && old(self)@.channel.closed,
            },
    {
        let received = self.sink.pop();
        proof {
            if old(self)@.channel.items.len() > 0 {
                let first = old(self)@.channel.items[0];
                self.delivered@ = self.delivered@.push(first);
                assert(old(self)@.channel.items =~= seq![first] + self@.channel.items);
                assert(self@.reported =~= self@.delivered + self@.channel.items);
            }
        }
        received
    }
}

} // verus!
