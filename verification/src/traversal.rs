//! What a traversal finds, whatever the order in which its units are taken:
//! the matches of a traversal are a function of the tree that it walks.

use crate::finder::Finder;
use crate::visit::{DirectoryStep, FileStep};
use crate::walker::{
    abandoned, begun, can_start, children, consistent, is_place, place, resolved, roots, started,
    taken, Findings, Run, Task, Verdict,
};
use vstd::prelude::*;

verus! {

/// A file tree, as far as a traversal can know it: what can be found out
/// about each path.
pub type World = spec_fn(Seq<char>) -> Findings;

/// What the finder makes of a unit in a world.
pub open spec fn fate(finder: Finder, world: World, task: Task) -> Verdict {
    finder.verdict(task, world(task.path))
}

/// `child` is a unit that comes of `parent`: an entry of that directory,
/// which the finder enters.
pub open spec fn is_child(finder: Finder, world: World, parent: Task, child: Task) -> bool {
    &&& !child.first
    &&& fate(finder, world, parent) matches Verdict::Descend(entries)
    &&& entries.contains(child.path)
}

/// A trail leads from a path that the caller named to a unit, each unit on
/// it coming of the one before.
pub open spec fn is_trail(
    finder: Finder,
    world: World,
    paths: Seq<Seq<char>>,
    trail: Seq<Task>,
) -> bool {
    &&& trail.len() > 0
    &&& trail[0].first
    &&& paths.contains(trail[0].path)
    &&& forall|i: int|
        0 < i < trail.len() ==> is_child(finder, world, trail[i - 1], #[trigger] trail[i])
}

/// A traversal of `paths` comes to the unit `task`.
pub open spec fn reached(finder: Finder, world: World, paths: Seq<Seq<char>>, task: Task) -> bool {
    exists|trail: Seq<Task>| is_trail(finder, world, paths, trail) && trail.last() == task
}

/// The matches of a traversal of `paths`: what the finder reports of the
/// units that the traversal comes to.
pub open spec fn results(finder: Finder, world: World, paths: Seq<Seq<char>>) -> Set<Seq<char>> {
    Set::new(
        |path: Seq<char>|
            exists|task: Task|
                reached(finder, world, paths, task) && fate(finder, world, task)
                    == Verdict::Report(path),
    )
}

/// What the caller of a walker does, one step at a time.
pub enum Step {
    /// Takes the next unit, if the walker hands one out.
    Start,
    /// Ends a unit with what the world holds at its path.
    End(Task),
    /// Takes a match out of the sink.
    Take,
}

/// The state after one step in a world.
pub open spec fn after(finder: Finder, world: World, run: Run, step: Step) -> Run {
    match step {
        Step::Start => if can_start(run) {
            started(run)
        } else {
            run
        },
        Step::End(task) => resolved(run, task, fate(finder, world, task)),
        Step::Take => taken(run),
    }
}

/// The state of a traversal of `paths` after `steps`.
pub open spec fn run_of(
    finder: Finder,
    world: World,
    paths: Seq<Seq<char>>,
    capacity: nat,
    steps: Seq<Step>,
) -> Run
    decreases steps.len(),
{
    if steps.len() == 0 {
        begun(paths, capacity)
    } else {
        after(
            finder,
            world,
            run_of(finder, world, paths, capacity, steps.drop_last()),
            steps.last(),
        )
    }
}

/// A unit waits or is under way.
pub open spec fn awaited(run: Run, task: Task) -> bool {
    run.queue.contains(task) || run.running.contains(task)
}

/// What holds of a traversal in an unchanging world, as long as the reader
/// of the sink stays: it has come only to units that a trail leads to, it has
/// reported exactly what the finder reports of the units that have ended,
/// and every trail either ends in a unit that has ended or passes through one
/// that waits or is under way.
pub open spec fn on_course(finder: Finder, world: World, paths: Seq<Seq<char>>, run: Run) -> bool {
    &&& !run.disconnected
    &&& forall|task: Task| #[trigger]
        awaited(run, task) ==> reached(finder, world, paths, task)
    &&& forall|task: Task| #[trigger]
        run.visited.contains(task) ==> reached(finder, world, paths, task)
    &&& forall|path: Seq<char>| #[trigger]
        run.reported.contains(path) ==> exists|task: Task|
            run.visited.contains(task) && fate(finder, world, task) == Verdict::Report(path)
    &&& forall|task: Task| #[trigger]
        run.visited.contains(task) ==> (fate(finder, world, task) matches Verdict::Report(path)
            ==> run.reported.contains(path))
    &&& forall|trail: Seq<Task>| #[trigger]
        is_trail(finder, world, paths, trail) ==> run.visited.contains(trail.last()) || exists|
            i: int,
        |
            0 <= i < trail.len() && awaited(run, #[trigger] trail[i])
}

/// A trail that goes on to a child of its last unit is a trail.
proof fn lemma_trail_extend(
    finder: Finder,
    world: World,
    paths: Seq<Seq<char>>,
    trail: Seq<Task>,
    child: Task,
)
    requires
        is_trail(finder, world, paths, trail),
        is_child(finder, world, trail.last(), child),
    ensures
        is_trail(finder, world, paths, trail.push(child)),
{
    let longer = trail.push(child);
    assert forall|i: int| 0 < i < longer.len() implies is_child(
        finder,
        world,
        longer[i - 1],
        #[trigger] longer[i],
    ) by {
        if i < trail.len() {
            assert(is_child(finder, world, trail[i - 1], trail[i]));
        }
    }
}

/// Whatever is among some units stays among them when one other unit goes.
proof fn lemma_remove_keeps(tasks: Seq<Task>, i: int, task: Task)
    requires
        0 <= i < tasks.len(),
        tasks.contains(task),
        tasks[i] != task,
    ensures
        tasks.remove(i).contains(task),
{
    let k = choose|k: int| 0 <= k < tasks.len() && tasks[k] == task;
    if k < i {
        assert(tasks.remove(i)[k] == task);
    } else {
        assert(tasks.remove(i)[k - 1] == task);
    }
}

/// What is among some units after one of them went was among them before.
proof fn lemma_remove_held(tasks: Seq<Task>, i: int, task: Task)
    requires
        0 <= i < tasks.len(),
        tasks.remove(i).contains(task),
    ensures
        tasks.contains(task),
{
    let k = choose|k: int| 0 <= k < tasks.remove(i).len() && tasks.remove(i)[k] == task;
    if k < i {
        assert(tasks[k] == task);
    } else {
        assert(tasks[k + 1] == task);
    }
}

/// A traversal begins consistent and on course.
pub proof fn begins_on_course(
    finder: Finder,
    world: World,
    paths: Seq<Seq<char>>,
    capacity: nat,
)
    requires
        capacity > 0,
    ensures
        consistent(begun(paths, capacity)),
        on_course(finder, world, paths, begun(paths, capacity)),
{
    let run = begun(paths, capacity);
    assert(run.reported =~= run.delivered + run.channel.items);
    assert forall|task: Task| #[trigger] awaited(run, task) implies reached(
        finder,
        world,
        paths,
        task,
    ) by {
        let k = choose|k: int| 0 <= k < run.queue.len() && run.queue[k] == task;
        assert(paths[k] == task.path);
        let trail = seq![task];
        assert(is_trail(finder, world, paths, trail));
        assert(trail.last() == task);
    }
    assert forall|trail: Seq<Task>| #[trigger]
        is_trail(finder, world, paths, trail) implies run.visited.contains(trail.last())
        || exists|i: int| 0 <= i < trail.len() && awaited(run, #[trigger] trail[i]) by {
        let k = choose|k: int| 0 <= k < paths.len() && paths[k] == trail[0].path;
        assert(roots(paths)[k] == trail[0]);
        assert(awaited(run, trail[0]));
    }
}

/// Taking a unit keeps a traversal consistent and on course.
pub proof fn start_keeps_course(finder: Finder, world: World, paths: Seq<Seq<char>>, run: Run)
    requires
        consistent(run),
        on_course(finder, world, paths, run),
        can_start(run),
    ensures
        consistent(started(run)),
        on_course(finder, world, paths, started(run)),
{
    let next = started(run);
    let unit = run.queue.last();
    assert forall|task: Task| awaited(next, task) <==> awaited(run, task) by {
        if next.queue.contains(task) {
            let k = choose|k: int| 0 <= k < next.queue.len() && next.queue[k] == task;
            assert(run.queue[k] == task);
        }
        if next.running.contains(task) {
            let k = choose|k: int| 0 <= k < next.running.len() && next.running[k] == task;
            if k < run.running.len() {
                assert(run.running[k] == task);
            } else {
                assert(run.queue[run.queue.len() - 1] == task);
            }
        }
        if run.queue.contains(task) {
            let k = choose|k: int| 0 <= k < run.queue.len() && run.queue[k] == task;
            if k < run.queue.len() - 1 {
                assert(next.queue[k] == task);
            } else {
                assert(next.running[run.running.len() as int] == task);
            }
        }
        if run.running.contains(task) {
            let k = choose|k: int| 0 <= k < run.running.len() && run.running[k] == task;
            assert(next.running[k] == task);
        }
    }
    assert forall|trail: Seq<Task>| #[trigger]
        is_trail(finder, world, paths, trail) implies next.visited.contains(trail.last())
        || exists|i: int| 0 <= i < trail.len() && awaited(next, #[trigger] trail[i]) by {
        if !run.visited.contains(trail.last()) {
            let i = choose|i: int| 0 <= i < trail.len() && awaited(run, #[trigger] trail[i]);
            assert(awaited(next, trail[i]));
        }
    }
}

/// Taking a match out of the sink keeps a traversal consistent and on
/// course.
pub proof fn take_keeps_course(finder: Finder, world: World, paths: Seq<Seq<char>>, run: Run)
    requires
        consistent(run),
        on_course(finder, world, paths, run),
    ensures
        consistent(taken(run)),
        on_course(finder, world, paths, taken(run)),
{
    let next = taken(run);
    if run.channel.items.len() > 0 {
        assert(next.reported =~= next.delivered + next.channel.items);
    }
    assert forall|task: Task| awaited(next, task) <==> awaited(run, task) by {}
    assert forall|trail: Seq<Task>| #[trigger]
        is_trail(finder, world, paths, trail) implies next.visited.contains(trail.last())
        || exists|i: int| 0 <= i < trail.len() && awaited(next, #[trigger] trail[i]) by {
        if !run.visited.contains(trail.last()) {
            let i = choose|i: int| 0 <= i < trail.len() && awaited(run, #[trigger] trail[i]);
            assert(awaited(next, trail[i]));
        }
    }
}

/// Ending a unit keeps a traversal consistent, whatever is made of the unit.
pub proof fn end_keeps_consistent(run: Run, task: Task, verdict: Verdict)
    requires
        consistent(run),
    ensures
        consistent(resolved(run, task, verdict)),
{
    let next = resolved(run, task, verdict);
    if place(run.running, task) is Some {
        let i = place(run.running, task)->0;
        assert(is_place(run.running, task, i));
        assert(next.reported =~= next.delivered + next.channel.items);
    }
}

/// Ending a unit with what the world holds at its path keeps a traversal on
/// course.
pub proof fn end_keeps_course(
    finder: Finder,
    world: World,
    paths: Seq<Seq<char>>,
    run: Run,
    task: Task,
)
    requires
        consistent(run),
        on_course(finder, world, paths, run),
    ensures
        on_course(finder, world, paths, resolved(run, task, fate(finder, world, task))),
{
    let verdict = fate(finder, world, task);
    let next = resolved(run, task, verdict);
    if place(run.running, task) is Some {
        let i = place(run.running, task)->0;
        assert(is_place(run.running, task, i));
        assert(run.running.contains(task));
        assert(awaited(run, task));
        let spawned = match verdict {
            Verdict::Descend(entries) => children(entries),
            _ => Seq::empty(),
        };
        let matches = match verdict {
            Verdict::Report(path) => seq![path],
            _ => Seq::empty(),
        };
        assert(next.queue == run.queue + spawned);
        assert(next.reported == run.reported + matches);
        let to_task = choose|trail: Seq<Task>|
            is_trail(finder, world, paths, trail) && trail.last() == task;

        assert forall|other: Task| #[trigger] awaited(next, other) implies reached(
            finder,
            world,
            paths,
            other,
        ) by {
            if next.running.contains(other) {
                lemma_remove_held(run.running, i, other);
                assert(awaited(run, other));
            } else {
                let k = choose|k: int| 0 <= k < next.queue.len() && next.queue[k] == other;
                if k < run.queue.len() {
                    assert(run.queue[k] == other);
                    assert(awaited(run, other));
                } else {
                    let entries = verdict->Descend_0;
                    let e = k - run.queue.len();
                    assert(spawned[e] == other);
                    assert(entries[e] == other.path);
                    assert(is_child(finder, world, task, other));
                    lemma_trail_extend(finder, world, paths, to_task, other);
                    assert(to_task.push(other).last() == other);
                }
            }
        }
        assert forall|path: Seq<char>| #[trigger] next.reported.contains(path) implies exists|
            other: Task,
        |
            next.visited.contains(other) && fate(finder, world, other) == Verdict::Report(
                path,
            ) by {
            let k = choose|k: int| 0 <= k < next.reported.len() && next.reported[k] == path;
            if k < run.reported.len() {
                assert(run.reported[k] == path);
                assert(run.reported.contains(path));
                let other = choose|other: Task|
                    run.visited.contains(other) && fate(finder, world, other) == Verdict::Report(
                        path,
                    );
                assert(next.visited.contains(other));
            } else {
                assert(next.visited.contains(task));
                assert(fate(finder, world, task) == Verdict::Report(path));
            }
        }
        assert forall|other: Task| #[trigger] next.visited.contains(other) implies (fate(
            finder,
            world,
            other,
        ) matches Verdict::Report(path) ==> next.reported.contains(path)) by {
            if let Verdict::Report(path) = fate(finder, world, other) {
                if run.visited.contains(other) {
                    assert(run.reported.contains(path));
                    let k = choose|k: int| 0 <= k < run.reported.len() && run.reported[k] == path;
                    assert(next.reported[k] == path);
                } else {
                    assert(other == task);
                    assert(next.reported[run.reported.len() as int] == path);
                }
            }
        }
        assert forall|trail: Seq<Task>| #[trigger]
            is_trail(finder, world, paths, trail) implies next.visited.contains(trail.last())
            || exists|j: int| 0 <= j < trail.len() && awaited(next, #[trigger] trail[j]) by {
            if !run.visited.contains(trail.last()) {
                let j = choose|j: int| 0 <= j < trail.len() && awaited(run, #[trigger] trail[j]);
                let at = trail[j];
                if run.queue.contains(at) {
                    let k = choose|k: int| 0 <= k < run.queue.len() && run.queue[k] == at;
                    assert(next.queue[k] == at);
                    assert(awaited(next, trail[j]));
                } else if at != task {
                    lemma_remove_keeps(run.running, i, at);
                    assert(awaited(next, trail[j]));
                } else if j == trail.len() - 1 {
                    assert(next.visited.contains(trail.last()));
                } else {
                    let child = trail[j + 1];
                    assert(is_child(finder, world, trail[j], child));
                    let entries = verdict->Descend_0;
                    let e = choose|e: int| 0 <= e < entries.len() && entries[e] == child.path;
                    assert(spawned[e] == child);
                    assert(next.queue[run.queue.len() + e] == child);
                    assert(awaited(next, trail[j + 1]));
                }
            }
        }
    }
}

/// The steps of a caller keep a traversal consistent and on course.
pub proof fn stays_on_course(
    finder: Finder,
    world: World,
    paths: Seq<Seq<char>>,
    capacity: nat,
    steps: Seq<Step>,
)
    requires
        capacity > 0,
    ensures
        consistent(run_of(finder, world, paths, capacity, steps)),
        on_course(finder, world, paths, run_of(finder, world, paths, capacity, steps)),
    decreases steps.len(),
{
    if steps.len() == 0 {
        begins_on_course(finder, world, paths, capacity);
    } else {
        let before = run_of(finder, world, paths, capacity, steps.drop_last());
        stays_on_course(finder, world, paths, capacity, steps.drop_last());
        match steps.last() {
            Step::Start => {
                if can_start(before) {
                    start_keeps_course(finder, world, paths, before);
                }
            },
            Step::End(task) => {
                end_keeps_consistent(before, task, fate(finder, world, task));
                end_keeps_course(finder, world, paths, before, task);
            },
            Step::Take => {
                take_keeps_course(finder, world, paths, before);
            },
        }
    }
}

/// When a traversal that stayed on course is complete, the sink has taken
/// exactly the matches of the traversal.
pub proof fn complete_run_reports_the_matches(
    finder: Finder,
    world: World,
    paths: Seq<Seq<char>>,
    run: Run,
)
    requires
        consistent(run),
        on_course(finder, world, paths, run),
        run.tracking.closed,
    ensures
        run.reported.to_set() == results(finder, world, paths),
{
    let found = run.reported.to_set();
    let all = results(finder, world, paths);
    assert forall|path: Seq<char>| found.contains(path) implies all.contains(path) by {
        assert(run.reported.contains(path));
        let task = choose|task: Task|
            run.visited.contains(task) && fate(finder, world, task) == Verdict::Report(path);
        assert(reached(finder, world, paths, task));
    }
    assert forall|path: Seq<char>| all.contains(path) implies found.contains(path) by {
        let task = choose|task: Task|
            reached(finder, world, paths, task) && fate(finder, world, task) == Verdict::Report(
                path,
            );
        let trail = choose|trail: Seq<Task>|
            is_trail(finder, world, paths, trail) && trail.last() == task;
        assert(is_trail(finder, world, paths, trail));
        if !run.visited.contains(trail.last()) {
            let i = choose|i: int| 0 <= i < trail.len() && awaited(run, #[trigger] trail[i]);
            assert(run.queue.len() == 0 && run.running.len() == 0);
        }
        assert(run.reported.contains(path));
    }
    assert(found =~= all);
}

/// A complete traversal stays complete: no step of the caller brings a unit
/// back or reports another path, and the sink, once closed, stays closed.
/// The end of a traversal comes once.
pub proof fn complete_run_stays_complete(finder: Finder, world: World, run: Run, step: Step)
    requires
        consistent(run),
        run.tracking.closed,
    ensures
        after(finder, world, run, step).tracking == run.tracking,
        after(finder, world, run, step).queue == run.queue,
        after(finder, world, run, step).running == run.running,
        after(finder, world, run, step).reported == run.reported,
        after(finder, world, run, step).channel.closed,
{
    match step {
        Step::End(task) => {
            if place(run.running, task) is Some {
                let i = place(run.running, task)->0;
                assert(is_place(run.running, task, i));
            }
        },
        _ => {},
    }
}

/// Giving a traversal up keeps it consistent.
pub proof fn abandon_keeps_consistent(run: Run)
    requires
        consistent(run),
    ensures
        consistent(abandoned(run)),
{
}

/// No match is lost on the way: once the sink is drained, its reader has
/// taken every path that the sink took, in the same order.
pub proof fn drained_sink_has_delivered_all(run: Run)
    requires
        consistent(run),
        run.channel.items.len() == 0,
    ensures
        run.delivered == run.reported,
{
    assert(run.delivered + run.channel.items =~= run.delivered);
}

/// What a unit needs to have found out about its path: the kind of the path
/// always; whether the path is hidden, unless the caller named it; the
/// absolute form, for a file that is reported by a finder that reports
/// absolute paths; the entries, for a directory that is entered. A probe that
/// agrees with another in what the unit needs gives the same verdict.
pub open spec fn agree_where_needed(finder: Finder, task: Task, one: Findings, other: Findings) -> bool {
    &&& one.kind == other.kind
    &&& !task.first ==> one.hidden == other.hidden
    &&& finder.full() && finder.classify(task.first, one.kind) is ProcessFile && finder.file_step(
        task.path,
        task.first,
        one.hidden,
    ) == FileStep::Selected ==> one.absolute == other.absolute
    &&& finder.classify(task.first, one.kind) is ProcessDirectory && finder.directory_step(
        task.first,
        one.hidden,
    ) == DirectoryStep::List ==> one.entries == other.entries
}

/// A caller need not find out more about a path than the unit needs: the
/// verdict is the same as with full knowledge.
pub proof fn needed_findings_suffice(finder: Finder, task: Task, one: Findings, other: Findings)
    requires
        agree_where_needed(finder, task, one, other),
    ensures
        finder.verdict(task, one) == finder.verdict(task, other),
{
}

/// Two traversals of the same paths in the same, unchanged tree yield the
/// same set of matches, in whatever order the units of each ended, however
/// much its sink holds and however the reader kept up: once both are
/// complete, the sinks have taken the same paths.
pub proof fn traversal_is_repeatable(
    finder: Finder,
    world: World,
    paths: Seq<Seq<char>>,
    capacity: nat,
    other_capacity: nat,
    steps: Seq<Step>,
    other_steps: Seq<Step>,
)
    requires
        capacity > 0,
        other_capacity > 0,
        run_of(finder, world, paths, capacity, steps).tracking.closed,
        run_of(finder, world, paths, other_capacity, other_steps).tracking.closed,
    ensures
        run_of(finder, world, paths, capacity, steps).reported.to_set() == run_of(
            finder,
            world,
            paths,
            other_capacity,
            other_steps,
        ).reported.to_set(),
        run_of(finder, world, paths, capacity, steps).reported.to_set() == results(
            finder,
            world,
            paths,
        ),
{
    stays_on_course(finder, world, paths, capacity, steps);
    stays_on_course(finder, world, paths, other_capacity, other_steps);
    complete_run_reports_the_matches(
        finder,
        world,
        paths,
        run_of(finder, world, paths, capacity, steps),
    );
    complete_run_reports_the_matches(
        finder,
        world,
        paths,
        run_of(finder, world, paths, other_capacity, other_steps),
    );
}

/// Nothing hidden is a match, and nothing beneath a hidden directory: where
/// the finder leaves hidden entries out, the hidden filter holds none of the
/// units on a trail to a match to be hidden, but for a path that the caller
/// named.
pub proof fn hidden_entries_stay_out(
    finder: Finder,
    world: World,
    paths: Seq<Seq<char>>,
    trail: Seq<Task>,
    path: Seq<char>,
)
    requires
        !finder.include_hidden(),
        is_trail(finder, world, paths, trail),
        fate(finder, world, trail.last()) == Verdict::Report(path),
    ensures
        forall|i: int|
            0 <= i < trail.len() && !(#[trigger] trail[i]).first ==> world(trail[i].path).hidden
                == Some(false),
{
    assert forall|i: int| 0 <= i < trail.len() && !(#[trigger] trail[i]).first implies world(
        trail[i].path,
    ).hidden == Some(false) by {
        if i < trail.len() - 1 {
            assert(is_child(finder, world, trail[i], trail[i + 1]));
        }
    }
}

/// A hidden entry brings nothing forth: where the finder leaves hidden
/// entries out, a unit that the hidden filter holds to be hidden, and that
/// the caller did not name, is neither reported nor entered.
pub proof fn hidden_unit_ends_there(finder: Finder, task: Task, found: Findings)
    requires
        !finder.include_hidden(),
        !task.first,
        found.hidden == Some(true),
    ensures
        !(finder.verdict(task, found) is Report),
        !(finder.verdict(task, found) is Descend),
{
}

/// A finder that stays out of directories comes to the paths that the caller
/// named and to nothing else: every trail ends where it begins.
pub proof fn flat_search_stays_at_the_roots(
    finder: Finder,
    world: World,
    paths: Seq<Seq<char>>,
    trail: Seq<Task>,
)
    requires
        !finder.recurse(),
        is_trail(finder, world, paths, trail),
    ensures
        trail.len() == 1,
        trail.last().first,
        paths.contains(trail.last().path),
{
    if trail.len() > 1 {
        assert(is_child(finder, world, trail[0], trail[1]));
    }
}

/// A finder that stays out of directories makes no unit of any entry.
pub proof fn flat_search_spawns_nothing(finder: Finder, task: Task, found: Findings)
    requires
        !finder.recurse(),
    ensures
        !(finder.verdict(task, found) is Descend),
{
}

} // verus!
