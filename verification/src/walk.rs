//! Working through a directory tree, one directory or file after the other.

use crate::listing::{
    every_audio_file_is_planned, every_directory_is_planned, ids_by_name, is_audio_file,
    is_ordering, is_subdirectory, name_less, names_of, order_of, ordering_exists, plan_directory,
    DirEntry, DirPlan, EntryKind,
};
use crate::media::is_supported_name;
use crate::stats::{
    are_totals, counts_of_both, nothing_totals_nothing, one_part_more, recording_counts_the_file,
    total_of, FileOutcome, RunStats,
};
use vstd::prelude::*;

verus! {

/// What is to be done next, by the number of the path.
#[derive(Clone, Copy, PartialEq, Eq, Structural, Debug)]
pub enum Task {
    /// Read a directory.
    Directory(usize),
    /// Work on an audio file.
    File(usize),
}

/// The tasks that a directory brings: its audio files, then its subdirectories, both in
/// file-name order.
pub open spec fn tasks_of(entries: Seq<DirEntry>) -> Seq<Task> {
    ids_by_name(entries, |entry: DirEntry| is_audio_file(entry)).map_values(
        |id: usize| Task::File(id),
    ) + ids_by_name(entries, |entry: DirEntry| is_subdirectory(entry)).map_values(
        |id: usize| Task::Directory(id),
    )
}

/// What a walk amounts to.
pub ghost struct WalkView {
    /// What is left to do, in order.
    pub todo: Seq<Task>,
    /// The counts so far.
    pub stats: RunStats,
}

impl WalkView {
    /// Whether this is a walk that starts at the given directory.
    pub open spec fn is_start(self, root: usize) -> bool {
        self.todo == seq![Task::Directory(root)] && self.stats.is_of(Seq::empty())
    }

    /// The next task.
    pub open spec fn next_task(self) -> Option<Task> {
        if self.todo.len() > 0 {
            Some(self.todo[0])
        } else {
            None
        }
    }

    /// The walk once the next task was handed out.
    pub open spec fn after_next(self) -> WalkView {
        if self.todo.len() > 0 {
            WalkView { todo: self.todo.skip(1), ..self }
        } else {
            self
        }
    }

    /// The walk once it has taken what a directory holds.
    pub open spec fn after_entering(self, entries: Seq<DirEntry>) -> WalkView {
        WalkView { todo: tasks_of(entries) + self.todo, ..self }
    }

    /// Whether `after` is the walk once a file was counted.
    pub open spec fn counts_to(self, outcome: FileOutcome, after: WalkView) -> bool {
        after.todo == self.todo && after.stats.is_one_more(self.stats, outcome)
    }
}

/// A walk through a directory tree.
pub struct Walk {
    /// What is left to do; the next task is the last one.
    stack: Vec<Task>,
    stats: RunStats,
}

impl View for Walk {
    type V = WalkView;

    closed spec fn view(&self) -> WalkView {
        WalkView { todo: self.stack@.reverse(), stats: self.stats }
    }
}

impl Walk {
    pub closed spec fn inv(&self) -> bool {
        self.stats.inv()
    }

    /// A walk that starts at the given directory.
    pub fn start(root: usize) -> (walk: Walk)
        ensures
            walk.inv(),
            walk@.is_start(root),
            walk@.todo == seq![Task::Directory(root)],
            walk@.stats.is_of(Seq::empty()),
    {
        let mut stack: Vec<Task> = Vec::new();
        stack.push(Task::Directory(root));
        assert(stack@.reverse() =~= seq![Task::Directory(root)]);
        Walk { stack, stats: RunStats::default() }
    }

    /// Hands out the next task; none when the walk is over.
    pub fn next(&mut self) -> (r: Option<Task>)
        requires
            old(self).inv(),
        ensures
            final(self).inv(),
            r == old(self)@.next_task(),
            final(self)@ == old(self)@.after_next(),
            final(self)@.stats == old(self)@.stats,
            match r {
                Some(task) => {
                    &&& old(self)@.todo.len() > 0
                    &&& task == old(self)@.todo[0]
                    &&& final(self)@.todo == old(self)@.todo.skip(1)
                },
                None => old(self)@.todo.len() == 0 && final(self)@.todo.len() == 0,
            },
    {
        let ghost before = self.stack@;
        let r: Option<Task> = self.stack.pop();
        proof {
            if r is Some {
                assert(before.reverse().skip(1) =~= self.stack@.reverse());
            }
        }
        r
    }

    /// Takes what a directory holds; a directory that cannot be read holds nothing.
    pub fn enter(&mut self, entries: &Vec<DirEntry>)
        requires
            old(self).inv(),
        ensures
            final(self).inv(),
            final(self)@.stats == old(self)@.stats,
            final(self)@ == old(self)@.after_entering(entries@),
            final(self)@.todo == tasks_of(entries@) + old(self)@.todo,
    {
        let plan: DirPlan = plan_directory(entries);
        let ghost before = self.stack@;
        let mut left: usize = plan.subdirs.len();
        while left > 0
            invariant
                left <= plan.subdirs.len(),
                self.stats == old(self).stats,
                self.stack@ == before + plan.subdirs@.skip(left as int).reverse().map_values(
                    |id: usize| Task::Directory(id),
                ),
            decreases left,
        {
            left = left - 1;
            let id: usize = plan.subdirs[left];
            self.stack.push(Task::Directory(id));
            assert(plan.subdirs@.skip(left as int).reverse() =~= plan.subdirs@.skip(
                left + 1,
            ).reverse().push(id));
            assert(self.stack@ =~= before + plan.subdirs@.skip(left as int).reverse().map_values(
                |id: usize| Task::Directory(id),
            ));
        }
        let ghost middle = self.stack@;
        let mut left: usize = plan.files.len();
        while left > 0
            invariant
                left <= plan.files.len(),
                self.stats == old(self).stats,
                self.stack@ == middle + plan.files@.skip(left as int).reverse().map_values(
                    |id: usize| Task::File(id),
                ),
            decreases left,
        {
            left = left - 1;
            let id: usize = plan.files[left];
            self.stack.push(Task::File(id));
            assert(plan.files@.skip(left as int).reverse() =~= plan.files@.skip(
                left + 1,
            ).reverse().push(id));
            assert(self.stack@ =~= middle + plan.files@.skip(left as int).reverse().map_values(
                |id: usize| Task::File(id),
            ));
        }
        assert(plan.files@.skip(0) =~= plan.files@);
        assert(plan.subdirs@.skip(0) =~= plan.subdirs@);
        assert(self.stack@.reverse() =~= tasks_of(entries@) + before.reverse());
    }

    /// Whether another file can be counted.
    pub fn has_room(&self) -> (r: bool)
        ensures
            r == self@.stats.can_count(),
            r == (self@.stats.audio_seen < usize::MAX),
    {
        self.stats.has_room()
    }

    /// Counts a file that was worked on.
    pub fn file_done(&mut self, outcome: FileOutcome)
        requires
            old(self).inv(),
            old(self)@.stats.audio_seen < usize::MAX,
        ensures
            final(self).inv(),
            old(self)@.counts_to(outcome, final(self)@),
            final(self)@.todo == old(self)@.todo,
            final(self)@.stats.is_one_more(old(self)@.stats, outcome),
    {
        self.stats.record(outcome);
    }

    /// The counts so far.
    pub fn stats(&self) -> (stats: RunStats)
        ensures
            stats == self@.stats,
            self.inv() ==> stats.inv(),
    {
        self.stats
    }
}

/// A directory tree, as a walk meets it.
pub ghost struct DirTree {
    /// What each directory holds.
    pub listing: spec_fn(usize) -> Seq<DirEntry>,
    /// How deep the tree below each directory is.
    pub height: spec_fn(usize) -> nat,
}

impl DirTree {
    /// Whether every subdirectory is less high than the directory that holds it, so that the
    /// tree has an end, and listings are of a length that a machine can hold.
    pub open spec fn inv(self) -> bool {
        &&& forall|d: usize| (#[trigger] (self.listing)(d)).len() <= usize::MAX
        &&& forall|d: usize, i: int|
            0 <= i < (self.listing)(d).len() && is_subdirectory(#[trigger] (self.listing)(d)[i])
                ==> (self.height)((self.listing)(d)[i].id) < (self.height)(d)
    }

    /// Whether the directories among the tasks are less high than `bound`.
    pub open spec fn below(self, todo: Seq<Task>, bound: nat) -> bool {
        forall|i: int|
            0 <= i < todo.len() ==> (#[trigger] todo[i] matches Task::Directory(d) ==> (
            self.height)(d) < bound)
    }

    /// The files that the tasks lead to, in order: a file is itself, and a directory stands for
    /// its audio files and then for what its subdirectories lead to.
    pub open spec fn files_of(self, todo: Seq<Task>, bound: nat) -> Seq<usize>
        decreases bound, todo.len(),
    {
        if todo.len() == 0 {
            seq![]
        } else {
            let here = match todo[0] {
                Task::File(id) => seq![id],
                Task::Directory(d) => if (self.height)(d) < bound {
                    self.files_of(tasks_of((self.listing)(d)), (self.height)(d))
                } else {
                    seq![]
                },
            };
            here + self.files_of(todo.skip(1), bound)
        }
    }

    /// The number of steps that the tasks take.
    pub open spec fn work_of(self, todo: Seq<Task>, bound: nat) -> nat
        decreases bound, todo.len(),
    {
        if todo.len() == 0 {
            0
        } else {
            let here: nat = match todo[0] {
                Task::File(id) => 1,
                Task::Directory(d) => if (self.height)(d) < bound {
                    1 + self.work_of(tasks_of((self.listing)(d)), (self.height)(d))
                } else {
                    1
                },
            };
            here + self.work_of(todo.skip(1), bound)
        }
    }

    /// What is left to do after `steps` tasks were handed out and every directory among them
    /// was entered.
    pub open spec fn left_after(self, todo: Seq<Task>, steps: nat) -> Seq<Task>
        decreases steps,
    {
        if steps == 0 || todo.len() == 0 {
            todo
        } else {
            match todo[0] {
                Task::File(_) => self.left_after(todo.skip(1), (steps - 1) as nat),
                Task::Directory(d) => self.left_after(
                    tasks_of((self.listing)(d)) + todo.skip(1),
                    (steps - 1) as nat,
                ),
            }
        }
    }

    /// The files among the first `steps` tasks that are handed out.
    pub open spec fn handed_out(self, todo: Seq<Task>, steps: nat) -> Seq<usize>
        decreases steps,
    {
        if steps == 0 || todo.len() == 0 {
            seq![]
        } else {
            match todo[0] {
                Task::File(id) => seq![id] + self.handed_out(todo.skip(1), (steps - 1) as nat),
                Task::Directory(d) => self.handed_out(
                    tasks_of((self.listing)(d)) + todo.skip(1),
                    (steps - 1) as nat,
                ),
            }
        }
    }
}

/// The directories that a directory brings are less high than it.
proof fn tasks_are_below(tree: DirTree, d: usize)
    requires
        tree.inv(),
    ensures
        tree.below(tasks_of((tree.listing)(d)), (tree.height)(d)),
{
    let entries = (tree.listing)(d);
    let names = names_of(entries);
    let wanted = |entry: DirEntry| is_audio_file(entry);
    let inner = |entry: DirEntry| is_subdirectory(entry);
    let picked = |p: int| inner(entries[p]);
    ordering_exists(names, picked);
    let ordered = order_of(names, picked);
    let files = ids_by_name(entries, wanted);
    let todo = tasks_of(entries);
    assert forall|i: int| 0 <= i < todo.len() implies (#[trigger] todo[i] matches Task::Directory(
        sub,
    ) ==> (tree.height)(sub) < (tree.height)(d)) by {
        if i >= files.len() {
            let p = ordered[i - files.len()];
            assert(is_ordering(names, picked, ordered));
            assert(picked(p as int));
            assert(is_subdirectory(entries[p as int]));
            assert(todo[i] == Task::Directory(entries[p as int].id));
        }
    }
}

/// A bound that is high enough may be raised.
proof fn bound_may_be_raised(tree: DirTree, todo: Seq<Task>, low: nat, high: nat)
    requires
        tree.below(todo, low),
        low <= high,
    ensures
        tree.below(todo, high),
        tree.files_of(todo, low) == tree.files_of(todo, high),
        tree.work_of(todo, low) == tree.work_of(todo, high),
    decreases todo.len(),
{
    if todo.len() > 0 {
        let first = todo[0];
        assert forall|i: int| 0 <= i < todo.skip(1).len() implies (#[trigger] todo.skip(
            1,
        )[i] matches Task::Directory(d) ==> (tree.height)(d) < low) by {
            assert(todo.skip(1)[i] == todo[i + 1]);
        }
        bound_may_be_raised(tree, todo.skip(1), low, high);
    }
}

/// Two lists of tasks lead to what the first leads to and then to what the second leads to.
proof fn tasks_in_sequence(tree: DirTree, first: Seq<Task>, second: Seq<Task>, bound: nat)
    ensures
        tree.files_of(first + second, bound) == tree.files_of(first, bound) + tree.files_of(
            second,
            bound,
        ),
        tree.work_of(first + second, bound) == tree.work_of(first, bound) + tree.work_of(
            second,
            bound,
        ),
    decreases first.len(),
{
    if first.len() == 0 {
        assert(first + second =~= second);
        assert(tree.files_of(first, bound) + tree.files_of(second, bound) =~= tree.files_of(
            second,
            bound,
        ));
    } else {
        tasks_in_sequence(tree, first.skip(1), second, bound);
        assert((first + second).skip(1) =~= first.skip(1) + second);
        assert((first + second)[0] == first[0]);
        let here = match first[0] {
            Task::File(id) => seq![id],
            Task::Directory(d) => if (tree.height)(d) < bound {
                tree.files_of(tasks_of((tree.listing)(d)), (tree.height)(d))
            } else {
                seq![]
            },
        };
        let one = tree.files_of(first.skip(1), bound);
        let two = tree.files_of(second, bound);
        assert((here + one) + two =~= here + (one + two));
    }
}

/// Entering a directory leaves the files that are led to as they are, and takes one step.
proof fn entering_takes_one_step(tree: DirTree, todo: Seq<Task>, d: usize, bound: nat)
    requires
        tree.inv(),
        tree.below(todo, bound),
        todo.len() > 0,
        todo[0] == Task::Directory(d),
    ensures
        ({
            let next = tasks_of((tree.listing)(d)) + todo.skip(1);
            &&& tree.below(next, bound)
            &&& tree.files_of(next, bound) == tree.files_of(todo, bound)
            &&& tree.work_of(next, bound) + 1 == tree.work_of(todo, bound)
        }),
{
    let inside = tasks_of((tree.listing)(d));
    let rest = todo.skip(1);
    tasks_are_below(tree, d);
    assert(todo[0] matches Task::Directory(e) && (tree.height)(e) < bound);
    bound_may_be_raised(tree, inside, (tree.height)(d), bound);
    tasks_in_sequence(tree, inside, rest, bound);
    assert forall|i: int| 0 <= i < (inside + rest).len() implies (#[trigger] (inside
        + rest)[i] matches Task::Directory(e) ==> (tree.height)(e) < bound) by {
        if i < inside.len() {
            assert((inside + rest)[i] == inside[i]);
        } else {
            assert((inside + rest)[i] == todo[i - inside.len() + 1]);
        }
    }
}

/// Handing out a file takes one step.
proof fn file_takes_one_step(tree: DirTree, todo: Seq<Task>, id: usize, bound: nat)
    requires
        tree.below(todo, bound),
        todo.len() > 0,
        todo[0] == Task::File(id),
    ensures
        tree.below(todo.skip(1), bound),
        tree.files_of(todo, bound) == seq![id] + tree.files_of(todo.skip(1), bound),
        tree.work_of(todo, bound) == tree.work_of(todo.skip(1), bound) + 1,
{
    assert forall|i: int| 0 <= i < todo.skip(1).len() implies (#[trigger] todo.skip(
        1,
    )[i] matches Task::Directory(e) ==> (tree.height)(e) < bound) by {
        assert(todo.skip(1)[i] == todo[i + 1]);
    }
}

/// At every moment of a walk, the files handed out so far and those that are still led to make
/// up the files of the tree in their order: in each directory the audio files in file-name
/// order, and then those of its subdirectories, in file-name order too.
pub proof fn walk_keeps_the_order(tree: DirTree, todo: Seq<Task>, bound: nat, steps: nat)
    requires
        tree.inv(),
        tree.below(todo, bound),
    ensures
        tree.handed_out(todo, steps) + tree.files_of(tree.left_after(todo, steps), bound)
            == tree.files_of(todo, bound),
    decreases steps,
{
    let all = tree.files_of(todo, bound);
    if steps == 0 || todo.len() == 0 {
        assert(tree.handed_out(todo, steps) + all =~= all);
    } else {
        let before = (steps - 1) as nat;
        match todo[0] {
            Task::File(id) => {
                file_takes_one_step(tree, todo, id, bound);
                let next = todo.skip(1);
                walk_keeps_the_order(tree, next, bound, before);
                let rest = tree.files_of(tree.left_after(next, before), bound);
                assert((seq![id] + tree.handed_out(next, before)) + rest =~= seq![id] + (
                tree.handed_out(next, before) + rest));
            },
            Task::Directory(d) => {
                entering_takes_one_step(tree, todo, d, bound);
                let next = tasks_of((tree.listing)(d)) + todo.skip(1);
                walk_keeps_the_order(tree, next, bound, before);
            },
        }
    }
}

/// A walk comes to an end, and has then handed out every file of the tree, in order.
pub proof fn walk_hands_out_every_file(tree: DirTree, todo: Seq<Task>, bound: nat)
    requires
        tree.inv(),
        tree.below(todo, bound),
    ensures
        tree.left_after(todo, tree.work_of(todo, bound)).len() == 0,
        tree.handed_out(todo, tree.work_of(todo, bound)) == tree.files_of(todo, bound),
{
    let steps = tree.work_of(todo, bound);
    walk_ends(tree, todo, bound, steps);
    walk_keeps_the_order(tree, todo, bound, steps);
    let done = tree.handed_out(todo, steps);
    let left = tree.left_after(todo, steps);
    assert(done + tree.files_of(left, bound) =~= done);
}

/// After as many steps as the tasks take nothing is left to do.
proof fn walk_ends(tree: DirTree, todo: Seq<Task>, bound: nat, steps: nat)
    requires
        tree.inv(),
        tree.below(todo, bound),
        steps >= tree.work_of(todo, bound),
    ensures
        tree.left_after(todo, steps).len() == 0,
    decreases steps,
{
    if todo.len() > 0 {
        match todo[0] {
            Task::File(id) => {
                file_takes_one_step(tree, todo, id, bound);
                walk_ends(tree, todo.skip(1), bound, (steps - 1) as nat);
            },
            Task::Directory(d) => {
                entering_takes_one_step(tree, todo, d, bound);
                walk_ends(
                    tree,
                    tasks_of((tree.listing)(d)) + todo.skip(1),
                    bound,
                    (steps - 1) as nat,
                );
            },
        }
    }
}

impl DirTree {
    /// The files that a directory leads to, in order.
    pub open spec fn files_below(self, d: usize) -> Seq<usize> {
        self.files_of(seq![Task::Directory(d)], (self.height)(d) + 1)
    }

    /// Whether `after` is a walk that was at `before`, once the next task was handed out and
    /// done: a directory was entered, or a file was counted as it ended.
    pub open spec fn advances(
        self,
        outcome_of: spec_fn(usize) -> FileOutcome,
        before: WalkView,
        after: WalkView,
    ) -> bool {
        &&& before.next_task() is Some
        &&& match before.next_task()->0 {
            Task::File(id) => before.after_next().counts_to(outcome_of(id), after),
            Task::Directory(d) => after == before.after_next().after_entering((self.listing)(d)),
        }
    }

    /// Whether the walk goes on from the view at `i` to the next one.
    pub open spec fn advances_at(
        self,
        outcome_of: spec_fn(usize) -> FileOutcome,
        views: Seq<WalkView>,
        i: int,
    ) -> bool {
        self.advances(outcome_of, views[i], views[i + 1])
    }

    /// Whether the directory at `k` holds, as a directory, the one that follows it.
    pub open spec fn goes_deeper(self, dirs: Seq<usize>, k: int) -> bool {
        exists|m: int|
            0 <= m < (self.listing)(dirs[k]).len() && (#[trigger] (self.listing)(dirs[k])[m]).kind
                == EntryKind::Directory && (self.listing)(dirs[k])[m].id == dirs[k + 1]
    }

    /// Whether the names are those of the tree's audio files.
    pub open spec fn is_named(self, name_of: spec_fn(usize) -> Seq<u8>) -> bool {
        forall|d: usize, i: int|
            0 <= i < (self.listing)(d).len() && is_audio_file(#[trigger] (self.listing)(d)[i])
                ==> name_of((self.listing)(d)[i].id) == (self.listing)(d)[i].name@
    }
}

/// Up to the view at `k`, the files done are counted, and they and those still led to make up
/// the files that the walk led to at first.
proof fn walk_counts_so_far(
    tree: DirTree,
    outcome_of: spec_fn(usize) -> FileOutcome,
    views: Seq<WalkView>,
    bound: nat,
    k: int,
) -> (done: Seq<usize>)
    requires
        tree.inv(),
        0 <= k < views.len(),
        tree.below(views[0].todo, bound),
        views[0].stats.is_of(Seq::empty()),
        forall|i: int|
            0 <= i < views.len() - 1 ==> #[trigger] tree.advances_at(outcome_of, views, i),
    ensures
        tree.below(views[k].todo, bound),
        views[k].stats.is_of(done.map_values(outcome_of)),
        done + tree.files_of(views[k].todo, bound) == tree.files_of(views[0].todo, bound),
    decreases k,
{
    let all = tree.files_of(views[0].todo, bound);
    if k == 0 {
        let done = Seq::<usize>::empty();
        assert(done.map_values(outcome_of) =~= Seq::empty());
        assert(done + all =~= all);
        done
    } else {
        let done = walk_counts_so_far(tree, outcome_of, views, bound, k - 1);
        let before = views[k - 1];
        let after = views[k];
        assert(tree.advances_at(outcome_of, views, k - 1));
        match before.todo[0] {
            Task::File(id) => {
                file_takes_one_step(tree, before.todo, id, bound);
                recording_counts_the_file(
                    before.stats,
                    after.stats,
                    done.map_values(outcome_of),
                    outcome_of(id),
                );
                assert(done.push(id).map_values(outcome_of) =~= done.map_values(outcome_of).push(
                    outcome_of(id),
                ));
                let rest = tree.files_of(after.todo, bound);
                assert(done.push(id) + rest =~= done + (seq![id] + rest));
                done.push(id)
            },
            Task::Directory(d) => {
                entering_takes_one_step(tree, before.todo, d, bound);
                done
            },
        }
    }
}

/// The counts of a walk that has come to its end are those of the files of the tree, each
/// counted once.
pub proof fn walk_counts_every_file(
    tree: DirTree,
    root: usize,
    outcome_of: spec_fn(usize) -> FileOutcome,
    views: Seq<WalkView>,
)
    requires
        tree.inv(),
        views.len() > 0,
        views[0].is_start(root),
        forall|i: int|
            0 <= i < views.len() - 1 ==> #[trigger] tree.advances_at(outcome_of, views, i),
        views.last().next_task() is None,
    ensures
        views.last().stats.is_of(tree.files_below(root).map_values(outcome_of)),
{
    let bound: nat = (tree.height)(root) + 1;
    let done = walk_counts_so_far(tree, outcome_of, views, bound, views.len() - 1);
    assert(done + tree.files_of(views.last().todo, bound) =~= done);
}

/// Files lead to themselves.
proof fn files_lead_to_themselves(tree: DirTree, ids: Seq<usize>, bound: nat)
    ensures
        tree.files_of(ids.map_values(|id: usize| Task::File(id)), bound) == ids,
    decreases ids.len(),
{
    let todo = ids.map_values(|id: usize| Task::File(id));
    if ids.len() == 0 {
        assert(tree.files_of(todo, bound) =~= ids);
    } else {
        files_lead_to_themselves(tree, ids.skip(1), bound);
        assert(todo.skip(1) =~= ids.skip(1).map_values(|id: usize| Task::File(id)));
        assert(seq![ids[0]] + ids.skip(1) =~= ids);
    }
}

/// A directory leads to its own audio files, and then to those that its subdirectories lead to.
proof fn files_below_are_own_and_deeper(tree: DirTree, d: usize)
    requires
        tree.inv(),
    ensures
        ({
            let entries = (tree.listing)(d);
            let own = ids_by_name(entries, |entry: DirEntry| is_audio_file(entry));
            let subs = ids_by_name(entries, |entry: DirEntry| is_subdirectory(entry));
            let deeper = subs.map_values(|id: usize| Task::Directory(id));
            &&& tree.files_below(d) == own + tree.files_of(deeper, (tree.height)(d))
            &&& tree.below(deeper, (tree.height)(d))
        }),
{
    let height = (tree.height)(d);
    let entries = (tree.listing)(d);
    let own = ids_by_name(entries, |entry: DirEntry| is_audio_file(entry));
    let subs = ids_by_name(entries, |entry: DirEntry| is_subdirectory(entry));
    let files = own.map_values(|id: usize| Task::File(id));
    let deeper = subs.map_values(|id: usize| Task::Directory(id));
    let todo = seq![Task::Directory(d)];
    tasks_are_below(tree, d);
    tasks_in_sequence(tree, files, deeper, height);
    files_lead_to_themselves(tree, own, height);
    assert(tasks_of(entries) =~= files + deeper);
    assert(tree.files_of(todo.skip(1), height + 1) =~= seq![]);
    assert(tree.files_below(d) =~= tree.files_of(tasks_of(entries), height));
    assert forall|i: int| 0 <= i < deeper.len() implies (#[trigger] deeper[i] matches
        Task::Directory(sub) ==> (tree.height)(sub) < height) by {
        assert(tasks_of(entries)[files.len() + i] == deeper[i]);
    }
}

/// The counts of directories taken together are those of the files that they lead to.
proof fn parts_count_the_directories(
    tree: DirTree,
    dirs: Seq<usize>,
    bound: nat,
    outcome_of: spec_fn(usize) -> FileOutcome,
    parts: Seq<RunStats>,
)
    requires
        tree.inv(),
        tree.below(dirs.map_values(|id: usize| Task::Directory(id)), bound),
        parts.len() == dirs.len(),
        forall|i: int|
            0 <= i < dirs.len() ==> (#[trigger] parts[i]).is_of(
                tree.files_below(dirs[i]).map_values(outcome_of),
            ),
    ensures
        are_totals(
            tree.files_of(dirs.map_values(|id: usize| Task::Directory(id)), bound).map_values(
                outcome_of,
            ),
            parts,
        ),
    decreases dirs.len(),
{
    let todo = dirs.map_values(|id: usize| Task::Directory(id));
    if dirs.len() == 0 {
        assert(tree.files_of(todo, bound).map_values(outcome_of) =~= Seq::empty());
        nothing_totals_nothing();
        assert(parts =~= Seq::empty());
    } else {
        let front = dirs.drop_last();
        let last = dirs.last();
        let front_todo = front.map_values(|id: usize| Task::Directory(id));
        let last_todo = seq![Task::Directory(last)];
        assert(todo =~= front_todo + last_todo);
        assert(todo[dirs.len() - 1] == Task::Directory(last));
        assert forall|i: int| 0 <= i < front_todo.len() implies (#[trigger] front_todo[i] matches
            Task::Directory(sub) ==> (tree.height)(sub) < bound) by {
            assert(todo[i] == front_todo[i]);
        }
        assert forall|i: int| 0 <= i < front.len() implies (#[trigger] parts.drop_last()[i]).is_of(
            tree.files_below(front[i]).map_values(outcome_of),
        ) by {
            assert(parts[i].is_of(tree.files_below(dirs[i]).map_values(outcome_of)));
        }
        parts_count_the_directories(tree, front, bound, outcome_of, parts.drop_last());
        tasks_in_sequence(tree, front_todo, last_todo, bound);
        bound_may_be_raised(tree, last_todo, (tree.height)(last) + 1, bound);
        let first_files = tree.files_of(front_todo, bound);
        let last_files = tree.files_below(last);
        assert(parts.last() == parts[dirs.len() - 1]);
        assert((first_files + last_files).map_values(outcome_of) =~= first_files.map_values(
            outcome_of,
        ) + last_files.map_values(outcome_of));
        one_part_more(
            first_files.map_values(outcome_of),
            last_files.map_values(outcome_of),
            parts.drop_last(),
            parts.last(),
        );
        assert(parts.drop_last().push(parts.last()) =~= parts);
    }
}

/// The counts of a directory are those of its own audio files plus those of its subdirectories.
pub proof fn directory_counts_are_own_and_deeper(
    tree: DirTree,
    d: usize,
    outcome_of: spec_fn(usize) -> FileOutcome,
    whole: RunStats,
    own: RunStats,
    parts: Seq<RunStats>,
)
    requires
        tree.inv(),
        whole.is_of(tree.files_below(d).map_values(outcome_of)),
        own.is_of(
            ids_by_name(
                (tree.listing)(d),
                |entry: DirEntry| is_audio_file(entry),
            ).map_values(outcome_of),
        ),
        ({
            let subs = ids_by_name(
                (tree.listing)(d),
                |entry: DirEntry| is_subdirectory(entry),
            );
            &&& parts.len() == subs.len()
            &&& forall|i: int|
                0 <= i < subs.len() ==> (#[trigger] parts[i]).is_of(
                    tree.files_below(subs[i]).map_values(outcome_of),
                )
        }),
    ensures
        whole.audio_seen == own.audio_seen + total_of(parts, |s: RunStats| s.audio_seen as int),
        whole.skipped_already_tagged == own.skipped_already_tagged + total_of(
            parts,
            |s: RunStats| s.skipped_already_tagged as int,
        ),
        whole.attempted == own.attempted + total_of(parts, |s: RunStats| s.attempted as int),
        whole.tagged_ok == own.tagged_ok + total_of(parts, |s: RunStats| s.tagged_ok as int),
        whole.errors == own.errors + total_of(parts, |s: RunStats| s.errors as int),
{
    let entries = (tree.listing)(d);
    let ids = ids_by_name(entries, |entry: DirEntry| is_audio_file(entry));
    let subs = ids_by_name(entries, |entry: DirEntry| is_subdirectory(entry));
    let deeper = tree.files_of(
        subs.map_values(|id: usize| Task::Directory(id)),
        (tree.height)(d),
    );
    files_below_are_own_and_deeper(tree, d);
    parts_count_the_directories(tree, subs, (tree.height)(d), outcome_of, parts);
    assert((ids + deeper).map_values(outcome_of) =~= ids.map_values(outcome_of)
        + deeper.map_values(outcome_of));
    counts_of_both(ids.map_values(outcome_of), deeper.map_values(outcome_of));
}

/// The audio files that a directory brings have supported names.
proof fn own_files_are_audio_files(
    tree: DirTree,
    name_of: spec_fn(usize) -> Seq<u8>,
    d: usize,
    i: int,
)
    requires
        tree.inv(),
        tree.is_named(name_of),
        0 <= i < tasks_of((tree.listing)(d)).len(),
    ensures
        tasks_of((tree.listing)(d))[i] matches Task::File(id) ==> is_supported_name(name_of(id)),
{
    let entries = (tree.listing)(d);
    let names = names_of(entries);
    let wanted = |entry: DirEntry| is_audio_file(entry);
    let picked = |p: int| wanted(entries[p]);
    ordering_exists(names, picked);
    let ordered = order_of(names, picked);
    if i < ordered.len() {
        let p = ordered[i];
        assert(is_ordering(names, picked, ordered));
        assert(picked(p as int));
        assert(is_audio_file(entries[p as int]));
        assert(tasks_of(entries)[i] == Task::File(entries[p as int].id));
    }
}

/// The files that tasks lead to have supported names, where those among the tasks do.
proof fn files_led_to_are_audio_files(
    tree: DirTree,
    name_of: spec_fn(usize) -> Seq<u8>,
    todo: Seq<Task>,
    bound: nat,
)
    requires
        tree.inv(),
        tree.is_named(name_of),
        forall|i: int|
            0 <= i < todo.len() ==> (#[trigger] todo[i] matches Task::File(id)
                ==> is_supported_name(name_of(id))),
    ensures
        forall|k: int|
            0 <= k < tree.files_of(todo, bound).len() ==> is_supported_name(
                name_of(#[trigger] tree.files_of(todo, bound)[k]),
            ),
    decreases bound, todo.len(),
{
    if todo.len() > 0 {
        let rest = todo.skip(1);
        assert forall|i: int| 0 <= i < rest.len() implies (#[trigger] rest[i] matches Task::File(
            id,
        ) ==> is_supported_name(name_of(id))) by {
            assert(rest[i] == todo[i + 1]);
        }
        files_led_to_are_audio_files(tree, name_of, rest, bound);
        let here = match todo[0] {
            Task::File(id) => seq![id],
            Task::Directory(d) => if (tree.height)(d) < bound {
                tree.files_of(tasks_of((tree.listing)(d)), (tree.height)(d))
            } else {
                seq![]
            },
        };
        match todo[0] {
            Task::File(id) => {
                assert(is_supported_name(name_of(id)));
            },
            Task::Directory(d) => if (tree.height)(d) < bound {
                let inside = tasks_of((tree.listing)(d));
                assert forall|i: int| 0 <= i < inside.len() implies (#[trigger] inside[i] matches
                    Task::File(id) ==> is_supported_name(name_of(id))) by {
                    own_files_are_audio_files(tree, name_of, d, i);
                }
                files_led_to_are_audio_files(tree, name_of, inside, (tree.height)(d));
            },
        }
        let deeper = tree.files_of(rest, bound);
        assert(tree.files_of(todo, bound) == here + deeper);
        assert forall|k: int| 0 <= k < (here + deeper).len() implies is_supported_name(
            name_of(#[trigger] (here + deeper)[k]),
        ) by {
            if k >= here.len() {
                assert((here + deeper)[k] == deeper[k - here.len()]);
            }
        }
    }
}

/// A directory leads to files with supported names only.
pub proof fn only_audio_files_are_handed_out(
    tree: DirTree,
    name_of: spec_fn(usize) -> Seq<u8>,
    d: usize,
    k: int,
)
    requires
        tree.inv(),
        tree.is_named(name_of),
        0 <= k < tree.files_below(d).len(),
    ensures
        is_supported_name(name_of(tree.files_below(d)[k])),
{
    files_led_to_are_audio_files(
        tree,
        name_of,
        seq![Task::Directory(d)],
        (tree.height)(d) + 1,
    );
}

/// What a directory brings: a task for each regular file with a supported name, in the order of
/// the names, and then one for each directory, in the order of the names, and no other. The
/// positions of these entries in the listing are given back.
pub proof fn directory_brings_all_its_entries(entries: Seq<DirEntry>) -> (r: (
    Seq<usize>,
    Seq<usize>,
))
    requires
        entries.len() <= usize::MAX,
    ensures
        tasks_of(entries).len() == r.0.len() + r.1.len(),
        forall|k: int|
            0 <= k < r.0.len() ==> {
                &&& (#[trigger] r.0[k]) < entries.len()
                &&& entries[r.0[k] as int].kind == EntryKind::File
                &&& is_supported_name(entries[r.0[k] as int].name@)
                &&& tasks_of(entries)[k] == Task::File(entries[r.0[k] as int].id)
            },
        forall|k: int|
            0 <= k < r.1.len() ==> {
                &&& (#[trigger] r.1[k]) < entries.len()
                &&& entries[r.1[k] as int].kind == EntryKind::Directory
                &&& tasks_of(entries)[r.0.len() + k] == Task::Directory(
                    entries[r.1[k] as int].id,
                )
            },
        forall|i: int|
            0 <= i < entries.len() ==> {
                &&& (#[trigger] entries[i]).kind == EntryKind::File && is_supported_name(
                    entries[i].name@,
                ) ==> r.0.contains(i as usize) && tasks_of(entries).contains(
                    Task::File(entries[i].id),
                )
                &&& entries[i].kind == EntryKind::Directory ==> r.1.contains(i as usize)
                    && tasks_of(entries).contains(Task::Directory(entries[i].id))
            },
        forall|k: int, m: int|
            0 <= k < m < r.0.len() ==> name_less(
                entries[(#[trigger] r.0[k]) as int].name@,
                entries[(#[trigger] r.0[m]) as int].name@,
            ) || (entries[r.0[k] as int].name@ == entries[r.0[m] as int].name@ && r.0[k] < r.0[m]),
        forall|k: int, m: int|
            0 <= k < m < r.1.len() ==> name_less(
                entries[(#[trigger] r.1[k]) as int].name@,
                entries[(#[trigger] r.1[m]) as int].name@,
            ) || (entries[r.1[k] as int].name@ == entries[r.1[m] as int].name@ && r.1[k] < r.1[m]),
{
    let files = every_audio_file_is_planned(entries);
    let dirs = every_directory_is_planned(entries);
    let tasks = tasks_of(entries);
    assert forall|i: int| 0 <= i < entries.len() implies {
        &&& (#[trigger] entries[i]).kind == EntryKind::File && is_supported_name(entries[i].name@)
            ==> files.contains(i as usize) && tasks.contains(Task::File(entries[i].id))
        &&& entries[i].kind == EntryKind::Directory ==> dirs.contains(i as usize)
            && tasks.contains(Task::Directory(entries[i].id))
    } by {
        if entries[i].kind == EntryKind::File && is_supported_name(entries[i].name@) {
            let k = choose|k: int| 0 <= k < files.len() && files[k] == i as usize;
            assert(tasks[k] == Task::File(entries[i].id));
        }
        if entries[i].kind == EntryKind::Directory {
            let k = choose|k: int| 0 <= k < dirs.len() && dirs[k] == i as usize;
            assert(tasks[files.len() + k] == Task::Directory(entries[i].id));
        }
    }
    (files, dirs)
}

/// What a directory leads to is among what the tasks lead to, if it is one of them.
proof fn task_leads_to_its_files(tree: DirTree, todo: Seq<Task>, bound: nat, d: usize, id: usize)
    requires
        tree.inv(),
        tree.below(todo, bound),
        todo.contains(Task::Directory(d)),
        tree.files_below(d).contains(id),
    ensures
        tree.files_of(todo, bound).contains(id),
{
    let k = choose|k: int| 0 <= k < todo.len() && todo[k] == Task::Directory(d);
    let front = todo.take(k);
    let one = seq![Task::Directory(d)];
    let back = todo.skip(k + 1);
    assert(todo =~= (front + one) + back);
    assert(todo[k] matches Task::Directory(e) && (tree.height)(e) < bound);
    tasks_in_sequence(tree, front + one, back, bound);
    tasks_in_sequence(tree, front, one, bound);
    bound_may_be_raised(tree, one, (tree.height)(d) + 1, bound);
    let here = tree.files_of(one, bound);
    let start = tree.files_of(front, bound);
    let m = choose|m: int| 0 <= m < here.len() && here[m] == id;
    assert(tree.files_of(todo, bound)[start.len() + m] == id);
}

/// Every regular file with a supported name that is reached from a directory through
/// directories, whatever their names, is among the files that the directory leads to. Here
/// `dirs` are the directories on the way, each listed in the one before it.
pub proof fn every_file_that_is_reached_is_handed_out(tree: DirTree, dirs: Seq<usize>, i: int)
    requires
        tree.inv(),
        dirs.len() > 0,
        forall|k: int| 0 <= k < dirs.len() - 1 ==> #[trigger] tree.goes_deeper(dirs, k),
        0 <= i < (tree.listing)(dirs.last()).len(),
        (tree.listing)(dirs.last())[i].kind == EntryKind::File,
        is_supported_name((tree.listing)(dirs.last())[i].name@),
    ensures
        tree.files_below(dirs[0]).contains((tree.listing)(dirs.last())[i].id),
    decreases dirs.len(),
{
    let d = dirs[0];
    let entries = (tree.listing)(d);
    let id = (tree.listing)(dirs.last())[i].id;
    let own = ids_by_name(entries, |entry: DirEntry| is_audio_file(entry));
    let subs = ids_by_name(entries, |entry: DirEntry| is_subdirectory(entry));
    let deeper = subs.map_values(|id: usize| Task::Directory(id));
    files_below_are_own_and_deeper(tree, d);
    if dirs.len() == 1 {
        let positions = every_audio_file_is_planned(entries);
        assert(entries[i].kind == EntryKind::File);
        assert(own.contains(id));
        let k = choose|k: int| 0 <= k < own.len() && own[k] == id;
        assert(tree.files_below(d)[k] == id);
    } else {
        let rest = dirs.skip(1);
        let sub = dirs[1];
        assert forall|k: int| 0 <= k < rest.len() - 1 implies #[trigger] tree.goes_deeper(
            rest,
            k,
        ) by {
            assert(tree.goes_deeper(dirs, k + 1));
            assert(rest[k] == dirs[k + 1]);
            assert(rest[k + 1] == dirs[k + 2]);
        }
        assert(rest.last() == dirs.last());
        every_file_that_is_reached_is_handed_out(tree, rest, i);
        assert(tree.goes_deeper(dirs, 0));
        let m = choose|m: int|
            0 <= m < entries.len() && (#[trigger] entries[m]).kind == EntryKind::Directory
                && entries[m].id == sub;
        let positions = every_directory_is_planned(entries);
        assert(subs.contains(sub));
        let k = choose|k: int| 0 <= k < subs.len() && subs[k] == sub;
        assert(deeper[k] == Task::Directory(sub));
        task_leads_to_its_files(tree, deeper, (tree.height)(d), sub, id);
        let below = tree.files_of(deeper, (tree.height)(d));
        let n = choose|n: int| 0 <= n < below.len() && below[n] == id;
        assert(tree.files_below(d)[own.len() + n] == id);
    }
}

/// A walk hands out the first of its tasks and keeps the others; it is over when there is none.
/// What a directory brings comes before all that was to be done, and nothing of that is lost.
pub proof fn tasks_are_handed_out_in_order(walk: WalkView, entries: Seq<DirEntry>)
    ensures
        walk.next_task() is None <==> walk.todo.len() == 0,
        walk.next_task() matches Some(task) ==> seq![task] + walk.after_next().todo == walk.todo,
        walk.after_next().stats == walk.stats,
        walk.after_entering(entries).stats == walk.stats,
        walk.after_entering(entries).todo.len() == tasks_of(entries).len() + walk.todo.len(),
        tasks_of(entries).is_prefix_of(walk.after_entering(entries).todo),
        walk.after_entering(entries).todo.skip(tasks_of(entries).len() as int) == walk.todo,
{
    if walk.todo.len() > 0 {
        assert(seq![walk.todo[0]] + walk.todo.skip(1) =~= walk.todo);
    }
    let after = walk.after_entering(entries).todo;
    assert(after.skip(tasks_of(entries).len() as int) =~= walk.todo);
    assert(tasks_of(entries) =~= after.subrange(0, tasks_of(entries).len() as int));
}

} // verus!
