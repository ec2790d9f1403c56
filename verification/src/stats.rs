//! What a run did, in numbers.

use vstd::prelude::*;

verus! {

/// How the work on one audio file ended.
#[derive(Clone, Copy, PartialEq, Eq, Structural, Debug)]
pub enum FileOutcome {
    /// It holds a fingerprint already, and was left alone.
    Skipped,
    /// A fingerprint was written.
    Tagged,
    /// An error came up.
    Failed,
}

/// The counts of a run.
#[derive(Clone, Copy, PartialEq, Eq, Structural, Debug)]
pub struct RunStats {
    pub audio_seen: usize,
    pub skipped_already_tagged: usize,
    pub attempted: usize,
    pub tagged_ok: usize,
    pub errors: usize,
}

impl Default for RunStats {
    fn default() -> (stats: RunStats)
        ensures
            stats == (RunStats {
                audio_seen: 0,
                skipped_already_tagged: 0,
                attempted: 0,
                tagged_ok: 0,
                errors: 0,
            }),
            stats.is_of(Seq::empty()),
    {
        proof {
            broadcast use vstd::seq_lib::group_to_multiset_ensures;

        }
        RunStats { audio_seen: 0, skipped_already_tagged: 0, attempted: 0, tagged_ok: 0, errors: 0 }
    }
}

impl RunStats {
    /// Whether these are the counts of a run in which the files ended in the given ways.
    pub open spec fn is_of(self, outcomes: Seq<FileOutcome>) -> bool {
        let ended = outcomes.to_multiset();
        &&& self.audio_seen == outcomes.len()
        &&& self.skipped_already_tagged == ended.count(FileOutcome::Skipped)
        &&& self.attempted == ended.count(FileOutcome::Tagged) + ended.count(FileOutcome::Failed)
        &&& self.tagged_ok == ended.count(FileOutcome::Tagged)
        &&& self.errors == ended.count(FileOutcome::Failed)
    }

    /// Whether the counts fit together: every file seen was skipped or attempted, and every
    /// attempt ended well or with an error.
    pub open spec fn inv(self) -> bool {
        &&& self.audio_seen == self.skipped_already_tagged + self.attempted
        &&& self.attempted == self.tagged_ok + self.errors
    }

    /// Whether these counts are `before` with one file more.
    pub open spec fn is_one_more(self, before: RunStats, outcome: FileOutcome) -> bool {
        let skipped: int = if outcome == FileOutcome::Skipped { 1 } else { 0 };
        let tagged: int = if outcome == FileOutcome::Tagged { 1 } else { 0 };
        let failed: int = if outcome == FileOutcome::Failed { 1 } else { 0 };
        &&& self.audio_seen == before.audio_seen + 1
        &&& self.skipped_already_tagged == before.skipped_already_tagged + skipped
        &&& self.attempted == before.attempted + tagged + failed
        &&& self.tagged_ok == before.tagged_ok + tagged
        &&& self.errors == before.errors + failed
    }

    /// Whether these counts are those of `left` and `right` taken together. Each count wraps
    /// around where it leaves the range of its type.
    pub open spec fn is_sum(self, left: RunStats, right: RunStats) -> bool {
        &&& self.audio_seen == left.audio_seen.wrapping_add(right.audio_seen)
        &&& self.skipped_already_tagged == left.skipped_already_tagged.wrapping_add(
            right.skipped_already_tagged,
        )
        &&& self.attempted == left.attempted.wrapping_add(right.attempted)
        &&& self.tagged_ok == left.tagged_ok.wrapping_add(right.tagged_ok)
        &&& self.errors == left.errors.wrapping_add(right.errors)
    }

    /// Whether another file can be counted.
    pub open spec fn can_count(self) -> bool {
        self.audio_seen < usize::MAX
    }

    /// Whether another file can be counted.
    pub fn has_room(&self) -> (r: bool)
        ensures
            r == self.can_count(),
            r == (self.audio_seen < usize::MAX),
    {
        self.audio_seen < usize::MAX
    }

    /// Counts one more file.
    pub fn record(&mut self, outcome: FileOutcome)
        requires
            old(self).inv(),
            old(self).audio_seen < usize::MAX,
        ensures
            final(self).inv(),
            final(self).is_one_more(*old(self), outcome),
    {
        self.audio_seen = self.audio_seen + 1;
        match outcome {
            FileOutcome::Skipped => {
                self.skipped_already_tagged = self.skipped_already_tagged + 1;
            },
            FileOutcome::Tagged => {
                self.attempted = self.attempted + 1;
                self.tagged_ok = self.tagged_ok + 1;
            },
            FileOutcome::Failed => {
                self.attempted = self.attempted + 1;
                self.errors = self.errors + 1;
            },
        }
    }

    /// The counts of a single file.
    pub fn of(outcome: FileOutcome) -> (stats: RunStats)
        ensures
            stats.inv(),
            stats.is_of(seq![outcome]),
    {
        let mut stats = RunStats::default();
        proof {
            broadcast use vstd::seq_lib::group_to_multiset_ensures;
        }
        stats.record(outcome);
        assert(seq![outcome] =~= Seq::empty().push(outcome));
        stats
    }

    /// The counts of two parts of a run taken together.
    pub fn merge(self, other: RunStats) -> (stats: RunStats)
        ensures
            stats.is_sum(self, other),
    {
        RunStats {
            audio_seen: self.audio_seen.wrapping_add(other.audio_seen),
            skipped_already_tagged: self.skipped_already_tagged.wrapping_add(
                other.skipped_already_tagged,
            ),
            attempted: self.attempted.wrapping_add(other.attempted),
            tagged_ok: self.tagged_ok.wrapping_add(other.tagged_ok),
            errors: self.errors.wrapping_add(other.errors),
        }
    }
}

/// What is said where nothing was to be done.
pub const NOTHING_TO_DO: &'static str =
    "No files to process: all supported files already have an AcoustID fingerprint tag embedded.";

/// Whether there is to be said of a run that nothing was to be done.
pub open spec fn is_nothing_to_do(stats: RunStats, process_all: bool) -> bool {
    !process_all && stats.audio_seen > 0 && stats.attempted == 0 && stats.skipped_already_tagged
        == stats.audio_seen
}

/// Whether there is to be said that nothing was to be done: audio files were seen, and every
/// one of them was skipped. A run over all files never says so.
pub fn report_if_nothing_to_do(stats: &RunStats, process_all: bool) -> (r: bool)
    ensures
        r == is_nothing_to_do(*stats, process_all),
        r == (!process_all && stats.audio_seen > 0 && stats.attempted == 0
            && stats.skipped_already_tagged == stats.audio_seen),
{
    if process_all {
        return false;
    }
    stats.audio_seen > 0 && stats.attempted == 0 && stats.skipped_already_tagged
        == stats.audio_seen
}

/// The counts of a run fit together.
pub proof fn counts_fit_together(stats: RunStats, outcomes: Seq<FileOutcome>)
    requires
        stats.is_of(outcomes),
    ensures
        stats.inv(),
{
    outcomes_are_counted(outcomes);
}

/// The ways in which files ended, counted, make up their number.
proof fn outcomes_are_counted(outcomes: Seq<FileOutcome>)
    ensures
        ({
            let ended = outcomes.to_multiset();
            outcomes.len() == ended.count(FileOutcome::Skipped) + ended.count(FileOutcome::Tagged)
                + ended.count(FileOutcome::Failed)
        }),
    decreases outcomes.len(),
{
    broadcast use vstd::seq_lib::group_to_multiset_ensures;

    if outcomes.len() > 0 {
        outcomes_are_counted(outcomes.drop_last());
        assert(outcomes =~= outcomes.drop_last().push(outcomes.last()));
    }
}

/// Counting one more file gives the counts of the run with that file added.
pub proof fn recording_counts_the_file(
    before: RunStats,
    after: RunStats,
    outcomes: Seq<FileOutcome>,
    outcome: FileOutcome,
)
    requires
        before.is_of(outcomes),
        after.is_one_more(before, outcome),
    ensures
        after.is_of(outcomes.push(outcome)),
{
    broadcast use vstd::seq_lib::group_to_multiset_ensures;

}

/// Counting the files one after the other gives the counts of the run.
pub proof fn run_counts_every_file(history: Seq<RunStats>, outcomes: Seq<FileOutcome>)
    requires
        history.len() == outcomes.len() + 1,
        history[0].is_of(Seq::empty()),
        forall|i: int|
            0 <= i < outcomes.len() ==> history[i + 1].is_one_more(
                history[i],
                #[trigger] outcomes[i],
            ),
    ensures
        history.last().is_of(outcomes),
    decreases outcomes.len(),
{
    if outcomes.len() == 0 {
        assert(outcomes =~= Seq::empty());
    } else {
        let before = outcomes.drop_last();
        let n = before.len() as int;
        assert forall|i: int| 0 <= i < n implies history.drop_last()[i + 1].is_one_more(
            history.drop_last()[i],
            #[trigger] before[i],
        ) by {
            assert(before[i] == outcomes[i]);
        }
        run_counts_every_file(history.drop_last(), before);
        assert(history[n + 1].is_one_more(history[n], outcomes[n]));
        recording_counts_the_file(history[n], history[n + 1], before, outcomes[n]);
        assert(before.push(outcomes[n]) =~= outcomes);
    }
}

/// The counts do not depend on the order in which the files were worked on.
pub proof fn counts_ignore_the_order(
    stats: RunStats,
    first: Seq<FileOutcome>,
    second: Seq<FileOutcome>,
)
    requires
        first.to_multiset() == second.to_multiset(),
        stats.is_of(first),
    ensures
        stats.is_of(second),
{
    outcomes_are_counted(first);
    outcomes_are_counted(second);
}

/// Merging the counts of two parts of a run gives the counts of both parts, where the number
/// of files is in range.
pub proof fn merging_counts_both_parts(
    left: RunStats,
    right: RunStats,
    merged: RunStats,
    first: Seq<FileOutcome>,
    second: Seq<FileOutcome>,
)
    requires
        left.is_of(first),
        right.is_of(second),
        merged.is_sum(left, right),
        first.len() + second.len() <= usize::MAX,
    ensures
        merged.is_of(first + second),
{
    broadcast use vstd::seq_lib::group_to_multiset_ensures;

    outcomes_are_counted(first);
    outcomes_are_counted(second);
    vstd::seq_lib::lemma_multiset_commutative(first, second);
}

/// One of the counts, summed over the parts of a run.
pub open spec fn total_of(parts: Seq<RunStats>, count: spec_fn(RunStats) -> int) -> int
    decreases parts.len(),
{
    if parts.len() == 0 {
        0
    } else {
        total_of(parts.drop_last(), count) + count(parts.last())
    }
}

/// Whether the counts of the parts, summed, are those of files that ended in the given ways.
pub open spec fn are_totals(outcomes: Seq<FileOutcome>, parts: Seq<RunStats>) -> bool {
    let ended = outcomes.to_multiset();
    &&& total_of(parts, |s: RunStats| s.audio_seen as int) == outcomes.len()
    &&& total_of(parts, |s: RunStats| s.skipped_already_tagged as int) == ended.count(
        FileOutcome::Skipped,
    )
    &&& total_of(parts, |s: RunStats| s.attempted as int) == ended.count(FileOutcome::Tagged)
        + ended.count(FileOutcome::Failed)
    &&& total_of(parts, |s: RunStats| s.tagged_ok as int) == ended.count(FileOutcome::Tagged)
    &&& total_of(parts, |s: RunStats| s.errors as int) == ended.count(FileOutcome::Failed)
}

/// The ways in which the files of two parts ended are counted together.
pub(crate) proof fn counts_of_both(first: Seq<FileOutcome>, second: Seq<FileOutcome>)
    ensures
        forall|outcome: FileOutcome| #[trigger]
            (first + second).to_multiset().count(outcome) == first.to_multiset().count(outcome)
                + second.to_multiset().count(outcome),
{
    vstd::seq_lib::lemma_multiset_commutative(first, second);
}

/// Without parts there is nothing to count.
pub(crate) proof fn nothing_totals_nothing()
    ensures
        are_totals(Seq::empty(), Seq::empty()),
{
    broadcast use vstd::seq_lib::group_to_multiset_ensures;

}

/// One part more adds its counts.
pub(crate) proof fn one_part_more(
    outcomes: Seq<FileOutcome>,
    more: Seq<FileOutcome>,
    parts: Seq<RunStats>,
    part: RunStats,
)
    requires
        are_totals(outcomes, parts),
        part.is_of(more),
    ensures
        are_totals(outcomes + more, parts.push(part)),
{
    counts_of_both(outcomes, more);
    assert(parts.push(part).drop_last() =~= parts);
}

/// The order of merging does not matter.
pub proof fn merging_is_commutative(left: RunStats, right: RunStats, merged: RunStats)
    requires
        merged.is_sum(left, right),
    ensures
        merged.is_sum(right, left),
{
}

/// The grouping of merges does not matter.
pub proof fn merging_is_associative(
    a: RunStats,
    b: RunStats,
    c: RunStats,
    ab: RunStats,
    bc: RunStats,
    ab_c: RunStats,
    a_bc: RunStats,
)
    requires
        ab.is_sum(a, b),
        bc.is_sum(b, c),
        ab_c.is_sum(ab, c),
        a_bc.is_sum(a, bc),
    ensures
        ab_c == a_bc,
{
}

/// Equal counts of the same files are the same counts.
pub proof fn counts_are_determined(
    first: RunStats,
    second: RunStats,
    one: Seq<FileOutcome>,
    two: Seq<FileOutcome>,
)
    requires
        first.is_of(one),
        second.is_of(two),
        one.to_multiset() == two.to_multiset(),
    ensures
        first == second,
{
    outcomes_are_counted(one);
    outcomes_are_counted(two);
}

/// A way to merge the counts of files, one by one or in groups.
pub ghost enum Grouping {
    /// No file.
    Nothing,
    /// A single file.
    One(FileOutcome),
    /// Two groups, merged.
    Both(Box<Grouping>, Box<Grouping>),
}

impl Grouping {
    /// How the files ended, from left to right.
    pub open spec fn outcomes(self) -> Seq<FileOutcome>
        decreases self,
    {
        match self {
            Grouping::Nothing => seq![],
            Grouping::One(outcome) => seq![outcome],
            Grouping::Both(left, right) => left.outcomes() + right.outcomes(),
        }
    }

    /// Whether merging in this way gives these counts.
    pub open spec fn gives(self, stats: RunStats) -> bool
        decreases self,
    {
        match self {
            Grouping::Nothing => stats.is_of(Seq::empty()),
            Grouping::One(outcome) => stats.is_of(seq![outcome]),
            Grouping::Both(left, right) => exists|a: RunStats, b: RunStats|
                left.gives(a) && right.gives(b) && #[trigger] stats.is_sum(a, b),
        }
    }
}

/// In whatever groups the counts of files are merged, they come to the counts of all of them,
/// where their number is in range.
pub proof fn any_grouping_counts_every_file(grouping: Grouping, stats: RunStats)
    requires
        grouping.gives(stats),
        grouping.outcomes().len() <= usize::MAX,
    ensures
        stats.is_of(grouping.outcomes()),
    decreases grouping,
{
    if let Grouping::Both(left, right) = grouping {
        let (a, b) = choose|a: RunStats, b: RunStats|
            left.gives(a) && right.gives(b) && #[trigger] stats.is_sum(a, b);
        any_grouping_counts_every_file(*left, a);
        any_grouping_counts_every_file(*right, b);
        merging_counts_both_parts(a, b, stats, left.outcomes(), right.outcomes());
    }
}

/// Nothing was to be done where there were audio files and all of them were skipped.
pub proof fn nothing_to_do_means_all_skipped(stats: RunStats, outcomes: Seq<FileOutcome>)
    requires
        stats.is_of(outcomes),
    ensures
        (stats.audio_seen > 0 && stats.attempted == 0 && stats.skipped_already_tagged
            == stats.audio_seen) <==> (outcomes.len() > 0 && forall|i: int|
            0 <= i < outcomes.len() ==> #[trigger] outcomes[i] == FileOutcome::Skipped),
{
    broadcast use vstd::seq_lib::group_to_multiset_ensures;

    outcomes_are_counted(outcomes);
    if stats.skipped_already_tagged == stats.audio_seen {
        assert forall|i: int| 0 <= i < outcomes.len() implies #[trigger] outcomes[i]
            == FileOutcome::Skipped by {
            assert(outcomes.contains(outcomes[i]));
        }
    }
    if forall|i: int| 0 <= i < outcomes.len() ==> #[trigger] outcomes[i] == FileOutcome::Skipped {
        assert(!outcomes.contains(FileOutcome::Tagged));
        assert(!outcomes.contains(FileOutcome::Failed));
    }
}

/// That nothing was to be done is said of a run if and only if it was not one over all files,
/// there were audio files, and every one of them was skipped.
pub proof fn nothing_to_do_is_said_where_all_were_skipped(
    stats: RunStats,
    outcomes: Seq<FileOutcome>,
    process_all: bool,
)
    requires
        stats.is_of(outcomes),
    ensures
        is_nothing_to_do(stats, process_all) <==> (!process_all && outcomes.len() > 0 && forall|
            i: int,
        |
            0 <= i < outcomes.len() ==> #[trigger] outcomes[i] == FileOutcome::Skipped),
{
    nothing_to_do_means_all_skipped(stats, outcomes);
}

/// The counts are numbers of files: of all, of those that were skipped, of those that were not,
/// of those that were tagged and of those that failed.
pub proof fn counts_are_numbers_of_files(stats: RunStats, outcomes: Seq<FileOutcome>)
    requires
        stats.is_of(outcomes),
    ensures
        stats.audio_seen == outcomes.len(),
        stats.skipped_already_tagged == outcomes.filter(
            |outcome: FileOutcome| outcome == FileOutcome::Skipped,
        ).len(),
        stats.attempted == outcomes.filter(
            |outcome: FileOutcome| outcome != FileOutcome::Skipped,
        ).len(),
        stats.tagged_ok == outcomes.filter(
            |outcome: FileOutcome| outcome == FileOutcome::Tagged,
        ).len(),
        stats.errors == outcomes.filter(
            |outcome: FileOutcome| outcome == FileOutcome::Failed,
        ).len(),
{
    counted_files(outcomes);
}

/// The files that ended in a way, counted.
proof fn counted_files(outcomes: Seq<FileOutcome>)
    ensures
        ({
            let ended = outcomes.to_multiset();
            &&& outcomes.filter(|outcome: FileOutcome| outcome == FileOutcome::Skipped).len()
                == ended.count(FileOutcome::Skipped)
            &&& outcomes.filter(|outcome: FileOutcome| outcome != FileOutcome::Skipped).len()
                == ended.count(FileOutcome::Tagged) + ended.count(FileOutcome::Failed)
            &&& outcomes.filter(|outcome: FileOutcome| outcome == FileOutcome::Tagged).len()
                == ended.count(FileOutcome::Tagged)
            &&& outcomes.filter(|outcome: FileOutcome| outcome == FileOutcome::Failed).len()
                == ended.count(FileOutcome::Failed)
        }),
    decreases outcomes.len(),
{
    broadcast use vstd::seq_lib::group_to_multiset_ensures;

    reveal(Seq::filter);
    if outcomes.len() > 0 {
        counted_files(outcomes.drop_last());
        assert(outcomes =~= outcomes.drop_last().push(outcomes.last()));
    }
}

/// A file can be counted as long as the count of files is below the highest number.
pub proof fn files_can_be_counted(stats: RunStats)
    ensures
        stats.can_count() <==> stats.audio_seen != usize::MAX,
{
}

/// Counting a file raises the number of files by one, and the numbers that its outcome belongs
/// to, and leaves the others.
pub proof fn recording_raises_the_counts(before: RunStats, after: RunStats, outcome: FileOutcome)
    requires
        after.is_one_more(before, outcome),
    ensures
        after.audio_seen - before.audio_seen == 1,
        (after.skipped_already_tagged - before.skipped_already_tagged) + (after.tagged_ok
            - before.tagged_ok) + (after.errors - before.errors) == 1,
        (after.attempted - before.attempted) == (after.tagged_ok - before.tagged_ok) + (
        after.errors - before.errors),
        outcome == FileOutcome::Skipped <==> after.skipped_already_tagged
            == before.skipped_already_tagged + 1,
        outcome == FileOutcome::Tagged <==> after.tagged_ok == before.tagged_ok + 1,
        outcome == FileOutcome::Failed <==> after.errors == before.errors + 1,
{
}

/// Merging adds each of the counts, where the sum is in range; else it wraps around.
pub proof fn merging_adds_the_counts(left: RunStats, right: RunStats, merged: RunStats)
    requires
        merged.is_sum(left, right),
    ensures
        left.audio_seen + right.audio_seen <= usize::MAX ==> merged.audio_seen == left.audio_seen
            + right.audio_seen,
        left.skipped_already_tagged + right.skipped_already_tagged <= usize::MAX
            ==> merged.skipped_already_tagged == left.skipped_already_tagged
            + right.skipped_already_tagged,
        left.attempted + right.attempted <= usize::MAX ==> merged.attempted == left.attempted
            + right.attempted,
        left.tagged_ok + right.tagged_ok <= usize::MAX ==> merged.tagged_ok == left.tagged_ok
            + right.tagged_ok,
        left.errors + right.errors <= usize::MAX ==> merged.errors == left.errors + right.errors,
        left.audio_seen + right.audio_seen > usize::MAX ==> merged.audio_seen == left.audio_seen
            + right.audio_seen - usize::MAX - 1,
        left.skipped_already_tagged + right.skipped_already_tagged > usize::MAX
            ==> merged.skipped_already_tagged == left.skipped_already_tagged
            + right.skipped_already_tagged - usize::MAX - 1,
        left.attempted + right.attempted > usize::MAX ==> merged.attempted == left.attempted
            + right.attempted - usize::MAX - 1,
        left.tagged_ok + right.tagged_ok > usize::MAX ==> merged.tagged_ok == left.tagged_ok
            + right.tagged_ok - usize::MAX - 1,
        left.errors + right.errors > usize::MAX ==> merged.errors == left.errors + right.errors
            - usize::MAX - 1,
{
}

} // verus!
