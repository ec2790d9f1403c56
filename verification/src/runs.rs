//! What holds of whole runs over a directory tree.

use crate::job::{
    fingerprint_of_the_decoder_is_saved, fingerprinted_file_is_left_alone, is_needed,
    work_on_a_file_ends, Replies, Step,
};
use crate::media::is_supported_name;
use crate::stats::{
    any_grouping_counts_every_file, counts_are_determined, counts_fit_together,
    nothing_to_do_means_all_skipped, FileOutcome, Grouping, RunStats,
};
use crate::tags::{
    fingerprint_keys, first_of_type, has_fingerprint, has_type, is_embedded, is_embedded_at,
    is_first_of_type, is_text_under_keys, is_under, items_at, items_of, key_of, kind_of,
    pictures_of, primary_type_of, tag_has_fingerprint, tags_of, text_of, text_under, type_of,
    writing_the_same_again_changes_nothing, written_fingerprint_passes_the_check,
    written_text_stands_under_the_first_key, TagType,
};
use crate::text::is_blank_text;
use crate::walk::{only_audio_files_are_handed_out, DirTree};
use vstd::prelude::*;

verus! {

/// The work on one file in a run: what came back, step by step.
pub ghost struct FileRun {
    pub name: Seq<u8>,
    pub replies: Replies,
    pub steps: Seq<Step>,
}

/// Whether a file gives back a fingerprint that was written to the tag of the given type.
pub open spec fn gives_back(
    file: lofty::file::TaggedFile,
    tag_type: TagType,
    fingerprint: Seq<char>,
) -> bool {
    &&& has_type(tags_of(file), tag_type)
    &&& text_under(
        items_of(first_of_type(tags_of(file), tag_type)),
        fingerprint_keys(tag_type)[0],
    ) == Some(fingerprint)
}

impl FileRun {
    /// Whether this is the whole work on the file.
    pub open spec fn inv(self, process_all: bool) -> bool {
        self.replies.are_steps(self.name, process_all, self.steps)
    }

    /// How the work ended.
    pub open spec fn outcome(self) -> FileOutcome {
        self.steps.last().ended()->0
    }

    /// Whether `file` is what this run left behind, if it ended without an error: a file that
    /// was skipped still has its tags, and one that was tagged gives back its fingerprint.
    pub open spec fn leaves(self, file: lofty::file::TaggedFile) -> bool {
        match self.outcome() {
            FileOutcome::Skipped => tags_of(file) == tags_of(self.replies.read->0),
            FileOutcome::Tagged => gives_back(
                file,
                primary_type_of(self.replies.opened->Ok_0)->0,
                self.replies.fingerprint(),
            ),
            FileOutcome::Failed => true,
        }
    }

    /// Whether the fingerprint, if one was written, is not blank.
    pub open spec fn writes_text(self) -> bool {
        self.outcome() == FileOutcome::Tagged ==> !is_blank_text(self.replies.fingerprint())
    }
}

/// A file whose tags are read as they were saved gives back the fingerprint.
pub proof fn saved_tags_give_back_the_fingerprint(
    before: lofty::file::TaggedFile,
    written: lofty::file::TaggedFile,
    again: lofty::file::TaggedFile,
    tag_type: TagType,
    fingerprint: Seq<char>,
)
    requires
        is_embedded(tags_of(before), tags_of(written), tag_type, fingerprint),
        tags_of(again) == tags_of(written),
    ensures
        gives_back(again, tag_type, fingerprint),
{
    written_fingerprint_passes_the_check(before, written, tag_type, fingerprint);
}

/// A file that gives back a fingerprint is found to hold one.
pub proof fn fingerprint_given_back_is_found(
    file: lofty::file::TaggedFile,
    tag_type: TagType,
    fingerprint: Seq<char>,
)
    requires
        gives_back(file, tag_type, fingerprint),
        !is_blank_text(fingerprint),
    ensures
        has_fingerprint(file),
{
    let tags = tags_of(file);
    let m = choose|m: int| 0 <= m < tags.len() && type_of(#[trigger] tags[m]) == tag_type;
    first_tag_exists(tags, tag_type, m);
    let i = choose|i: int| is_first_of_type(tags, tag_type, i);
    let keys = fingerprint_keys(tag_type);
    assert(is_text_under_keys(items_of(tags[i]), keys, keys.len() as int));
    assert(tag_has_fingerprint(tags_of(file)[i]));
}

/// Where a tag of a type stands at `m`, there is a first one.
proof fn first_tag_exists(tags: Seq<lofty::tag::Tag>, tag_type: TagType, m: int)
    requires
        0 <= m < tags.len(),
        type_of(tags[m]) == tag_type,
    ensures
        exists|i: int| is_first_of_type(tags, tag_type, i),
    decreases m,
{
    if is_first_of_type(tags, tag_type, m) {
    } else {
        let j = choose|j: int| 0 <= j < m && type_of(#[trigger] tags[j]) == tag_type;
        first_tag_exists(tags, tag_type, j);
    }
}

/// A file on which the work ended without an error, and that is as it was left, is only read by
/// the next run, and skipped.
pub proof fn finished_file_is_skipped_next_time(
    first: FileRun,
    second: FileRun,
    process_all: bool,
)
    requires
        first.inv(process_all),
        second.inv(false),
        first.name == second.name,
        is_supported_name(first.name),
        first.outcome() != FileOutcome::Failed,
        first.writes_text(),
        second.replies.read is Some,
        first.leaves(second.replies.read->0),
    ensures
        second.outcome() == FileOutcome::Skipped,
        forall|i: int|
            0 <= i < second.steps.len() ==> #[trigger] second.steps[i] is ReadTags
                || second.steps[i] is Skip,
{
    let file = second.replies.read->0;
    work_on_a_file_ends(first.name, process_all, first.replies, first.steps);
    work_on_a_file_ends(second.name, false, second.replies, second.steps);
    if first.outcome() == FileOutcome::Skipped {
        let old = first.replies.read->0;
        let i = choose|i: int|
            0 <= i < tags_of(old).len() && tag_has_fingerprint(#[trigger] tags_of(old)[i]);
        assert(tag_has_fingerprint(tags_of(file)[i]));
    } else {
        fingerprint_given_back_is_found(
            file,
            primary_type_of(first.replies.opened->Ok_0)->0,
            first.replies.fingerprint(),
        );
    }
    assert forall|i: int| 0 <= i < second.steps.len() implies #[trigger] second.steps[i] is ReadTags
        || second.steps[i] is Skip by {
        fingerprinted_file_is_left_alone(second.name, second.replies, second.steps, i);
        if second.steps[i] is Ignore && i < second.steps.len() - 1 {
            assert(second.replies.lead_on(second.steps, i));
        }
    }
}

/// It is safe to run repeatedly: where a run over a tree had no errors, and its files are as it
/// left them, the next run skips every one of them and only reads their tags.
pub proof fn second_run_skips_every_file(
    tree: DirTree,
    root: usize,
    process_all: bool,
    name_of: spec_fn(usize) -> Seq<u8>,
    first: spec_fn(usize) -> FileRun,
    second: spec_fn(usize) -> FileRun,
    first_stats: RunStats,
    second_stats: RunStats,
)
    requires
        tree.inv(),
        tree.is_named(name_of),
        forall|id: usize| #[trigger] tree.files_below(root).contains(id) ==> {
            &&& first(id).name == name_of(id) && first(id).inv(process_all)
            &&& second(id).name == name_of(id) && second(id).inv(false)
            &&& first(id).writes_text()
            &&& second(id).replies.read is Some
            &&& first(id).leaves(second(id).replies.read->0)
        },
        first_stats.is_of(tree.files_below(root).map_values(|id: usize| first(id).outcome())),
        second_stats.is_of(tree.files_below(root).map_values(|id: usize| second(id).outcome())),
        first_stats.errors == 0,
    ensures
        second_stats.audio_seen == first_stats.audio_seen,
        second_stats.skipped_already_tagged == second_stats.audio_seen,
        second_stats.attempted == 0,
        second_stats.tagged_ok == 0,
        second_stats.errors == 0,
        forall|id: usize, i: int|
            tree.files_below(root).contains(id) && 0 <= i < second(id).steps.len()
                ==> #[trigger] second(id).steps[i] is ReadTags || second(id).steps[i] is Skip,
{
    broadcast use vstd::seq_lib::group_to_multiset_ensures;

    let files = tree.files_below(root);
    let before = files.map_values(|id: usize| first(id).outcome());
    let after = files.map_values(|id: usize| second(id).outcome());
    assert forall|id: usize| #[trigger] files.contains(id) implies second(id).outcome()
        == FileOutcome::Skipped && forall|i: int|
        0 <= i < second(id).steps.len() ==> #[trigger] second(id).steps[i] is ReadTags || second(
            id,
        ).steps[i] is Skip by {
        let k = choose|k: int| 0 <= k < files.len() && files[k] == id;
        only_audio_files_are_handed_out(tree, name_of, root, k);
        assert(before[k] == first(id).outcome());
        assert(before.contains(before[k]));
        assert(first(id).outcome() != FileOutcome::Failed);
        finished_file_is_skipped_next_time(first(id), second(id), process_all);
    }
    assert forall|k: int| 0 <= k < after.len() implies #[trigger] after[k]
        == FileOutcome::Skipped by {
        assert(files.contains(files[k]));
    }
    counts_fit_together(second_stats, after);
    nothing_to_do_means_all_skipped(second_stats, after);
}

/// A file that was tagged, and is as it was left, needs no processing, unless all files are to
/// be worked on.
pub proof fn tagged_file_needs_no_processing(
    run: FileRun,
    process_all: bool,
    again: lofty::file::TaggedFile,
)
    requires
        run.inv(process_all),
        run.outcome() == FileOutcome::Tagged,
        run.writes_text(),
        run.leaves(again),
    ensures
        !is_needed(false, Some(&again)),
        is_needed(true, Some(&again)),
{
    fingerprint_given_back_is_found(
        again,
        primary_type_of(run.replies.opened->Ok_0)->0,
        run.replies.fingerprint(),
    );
}

/// Working on a file again, where its tags are read as they were saved and its fingerprint is
/// the same, saves the same tags: there is still one fingerprint in the tag of the primary type,
/// under the same key.
pub proof fn working_again_saves_the_same_tags(
    first: FileRun,
    second: FileRun,
    process_all: bool,
    process_all_again: bool,
    i: int,
    k: int,
)
    requires
        first.inv(process_all),
        second.inv(process_all_again),
        0 <= i < first.steps.len(),
        0 <= k < second.steps.len(),
        first.steps[i] is Save,
        second.steps[k] is Save,
        second.replies.opened is Ok,
        tags_of(second.replies.opened->Ok_0) == tags_of(first.steps[i]->file),
        kind_of(second.replies.opened->Ok_0) == kind_of(first.steps[i]->file),
        first.replies.fingerprint() == second.replies.fingerprint(),
    ensures
        ({
            let once = tags_of(first.steps[i]->file);
            let twice = tags_of(second.steps[k]->file);
            let tag_type = primary_type_of(first.steps[i]->file)->0;
            let keys = fingerprint_keys(tag_type);
            &&& once.len() == twice.len()
            &&& forall|j: int|
                0 <= j < once.len() ==> {
                    &&& type_of(#[trigger] twice[j]) == type_of(once[j])
                    &&& items_of(twice[j]) == items_of(once[j])
                    &&& pictures_of(twice[j]) == pictures_of(once[j])
                }
            &&& exists|j: int| #[trigger]
                is_first_of_type(twice, tag_type, j) && has_one_under(
                    items_of(twice[j]),
                    keys,
                    first.replies.fingerprint(),
                )
        }),
{
    fingerprint_of_the_decoder_is_saved(
        first.name,
        process_all,
        first.replies,
        first.steps,
        i,
    );
    fingerprint_of_the_decoder_is_saved(
        second.name,
        process_all_again,
        second.replies,
        second.steps,
        k,
    );
    let tag_type = primary_type_of(first.steps[i]->file)->0;
    let text = first.replies.fingerprint();
    let again = second.replies.opened->Ok_0;
    let twice = second.steps[k]->file;
    writing_the_same_again_changes_nothing(
        first.replies.opened->Ok_0,
        again,
        twice,
        tag_type,
        text,
    );
    let j = choose|j: int| is_embedded_at(tags_of(again), tags_of(twice), tag_type, text, j);
    written_text_stands_under_the_first_key(
        items_at(tags_of(again), j),
        items_of(tags_of(twice)[j]),
        tag_type,
        text,
    );
    assert(is_first_of_type(tags_of(twice), tag_type, j));
}

/// Whether one item alone stands under one of the keys: the last one, under the first key, with
/// the given text.
pub open spec fn has_one_under(
    items: Seq<lofty::tag::TagItem>,
    keys: Seq<Seq<char>>,
    text: Seq<char>,
) -> bool {
    &&& items.len() > 0
    &&& key_of(items.last()) == Some(keys[0])
    &&& text_of(items.last()) == Some(text)
    &&& forall|i: int|
        0 <= i < items.len() ==> (is_under(#[trigger] items[i], keys, keys.len() as int) <==> i
            == items.len() - 1)
}

/// A parallel run counts what a walk does: where it works on the files of the tree, in whatever
/// order and merged in whatever groups, and each file ends in the same way, all counts agree.
pub proof fn parallel_run_counts_as_a_walk(
    tree: DirTree,
    root: usize,
    outcome_of: spec_fn(usize) -> FileOutcome,
    walked: RunStats,
    grouping: Grouping,
    merged: RunStats,
)
    requires
        walked.is_of(tree.files_below(root).map_values(outcome_of)),
        grouping.outcomes().to_multiset() == tree.files_below(root).map_values(
            outcome_of,
        ).to_multiset(),
        grouping.gives(merged),
    ensures
        merged == walked,
{
    broadcast use vstd::seq_lib::group_to_multiset_ensures;

    let outcomes = tree.files_below(root).map_values(outcome_of);
    assert(grouping.outcomes().len() == grouping.outcomes().to_multiset().len());
    assert(outcomes.len() == outcomes.to_multiset().len());
    any_grouping_counts_every_file(grouping, merged);
    counts_are_determined(merged, walked, grouping.outcomes(), outcomes);
}

} // verus!
