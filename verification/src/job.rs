//! The work on one audio file, step by step.
//!
//! Each step is something that is asked of the surrounding program; what came of it leads to
//! the next step.

use crate::chroma::{is_base64_url, is_fingerprint_text};
use crate::listing::EntryKind;
use crate::media::{
    audio_extension, ends_in, extension_is_the_name_in_lower_case, extension_of,
    is_supported_name, lower_text,
};
use crate::stats::FileOutcome;
use crate::tags::{
    check_persistence, embed_fingerprint, file_has_fingerprint, fingerprint_keys,
    found_fingerprint_is_a_text_under_a_key, has_fingerprint, has_type, is_embedded,
    is_persistence, items_of, key_of, kind_of, primary_type_of, tag_to_check, tags_of, text_of,
    text_under, text_under_a_key_is_found, type_of, written_fingerprint_is_found, Persistence,
    Placement, TagType,
};
use crate::text::{
    is_blank_text, is_white_space, trim, trimmed, trimming_takes_white_space_off_both_ends,
};
use vstd::prelude::*;
use vstd::string::StringExecFns;

verus! {

/// Why no fingerprint was written, or not for certain.
pub enum FileError {
    /// Neither decoder made a fingerprint. The texts are what they said.
    Undecodable { native_error: String, external_error: String },
    /// The tags cannot be read. The text is what was said.
    UnreadableTags(String),
    /// There is no usual type of tag for the kind of file.
    UnknownFormat,
    /// The tags cannot be saved. The text is what was said.
    Unsaved(String),
    /// The tags cannot be read again. The text is what was said.
    NotReopened(String),
    /// The file that was read again has no tags.
    NoTags,
    /// The fingerprint is not where it was written.
    NotPersisted(Placement),
}

/// What is to be done next for a file.
pub enum Step {
    /// Nothing: it is no audio file.
    Ignore,
    /// Nothing: it holds a fingerprint.
    Skip,
    /// Read the file's tags, to see whether it holds a fingerprint.
    ReadTags { extension: String },
    /// Fingerprint the file with the decoders of this process.
    DecodeNative { extension: String },
    /// Fingerprint the file with the external decoder.
    DecodeExternal { native_error: String },
    /// Read the file's tags, to put the fingerprint into them.
    OpenTags { fingerprint: String },
    /// Save the tags to the file.
    Save { file: lofty::file::TaggedFile, placement: Placement },
    /// Read the file's tags again.
    ReopenTags { placement: Placement },
    /// Nothing: a fingerprint was written.
    Done,
    /// Nothing: an error came up.
    Fail { error: FileError },
}

/// Whether a file is to be fingerprinted, given its tags, if they were read.
pub open spec fn is_needed(process_all: bool, file: Option<&lofty::file::TaggedFile>) -> bool {
    process_all || (file matches Some(file) ==> !has_fingerprint(*file))
}

/// Whether a file is to be fingerprinted, given its tags, if they were read. A file whose tags
/// cannot be read is.
pub fn needs_processing(process_all: bool, file: Option<&lofty::file::TaggedFile>) -> (r: bool)
    ensures
        r == is_needed(process_all, file),
{
    if process_all {
        return true;
    }
    match file {
        Some(file) => !file_has_fingerprint(file),
        None => true,
    }
}

/// Whether `step` is the first one for a file of the given name.
pub open spec fn is_first_step(name: Seq<u8>, process_all: bool, step: Step) -> bool {
    match step {
        Step::Ignore => !is_supported_name(name),
        Step::ReadTags { extension } => is_supported_name(name) && !process_all && extension@
            == lower_text(extension_of(name)->0),
        Step::DecodeNative { extension } => is_supported_name(name) && process_all && extension@
            == lower_text(extension_of(name)->0),
        _ => false,
    }
}

/// The first step for a file of the given name.
pub fn first_step(name: &[u8], process_all: bool) -> (r: Step)
    ensures
        is_first_step(name@, process_all, r),
{
    match audio_extension(name) {
        None => Step::Ignore,
        Some(extension) => if process_all {
            Step::DecodeNative { extension }
        } else {
            Step::ReadTags { extension }
        },
    }
}

/// Whether `step` is the first one for an entry of a directory.
pub open spec fn is_entry_step(
    kind: EntryKind,
    name: Seq<u8>,
    process_all: bool,
    step: Step,
) -> bool {
    if kind == EntryKind::File {
        is_first_step(name, process_all, step)
    } else {
        step is Ignore
    }
}

/// The first step for an entry of a directory: only regular files are worked on.
pub fn entry_step(kind: EntryKind, name: &[u8], process_all: bool) -> (r: Step)
    ensures
        is_entry_step(kind, name@, process_all, r),
        kind != EntryKind::File ==> r is Ignore,
        kind == EntryKind::File ==> is_first_step(name@, process_all, r),
{
    if kind == EntryKind::File {
        first_step(name, process_all)
    } else {
        Step::Ignore
    }
}

/// Whether `step` follows once the tags were read to look for a fingerprint.
pub open spec fn is_after_reading(
    extension: String,
    file: Option<&lofty::file::TaggedFile>,
    step: Step,
) -> bool {
    let found = file matches Some(file) && has_fingerprint(*file);
    match step {
        Step::Skip => found,
        Step::DecodeNative { extension: same } => !found && same@ == extension@,
        _ => false,
    }
}

/// The step after the tags were read to look for a fingerprint; none where they cannot be read.
pub fn after_reading(extension: String, file: Option<&lofty::file::TaggedFile>) -> (r: Step)
    ensures
        is_after_reading(extension, file, r),
{
    if needs_processing(false, file) {
        Step::DecodeNative { extension }
    } else {
        Step::Skip
    }
}

/// Whether `step` follows once the decoders of this process have made a fingerprint, or have
/// failed.
pub open spec fn is_after_native(result: Result<String, String>, step: Step) -> bool {
    match result {
        Ok(text) => step matches Step::OpenTags { fingerprint } && fingerprint@ == text@,
        Err(error) => step matches Step::DecodeExternal { native_error } && native_error@
            == error@,
    }
}

/// The step after the decoders of this process have made a fingerprint, or have failed.
pub fn after_native(result: Result<String, String>) -> (r: Step)
    ensures
        is_after_native(result, r),
{
    match result {
        Ok(fingerprint) => Step::OpenTags { fingerprint },
        Err(native_error) => Step::DecodeExternal { native_error },
    }
}

/// What is said where the external decoder has failed on a file of the given path, given what
/// it wrote to its error output.
pub open spec fn external_failure_text(path: Seq<char>, error_output: Seq<char>) -> Seq<char> {
    "ffmpeg decode failed for "@ + path + ": "@ + trimmed(error_output)
}

/// What is said where the external decoder has failed on a file of the given path, given what
/// it wrote to its error output.
pub fn external_failure(path: &str, error_output: &str) -> (r: String)
    ensures
        r@ == external_failure_text(path@, error_output@),
        r@ == "ffmpeg decode failed for "@ + path@ + ": "@ + trimmed(error_output@),
{
    "ffmpeg decode failed for ".to_owned().concat(path).concat(": ").concat(trim(error_output))
}

/// Whether `step` follows once the external decoder has made a fingerprint, or has failed.
pub open spec fn is_after_external(
    native_error: String,
    result: Result<String, String>,
    step: Step,
) -> bool {
    match result {
        Ok(text) => step matches Step::OpenTags { fingerprint } && fingerprint@ == text@,
        Err(text) => step matches Step::Fail {
            error: FileError::Undecodable { native_error: first, external_error: second },
        } && first@ == native_error@ && second@ == text@,
    }
}

/// The step after the external decoder has made a fingerprint, or has failed.
pub fn after_external(native_error: String, result: Result<String, String>) -> (r: Step)
    ensures
        is_after_external(native_error, result, r),
{
    match result {
        Ok(fingerprint) => Step::OpenTags { fingerprint },
        Err(external_error) => Step::Fail {
            error: FileError::Undecodable { native_error, external_error },
        },
    }
}

/// Whether `step` follows once the tags were read to put the fingerprint into them, or could
/// not be: it stands in the tag of the file's primary type then, under the first key for that
/// type.
pub open spec fn is_after_opening(
    fingerprint: String,
    result: Result<lofty::file::TaggedFile, String>,
    step: Step,
) -> bool {
    match step {
        Step::Save { file: written, placement } => {
            &&& result is Ok
            &&& primary_type_of(result->Ok_0) == Some(placement.tag_type)
            &&& kind_of(written) == kind_of(result->Ok_0)
            &&& placement.key@ == fingerprint_keys(placement.tag_type)[0]
            &&& is_embedded(
                tags_of(result->Ok_0),
                tags_of(written),
                placement.tag_type,
                fingerprint@,
            )
        },
        Step::Fail { error: FileError::UnreadableTags(error) } => result is Err && error@
            == result->Err_0@,
        Step::Fail { error: FileError::UnknownFormat } => result is Ok && primary_type_of(
            result->Ok_0,
        ) is None,
        _ => false,
    }
}

/// The step after the tags were read to put the fingerprint into them, or could not be.
pub fn after_opening(
    fingerprint: String,
    result: Result<lofty::file::TaggedFile, String>,
) -> (r: Step)
    ensures
        is_after_opening(fingerprint, result, r),
{
    match result {
        Err(error) => Step::Fail { error: FileError::UnreadableTags(error) },
        Ok(file) => {
            let mut file = file;
            match embed_fingerprint(&mut file, fingerprint) {
                Some(placement) => Step::Save { file, placement },
                None => Step::Fail { error: FileError::UnknownFormat },
            }
        },
    }
}

/// Whether `step` follows once the tags were saved, or could not be.
pub open spec fn is_after_saving(
    placement: Placement,
    result: Result<(), String>,
    step: Step,
) -> bool {
    match result {
        Ok(_) => step == (Step::ReopenTags { placement }),
        Err(text) => step matches Step::Fail { error: FileError::Unsaved(error) } && error@
            == text@,
    }
}

/// The step after the tags were saved, or could not be.
pub fn after_saving(placement: Placement, result: Result<(), String>) -> (r: Step)
    ensures
        is_after_saving(placement, result, r),
{
    match result {
        Ok(_) => Step::ReopenTags { placement },
        Err(error) => Step::Fail { error: FileError::Unsaved(error) },
    }
}

/// Whether it is known in which tag of a file that was read again to look for a fingerprint.
pub open spec fn is_checkable(file: lofty::file::TaggedFile, tag_type: TagType) -> bool {
    has_type(tags_of(file), tag_type) || primary_type_of(file) is Some
}

/// Whether a file that was read again shows a text where the fingerprint was written.
pub open spec fn is_shown(
    file: lofty::file::TaggedFile,
    tag_type: TagType,
    key: Seq<char>,
) -> bool {
    tag_to_check(file, tag_type) matches Some(tag) && text_under(items_of(tag), key) is Some
}

/// Whether `step` follows once the tags were read again, or could not be.
pub open spec fn is_after_reopening(
    placement: Placement,
    result: Result<lofty::file::TaggedFile, String>,
    step: Step,
) -> bool {
    match result {
        Err(text) => step matches Step::Fail { error: FileError::NotReopened(error) } && error@
            == text@,
        Ok(file) => {
            let checkable = is_checkable(file, placement.tag_type);
            let tag = tag_to_check(file, placement.tag_type);
            let shown = is_shown(file, placement.tag_type, placement.key@);
            match step {
                Step::Done => checkable && shown,
                Step::Fail { error: FileError::UnknownFormat } => !checkable,
                Step::Fail { error: FileError::NoTags } => checkable && tag is None,
                Step::Fail { error: FileError::NotPersisted(missing) } => checkable && tag is Some
                    && !shown && missing == placement,
                _ => false,
            }
        },
    }
}

/// The step after the tags were read again, or could not be. It shows whether the fingerprint
/// was kept: a file format may drop what it has no place for.
pub fn after_reopening(
    placement: Placement,
    result: Result<lofty::file::TaggedFile, String>,
) -> (r: Step)
    ensures
        is_after_reopening(placement, result, r),
{
    match result {
        Err(error) => Step::Fail { error: FileError::NotReopened(error) },
        Ok(file) => match check_persistence(&file, placement.tag_type, placement.key) {
            Persistence::Persisted => Step::Done,
            Persistence::Dropped => Step::Fail { error: FileError::NotPersisted(placement) },
            Persistence::NoTags => Step::Fail { error: FileError::NoTags },
            Persistence::UnknownFormat => Step::Fail { error: FileError::UnknownFormat },
        },
    }
}

/// The name of a tag type.
pub open spec fn tag_type_name(tag_type: TagType) -> Seq<char> {
    match tag_type {
        TagType::Ape => "Ape"@,
        TagType::Id3v1 => "Id3v1"@,
        TagType::Id3v2 => "Id3v2"@,
        TagType::Mp4Ilst => "Mp4Ilst"@,
        TagType::VorbisComments => "VorbisComments"@,
        TagType::RiffInfo => "RiffInfo"@,
        TagType::AiffText => "AiffText"@,
    }
}

impl FileError {
    /// What is said of the error for a file of the given path.
    pub open spec fn text(self, path: Seq<char>) -> Seq<char> {
        match self {
            FileError::Undecodable { native_error, .. } => "SFS decode failed ("@ + native_error@
                + "); ffmpeg fallback also failed"@,
            FileError::UnreadableTags(_) => "Lofty cannot read this file type for tagging: "@
                + path,
            FileError::UnknownFormat => "No primary tag type for this file type"@,
            FileError::Unsaved(error) => error@,
            FileError::NotReopened(error) => error@,
            FileError::NoTags => "Failed to re-open tags for verification"@,
            FileError::NotPersisted(placement) => "Fingerprint tag did not persist (tag_type="@
                + tag_type_name(placement.tag_type) + ", key=Unknown(\""@ + placement.key@
                + "\"))"@,
        }
    }

    /// What is said of the error for a file of the given path.
    pub fn message(&self, path: &str) -> (r: String)
        ensures
            r@ == self.text(path@),
    {
        match self {
            FileError::Undecodable { native_error, .. } => "SFS decode failed (".to_owned().concat(
                native_error.as_str(),
            ).concat("); ffmpeg fallback also failed"),
            FileError::UnreadableTags(_) => {
                "Lofty cannot read this file type for tagging: ".to_owned().concat(path)
            },
            FileError::UnknownFormat => "No primary tag type for this file type".to_owned(),
            FileError::Unsaved(error) => error.as_str().to_owned(),
            FileError::NotReopened(error) => error.as_str().to_owned(),
            FileError::NoTags => "Failed to re-open tags for verification".to_owned(),
            FileError::NotPersisted(placement) => {
                let name: &'static str = match placement.tag_type {
                    TagType::Ape => "Ape",
                    TagType::Id3v1 => "Id3v1",
                    TagType::Id3v2 => "Id3v2",
                    TagType::Mp4Ilst => "Mp4Ilst",
                    TagType::VorbisComments => "VorbisComments",
                    TagType::RiffInfo => "RiffInfo",
                    TagType::AiffText => "AiffText",
                };
                "Fingerprint tag did not persist (tag_type=".to_owned().concat(name).concat(
                    ", key=Unknown(\"",
                ).concat(placement.key).concat("\"))")
            },
        }
    }
}

impl Step {
    /// How the work on the file has ended; none where it has not, or there is nothing to count.
    pub open spec fn ended(self) -> Option<FileOutcome> {
        match self {
            Step::Skip => Some(FileOutcome::Skipped),
            Step::Done => Some(FileOutcome::Tagged),
            Step::Fail { .. } => Some(FileOutcome::Failed),
            _ => None,
        }
    }

    /// How the work on the file has ended; none where it has not, or there is nothing to count.
    pub fn outcome(&self) -> (r: Option<FileOutcome>)
        ensures
            r == self.ended(),
    {
        match self {
            Step::Skip => Some(FileOutcome::Skipped),
            Step::Done => Some(FileOutcome::Tagged),
            Step::Fail { .. } => Some(FileOutcome::Failed),
            _ => None,
        }
    }
}

/// What the surrounding program comes back with for a file, step by step.
pub ghost struct Replies {
    pub read: Option<lofty::file::TaggedFile>,
    pub native: Result<String, String>,
    pub external: Result<String, String>,
    pub opened: Result<lofty::file::TaggedFile, String>,
    pub saved: Result<(), String>,
    pub reopened: Result<lofty::file::TaggedFile, String>,
}

impl Replies {
    /// Whether `next` follows on `step`.
    pub open spec fn leads_to(self, step: Step, next: Step) -> bool {
        match step {
            Step::ReadTags { extension } => is_after_reading(
                extension,
                match self.read {
                    Some(file) => Some(&file),
                    None => None,
                },
                next,
            ),
            Step::DecodeNative { extension } => is_after_native(self.native, next),
            Step::DecodeExternal { native_error } => is_after_external(
                native_error,
                self.external,
                next,
            ),
            Step::OpenTags { fingerprint } => is_after_opening(fingerprint, self.opened, next),
            Step::Save { file, placement } => is_after_saving(placement, self.saved, next),
            Step::ReopenTags { placement } => is_after_reopening(placement, self.reopened, next),
            _ => false,
        }
    }

    /// Whether the step at `i` is followed by the next one.
    pub open spec fn lead_on(self, steps: Seq<Step>, i: int) -> bool {
        self.leads_to(steps[i], steps[i + 1])
    }

    /// Whether these are all the steps for a file, from the first to one that ends the work.
    pub open spec fn are_steps(
        self,
        name: Seq<u8>,
        process_all: bool,
        steps: Seq<Step>,
    ) -> bool {
        &&& steps.len() > 0
        &&& is_first_step(name, process_all, steps[0])
        &&& forall|i: int| 0 <= i < steps.len() - 1 ==> #[trigger] self.lead_on(steps, i)
        &&& steps.last() is Ignore || steps.last().ended() is Some
    }

    /// Whether the file is found to hold a fingerprint.
    pub open spec fn show_fingerprint(self) -> bool {
        self.read matches Some(file) && has_fingerprint(file)
    }

    /// Whether one of the decoders makes a fingerprint.
    pub open spec fn hold_fingerprint(self) -> bool {
        self.native is Ok || self.external is Ok
    }

    /// The fingerprint: that of the decoders of this process or, where they fail, that of the
    /// external decoder.
    pub open spec fn fingerprint(self) -> Seq<char> {
        match self.native {
            Ok(text) => text@,
            Err(_) => (self.external->Ok_0)@,
        }
    }

    /// Whether the fingerprint is written, and found where it was written.
    pub open spec fn keep_fingerprint(self) -> bool {
        &&& self.opened is Ok
        &&& primary_type_of(self.opened->Ok_0) is Some
        &&& self.saved is Ok
        &&& self.reopened is Ok
        &&& ({
            let tag_type = primary_type_of(self.opened->Ok_0)->0;
            &&& is_checkable(self.reopened->Ok_0, tag_type)
            &&& is_shown(self.reopened->Ok_0, tag_type, fingerprint_keys(tag_type)[0])
        })
    }
}

/// The work on a file takes at most seven steps. A file that is no audio file is ignored. One
/// that holds a fingerprint is skipped, unless all files are to be worked on. Any other ends up
/// tagged if and only if one of the decoders makes a fingerprint, and it is written and found
/// where it was written.
pub proof fn work_on_a_file_ends(
    name: Seq<u8>,
    process_all: bool,
    replies: Replies,
    steps: Seq<Step>,
)
    requires
        replies.are_steps(name, process_all, steps),
    ensures
        ({
            let skipped = !process_all && replies.show_fingerprint();
            let tagged = !skipped && replies.hold_fingerprint() && replies.keep_fingerprint();
            &&& steps.len() <= 7
            &&& steps.last() is Ignore == !is_supported_name(name)
            &&& is_supported_name(name) ==> steps.last().ended() == Some(
                if skipped {
                    FileOutcome::Skipped
                } else if tagged {
                    FileOutcome::Tagged
                } else {
                    FileOutcome::Failed
                },
            )
        }),
{
    assert(steps.len() > 1 ==> replies.lead_on(steps, 0));
    assert(steps.len() > 2 ==> replies.lead_on(steps, 1));
    assert(steps.len() > 3 ==> replies.lead_on(steps, 2));
    assert(steps.len() > 4 ==> replies.lead_on(steps, 3));
    assert(steps.len() > 5 ==> replies.lead_on(steps, 4));
    assert(steps.len() > 6 ==> replies.lead_on(steps, 5));
    assert(steps.len() > 7 ==> replies.lead_on(steps, 6));
}

/// The external decoder is asked only once the decoders of this process have failed.
pub proof fn external_decoder_is_the_fallback(
    name: Seq<u8>,
    process_all: bool,
    replies: Replies,
    steps: Seq<Step>,
    i: int,
)
    requires
        replies.are_steps(name, process_all, steps),
        0 <= i < steps.len(),
        steps[i] is DecodeExternal,
    ensures
        replies.native is Err,
        i > 0,
        steps[i - 1] is DecodeNative,
{
    assert(i > 0 ==> replies.lead_on(steps, i - 1));
}

/// A file that holds a fingerprint is only read, and nothing is saved to it, unless all files
/// are to be worked on.
pub proof fn fingerprinted_file_is_left_alone(
    name: Seq<u8>,
    replies: Replies,
    steps: Seq<Step>,
    i: int,
)
    requires
        replies.are_steps(name, false, steps),
        replies.show_fingerprint(),
        0 <= i < steps.len(),
    ensures
        steps[i] is Ignore || steps[i] is ReadTags || steps[i] is Skip,
{
    assert(steps.len() > 1 ==> replies.lead_on(steps, 0));
    assert(steps.len() > 2 ==> replies.lead_on(steps, 1));
}

/// A run over all files skips none.
pub proof fn run_over_all_files_skips_none(
    name: Seq<u8>,
    replies: Replies,
    steps: Seq<Step>,
    i: int,
)
    requires
        replies.are_steps(name, true, steps),
        0 <= i < steps.len(),
    ensures
        !(steps[i] is Skip),
        !(steps[i] is ReadTags),
    decreases i,
{
    if i > 0 {
        assert(replies.lead_on(steps, i - 1));
        run_over_all_files_skips_none(name, replies, steps, i - 1);
    }
}

/// What is saved to a file are its own tags with the fingerprint in them that the decoders of
/// this process made or, where they failed, the external decoder.
pub proof fn fingerprint_of_the_decoder_is_saved(
    name: Seq<u8>,
    process_all: bool,
    replies: Replies,
    steps: Seq<Step>,
    i: int,
)
    requires
        replies.are_steps(name, process_all, steps),
        0 <= i < steps.len(),
        steps[i] is Save,
    ensures
        replies.opened is Ok,
        replies.hold_fingerprint(),
        kind_of(steps[i]->file) == kind_of(replies.opened->Ok_0),
        is_embedded(
            tags_of(replies.opened->Ok_0),
            tags_of(steps[i]->file),
            primary_type_of(replies.opened->Ok_0)->0,
            replies.fingerprint(),
        ),
{
    assert(i > 0 ==> replies.lead_on(steps, i - 1));
    assert(i > 1 ==> replies.lead_on(steps, i - 2));
    assert(i > 2 ==> replies.lead_on(steps, i - 3));
}

/// A run can be repeated: a file into which a fingerprint was written is skipped by the next
/// run that reads the tags that were saved.
pub proof fn written_file_is_skipped_next_time(
    before: lofty::file::TaggedFile,
    written: lofty::file::TaggedFile,
    again: lofty::file::TaggedFile,
    tag_type: TagType,
    fingerprint: Seq<char>,
    extension: String,
    step: Step,
)
    requires
        is_embedded(tags_of(before), tags_of(written), tag_type, fingerprint),
        is_fingerprint_text(fingerprint),
        tags_of(again) == tags_of(written),
        is_after_reading(extension, Some(&again), step),
    ensures
        step is Skip,
{
    fingerprint_is_not_blank(fingerprint);
    written_fingerprint_is_found(before, written, tag_type, fingerprint);
}

/// The text of a fingerprint is not blank.
pub proof fn fingerprint_is_not_blank(text: Seq<char>)
    requires
        is_fingerprint_text(text),
    ensures
        !is_blank_text(text),
{
    assert(is_base64_url(text[0]));
    assert(!is_white_space(text[0]));
}

/// An entry is worked on if and only if it is a regular file with a supported name. Its tags are
/// read first, unless all files are to be worked on; then it is decoded at once. The decoders are
/// handed the end of its name, in lower case.
pub proof fn work_starts_on_audio_files(
    kind: EntryKind,
    name: Seq<u8>,
    process_all: bool,
    step: Step,
)
    requires
        is_entry_step(kind, name, process_all, step),
    ensures
        step is Ignore <==> kind != EntryKind::File || !is_supported_name(name),
        step is ReadTags <==> kind == EntryKind::File && is_supported_name(name) && !process_all,
        step is DecodeNative <==> kind == EntryKind::File && is_supported_name(name)
            && process_all,
        step matches Step::ReadTags { extension } ==> ends_in(name, extension@) && is_lower(
            extension@,
        ),
        step matches Step::DecodeNative { extension } ==> ends_in(name, extension@) && is_lower(
            extension@,
        ),
{
    if is_supported_name(name) {
        extension_is_the_name_in_lower_case(name);
    }
}

/// Whether a text is made of lower-case letters and digits.
pub open spec fn is_lower(text: Seq<char>) -> bool {
    forall|i: int|
        0 <= i < text.len() ==> 'a' <= (#[trigger] text[i]) <= 'z' || '0' <= text[i] <= '9'
}

/// A file is worked on where none of its items stands under one of the keys for the type of its
/// tag with a text that is more than white space. So is every file, where all are to be, and one
/// whose tags cannot be read.
pub proof fn file_without_a_fingerprint_is_worked_on(
    file: lofty::file::TaggedFile,
    process_all: bool,
)
    requires
        forall|t: int, i: int|
            0 <= t < tags_of(file).len() && 0 <= i < items_of(tags_of(file)[t]).len() && key_of(
                #[trigger] items_of(tags_of(file)[t])[i],
            ) is Some && fingerprint_keys(type_of(tags_of(file)[t])).contains(
                key_of(items_of(tags_of(file)[t])[i])->0,
            ) ==> (text_of(items_of(tags_of(file)[t])[i]) matches Some(text) ==> forall|c: int|
                0 <= c < text.len() ==> is_white_space(#[trigger] text[c])),
    ensures
        is_needed(process_all, Some(&file)),
        is_needed(process_all, None),
{
    if has_fingerprint(file) {
        let (t, i, c) = found_fingerprint_is_a_text_under_a_key(file);
        let item = items_of(tags_of(file)[t])[i];
        assert(key_of(item) is Some);
    }
}

/// A file is left out only in a run that is not over all files, and where one of its items stands
/// under one of the keys for the type of its tag and has a text that is more than white space.
pub proof fn file_is_left_out_for_a_fingerprint_only(
    file: lofty::file::TaggedFile,
    process_all: bool,
) -> (r: (int, int, int))
    requires
        !is_needed(process_all, Some(&file)),
    ensures
        !process_all,
        0 <= r.0 < tags_of(file).len(),
        0 <= r.1 < items_of(tags_of(file)[r.0]).len(),
        ({
            let tag = tags_of(file)[r.0];
            let item = items_of(tag)[r.1];
            &&& key_of(item) is Some
            &&& fingerprint_keys(type_of(tag)).contains(key_of(item)->0)
            &&& text_of(item) is Some
            &&& 0 <= r.2 < text_of(item)->0.len()
            &&& !is_white_space(text_of(item)->0[r.2])
        }),
{
    found_fingerprint_is_a_text_under_a_key(file)
}

/// Where the first item under one of the keys for the type of its tag has a text that is more
/// than white space, the file needs no work, unless all files are to be worked on.
pub proof fn file_with_a_fingerprint_needs_no_work(
    file: lofty::file::TaggedFile,
    t: int,
    i: int,
    c: int,
)
    requires
        0 <= t < tags_of(file).len(),
        0 <= i < items_of(tags_of(file)[t]).len(),
        ({
            let tag = tags_of(file)[t];
            let item = items_of(tag)[i];
            &&& key_of(item) is Some
            &&& fingerprint_keys(type_of(tag)).contains(key_of(item)->0)
            &&& forall|j: int|
                0 <= j < i ==> key_of(#[trigger] items_of(tag)[j]) != key_of(item)
            &&& text_of(item) is Some
            &&& 0 <= c < text_of(item)->0.len()
            &&& !is_white_space(text_of(item)->0[c])
        }),
    ensures
        !is_needed(false, Some(&file)),
        is_needed(true, Some(&file)),
{
    text_under_a_key_is_found(file, t, i, c);
}

/// Once its tags were read, a file is skipped or decoded, as it needs to be; what is handed on of
/// its name stays.
pub proof fn reading_decides_on_the_work(
    extension: String,
    file: Option<&lofty::file::TaggedFile>,
    step: Step,
)
    requires
        is_after_reading(extension, file, step),
    ensures
        step is DecodeNative <==> is_needed(false, file),
        step is Skip <==> !is_needed(false, file),
        step matches Step::DecodeNative { extension: same } ==> same@ == extension@,
        file is None ==> step is DecodeNative,
{
}

/// What was read again shows the fingerprint, and the work has ended well, if and only if it is
/// found where it was written; else the error says what is missing.
pub proof fn work_ends_well_where_the_fingerprint_is_found(
    placement: Placement,
    file: lofty::file::TaggedFile,
    step: Step,
    found: Persistence,
)
    requires
        is_after_reopening(placement, Ok(file), step),
        is_persistence(file, placement.tag_type, placement.key@, found),
    ensures
        step is Done <==> found == Persistence::Persisted,
        step matches Step::Fail { error: FileError::NotPersisted(missing) } && missing == placement
            <==> found == Persistence::Dropped,
        step matches Step::Fail { error: FileError::NoTags } <==> found == Persistence::NoTags,
        step matches Step::Fail { error: FileError::UnknownFormat } <==> found
            == Persistence::UnknownFormat,
{
}

/// The outcome of a step is that of the way in which it ends the work; other steps have none.
pub proof fn only_ends_have_outcomes(step: Step)
    ensures
        step.ended() == Some(FileOutcome::Skipped) <==> step is Skip,
        step.ended() == Some(FileOutcome::Tagged) <==> step is Done,
        step.ended() == Some(FileOutcome::Failed) <==> step is Fail,
        step.ended() is None <==> !(step is Skip || step is Done || step is Fail),
{
}

/// Where the work on a file ends with an error, the error tells what failed, and holds what was
/// said of it.
pub proof fn errors_tell_what_failed(
    name: Seq<u8>,
    process_all: bool,
    replies: Replies,
    steps: Seq<Step>,
    error: FileError,
)
    requires
        replies.are_steps(name, process_all, steps),
        steps.last() == (Step::Fail { error }),
    ensures
        error is Undecodable <==> replies.native is Err && replies.external is Err,
        error matches FileError::Undecodable { native_error, external_error } ==> native_error@
            == (replies.native->Err_0)@ && external_error@ == (replies.external->Err_0)@,
        error is UnreadableTags <==> (replies.native is Ok || replies.external is Ok)
            && replies.opened is Err,
        error matches FileError::UnreadableTags(text) ==> text@ == (replies.opened->Err_0)@,
        error is Unsaved ==> replies.opened is Ok && replies.saved is Err,
        error matches FileError::Unsaved(text) ==> text@ == (replies.saved->Err_0)@,
        error is NotReopened ==> replies.opened is Ok && replies.saved is Ok && replies.reopened
            is Err,
        error matches FileError::NotReopened(text) ==> text@ == (replies.reopened->Err_0)@,
        error is NoTags || error is NotPersisted ==> replies.opened is Ok && replies.saved is Ok
            && replies.reopened is Ok,
        error matches FileError::NotPersisted(placement) ==> Some(placement.tag_type)
            == primary_type_of(replies.opened->Ok_0) && placement.key@ == fingerprint_keys(
            placement.tag_type,
        )[0],
{
    assert(steps.len() > 1 ==> replies.lead_on(steps, 0));
    assert(steps.len() > 2 ==> replies.lead_on(steps, 1));
    assert(steps.len() > 3 ==> replies.lead_on(steps, 2));
    assert(steps.len() > 4 ==> replies.lead_on(steps, 3));
    assert(steps.len() > 5 ==> replies.lead_on(steps, 4));
    assert(steps.len() > 6 ==> replies.lead_on(steps, 5));
    assert(steps.len() > 7 ==> replies.lead_on(steps, 6));
}

/// The message of an error holds, between fixed words, what was said of it, or the path.
pub proof fn messages_hold_what_was_said(error: FileError, path: Seq<char>)
    ensures
        error matches FileError::Undecodable { native_error, external_error } ==> error.text(path)
            == "SFS decode failed ("@ + native_error@ + "); ffmpeg fallback also failed"@,
        error is UnreadableTags ==> error.text(path)
            == "Lofty cannot read this file type for tagging: "@ + path,
        error matches FileError::Unsaved(said) ==> error.text(path) == said@,
        error matches FileError::NotReopened(said) ==> error.text(path) == said@,
        error is NoTags ==> error.text(path) == "Failed to re-open tags for verification"@,
        error matches FileError::NotPersisted(placement) ==> error.text(path)
            == "Fingerprint tag did not persist (tag_type="@ + (match placement.tag_type {
            TagType::Ape => "Ape"@,
            TagType::Id3v1 => "Id3v1"@,
            TagType::Id3v2 => "Id3v2"@,
            TagType::Mp4Ilst => "Mp4Ilst"@,
            TagType::VorbisComments => "VorbisComments"@,
            TagType::RiffInfo => "RiffInfo"@,
            TagType::AiffText => "AiffText"@,
        }) + ", key=Unknown(\""@ + placement.key@ + "\"))"@,
{
}

/// What is said of the external decoder's failure names the path, and ends with what it wrote to
/// its error output, from its first to its last character that is not white space.
pub proof fn failure_of_the_decoder_is_told(path: Seq<char>, error_output: Seq<char>) -> (r: (
    int,
    int,
))
    ensures
        0 <= r.0 <= r.1 <= error_output.len(),
        external_failure_text(path, error_output) == "ffmpeg decode failed for "@ + path + ": "@
            + error_output.subrange(r.0, r.1),
        forall|i: int|
            0 <= i < error_output.len() && !(r.0 <= i < r.1) ==> is_white_space(
                #[trigger] error_output[i],
            ),
        r.0 < r.1 ==> !is_white_space(error_output[r.0]) && !is_white_space(
            error_output[r.1 - 1],
        ),
{
    trimming_takes_white_space_off_both_ends(error_output)
}

} // verus!
