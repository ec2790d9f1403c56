use lofty::file::{FileType, TaggedFile, TaggedFileExt};
use lofty::picture::{Picture, PictureType};
use lofty::properties::FileProperties;
use lofty::tag::{ItemKey, ItemValue, Tag, TagItem};
use oxide::job::{
    after_external, after_native, after_opening, after_reading, after_reopening, after_saving,
    entry_step, external_failure, first_step, needs_processing, FileError, Step,
};
use oxide::listing::EntryKind;
use oxide::stats::{report_if_nothing_to_do, FileOutcome, RunStats};
use oxide::tags::{
    acoustid_fingerprint_keys, check_persistence, embed_fingerprint, file_has_fingerprint,
    Persistence, Placement, TagType,
};

const TYPES: [(TagType, lofty::tag::TagType); 7] = [
    (TagType::Ape, lofty::tag::TagType::Ape),
    (TagType::Id3v1, lofty::tag::TagType::Id3v1),
    (TagType::Id3v2, lofty::tag::TagType::Id3v2),
    (TagType::Mp4Ilst, lofty::tag::TagType::Mp4Ilst),
    (TagType::VorbisComments, lofty::tag::TagType::VorbisComments),
    (TagType::RiffInfo, lofty::tag::TagType::RiffInfo),
    (TagType::AiffText, lofty::tag::TagType::AiffText),
];

fn file(kind: FileType, tags: Vec<Tag>) -> TaggedFile {
    TaggedFile::new(kind, FileProperties::default(), tags)
}

fn unknown(key: &str) -> ItemKey {
    ItemKey::Unknown(key.to_string())
}

fn text_item(key: &str, text: &str) -> TagItem {
    TagItem::new(unknown(key), ItemValue::Text(text.to_string()))
}

fn tag(kind: lofty::tag::TagType, items: &[(&str, &str)]) -> Tag {
    let mut tag = Tag::new(kind);
    for (key, text) in items {
        tag.push_unchecked(text_item(key, text));
    }
    tag
}

#[test]
fn keys_for_each_type() {
    assert_eq!(
        acoustid_fingerprint_keys(TagType::VorbisComments),
        vec![
            "ACOUSTID_FINGERPRINT",
            "Acoustid Fingerprint",
            "acoustid_fingerprint",
            "acoustid fingerprint"
        ]
    );
    assert_eq!(
        acoustid_fingerprint_keys(TagType::Id3v2),
        vec!["Acoustid Fingerprint", "ACOUSTID_FINGERPRINT"]
    );
    assert_eq!(
        acoustid_fingerprint_keys(TagType::Mp4Ilst),
        vec![
            "----:com.apple.iTunes:Acoustid Fingerprint",
            "----:com.apple.iTunes:ACOUSTID_FINGERPRINT"
        ]
    );
    assert_eq!(
        acoustid_fingerprint_keys(TagType::Ape),
        vec!["ACOUSTID_FINGERPRINT", "Acoustid Fingerprint", "acoustid_fingerprint"]
    );
    for other in [TagType::Id3v1, TagType::RiffInfo, TagType::AiffText] {
        assert_eq!(acoustid_fingerprint_keys(other), vec!["Acoustid Fingerprint"]);
    }
}

#[test]
fn fingerprint_is_found_under_every_key_of_every_type() {
    for (kind, outside) in TYPES {
        for key in acoustid_fingerprint_keys(kind) {
            let found = file(FileType::Mpeg, vec![tag(outside, &[("x", "y"), (key, "AQAA")])]);
            assert!(file_has_fingerprint(&found), "{:?} {}", kind, key);
        }
    }
}

#[test]
fn fingerprint_is_found_in_any_tag() {
    let found = file(
        FileType::Mpeg,
        vec![
            tag(lofty::tag::TagType::Id3v2, &[("x", "y")]),
            tag(lofty::tag::TagType::Ape, &[("acoustid_fingerprint", "AQAA")]),
        ],
    );
    assert!(file_has_fingerprint(&found));
}

#[test]
fn fingerprint_is_not_found() {
    let id3 = lofty::tag::TagType::Id3v2;
    assert!(!file_has_fingerprint(&file(FileType::Mpeg, vec![])));
    assert!(!file_has_fingerprint(&file(FileType::Mpeg, vec![Tag::new(id3)])));
    let key = "Acoustid Fingerprint";
    for items in [
        &[(key, "")][..],
        &[(key, " \t\u{a0}")][..],
        &[("acoustid_fingerprint", "AQAA")][..],
        &[("Acoustid Id", "AQAA")][..],
        &[(key, " "), (key, "AQAA")][..],
    ] {
        assert!(!file_has_fingerprint(&file(FileType::Mpeg, vec![tag(id3, items)])));
    }
    let mut binary = Tag::new(id3);
    binary.push_unchecked(TagItem::new(unknown(key), ItemValue::Binary(vec![65])));
    assert!(!file_has_fingerprint(&file(FileType::Mpeg, vec![binary])));
}

#[test]
fn fingerprint_goes_into_a_new_primary_tag() {
    for (kind, primary, key) in [
        (FileType::Flac, TagType::VorbisComments, "ACOUSTID_FINGERPRINT"),
        (FileType::Opus, TagType::VorbisComments, "ACOUSTID_FINGERPRINT"),
        (FileType::Vorbis, TagType::VorbisComments, "ACOUSTID_FINGERPRINT"),
        (FileType::Mpeg, TagType::Id3v2, "Acoustid Fingerprint"),
        (FileType::Wav, TagType::Id3v2, "Acoustid Fingerprint"),
        (FileType::Mp4, TagType::Mp4Ilst, "----:com.apple.iTunes:Acoustid Fingerprint"),
        (FileType::Ape, TagType::Ape, "ACOUSTID_FINGERPRINT"),
        (FileType::WavPack, TagType::Ape, "ACOUSTID_FINGERPRINT"),
    ] {
        let mut target = file(kind, vec![]);
        let placement = embed_fingerprint(&mut target, "AQAA".to_string()).unwrap();
        assert_eq!(placement.tag_type, primary);
        assert_eq!(placement.key, key);
        assert_eq!(target.tags().len(), 1);
        assert_eq!(target.tags()[0].tag_type(), target.primary_tag_type());
        assert_eq!(target.tags()[0].get_string(&unknown(key)), Some("AQAA"));
        assert!(file_has_fingerprint(&target));
    }
}

#[test]
fn fingerprint_replaces_all_others_of_its_tag() {
    let mut target = file(
        FileType::Flac,
        vec![
            tag(lofty::tag::TagType::Id3v2, &[("Acoustid Fingerprint", "old")]),
            tag(
                lofty::tag::TagType::VorbisComments,
                &[
                    ("acoustid fingerprint", "old"),
                    ("FIRST", "1"),
                    ("ACOUSTID_FINGERPRINT", "old"),
                    ("ACOUSTID_FINGERPRINT", "older"),
                    ("SECOND", "2"),
                    ("Acoustid Fingerprint", "old"),
                ],
            ),
        ],
    );
    embed_fingerprint(&mut target, "new".to_string()).unwrap();
    let kept: Vec<(ItemKey, Option<&str>)> =
        target.tags()[1].items().map(|i| (i.key().clone(), i.value().text())).collect();
    assert_eq!(
        kept,
        vec![
            (unknown("FIRST"), Some("1")),
            (unknown("SECOND"), Some("2")),
            (unknown("ACOUSTID_FINGERPRINT"), Some("new")),
        ]
    );
    assert_eq!(target.tags().len(), 2);
    assert_eq!(target.tags()[0].get_string(&unknown("Acoustid Fingerprint")), Some("old"));
}

#[test]
fn title_and_pictures_are_kept() {
    let mut flac = Tag::new(lofty::tag::TagType::VorbisComments);
    let mut title = TagItem::new(ItemKey::TrackTitle, ItemValue::Text("x".to_string()));
    title.set_lang(*b"eng");
    title.set_description("first".to_string());
    flac.push_unchecked(title.clone());
    flac.push_unchecked(text_item("ACOUSTID_FINGERPRINT", "old1"));
    flac.push_unchecked(text_item("acoustid_fingerprint", "old2"));
    flac.push_unchecked(text_item("Acoustid Fingerprint", "old3"));
    let binary = TagItem::new(unknown("COVER"), ItemValue::Binary(vec![1, 2, 3]));
    flac.push_unchecked(binary.clone());
    let picture = Picture::new_unchecked(PictureType::CoverFront, None, None, vec![9, 9]);
    flac.push_picture(picture.clone());

    let mut target = file(FileType::Flac, vec![flac]);
    embed_fingerprint(&mut target, "AQAD".to_string()).unwrap();
    let items: Vec<TagItem> = target.tags()[0].items().cloned().collect();
    assert_eq!(items, vec![title, binary, text_item("ACOUSTID_FINGERPRINT", "AQAD")]);
    assert_eq!(target.tags()[0].pictures(), &[picture]);
}

#[test]
fn every_kind_of_file_has_its_tag_type() {
    for (kind, primary) in [
        (FileType::Aac, TagType::Id3v2),
        (FileType::Aiff, TagType::Id3v2),
        (FileType::Ape, TagType::Ape),
        (FileType::Flac, TagType::VorbisComments),
        (FileType::Mpeg, TagType::Id3v2),
        (FileType::Mp4, TagType::Mp4Ilst),
        (FileType::Mpc, TagType::Ape),
        (FileType::Opus, TagType::VorbisComments),
        (FileType::Vorbis, TagType::VorbisComments),
        (FileType::Speex, TagType::VorbisComments),
        (FileType::Wav, TagType::Id3v2),
        (FileType::WavPack, TagType::Ape),
    ] {
        let mut target = file(kind, vec![]);
        let placement = embed_fingerprint(&mut target, "AQAA".to_string()).unwrap();
        assert_eq!(placement.tag_type, primary);
        assert_eq!(target.file_type(), kind);
    }
}

#[test]
fn writing_twice_is_writing_once() {
    let mut target = file(
        FileType::Mpeg,
        vec![tag(lofty::tag::TagType::Id3v2, &[("x", "y"), ("ACOUSTID_FINGERPRINT", "old")])],
    );
    embed_fingerprint(&mut target, "new".to_string()).unwrap();
    let once: Vec<TagItem> = target.tags()[0].items().cloned().collect();
    embed_fingerprint(&mut target, "new".to_string()).unwrap();
    let twice: Vec<TagItem> = target.tags()[0].items().cloned().collect();
    assert_eq!(once, twice);
    embed_fingerprint(&mut target, "newer".to_string()).unwrap();
    assert_eq!(target.tags()[0].items().count(), 2);
    let key = unknown("Acoustid Fingerprint");
    assert_eq!(target.tags()[0].get_string(&key), Some("newer"));
}

#[test]
fn foreign_kind_of_file_is_left_as_it_is() {
    let mut target = file(
        FileType::Custom("foreign"),
        vec![tag(lofty::tag::TagType::Id3v2, &[("x", "y")])],
    );
    assert!(embed_fingerprint(&mut target, "AQAA".to_string()).is_none());
    assert_eq!(target.tags()[0].items().count(), 1);
    let key = "Acoustid Fingerprint";
    assert_eq!(check_persistence(&target, TagType::Ape, key), Persistence::UnknownFormat);
    assert_eq!(check_persistence(&target, TagType::Id3v2, "x"), Persistence::Persisted);
}

#[test]
fn written_fingerprint_is_looked_for() {
    let ape = lofty::tag::TagType::Ape;
    let id3 = lofty::tag::TagType::Id3v2;
    let key = "K";
    // The first tag of the type decides, though another has the key.
    let own = file(FileType::Mpeg, vec![tag(id3, &[(key, "")]), tag(ape, &[])]);
    assert_eq!(check_persistence(&own, TagType::Id3v2, key), Persistence::Persisted);
    assert_eq!(check_persistence(&own, TagType::Ape, key), Persistence::Dropped);
    // Without one of the type, that of the primary type does.
    assert_eq!(check_persistence(&own, TagType::RiffInfo, key), Persistence::Persisted);
    // Without either, the first tag does.
    let first = file(FileType::Mpeg, vec![tag(ape, &[(key, "z")])]);
    assert_eq!(check_persistence(&first, TagType::RiffInfo, key), Persistence::Persisted);
    assert_eq!(check_persistence(&first, TagType::RiffInfo, "L"), Persistence::Dropped);
    let none = file(FileType::Mpeg, vec![]);
    assert_eq!(check_persistence(&none, TagType::Id3v2, key), Persistence::NoTags);
}

#[test]
fn written_fingerprint_is_there() {
    let mut target = file(FileType::Mp4, vec![]);
    let placement = embed_fingerprint(&mut target, "AQAA".to_string()).unwrap();
    assert_eq!(
        check_persistence(&target, placement.tag_type, placement.key),
        Persistence::Persisted
    );
}

fn fingerprinted() -> TaggedFile {
    let id3 = lofty::tag::TagType::Id3v2;
    file(FileType::Mpeg, vec![tag(id3, &[("Acoustid Fingerprint", "AQAA")])])
}

#[test]
fn fingerprinted_files_need_no_processing() {
    let found = fingerprinted();
    let bare = file(FileType::Mpeg, vec![]);
    assert!(!needs_processing(false, Some(&found)));
    assert!(needs_processing(true, Some(&found)));
    assert!(needs_processing(false, Some(&bare)));
    assert!(needs_processing(false, None));
    assert!(needs_processing(true, None));
}

#[test]
fn first_step_goes_by_name_and_mode() {
    assert!(matches!(first_step(b"a.txt", false), Step::Ignore));
    assert!(matches!(first_step(b"a.txt", true), Step::Ignore));
    match first_step(b"a.MP3", false) {
        Step::ReadTags { extension } => assert_eq!(extension, "mp3"),
        _ => panic!("tags not read"),
    }
    match first_step(b"a.MP3", true) {
        Step::DecodeNative { extension } => assert_eq!(extension, "mp3"),
        _ => panic!("not decoded"),
    }
}

#[test]
fn only_regular_files_are_worked_on() {
    for kind in [EntryKind::Directory, EntryKind::Other] {
        assert!(matches!(entry_step(kind, b"a.mp3", false), Step::Ignore));
        assert!(matches!(entry_step(kind, b"a.mp3", true), Step::Ignore));
    }
    assert!(matches!(entry_step(EntryKind::File, b"a.mp3", false), Step::ReadTags { .. }));
    assert!(matches!(entry_step(EntryKind::File, b"a.mp3", true), Step::DecodeNative { .. }));
    assert!(matches!(entry_step(EntryKind::File, b"a.txt", true), Step::Ignore));
}

#[test]
fn failure_of_the_external_decoder_is_told() {
    assert_eq!(
        external_failure("\"/m/a.ape\"", "\n Invalid data found\n\n"),
        "ffmpeg decode failed for \"/m/a.ape\": Invalid data found"
    );
    assert_eq!(external_failure("\"x\"", " \n"), "ffmpeg decode failed for \"x\": ");
}

#[test]
fn tagged_file_needs_processing_only_where_all_do() {
    let saved = match after_opening("AQAAAA".to_string(), Ok(file(FileType::Opus, vec![]))) {
        Step::Save { file, .. } => file,
        _ => panic!("not saved"),
    };
    assert!(!needs_processing(false, Some(&saved)));
    assert!(needs_processing(true, Some(&saved)));
}

#[test]
fn reading_leads_to_skipping_or_decoding() {
    let found = fingerprinted();
    assert!(matches!(after_reading("mp3".to_string(), Some(&found)), Step::Skip));
    match after_reading("mp3".to_string(), None) {
        Step::DecodeNative { extension } => assert_eq!(extension, "mp3"),
        _ => panic!("not decoded"),
    }
}

#[test]
fn external_decoder_comes_second() {
    match after_native(Ok("AQAA".to_string())) {
        Step::OpenTags { fingerprint } => assert_eq!(fingerprint, "AQAA"),
        _ => panic!("tags not opened"),
    }
    let native_error = match after_native(Err("No audio".to_string())) {
        Step::DecodeExternal { native_error } => native_error,
        _ => panic!("no fallback"),
    };
    match after_external(native_error.clone(), Ok("AQAA".to_string())) {
        Step::OpenTags { fingerprint } => assert_eq!(fingerprint, "AQAA"),
        _ => panic!("tags not opened"),
    }
    match after_external(native_error, Err("no ffmpeg".to_string())) {
        Step::Fail { error } => {
            assert_eq!(
                error.message("\"a.mp3\""),
                "SFS decode failed (No audio); ffmpeg fallback also failed"
            );
            assert!(matches!(
                error,
                FileError::Undecodable { external_error, .. } if external_error == "no ffmpeg"
            ));
        }
        _ => panic!("no error"),
    }
}

#[test]
fn work_on_a_file_ends_well_and_is_not_repeated() {
    let bare = file(FileType::Mpeg, vec![]);
    let (saved, placement) = match after_opening("AQAAAA".to_string(), Ok(bare)) {
        Step::Save { file, placement } => (file, placement),
        _ => panic!("not saved"),
    };
    assert!(matches!(after_reading("mp3".to_string(), Some(&saved)), Step::Skip));
    let placement = match after_saving(placement, Ok(())) {
        Step::ReopenTags { placement } => placement,
        _ => panic!("not read again"),
    };
    let done = after_reopening(placement, Ok(saved));
    assert!(matches!(done, Step::Done));
    assert_eq!(done.outcome(), Some(FileOutcome::Tagged));
}

#[test]
fn second_run_skips_all_files_of_the_first() {
    let kinds = [FileType::Mpeg, FileType::Flac, FileType::Mp4, FileType::WavPack, FileType::Wav];
    let mut counts = RunStats::default();
    for kind in kinds {
        let saved = match after_opening("AQAAAA".to_string(), Ok(file(kind, vec![]))) {
            Step::Save { file, .. } => file,
            _ => panic!("not saved"),
        };
        let step = after_reading("x".to_string(), Some(&saved));
        counts.record(step.outcome().unwrap());
    }
    assert_eq!(counts.audio_seen, 5);
    assert_eq!(counts.skipped_already_tagged, 5);
    assert_eq!(counts.attempted, 0);
    assert!(report_if_nothing_to_do(&counts, false));
}

fn message_of(step: Step) -> String {
    assert_eq!(step.outcome(), Some(FileOutcome::Failed));
    match step {
        Step::Fail { error } => error.message("\"/m/a.mp3\""),
        _ => panic!("no error"),
    }
}

#[test]
fn errors_are_told_apart() {
    assert_eq!(
        message_of(after_opening("AQAA".to_string(), Err("bad header".to_string()))),
        "Lofty cannot read this file type for tagging: \"/m/a.mp3\""
    );
    match after_opening("AQAA".to_string(), Err("bad header".to_string())) {
        Step::Fail { error: FileError::UnreadableTags(cause) } => assert_eq!(cause, "bad header"),
        _ => panic!("no cause"),
    }
    let foreign = file(FileType::Custom("foreign"), vec![]);
    assert!(matches!(
        after_opening("AQAA".to_string(), Ok(foreign)),
        Step::Fail { error: FileError::UnknownFormat }
    ));
    let placement = || Placement { tag_type: TagType::Id3v2, key: "Acoustid Fingerprint" };
    assert_eq!(message_of(after_saving(placement(), Err("disk full".to_string()))), "disk full");
    assert_eq!(message_of(after_reopening(placement(), Err("gone".to_string()))), "gone");
    assert_eq!(
        message_of(after_reopening(placement(), Ok(file(FileType::Mpeg, vec![])))),
        "Failed to re-open tags for verification"
    );
    let foreign = file(FileType::Custom("foreign"), vec![]);
    assert_eq!(
        message_of(after_reopening(placement(), Ok(foreign))),
        "No primary tag type for this file type"
    );
}

#[test]
fn missing_fingerprint_names_its_place() {
    for (kind, outside) in TYPES {
        for key in acoustid_fingerprint_keys(kind) {
            let empty = file(FileType::Mpeg, vec![Tag::new(outside)]);
            let step = after_reopening(Placement { tag_type: kind, key }, Ok(empty));
            assert_eq!(
                message_of(step),
                format!(
                    "Fingerprint tag did not persist (tag_type={:?}, key={:?})",
                    outside,
                    unknown(key)
                )
            );
        }
    }
}

#[test]
fn outcomes_of_steps() {
    assert_eq!(Step::Skip.outcome(), Some(FileOutcome::Skipped));
    assert_eq!(Step::Ignore.outcome(), None);
    assert_eq!(Step::OpenTags { fingerprint: "AQAA".to_string() }.outcome(), None);
}
