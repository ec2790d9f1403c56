//! The tags of an audio file, and the fingerprint in them.
//!
//! What is said here of the types of the `lofty` crate is taken on trust. The names below stand
//! for what an item, a tag and a tagged file hold. Of a tag that is its type, its items and its
//! pictures; what it keeps of its file format besides is left unsaid, since the crate does not
//! show it.

use crate::text::{is_blank, is_blank_text, is_white_space, texts_of};
use lofty::file::{FileType, TaggedFileExt};
use lofty::tag::TagItem;
use vstd::prelude::*;

verus! {

/// The tag format of a tag.
#[derive(Clone, Copy, PartialEq, Eq, Structural, Debug)]
pub enum TagType {
    Ape,
    Id3v1,
    Id3v2,
    Mp4Ilst,
    VorbisComments,
    RiffInfo,
    AiffText,
}

/// A tag of the `lofty` crate.
#[verifier::external_type_specification]
#[verifier::external_body]
pub struct ExTag(lofty::tag::Tag);

/// A file's tags, as the `lofty` crate reads them.
#[verifier::external_type_specification]
#[verifier::external_body]
pub struct ExTaggedFile(lofty::file::TaggedFile);

/// An item of a tag.
#[verifier::external_type_specification]
#[verifier::external_body]
pub struct ExTagItem(lofty::tag::TagItem);

/// A picture in a tag.
#[verifier::external_type_specification]
#[verifier::external_body]
pub struct ExPicture(lofty::picture::Picture);

/// The kind of an audio file, by its container or codec.
#[derive(Clone, Copy, PartialEq, Eq, Structural, Debug)]
pub enum FileKind {
    Aac,
    Aiff,
    Ape,
    Flac,
    Mpeg,
    Mp4,
    Mpc,
    Opus,
    Vorbis,
    Speex,
    Wav,
    WavPack,
    /// A kind that was made known to the `lofty` crate from outside.
    Custom,
}

/// The type of tag that is the usual one for a kind of file. There is none for a kind from
/// outside.
pub open spec fn primary_type(kind: FileKind) -> Option<TagType> {
    match kind {
        FileKind::Aac | FileKind::Aiff | FileKind::Mpeg | FileKind::Wav => Some(TagType::Id3v2),
        FileKind::Ape | FileKind::Mpc | FileKind::WavPack => Some(TagType::Ape),
        FileKind::Flac | FileKind::Opus | FileKind::Vorbis | FileKind::Speex => Some(
            TagType::VorbisComments,
        ),
        FileKind::Mp4 => Some(TagType::Mp4Ilst),
        FileKind::Custom => None,
    }
}

/// The key of an item, where it is one that the tag format keeps as it is given. The keys that
/// are mapped to a meaning of their own, such as that of the title, are told apart from these.
pub uninterp spec fn key_of(item: TagItem) -> Option<Seq<char>>;

/// The text of an item, where it holds text.
pub uninterp spec fn text_of(item: TagItem) -> Option<Seq<char>>;

/// The item with a text under a key that the tag format keeps as it is given, without a
/// description and of no language.
pub uninterp spec fn text_item(key: Seq<char>, text: Seq<char>) -> TagItem;

/// The type of a tag.
pub uninterp spec fn type_of(tag: lofty::tag::Tag) -> TagType;

/// The items of a tag, in order.
pub uninterp spec fn items_of(tag: lofty::tag::Tag) -> Seq<TagItem>;

/// The pictures of a tag, in order.
pub uninterp spec fn pictures_of(tag: lofty::tag::Tag) -> Seq<lofty::picture::Picture>;

/// The tags of a file, in order.
pub uninterp spec fn tags_of(file: lofty::file::TaggedFile) -> Seq<lofty::tag::Tag>;

/// The kind of a file.
pub uninterp spec fn kind_of(file: lofty::file::TaggedFile) -> FileKind;

/// The type of tag that is the usual one for a file.
pub open spec fn primary_type_of(file: lofty::file::TaggedFile) -> Option<TagType> {
    primary_type(kind_of(file))
}

/// The text of the first item with the given key; none where that item holds no text, or there
/// is no such item.
pub open spec fn text_under(items: Seq<TagItem>, key: Seq<char>) -> Option<Seq<char>>
    decreases items.len(),
{
    if items.len() == 0 {
        None
    } else if key_of(items[0]) == Some(key) {
        text_of(items[0])
    } else {
        text_under(items.skip(1), key)
    }
}

/// The items without those of the given key.
pub open spec fn without_key(items: Seq<TagItem>, key: Seq<char>) -> Seq<TagItem> {
    items.filter(|item: TagItem| key_of(item) != Some(key))
}

/// Whether the first tag of the given type stands at `i`.
pub open spec fn is_first_of_type(tags: Seq<lofty::tag::Tag>, tag_type: TagType, i: int) -> bool {
    &&& 0 <= i < tags.len()
    &&& type_of(tags[i]) == tag_type
    &&& forall|j: int| 0 <= j < i ==> type_of(#[trigger] tags[j]) != tag_type
}

/// Whether there is a tag of the given type.
pub open spec fn has_type(tags: Seq<lofty::tag::Tag>, tag_type: TagType) -> bool {
    exists|i: int| 0 <= i < tags.len() && type_of(#[trigger] tags[i]) == tag_type
}

/// `lofty::file::TaggedFileExt::tags`: the tags of a file.
#[verifier::external_body]
fn all_tags(file: &lofty::file::TaggedFile) -> (tags: &[lofty::tag::Tag])
    ensures
        tags@ == tags_of(*file),
{
    file.tags()
}

/// `lofty::tag::Tag::tag_type`: the type of a tag.
#[verifier::external_body]
fn tag_type(tag: &lofty::tag::Tag) -> (r: TagType)
    ensures
        r == type_of(*tag),
{
    match tag.tag_type() {
        lofty::tag::TagType::Ape => TagType::Ape,
        lofty::tag::TagType::Id3v1 => TagType::Id3v1,
        lofty::tag::TagType::Id3v2 => TagType::Id3v2,
        lofty::tag::TagType::Mp4Ilst => TagType::Mp4Ilst,
        lofty::tag::TagType::VorbisComments => TagType::VorbisComments,
        lofty::tag::TagType::RiffInfo => TagType::RiffInfo,
        _ => TagType::AiffText,
    }
}

/// `lofty::file::TaggedFileExt::file_type`: the kind of a file.
#[verifier::external_body]
fn file_kind(file: &lofty::file::TaggedFile) -> (kind: FileKind)
    ensures
        kind == kind_of(*file),
{
    match file.file_type() {
        FileType::Aac => FileKind::Aac,
        FileType::Aiff => FileKind::Aiff,
        FileType::Ape => FileKind::Ape,
        FileType::Flac => FileKind::Flac,
        FileType::Mpeg => FileKind::Mpeg,
        FileType::Mp4 => FileKind::Mp4,
        FileType::Mpc => FileKind::Mpc,
        FileType::Opus => FileKind::Opus,
        FileType::Vorbis => FileKind::Vorbis,
        FileType::Speex => FileKind::Speex,
        FileType::Wav => FileKind::Wav,
        FileType::WavPack => FileKind::WavPack,
        _ => FileKind::Custom,
    }
}

/// `lofty::file::TaggedFileExt::primary_tag_type`: the type of tag that is the usual one for
/// the kind of file. Kinds from outside are left out: the crate asks whoever made them known,
/// and panics where nobody did.
#[verifier::external_body]
fn primary_tag_type(file: &lofty::file::TaggedFile) -> (r: TagType)
    requires
        kind_of(*file) != FileKind::Custom,
    ensures
        Some(r) == primary_type(kind_of(*file)),
{
    match file.primary_tag_type() {
        lofty::tag::TagType::Ape => TagType::Ape,
        lofty::tag::TagType::Id3v1 => TagType::Id3v1,
        lofty::tag::TagType::Id3v2 => TagType::Id3v2,
        lofty::tag::TagType::Mp4Ilst => TagType::Mp4Ilst,
        lofty::tag::TagType::VorbisComments => TagType::VorbisComments,
        lofty::tag::TagType::RiffInfo => TagType::RiffInfo,
        _ => TagType::AiffText,
    }
}

/// The type of tag that is the usual one for a file, unless its kind is from outside.
fn usual_tag_type(file: &lofty::file::TaggedFile) -> (r: Option<TagType>)
    ensures
        r == primary_type_of(*file),
{
    if file_kind(file) == FileKind::Custom {
        None
    } else {
        Some(primary_tag_type(file))
    }
}

/// `lofty::file::TaggedFileExt::tag`: the first tag of the given type.
#[verifier::external_body]
fn find_tag(file: &lofty::file::TaggedFile, tag_type: TagType) -> (r: Option<&lofty::tag::Tag>)
    ensures
        match r {
            Some(tag) => exists|i: int|
                is_first_of_type(tags_of(*file), tag_type, i) && *tag == #[trigger] tags_of(
                    *file,
                )[i],
            None => !has_type(tags_of(*file), tag_type),
        },
{
    file.tag(
        match tag_type {
            TagType::Ape => lofty::tag::TagType::Ape,
            TagType::Id3v1 => lofty::tag::TagType::Id3v1,
            TagType::Id3v2 => lofty::tag::TagType::Id3v2,
            TagType::Mp4Ilst => lofty::tag::TagType::Mp4Ilst,
            TagType::VorbisComments => lofty::tag::TagType::VorbisComments,
            TagType::RiffInfo => lofty::tag::TagType::RiffInfo,
            TagType::AiffText => lofty::tag::TagType::AiffText,
        },
    )
}

/// `lofty::file::TaggedFileExt::tag_mut`: the first tag of the given type, to be changed in its
/// place.
#[verifier::external_body]
fn find_tag_mut(file: &mut lofty::file::TaggedFile, tag_type: TagType) -> (r: Option<
    &mut lofty::tag::Tag,
>)
    ensures
        kind_of(*final(file)) == kind_of(*old(file)),
        match r {
            Some(tag) => exists|i: int|
                is_first_of_type(tags_of(*old(file)), tag_type, i) && *tag == #[trigger] tags_of(
                    *old(file),
                )[i] && tags_of(*final(file)) == tags_of(*old(file)).update(i, *final(tag)),
            None => !has_type(tags_of(*old(file)), tag_type) && tags_of(*final(file)) == tags_of(
                *old(file),
            ),
        },
{
    file.tag_mut(
        match tag_type {
            TagType::Ape => lofty::tag::TagType::Ape,
            TagType::Id3v1 => lofty::tag::TagType::Id3v1,
            TagType::Id3v2 => lofty::tag::TagType::Id3v2,
            TagType::Mp4Ilst => lofty::tag::TagType::Mp4Ilst,
            TagType::VorbisComments => lofty::tag::TagType::VorbisComments,
            TagType::RiffInfo => lofty::tag::TagType::RiffInfo,
            TagType::AiffText => lofty::tag::TagType::AiffText,
        },
    )
}

/// `lofty::tag::Tag::new`: an empty tag of the given type.
#[verifier::external_body]
fn new_tag(tag_type: TagType) -> (tag: lofty::tag::Tag)
    ensures
        type_of(tag) == tag_type,
        items_of(tag) == Seq::<TagItem>::empty(),
        pictures_of(tag) == Seq::<lofty::picture::Picture>::empty(),
{
    lofty::tag::Tag::new(
        match tag_type {
            TagType::Ape => lofty::tag::TagType::Ape,
            TagType::Id3v1 => lofty::tag::TagType::Id3v1,
            TagType::Id3v2 => lofty::tag::TagType::Id3v2,
            TagType::Mp4Ilst => lofty::tag::TagType::Mp4Ilst,
            TagType::VorbisComments => lofty::tag::TagType::VorbisComments,
            TagType::RiffInfo => lofty::tag::TagType::RiffInfo,
            TagType::AiffText => lofty::tag::TagType::AiffText,
        },
    )
}

/// `lofty::file::TaggedFileExt::insert_tag`: puts a tag behind the others, in place of the first
/// one of its type. It is asked for tags of the primary type only, which every kind of file can
/// hold, and where there is none of that type yet.
#[verifier::external_body]
fn insert_tag(file: &mut lofty::file::TaggedFile, tag: lofty::tag::Tag)
    requires
        primary_type_of(*old(file)) == Some(type_of(tag)),
        !has_type(tags_of(*old(file)), type_of(tag)),
    ensures
        kind_of(*final(file)) == kind_of(*old(file)),
        tags_of(*final(file)) == tags_of(*old(file)).push(tag),
{
    file.insert_tag(tag);
}

/// `lofty::tag::Tag::get_string` on a key that the tag format keeps as it is given: the text of
/// the first item with that key, if it holds text.
#[verifier::external_body]
fn get_string<'a>(tag: &'a lofty::tag::Tag, key: &str) -> (r: Option<&'a str>)
    ensures
        match r {
            Some(text) => text_under(items_of(*tag), key@) == Some(text@),
            None => text_under(items_of(*tag), key@) is None,
        },
{
    tag.get_string(&lofty::tag::ItemKey::Unknown(key.to_string()))
}

/// `lofty::tag::Tag::remove_key` on a key that the tag format keeps as it is given: takes out
/// the items with that key. The others and the pictures stay as they are.
#[verifier::external_body]
fn remove_key(tag: &mut lofty::tag::Tag, key: &str)
    ensures
        type_of(*final(tag)) == type_of(*old(tag)),
        items_of(*final(tag)) == without_key(items_of(*old(tag)), key@),
        pictures_of(*final(tag)) == pictures_of(*old(tag)),
{
    tag.remove_key(&lofty::tag::ItemKey::Unknown(key.to_string()))
}

/// `lofty::tag::TagItem::new` of a text under a key that the tag format keeps as it is given.
#[verifier::external_body]
fn new_item(key: &str, text: String) -> (item: TagItem)
    ensures
        item == text_item(key@, text@),
        key_of(item) == Some(key@),
        text_of(item) == Some(text@),
{
    TagItem::new(
        lofty::tag::ItemKey::Unknown(key.to_string()),
        lofty::tag::ItemValue::Text(text),
    )
}

/// `lofty::tag::Tag::insert_unchecked` of an item under a key that the tag format keeps as it is
/// given: puts the item behind the others, in place of those with that key. The others and the
/// pictures stay as they are.
#[verifier::external_body]
fn insert_item(tag: &mut lofty::tag::Tag, item: TagItem)
    requires
        key_of(item) is Some,
    ensures
        type_of(*final(tag)) == type_of(*old(tag)),
        items_of(*final(tag)) == without_key(items_of(*old(tag)), key_of(item)->0).push(item),
        pictures_of(*final(tag)) == pictures_of(*old(tag)),
{
    tag.insert_unchecked(item)
}

/// The keys under which a fingerprint is found in a tag. The first one is that under which it
/// is written.
pub open spec fn fingerprint_keys(tag_type: TagType) -> Seq<Seq<char>> {
    match tag_type {
        TagType::VorbisComments => seq![
            "ACOUSTID_FINGERPRINT"@,
            "Acoustid Fingerprint"@,
            "acoustid_fingerprint"@,
            "acoustid fingerprint"@,
        ],
        TagType::Id3v2 => seq!["Acoustid Fingerprint"@, "ACOUSTID_FINGERPRINT"@],
        TagType::Mp4Ilst => seq![
            "----:com.apple.iTunes:Acoustid Fingerprint"@,
            "----:com.apple.iTunes:ACOUSTID_FINGERPRINT"@,
        ],
        TagType::Ape => seq![
            "ACOUSTID_FINGERPRINT"@,
            "Acoustid Fingerprint"@,
            "acoustid_fingerprint"@,
        ],
        _ => seq!["Acoustid Fingerprint"@],
    }
}

/// The keys under which a fingerprint is found in a tag of the given type. Different tools use
/// different ones; the first is that under which it is written.
pub fn acoustid_fingerprint_keys(tag_type: TagType) -> (keys: Vec<&'static str>)
    ensures
        texts_of(keys@) == fingerprint_keys(tag_type),
        keys@.len() > 0,
{
    let keys: Vec<&'static str> = match tag_type {
        // Keys are stored as they are given.
        TagType::VorbisComments => vec![
            "ACOUSTID_FINGERPRINT",
            "Acoustid Fingerprint",
            "acoustid_fingerprint",
            "acoustid fingerprint",
        ],
        // Stored as the description of a user text frame.
        TagType::Id3v2 => vec!["Acoustid Fingerprint", "ACOUSTID_FINGERPRINT"],
        // Freeform atoms.
        TagType::Mp4Ilst => vec![
            "----:com.apple.iTunes:Acoustid Fingerprint",
            "----:com.apple.iTunes:ACOUSTID_FINGERPRINT",
        ],
        // Monkey's Audio, WavPack and the like.
        TagType::Ape => vec![
            "ACOUSTID_FINGERPRINT",
            "Acoustid Fingerprint",
            "acoustid_fingerprint",
        ],
        _ => vec!["Acoustid Fingerprint"],
    };
    assert(texts_of(keys@) =~= fingerprint_keys(tag_type));
    keys
}

/// Whether a text that is not blank stands under one of the first `n` keys.
pub open spec fn is_text_under_keys(items: Seq<TagItem>, keys: Seq<Seq<char>>, n: int) -> bool {
    exists|k: int|
        0 <= k < n && (text_under(items, #[trigger] keys[k]) matches Some(text) && !is_blank_text(
            text,
        ))
}

/// Whether a tag holds a fingerprint: a text that is not blank, under one of the keys for its
/// type.
pub open spec fn tag_has_fingerprint(tag: lofty::tag::Tag) -> bool {
    let keys = fingerprint_keys(type_of(tag));
    is_text_under_keys(items_of(tag), keys, keys.len() as int)
}

/// Whether one of a file's tags holds a fingerprint.
pub open spec fn has_fingerprint(file: lofty::file::TaggedFile) -> bool {
    exists|i: int| 0 <= i < tags_of(file).len() && tag_has_fingerprint(#[trigger] tags_of(file)[i])
}

/// Whether one of a file's tags holds a fingerprint.
pub fn file_has_fingerprint(file: &lofty::file::TaggedFile) -> (r: bool)
    ensures
        r == has_fingerprint(*file),
{
    let tags: &[lofty::tag::Tag] = all_tags(file);
    let mut i: usize = 0;
    while i < tags.len()
        invariant
            i <= tags.len(),
            tags@ == tags_of(*file),
            forall|j: int| 0 <= j < i ==> !tag_has_fingerprint(#[trigger] tags_of(*file)[j]),
        decreases tags.len() - i,
    {
        let tag: &lofty::tag::Tag = &tags[i];
        let keys: Vec<&'static str> = acoustid_fingerprint_keys(tag_type(tag));
        let ghost texts = fingerprint_keys(type_of(*tag));
        let mut k: usize = 0;
        while k < keys.len()
            invariant
                i < tags.len(),
                tags@ == tags_of(*file),
                *tag == tags@[i as int],
                k <= keys.len(),
                texts == fingerprint_keys(type_of(*tag)),
                texts_of(keys@) == texts,
                !is_text_under_keys(items_of(*tag), texts, k as int),
            decreases keys.len() - k,
        {
            let key: &'static str = keys[k];
            assert(texts[k as int] == key@);
            if let Some(text) = get_string(tag, key) {
                if !is_blank(text) {
                    assert(is_text_under_keys(items_of(*tag), texts, texts.len() as int));
                    assert(tag_has_fingerprint(tags_of(*file)[i as int]));
                    return true;
                }
            }
            k = k + 1;
        }
        i = i + 1;
    }
    false
}

/// Whether an item stands under one of the first `n` keys.
pub open spec fn is_under(item: TagItem, keys: Seq<Seq<char>>, n: int) -> bool {
    exists|k: int| 0 <= k < n && key_of(item) == Some(#[trigger] keys[k])
}

/// The items without those that stand under one of the keys.
pub open spec fn without_keys(items: Seq<TagItem>, keys: Seq<Seq<char>>) -> Seq<TagItem> {
    items.filter(|item: TagItem| !is_under(item, keys, keys.len() as int))
}

/// Whether `after` are the items `before` once a fingerprint was written: all that stood under
/// one of the keys is gone, the other items are the same ones in the same order, and the
/// fingerprint stands at the end, under the first key.
pub open spec fn is_rewritten(
    before: Seq<TagItem>,
    after: Seq<TagItem>,
    keys: Seq<Seq<char>>,
    text: Seq<char>,
) -> bool {
    &&& after.len() > 0
    &&& after.drop_last() == without_keys(before, keys)
    &&& after.last() == text_item(keys[0], text)
    &&& key_of(after.last()) == Some(keys[0])
    &&& text_of(after.last()) == Some(text)
}

/// The items of the tag at `i`; none where there is no tag.
pub open spec fn items_at(tags: Seq<lofty::tag::Tag>, i: int) -> Seq<TagItem> {
    if i < tags.len() {
        items_of(tags[i])
    } else {
        seq![]
    }
}

/// The pictures of the tag at `i`; none where there is no tag.
pub open spec fn pictures_at(tags: Seq<lofty::tag::Tag>, i: int) -> Seq<
    lofty::picture::Picture,
> {
    if i < tags.len() {
        pictures_of(tags[i])
    } else {
        seq![]
    }
}

/// Whether `after` are the tags `before` with a fingerprint written into the tag at `i`: the
/// first tag of the given type, or an empty one put behind the others where there is none. The
/// other tags are left as they are, and so are the pictures of that tag.
pub open spec fn is_embedded_at(
    before: Seq<lofty::tag::Tag>,
    after: Seq<lofty::tag::Tag>,
    tag_type: TagType,
    text: Seq<char>,
    i: int,
) -> bool {
    &&& is_first_of_type(after, tag_type, i)
    &&& forall|j: int| 0 <= j < before.len() && j != i ==> #[trigger] after[j] == before[j]
    &&& is_rewritten(
        items_at(before, i),
        items_of(after[i]),
        fingerprint_keys(tag_type),
        text,
    )
    &&& pictures_of(after[i]) == pictures_at(before, i)
    &&& if has_type(before, tag_type) {
        after.len() == before.len() && is_first_of_type(before, tag_type, i)
    } else {
        after.len() == before.len() + 1 && i == before.len()
    }
}

/// Whether `after` are the tags `before` with a fingerprint written into the tag of the given
/// type.
pub open spec fn is_embedded(
    before: Seq<lofty::tag::Tag>,
    after: Seq<lofty::tag::Tag>,
    tag_type: TagType,
    text: Seq<char>,
) -> bool {
    exists|i: int| is_embedded_at(before, after, tag_type, text, i)
}

/// Where a fingerprint was written.
pub struct Placement {
    pub tag_type: TagType,
    pub key: &'static str,
}

/// Taking out the items of one more key.
proof fn one_key_more(items: Seq<TagItem>, keys: Seq<Seq<char>>, n: int)
    requires
        0 <= n < keys.len(),
    ensures
        without_key(items.filter(|item: TagItem| !is_under(item, keys, n)), keys[n])
            == items.filter(|item: TagItem| !is_under(item, keys, n + 1)),
    decreases items.len(),
{
    reveal(Seq::filter);
    let few = |item: TagItem| !is_under(item, keys, n);
    let one = |item: TagItem| key_of(item) != Some(keys[n]);
    let more = |item: TagItem| !is_under(item, keys, n + 1);
    if items.len() > 0 {
        let last = items.last();
        let rest = items.drop_last();
        one_key_more(rest, keys, n);
        assert(more(last) == (few(last) && one(last))) by {
            if is_under(last, keys, n + 1) && !is_under(last, keys, n) {
                let k = choose|k: int| 0 <= k < n + 1 && key_of(last) == Some(#[trigger] keys[k]);
                assert(k == n);
            }
            if is_under(last, keys, n) {
                let k = choose|k: int| 0 <= k < n && key_of(last) == Some(#[trigger] keys[k]);
                assert(is_under(last, keys, n + 1));
            }
        }
        if few(last) {
            let kept = rest.filter(few);
            assert(items.filter(few) == kept.push(last));
            assert(kept.push(last).drop_last() =~= kept);
        }
    }
}

/// Taking out the items of a key changes nothing where none has that key.
proof fn nothing_to_take_out(items: Seq<TagItem>, key: Seq<char>)
    requires
        forall|i: int| 0 <= i < items.len() ==> key_of(#[trigger] items[i]) != Some(key),
    ensures
        without_key(items, key) == items,
    decreases items.len(),
{
    reveal(Seq::filter);
    if items.len() > 0 {
        nothing_to_take_out(items.drop_last(), key);
        assert(items =~= items.drop_last().push(items.last()));
    }
}

/// No item under one of the keys is left.
proof fn keys_are_taken_out(items: Seq<TagItem>, keys: Seq<Seq<char>>)
    ensures
        forall|i: int|
            0 <= i < without_keys(items, keys).len() ==> !is_under(
                #[trigger] without_keys(items, keys)[i],
                keys,
                keys.len() as int,
            ),
    decreases items.len(),
{
    reveal(Seq::filter);
    if items.len() > 0 {
        keys_are_taken_out(items.drop_last(), keys);
    }
}

/// Puts a text under the first of the keys, in place of all that stands under one of them.
fn replace_texts(tag: &mut lofty::tag::Tag, keys: &Vec<&'static str>, text: String)
    requires
        keys@.len() > 0,
    ensures
        type_of(*final(tag)) == type_of(*old(tag)),
        pictures_of(*final(tag)) == pictures_of(*old(tag)),
        is_rewritten(items_of(*old(tag)), items_of(*final(tag)), texts_of(keys@), text@),
{
    let key: &'static str = keys[0];
    let ghost texts = texts_of(keys@);
    let ghost items = items_of(*tag);
    let mut k: usize = 0;
    proof {
        all_kept(items, texts);
    }
    while k < keys.len()
        invariant
            k <= keys.len(),
            texts_of(keys@) == texts,
            type_of(*tag) == type_of(*old(tag)),
            pictures_of(*tag) == pictures_of(*old(tag)),
            items_of(*tag) == items.filter(|item: TagItem| !is_under(item, texts, k as int)),
        decreases keys.len() - k,
    {
        assert(texts[k as int] == keys@[k as int]@);
        remove_key(tag, keys[k]);
        proof {
            one_key_more(items, texts, k as int);
        }
        k = k + 1;
    }
    proof {
        keys_are_taken_out(items, texts);
        assert(texts[0] == key@);
        assert forall|i: int| 0 <= i < items_of(*tag).len() implies key_of(
            #[trigger] items_of(*tag)[i],
        ) != Some(key@) by {
            assert(!is_under(items_of(*tag)[i], texts, texts.len() as int));
        }
        nothing_to_take_out(items_of(*tag), key@);
    }
    insert_item(tag, new_item(key, text));
    assert(items_of(*tag).drop_last() =~= without_keys(items, texts));
}

/// Writes a fingerprint into the tag of the file's primary type, which is added where it is
/// missing, in place of all fingerprints there. A file without a primary type is left as it is.
pub fn embed_fingerprint(file: &mut lofty::file::TaggedFile, fingerprint: String) -> (r: Option<
    Placement,
>)
    ensures
        kind_of(*final(file)) == kind_of(*old(file)),
        match r {
            Some(placement) => {
                &&& primary_type_of(*old(file)) == Some(placement.tag_type)
                &&& placement.key@ == fingerprint_keys(placement.tag_type)[0]
                &&& is_embedded(
                    tags_of(*old(file)),
                    tags_of(*final(file)),
                    placement.tag_type,
                    fingerprint@,
                )
            },
            None => primary_type_of(*old(file)) is None && tags_of(*final(file)) == tags_of(
                *old(file),
            ),
        },
{
    let primary: TagType = match usual_tag_type(file) {
        Some(primary) => primary,
        None => {
            return None;
        },
    };
    let ghost before = tags_of(*file);
    if find_tag(file, primary).is_none() {
        insert_tag(file, new_tag(primary));
    }
    let keys: Vec<&'static str> = acoustid_fingerprint_keys(primary);
    let key: &'static str = keys[0];
    let ghost base = tags_of(*file);
    proof {
        if !has_type(before, primary) {
            assert(type_of(base[before.len() as int]) == primary);
        }
        assert(has_type(base, primary));
    }
    if let Some(tag) = find_tag_mut(file, primary) {
        replace_texts(tag, &keys, fingerprint);
    }
    proof {
        let after = tags_of(*file);
        let i = choose|i: int| #[trigger]
            is_first_of_type(base, primary, i) && after == base.update(i, after[i]);
        assert(is_first_of_type(base, primary, i) && after == base.update(i, after[i]));
        assert(is_first_of_type(after, primary, i));
        assert(is_embedded_at(before, after, primary, fingerprint@, i));
    }
    Some(Placement { tag_type: primary, key })
}

/// Without a key nothing is taken out.
proof fn all_kept(items: Seq<TagItem>, keys: Seq<Seq<char>>)
    ensures
        items.filter(|item: TagItem| !is_under(item, keys, 0)) == items,
    decreases items.len(),
{
    reveal(Seq::filter);
    if items.len() > 0 {
        all_kept(items.drop_last(), keys);
        assert(items =~= items.drop_last().push(items.last()));
    }
}

/// The first tag of the given type.
pub open spec fn first_of_type(tags: Seq<lofty::tag::Tag>, tag_type: TagType) -> lofty::tag::Tag {
    tags[choose|i: int| is_first_of_type(tags, tag_type, i)]
}

/// The tag in which a written fingerprint is looked for: the first of the type that it was
/// written to, else the first of the file's primary type, else the first tag.
pub open spec fn tag_to_check(file: lofty::file::TaggedFile, tag_type: TagType) -> Option<
    lofty::tag::Tag,
> {
    let tags = tags_of(file);
    if has_type(tags, tag_type) {
        Some(first_of_type(tags, tag_type))
    } else if primary_type_of(file) is Some && has_type(tags, primary_type_of(file)->0) {
        Some(first_of_type(tags, primary_type_of(file)->0))
    } else if tags.len() > 0 {
        Some(tags[0])
    } else {
        None
    }
}

/// What became of a written fingerprint.
#[derive(Clone, Copy, PartialEq, Eq, Structural, Debug)]
pub enum Persistence {
    /// It is there.
    Persisted,
    /// There is no text under its key.
    Dropped,
    /// There is no tag to look into.
    NoTags,
    /// The tag that it was written to is gone, and the file has no primary type of tag.
    UnknownFormat,
}

/// Whether `r` is what became of a fingerprint that was written under the given key.
pub open spec fn is_persistence(
    file: lofty::file::TaggedFile,
    tag_type: TagType,
    key: Seq<char>,
    r: Persistence,
) -> bool {
    if !has_type(tags_of(file), tag_type) && primary_type_of(file) is None {
        r == Persistence::UnknownFormat
    } else {
        r == match tag_to_check(file, tag_type) {
            Some(tag) => if text_under(items_of(tag), key) is Some {
                Persistence::Persisted
            } else {
                Persistence::Dropped
            },
            None => Persistence::NoTags,
        }
    }
}

/// Looks in a file that was read again for the fingerprint that was written to it.
pub fn check_persistence(file: &lofty::file::TaggedFile, tag_type: TagType, key: &str) -> (r:
    Persistence)
    ensures
        is_persistence(*file, tag_type, key@, r),
        (r == Persistence::UnknownFormat) == (!has_type(tags_of(*file), tag_type)
            && primary_type_of(*file) is None),
        r != Persistence::UnknownFormat ==> r == match tag_to_check(*file, tag_type) {
            Some(tag) => if text_under(items_of(tag), key@) is Some {
                Persistence::Persisted
            } else {
                Persistence::Dropped
            },
            None => Persistence::NoTags,
        },
{
    let tag: &lofty::tag::Tag = match find_tag(file, tag_type) {
        Some(tag) => tag,
        None => match usual_tag_type(file) {
            None => {
                return Persistence::UnknownFormat;
            },
            Some(primary) => match find_tag(file, primary) {
                Some(tag) => tag,
                None => {
                    let tags: &[lofty::tag::Tag] = all_tags(file);
                    if tags.len() == 0 {
                        return Persistence::NoTags;
                    }
                    &tags[0]
                },
            },
        },
    };
    match get_string(tag, key) {
        Some(_) => Persistence::Persisted,
        None => Persistence::Dropped,
    }
}

/// Where no item has a key, there is no text under it, and a text put at the end is found.
proof fn text_at_the_end_is_found(items: Seq<TagItem>, item: TagItem, key: Seq<char>)
    requires
        forall|i: int| 0 <= i < items.len() ==> key_of(#[trigger] items[i]) != Some(key),
        key_of(item) == Some(key),
    ensures
        text_under(items.push(item), key) == text_of(item),
    decreases items.len(),
{
    let all = items.push(item);
    if items.len() > 0 {
        assert(all[0] == items[0]);
        assert(all.skip(1) =~= items.skip(1).push(item));
        assert forall|i: int| 0 <= i < items.skip(1).len() implies key_of(
            #[trigger] items.skip(1)[i],
        ) != Some(key) by {
            assert(items.skip(1)[i] == items[i + 1]);
        }
        text_at_the_end_is_found(items.skip(1), item, key);
    }
}

/// A written fingerprint stands under the first of the keys, and there is no other item under
/// any of them.
pub proof fn written_text_stands_under_the_first_key(
    before: Seq<TagItem>,
    after: Seq<TagItem>,
    tag_type: TagType,
    text: Seq<char>,
)
    requires
        is_rewritten(before, after, fingerprint_keys(tag_type), text),
    ensures
        ({
            let keys = fingerprint_keys(tag_type);
            &&& text_under(after, keys[0]) == Some(text)
            &&& forall|i: int|
                0 <= i < after.len() ==> (is_under(#[trigger] after[i], keys, keys.len() as int)
                    <==> i == after.len() - 1)
        }),
{
    let keys = fingerprint_keys(tag_type);
    let kept = without_keys(before, keys);
    keys_are_taken_out(before, keys);
    assert forall|i: int| 0 <= i < kept.len() implies key_of(#[trigger] kept[i]) != Some(
        keys[0],
    ) by {
        assert(!is_under(kept[i], keys, keys.len() as int));
    }
    assert(after =~= kept.push(after.last()));
    text_at_the_end_is_found(kept, after.last(), keys[0]);
    assert forall|i: int| 0 <= i < after.len() implies (is_under(
        #[trigger] after[i],
        keys,
        keys.len() as int,
    ) <==> i == after.len() - 1) by {
        if i < kept.len() {
            assert(after[i] == kept[i]);
        }
    }
}

/// A file into which a fingerprint was written is found to hold one.
pub proof fn written_fingerprint_is_found(
    before: lofty::file::TaggedFile,
    after: lofty::file::TaggedFile,
    tag_type: TagType,
    text: Seq<char>,
)
    requires
        is_embedded(tags_of(before), tags_of(after), tag_type, text),
        !is_blank_text(text),
    ensures
        has_fingerprint(after),
{
    let i = choose|i: int| is_embedded_at(tags_of(before), tags_of(after), tag_type, text, i);
    let items = items_at(tags_of(before), i);
    let keys = fingerprint_keys(tag_type);
    let tag = tags_of(after)[i];
    written_text_stands_under_the_first_key(items, items_of(tag), tag_type, text);
    assert(text_under(items_of(tag), keys[0]) == Some(text));
    assert(is_text_under_keys(items_of(tag), keys, keys.len() as int));
    assert(tag_has_fingerprint(tags_of(after)[i]));
}

/// Looking for a fingerprint right where it was written finds it.
pub proof fn written_fingerprint_passes_the_check(
    before: lofty::file::TaggedFile,
    after: lofty::file::TaggedFile,
    tag_type: TagType,
    text: Seq<char>,
)
    requires
        is_embedded(tags_of(before), tags_of(after), tag_type, text),
    ensures
        has_type(tags_of(after), tag_type),
        tag_to_check(after, tag_type) matches Some(tag) && text_under(
            items_of(tag),
            fingerprint_keys(tag_type)[0],
        ) == Some(text),
{
    let i = choose|i: int| is_embedded_at(tags_of(before), tags_of(after), tag_type, text, i);
    let items = items_at(tags_of(before), i);
    written_text_stands_under_the_first_key(
        items,
        items_of(tags_of(after)[i]),
        tag_type,
        text,
    );
    assert(type_of(tags_of(after)[i]) == tag_type);
    let j = choose|j: int| is_first_of_type(tags_of(after), tag_type, j);
    assert(is_first_of_type(tags_of(after), tag_type, j));
    if j < i {
        assert(type_of(tags_of(after)[j]) != tag_type);
    }
    if i < j {
        assert(type_of(tags_of(after)[i]) != tag_type);
    }
}

/// Taking out the items of keys leaves what was kept before as it is.
proof fn taking_out_again_changes_nothing(items: Seq<TagItem>, keys: Seq<Seq<char>>)
    requires
        forall|i: int|
            0 <= i < items.len() ==> !is_under(#[trigger] items[i], keys, keys.len() as int),
    ensures
        without_keys(items, keys) == items,
    decreases items.len(),
{
    reveal(Seq::filter);
    if items.len() > 0 {
        taking_out_again_changes_nothing(items.drop_last(), keys);
        assert(items =~= items.drop_last().push(items.last()));
    }
}

/// Writing a fingerprint leaves the items under other keys as they are, in their order.
pub proof fn other_items_are_kept(
    before: Seq<TagItem>,
    after: Seq<TagItem>,
    tag_type: TagType,
    text: Seq<char>,
)
    requires
        is_rewritten(before, after, fingerprint_keys(tag_type), text),
    ensures
        without_keys(after, fingerprint_keys(tag_type)) == without_keys(
            before,
            fingerprint_keys(tag_type),
        ),
        forall|i: int|
            0 <= i < before.len() && !is_under(
                #[trigger] before[i],
                fingerprint_keys(tag_type),
                fingerprint_keys(tag_type).len() as int,
            ) ==> after.contains(before[i]),
{
    let keys = fingerprint_keys(tag_type);
    let kept = without_keys(before, keys);
    keys_are_taken_out(before, keys);
    taking_out_again_changes_nothing(kept, keys);
    assert(is_under(after.last(), keys, keys.len() as int));
    assert forall|i: int|
        0 <= i < before.len() && !is_under(
            #[trigger] before[i],
            keys,
            keys.len() as int,
        ) implies after.contains(before[i]) by {
        item_is_kept(before, keys, i);
        let k = choose|k: int| 0 <= k < kept.len() && kept[k] == before[i];
        assert(after[k] == after.drop_last()[k]);
    }
    reveal(Seq::filter);
}

/// An item that stands under none of the keys is among those that are kept.
proof fn item_is_kept(items: Seq<TagItem>, keys: Seq<Seq<char>>, i: int)
    requires
        0 <= i < items.len(),
        !is_under(items[i], keys, keys.len() as int),
    ensures
        without_keys(items, keys).contains(items[i]),
    decreases items.len(),
{
    reveal(Seq::filter);
    let kept = without_keys(items.drop_last(), keys);
    if i == items.len() - 1 {
        assert(without_keys(items, keys) == kept.push(items[i]));
        assert(without_keys(items, keys)[kept.len() as int] == items[i]);
    } else {
        item_is_kept(items.drop_last(), keys, i);
        let k = choose|k: int| 0 <= k < kept.len() && kept[k] == items[i];
        assert(without_keys(items, keys)[k] == items[i]);
    }
}

/// Writing a fingerprint a second time over one that is there replaces it: what comes of it is
/// what writing only the second one gives.
pub proof fn writing_again_replaces_the_fingerprint(
    before: Seq<TagItem>,
    once: Seq<TagItem>,
    twice: Seq<TagItem>,
    only: Seq<TagItem>,
    tag_type: TagType,
    first: Seq<char>,
    second: Seq<char>,
)
    requires
        is_rewritten(before, once, fingerprint_keys(tag_type), first),
        is_rewritten(once, twice, fingerprint_keys(tag_type), second),
        is_rewritten(before, only, fingerprint_keys(tag_type), second),
    ensures
        twice == only,
{
    other_items_are_kept(before, once, tag_type, first);
    assert(twice =~= twice.drop_last().push(twice.last()));
    assert(only =~= only.drop_last().push(only.last()));
}

/// Writing the same fingerprint again changes nothing.
pub proof fn writing_the_same_again_changes_nothing(
    before: lofty::file::TaggedFile,
    once: lofty::file::TaggedFile,
    twice: lofty::file::TaggedFile,
    tag_type: TagType,
    text: Seq<char>,
)
    requires
        is_embedded(tags_of(before), tags_of(once), tag_type, text),
        is_embedded(tags_of(once), tags_of(twice), tag_type, text),
    ensures
        tags_of(once).len() == tags_of(twice).len(),
        forall|j: int|
            0 <= j < tags_of(once).len() ==> {
                &&& type_of(#[trigger] tags_of(twice)[j]) == type_of(tags_of(once)[j])
                &&& items_of(tags_of(twice)[j]) == items_of(tags_of(once)[j])
                &&& pictures_of(tags_of(twice)[j]) == pictures_of(tags_of(once)[j])
            },
{
    let i = choose|i: int| is_embedded_at(tags_of(before), tags_of(once), tag_type, text, i);
    let k = choose|k: int| is_embedded_at(tags_of(once), tags_of(twice), tag_type, text, k);
    let items = items_at(tags_of(before), i);
    assert(is_embedded_at(tags_of(before), tags_of(once), tag_type, text, i));
    assert(is_embedded_at(tags_of(once), tags_of(twice), tag_type, text, k));
    assert(type_of(tags_of(once)[i]) == tag_type);
    assert(has_type(tags_of(once), tag_type));
    if k < i {
        assert(type_of(tags_of(once)[k]) != tag_type);
    }
    if i < k {
        assert(type_of(tags_of(once)[i]) != tag_type);
    }
    writing_again_replaces_the_fingerprint(
        items,
        items_of(tags_of(once)[i]),
        items_of(tags_of(twice)[i]),
        items_of(tags_of(once)[i]),
        tag_type,
        text,
        text,
    );
}

/// The keys of a tag type are the spellings of the fingerprint's name that are in use there.
pub proof fn keys_are_the_known_spellings(tag_type: TagType, key: Seq<char>)
    ensures
        fingerprint_keys(tag_type).contains(key) <==> {
            ||| key == "ACOUSTID_FINGERPRINT"@ && (tag_type == TagType::VorbisComments || tag_type
                == TagType::Id3v2 || tag_type == TagType::Ape)
            ||| key == "Acoustid Fingerprint"@ && tag_type != TagType::Mp4Ilst
            ||| key == "acoustid_fingerprint"@ && (tag_type == TagType::VorbisComments || tag_type
                == TagType::Ape)
            ||| key == "acoustid fingerprint"@ && tag_type == TagType::VorbisComments
            ||| key == "----:com.apple.iTunes:Acoustid Fingerprint"@ && tag_type
                == TagType::Mp4Ilst
            ||| key == "----:com.apple.iTunes:ACOUSTID_FINGERPRINT"@ && tag_type
                == TagType::Mp4Ilst
        },
{
    let keys = fingerprint_keys(tag_type);
    if keys.contains(key) {
        let k = choose|k: int| 0 <= k < keys.len() && keys[k] == key;
        assert(k == 0 || k == 1 || k == 2 || k == 3);
    }
    assert(keys.len() > 0 ==> keys.contains(keys[0]));
    assert(keys.len() > 1 ==> keys.contains(keys[1]));
    assert(keys.len() > 2 ==> keys.contains(keys[2]));
    assert(keys.len() > 3 ==> keys.contains(keys[3]));
}

/// A fingerprint is written to the tag format of the container, under the key that is usual
/// there: Vorbis comments for FLAC, Ogg and Opus, ID3v2 for MP3 and WAV, MP4 atoms for MP4 and
/// APEv2 for APE and WavPack.
pub proof fn containers_have_their_tag_formats(file: lofty::file::TaggedFile)
    ensures
        ({
            let kind = kind_of(file);
            let primary = primary_type_of(file);
            &&& kind == FileKind::Flac || kind == FileKind::Vorbis || kind == FileKind::Opus || kind
                == FileKind::Speex <==> primary == Some(TagType::VorbisComments)
            &&& kind == FileKind::Mpeg || kind == FileKind::Wav || kind == FileKind::Aac || kind
                == FileKind::Aiff <==> primary == Some(TagType::Id3v2)
            &&& kind == FileKind::Mp4 <==> primary == Some(TagType::Mp4Ilst)
            &&& kind == FileKind::Ape || kind == FileKind::WavPack || kind == FileKind::Mpc
                <==> primary == Some(TagType::Ape)
        }),
        fingerprint_keys(TagType::VorbisComments)[0] == "ACOUSTID_FINGERPRINT"@,
        fingerprint_keys(TagType::Id3v2)[0] == "Acoustid Fingerprint"@,
        fingerprint_keys(TagType::Mp4Ilst)[0] == "----:com.apple.iTunes:Acoustid Fingerprint"@,
        fingerprint_keys(TagType::Ape)[0] == "ACOUSTID_FINGERPRINT"@,
{
}

/// The text under a key is that of the first item with it.
proof fn text_is_that_of_the_first_item(items: Seq<TagItem>, key: Seq<char>, i: int)
    requires
        0 <= i < items.len(),
        key_of(items[i]) == Some(key),
        forall|j: int| 0 <= j < i ==> key_of(#[trigger] items[j]) != Some(key),
    ensures
        text_under(items, key) == text_of(items[i]),
    decreases i,
{
    if i > 0 {
        let rest = items.skip(1);
        assert(key_of(items[0]) != Some(key));
        assert forall|j: int| 0 <= j < i - 1 implies key_of(#[trigger] rest[j]) != Some(key) by {
            assert(rest[j] == items[j + 1]);
        }
        text_is_that_of_the_first_item(rest, key, i - 1);
    }
}

/// A text under a key is that of an item with it, the first one.
proof fn text_comes_from_an_item(items: Seq<TagItem>, key: Seq<char>) -> (i: int)
    requires
        text_under(items, key) is Some,
    ensures
        0 <= i < items.len(),
        key_of(items[i]) == Some(key),
        text_of(items[i]) == text_under(items, key),
        forall|j: int| 0 <= j < i ==> key_of(#[trigger] items[j]) != Some(key),
    decreases items.len(),
{
    if key_of(items[0]) == Some(key) {
        0
    } else {
        let rest = items.skip(1);
        let i = text_comes_from_an_item(rest, key);
        assert forall|j: int| 0 <= j < i + 1 implies key_of(#[trigger] items[j]) != Some(key) by {
            if j > 0 {
                assert(rest[j - 1] == items[j]);
            }
        }
        i + 1
    }
}

/// A file is found to hold a fingerprint only where an item of one of its tags stands under one
/// of the keys for the type of that tag, and has a text with a character that is not white
/// space. The places of the tag, of the item and of the character are given back.
pub proof fn found_fingerprint_is_a_text_under_a_key(file: lofty::file::TaggedFile) -> (r: (
    int,
    int,
    int,
))
    requires
        has_fingerprint(file),
    ensures
        0 <= r.0 < tags_of(file).len(),
        0 <= r.1 < items_of(tags_of(file)[r.0]).len(),
        ({
            let tag = tags_of(file)[r.0];
            let item = items_of(tag)[r.1];
            &&& key_of(item) is Some
            &&& fingerprint_keys(type_of(tag)).contains(key_of(item)->0)
            &&& text_of(item) is Some
            &&& 0 <= r.2 < text_of(item)->0.len()
            &&& !is_white_space(text_of(item)->0[r.2])
        }),
{
    let t = choose|t: int|
        0 <= t < tags_of(file).len() && tag_has_fingerprint(#[trigger] tags_of(file)[t]);
    let tag = tags_of(file)[t];
    let keys = fingerprint_keys(type_of(tag));
    let items = items_of(tag);
    let k = choose|k: int|
        0 <= k < keys.len() && (text_under(items, #[trigger] keys[k]) matches Some(text)
            && !is_blank_text(text));
    assert(keys.contains(keys[k]));
    let i = text_comes_from_an_item(items, keys[k]);
    let text = text_of(items[i])->0;
    let c = choose|c: int| 0 <= c < text.len() && !is_white_space(#[trigger] text[c]);
    (t, i, c)
}

/// Where the first item under one of the keys for the type of its tag has a text with a
/// character that is not white space, the file is found to hold a fingerprint.
pub proof fn text_under_a_key_is_found(
    file: lofty::file::TaggedFile,
    t: int,
    i: int,
    c: int,
)
    requires
        0 <= t < tags_of(file).len(),
        0 <= i < items_of(tags_of(file)[t]).len(),
        ({
            let tag = tags_of(file)[t];
            let item = items_of(tag)[i];
            &&& key_of(item) is Some
            &&& fingerprint_keys(type_of(tag)).contains(key_of(item)->0)
            &&& forall|j: int|
                0 <= j < i ==> key_of(#[trigger] items_of(tag)[j]) != key_of(item)
            &&& text_of(item) is Some
            &&& 0 <= c < text_of(item)->0.len()
            &&& !is_white_space(text_of(item)->0[c])
        }),
    ensures
        has_fingerprint(file),
{
    let tag = tags_of(file)[t];
    let item = items_of(tag)[i];
    let keys = fingerprint_keys(type_of(tag));
    let k = choose|k: int| 0 <= k < keys.len() && keys[k] == key_of(item)->0;
    text_is_that_of_the_first_item(items_of(tag), keys[k], i);
    assert(!is_blank_text(text_of(item)->0));
    assert(is_text_under_keys(items_of(tag), keys, keys.len() as int));
    assert(tag_has_fingerprint(tags_of(file)[t]));
}

/// The places of the items that are kept when those under the keys are taken out.
proof fn kept_places(items: Seq<TagItem>, keys: Seq<Seq<char>>) -> (places: Seq<int>)
    ensures
        places.len() == without_keys(items, keys).len(),
        forall|m: int|
            0 <= m < places.len() ==> 0 <= #[trigger] places[m] < items.len()
                && items[places[m]] == without_keys(items, keys)[m] && (key_of(
                items[places[m]],
            ) matches Some(key) ==> !keys.contains(key)),
        forall|m: int, n: int|
            0 <= m < n < places.len() ==> #[trigger] places[m] < #[trigger] places[n],
        forall|p: int|
            0 <= p < items.len() && (key_of(#[trigger] items[p]) matches Some(key)
                ==> !keys.contains(key)) ==> places.contains(p),
    decreases items.len(),
{
    reveal(Seq::filter);
    if items.len() == 0 {
        seq![]
    } else {
        let front = items.drop_last();
        let last = items.last();
        let places = kept_places(front, keys);
        let kept = without_keys(front, keys);
        assert(is_under(last, keys, keys.len() as int) <==> (key_of(last) is Some
            && keys.contains(key_of(last)->0))) by {
            if key_of(last) is Some && keys.contains(key_of(last)->0) {
                let k = choose|k: int| 0 <= k < keys.len() && keys[k] == key_of(last)->0;
                assert(key_of(last) == Some(keys[k]));
            }
            if is_under(last, keys, keys.len() as int) {
                let k = choose|k: int|
                    0 <= k < keys.len() && key_of(last) == Some(#[trigger] keys[k]);
                assert(keys.contains(keys[k]));
            }
        }
        if is_under(last, keys, keys.len() as int) {
            assert forall|p: int|
                0 <= p < items.len() && (key_of(#[trigger] items[p]) matches Some(key)
                    ==> !keys.contains(key)) implies places.contains(p) by {
                assert(p < front.len());
                assert(front[p] == items[p]);
            }
            places
        } else {
            let all = places.push(items.len() - 1);
            assert(without_keys(items, keys) == kept.push(last));
            assert forall|p: int|
                0 <= p < items.len() && (key_of(#[trigger] items[p]) matches Some(key)
                    ==> !keys.contains(key)) implies all.contains(p) by {
                if p < front.len() {
                    assert(front[p] == items[p]);
                    let m = choose|m: int| 0 <= m < places.len() && places[m] == p;
                    assert(all[m] == p);
                } else {
                    assert(all[places.len() as int] == p);
                }
            }
            all
        }
    }
}

/// Writing a fingerprint changes one tag: the first of its type, or a new one behind the others.
/// Its items are then those that it had under other keys, the same ones in the same order, and
/// the fingerprint behind them, under the first key. Its pictures and the other tags stay. The
/// place of the tag and those of the kept items are given back.
pub proof fn writing_changes_the_fingerprint_only(
    before: Seq<lofty::tag::Tag>,
    after: Seq<lofty::tag::Tag>,
    tag_type: TagType,
    text: Seq<char>,
) -> (r: (int, Seq<int>))
    requires
        is_embedded(before, after, tag_type, text),
    ensures
        0 <= r.0 < after.len(),
        r.0 <= before.len(),
        after.len() == before.len() || (after.len() == before.len() + 1 && r.0 == before.len()),
        type_of(after[r.0]) == tag_type,
        r.0 < before.len() ==> type_of(before[r.0]) == tag_type && pictures_of(after[r.0])
            == pictures_of(before[r.0]),
        r.0 == before.len() ==> pictures_of(after[r.0]).len() == 0,
        forall|j: int| 0 <= j < r.0 ==> type_of(#[trigger] before[j]) != tag_type,
        forall|j: int| 0 <= j < before.len() && j != r.0 ==> #[trigger] after[j] == before[j],
        ({
            let old_items: Seq<TagItem> = if r.0 < before.len() {
                items_of(before[r.0])
            } else {
                seq![]
            };
            let new_items = items_of(after[r.0]);
            let keys = fingerprint_keys(tag_type);
            &&& new_items.len() == r.1.len() + 1
            &&& key_of(new_items.last()) == Some(keys[0])
            &&& text_of(new_items.last()) == Some(text)
            &&& forall|m: int|
                0 <= m < r.1.len() ==> 0 <= #[trigger] r.1[m] < old_items.len() && new_items[m]
                    == old_items[r.1[m]] && (key_of(new_items[m]) matches Some(key)
                    ==> !keys.contains(key))
            &&& forall|m: int, n: int|
                0 <= m < n < r.1.len() ==> #[trigger] r.1[m] < #[trigger] r.1[n]
            &&& forall|p: int|
                0 <= p < old_items.len() && (key_of(#[trigger] old_items[p]) matches Some(key)
                    ==> !keys.contains(key)) ==> r.1.contains(p)
        }),
{
    let i = choose|i: int| is_embedded_at(before, after, tag_type, text, i);
    assert(is_embedded_at(before, after, tag_type, text, i));
    let keys = fingerprint_keys(tag_type);
    let places = kept_places(items_at(before, i), keys);
    let new_items = items_of(after[i]);
    assert forall|m: int| 0 <= m < places.len() implies 0 <= #[trigger] places[m] < items_at(
        before,
        i,
    ).len() && new_items[m] == items_at(before, i)[places[m]] && (key_of(
        new_items[m],
    ) matches Some(key) ==> !keys.contains(key)) by {
        assert(new_items[m] == new_items.drop_last()[m]);
    }
    assert forall|j: int| 0 <= j < i implies type_of(#[trigger] before[j]) != tag_type by {
        if j < before.len() {
            assert(after[j] == before[j]);
            assert(type_of(after[j]) != tag_type);
        }
    }
    if !has_type(before, tag_type) {
        assert(i == before.len());
    }
    (i, places)
}

/// A written fingerprint is looked for in the first tag of the type that it was written to; only
/// where there is none, in the first of the file's primary type; only where there is none of
/// that either, in the first tag. It is there where the first item under its key has a text.
pub proof fn written_fingerprint_is_looked_for_where_it_was_written(
    file: lofty::file::TaggedFile,
    tag_type: TagType,
    key: Seq<char>,
    r: Persistence,
    t: int,
)
    requires
        is_persistence(file, tag_type, key, r),
        0 <= t < tags_of(file).len(),
        r != Persistence::UnknownFormat,
        ({
            let tags = tags_of(file);
            ||| type_of(tags[t]) == tag_type && forall|j: int|
                0 <= j < t ==> type_of(#[trigger] tags[j]) != tag_type
            ||| (forall|j: int| 0 <= j < tags.len() ==> type_of(#[trigger] tags[j]) != tag_type)
                && primary_type_of(file) == Some(type_of(tags[t])) && forall|j: int|
                0 <= j < t ==> type_of(#[trigger] tags[j]) != type_of(tags[t])
            ||| t == 0 && forall|j: int|
                0 <= j < tags.len() ==> type_of(#[trigger] tags[j]) != tag_type && primary_type_of(
                    file,
                ) != Some(type_of(tags[j]))
        }),
    ensures
        r == Persistence::Persisted <==> exists|i: int|
            0 <= i < items_of(tags_of(file)[t]).len() && key_of(
                #[trigger] items_of(tags_of(file)[t])[i],
            ) == Some(key) && text_of(items_of(tags_of(file)[t])[i]) is Some && forall|j: int|
                0 <= j < i ==> key_of(#[trigger] items_of(tags_of(file)[t])[j]) != Some(key),
        r == Persistence::Persisted || r == Persistence::Dropped,
{
    let tags = tags_of(file);
    let items = items_of(tags[t]);
    if type_of(tags[t]) == tag_type && forall|j: int|
        0 <= j < t ==> type_of(#[trigger] tags[j]) != tag_type {
        assert(is_first_of_type(tags, tag_type, t));
        first_of_type_is(tags, tag_type, t);
    } else if primary_type_of(file) == Some(type_of(tags[t])) && (forall|j: int|
        0 <= j < t ==> type_of(#[trigger] tags[j]) != type_of(tags[t])) {
        assert(!has_type(tags, tag_type));
        assert(is_first_of_type(tags, type_of(tags[t]), t));
        first_of_type_is(tags, type_of(tags[t]), t);
    } else {
        assert(!has_type(tags, tag_type));
        assert(primary_type_of(file) is Some ==> !has_type(tags, primary_type_of(file)->0));
    }
    assert(tag_to_check(file, tag_type) == Some(tags[t]));
    if text_under(items, key) is Some {
        let i = text_comes_from_an_item(items, key);
        assert(key_of(items[i]) == Some(key));
    }
    if exists|i: int|
        0 <= i < items.len() && key_of(#[trigger] items[i]) == Some(key) && text_of(
            items[i],
        ) is Some && forall|j: int| 0 <= j < i ==> key_of(#[trigger] items[j]) != Some(key) {
        let i = choose|i: int|
            0 <= i < items.len() && key_of(#[trigger] items[i]) == Some(key) && text_of(
                items[i],
            ) is Some && forall|j: int|
                0 <= j < i ==> key_of(#[trigger] items[j]) != Some(key);
        text_is_that_of_the_first_item(items, key, i);
    }
}

/// The first tag of a type is the one that stands first.
proof fn first_of_type_is(tags: Seq<lofty::tag::Tag>, tag_type: TagType, t: int)
    requires
        is_first_of_type(tags, tag_type, t),
    ensures
        has_type(tags, tag_type),
        first_of_type(tags, tag_type) == tags[t],
{
    assert(type_of(tags[t]) == tag_type);
    let m = choose|m: int| is_first_of_type(tags, tag_type, m);
    assert(is_first_of_type(tags, tag_type, m));
    if m < t {
        assert(type_of(tags[m]) != tag_type);
    }
    if t < m {
        assert(type_of(tags[t]) != tag_type);
    }
}

/// A file that was read again is found to have no tags, or to be of an unknown kind, only where
/// that is so.
pub proof fn missing_tags_are_told(
    file: lofty::file::TaggedFile,
    tag_type: TagType,
    key: Seq<char>,
    r: Persistence,
)
    requires
        is_persistence(file, tag_type, key, r),
    ensures
        r == Persistence::UnknownFormat <==> kind_of(file) == FileKind::Custom && forall|j: int|
            0 <= j < tags_of(file).len() ==> type_of(#[trigger] tags_of(file)[j]) != tag_type,
        r == Persistence::NoTags <==> kind_of(file) != FileKind::Custom && tags_of(file).len()
            == 0,
{
}

} // verus!
