//! Which files are audio files, by their names.

use vstd::prelude::*;
use vstd::string::StrSliceExecFns;

verus! {

/// The extensions of the audio files that are worked on, in lower case.
pub const SUPPORTED_EXTENSIONS: [&'static str; 8] = [
    "m4a",
    "mp3",
    "ogg",
    "flac",
    "opus",
    "wv",
    "ape",
    "wav",
];

/// The byte with an upper-case ASCII letter turned to lower case.
pub open spec fn ascii_lower(byte: u8) -> u8 {
    if 0x41 <= byte <= 0x5a {
        (byte + 0x20) as u8
    } else {
        byte
    }
}

/// The text that the bytes spell in ASCII, in lower case.
pub open spec fn lower_text(bytes: Seq<u8>) -> Seq<char> {
    bytes.map_values(|byte: u8| ascii_lower(byte) as char)
}

/// Whether the last dot of a file name stands at `k`.
pub open spec fn is_last_dot(name: Seq<u8>, k: int) -> bool {
    &&& 0 <= k < name.len()
    &&& name[k] == 0x2e
    &&& forall|j: int| k < j < name.len() ==> #[trigger] name[j] != 0x2e
}

/// Whether a name stands for the parent directory.
pub open spec fn is_parent_name(name: Seq<u8>) -> bool {
    name.len() == 2 && name[0] == 0x2e && name[1] == 0x2e
}

/// The extension of a file name: what follows its last dot. A name without a dot has none, nor
/// has one whose only dot stands at its start, nor has that of the parent directory.
pub open spec fn extension_of(name: Seq<u8>) -> Option<Seq<u8>> {
    if !is_parent_name(name) && exists|k: int| 0 < k && is_last_dot(name, k) {
        Some(name.skip((choose|k: int| is_last_dot(name, k)) + 1))
    } else {
        None
    }
}

/// Whether a file name has one of the supported extensions, in upper or lower case.
pub open spec fn is_supported_name(name: Seq<u8>) -> bool {
    extension_of(name) matches Some(extension) && exists|i: int|
        0 <= i < 8 && lower_text(extension) == (#[trigger] SUPPORTED_EXTENSIONS@[i])@
}

/// The extension of a file name.
pub fn extension(name: &[u8]) -> (r: Option<&[u8]>)
    ensures
        match r {
            Some(extension) => extension_of(name@) == Some(extension@),
            None => extension_of(name@) is None,
        },
{
    if name.len() == 2 && name[0] == 0x2e && name[1] == 0x2e {
        return None;
    }
    let mut end: usize = name.len();
    while end > 0 && name[end - 1] != 0x2e
        invariant
            end <= name.len(),
            forall|j: int| end <= j < name.len() ==> #[trigger] name@[j] != 0x2e,
        decreases end,
    {
        end = end - 1;
    }
    if end <= 1 {
        assert(end == 1 ==> is_last_dot(name@, 0));
        return None;
    }
    assert(is_last_dot(name@, end - 1));
    let extension = vstd::slice::slice_subrange(name, end, name.len());
    assert(extension@ =~= name@.skip(end as int));
    Some(extension)
}

/// Whether the bytes spell `text` in ASCII, in upper or lower case.
fn spells(bytes: &[u8], text: &str) -> (r: bool)
    ensures
        r == (lower_text(bytes@) == text@),
{
    if bytes.len() != text.unicode_len() {
        return false;
    }
    let mut i: usize = 0;
    while i < bytes.len()
        invariant
            i <= bytes.len(),
            bytes@.len() == text@.len(),
            forall|j: int| 0 <= j < i ==> ascii_lower(#[trigger] bytes@[j]) as char == text@[j],
        decreases bytes.len() - i,
    {
        let byte: u8 = bytes[i];
        let lower: u8 = if 0x41 <= byte && byte <= 0x5a {
            byte + 0x20
        } else {
            byte
        };
        if lower as char != text.get_char(i) {
            assert(lower_text(bytes@)[i as int] != text@[i as int]);
            return false;
        }
        i = i + 1;
    }
    assert(lower_text(bytes@) =~= text@);
    true
}

/// The extension of an audio file in lower case; none where the file is no audio file that is
/// worked on.
pub fn audio_extension(name: &[u8]) -> (r: Option<String>)
    ensures
        (r is Some) == is_supported_name(name@),
        r matches Some(text) ==> text@ == lower_text(extension_of(name@)->0),
{
    let extension: &[u8] = match extension(name) {
        Some(extension) => extension,
        None => {
            return None;
        },
    };
    let mut i: usize = 0;
    while i < SUPPORTED_EXTENSIONS.len()
        invariant
            i <= 8,
            extension_of(name@) == Some(extension@),
            forall|j: int|
                0 <= j < i ==> lower_text(extension@) != (#[trigger] SUPPORTED_EXTENSIONS@[j])@,
        decreases 8 - i,
    {
        if spells(extension, SUPPORTED_EXTENSIONS[i]) {
            return Some(SUPPORTED_EXTENSIONS[i].to_owned());
        }
        i = i + 1;
    }
    None
}

/// Whether a file is an audio file that is worked on, by its file name.
pub fn is_supported_audio_path(name: &[u8]) -> (r: bool)
    ensures
        r == is_supported_name(name@),
{
    audio_extension(name).is_some()
}

/// Names that differ only in the case of ASCII letters are supported or not together.
pub proof fn support_ignores_case(first: Seq<u8>, second: Seq<u8>)
    requires
        lower_text(first) == lower_text(second),
    ensures
        is_supported_name(first) == is_supported_name(second),
{
    assert(first.len() == lower_text(first).len() && second.len() == lower_text(second).len());
    assert forall|i: int| 0 <= i < first.len() implies ascii_lower(#[trigger] first[i])
        == ascii_lower(second[i]) by {
        assert(lower_text(first)[i] == lower_text(second)[i]);
        assert(lower_text(first)[i] == ascii_lower(first[i]) as char);
        assert(lower_text(second)[i] == ascii_lower(second[i]) as char);
    }
    assert forall|k: int| is_last_dot(first, k) == is_last_dot(second, k) by {
        assert forall|i: int| 0 <= i < first.len() implies (#[trigger] first[i] == 0x2e) == (
        second[i] == 0x2e) by {}
        if is_last_dot(second, k) && !is_last_dot(first, k) {
            let j = choose|j: int| k < j < first.len() && #[trigger] first[j] == 0x2e;
            assert(second[j] != 0x2e);
        }
        if is_last_dot(first, k) && !is_last_dot(second, k) {
            let j = choose|j: int| k < j < second.len() && #[trigger] second[j] == 0x2e;
            assert(first[j] != 0x2e);
        }
    }
    assert(is_parent_name(first) == is_parent_name(second));
    if exists|k: int| 0 < k && is_last_dot(first, k) {
        let k = choose|k: int| 0 < k && is_last_dot(first, k);
        assert(is_last_dot(second, k));
        let m = choose|m: int| is_last_dot(first, m);
        let n = choose|n: int| is_last_dot(second, n);
        assert(m == k && n == k);
        assert(lower_text(first.skip(k + 1)) =~= lower_text(second.skip(k + 1)));
    } else if exists|k: int| 0 < k && is_last_dot(second, k) {
        let k = choose|k: int| 0 < k && is_last_dot(second, k);
        assert(is_last_dot(first, k));
    }
}

/// The extension of a name is what follows its last dot, where something stands before that
/// dot.
pub proof fn extension_follows_the_last_dot(name: Seq<u8>, extension: Seq<u8>)
    ensures
        extension_of(name) == Some(extension) <==> {
            let dot = name.len() - extension.len() - 1;
            &&& dot > 0
            &&& name[dot] == 0x2e
            &&& name.skip(dot + 1) == extension
            &&& forall|i: int| 0 <= i < extension.len() ==> #[trigger] extension[i] != 0x2e
            &&& name != seq![0x2eu8, 0x2e]
        },
{
    let dot = name.len() - extension.len() - 1;
    assert(is_parent_name(name) <==> name == seq![0x2eu8, 0x2e]) by {
        if is_parent_name(name) {
            assert(name =~= seq![0x2eu8, 0x2e]);
        }
    }
    if extension_of(name) == Some(extension) {
        let k = choose|k: int| 0 < k && is_last_dot(name, k);
        let m = choose|m: int| is_last_dot(name, m);
        assert(is_last_dot(name, k) && is_last_dot(name, m));
        assert(k == m);
        assert(extension == name.skip(k + 1));
        assert forall|i: int| 0 <= i < extension.len() implies #[trigger] extension[i] != 0x2e by {
            assert(extension[i] == name[k + 1 + i]);
        }
    }
    if dot > 0 && name[dot] == 0x2e && name.skip(dot + 1) == extension && (forall|i: int|
        0 <= i < extension.len() ==> #[trigger] extension[i] != 0x2e) && name != seq![
        0x2eu8,
        0x2e,
    ] {
        assert forall|j: int| dot < j < name.len() implies #[trigger] name[j] != 0x2e by {
            assert(extension[j - dot - 1] == name[j]);
        }
        assert(is_last_dot(name, dot));
        let m = choose|m: int| is_last_dot(name, m);
        assert(m == dot);
    }
}

/// Whether a byte is the ASCII character `c`, or that letter in upper case.
pub open spec fn is_letter_of(byte: u8, c: char) -> bool {
    byte as int == c as int || ('a' <= c <= 'z' && byte as int + 32 == c as int)
}

/// Whether a name ends in a dot and the given text, in upper or lower case, with something in
/// front.
pub open spec fn ends_in(name: Seq<u8>, text: Seq<char>) -> bool {
    let start = name.len() - text.len();
    &&& start > 1
    &&& name[start - 1] == 0x2e
    &&& forall|i: int| 0 <= i < text.len() ==> is_letter_of(name[start + i], #[trigger] text[i])
}

/// Whether a text is made of lower-case letters and digits.
spec fn is_plain(text: Seq<char>) -> bool {
    forall|i: int|
        0 <= i < text.len() ==> 'a' <= (#[trigger] text[i]) <= 'z' || '0' <= text[i] <= '9'
}

/// A name has an extension of plain characters if and only if it ends in it.
proof fn extension_is_the_end(name: Seq<u8>, text: Seq<char>)
    requires
        is_plain(text),
        text.len() > 0,
    ensures
        (extension_of(name) matches Some(extension) && lower_text(extension) == text) <==> ends_in(
            name,
            text,
        ),
{
    let start = name.len() - text.len();
    if extension_of(name) matches Some(extension) && lower_text(extension) == text {
        let extension = extension_of(name)->0;
        extension_follows_the_last_dot(name, extension);
        assert(lower_text(extension).len() == extension.len());
        assert forall|i: int| 0 <= i < text.len() implies is_letter_of(
            name[start + i],
            #[trigger] text[i],
        ) by {
            assert(extension[i] == name[start + i]);
            assert(lower_text(extension)[i] == ascii_lower(extension[i]) as char);
        }
    }
    if ends_in(name, text) {
        let extension = name.skip(start);
        assert forall|i: int| 0 <= i < extension.len() implies #[trigger] extension[i] != 0x2e
            && ascii_lower(extension[i]) as char == text[i] by {
            assert(is_letter_of(name[start + i], text[i]));
            assert(extension[i] == name[start + i]);
        }
        assert(lower_text(extension) =~= text);
        extension_follows_the_last_dot(name, extension);
    }
}

/// The supported files are those whose name ends in a dot and one of the eight extensions, in
/// upper or lower case, with something in front.
pub proof fn supported_names_end_in_an_extension(name: Seq<u8>)
    ensures
        is_supported_name(name) <==> {
            ||| ends_in(name, "m4a"@)
            ||| ends_in(name, "mp3"@)
            ||| ends_in(name, "ogg"@)
            ||| ends_in(name, "flac"@)
            ||| ends_in(name, "opus"@)
            ||| ends_in(name, "wv"@)
            ||| ends_in(name, "ape"@)
            ||| ends_in(name, "wav"@)
        },
{
    reveal_strlit("m4a");
    reveal_strlit("mp3");
    reveal_strlit("ogg");
    reveal_strlit("flac");
    reveal_strlit("opus");
    reveal_strlit("wv");
    reveal_strlit("ape");
    reveal_strlit("wav");
    let all = SUPPORTED_EXTENSIONS@;
    assert(all[0]@ == "m4a"@);
    assert(all[1]@ == "mp3"@);
    assert(all[2]@ == "ogg"@);
    assert(all[3]@ == "flac"@);
    assert(all[4]@ == "opus"@);
    assert(all[5]@ == "wv"@);
    assert(all[6]@ == "ape"@);
    assert(all[7]@ == "wav"@);
    extension_is_the_end(name, "m4a"@);
    extension_is_the_end(name, "mp3"@);
    extension_is_the_end(name, "ogg"@);
    extension_is_the_end(name, "flac"@);
    extension_is_the_end(name, "opus"@);
    extension_is_the_end(name, "wv"@);
    extension_is_the_end(name, "ape"@);
    extension_is_the_end(name, "wav"@);
    if is_supported_name(name) {
        let i = choose|i: int|
            0 <= i < 8 && lower_text(extension_of(name)->0) == (
            #[trigger] SUPPORTED_EXTENSIONS@[i])@;
        assert(i == 0 || i == 1 || i == 2 || i == 3 || i == 4 || i == 5 || i == 6 || i == 7);
    }
}

/// The extension that is handed on of a supported name is the end of the name in lower case.
pub proof fn extension_is_the_name_in_lower_case(name: Seq<u8>)
    requires
        is_supported_name(name),
    ensures
        ({
            let text = lower_text(extension_of(name)->0);
            &&& ends_in(name, text)
            &&& forall|i: int|
                0 <= i < text.len() ==> 'a' <= (#[trigger] text[i]) <= 'z' || '0' <= text[i] <= '9'
        }),
{
    supported_names_end_in_an_extension(name);
    reveal_strlit("m4a");
    reveal_strlit("mp3");
    reveal_strlit("ogg");
    reveal_strlit("flac");
    reveal_strlit("opus");
    reveal_strlit("wv");
    reveal_strlit("ape");
    reveal_strlit("wav");
    let i = choose|i: int|
        0 <= i < 8 && lower_text(extension_of(name)->0) == (#[trigger] SUPPORTED_EXTENSIONS@[i])@;
    let all = SUPPORTED_EXTENSIONS@;
    assert(i == 0 || i == 1 || i == 2 || i == 3 || i == 4 || i == 5 || i == 6 || i == 7);
    let text = lower_text(extension_of(name)->0);
    assert(is_plain(text));
    extension_is_the_end(name, text);
}

} // verus!
