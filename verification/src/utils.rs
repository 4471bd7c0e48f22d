//! Filename classification: the audio format a path's extension names, and
//! whether a path names an image file.

use vstd::prelude::*;

verus! {

use vstd::string::StrSliceExecFns;
use vstd::string::StringExecFns;
use crate::strings::{folded, fold_eq, rfind_char};

/// The audio formats the indexer recognises.
#[derive(Debug, PartialEq, Eq, Structural, Clone, Copy)]
pub enum AudioFormat {
    FLAC,
    MP3,
    MP4,
    MPC,
    OGG,
}

/// The position of the last occurrence of `c` in `s`, if any.
pub open spec fn rindex(s: Seq<char>, c: char) -> Option<int>
    decreases s.len(),
{
    if s.len() == 0 {
        None
    } else if s[s.len() - 1] == c {
        Some(s.len() - 1)
    } else {
        rindex(s.drop_last(), c)
    }
}

proof fn lemma_rindex(s: Seq<char>, c: char)
    ensures
        match rindex(s, c) {
            Some(i) => 0 <= i < s.len() && s[i] == c && forall|k: int|
                i < k < s.len() ==> s[k] != c,
            None => forall|k: int| 0 <= k < s.len() ==> s[k] != c,
        },
    decreases s.len(),
{
    if s.len() > 0 && s[s.len() - 1] != c {
        lemma_rindex(s.drop_last(), c);
        assert(forall|k: int| 0 <= k < s.len() - 1 ==> s.drop_last()[k] == s[k]);
    }
}

/// The file name of a path: the characters after the last separator, or
/// the whole path when it has none.
pub open spec fn file_name_of(p: Seq<char>) -> Seq<char> {
    match rindex(p, '/') {
        None => p,
        Some(i) => p.skip(i + 1),
    }
}

/// The extension of a path: the characters of its file name after the last
/// dot, unless the file name holds no dot or only a leading one.
pub open spec fn extension_of(p: Seq<char>) -> Option<Seq<char>> {
    let name = file_name_of(p);
    match rindex(name, '.') {
        None => None,
        Some(i) => if i == 0 {
            None
        } else {
            Some(name.skip(i + 1))
        },
    }
}

/// The audio format a path's extension names, compared without regard to
/// ASCII case; `None` when the extension names no known format.
pub open spec fn audio_format_of(p: Seq<char>) -> Option<AudioFormat> {
    match extension_of(p) {
        None => None,
        Some(e) => {
            let f = folded(e);
            if f == folded("flac"@) {
                Some(AudioFormat::FLAC)
            } else if f == folded("mp3"@) {
                Some(AudioFormat::MP3)
            } else if f == folded("m4a"@) {
                Some(AudioFormat::MP4)
            } else if f == folded("mpc"@) {
                Some(AudioFormat::MPC)
            } else if f == folded("ogg"@) {
                Some(AudioFormat::OGG)
            } else {
                None
            }
        },
    }
}

/// A path names an image file when its extension, folded, is one of the
/// recognised picture extensions.
pub open spec fn is_image_of(p: Seq<char>) -> bool {
    match extension_of(p) {
        None => false,
        Some(e) => {
            let f = folded(e);
            ||| f == folded("png"@)
            ||| f == folded("gif"@)
            ||| f == folded("jpg"@)
            ||| f == folded("jpeg"@)
            ||| f == folded("bmp"@)
        },
    }
}

/// The extension of `p`, executably; `None` exactly when `extension_of`
/// gives none.
fn extension_exec(p: &str) -> (r: Option<String>)
    ensures
        match r {
            Some(e) => extension_of(p@) == Some(e@),
            None => extension_of(p@) is None,
        },
{
    let len = p.unicode_len();
    proof {
        lemma_rindex(p@, '/');
    }
    let name_start: usize = match rfind_char(p, '/') {
        Some(i) => i + 1,
        None => 0,
    };
    let name = p.substring_char(name_start, len);
    proof {
        if rindex(p@, '/') is Some {
            assert(name@ =~= file_name_of(p@));
        } else {
            assert(name@ =~= file_name_of(p@));
        }
        lemma_rindex(name@, '.');
    }
    let name_len = name.unicode_len();
    match rfind_char(name, '.') {
        None => None,
        Some(i) => {
            if i == 0 {
                None
            } else {
                let ext = name.substring_char(i + 1, name_len);
                proof {
                    assert(ext@ =~= file_name_of(p@).skip(rindex(file_name_of(p@), '.').unwrap()
                        + 1));
                }
                Some(String::from_str(ext))
            }
        },
    }
}

/// The audio format that the file at `path` holds, judged by its
/// extension alone.
pub fn get_audio_format(path: &str) -> (r: Option<AudioFormat>)
    ensures
        r == audio_format_of(path@),
{
    let ext = match extension_exec(path) {
        Some(e) => e,
        None => {
            return None;
        },
    };
    let e = ext.as_str();
    if fold_eq(e, "flac") {
        Some(AudioFormat::FLAC)
    } else if fold_eq(e, "mp3") {
        Some(AudioFormat::MP3)
    } else if fold_eq(e, "m4a") {
        Some(AudioFormat::MP4)
    } else if fold_eq(e, "mpc") {
        Some(AudioFormat::MPC)
    } else if fold_eq(e, "ogg") {
        Some(AudioFormat::OGG)
    } else {
        None
    }
}

/// Whether the file at `path` is a picture, judged by its extension alone.
pub fn is_image(path: &str) -> (r: bool)
    ensures
        r == is_image_of(path@),
{
    let ext = match extension_exec(path) {
        Some(e) => e,
        None => {
            return false;
        },
    };
    let e = ext.as_str();
    fold_eq(e, "png") || fold_eq(e, "gif") || fold_eq(e, "jpg") || fold_eq(e, "jpeg") || fold_eq(
        e,
        "bmp",
    )
}

} // verus!
