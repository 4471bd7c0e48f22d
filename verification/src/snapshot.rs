//! A scanned picture of one directory tree: what enumeration yielded, in
//! order, with per-file tag records already read.
//!
//! The scan of a directory stops at the first entry that failed to read;
//! whatever was gathered before the failure is still indexed, which mirrors
//! the partial-emission behaviour of enumeration errors.

use vstd::prelude::*;

verus! {

use crate::rows::{SongTags, TagsV, SongV, DirV};
use crate::art::regex_matches;

/// One enumerated entry of a directory: a file with its tag record (`None`
/// when tag reading failed, so the file is skipped), a subdirectory, or an
/// entry that could not be read at all.
pub enum EntrySnapshot {
    File { name: String, tags: Option<SongTags> },
    Subdir { name: String, dir: DirSnapshot },
    ReadError,
}

/// One directory of the scanned tree: its full real path, its timestamp in
/// seconds since the epoch (`None` when the filesystem offered neither a
/// creation nor a modification time), and its entries in enumeration order.
pub struct DirSnapshot {
    pub path: String,
    pub date_added: Option<i32>,
    pub entries: Vec<EntrySnapshot>,
}

/// The mathematical value of an entry.
pub enum EntryV {
    File { name: Seq<char>, tags: Option<TagsV> },
    Subdir { name: Seq<char>, dir: DirTreeV },
    ReadError,
}

/// The mathematical value of a scanned directory.
pub struct DirTreeV {
    pub path: Seq<char>,
    pub date_added: Option<i32>,
    pub entries: Seq<EntryV>,
}

pub open spec fn entry_view(e: EntrySnapshot) -> EntryV
    decreases e, 0int, 0int,
{
    match e {
        EntrySnapshot::File { name, tags } => EntryV::File {
            name: name@,
            tags: match tags {
                Some(t) => Some(t@),
                None => None,
            },
        },
        EntrySnapshot::Subdir { name, dir } => EntryV::Subdir { name: name@, dir: tree_view(dir) },
        EntrySnapshot::ReadError => EntryV::ReadError,
    }
}

pub open spec fn entries_view(es: Seq<EntrySnapshot>, i: int) -> Seq<EntryV>
    decreases es, 0int, es.len() - i,
{
    if i < 0 || i >= es.len() {
        Seq::empty()
    } else {
        seq![entry_view(es[i])] + entries_view(es, i + 1)
    }
}

pub open spec fn tree_view(d: DirSnapshot) -> DirTreeV
    decreases d, 1int, 0int,
{
    DirTreeV { path: d.path@, date_added: d.date_added, entries: entries_view(d.entries@, 0) }
}

impl View for EntrySnapshot {
    type V = EntryV;

    open spec fn view(&self) -> EntryV {
        entry_view(*self)
    }
}

impl View for DirSnapshot {
    type V = DirTreeV;

    open spec fn view(&self) -> DirTreeV {
        tree_view(*self)
    }
}

/// The artist a song contributes to its directory's aggregate: the album
/// artist when tagged, else the artist.
pub open spec fn artist_of(t: TagsV) -> Option<Seq<char>> {
    if t.album_artist is Some {
        t.album_artist
    } else {
        t.artist
    }
}

/// The tagged files that enumeration from position `i` onward yields, as
/// (name, tags) pairs, cut short at the first unreadable entry.
pub open spec fn scan_files(entries: Seq<EntryV>, i: int) -> Seq<(Seq<char>, TagsV)>
    decreases entries.len() - i,
{
    if i < 0 || i >= entries.len() {
        Seq::empty()
    } else {
        match entries[i] {
            EntryV::ReadError => Seq::empty(),
            EntryV::File { name, tags } => match tags {
                Some(t) => seq![(name, t)] + scan_files(entries, i + 1),
                None => scan_files(entries, i + 1),
            },
            EntryV::Subdir { .. } => scan_files(entries, i + 1),
        }
    }
}

/// The subdirectories that enumeration from position `i` onward yields, in
/// order, cut short at the first unreadable entry.
pub open spec fn scan_subdirs(entries: Seq<EntryV>, i: int) -> Seq<DirTreeV>
    decreases entries.len() - i,
{
    if i < 0 || i >= entries.len() {
        Seq::empty()
    } else {
        match entries[i] {
            EntryV::ReadError => Seq::empty(),
            EntryV::Subdir { dir, .. } => seq![dir] + scan_subdirs(entries, i + 1),
            EntryV::File { .. } => scan_subdirs(entries, i + 1),
        }
    }
}

/// The artwork of a directory: the full path of the first entry whose name
/// matches the album-art pattern; none when no name matches or the artwork
/// scan hits an unreadable entry.
pub open spec fn artwork_scan(
    dir_path: Seq<char>,
    pat: Seq<char>,
    entries: Seq<EntryV>,
    i: int,
) -> Option<Seq<char>>
    decreases entries.len() - i,
{
    if i < 0 || i >= entries.len() {
        None
    } else {
        match entries[i] {
            EntryV::ReadError => None,
            EntryV::File { name, .. } => if regex_matches(pat, name) {
                Some(dir_path + seq!['/'] + name)
            } else {
                artwork_scan(dir_path, pat, entries, i + 1)
            },
            EntryV::Subdir { name, .. } => if regex_matches(pat, name) {
                Some(dir_path + seq!['/'] + name)
            } else {
                artwork_scan(dir_path, pat, entries, i + 1)
            },
        }
    }
}

/// Two entries disagree on a field's value.
pub open spec fn has_conflict<V>(vs: Seq<Option<V>>) -> bool {
    exists|i: int, j: int|
        0 <= i < vs.len() && 0 <= j < vs.len() && vs[i] is Some && vs[j] is Some && vs[i] != vs[j]
}

/// The last supplied value of a field, if any was supplied.
pub open spec fn last_some<V>(vs: Seq<Option<V>>) -> Option<V>
    decreases vs.len(),
{
    if vs.len() == 0 {
        None
    } else if vs[vs.len() - 1] is Some {
        vs[vs.len() - 1]
    } else {
        last_some(vs.drop_last())
    }
}

/// The inconsistency-collapsing aggregate of a field over the child songs:
/// null on disagreement or when no child supplied a value, else the one
/// supplied value.
pub open spec fn collapse<V>(vs: Seq<Option<V>>) -> Option<V> {
    if has_conflict(vs) {
        None
    } else {
        last_some(vs)
    }
}

/// The song row for one tagged file of a directory.
pub open spec fn song_row(
    dir_path: Seq<char>,
    art: Option<Seq<char>>,
    name: Seq<char>,
    t: TagsV,
) -> SongV {
    SongV {
        path: dir_path + seq!['/'] + name,
        parent: dir_path,
        track_number: t.track_number,
        disc_number: t.disc_number,
        title: t.title,
        artist: t.artist,
        album_artist: t.album_artist,
        year: t.year,
        album: t.album,
        artwork: art,
        duration: t.duration,
    }
}

/// The song rows the scan of one directory emits from position `i` onward,
/// all inheriting the directory's artwork.
pub open spec fn file_songs(t: DirTreeV, pat: Seq<char>, i: int) -> Seq<SongV> {
    scan_files(t.entries, i).map_values(
        |p: (Seq<char>, TagsV)|
            song_row(t.path, artwork_scan(t.path, pat, t.entries, 0), p.0, p.1),
    )
}

/// The years the scanned files supply, from position `i` onward.
pub open spec fn years_from(t: DirTreeV, i: int) -> Seq<Option<i32>> {
    scan_files(t.entries, i).map_values(|p: (Seq<char>, TagsV)| p.1.year)
}

/// The albums the scanned files supply, from position `i` onward.
pub open spec fn albums_from(t: DirTreeV, i: int) -> Seq<Option<Seq<char>>> {
    scan_files(t.entries, i).map_values(|p: (Seq<char>, TagsV)| p.1.album)
}

/// The artists the scanned files supply, from position `i` onward.
pub open spec fn artists_from(t: DirTreeV, i: int) -> Seq<Option<Seq<char>>> {
    scan_files(t.entries, i).map_values(|p: (Seq<char>, TagsV)| artist_of(p.1))
}

/// The song rows of one directory, in enumeration order.
pub open spec fn dir_songs(t: DirTreeV, pat: Seq<char>) -> Seq<SongV> {
    file_songs(t, pat, 0)
}

/// The directory row for one scanned directory: path, parent, collapsed
/// aggregates over its child songs, artwork, and timestamp.
pub open spec fn dir_row(t: DirTreeV, parent: Option<Seq<char>>, pat: Seq<char>) -> DirV {
    DirV {
        path: t.path,
        parent,
        artist: collapse(artists_from(t, 0)),
        year: collapse(years_from(t, 0)),
        album: collapse(albums_from(t, 0)),
        artwork: artwork_scan(t.path, pat, t.entries, 0),
        date_added: match t.date_added {
            Some(d) => d,
            None => 0,
        },
    }
}

/// How one scanned entry extends the per-directory sequences: an
/// unreadable entry ends them, a tagged file contributes one element to
/// each, and anything else leaves them as the rest of the scan.
pub proof fn lemma_scan_step(t: DirTreeV, pat: Seq<char>, i: int)
    requires
        0 <= i < t.entries.len(),
    ensures
        t.entries[i] is ReadError ==> {
            &&& file_songs(t, pat, i) == Seq::<SongV>::empty()
            &&& years_from(t, i) == Seq::<Option<i32>>::empty()
            &&& albums_from(t, i) == Seq::<Option<Seq<char>>>::empty()
            &&& artists_from(t, i) == Seq::<Option<Seq<char>>>::empty()
        },
        (t.entries[i] matches EntryV::File { tags: Option::None, .. } || t.entries[i] is Subdir)
            ==> {
            &&& file_songs(t, pat, i) == file_songs(t, pat, i + 1)
            &&& years_from(t, i) == years_from(t, i + 1)
            &&& albums_from(t, i) == albums_from(t, i + 1)
            &&& artists_from(t, i) == artists_from(t, i + 1)
        },
        forall|name: Seq<char>, tg: TagsV|
            t.entries[i] == (EntryV::File { name, tags: Some(tg) }) ==> {
                &&& file_songs(t, pat, i) == seq![
                    song_row(t.path, artwork_scan(t.path, pat, t.entries, 0), name, tg),
                ] + file_songs(t, pat, i + 1)
                &&& years_from(t, i) == seq![tg.year] + years_from(t, i + 1)
                &&& albums_from(t, i) == seq![tg.album] + albums_from(t, i + 1)
                &&& artists_from(t, i) == seq![artist_of(tg)] + artists_from(t, i + 1)
            },
{
    match t.entries[i] {
        EntryV::ReadError => {
            assert(file_songs(t, pat, i) =~= Seq::<SongV>::empty());
            assert(years_from(t, i) =~= Seq::<Option<i32>>::empty());
            assert(albums_from(t, i) =~= Seq::<Option<Seq<char>>>::empty());
            assert(artists_from(t, i) =~= Seq::<Option<Seq<char>>>::empty());
        },
        EntryV::Subdir { .. } => {
            assert(scan_files(t.entries, i) == scan_files(t.entries, i + 1));
        },
        EntryV::File { name, tags } => {
            match tags {
                None => {
                    assert(scan_files(t.entries, i) == scan_files(t.entries, i + 1));
                },
                Some(tg) => {
                    let head = (name, tg);
                    assert(scan_files(t.entries, i) == seq![head] + scan_files(
                        t.entries,
                        i + 1,
                    ));
                    assert(file_songs(t, pat, i) =~= seq![
                        song_row(t.path, artwork_scan(t.path, pat, t.entries, 0), name, tg),
                    ] + file_songs(t, pat, i + 1));
                    assert(years_from(t, i) =~= seq![tg.year] + years_from(t, i + 1));
                    assert(albums_from(t, i) =~= seq![tg.album] + albums_from(t, i + 1));
                    assert(artists_from(t, i) =~= seq![artist_of(tg)] + artists_from(t, i + 1));
                },
            }
        },
    }
}

/// All song rows a scan of the tree emits, in emission order: the
/// directory's own songs, then each scanned subdirectory's, recursively.
pub open spec fn tree_songs(t: DirTreeV, pat: Seq<char>) -> Seq<SongV>
    decreases t, 0int,
{
    dir_songs(t, pat) + entries_songs(t.entries, 0, pat)
}

pub open spec fn entries_songs(entries: Seq<EntryV>, i: int, pat: Seq<char>) -> Seq<SongV>
    decreases entries, entries.len() - i,
{
    if i < 0 || i >= entries.len() {
        Seq::empty()
    } else {
        match entries[i] {
            EntryV::ReadError => Seq::empty(),
            EntryV::Subdir { dir, .. } => tree_songs(dir, pat) + entries_songs(entries, i + 1, pat),
            EntryV::File { .. } => entries_songs(entries, i + 1, pat),
        }
    }
}

/// All directory rows a scan of the tree emits, in emission order: the
/// directory's own row, then each scanned subdirectory's, recursively.
pub open spec fn tree_dirs(t: DirTreeV, parent: Option<Seq<char>>, pat: Seq<char>) -> Seq<DirV>
    decreases t, 0int,
{
    seq![dir_row(t, parent, pat)] + entries_dirs(t.entries, 0, t.path, pat)
}

pub open spec fn entries_dirs(
    entries: Seq<EntryV>,
    i: int,
    parent_path: Seq<char>,
    pat: Seq<char>,
) -> Seq<DirV>
    decreases entries, entries.len() - i,
{
    if i < 0 || i >= entries.len() {
        Seq::empty()
    } else {
        match entries[i] {
            EntryV::ReadError => Seq::empty(),
            EntryV::Subdir { dir, .. } => tree_dirs(dir, Some(parent_path), pat) + entries_dirs(
                entries,
                i + 1,
                parent_path,
                pat,
            ),
            EntryV::File { .. } => entries_dirs(entries, i + 1, parent_path, pat),
        }
    }
}

/// One step of the aggregate tracker: a supplied value always becomes the
/// candidate, and flags an inconsistency when it differs from a previous
/// non-null candidate.
pub open spec fn agg_step<V>(cand: Option<V>, inc: bool, v: Option<V>) -> (Option<V>, bool) {
    match v {
        Some(_) => (v, inc || (cand is Some && cand != v)),
        None => (cand, inc),
    }
}

/// The aggregate tracker run over a whole list of supplied values.
pub open spec fn agg_fold<V>(cand: Option<V>, inc: bool, vs: Seq<Option<V>>) -> (Option<V>, bool)
    decreases vs.len(),
{
    if vs.len() == 0 {
        (cand, inc)
    } else {
        let st = agg_step(cand, inc, vs[0]);
        agg_fold(st.0, st.1, vs.drop_first())
    }
}

/// What the tracker computes, characterised without the fold: the final
/// candidate is the last supplied value, and the inconsistency flag is set
/// exactly when two supplied values disagree, or one disagrees with the
/// starting candidate.
pub proof fn lemma_agg_fold<V>(cand: Option<V>, inc: bool, vs: Seq<Option<V>>)
    ensures
        ({
            let r = agg_fold(cand, inc, vs);
            &&& r.0 == if last_some(vs) is Some {
                last_some(vs)
            } else {
                cand
            }
            &&& r.1 == (inc || has_conflict(vs) || (cand is Some && exists|j: int|
                0 <= j < vs.len() && vs[j] is Some && #[trigger] vs[j] != cand))
        }),
    decreases vs.len(),
{
    if vs.len() > 0 {
        let st = agg_step(cand, inc, vs[0]);
        let rest = vs.drop_first();
        lemma_agg_fold(st.0, st.1, rest);
        lemma_last_some_first(vs);
        // relate conflicts over `vs` to conflicts over its tail
        assert(has_conflict(rest) ==> has_conflict(vs)) by {
            if has_conflict(rest) {
                let (i, j) = choose|i: int, j: int|
                    0 <= i < rest.len() && 0 <= j < rest.len() && rest[i] is Some
                        && rest[j] is Some && rest[i] != rest[j];
                assert(vs[i + 1] == rest[i] && vs[j + 1] == rest[j]);
            }
        }
        if vs[0] is Some {
            assert((exists|j: int|
                0 <= j < rest.len() && rest[j] is Some && #[trigger] rest[j] != vs[0])
                ==> has_conflict(vs)) by {
                if exists|j: int|
                    0 <= j < rest.len() && rest[j] is Some && #[trigger] rest[j] != vs[0] {
                    let j = choose|j: int|
                        0 <= j < rest.len() && rest[j] is Some && #[trigger] rest[j] != vs[0];
                    assert(vs[j + 1] == rest[j]);
                    assert(vs[0] is Some && vs[j + 1] is Some && vs[0] != vs[j + 1]);
                }
            }
        }
        assert(has_conflict(vs) ==> agg_fold(cand, inc, vs).1) by {
            if has_conflict(vs) {
                let (i, j) = choose|i: int, j: int|
                    0 <= i < vs.len() && 0 <= j < vs.len() && vs[i] is Some && vs[j] is Some
                        && vs[i] != vs[j];
                if i > 0 && j > 0 {
                    assert(rest[i - 1] == vs[i] && rest[j - 1] == vs[j]);
                    assert(has_conflict(rest));
                } else {
                    // one of the two is the head; the other conflicts with it
                    let other = if i == 0 {
                        j
                    } else {
                        i
                    };
                    assert(other > 0 && vs[other] is Some && vs[other] != vs[0]);
                    assert(rest[other - 1] == vs[other]);
                }
            }
        }
        assert((cand is Some && exists|j: int|
            0 <= j < vs.len() && vs[j] is Some && #[trigger] vs[j] != cand) ==> agg_fold(
            cand,
            inc,
            vs,
        ).1) by {
            if cand is Some && exists|j: int|
                0 <= j < vs.len() && vs[j] is Some && #[trigger] vs[j] != cand {
                let j = choose|j: int|
                    0 <= j < vs.len() && vs[j] is Some && #[trigger] vs[j] != cand;
                if j > 0 {
                    assert(rest[j - 1] == vs[j]);
                    if vs[0] is None {
                        assert(st.0 == cand);
                    } else {
                        if vs[0] == cand {
                            assert(rest[j - 1] != st.0);
                        }
                    }
                }
            }
        }
    }
}

/// `last_some` of a non-empty list, seen from the front.
proof fn lemma_last_some_first<V>(vs: Seq<Option<V>>)
    requires
        vs.len() > 0,
    ensures
        last_some(vs) == if last_some(vs.drop_first()) is Some {
            last_some(vs.drop_first())
        } else {
            vs[0]
        },
    decreases vs.len(),
{
    if vs.len() == 1 {
        assert(vs.drop_first() =~= Seq::<Option<V>>::empty());
    } else {
        let tail = vs.drop_first();
        assert(tail[tail.len() - 1] == vs[vs.len() - 1]);
        if vs[vs.len() - 1] is Some {
        } else {
            lemma_last_some_first(vs.drop_last());
            assert(vs.drop_last().drop_first() =~= tail.drop_last());
            assert(vs.drop_last()[0] == vs[0]);
        }
    }
}

/// The view of a snapshot's entries, element by element.
pub proof fn lemma_entries_view(es: Seq<EntrySnapshot>, i: int)
    requires
        0 <= i <= es.len(),
    ensures
        entries_view(es, i).len() == es.len() - i,
        forall|k: int|
            0 <= k < es.len() - i ==> entries_view(es, i)[k] == entry_view(es[i + k]),
    decreases es.len() - i,
{
    if i < es.len() {
        lemma_entries_view(es, i + 1);
    }
}

/// A scan of the tree succeeds: every directory the walk reaches carries a
/// timestamp.
pub open spec fn tree_ok(t: DirTreeV) -> bool
    decreases t, 0int,
{
    t.date_added is Some && entries_ok(t.entries, 0)
}

pub open spec fn entries_ok(entries: Seq<EntryV>, i: int) -> bool
    decreases entries, entries.len() - i,
{
    if i < 0 || i >= entries.len() {
        true
    } else {
        match entries[i] {
            EntryV::ReadError => true,
            EntryV::Subdir { dir, .. } => tree_ok(dir) && entries_ok(entries, i + 1),
            EntryV::File { .. } => entries_ok(entries, i + 1),
        }
    }
}

} // verus!
