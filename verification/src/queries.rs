//! The read queries. Every row that leaves the library is virtualized:
//! its path rewritten into the virtual namespace, its artwork likewise.
//! Rows whose path has no virtual form are silently dropped; rows whose
//! artwork has none keep the row and lose the artwork.

use vstd::prelude::*;

verus! {

use vstd::string::StrSliceExecFns;
use crate::db::{Db, dirs_v, songs_v, find_song_index, song_key};
use crate::rows::{Song, SongV, Directory, DirV, CollectionFile, CollectionFileV};
use crate::sorting::{
    sort_songs,
    sort_directories,
    sort_by_spec,
    song_nocase_lt,
    dir_nocase_lt,
    song_path_lt,
    dir_recent_lt,
};
use crate::strings::{
    contains_seq,
    is_prefix,
    folded,
    str_eq,
    contains_str,
    prefix_str,
};
use crate::table::{row_at, has_key, lemma_index_of_key};
use crate::vfs::{Vfs, MountV, rtv_spec, vtr_spec};
use crate::Error;

/// A song virtualized: its path rewritten, its artwork rewritten or
/// dropped; none when the path itself has no virtual form.
pub open spec fn virt_song(mounts: Seq<MountV>, s: SongV) -> Option<SongV> {
    match rtv_spec(mounts, s.path) {
        None => None,
        Some(vp) => Some(
            SongV {
                path: vp,
                parent: s.parent,
                track_number: s.track_number,
                disc_number: s.disc_number,
                title: s.title,
                artist: s.artist,
                album_artist: s.album_artist,
                year: s.year,
                album: s.album,
                artwork: match s.artwork {
                    Some(a) => rtv_spec(mounts, a),
                    None => None,
                },
                duration: s.duration,
            },
        ),
    }
}

/// A directory virtualized the same way.
pub open spec fn virt_dir(mounts: Seq<MountV>, d: DirV) -> Option<DirV> {
    match rtv_spec(mounts, d.path) {
        None => None,
        Some(vp) => Some(
            DirV {
                path: vp,
                parent: d.parent,
                artist: d.artist,
                year: d.year,
                album: d.album,
                artwork: match d.artwork {
                    Some(a) => rtv_spec(mounts, a),
                    None => None,
                },
                date_added: d.date_added,
            },
        ),
    }
}

pub open spec fn virt_song_fn(mounts: Seq<MountV>) -> spec_fn(SongV) -> Option<SongV> {
    |s: SongV| virt_song(mounts, s)
}

pub open spec fn virt_dir_fn(mounts: Seq<MountV>) -> spec_fn(DirV) -> Option<DirV> {
    |d: DirV| virt_dir(mounts, d)
}

/// A whole result set virtualized, non-virtualizable rows dropped.
pub open spec fn virt_songs_seq(mounts: Seq<MountV>, rows: Seq<SongV>) -> Seq<SongV> {
    rows.filter_map(virt_song_fn(mounts))
}

pub open spec fn virt_dirs_seq(mounts: Seq<MountV>, rows: Seq<DirV>) -> Seq<DirV> {
    rows.filter_map(virt_dir_fn(mounts))
}

/// A collection result as its entries' values.
pub open spec fn cfs_v(v: Seq<CollectionFile>) -> Seq<CollectionFileV> {
    v.map_values(|c: CollectionFile| c@)
}

pub open spec fn as_dir_entry() -> spec_fn(DirV) -> CollectionFileV {
    |d: DirV| CollectionFileV::Directory(d)
}

pub open spec fn as_song_entry() -> spec_fn(SongV) -> CollectionFileV {
    |s: SongV| CollectionFileV::Song(s)
}

/// The selections the queries make.
pub open spec fn dir_is_root() -> spec_fn(DirV) -> bool {
    |d: DirV| d.parent is None
}

pub open spec fn dir_child_of(rp: Seq<char>) -> spec_fn(DirV) -> bool {
    |d: DirV| d.parent == Some(rp)
}

pub open spec fn song_child_of(rp: Seq<char>) -> spec_fn(SongV) -> bool {
    |s: SongV| s.parent == rp
}

pub open spec fn song_under(rp: Seq<char>) -> spec_fn(SongV) -> bool {
    |s: SongV| is_prefix(folded(rp), folded(s.path))
}

pub open spec fn dir_has_album() -> spec_fn(DirV) -> bool {
    |d: DirV| d.album is Some
}

/// A directory matches a search when its path holds the query and its
/// parent, which must be present, does not.
pub open spec fn dir_matches(q: Seq<char>) -> spec_fn(DirV) -> bool {
    |d: DirV|
        contains_seq(folded(d.path), folded(q)) && match d.parent {
            Some(p) => !contains_seq(folded(p), folded(q)),
            None => false,
        }
}

/// A song matches a search when its path or one of its text tags holds the
/// query and its parent does not.
pub open spec fn song_matches(q: Seq<char>) -> spec_fn(SongV) -> bool {
    |s: SongV|
        {
            let hit = contains_seq(folded(s.path), folded(q)) || opt_contains(s.title, q)
                || opt_contains(s.album, q) || opt_contains(s.artist, q) || opt_contains(
                s.album_artist,
                q,
            );
            hit && !contains_seq(folded(s.parent), folded(q))
        }
}

pub open spec fn opt_contains(o: Option<Seq<char>>, q: Seq<char>) -> bool {
    match o {
        Some(t) => contains_seq(folded(t), folded(q)),
        None => false,
    }
}

/// The rotation a random sampling starts from.
pub open spec fn rotation(s: Seq<DirV>, k: int) -> Seq<DirV> {
    s.skip(k) + s.take(k)
}

/// How many rows a limit of `count` takes from `len` rows: all of them on
/// a negative limit, as the store's negative LIMIT does.
pub open spec fn limit_of(count: i64, len: int) -> int {
    if count < 0 {
        len
    } else if count >= len {
        len
    } else {
        count as int
    }
}

/// A song with its path and artwork moved into the virtual namespace, or
/// nothing when the path has no virtual form.
pub fn virtualize_song(vfs: &Vfs, song: Song) -> (r: Option<Song>)
    ensures
        match r {
            Some(s) => virt_song(vfs@, song@) == Some(s@),
            None => virt_song(vfs@, song@) is None,
        },
{
    let new_path = match vfs.real_to_virtual(song.path.as_str()) {
        Ok(p) => p,
        Err(_) => {
            return None;
        },
    };
    let new_art = match &song.artwork {
        Some(a) => match vfs.real_to_virtual(a.as_str()) {
            Ok(p) => Some(p),
            Err(_) => None,
        },
        None => None,
    };
    Some(
        Song {
            path: new_path,
            parent: song.parent,
            track_number: song.track_number,
            disc_number: song.disc_number,
            title: song.title,
            artist: song.artist,
            album_artist: song.album_artist,
            year: song.year,
            album: song.album,
            artwork: new_art,
            duration: song.duration,
        },
    )
}

/// A directory treated the same way.
fn virtualize_directory(vfs: &Vfs, directory: Directory) -> (r: Option<Directory>)
    ensures
        match r {
            Some(d) => virt_dir(vfs@, directory@) == Some(d@),
            None => virt_dir(vfs@, directory@) is None,
        },
{
    let new_path = match vfs.real_to_virtual(directory.path.as_str()) {
        Ok(p) => p,
        Err(_) => {
            return None;
        },
    };
    let new_art = match &directory.artwork {
        Some(a) => match vfs.real_to_virtual(a.as_str()) {
            Ok(p) => Some(p),
            Err(_) => None,
        },
        None => None,
    };
    Some(
        Directory {
            path: new_path,
            parent: directory.parent,
            artist: directory.artist,
            year: directory.year,
            album: directory.album,
            artwork: new_art,
            date_added: directory.date_added,
        },
    )
}

/// Every row of the set virtualized, drops included.
fn virtualize_directories(vfs: &Vfs, rows: Vec<Directory>) -> (r: Vec<Directory>)
    ensures
        dirs_v(r@) == virt_dirs_seq(vfs@, dirs_v(rows@)),
{
    let ghost f = virt_dir_fn(vfs@);
    let ghost input = dirs_v(rows@);
    let mut out: Vec<Directory> = Vec::new();
    proof {
        assert(input.take(0) =~= Seq::<DirV>::empty());
        assert(dirs_v(out@) =~= input.take(0).filter_map(f));
    }
    let n = rows.len();
    let mut i: usize = 0;
    #[verifier::loop_isolation(false)]
    while i < n
        invariant
            i <= n,
            dirs_v(out@) == input.take(i as int).filter_map(f),
        decreases n - i,
    {
        proof {
            input.lemma_filter_map_take_succ(f, i as int);
        }
        let ghost outv = dirs_v(out@);
        match virtualize_directory(vfs, rows[i].duplicate()) {
            Some(d) => {
                out.push(d);
                proof {
                    assert(dirs_v(out@) =~= outv + seq![f(input[i as int]).unwrap()]);
                }
            },
            None => {
                proof {
                    assert(input.take(i as int + 1).filter_map(f) =~= outv);
                }
            },
        }
        i = i + 1;
    }
    proof {
        assert(input.take(n as int) =~= input);
    }
    out
}

/// Every row of the set virtualized, drops included.
fn virtualize_songs(vfs: &Vfs, rows: Vec<Song>) -> (r: Vec<Song>)
    ensures
        songs_v(r@) == virt_songs_seq(vfs@, songs_v(rows@)),
{
    let ghost f = virt_song_fn(vfs@);
    let ghost input = songs_v(rows@);
    let mut out: Vec<Song> = Vec::new();
    proof {
        assert(input.take(0) =~= Seq::<SongV>::empty());
        assert(songs_v(out@) =~= input.take(0).filter_map(f));
    }
    let n = rows.len();
    let mut i: usize = 0;
    #[verifier::loop_isolation(false)]
    while i < n
        invariant
            i <= n,
            songs_v(out@) == input.take(i as int).filter_map(f),
        decreases n - i,
    {
        proof {
            input.lemma_filter_map_take_succ(f, i as int);
        }
        let ghost outv = songs_v(out@);
        match virtualize_song(vfs, rows[i].duplicate()) {
            Some(s) => {
                out.push(s);
                proof {
                    assert(songs_v(out@) =~= outv + seq![f(input[i as int]).unwrap()]);
                }
            },
            None => {
                proof {
                    assert(input.take(i as int + 1).filter_map(f) =~= outv);
                }
            },
        }
        i = i + 1;
    }
    proof {
        assert(input.take(n as int) =~= input);
    }
    out
}

/// The directory rows with no parent: the mount roots.
fn select_root_dirs(db: &Db) -> (r: Vec<Directory>)
    ensures
        dirs_v(r@) == db@.dirs.filter(dir_is_root()),
{
    let ghost pred = dir_is_root();
    let ghost input = db@.dirs;
    let mut sel: Vec<Directory> = Vec::new();
    proof {
        reveal(Seq::filter);
        assert(input.take(0) =~= Seq::<DirV>::empty());
        assert(dirs_v(sel@) =~= input.take(0).filter(pred));
    }
    let all = db.directories();
    let n = all.len();
    let mut i: usize = 0;
    #[verifier::loop_isolation(false)]
    while i < n
        invariant
            i <= n,
            dirs_v(sel@) == input.take(i as int).filter(pred),
        decreases n - i,
    {
        let keep = all[i].parent.is_none();
        proof {
            assert(input.take(i as int + 1) =~= input.take(i as int).push(input[i as int]));
            input.take(i as int).lemma_filter_push(input[i as int], pred);
        }
        if keep {
            let ghost selv = dirs_v(sel@);
            sel.push(all[i].duplicate());
            proof {
                assert(dirs_v(sel@) =~= selv.push(input[i as int]));
            }
        } else {
            assert(!pred(input[i as int]));
        }
        i = i + 1;
    }
    proof {
        assert(input.take(n as int) =~= input);
    }
    sel
}

/// The directory rows whose parent is `rp`.
fn select_child_dirs(db: &Db, rp: &str) -> (r: Vec<Directory>)
    ensures
        dirs_v(r@) == db@.dirs.filter(dir_child_of(rp@)),
{
    let ghost pred = dir_child_of(rp@);
    let ghost input = db@.dirs;
    let mut sel: Vec<Directory> = Vec::new();
    proof {
        reveal(Seq::filter);
        assert(input.take(0) =~= Seq::<DirV>::empty());
        assert(dirs_v(sel@) =~= input.take(0).filter(pred));
    }
    let all = db.directories();
    let n = all.len();
    let mut i: usize = 0;
    #[verifier::loop_isolation(false)]
    while i < n
        invariant
            i <= n,
            dirs_v(sel@) == input.take(i as int).filter(pred),
        decreases n - i,
    {
        let keep = match &all[i].parent {
            Some(p) => str_eq(p.as_str(), rp),
            None => false,
        };
        proof {
            assert(input.take(i as int + 1) =~= input.take(i as int).push(input[i as int]));
            input.take(i as int).lemma_filter_push(input[i as int], pred);
            assert(keep == pred(input[i as int]));
        }
        if keep {
            let ghost selv = dirs_v(sel@);
            sel.push(all[i].duplicate());
            proof {
                assert(dirs_v(sel@) =~= selv.push(input[i as int]));
            }
        }
        i = i + 1;
    }
    proof {
        assert(input.take(n as int) =~= input);
    }
    sel
}

/// The song rows whose parent is `rp`.
fn select_child_songs(db: &Db, rp: &str) -> (r: Vec<Song>)
    ensures
        songs_v(r@) == db@.songs.filter(song_child_of(rp@)),
{
    let ghost pred = song_child_of(rp@);
    let ghost input = db@.songs;
    let mut sel: Vec<Song> = Vec::new();
    proof {
        reveal(Seq::filter);
        assert(input.take(0) =~= Seq::<SongV>::empty());
        assert(songs_v(sel@) =~= input.take(0).filter(pred));
    }
    let all = db.songs();
    let n = all.len();
    let mut i: usize = 0;
    #[verifier::loop_isolation(false)]
    while i < n
        invariant
            i <= n,
            songs_v(sel@) == input.take(i as int).filter(pred),
        decreases n - i,
    {
        let keep = str_eq(all[i].parent.as_str(), rp);
        proof {
            assert(input.take(i as int + 1) =~= input.take(i as int).push(input[i as int]));
            input.take(i as int).lemma_filter_push(input[i as int], pred);
            assert(keep == pred(input[i as int]));
        }
        if keep {
            let ghost selv = songs_v(sel@);
            sel.push(all[i].duplicate());
            proof {
                assert(songs_v(sel@) =~= selv.push(input[i as int]));
            }
        }
        i = i + 1;
    }
    proof {
        assert(input.take(n as int) =~= input);
    }
    sel
}

/// The song rows whose path begins with `rp`, compared without regard to
/// ASCII case, as the store's pattern matching does.
fn select_songs_under(db: &Db, rp: &str) -> (r: Vec<Song>)
    ensures
        songs_v(r@) == db@.songs.filter(song_under(rp@)),
{
    let ghost pred = song_under(rp@);
    let ghost input = db@.songs;
    let mut sel: Vec<Song> = Vec::new();
    proof {
        reveal(Seq::filter);
        assert(input.take(0) =~= Seq::<SongV>::empty());
        assert(songs_v(sel@) =~= input.take(0).filter(pred));
    }
    let all = db.songs();
    let n = all.len();
    let mut i: usize = 0;
    #[verifier::loop_isolation(false)]
    while i < n
        invariant
            i <= n,
            songs_v(sel@) == input.take(i as int).filter(pred),
        decreases n - i,
    {
        let keep = prefix_str(rp, all[i].path.as_str(), true);
        proof {
            assert(input.take(i as int + 1) =~= input.take(i as int).push(input[i as int]));
            input.take(i as int).lemma_filter_push(input[i as int], pred);
            assert(keep == pred(input[i as int]));
        }
        if keep {
            let ghost selv = songs_v(sel@);
            sel.push(all[i].duplicate());
            proof {
                assert(songs_v(sel@) =~= selv.push(input[i as int]));
            }
        }
        i = i + 1;
    }
    proof {
        assert(input.take(n as int) =~= input);
    }
    sel
}

/// Every song row, copied in store order.
fn select_all_songs(db: &Db) -> (r: Vec<Song>)
    ensures
        songs_v(r@) == db@.songs,
{
    let ghost input = db@.songs;
    let mut sel: Vec<Song> = Vec::new();
    proof {
        assert(songs_v(sel@) =~= input.take(0));
    }
    let all = db.songs();
    let n = all.len();
    let mut i: usize = 0;
    #[verifier::loop_isolation(false)]
    while i < n
        invariant
            i <= n,
            songs_v(sel@) == input.take(i as int),
        decreases n - i,
    {
        let ghost selv = songs_v(sel@);
        sel.push(all[i].duplicate());
        proof {
            assert(songs_v(sel@) =~= input.take(i as int + 1));
        }
        i = i + 1;
    }
    proof {
        assert(input.take(n as int) =~= input);
    }
    sel
}

/// The directory rows carrying an album.
fn select_album_dirs(db: &Db) -> (r: Vec<Directory>)
    ensures
        dirs_v(r@) == db@.dirs.filter(dir_has_album()),
{
    let ghost pred = dir_has_album();
    let ghost input = db@.dirs;
    let mut sel: Vec<Directory> = Vec::new();
    proof {
        reveal(Seq::filter);
        assert(input.take(0) =~= Seq::<DirV>::empty());
        assert(dirs_v(sel@) =~= input.take(0).filter(pred));
    }
    let all = db.directories();
    let n = all.len();
    let mut i: usize = 0;
    #[verifier::loop_isolation(false)]
    while i < n
        invariant
            i <= n,
            dirs_v(sel@) == input.take(i as int).filter(pred),
        decreases n - i,
    {
        let keep = all[i].album.is_some();
        proof {
            assert(input.take(i as int + 1) =~= input.take(i as int).push(input[i as int]));
            input.take(i as int).lemma_filter_push(input[i as int], pred);
            assert(keep == pred(input[i as int]));
        }
        if keep {
            let ghost selv = dirs_v(sel@);
            sel.push(all[i].duplicate());
            proof {
                assert(dirs_v(sel@) =~= selv.push(input[i as int]));
            }
        }
        i = i + 1;
    }
    proof {
        assert(input.take(n as int) =~= input);
    }
    sel
}

/// The directory rows a search returns.
fn select_matching_dirs(db: &Db, query: &str) -> (r: Vec<Directory>)
    ensures
        dirs_v(r@) == db@.dirs.filter(dir_matches(query@)),
{
    let ghost pred = dir_matches(query@);
    let ghost input = db@.dirs;
    let mut sel: Vec<Directory> = Vec::new();
    proof {
        reveal(Seq::filter);
        assert(input.take(0) =~= Seq::<DirV>::empty());
        assert(dirs_v(sel@) =~= input.take(0).filter(pred));
    }
    let all = db.directories();
    let n = all.len();
    let mut i: usize = 0;
    #[verifier::loop_isolation(false)]
    while i < n
        invariant
            i <= n,
            dirs_v(sel@) == input.take(i as int).filter(pred),
        decreases n - i,
    {
        let d = &all[i];
        let keep = contains_str(d.path.as_str(), query, true) && match &d.parent {
            Some(p) => !contains_str(p.as_str(), query, true),
            None => false,
        };
        proof {
            assert(input.take(i as int + 1) =~= input.take(i as int).push(input[i as int]));
            input.take(i as int).lemma_filter_push(input[i as int], pred);
            assert(keep == pred(input[i as int]));
        }
        if keep {
            let ghost selv = dirs_v(sel@);
            sel.push(d.duplicate());
            proof {
                assert(dirs_v(sel@) =~= selv.push(input[i as int]));
            }
        }
        i = i + 1;
    }
    proof {
        assert(input.take(n as int) =~= input);
    }
    sel
}

/// The song rows a search returns.
fn select_matching_songs(db: &Db, query: &str) -> (r: Vec<Song>)
    ensures
        songs_v(r@) == db@.songs.filter(song_matches(query@)),
{
    let ghost pred = song_matches(query@);
    let ghost input = db@.songs;
    let mut sel: Vec<Song> = Vec::new();
    proof {
        reveal(Seq::filter);
        assert(input.take(0) =~= Seq::<SongV>::empty());
        assert(songs_v(sel@) =~= input.take(0).filter(pred));
    }
    let all = db.songs();
    let n = all.len();
    let mut i: usize = 0;
    #[verifier::loop_isolation(false)]
    while i < n
        invariant
            i <= n,
            songs_v(sel@) == input.take(i as int).filter(pred),
        decreases n - i,
    {
        let s = &all[i];
        let hit = contains_str(s.path.as_str(), query, true) || opt_contains_exec(&s.title, query)
            || opt_contains_exec(&s.album, query) || opt_contains_exec(&s.artist, query)
            || opt_contains_exec(&s.album_artist, query);
        let keep = hit && !contains_str(s.parent.as_str(), query, true);
        proof {
            assert(input.take(i as int + 1) =~= input.take(i as int).push(input[i as int]));
            input.take(i as int).lemma_filter_push(input[i as int], pred);
            assert(keep == pred(input[i as int]));
        }
        if keep {
            let ghost selv = songs_v(sel@);
            sel.push(s.duplicate());
            proof {
                assert(songs_v(sel@) =~= selv.push(input[i as int]));
            }
        }
        i = i + 1;
    }
    proof {
        assert(input.take(n as int) =~= input);
    }
    sel
}

/// What a browse of a non-empty virtual path lists: the child directories
/// in case-insensitive path order, then the child songs likewise, each
/// group virtualized.
pub open spec fn browse_listing(d: crate::db::DbV, rp: Seq<char>) -> Seq<CollectionFileV> {
    virt_dirs_seq(d.mounts, sort_by_spec(dir_nocase_lt(), d.dirs.filter(dir_child_of(rp)))).map_values(
        as_dir_entry(),
    ) + virt_songs_seq(
        d.mounts,
        sort_by_spec(song_nocase_lt(), d.songs.filter(song_child_of(rp))),
    ).map_values(as_song_entry())
}

/// What a browse of the empty virtual path lists: the mount roots, in
/// store order, virtualized.
pub open spec fn browse_roots(d: crate::db::DbV) -> Seq<CollectionFileV> {
    virt_dirs_seq(d.mounts, d.dirs.filter(dir_is_root())).map_values(as_dir_entry())
}

/// Lists the entries under a virtual path: for the empty path, the mount
/// roots; otherwise the directories then the songs whose parent is the
/// rewritten real path, each group in case-insensitive path order. Fails
/// with `UnknownMount` exactly when a non-empty path rewrites to no real
/// path.
pub fn browse(db: &Db, virtual_path: &str) -> (r: Result<Vec<CollectionFile>, Error>)
    ensures
        virtual_path@.len() == 0 ==> r is Ok && cfs_v(r.unwrap()@) == browse_roots(db@),
        virtual_path@.len() > 0 ==> match r {
            Ok(out) => vtr_spec(db@.mounts, virtual_path@) matches Some(rp) && cfs_v(out@)
                == browse_listing(db@, rp),
            Err(e) => e == Error::UnknownMount && vtr_spec(db@.mounts, virtual_path@) is None,
        },
{
    let mut output: Vec<CollectionFile> = Vec::new();
    proof {
        assert(cfs_v(output@) =~= Seq::<CollectionFileV>::empty());
    }
    if virtual_path.unicode_len() == 0 {
        let roots = select_root_dirs(db);
        let virtual_roots = virtualize_directories(db.vfs(), roots);
        append_dir_entries(&mut output, virtual_roots);
        proof {
            assert(Seq::<CollectionFileV>::empty() + browse_roots(db@) =~= browse_roots(db@));
        }
        Ok(output)
    } else {
        let real_path = match db.vfs().virtual_to_real(virtual_path) {
            Ok(p) => p,
            Err(e) => {
                return Err(e);
            },
        };
        let dirs = select_child_dirs(db, real_path.as_str());
        let sorted_dirs = sort_directories(&dirs, false);
        let virtual_dirs = virtualize_directories(db.vfs(), sorted_dirs);
        append_dir_entries(&mut output, virtual_dirs);
        let songs = select_child_songs(db, real_path.as_str());
        let sorted_songs = sort_songs(&songs, true);
        let virtual_songs = virtualize_songs(db.vfs(), sorted_songs);
        append_song_entries(&mut output, virtual_songs);
        proof {
            assert(cfs_v(output@) =~= browse_listing(db@, real_path@)) by {
                assert(Seq::<CollectionFileV>::empty() + virt_dirs_seq(
                    db@.mounts,
                    sort_by_spec(dir_nocase_lt(), db@.dirs.filter(dir_child_of(real_path@))),
                ).map_values(as_dir_entry()) =~= virt_dirs_seq(
                    db@.mounts,
                    sort_by_spec(dir_nocase_lt(), db@.dirs.filter(dir_child_of(real_path@))),
                ).map_values(as_dir_entry()));
            }
        }
        Ok(output)
    }
}

/// What a flatten returns: every song, or every song under the rewritten
/// real path, in binary path order, virtualized.
pub open spec fn flatten_all(d: crate::db::DbV) -> Seq<SongV> {
    virt_songs_seq(d.mounts, sort_by_spec(song_path_lt(), d.songs))
}

pub open spec fn flatten_under(d: crate::db::DbV, rp: Seq<char>) -> Seq<SongV> {
    virt_songs_seq(d.mounts, sort_by_spec(song_path_lt(), d.songs.filter(song_under(rp))))
}

/// Returns every catalogued song when the virtual path is empty, else
/// every song whose real path begins with the rewritten real path, in
/// binary path order and virtualized. Fails with `UnknownMount` exactly
/// when a non-empty path rewrites to no real path.
pub fn flatten(db: &Db, virtual_path: &str) -> (r: Result<Vec<Song>, Error>)
    ensures
        virtual_path@.len() == 0 ==> r is Ok && songs_v(r.unwrap()@) == flatten_all(db@),
        virtual_path@.len() > 0 ==> match r {
            Ok(out) => vtr_spec(db@.mounts, virtual_path@) matches Some(rp) && songs_v(out@)
                == flatten_under(db@, rp),
            Err(e) => e == Error::UnknownMount && vtr_spec(db@.mounts, virtual_path@) is None,
        },
{
    if virtual_path.unicode_len() == 0 {
        let all = select_all_songs(db);
        let sorted = sort_songs(&all, false);
        Ok(virtualize_songs(db.vfs(), sorted))
    } else {
        let real_path = match db.vfs().virtual_to_real(virtual_path) {
            Ok(p) => p,
            Err(e) => {
                return Err(e);
            },
        };
        let songs = select_songs_under(db, real_path.as_str());
        let sorted = sort_songs(&songs, false);
        Ok(virtualize_songs(db.vfs(), sorted))
    }
}

/// What a random sampling returns: the albums rotated to a seed-chosen
/// start, cut to the limit, virtualized.
pub open spec fn random_pick(d: crate::db::DbV, count: i64, seed: u64) -> Seq<DirV> {
    let elig = d.dirs.filter(dir_has_album());
    let k = if elig.len() == 0 {
        0int
    } else {
        (seed as int) % (elig.len() as int)
    };
    rotation(elig, k).take(limit_of(count, elig.len() as int))
}

/// Up to `count` directories that carry an album, sampled from the
/// seed-chosen rotation of the album list, virtualized.
pub fn get_random_albums(db: &Db, count: i64, seed: u64) -> (r: Result<Vec<Directory>, Error>)
    ensures
        r is Ok && dirs_v(r.unwrap()@) == virt_dirs_seq(db@.mounts, random_pick(db@, count, seed)),
{
    let elig = select_album_dirs(db);
    let ghost eligv = dirs_v(elig@);
    let len = elig.len();
    let offset: usize = if len == 0 {
        0
    } else {
        (seed % (len as u64)) as usize
    };
    let mut rotated: Vec<Directory> = Vec::new();
    proof {
        assert(dirs_v(rotated@) =~= rotation(eligv, offset as int).take(0));
    }
    let mut i: usize = 0;
    #[verifier::loop_isolation(false)]
    while i < len
        invariant
            i <= len,
            len == eligv.len(),
            offset < len || (offset == 0 && len == 0),
            dirs_v(rotated@) == rotation(eligv, offset as int).take(i as int),
        decreases len - i,
    {
        let idx = if i < len - offset {
            offset + i
        } else {
            i - (len - offset)
        };
        let ghost rotv = dirs_v(rotated@);
        rotated.push(elig[idx].duplicate());
        proof {
            assert(rotation(eligv, offset as int)[i as int] == eligv[idx as int]);
            assert(dirs_v(rotated@) =~= rotation(eligv, offset as int).take(i as int + 1));
        }
        i = i + 1;
    }
    proof {
        assert(rotation(eligv, offset as int).take(len as int) =~= rotation(
            eligv,
            offset as int,
        ));
    }
    let limit: usize = if count < 0 {
        len
    } else if count as u64 >= len as u64 {
        len
    } else {
        count as usize
    };
    rotated.truncate(limit);
    proof {
        assert(dirs_v(rotated@) =~= rotation(eligv, offset as int).take(limit_of(
            count,
            eligv.len() as int,
        )));
    }
    Ok(virtualize_directories(db.vfs(), rotated))
}

/// What a recent-albums query returns: the albums newest first, cut to the
/// limit, virtualized.
pub open spec fn recent_pick(d: crate::db::DbV, count: i64) -> Seq<DirV> {
    let sorted = sort_by_spec(dir_recent_lt(), d.dirs.filter(dir_has_album()));
    sorted.take(limit_of(count, sorted.len() as int))
}

/// Up to `count` directories that carry an album, newest first,
/// virtualized.
pub fn get_recent_albums(db: &Db, count: i64) -> (r: Result<Vec<Directory>, Error>)
    ensures
        r is Ok && dirs_v(r.unwrap()@) == virt_dirs_seq(db@.mounts, recent_pick(db@, count)),
{
    let elig = select_album_dirs(db);
    let mut sorted = sort_directories(&elig, true);
    let ghost sortedv = dirs_v(sorted@);
    let len = sorted.len();
    let limit: usize = if count < 0 {
        len
    } else if count as u64 >= len as u64 {
        len
    } else {
        count as usize
    };
    sorted.truncate(limit);
    proof {
        assert(dirs_v(sorted@) =~= sortedv.take(limit_of(count, sortedv.len() as int)));
    }
    Ok(virtualize_directories(db.vfs(), sorted))
}

/// What a search returns: the matching directories, then the matching
/// songs, in store order, virtualized.
pub open spec fn search_spec(d: crate::db::DbV, q: Seq<char>) -> Seq<CollectionFileV> {
    virt_dirs_seq(d.mounts, d.dirs.filter(dir_matches(q))).map_values(as_dir_entry())
        + virt_songs_seq(d.mounts, d.songs.filter(song_matches(q))).map_values(as_song_entry())
}

/// The directories whose path holds the query, and the songs whose path or
/// text tags hold it, each only when its parent does not: entries beneath
/// an already-matching directory are suppressed.
pub fn search(db: &Db, query: &str) -> (r: Result<Vec<CollectionFile>, Error>)
    ensures
        r is Ok && cfs_v(r.unwrap()@) == search_spec(db@, query@),
{
    let mut output: Vec<CollectionFile> = Vec::new();
    proof {
        assert(cfs_v(output@) =~= Seq::<CollectionFileV>::empty());
    }
    let dirs = select_matching_dirs(db, query);
    let virtual_dirs = virtualize_directories(db.vfs(), dirs);
    append_dir_entries(&mut output, virtual_dirs);
    let songs = select_matching_songs(db, query);
    let virtual_songs = virtualize_songs(db.vfs(), songs);
    append_song_entries(&mut output, virtual_songs);
    proof {
        assert(Seq::<CollectionFileV>::empty() + virt_dirs_seq(
            db@.mounts,
            db@.dirs.filter(dir_matches(query@)),
        ).map_values(as_dir_entry()) =~= virt_dirs_seq(
            db@.mounts,
            db@.dirs.filter(dir_matches(query@)),
        ).map_values(as_dir_entry()));
    }
    Ok(output)
}

/// The single song stored at the real path a virtual path names. Fails
/// with `UnknownMount` when the path rewrites to no real path, with
/// `SongNotFound` when no song is stored there, and with
/// `MissingVfsMapping` when the stored song cannot be virtualized.
pub fn get_song(db: &Db, virtual_path: &str) -> (r: Result<Song, Error>)
    ensures
        match r {
            Ok(s) => vtr_spec(db@.mounts, virtual_path@) matches Some(rp) && has_key(
                db@.songs,
                song_key(),
                rp,
            ) && virt_song(db@.mounts, row_at(db@.songs, song_key(), rp)) == Some(s@),
            Err(e) => {
                ||| (e == Error::UnknownMount && vtr_spec(db@.mounts, virtual_path@) is None)
                ||| (e == Error::SongNotFound && (vtr_spec(db@.mounts, virtual_path@) matches
                Some(rp) && !has_key(db@.songs, song_key(), rp)))
                ||| (e == Error::MissingVfsMapping && (vtr_spec(db@.mounts, virtual_path@) matches
                Some(rp) && has_key(db@.songs, song_key(), rp) && virt_song(
                    db@.mounts,
                    row_at(db@.songs, song_key(), rp),
                ) is None))
            },
        },
{
    let real_path = match db.vfs().virtual_to_real(virtual_path) {
        Ok(p) => p,
        Err(_) => {
            return Err(Error::UnknownMount);
        },
    };
    let idx = match find_song_index(db.songs(), real_path.as_str()) {
        Some(i) => i,
        None => {
            return Err(Error::SongNotFound);
        },
    };
    proof {
        lemma_index_of_key(db@.songs, song_key(), real_path@);
    }
    let real_song = db.songs()[idx].duplicate();
    proof {
        assert(real_song@ == row_at(db@.songs, song_key(), real_path@));
    }
    match virtualize_song(db.vfs(), real_song) {
        Some(s) => Ok(s),
        None => Err(Error::MissingVfsMapping),
    }
}

/// Whether an optional text field holds the query.
fn opt_contains_exec(o: &Option<String>, query: &str) -> (r: bool)
    ensures
        r == opt_contains(crate::rows::opt_str(*o), query@),
{
    match o {
        Some(t) => contains_str(t.as_str(), query, true),
        None => false,
    }
}

/// Directory rows wrapped as collection entries, appended to `out`.
fn append_dir_entries(out: &mut Vec<CollectionFile>, mut rows: Vec<Directory>)
    ensures
        cfs_v(final(out)@) == cfs_v(old(out)@) + dirs_v(rows@).map_values(as_dir_entry()),
{
    let ghost input = dirs_v(rows@);
    let ghost total = input.len();
    let ghost start = cfs_v(out@);
    #[verifier::loop_isolation(false)]
    while rows.len() > 0
        invariant
            dirs_v(rows@) == input.skip(total - rows@.len()),
            rows@.len() <= total,
            cfs_v(out@) == start + input.take(total - rows@.len()).map_values(as_dir_entry()),
        decreases rows.len(),
    {
        let ghost i = total - rows@.len();
        let ghost pv = rows@;
        let d = rows.remove(0);
        proof {
            assert(d@ == input.skip(i)[0]);
            assert(d@ == input[i]);
            assert(rows@ =~= pv.drop_first());
            assert(dirs_v(rows@) =~= input.skip(i + 1)) by {
                assert(forall|k: int|
                    0 <= k < rows@.len() ==> dirs_v(rows@)[k] == dirs_v(pv)[k + 1]);
                assert(forall|k: int|
                    0 <= k < rows@.len() ==> input.skip(i)[k + 1] == #[trigger] input.skip(
                        i + 1,
                    )[k]);
            }
        }
        let ghost outv = cfs_v(out@);
        out.push(CollectionFile::Directory(d));
        proof {
            assert(cfs_v(out@) =~= outv.push(CollectionFileV::Directory(d@)));
            assert(input.take(i + 1).map_values(as_dir_entry()) =~= input.take(i).map_values(
                as_dir_entry(),
            ).push(CollectionFileV::Directory(input[i])));
            assert(cfs_v(out@) =~= start + input.take(i + 1).map_values(as_dir_entry()));
        }
    }
    proof {
        assert(input.take(total as int) =~= input);
    }
}

/// Song rows wrapped as collection entries, appended to `out`.
fn append_song_entries(out: &mut Vec<CollectionFile>, mut rows: Vec<Song>)
    ensures
        cfs_v(final(out)@) == cfs_v(old(out)@) + songs_v(rows@).map_values(as_song_entry()),
{
    let ghost input = songs_v(rows@);
    let ghost total = input.len();
    let ghost start = cfs_v(out@);
    #[verifier::loop_isolation(false)]
    while rows.len() > 0
        invariant
            songs_v(rows@) == input.skip(total - rows@.len()),
            rows@.len() <= total,
            cfs_v(out@) == start + input.take(total - rows@.len()).map_values(as_song_entry()),
        decreases rows.len(),
    {
        let ghost i = total - rows@.len();
        let ghost pv = rows@;
        let s = rows.remove(0);
        proof {
            assert(s@ == input.skip(i)[0]);
            assert(s@ == input[i]);
            assert(rows@ =~= pv.drop_first());
            assert(songs_v(rows@) =~= input.skip(i + 1)) by {
                assert(forall|k: int|
                    0 <= k < rows@.len() ==> songs_v(rows@)[k] == songs_v(pv)[k + 1]);
                assert(forall|k: int|
                    0 <= k < rows@.len() ==> input.skip(i)[k + 1] == #[trigger] input.skip(
                        i + 1,
                    )[k]);
            }
        }
        let ghost outv = cfs_v(out@);
        out.push(CollectionFile::Song(s));
        proof {
            assert(cfs_v(out@) =~= outv.push(CollectionFileV::Song(s@)));
            assert(input.take(i + 1).map_values(as_song_entry()) =~= input.take(i).map_values(
                as_song_entry(),
            ).push(CollectionFileV::Song(input[i])));
            assert(cfs_v(out@) =~= start + input.take(i + 1).map_values(as_song_entry()));
        }
    }
    proof {
        assert(input.take(total as int) =~= input);
    }
}

} // verus!
