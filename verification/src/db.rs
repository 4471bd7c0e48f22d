//! The catalog store: the songs table, the directories table and the
//! settings row, bundled with the mapper configuration. Both tables keep
//! paths unique; inserting at a present path replaces the row.

use vstd::prelude::*;

verus! {

use vstd::pervasive::VecAdditionalExecFns;
use crate::rows::{Song, SongV, Directory, DirV, MiscSettings, SettingsV};
use crate::vfs::{Vfs, MountV};
use crate::table::{
    upsert_one,
    keys_distinct,
    index_of_key,
    lemma_index_of_key,
};
use crate::strings::str_eq;

/// A song table as its rows' values.
pub open spec fn songs_v(s: Seq<Song>) -> Seq<SongV> {
    s.map_values(|x: Song| x@)
}

/// A directory table as its rows' values.
pub open spec fn dirs_v(s: Seq<Directory>) -> Seq<DirV> {
    s.map_values(|x: Directory| x@)
}

/// A list of strings as their character sequences.
pub open spec fn strs_v(s: Seq<String>) -> Seq<Seq<char>> {
    s.map_values(|x: String| x@)
}

/// The settings row's value, if one is stored.
pub open spec fn settings_v(o: Option<MiscSettings>) -> Option<SettingsV> {
    match o {
        Some(m) => Some(m@),
        None => None,
    }
}

/// A song row's key: its path.
pub open spec fn song_key() -> spec_fn(SongV) -> Seq<char> {
    |s: SongV| s.path
}

/// A directory row's key: its path.
pub open spec fn dir_key() -> spec_fn(DirV) -> Seq<char> {
    |d: DirV| d.path
}

/// The predicate a row of either table survives a deletion by: its path is
/// not on the given list.
pub open spec fn song_not_in(paths: Seq<Seq<char>>) -> spec_fn(SongV) -> bool {
    |s: SongV| !paths.contains(s.path)
}

pub open spec fn dir_not_in(paths: Seq<Seq<char>>) -> spec_fn(DirV) -> bool {
    |d: DirV| !paths.contains(d.path)
}

/// The mathematical value of the whole store.
pub struct DbV {
    pub songs: Seq<SongV>,
    pub dirs: Seq<DirV>,
    pub settings: Option<SettingsV>,
    pub mounts: Seq<MountV>,
}

/// Both tables keep their paths unique.
pub open spec fn db_wf(d: DbV) -> bool {
    keys_distinct(d.songs, song_key()) && keys_distinct(d.dirs, dir_key())
}

/// The catalog store together with the mapper it serves.
pub struct Db {
    songs: Vec<Song>,
    directories: Vec<Directory>,
    misc: Option<MiscSettings>,
    vfs: Vfs,
}

impl View for Db {
    type V = DbV;

    closed spec fn view(&self) -> DbV {
        DbV {
            songs: songs_v(self.songs@),
            dirs: dirs_v(self.directories@),
            settings: settings_v(self.misc),
            mounts: self.vfs@,
        }
    }
}

impl Db {
    /// An empty catalog over the given mapper, with the given settings row.
    pub fn new(vfs: Vfs, misc: Option<MiscSettings>) -> (r: Db)
        ensures
            r@.songs == Seq::<SongV>::empty(),
            r@.dirs == Seq::<DirV>::empty(),
            r@.settings == settings_v(misc),
            r@.mounts == vfs@,
            db_wf(r@),
    {
        let r = Db { songs: Vec::new(), directories: Vec::new(), misc, vfs };
        proof {
            assert(songs_v(r.songs@) =~= Seq::<SongV>::empty());
            assert(dirs_v(r.directories@) =~= Seq::<DirV>::empty());
        }
        r
    }

    /// All stored song rows, in store order.
    pub fn songs(&self) -> (r: &Vec<Song>)
        ensures
            songs_v(r@) == self@.songs,
    {
        &self.songs
    }

    /// All stored directory rows, in store order.
    pub fn directories(&self) -> (r: &Vec<Directory>)
        ensures
            dirs_v(r@) == self@.dirs,
    {
        &self.directories
    }

    /// The stored settings row, if any.
    pub fn misc_settings(&self) -> (r: &Option<MiscSettings>)
        ensures
            settings_v(*r) == self@.settings,
    {
        &self.misc
    }

    /// The mapper the catalog serves.
    pub fn vfs(&self) -> (r: &Vfs)
        ensures
            r@ == self@.mounts,
    {
        &self.vfs
    }

    /// Stores one song row, replacing any row already at its path.
    pub(crate) fn upsert_song(&mut self, row: Song)
        ensures
            final(self)@.songs == upsert_one(old(self)@.songs, song_key(), row@),
            final(self)@.dirs == old(self)@.dirs,
            final(self)@.settings == old(self)@.settings,
            final(self)@.mounts == old(self)@.mounts,
    {
        let ghost orig = songs_v(self.songs@);
        proof {
            lemma_index_of_key(orig, song_key(), row@.path);
        }
        match find_song_index(&self.songs, row.path.as_str()) {
            Some(i) => {
                self.songs.set(i, row);
                proof {
                    assert(songs_v(self.songs@) =~= orig.update(i as int, row@));
                }
            },
            None => {
                self.songs.push(row);
                proof {
                    assert(songs_v(self.songs@) =~= orig.push(row@));
                }
            },
        }
    }

    /// Stores one directory row, replacing any row already at its path.
    pub(crate) fn upsert_directory(&mut self, row: Directory)
        ensures
            final(self)@.dirs == upsert_one(old(self)@.dirs, dir_key(), row@),
            final(self)@.songs == old(self)@.songs,
            final(self)@.settings == old(self)@.settings,
            final(self)@.mounts == old(self)@.mounts,
    {
        let ghost orig = dirs_v(self.directories@);
        proof {
            lemma_index_of_key(orig, dir_key(), row@.path);
        }
        match find_directory_index(&self.directories, row.path.as_str()) {
            Some(i) => {
                self.directories.set(i, row);
                proof {
                    assert(dirs_v(self.directories@) =~= orig.update(i as int, row@));
                }
            },
            None => {
                self.directories.push(row);
                proof {
                    assert(dirs_v(self.directories@) =~= orig.push(row@));
                }
            },
        }
    }

    /// Deletes every song row whose path is on the list.
    pub(crate) fn delete_songs_in(&mut self, paths: &Vec<String>)
        ensures
            final(self)@.songs == old(self)@.songs.filter(song_not_in(strs_v(paths@))),
            final(self)@.dirs == old(self)@.dirs,
            final(self)@.settings == old(self)@.settings,
            final(self)@.mounts == old(self)@.mounts,
    {
        let ghost orig = songs_v(self.songs@);
        let ghost pred = song_not_in(strs_v(paths@));
        let mut pending: Vec<Song> = Vec::new();
        core::mem::swap(&mut self.songs, &mut pending);
        proof {
            assert(songs_v(self.songs@) =~= orig.take(0).filter(pred)) by {
                assert(orig.take(0) =~= Seq::<SongV>::empty());
                reveal(Seq::filter);
            }
        }
        let ghost total = orig.len();
        #[verifier::loop_isolation(false)]
        while pending.len() > 0
            invariant
                songs_v(pending@) == orig.skip(total - pending@.len()),
                pending@.len() <= total,
                songs_v(self.songs@) == orig.take(total - pending@.len()).filter(pred),
                self.directories == old(self).directories,
                self.misc == old(self).misc,
                self.vfs == old(self).vfs,
            decreases pending.len(),
        {
            let ghost i = total - pending@.len();
            let ghost pv = pending@;
            let s = pending.remove(0);
            proof {
                assert(s@ == orig.skip(i)[0]);
                assert(s@ == orig[i]);
                assert(pending@ =~= pv.drop_first());
                assert(songs_v(pending@) =~= orig.skip(i + 1)) by {
                    assert(forall|k: int|
                        0 <= k < pending@.len() ==> songs_v(pending@)[k] == songs_v(pv)[k + 1]);
                    assert(forall|k: int|
                        0 <= k < pending@.len() ==> orig.skip(i)[k + 1] == #[trigger] orig.skip(
                            i + 1,
                        )[k]);
                }
            }
            let keep = !str_in_list(paths, s.path.as_str());
            proof {
                assert(orig.take(i + 1) =~= orig.take(i).push(orig[i]));
                orig.take(i).lemma_filter_push(orig[i], pred);
            }
            if keep {
                assert(pred(s@));
                self.songs.push(s);
                proof {
                    assert(songs_v(self.songs@) =~= orig.take(i).filter(pred).push(orig[i]));
                }
            } else {
                assert(!pred(s@));
            }
        }
        proof {
            assert(orig.take(total as int) =~= orig);
        }
    }

    /// Deletes every directory row whose path is on the list.
    pub(crate) fn delete_directories_in(&mut self, paths: &Vec<String>)
        ensures
            final(self)@.dirs == old(self)@.dirs.filter(dir_not_in(strs_v(paths@))),
            final(self)@.songs == old(self)@.songs,
            final(self)@.settings == old(self)@.settings,
            final(self)@.mounts == old(self)@.mounts,
    {
        let ghost orig = dirs_v(self.directories@);
        let ghost pred = dir_not_in(strs_v(paths@));
        let mut pending: Vec<Directory> = Vec::new();
        core::mem::swap(&mut self.directories, &mut pending);
        proof {
            assert(dirs_v(self.directories@) =~= orig.take(0).filter(pred)) by {
                assert(orig.take(0) =~= Seq::<DirV>::empty());
                reveal(Seq::filter);
            }
        }
        let ghost total = orig.len();
        #[verifier::loop_isolation(false)]
        while pending.len() > 0
            invariant
                dirs_v(pending@) == orig.skip(total - pending@.len()),
                pending@.len() <= total,
                dirs_v(self.directories@) == orig.take(total - pending@.len()).filter(pred),
                self.songs == old(self).songs,
                self.misc == old(self).misc,
                self.vfs == old(self).vfs,
            decreases pending.len(),
        {
            let ghost i = total - pending@.len();
            let ghost pv = pending@;
            let d = pending.remove(0);
            proof {
                assert(d@ == orig.skip(i)[0]);
                assert(d@ == orig[i]);
                assert(pending@ =~= pv.drop_first());
                assert(dirs_v(pending@) =~= orig.skip(i + 1)) by {
                    assert(forall|k: int|
                        0 <= k < pending@.len() ==> dirs_v(pending@)[k] == dirs_v(pv)[k + 1]);
                    assert(forall|k: int|
                        0 <= k < pending@.len() ==> orig.skip(i)[k + 1] == #[trigger] orig.skip(
                            i + 1,
                        )[k]);
                }
            }
            let keep = !str_in_list(paths, d.path.as_str());
            proof {
                assert(orig.take(i + 1) =~= orig.take(i).push(orig[i]));
                orig.take(i).lemma_filter_push(orig[i], pred);
            }
            if keep {
                assert(pred(d@));
                self.directories.push(d);
                proof {
                    assert(dirs_v(self.directories@) =~= orig.take(i).filter(pred).push(orig[i]));
                }
            } else {
                assert(!pred(d@));
            }
        }
        proof {
            assert(orig.take(total as int) =~= orig);
        }
    }
}

/// The position of the first song row stored at `path`, if any.
pub(crate) fn find_song_index(songs: &Vec<Song>, path: &str) -> (r: Option<usize>)
    ensures
        match r {
            Some(i) => index_of_key(songs_v(songs@), song_key(), path@) == i as int,
            None => index_of_key(songs_v(songs@), song_key(), path@) == -1,
        },
{
    let ghost rows = songs_v(songs@);
    proof {
        lemma_index_of_key(rows, song_key(), path@);
    }
    let n = songs.len();
    let mut i: usize = 0;
    #[verifier::loop_isolation(false)]
    while i < n
        invariant
            i <= n,
            forall|k: int| 0 <= k < i ==> rows[k].path != path@,
        decreases n - i,
    {
        if str_eq(songs[i].path.as_str(), path) {
            assert(rows[i as int].path == path@);
            return Some(i);
        }
        i = i + 1;
    }
    None
}

/// The position of the first directory row stored at `path`, if any.
fn find_directory_index(dirs: &Vec<Directory>, path: &str) -> (r: Option<usize>)
    ensures
        match r {
            Some(i) => index_of_key(dirs_v(dirs@), dir_key(), path@) == i as int,
            None => index_of_key(dirs_v(dirs@), dir_key(), path@) == -1,
        },
{
    let ghost rows = dirs_v(dirs@);
    proof {
        lemma_index_of_key(rows, dir_key(), path@);
    }
    let n = dirs.len();
    let mut i: usize = 0;
    #[verifier::loop_isolation(false)]
    while i < n
        invariant
            i <= n,
            forall|k: int| 0 <= k < i ==> rows[k].path != path@,
        decreases n - i,
    {
        if str_eq(dirs[i].path.as_str(), path) {
            assert(rows[i as int].path == path@);
            return Some(i);
        }
        i = i + 1;
    }
    None
}

/// Whether `s` equals some string on the list.
pub fn str_in_list(list: &Vec<String>, s: &str) -> (r: bool)
    ensures
        r == strs_v(list@).contains(s@),
{
    let n = list.len();
    let mut i: usize = 0;
    #[verifier::loop_isolation(false)]
    while i < n
        invariant
            i <= n,
            forall|k: int| 0 <= k < i ==> strs_v(list@)[k] != s@,
        decreases n - i,
    {
        if str_eq(list[i].as_str(), s) {
            assert(strs_v(list@)[i as int] == s@);
            return true;
        }
        i = i + 1;
    }
    assert(forall|k: int| 0 <= k < strs_v(list@).len() ==> strs_v(list@)[k] != s@);
    false
}

} // verus!
