//! The index builder: walks a scanned tree, extracts per-file tags into
//! song rows, infers directory aggregates under the inconsistency-collapse
//! rule, and emits rows through two bounded buffers that flush into the
//! store in batches.

use vstd::prelude::*;

verus! {

use vstd::string::StringExecFns;
use crate::art::ArtPattern;
use crate::db::{Db, songs_v, dirs_v, song_key, dir_key};
use crate::rows::{Song, SongV, Directory, DirV, opt_str, copy_opt_string};
use crate::snapshot::{
    tree_view,
    agg_step,
    DirSnapshot,
    EntrySnapshot,
    EntryV,
    artwork_scan,
    file_songs,
    years_from,
    albums_from,
    artists_from,
    dir_songs,
    dir_row,
    tree_songs,
    tree_dirs,
    entries_songs,
    entries_dirs,
    tree_ok,
    entries_ok,
    agg_fold,
    lemma_agg_fold,
    lemma_entries_view,
    lemma_scan_step,
    collapse,
    artist_of,
    song_row,
};
use crate::table::{upsert_all, upsert_one, lemma_upsert_all_push, lemma_upsert_all_concat};
use crate::strings::path_join;
use crate::Error;

/// How many rows either buffer may hold before a push first flushes it in
/// one transaction.
pub const INDEX_BUILDING_INSERT_BUFFER_SIZE: usize = 1000;

/// The view of an optional borrowed string.
pub open spec fn opt_sref(p: Option<&str>) -> Option<Seq<char>> {
    match p {
        Some(s) => Some(s@),
        None => None,
    }
}

/// The songs table as it will stand once the buffer is flushed.
pub open spec fn songs_after(base: Seq<SongV>, buf: Seq<SongV>) -> Seq<SongV> {
    upsert_all(base, song_key(), buf)
}

/// The directories table as it will stand once the buffer is flushed.
pub open spec fn dirs_after(base: Seq<DirV>, buf: Seq<DirV>) -> Seq<DirV> {
    upsert_all(base, dir_key(), buf)
}

/// One aggregate-fold step over a list that starts with `v`.
proof fn lemma_fold_cons<V>(
    cand: Option<V>,
    inc: bool,
    v: Option<V>,
    rest: Seq<Option<V>>,
    whole: Seq<Option<V>>,
)
    requires
        whole == seq![v] + rest,
    ensures
        ({
            let st = agg_step(cand, inc, v);
            agg_fold(cand, inc, whole) == agg_fold(st.0, st.1, rest)
        }),
{
    assert(whole[0] == v);
    assert(whole.drop_first() =~= rest);
}

/// The builder: two bounded row buffers and the compiled album-art
/// pattern.
pub(crate) struct IndexBuilder {
    pub(crate) new_songs: Vec<Song>,
    pub(crate) new_directories: Vec<Directory>,
    pub(crate) album_art_pattern: ArtPattern,
}

impl IndexBuilder {
    /// The buffered song rows.
    pub(crate) open spec fn songs_buf(&self) -> Seq<SongV> {
        songs_v(self.new_songs@)
    }

    /// The buffered directory rows.
    pub(crate) open spec fn dirs_buf(&self) -> Seq<DirV> {
        dirs_v(self.new_directories@)
    }

    /// The album-art pattern's text.
    pub(crate) open spec fn pat(&self) -> Seq<char> {
        self.album_art_pattern.text()
    }

    /// A builder with empty buffers over the given pattern.
    pub(crate) fn new(album_art_pattern: ArtPattern) -> (r: IndexBuilder)
        ensures
            r.songs_buf() == Seq::<SongV>::empty(),
            r.dirs_buf() == Seq::<DirV>::empty(),
            r.pat() == album_art_pattern.text(),
    {
        let r = IndexBuilder { new_songs: Vec::new(), new_directories: Vec::new(), album_art_pattern };
        proof {
            assert(r.songs_buf() =~= Seq::<SongV>::empty());
            assert(r.dirs_buf() =~= Seq::<DirV>::empty());
        }
        r
    }

    /// Writes every buffered song row to the store in one transaction and
    /// empties the buffer.
    pub(crate) fn flush_songs(&mut self, db: &mut Db)
        ensures
            final(db)@.songs == songs_after(old(db)@.songs, old(self).songs_buf()),
            final(self).songs_buf() == Seq::<SongV>::empty(),
            final(self).new_directories == old(self).new_directories,
            final(self).album_art_pattern == old(self).album_art_pattern,
            final(db)@.dirs == old(db)@.dirs,
            final(db)@.settings == old(db)@.settings,
            final(db)@.mounts == old(db)@.mounts,
    {
        #[verifier::loop_isolation(false)]
        while self.new_songs.len() > 0
            invariant
                songs_after(db@.songs, self.songs_buf()) == songs_after(
                    old(db)@.songs,
                    old(self).songs_buf(),
                ),
                self.new_directories == old(self).new_directories,
                self.album_art_pattern == old(self).album_art_pattern,
                db@.dirs == old(db)@.dirs,
                db@.settings == old(db)@.settings,
                db@.mounts == old(db)@.mounts,
            decreases self.new_songs.len(),
        {
            let ghost bufv = self.songs_buf();
            let ghost base = db@.songs;
            let s = self.new_songs.remove(0);
            proof {
                assert(s@ == bufv[0]);
                assert(self.songs_buf() =~= bufv.drop_first());
            }
            db.upsert_song(s);
        }
        proof {
            assert(self.songs_buf() =~= Seq::<SongV>::empty());
        }
    }

    /// Writes every buffered directory row to the store in one transaction
    /// and empties the buffer.
    pub(crate) fn flush_directories(&mut self, db: &mut Db)
        ensures
            final(db)@.dirs == dirs_after(old(db)@.dirs, old(self).dirs_buf()),
            final(self).dirs_buf() == Seq::<DirV>::empty(),
            final(self).new_songs == old(self).new_songs,
            final(self).album_art_pattern == old(self).album_art_pattern,
            final(db)@.songs == old(db)@.songs,
            final(db)@.settings == old(db)@.settings,
            final(db)@.mounts == old(db)@.mounts,
    {
        #[verifier::loop_isolation(false)]
        while self.new_directories.len() > 0
            invariant
                dirs_after(db@.dirs, self.dirs_buf()) == dirs_after(
                    old(db)@.dirs,
                    old(self).dirs_buf(),
                ),
                self.new_songs == old(self).new_songs,
                self.album_art_pattern == old(self).album_art_pattern,
                db@.songs == old(db)@.songs,
                db@.settings == old(db)@.settings,
                db@.mounts == old(db)@.mounts,
            decreases self.new_directories.len(),
        {
            let ghost bufv = self.dirs_buf();
            let d = self.new_directories.remove(0);
            proof {
                assert(d@ == bufv[0]);
                assert(self.dirs_buf() =~= bufv.drop_first());
            }
            db.upsert_directory(d);
        }
        proof {
            assert(self.dirs_buf() =~= Seq::<DirV>::empty());
        }
    }

    /// Buffers one song row, flushing first when the buffer is full.
    pub(crate) fn push_song(&mut self, db: &mut Db, song: Song)
        ensures
            songs_after(final(db)@.songs, final(self).songs_buf()) == songs_after(
                old(db)@.songs,
                old(self).songs_buf().push(song@),
            ),
            final(self).songs_buf().len() <= INDEX_BUILDING_INSERT_BUFFER_SIZE,
            final(self).new_directories == old(self).new_directories,
            final(self).album_art_pattern == old(self).album_art_pattern,
            final(db)@.dirs == old(db)@.dirs,
            final(db)@.settings == old(db)@.settings,
            final(db)@.mounts == old(db)@.mounts,
    {
        proof {
            lemma_upsert_all_push(old(db)@.songs, song_key(), old(self).songs_buf(), song@);
        }
        if self.new_songs.len() >= INDEX_BUILDING_INSERT_BUFFER_SIZE {
            self.flush_songs(db);
        }
        let ghost bufv = self.songs_buf();
        self.new_songs.push(song);
        proof {
            assert(self.songs_buf() =~= bufv.push(song@));
            lemma_upsert_all_push(db@.songs, song_key(), bufv, song@);
        }
    }

    /// Buffers one directory row, flushing first when the buffer is full.
    pub(crate) fn push_directory(&mut self, db: &mut Db, directory: Directory)
        ensures
            dirs_after(final(db)@.dirs, final(self).dirs_buf()) == dirs_after(
                old(db)@.dirs,
                old(self).dirs_buf().push(directory@),
            ),
            final(self).dirs_buf().len() <= INDEX_BUILDING_INSERT_BUFFER_SIZE,
            final(self).new_songs == old(self).new_songs,
            final(self).album_art_pattern == old(self).album_art_pattern,
            final(db)@.songs == old(db)@.songs,
            final(db)@.settings == old(db)@.settings,
            final(db)@.mounts == old(db)@.mounts,
    {
        proof {
            lemma_upsert_all_push(old(db)@.dirs, dir_key(), old(self).dirs_buf(), directory@);
        }
        if self.new_directories.len() >= INDEX_BUILDING_INSERT_BUFFER_SIZE {
            self.flush_directories(db);
        }
        let ghost bufv = self.dirs_buf();
        self.new_directories.push(directory);
        proof {
            assert(self.dirs_buf() =~= bufv.push(directory@));
            lemma_upsert_all_push(db@.dirs, dir_key(), bufv, directory@);
        }
    }

    /// Walks one scanned directory: catalogues its tagged files, infers
    /// the directory's aggregates under the inconsistency-collapse rule,
    /// emits the directory row, and recurses into the subdirectories
    /// gathered before any unreadable entry. Fails exactly when some
    /// directory the walk reaches carries no timestamp.
    pub(crate) fn populate_directory(
        &mut self,
        db: &mut Db,
        parent: Option<&str>,
        t: &DirSnapshot,
    ) -> (r: Result<(), Error>)
        requires
            old(self).songs_buf().len() <= INDEX_BUILDING_INSERT_BUFFER_SIZE,
            old(self).dirs_buf().len() <= INDEX_BUILDING_INSERT_BUFFER_SIZE,
        ensures
            final(self).album_art_pattern == old(self).album_art_pattern,
            final(self).songs_buf().len() <= INDEX_BUILDING_INSERT_BUFFER_SIZE,
            final(self).dirs_buf().len() <= INDEX_BUILDING_INSERT_BUFFER_SIZE,
            final(db)@.settings == old(db)@.settings,
            final(db)@.mounts == old(db)@.mounts,
            r is Ok <==> tree_ok(t@),
            r matches Err(e) ==> e == Error::MissingTimestamp,
            r is Ok ==> songs_after(final(db)@.songs, final(self).songs_buf()) == upsert_all(
                songs_after(old(db)@.songs, old(self).songs_buf()),
                song_key(),
                tree_songs(t@, old(self).pat()),
            ),
            r is Ok ==> dirs_after(final(db)@.dirs, final(self).dirs_buf()) == upsert_all(
                dirs_after(old(db)@.dirs, old(self).dirs_buf()),
                dir_key(),
                tree_dirs(t@, opt_sref(parent), old(self).pat()),
            ),
        decreases *t,
    {
        let ghost pat0 = self.pat();
        let ghost tv = t@;
        let ghost cs0 = songs_after(db@.songs, self.songs_buf());
        let ghost ds0 = dirs_after(db@.dirs, self.dirs_buf());
        proof {
            lemma_entries_view(t.entries@, 0);
        }
        // Artwork detection over the directory's entries.
        let artwork = self.get_artwork(t);
        let ghost art = artwork_scan(tv.path, pat0, tv.entries, 0);

        // Directory timestamp: a hard error when the filesystem offered none.
        let created: i32 = match t.date_added {
            Some(c) => c,
            None => {
                return Err(Error::MissingTimestamp);
            },
        };

        // Child enumeration: songs are catalogued and aggregates tracked,
        // until the first unreadable entry aborts the pass.
        let mut directory_year: Option<i32> = None;
        let mut directory_album: Option<String> = None;
        let mut directory_artist: Option<String> = None;
        let mut inconsistent_year: bool = false;
        let mut inconsistent_album: bool = false;
        let mut inconsistent_artist: bool = false;
        let n = t.entries.len();
        let mut i: usize = 0;
        let mut stopped: bool = false;
        #[verifier::loop_isolation(false)]
        while i < n && !stopped
            invariant
                i <= n,
                stopped ==> i < n && tv.entries[i as int] is ReadError,
                upsert_all(
                    songs_after(db@.songs, self.songs_buf()),
                    song_key(),
                    file_songs(tv, pat0, i as int),
                ) == upsert_all(cs0, song_key(), file_songs(tv, pat0, 0)),
                agg_fold(directory_year, inconsistent_year, years_from(tv, i as int)) == agg_fold(
                    None,
                    false,
                    years_from(tv, 0),
                ),
                agg_fold(opt_str(directory_album), inconsistent_album, albums_from(tv, i as int))
                    == agg_fold(None, false, albums_from(tv, 0)),
                agg_fold(opt_str(directory_artist), inconsistent_artist, artists_from(tv, i as int))
                    == agg_fold(None, false, artists_from(tv, 0)),
                self.album_art_pattern == old(self).album_art_pattern,
                self.songs_buf().len() <= INDEX_BUILDING_INSERT_BUFFER_SIZE,
                self.new_directories == old(self).new_directories,
                db@.dirs == old(db)@.dirs,
                db@.settings == old(db)@.settings,
                db@.mounts == old(db)@.mounts,
            decreases n - i, if stopped { 0int } else { 1int },
        {
            proof {
                lemma_scan_step(tv, pat0, i as int);
            }
            match &t.entries[i] {
                EntrySnapshot::ReadError => {
                    assert(tv.entries[i as int] is ReadError);
                    stopped = true;
                },
                EntrySnapshot::Subdir { .. } => {
                    assert(tv.entries[i as int] is Subdir);
                    i = i + 1;
                },
                EntrySnapshot::File { name, tags } => {
                    match tags {
                        None => {
                            assert(tv.entries[i as int] matches EntryV::File {
                                tags: Option::None,
                                ..
                            });
                            i = i + 1;
                        },
                        Some(tg) => {
                            let ghost tgv = tg@;
                            let ghost ycand0 = directory_year;
                            let ghost yinc0 = inconsistent_year;
                            let ghost alcand0 = opt_str(directory_album);
                            let ghost alinc0 = inconsistent_album;
                            let ghost arcand0 = opt_str(directory_artist);
                            let ghost arinc0 = inconsistent_artist;
                            assert(tv.entries[i as int] == EntryV::File {
                                name: name@,
                                tags: Some(tgv),
                            });
                            // aggregate tracking, field by field
                            if let Some(y) = tg.year {
                                let was_some = directory_year.is_some();
                                let same = match directory_year {
                                    Some(c) => c == y,
                                    None => false,
                                };
                                inconsistent_year = inconsistent_year || (was_some && !same);
                                directory_year = Some(y);
                            }
                            if let Some(al) = &tg.album {
                                let was_some = directory_album.is_some();
                                let same = match &directory_album {
                                    Some(c) => crate::strings::str_eq(c.as_str(), al.as_str()),
                                    None => false,
                                };
                                inconsistent_album = inconsistent_album || (was_some && !same);
                                directory_album = Some(al.clone());
                            }
                            let artist_val: Option<&String> = match &tg.album_artist {
                                Some(aa) => Some(aa),
                                None => match &tg.artist {
                                    Some(a) => Some(a),
                                    None => None,
                                },
                            };
                            if let Some(av) = artist_val {
                                let was_some = directory_artist.is_some();
                                let same = match &directory_artist {
                                    Some(c) => crate::strings::str_eq(c.as_str(), av.as_str()),
                                    None => false,
                                };
                                inconsistent_artist = inconsistent_artist || (was_some && !same);
                                directory_artist = Some(av.clone());
                            }
                            // the song row, inheriting the directory artwork
                            let song = Song {
                                path: path_join(t.path.as_str(), name.as_str()),
                                parent: t.path.clone(),
                                track_number: tg.track_number,
                                disc_number: tg.disc_number,
                                title: copy_opt_string(&tg.title),
                                artist: copy_opt_string(&tg.artist),
                                album_artist: copy_opt_string(&tg.album_artist),
                                year: tg.year,
                                album: copy_opt_string(&tg.album),
                                artwork: copy_opt_string(&artwork),
                                duration: tg.duration,
                            };
                            proof {
                                assert(song@ == song_row(tv.path, art, name@, tgv));
                                assert((directory_year, inconsistent_year) == agg_step(
                                    ycand0,
                                    yinc0,
                                    tgv.year,
                                ));
                                assert((opt_str(directory_album), inconsistent_album) == agg_step(
                                    alcand0,
                                    alinc0,
                                    tgv.album,
                                ));
                                assert((opt_str(directory_artist), inconsistent_artist)
                                    == agg_step(arcand0, arinc0, artist_of(tgv)));
                                lemma_fold_cons(ycand0, yinc0, tgv.year, years_from(
                                    tv,
                                    i as int + 1,
                                ), years_from(tv, i as int));
                                lemma_fold_cons(alcand0, alinc0, tgv.album, albums_from(
                                    tv,
                                    i as int + 1,
                                ), albums_from(tv, i as int));
                                lemma_fold_cons(arcand0, arinc0, artist_of(tgv), artists_from(
                                    tv,
                                    i as int + 1,
                                ), artists_from(tv, i as int));
                            }
                            let ghost base_before = db@.songs;
                            let ghost buf_before = self.songs_buf();
                            self.push_song(db, song);
                            proof {
                                lemma_upsert_all_push(base_before, song_key(), buf_before, song@);
                                assert(songs_after(db@.songs, self.songs_buf()) == upsert_one(
                                    songs_after(base_before, buf_before),
                                    song_key(),
                                    song@,
                                ));
                                let fs_next = file_songs(tv, pat0, i as int + 1);
                                let fs_here = file_songs(tv, pat0, i as int);
                                assert(fs_here == seq![song@] + fs_next);
                                assert((seq![song@] + fs_next)[0] == song@);
                                assert((seq![song@] + fs_next).drop_first() =~= fs_next);
                                assert(upsert_all(
                                    songs_after(base_before, buf_before),
                                    song_key(),
                                    fs_here,
                                ) == upsert_all(
                                    songs_after(db@.songs, self.songs_buf()),
                                    song_key(),
                                    fs_next,
                                ));
                            }
                            i = i + 1;
                        },
                    }
                },
            }
        }

        proof {
            if stopped {
                lemma_scan_step(tv, pat0, i as int);
            } else {
                assert(file_songs(tv, pat0, i as int) =~= Seq::<SongV>::empty());
                assert(years_from(tv, i as int) =~= Seq::<Option<i32>>::empty());
                assert(albums_from(tv, i as int) =~= Seq::<Option<Seq<char>>>::empty());
                assert(artists_from(tv, i as int) =~= Seq::<Option<Seq<char>>>::empty());
            }
            assert(songs_after(db@.songs, self.songs_buf()) == upsert_all(
                cs0,
                song_key(),
                file_songs(tv, pat0, 0),
            ));
            assert(agg_fold(None, false, years_from(tv, 0)) == (
                directory_year,
                inconsistent_year,
            ));
            assert(agg_fold(None, false, albums_from(tv, 0)) == (
                opt_str(directory_album),
                inconsistent_album,
            ));
            assert(agg_fold(None, false, artists_from(tv, 0)) == (
                opt_str(directory_artist),
                inconsistent_artist,
            ));
        }

        // Aggregate inference: zero out any field whose inconsistency flag
        // is set.
        let year = if inconsistent_year {
            None
        } else {
            directory_year
        };
        let album = if inconsistent_album {
            None
        } else {
            directory_album
        };
        let artist = if inconsistent_artist {
            None
        } else {
            directory_artist
        };
        proof {
            lemma_agg_fold(None, false, years_from(tv, 0));
            lemma_agg_fold(None, false, albums_from(tv, 0));
            lemma_agg_fold(None, false, artists_from(tv, 0));
            assert(year == collapse(years_from(tv, 0)));
            assert(opt_str(album) == collapse(albums_from(tv, 0)));
            assert(opt_str(artist) == collapse(artists_from(tv, 0)));
        }

        // Directory row emission.
        let directory = Directory {
            path: t.path.clone(),
            parent: match parent {
                Some(p) => Some(String::from_str(p)),
                None => None,
            },
            artist,
            year,
            album,
            artwork,
            date_added: created,
        };
        proof {
            assert(directory@ == dir_row(tv, opt_sref(parent), pat0));
        }
        let ghost dbase_before = db@.dirs;
        let ghost dbuf_before = self.dirs_buf();
        self.push_directory(db, directory);
        proof {
            lemma_upsert_all_push(dbase_before, dir_key(), dbuf_before, dir_row(
                tv,
                opt_sref(parent),
                pat0,
            ));
            assert(dirs_after(dbase_before, dbuf_before) == ds0);
            assert(dirs_after(db@.dirs, self.dirs_buf()) == upsert_one(ds0, dir_key(), dir_row(
                tv,
                opt_sref(parent),
                pat0,
            )));
        }

        // Populate subdirectories.
        let ghost cs1 = songs_after(db@.songs, self.songs_buf());
        let ghost ds1 = dirs_after(db@.dirs, self.dirs_buf());
        proof {
            let row = dir_row(tv, opt_sref(parent), pat0);
            assert(seq![row].drop_first() =~= Seq::<DirV>::empty());
            assert(seq![row][0] == row);
            assert(upsert_all(ds0, dir_key(), seq![row]) == upsert_all(
                upsert_one(ds0, dir_key(), row),
                dir_key(),
                seq![row].drop_first(),
            ));
            assert(upsert_all(ds0, dir_key(), seq![row]) == ds1);
            lemma_upsert_all_concat(
                cs0,
                song_key(),
                dir_songs(tv, pat0),
                entries_songs(tv.entries, 0, pat0),
            );
            assert(tree_songs(tv, pat0) == dir_songs(tv, pat0) + entries_songs(
                tv.entries,
                0,
                pat0,
            ));
            lemma_upsert_all_concat(
                ds0,
                dir_key(),
                seq![row],
                entries_dirs(tv.entries, 0, tv.path, pat0),
            );
            assert(tree_dirs(tv, opt_sref(parent), pat0) == seq![row] + entries_dirs(
                tv.entries,
                0,
                tv.path,
                pat0,
            ));
        }
        let mut j: usize = 0;
        let mut halted: bool = false;
        #[verifier::loop_isolation(false)]
        while j < n && !halted
            invariant
                j <= n,
                halted ==> j < n && tv.entries[j as int] is ReadError,
                upsert_all(
                    songs_after(db@.songs, self.songs_buf()),
                    song_key(),
                    entries_songs(tv.entries, j as int, pat0),
                ) == upsert_all(cs0, song_key(), tree_songs(tv, pat0)),
                upsert_all(
                    dirs_after(db@.dirs, self.dirs_buf()),
                    dir_key(),
                    entries_dirs(tv.entries, j as int, tv.path, pat0),
                ) == upsert_all(ds0, dir_key(), tree_dirs(tv, opt_sref(parent), pat0)),
                entries_ok(tv.entries, 0) == entries_ok(tv.entries, j as int),
                self.album_art_pattern == old(self).album_art_pattern,
                self.songs_buf().len() <= INDEX_BUILDING_INSERT_BUFFER_SIZE,
                self.dirs_buf().len() <= INDEX_BUILDING_INSERT_BUFFER_SIZE,
                db@.settings == old(db)@.settings,
                db@.mounts == old(db)@.mounts,
            decreases n - j, if halted { 0int } else { 1int },
        {
            match &t.entries[j] {
                EntrySnapshot::ReadError => {
                    assert(tv.entries[j as int] is ReadError);
                    halted = true;
                },
                EntrySnapshot::File { .. } => {
                    assert(tv.entries[j as int] is File);
                    assert(entries_songs(tv.entries, j as int, pat0) == entries_songs(
                        tv.entries,
                        j as int + 1,
                        pat0,
                    ));
                    j = j + 1;
                },
                EntrySnapshot::Subdir { dir, .. } => {
                    assert(tv.entries[j as int] matches EntryV::Subdir { .. });
                    let ghost subv = tree_view(*dir);
                    assert(tv.entries[j as int]->Subdir_dir == subv);
                    let ghost csb = songs_after(db@.songs, self.songs_buf());
                    let ghost dsb = dirs_after(db@.dirs, self.dirs_buf());
                    proof {
                        assert(decreases_to!(*t => t.entries));
                        assert(decreases_to!(t.entries => t.entries@));
                        assert(decreases_to!(t.entries@ => t.entries@[j as int]));
                        assert(decreases_to!(t.entries@[j as int] => *dir));
                    }
                    let res = self.populate_directory(db, Some(t.path.as_str()), dir);
                    match res {
                        Err(e) => {
                            proof {
                                assert(!tree_ok(subv));
                                assert(!entries_ok(tv.entries, j as int));
                            }
                            return Err(e);
                        },
                        Ok(()) => {
                            proof {
                                let es_here = entries_songs(tv.entries, j as int, pat0);
                                let es_next = entries_songs(tv.entries, j as int + 1, pat0);
                                assert(es_here == tree_songs(subv, pat0) + es_next);
                                lemma_upsert_all_concat(csb, song_key(), tree_songs(subv, pat0),
                                es_next);
                                let ed_here = entries_dirs(tv.entries, j as int, tv.path, pat0);
                                let ed_next = entries_dirs(
                                    tv.entries,
                                    j as int + 1,
                                    tv.path,
                                    pat0,
                                );
                                assert(ed_here == tree_dirs(subv, Some(tv.path), pat0) + ed_next);
                                lemma_upsert_all_concat(dsb, dir_key(), tree_dirs(
                                    subv,
                                    Some(tv.path),
                                    pat0,
                                ), ed_next);
                            }
                            j = j + 1;
                        },
                    }
                },
            }
        }
        proof {
            if halted {
                assert(entries_songs(tv.entries, j as int, pat0) =~= Seq::<SongV>::empty());
                assert(entries_dirs(tv.entries, j as int, tv.path, pat0) =~= Seq::<DirV>::empty());
                assert(entries_ok(tv.entries, j as int));
            } else {
                assert(entries_songs(tv.entries, j as int, pat0) =~= Seq::<SongV>::empty());
                assert(entries_dirs(tv.entries, j as int, tv.path, pat0) =~= Seq::<DirV>::empty());
                assert(entries_ok(tv.entries, j as int));
            }
            assert(songs_after(db@.songs, self.songs_buf()) == upsert_all(
                cs0,
                song_key(),
                tree_songs(tv, pat0),
            ));
            assert(dirs_after(db@.dirs, self.dirs_buf()) == upsert_all(
                ds0,
                dir_key(),
                tree_dirs(tv, opt_sref(parent), pat0),
            ));
            assert(tree_ok(tv));
        }
        Ok(())
    }

    /// The full real path of the first entry whose name matches the
    /// album-art pattern; none on no match or an unreadable entry.
    pub(crate) fn get_artwork(&self, t: &DirSnapshot) -> (r: Option<String>)
        ensures
            opt_str(r) == artwork_scan(t@.path, self.pat(), t@.entries, 0),
    {
        proof {
            lemma_entries_view(t.entries@, 0);
        }
        let ghost tv = t@;
        let n = t.entries.len();
        let mut i: usize = 0;
        #[verifier::loop_isolation(false)]
        while i < n
            invariant
                i <= n,
                artwork_scan(tv.path, self.pat(), tv.entries, 0) == artwork_scan(
                    tv.path,
                    self.pat(),
                    tv.entries,
                    i as int,
                ),
            decreases n - i,
        {
            match &t.entries[i] {
                EntrySnapshot::ReadError => {
                    return None;
                },
                EntrySnapshot::File { name, .. } => {
                    if self.album_art_pattern.is_match(name.as_str()) {
                        let full = path_join(t.path.as_str(), name.as_str());
                        return Some(full);
                    }
                },
                EntrySnapshot::Subdir { name, .. } => {
                    if self.album_art_pattern.is_match(name.as_str()) {
                        let full = path_join(t.path.as_str(), name.as_str());
                        return Some(full);
                    }
                },
            }
            i = i + 1;
        }
        None
    }
}

} // verus!
