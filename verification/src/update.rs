//! One full reindex: the reconciler sweeps rows whose real paths no longer
//! exist or no longer virtualize, deleting in bounded chunks; the builder
//! then repopulates the catalog from the scanned mount trees.

use vstd::prelude::*;

verus! {

use crate::art::{ArtPattern, regex_compiles};
use crate::builder::{IndexBuilder, songs_after, dirs_after};
use crate::db::{Db, DbV, db_wf, song_key, dir_key, song_not_in, dir_not_in, strs_v, str_in_list};
use crate::rows::{SongV, DirV};
use crate::snapshot::{DirSnapshot, DirTreeV, tree_view, tree_songs, tree_dirs, tree_ok};
use crate::table::{
    upsert_all,
    lemma_filter_compose,
    lemma_filter_congruent,
    lemma_contains_split,
    keys_distinct,
};
use crate::vfs::{MountV, virtualizable};
use crate::Error;

/// How many rows one delete statement names.
pub const INDEX_BUILDING_CLEAN_BUFFER_SIZE: usize = 500;

/// A song row survives reconciliation when its real path still exists and
/// still has a virtual form.
pub open spec fn keep_song(existing: Seq<Seq<char>>, mounts: Seq<MountV>) -> spec_fn(SongV) -> bool {
    |s: SongV| existing.contains(s.path) && virtualizable(mounts, s.path)
}

/// A directory row survives reconciliation on the same terms.
pub open spec fn keep_dir(existing: Seq<Seq<char>>, mounts: Seq<MountV>) -> spec_fn(DirV) -> bool {
    |d: DirV| existing.contains(d.path) && virtualizable(mounts, d.path)
}

/// The songs table after reconciliation.
pub open spec fn cleaned_songs(d: DbV, existing: Seq<Seq<char>>) -> Seq<SongV> {
    d.songs.filter(keep_song(existing, d.mounts))
}

/// The directories table after reconciliation.
pub open spec fn cleaned_dirs(d: DbV, existing: Seq<Seq<char>>) -> Seq<DirV> {
    d.dirs.filter(keep_dir(existing, d.mounts))
}

/// The scanned trees, as values.
pub open spec fn forest_views(f: Seq<DirSnapshot>) -> Seq<DirTreeV> {
    f.map_values(|d: DirSnapshot| tree_view(d))
}

/// All song rows a scan of the whole forest emits, in emission order.
pub open spec fn forest_songs(ts: Seq<DirTreeV>, pat: Seq<char>) -> Seq<SongV>
    decreases ts.len(),
{
    if ts.len() == 0 {
        Seq::empty()
    } else {
        tree_songs(ts[0], pat) + forest_songs(ts.drop_first(), pat)
    }
}

/// All directory rows a scan of the whole forest emits; the roots carry a
/// null parent.
pub open spec fn forest_dirs(ts: Seq<DirTreeV>, pat: Seq<char>) -> Seq<DirV>
    decreases ts.len(),
{
    if ts.len() == 0 {
        Seq::empty()
    } else {
        tree_dirs(ts[0], None, pat) + forest_dirs(ts.drop_first(), pat)
    }
}

/// Every tree of the forest scans without a fatal error.
pub open spec fn forest_ok(ts: Seq<DirTreeV>) -> bool {
    forall|i: int| 0 <= i < ts.len() ==> tree_ok(#[trigger] ts[i])
}

/// The album-art pattern text the settings row holds.
pub open spec fn pattern_of(d: DbV) -> Seq<char> {
    d.settings.unwrap().index_album_art_pattern
}

/// A scan can run at all: a settings row is present, its pattern compiles,
/// and every reached directory carries a timestamp.
pub open spec fn update_ok(d: DbV, ts: Seq<DirTreeV>) -> bool {
    d.settings is Some && regex_compiles(pattern_of(d)) && forest_ok(ts)
}

/// The songs table a successful reindex leaves behind.
pub open spec fn updated_songs(d: DbV, existing: Seq<Seq<char>>, ts: Seq<DirTreeV>) -> Seq<SongV> {
    upsert_all(cleaned_songs(d, existing), song_key(), forest_songs(ts, pattern_of(d)))
}

/// The directories table a successful reindex leaves behind.
pub open spec fn updated_dirs(d: DbV, existing: Seq<Seq<char>>, ts: Seq<DirTreeV>) -> Seq<DirV> {
    upsert_all(cleaned_dirs(d, existing), dir_key(), forest_dirs(ts, pattern_of(d)))
}

/// Sweeps both tables: a row whose real path is not on the `existing` list,
/// or fails to virtualize, is deleted, in chunks of at most
/// `INDEX_BUILDING_CLEAN_BUFFER_SIZE` paths per statement.
pub fn clean(db: &mut Db, existing: &Vec<String>)
    requires
        db_wf(old(db)@),
    ensures
        final(db)@.songs == cleaned_songs(old(db)@, strs_v(existing@)),
        final(db)@.dirs == cleaned_dirs(old(db)@, strs_v(existing@)),
        final(db)@.settings == old(db)@.settings,
        final(db)@.mounts == old(db)@.mounts,
        db_wf(final(db)@),
{
    let ghost ex = strs_v(existing@);
    let missing_songs = collect_missing_songs(db, existing);
    delete_rows_in_chunks(db, &missing_songs, true);
    let missing_dirs = collect_missing_directories(db, existing);
    delete_rows_in_chunks(db, &missing_dirs, false);
    proof {
        crate::table::lemma_filter_distinct(old(db)@.songs, song_key(), keep_song(
            ex,
            old(db)@.mounts,
        ));
        crate::table::lemma_filter_distinct(old(db)@.dirs, dir_key(), keep_dir(
            ex,
            old(db)@.mounts,
        ));
    }
}

/// The paths of the song rows that reconciliation must delete.
fn collect_missing_songs(db: &Db, existing: &Vec<String>) -> (r: Vec<String>)
    requires
        keys_distinct(db@.songs, song_key()),
    ensures
        db@.songs.filter(song_not_in(strs_v(r@))) == cleaned_songs(db@, strs_v(existing@)),
{
    let ghost ex = strs_v(existing@);
    let ghost keep = keep_song(ex, db@.mounts);
    let mut missing: Vec<String> = Vec::new();
    let all = db.songs();
    let n = all.len();
    let mut i: usize = 0;
    #[verifier::loop_isolation(false)]
    while i < n
        invariant
            i <= n,
            forall|si: int|
                0 <= si < db@.songs.len() && keep(#[trigger] db@.songs[si]) ==> !strs_v(
                    missing@,
                ).contains(db@.songs[si].path),
            forall|si: int|
                0 <= si < i && !keep(#[trigger] db@.songs[si]) ==> strs_v(missing@).contains(
                    db@.songs[si].path,
                ),
        decreases n - i,
    {
        let p = &all[i];
        let exists_still = str_in_list(existing, p.path.as_str());
        let virt_ok = match db.vfs().real_to_virtual(p.path.as_str()) {
            Ok(_) => true,
            Err(_) => false,
        };
        if !exists_still || !virt_ok {
            let ghost before = strs_v(missing@);
            missing.push(p.path.clone());
            proof {
                assert(strs_v(missing@) =~= before.push(p.path@));
                assert(db@.songs[i as int].path == p.path@);
                assert(!keep(db@.songs[i as int]));
                assert forall|si: int|
                    0 <= si < db@.songs.len() && keep(#[trigger] db@.songs[si]) implies !strs_v(
                    missing@,
                ).contains(db@.songs[si].path) by {
                    if strs_v(missing@).contains(db@.songs[si].path) {
                        let m = choose|m: int|
                            0 <= m < strs_v(missing@).len() && strs_v(missing@)[m]
                                == db@.songs[si].path;
                        if m < before.len() {
                            assert(before[m] == db@.songs[si].path);
                            assert(before.contains(db@.songs[si].path));
                        } else {
                            assert(db@.songs[si].path == db@.songs[i as int].path);
                            assert(si == i);
                        }
                    }
                }
                assert forall|si: int|
                    0 <= si < i + 1 && !keep(#[trigger] db@.songs[si]) implies strs_v(
                    missing@,
                ).contains(db@.songs[si].path) by {
                    if si < i {
                        let m = choose|m: int| 0 <= m < before.len() && before[m]
                            == db@.songs[si].path;
                        assert(strs_v(missing@)[m] == db@.songs[si].path);
                    } else {
                        assert(strs_v(missing@)[before.len() as int] == db@.songs[si].path);
                    }
                }
            }
        } else {
            assert(keep(db@.songs[i as int]));
        }
        i = i + 1;
    }
    proof {
        assert forall|si: int|
            0 <= si < db@.songs.len() implies song_not_in(strs_v(missing@))(
            #[trigger] db@.songs[si],
        ) == keep(db@.songs[si]) by {}
        lemma_filter_congruent(db@.songs, song_not_in(strs_v(missing@)), keep);
    }
    missing
}

/// The paths of the directory rows that reconciliation must delete.
fn collect_missing_directories(db: &Db, existing: &Vec<String>) -> (r: Vec<String>)
    requires
        keys_distinct(db@.dirs, dir_key()),
    ensures
        db@.dirs.filter(dir_not_in(strs_v(r@))) == cleaned_dirs(db@, strs_v(existing@)),
{
    let ghost ex = strs_v(existing@);
    let ghost keep = keep_dir(ex, db@.mounts);
    let mut missing: Vec<String> = Vec::new();
    let all = db.directories();
    let n = all.len();
    let mut i: usize = 0;
    #[verifier::loop_isolation(false)]
    while i < n
        invariant
            i <= n,
            forall|si: int|
                0 <= si < db@.dirs.len() && keep(#[trigger] db@.dirs[si]) ==> !strs_v(
                    missing@,
                ).contains(db@.dirs[si].path),
            forall|si: int|
                0 <= si < i && !keep(#[trigger] db@.dirs[si]) ==> strs_v(missing@).contains(
                    db@.dirs[si].path,
                ),
        decreases n - i,
    {
        let p = &all[i];
        let exists_still = str_in_list(existing, p.path.as_str());
        let virt_ok = match db.vfs().real_to_virtual(p.path.as_str()) {
            Ok(_) => true,
            Err(_) => false,
        };
        if !exists_still || !virt_ok {
            let ghost before = strs_v(missing@);
            missing.push(p.path.clone());
            proof {
                assert(strs_v(missing@) =~= before.push(p.path@));
                assert(db@.dirs[i as int].path == p.path@);
                assert(!keep(db@.dirs[i as int]));
                assert forall|si: int|
                    0 <= si < db@.dirs.len() && keep(#[trigger] db@.dirs[si]) implies !strs_v(
                    missing@,
                ).contains(db@.dirs[si].path) by {
                    if strs_v(missing@).contains(db@.dirs[si].path) {
                        let m = choose|m: int|
                            0 <= m < strs_v(missing@).len() && strs_v(missing@)[m]
                                == db@.dirs[si].path;
                        if m < before.len() {
                            assert(before[m] == db@.dirs[si].path);
                            assert(before.contains(db@.dirs[si].path));
                        } else {
                            assert(db@.dirs[si].path == db@.dirs[i as int].path);
                            assert(si == i);
                        }
                    }
                }
                assert forall|si: int|
                    0 <= si < i + 1 && !keep(#[trigger] db@.dirs[si]) implies strs_v(
                    missing@,
                ).contains(db@.dirs[si].path) by {
                    if si < i {
                        let m = choose|m: int| 0 <= m < before.len() && before[m]
                            == db@.dirs[si].path;
                        assert(strs_v(missing@)[m] == db@.dirs[si].path);
                    } else {
                        assert(strs_v(missing@)[before.len() as int] == db@.dirs[si].path);
                    }
                }
            }
        } else {
            assert(keep(db@.dirs[i as int]));
        }
        i = i + 1;
    }
    proof {
        assert forall|si: int|
            0 <= si < db@.dirs.len() implies dir_not_in(strs_v(missing@))(
            #[trigger] db@.dirs[si],
        ) == keep(db@.dirs[si]) by {}
        lemma_filter_congruent(db@.dirs, dir_not_in(strs_v(missing@)), keep);
    }
    missing
}

/// Deletes the listed paths from one table, at most
/// `INDEX_BUILDING_CLEAN_BUFFER_SIZE` per statement.
fn delete_rows_in_chunks(db: &mut Db, missing: &Vec<String>, songs_table: bool)
    ensures
        songs_table ==> final(db)@.songs == old(db)@.songs.filter(
            song_not_in(strs_v(missing@)),
        ) && final(db)@.dirs == old(db)@.dirs,
        !songs_table ==> final(db)@.dirs == old(db)@.dirs.filter(dir_not_in(strs_v(missing@)))
            && final(db)@.songs == old(db)@.songs,
        final(db)@.settings == old(db)@.settings,
        final(db)@.mounts == old(db)@.mounts,
{
    let ghost all = strs_v(missing@);
    let total = missing.len();
    proof {
        assert(all.take(0) =~= Seq::<Seq<char>>::empty());
        lemma_filter_all_kept(db@.songs, song_not_in(all.take(0)));
        lemma_filter_all_kept(db@.dirs, dir_not_in(all.take(0)));
    }
    let mut k: usize = 0;
    #[verifier::loop_isolation(false)]
    while k < total
        invariant
            k <= total,
            songs_table ==> db@.songs == old(db)@.songs.filter(
                song_not_in(all.take(k as int)),
            ) && db@.dirs == old(db)@.dirs,
            !songs_table ==> db@.dirs == old(db)@.dirs.filter(dir_not_in(all.take(k as int)))
                && db@.songs == old(db)@.songs,
            db@.settings == old(db)@.settings,
            db@.mounts == old(db)@.mounts,
        decreases total - k,
    {
        let end = if total - k > INDEX_BUILDING_CLEAN_BUFFER_SIZE {
            k + INDEX_BUILDING_CLEAN_BUFFER_SIZE
        } else {
            total
        };
        let mut chunk: Vec<String> = Vec::new();
        let mut c = k;
        #[verifier::loop_isolation(false)]
        while c < end
            invariant
                k <= c <= end,
                strs_v(chunk@) == all.subrange(k as int, c as int),
            decreases end - c,
        {
            let ghost before = strs_v(chunk@);
            chunk.push(missing[c].clone());
            proof {
                assert(strs_v(chunk@) =~= before.push(all[c as int]));
                assert(strs_v(chunk@) =~= all.subrange(k as int, c as int + 1));
            }
            c = c + 1;
        }
        let ghost chv = strs_v(chunk@);
        let ghost prev = all.take(k as int);
        let ghost joined = all.take(end as int);
        proof {
            assert(joined =~= prev + chv);
        }
        if songs_table {
            let ghost base = db@.songs;
            db.delete_songs_in(&chunk);
            proof {
                assert forall|x: SongV| #[trigger]
                    song_not_in(joined)(x) == (song_not_in(prev)(x) && song_not_in(chv)(x)) by {
                    lemma_contains_split(prev, chv, x.path);
                }
                lemma_filter_compose(
                    old(db)@.songs,
                    song_not_in(prev),
                    song_not_in(chv),
                    song_not_in(joined),
                );
            }
        } else {
            db.delete_directories_in(&chunk);
            proof {
                assert forall|x: DirV| #[trigger]
                    dir_not_in(joined)(x) == (dir_not_in(prev)(x) && dir_not_in(chv)(x)) by {
                    lemma_contains_split(prev, chv, x.path);
                }
                lemma_filter_compose(
                    old(db)@.dirs,
                    dir_not_in(prev),
                    dir_not_in(chv),
                    dir_not_in(joined),
                );
            }
        }
        k = end;
    }
    proof {
        assert(all.take(total as int) =~= all);
    }
}

/// A filter by a predicate that holds of every element keeps the sequence.
proof fn lemma_filter_all_kept<R>(s: Seq<R>, p: spec_fn(R) -> bool)
    requires
        forall|i: int| 0 <= i < s.len() ==> p(#[trigger] s[i]),
    ensures
        s.filter(p) == s,
    decreases s.len(),
{
    reveal(Seq::filter);
    if s.len() > 0 {
        lemma_filter_all_kept(s.drop_last(), p);
        assert(s.drop_last().push(s.last()) =~= s);
    }
}

/// Walks every mount tree into the catalog through the builder's buffers,
/// then flushes both. Fails when no settings row is stored, when the
/// album-art pattern does not compile, or when a reached directory carries
/// no timestamp; the error names the first failure met.
pub fn populate(db: &mut Db, forest: &Vec<DirSnapshot>) -> (r: Result<(), Error>)
    ensures
        final(db)@.settings == old(db)@.settings,
        final(db)@.mounts == old(db)@.mounts,
        r is Ok <==> update_ok(old(db)@, forest_views(forest@)),
        r matches Err(e) ==> (e == Error::MissingSettings || e == Error::PatternInvalid || e
            == Error::MissingTimestamp),
        r == Err::<(), Error>(Error::MissingSettings) <==> old(db)@.settings is None,
        (r == Err::<(), Error>(Error::PatternInvalid) <==> old(db)@.settings is Some
            && !regex_compiles(pattern_of(old(db)@))),
        r == Err::<(), Error>(Error::MissingSettings) ==> final(db)@.songs == old(db)@.songs
            && final(db)@.dirs == old(db)@.dirs,
        r == Err::<(), Error>(Error::PatternInvalid) ==> final(db)@.songs == old(db)@.songs
            && final(db)@.dirs == old(db)@.dirs,
        r is Ok ==> final(db)@.songs == upsert_all(
            old(db)@.songs,
            song_key(),
            forest_songs(forest_views(forest@), pattern_of(old(db)@)),
        ),
        r is Ok ==> final(db)@.dirs == upsert_all(
            old(db)@.dirs,
            dir_key(),
            forest_dirs(forest_views(forest@), pattern_of(old(db)@)),
        ),
{
    let pattern_text: String = match db.misc_settings() {
        Some(m) => m.index_album_art_pattern.clone(),
        None => {
            return Err(Error::MissingSettings);
        },
    };
    let pat = match ArtPattern::compile(pattern_text.as_str()) {
        Some(p) => p,
        None => {
            return Err(Error::PatternInvalid);
        },
    };
    let ghost pat0 = pattern_of(db@);
    let ghost fv = forest_views(forest@);
    let ghost cs0 = db@.songs;
    let ghost ds0 = db@.dirs;
    let mut builder = IndexBuilder::new(pat);
    proof {
        assert(songs_after(db@.songs, builder.songs_buf()) == cs0);
        assert(dirs_after(db@.dirs, builder.dirs_buf()) == ds0);
        assert(fv.skip(0) =~= fv);
    }
    let n = forest.len();
    let mut i: usize = 0;
    #[verifier::loop_isolation(false)]
    while i < n
        invariant
            i <= n,
            n == forest@.len(),
            builder.pat() == pat0,
            builder.songs_buf().len() <= crate::builder::INDEX_BUILDING_INSERT_BUFFER_SIZE,
            builder.dirs_buf().len() <= crate::builder::INDEX_BUILDING_INSERT_BUFFER_SIZE,
            upsert_all(
                songs_after(db@.songs, builder.songs_buf()),
                song_key(),
                forest_songs(fv.skip(i as int), pat0),
            ) == upsert_all(cs0, song_key(), forest_songs(fv, pat0)),
            upsert_all(
                dirs_after(db@.dirs, builder.dirs_buf()),
                dir_key(),
                forest_dirs(fv.skip(i as int), pat0),
            ) == upsert_all(ds0, dir_key(), forest_dirs(fv, pat0)),
            forall|j: int| 0 <= j < i ==> tree_ok(#[trigger] fv[j]),
            db@.settings == old(db)@.settings,
            db@.mounts == old(db)@.mounts,
        decreases n - i,
    {
        let ghost csb = songs_after(db@.songs, builder.songs_buf());
        let ghost dsb = dirs_after(db@.dirs, builder.dirs_buf());
        proof {
            assert(fv[i as int] == tree_view(forest@[i as int]));
            assert(fv.skip(i as int)[0] == fv[i as int]);
            assert(fv.skip(i as int).drop_first() =~= fv.skip(i as int + 1));
        }
        match builder.populate_directory(db, None, &forest[i]) {
            Err(e) => {
                proof {
                    assert(!tree_ok(fv[i as int]));
                    assert(!forest_ok(fv));
                }
                return Err(e);
            },
            Ok(()) => {
                proof {
                    crate::table::lemma_upsert_all_concat(
                        csb,
                        song_key(),
                        tree_songs(fv[i as int], pat0),
                        forest_songs(fv.skip(i as int + 1), pat0),
                    );
                    assert(forest_songs(fv.skip(i as int), pat0) == tree_songs(fv[i as int], pat0)
                        + forest_songs(fv.skip(i as int + 1), pat0));
                    crate::table::lemma_upsert_all_concat(
                        dsb,
                        dir_key(),
                        tree_dirs(fv[i as int], None, pat0),
                        forest_dirs(fv.skip(i as int + 1), pat0),
                    );
                    assert(forest_dirs(fv.skip(i as int), pat0) == tree_dirs(
                        fv[i as int],
                        None,
                        pat0,
                    ) + forest_dirs(fv.skip(i as int + 1), pat0));
                }
                i = i + 1;
            },
        }
    }
    proof {
        assert(fv.skip(n as int) =~= Seq::<DirTreeV>::empty());
    }
    builder.flush_songs(db);
    builder.flush_directories(db);
    Ok(())
}

/// One full reindex: reconcile, then repopulate. Scan failures are
/// reported; the reconciliation still happened.
pub fn update(db: &mut Db, existing: &Vec<String>, forest: &Vec<DirSnapshot>) -> (r: Result<
    (),
    Error,
>)
    requires
        db_wf(old(db)@),
    ensures
        final(db)@.settings == old(db)@.settings,
        final(db)@.mounts == old(db)@.mounts,
        r is Ok <==> update_ok(old(db)@, forest_views(forest@)),
        r is Ok ==> final(db)@.songs == updated_songs(
            old(db)@,
            strs_v(existing@),
            forest_views(forest@),
        ),
        r is Ok ==> final(db)@.dirs == updated_dirs(
            old(db)@,
            strs_v(existing@),
            forest_views(forest@),
        ),
        r is Ok ==> db_wf(final(db)@),
{
    clean(db, existing);
    proof {
        crate::table::lemma_upsert_all(
            cleaned_songs(old(db)@, strs_v(existing@)),
            song_key(),
            forest_songs(forest_views(forest@), pattern_of(old(db)@)),
        );
        crate::table::lemma_upsert_all(
            cleaned_dirs(old(db)@, strs_v(existing@)),
            dir_key(),
            forest_dirs(forest_views(forest@), pattern_of(old(db)@)),
        );
    }
    populate(db, forest)
}

} // verus!
