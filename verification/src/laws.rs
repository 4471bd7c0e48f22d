//! The catalog's standing guarantees, stated and proved over the same
//! specifications the executable functions are verified against: where the
//! mount-root rows come from, how songs link to directories after a
//! reindex, what the aggregate collapse yields, that query results live in
//! the virtual namespace, and that reindexing twice changes nothing.

use vstd::prelude::*;

verus! {

use crate::db::{DbV, db_wf, song_key, dir_key};
use crate::rows::{SongV, DirV};
use crate::snapshot::{
    DirTreeV,
    EntryV,
    tree_songs,
    tree_dirs,
    entries_songs,
    entries_dirs,
    dir_songs,
    dir_row,
    collapse,
    last_some,
    years_from,
    albums_from,
    artists_from,
    scan_files,
    song_row,
};
use crate::table::{
    upsert_all,
    keys_of,
    keys_distinct,
    lemma_upsert_all,
    lemma_keys_of,
    lemma_has_key_keys_of,
    lemma_index_of_key,
    lemma_len_keys,
    lemma_filter_distinct,
    index_of_key,
};
use crate::update::{
    updated_songs,
    updated_dirs,
    cleaned_songs,
    cleaned_dirs,
    keep_song,
    keep_dir,
    forest_songs,
    forest_dirs,
    pattern_of,
};
use crate::queries::{virt_song, virt_songs_seq, virt_dirs_seq, virt_song_fn, virt_dir_fn};
use crate::vfs::{MountV, rtv_spec, head_of, lemma_no_sep};

/// Every mount is named by a non-empty, separator-free component.
pub open spec fn mount_names_wf(mounts: Seq<MountV>) -> bool {
    &&& forall|i: int| 0 <= i < mounts.len() ==> (#[trigger] mounts[i].name).len() > 0
    &&& forall|i: int, k: int|
        0 <= i < mounts.len() && 0 <= k < mounts[i].name.len() ==> (#[trigger] mounts[i].name[k])
            != '/'
}

proof fn lemma_head_of_prefixed(name: Seq<char>, rest: Seq<char>)
    requires
        name.len() > 0,
        forall|k: int| 0 <= k < name.len() ==> name[k] != '/',
    ensures
        head_of(name + seq!['/'] + rest) == name,
    decreases name.len(),
{
    let whole = name + seq!['/'] + rest;
    assert(whole[0] == name[0]);
    if name.len() == 1 {
        assert(whole.drop_first()[0] == '/');
        assert(whole.drop_first().len() > 0);
        assert(head_of(whole.drop_first()) =~= Seq::<char>::empty());
        assert(head_of(whole) == seq![whole[0]] + head_of(whole.drop_first()));
        assert(seq![whole[0]] + head_of(whole.drop_first()) =~= name);
    } else {
        lemma_head_of_prefixed(name.drop_first(), rest);
        assert(whole.drop_first() =~= name.drop_first() + seq!['/'] + rest);
        assert(seq![name[0]] + name.drop_first() =~= name);
    }
}

/// Virtualization totality: a real path's virtual form always starts with
/// the name of the mount it was rewritten under.
pub proof fn lemma_virtualization_totality(mounts: Seq<MountV>, rp: Seq<char>)
    requires
        mount_names_wf(mounts),
        rtv_spec(mounts, rp) is Some,
    ensures
        exists|m: int|
            0 <= m < mounts.len() && head_of(rtv_spec(mounts, rp).unwrap()) == (
            #[trigger] mounts[m]).name,
    decreases mounts.len(),
{
    if rp == mounts[0].real {
        lemma_no_sep(mounts[0].name);
        assert(head_of(rtv_spec(mounts, rp).unwrap()) == mounts[0].name);
    } else if crate::vfs::strictly_under(mounts[0].real, rp) {
        lemma_head_of_prefixed(mounts[0].name, rp.skip(mounts[0].real.len() + 1 as int));
        assert(head_of(rtv_spec(mounts, rp).unwrap()) == mounts[0].name);
    } else {
        lemma_virtualization_totality(mounts.drop_first(), rp);
        let m = choose|m: int|
            0 <= m < mounts.drop_first().len() && head_of(
                rtv_spec(mounts.drop_first(), rp).unwrap(),
            ) == (#[trigger] mounts.drop_first()[m]).name;
        assert(mounts[m + 1].name == mounts.drop_first()[m].name);
    }
}

/// Every song a query returns has a path whose first component is a known
/// mount name: the queries' contracts say each returned song is
/// `virt_song` of a stored row, and this law covers every such value.
pub proof fn lemma_song_results_virtual(mounts: Seq<MountV>, rows: Seq<SongV>)
    requires
        mount_names_wf(mounts),
    ensures
        forall|i: int|
            0 <= i < virt_songs_seq(mounts, rows).len() ==> exists|m: int|
                0 <= m < mounts.len() && head_of(
                    (#[trigger] virt_songs_seq(mounts, rows)[i]).path,
                ) == mounts[m].name,
{
    let out = virt_songs_seq(mounts, rows);
    assert forall|i: int| 0 <= i < out.len() implies exists|m: int|
        0 <= m < mounts.len() && head_of((#[trigger] out[i]).path) == mounts[m].name by {
        assert(out.contains(out[i]));
        rows.lemma_filter_map_contains(virt_song_fn(mounts), out[i]);
        let src = choose|t: SongV| #[trigger] rows.contains(t) && virt_song_fn(mounts)(t) == Some(
            out[i],
        );
        assert(out[i].path == rtv_spec(mounts, src.path).unwrap());
        lemma_virtualization_totality(mounts, src.path);
    }
}

/// The same, for directories.
pub proof fn lemma_dir_results_virtual(mounts: Seq<MountV>, rows: Seq<DirV>)
    requires
        mount_names_wf(mounts),
    ensures
        forall|i: int|
            0 <= i < virt_dirs_seq(mounts, rows).len() ==> exists|m: int|
                0 <= m < mounts.len() && head_of(
                    (#[trigger] virt_dirs_seq(mounts, rows)[i]).path,
                ) == mounts[m].name,
{
    let out = virt_dirs_seq(mounts, rows);
    assert forall|i: int| 0 <= i < out.len() implies exists|m: int|
        0 <= m < mounts.len() && head_of((#[trigger] out[i]).path) == mounts[m].name by {
        assert(out.contains(out[i]));
        rows.lemma_filter_map_contains(virt_dir_fn(mounts), out[i]);
        let src = choose|t: DirV| #[trigger] rows.contains(t) && virt_dir_fn(mounts)(t) == Some(
            out[i],
        );
        assert(out[i].path == rtv_spec(mounts, src.path).unwrap());
        lemma_virtualization_totality(mounts, src.path);
    }
}

/// The last supplied value is one of the supplied values, and exists as
/// soon as any value was supplied.
proof fn lemma_last_some_membership<V>(vs: Seq<Option<V>>)
    ensures
        last_some(vs) is Some ==> exists|i: int| 0 <= i < vs.len() && #[trigger] vs[i] == last_some(
            vs,
        ),
        (exists|i: int| 0 <= i < vs.len() && (#[trigger] vs[i]) is Some) ==> last_some(vs) is Some,
    decreases vs.len(),
{
    if vs.len() > 0 {
        lemma_last_some_membership(vs.drop_last());
        if vs[vs.len() - 1] is Some {
        } else {
            if exists|i: int| 0 <= i < vs.len() && (#[trigger] vs[i]) is Some {
                let i = choose|i: int| 0 <= i < vs.len() && (#[trigger] vs[i]) is Some;
                assert(i < vs.len() - 1);
                assert(vs.drop_last()[i] is Some);
            }
            if last_some(vs) is Some {
                let i = choose|i: int|
                    0 <= i < vs.drop_last().len() && #[trigger] vs.drop_last()[i] == last_some(
                        vs.drop_last(),
                    );
                assert(vs[i] == last_some(vs));
            }
        }
    }
}

/// Aggregate collapse: two distinct supplied values leave the field null;
/// a single supplied value becomes the field; no supplied value leaves it
/// null.
pub proof fn lemma_aggregate_collapse<V>(vs: Seq<Option<V>>)
    ensures
        (exists|i: int, j: int|
            0 <= i < vs.len() && 0 <= j < vs.len() && vs[i] is Some && vs[j] is Some && vs[i]
                != vs[j]) ==> collapse(vs) is None,
        (forall|i: int| 0 <= i < vs.len() ==> (#[trigger] vs[i]) is None) ==> collapse(vs) is None,
        forall|v: V|
            ((exists|i: int| 0 <= i < vs.len() && #[trigger] vs[i] == Some(v)) && (forall|i: int|
                0 <= i < vs.len() && (#[trigger] vs[i]) is Some ==> vs[i] == Some(v))) ==> collapse(
                vs,
            ) == Some(v),
{
    lemma_last_some_membership(vs);
    assert forall|v: V|
        ((exists|i: int| 0 <= i < vs.len() && #[trigger] vs[i] == Some(v)) && (forall|i: int|
            0 <= i < vs.len() && (#[trigger] vs[i]) is Some ==> vs[i] == Some(v))) implies collapse(
        vs,
    ) == Some(v) by {
        if (exists|i: int| 0 <= i < vs.len() && #[trigger] vs[i] == Some(v)) && (forall|i: int|
            0 <= i < vs.len() && (#[trigger] vs[i]) is Some ==> vs[i] == Some(v)) {
            assert(last_some(vs) is Some);
            let i = choose|i: int| 0 <= i < vs.len() && #[trigger] vs[i] == last_some(vs);
            assert(vs[i] == Some(v));
        }
    }
}

/// The inferred aggregates of a scanned directory obey the collapse rule
/// for each of year, album and artist.
pub proof fn lemma_directory_aggregates(t: DirTreeV, parent: Option<Seq<char>>, pat: Seq<char>)
    ensures
        dir_row(t, parent, pat).year == collapse(years_from(t, 0)),
        dir_row(t, parent, pat).album == collapse(albums_from(t, 0)),
        dir_row(t, parent, pat).artist == collapse(artists_from(t, 0)),
        (exists|i: int, j: int|
            0 <= i < years_from(t, 0).len() && 0 <= j < years_from(t, 0).len() && years_from(
                t,
                0,
            )[i] is Some && years_from(t, 0)[j] is Some && years_from(t, 0)[i] != years_from(
                t,
                0,
            )[j]) ==> dir_row(t, parent, pat).year is None,
        (forall|i: int|
            0 <= i < years_from(t, 0).len() ==> (#[trigger] years_from(t, 0)[i]) is None)
            ==> dir_row(t, parent, pat).year is None,
        forall|v: i32|
            ((exists|i: int| 0 <= i < years_from(t, 0).len() && #[trigger] years_from(t, 0)[i]
                == Some(v)) && (forall|i: int|
                0 <= i < years_from(t, 0).len() && (#[trigger] years_from(t, 0)[i]) is Some
                    ==> years_from(t, 0)[i] == Some(v))) ==> dir_row(t, parent, pat).year == Some(
                v,
            ),
{
    lemma_aggregate_collapse(years_from(t, 0));
    lemma_aggregate_collapse(albums_from(t, 0));
    lemma_aggregate_collapse(artists_from(t, 0));
}

proof fn lemma_tree_dirs_parent(t: DirTreeV, par: Option<Seq<char>>, pat: Seq<char>)
    ensures
        forall|i: int|
            0 <= i < tree_dirs(t, par, pat).len() && (#[trigger] tree_dirs(t, par, pat)[i]).parent
                is None ==> par is None && tree_dirs(t, par, pat)[i].path == t.path,
    decreases t, 0int,
{
    lemma_entries_dirs_parent(t.entries, 0, t.path, pat);
    let rows = tree_dirs(t, par, pat);
    assert forall|i: int|
        0 <= i < rows.len() && (#[trigger] rows[i]).parent is None implies par is None && rows[i].path
        == t.path by {
        if i == 0 {
            assert(rows[0] == dir_row(t, par, pat));
        } else {
            assert(rows[i] == entries_dirs(t.entries, 0, t.path, pat)[i - 1]);
        }
    }
}

proof fn lemma_entries_dirs_parent(entries: Seq<EntryV>, i: int, pp: Seq<char>, pat: Seq<char>)
    ensures
        forall|k: int|
            0 <= k < entries_dirs(entries, i, pp, pat).len() ==> !((#[trigger] entries_dirs(
                entries,
                i,
                pp,
                pat,
            )[k]).parent is None),
    decreases entries, entries.len() - i,
{
    if 0 <= i < entries.len() {
        match entries[i] {
            EntryV::ReadError => {},
            EntryV::File { .. } => {
                lemma_entries_dirs_parent(entries, i + 1, pp, pat);
            },
            EntryV::Subdir { dir, .. } => {
                lemma_tree_dirs_parent(dir, Some(pp), pat);
                lemma_entries_dirs_parent(entries, i + 1, pp, pat);
                let sub = tree_dirs(dir, Some(pp), pat);
                let rest = entries_dirs(entries, i + 1, pp, pat);
                assert forall|k: int|
                    0 <= k < entries_dirs(entries, i, pp, pat).len() implies !((
                #[trigger] entries_dirs(entries, i, pp, pat)[k]).parent is None) by {
                    if k < sub.len() {
                        assert(entries_dirs(entries, i, pp, pat)[k] == sub[k]);
                    } else {
                        assert(entries_dirs(entries, i, pp, pat)[k] == rest[k - sub.len()]);
                    }
                }
            },
        }
    }
}

proof fn lemma_forest_dirs_parent(ts: Seq<DirTreeV>, pat: Seq<char>)
    ensures
        forall|i: int|
            0 <= i < forest_dirs(ts, pat).len() && (#[trigger] forest_dirs(ts, pat)[i]).parent
                is None ==> exists|j: int|
                0 <= j < ts.len() && forest_dirs(ts, pat)[i].path == (#[trigger] ts[j]).path,
    decreases ts.len(),
{
    if ts.len() > 0 {
        lemma_tree_dirs_parent(ts[0], None, pat);
        lemma_forest_dirs_parent(ts.drop_first(), pat);
        let head = tree_dirs(ts[0], None, pat);
        let rest = forest_dirs(ts.drop_first(), pat);
        assert forall|i: int|
            0 <= i < forest_dirs(ts, pat).len() && (#[trigger] forest_dirs(ts, pat)[i]).parent
                is None implies exists|j: int|
            0 <= j < ts.len() && forest_dirs(ts, pat)[i].path == (#[trigger] ts[j]).path by {
            if i < head.len() {
                assert(forest_dirs(ts, pat)[i] == head[i]);
                assert(forest_dirs(ts, pat)[i].path == ts[0].path);
            } else {
                assert(forest_dirs(ts, pat)[i] == rest[i - head.len()]);
                let j = choose|j: int|
                    0 <= j < ts.drop_first().len() && rest[i - head.len()].path == (
                    #[trigger] ts.drop_first()[j]).path;
                assert(ts[j + 1] == ts.drop_first()[j]);
            }
        }
    }
}

/// Mount-root parents: after a reindex whose surviving directory rows all
/// lie at paths the scan re-emits, every directory row with a null parent
/// sits at some mount's real root. A stale directory row at an on-disk
/// path that the scan does not emit as a directory is the one input this
/// cannot hold of, so such rows are excluded by the last premise.
pub proof fn lemma_mount_root_parents(d: DbV, existing: Seq<Seq<char>>, forest: Seq<DirTreeV>)
    requires
        db_wf(d),
        forest.len() == d.mounts.len(),
        forall|j: int| 0 <= j < forest.len() ==> (#[trigger] forest[j]).path == d.mounts[j].real,
        forall|i: int|
            0 <= i < d.dirs.len() && #[trigger] keep_dir(existing, d.mounts)(d.dirs[i]) ==> keys_of(
                forest_dirs(forest, pattern_of(d)),
                dir_key(),
            ).contains(d.dirs[i].path),
    ensures
        forall|i: int|
            0 <= i < updated_dirs(d, existing, forest).len() && (#[trigger] updated_dirs(
                d,
                existing,
                forest,
            )[i]).parent is None ==> exists|m: int|
                0 <= m < d.mounts.len() && updated_dirs(d, existing, forest)[i].path == (
                #[trigger] d.mounts[m]).real,
{
    let pat = pattern_of(d);
    let batch = forest_dirs(forest, pat);
    let cleaned = cleaned_dirs(d, existing);
    let out = updated_dirs(d, existing, forest);
    lemma_filter_distinct(d.dirs, dir_key(), keep_dir(existing, d.mounts));
    lemma_upsert_all(cleaned, dir_key(), batch);
    lemma_forest_dirs_parent(forest, pat);
    assert forall|i: int|
        0 <= i < out.len() && (#[trigger] out[i]).parent is None implies exists|m: int|
        0 <= m < d.mounts.len() && out[i].path == (#[trigger] d.mounts[m]).real by {
        let row = out[i];
        if batch.contains(row) {
            let bi = choose|bi: int| 0 <= bi < batch.len() && batch[bi] == row;
            let j = choose|j: int| 0 <= j < forest.len() && batch[bi].path == (
            #[trigger] forest[j]).path;
            assert(row.path == d.mounts[j].real);
        } else {
            // a surviving old row: its key is one the scan re-emits, so the
            // upsert replaced it, a contradiction
            let ci = choose|ci: int| 0 <= ci < cleaned.len() && cleaned[ci] == row;
            d.dirs.lemma_filter_pred(keep_dir(existing, d.mounts), ci);
            d.dirs.lemma_filter_contains_rev(keep_dir(existing, d.mounts), row);
            let si = choose|si: int| 0 <= si < d.dirs.len() && d.dirs[si] == row;
            assert(keep_dir(existing, d.mounts)(d.dirs[si]));
            assert(keys_of(batch, dir_key()).contains(row.path));
            assert(false);
        }
    }
}

proof fn lemma_tree_songs_parent_at(t: DirTreeV, par: Option<Seq<char>>, pat: Seq<char>, i: int)
    requires
        0 <= i < tree_songs(t, pat).len(),
    ensures
        exists|k: int|
            0 <= k < tree_dirs(t, par, pat).len() && tree_songs(t, pat)[i].parent == (
            #[trigger] tree_dirs(t, par, pat)[k]).path,
    decreases t, 0int,
{
    let songs = tree_songs(t, pat);
    let dirs = tree_dirs(t, par, pat);
    let own = dir_songs(t, pat);
    let rec_songs = entries_songs(t.entries, 0, pat);
    let rec_dirs = entries_dirs(t.entries, 0, t.path, pat);
    if i < own.len() {
        assert(songs[i] == own[i]);
        assert(own[i].parent == t.path) by {
            assert(own[i] == song_row(
                t.path,
                crate::snapshot::artwork_scan(t.path, pat, t.entries, 0),
                scan_files(t.entries, 0)[i].0,
                scan_files(t.entries, 0)[i].1,
            ));
        }
        assert(dirs[0].path == t.path);
    } else {
        assert(songs[i] == rec_songs[i - own.len()]);
        lemma_entries_songs_parent_at(t.entries, 0, t.path, pat, i - own.len());
        let k = choose|k: int|
            0 <= k < rec_dirs.len() && rec_songs[i - own.len()].parent == (
            #[trigger] rec_dirs[k]).path;
        assert(dirs[k + 1] == rec_dirs[k]);
    }
}

proof fn lemma_entries_songs_parent_at(
    entries: Seq<EntryV>,
    j: int,
    pp: Seq<char>,
    pat: Seq<char>,
    s: int,
)
    requires
        0 <= s < entries_songs(entries, j, pat).len(),
    ensures
        exists|k: int|
            0 <= k < entries_dirs(entries, j, pp, pat).len() && entries_songs(entries, j, pat)[s].parent
                == (#[trigger] entries_dirs(entries, j, pp, pat)[k]).path,
    decreases entries, entries.len() - j,
{
    match entries[j] {
        EntryV::ReadError => {},
        EntryV::File { .. } => {
            lemma_entries_songs_parent_at(entries, j + 1, pp, pat, s);
            assert(entries_songs(entries, j, pat) == entries_songs(entries, j + 1, pat));
            assert(entries_dirs(entries, j, pp, pat) == entries_dirs(entries, j + 1, pp, pat));
        },
        EntryV::Subdir { dir, .. } => {
            let sub_songs = tree_songs(dir, pat);
            let sub_dirs = tree_dirs(dir, Some(pp), pat);
            let rest_songs = entries_songs(entries, j + 1, pat);
            let rest_dirs = entries_dirs(entries, j + 1, pp, pat);
            if s < sub_songs.len() {
                assert(entries_songs(entries, j, pat)[s] == sub_songs[s]);
                lemma_tree_songs_parent_at(dir, Some(pp), pat, s);
                let k = choose|k: int|
                    0 <= k < sub_dirs.len() && sub_songs[s].parent == (
                    #[trigger] sub_dirs[k]).path;
                assert(entries_dirs(entries, j, pp, pat)[k] == sub_dirs[k]);
            } else {
                assert(entries_songs(entries, j, pat)[s] == rest_songs[s - sub_songs.len()]);
                lemma_entries_songs_parent_at(entries, j + 1, pp, pat, s - sub_songs.len());
                let k = choose|k: int|
                    0 <= k < rest_dirs.len() && rest_songs[s - sub_songs.len()].parent == (
                    #[trigger] rest_dirs[k]).path;
                assert(entries_dirs(entries, j, pp, pat)[k + sub_dirs.len()] == rest_dirs[k]);
            }
        },
    }
}

proof fn lemma_forest_songs_parent_at(ts: Seq<DirTreeV>, pat: Seq<char>, i: int)
    requires
        0 <= i < forest_songs(ts, pat).len(),
    ensures
        exists|k: int|
            0 <= k < forest_dirs(ts, pat).len() && forest_songs(ts, pat)[i].parent == (
            #[trigger] forest_dirs(ts, pat)[k]).path,
    decreases ts.len(),
{
    let head_songs = tree_songs(ts[0], pat);
    let head_dirs = tree_dirs(ts[0], None, pat);
    let rest_songs = forest_songs(ts.drop_first(), pat);
    let rest_dirs = forest_dirs(ts.drop_first(), pat);
    if i < head_songs.len() {
        assert(forest_songs(ts, pat)[i] == head_songs[i]);
        lemma_tree_songs_parent_at(ts[0], None, pat, i);
        let k = choose|k: int|
            0 <= k < head_dirs.len() && head_songs[i].parent == (#[trigger] head_dirs[k]).path;
        assert(forest_dirs(ts, pat)[k] == head_dirs[k]);
    } else {
        assert(forest_songs(ts, pat)[i] == rest_songs[i - head_songs.len()]);
        lemma_forest_songs_parent_at(ts.drop_first(), pat, i - head_songs.len());
        let k = choose|k: int|
            0 <= k < rest_dirs.len() && rest_songs[i - head_songs.len()].parent == (
            #[trigger] rest_dirs[k]).path;
        assert(forest_dirs(ts, pat)[k + head_dirs.len()] == rest_dirs[k]);
    }
}

/// Parent linkage: after a reindex on a static tree, in which every
/// surviving song row lies at a path the scan catalogues as a song, every
/// song row's parent is some directory row's path. A stale song row at an
/// on-disk path the scan does not catalogue (an artwork file, say) is the
/// one input this cannot hold of, so such rows are excluded by the last
/// premise.
pub proof fn lemma_parent_linkage(d: DbV, existing: Seq<Seq<char>>, forest: Seq<DirTreeV>)
    requires
        db_wf(d),
        forall|i: int|
            0 <= i < d.songs.len() && #[trigger] keep_song(existing, d.mounts)(d.songs[i])
                ==> keys_of(forest_songs(forest, pattern_of(d)), song_key()).contains(
                d.songs[i].path,
            ),
    ensures
        forall|i: int|
            0 <= i < updated_songs(d, existing, forest).len() ==> exists|j: int|
                0 <= j < updated_dirs(d, existing, forest).len() && (#[trigger] updated_songs(
                    d,
                    existing,
                    forest,
                )[i]).parent == updated_dirs(d, existing, forest)[j].path,
{
    let pat = pattern_of(d);
    let sbatch = forest_songs(forest, pat);
    let dbatch = forest_dirs(forest, pat);
    let scleaned = cleaned_songs(d, existing);
    let dcleaned = cleaned_dirs(d, existing);
    let sout = updated_songs(d, existing, forest);
    let dout = updated_dirs(d, existing, forest);
    lemma_filter_distinct(d.songs, song_key(), keep_song(existing, d.mounts));
    lemma_filter_distinct(d.dirs, dir_key(), keep_dir(existing, d.mounts));
    lemma_upsert_all(scleaned, song_key(), sbatch);
    lemma_upsert_all(dcleaned, dir_key(), dbatch);
    assert forall|i: int| 0 <= i < sout.len() implies exists|j: int|
        0 <= j < dout.len() && (#[trigger] sout[i]).parent == dout[j].path by {
        let row = sout[i];
        if sbatch.contains(row) {
            let bi = choose|bi: int| 0 <= bi < sbatch.len() && sbatch[bi] == row;
            lemma_forest_songs_parent_at(forest, pat, bi);
            let k = choose|k: int|
                0 <= k < dbatch.len() && sbatch[bi].parent == (#[trigger] dbatch[k]).path;
            // the emitted directory's key survives into the final table
            lemma_keys_of(dbatch, dir_key(), dbatch[k].path);
            assert(keys_of(dbatch, dir_key()).contains(dbatch[k].path));
            assert(keys_of(dout, dir_key()).contains(dbatch[k].path));
            lemma_has_key_keys_of(dout, dir_key(), dbatch[k].path);
            lemma_index_of_key(dout, dir_key(), dbatch[k].path);
            let j = index_of_key(dout, dir_key(), dbatch[k].path);
            assert(dout[j].path == row.parent);
        } else {
            let ci = choose|ci: int| 0 <= ci < scleaned.len() && scleaned[ci] == row;
            d.songs.lemma_filter_pred(keep_song(existing, d.mounts), ci);
            d.songs.lemma_filter_contains_rev(keep_song(existing, d.mounts), row);
            let si = choose|si: int| 0 <= si < d.songs.len() && d.songs[si] == row;
            assert(keep_song(existing, d.mounts)(d.songs[si]));
            assert(keys_of(sbatch, song_key()).contains(row.path));
            assert(false);
        }
    }
}

/// A table's keys after a reconciliation: exactly the old keys that pass
/// the survival test, which looks at the path alone.
pub open spec fn keep_key(existing: Seq<Seq<char>>, mounts: Seq<MountV>, k: Seq<char>) -> bool {
    existing.contains(k) && crate::vfs::virtualizable(mounts, k)
}

/// Idempotent reindex: running the same reindex again, over the same tree
/// and the same set of on-disk paths, leaves both row counts unchanged.
pub proof fn lemma_reindex_idempotent(d: DbV, existing: Seq<Seq<char>>, forest: Seq<DirTreeV>)
    requires
        db_wf(d),
    ensures
        ({
            let once = DbV {
                songs: updated_songs(d, existing, forest),
                dirs: updated_dirs(d, existing, forest),
                settings: d.settings,
                mounts: d.mounts,
            };
            &&& updated_songs(once, existing, forest).len() == once.songs.len()
            &&& updated_dirs(once, existing, forest).len() == once.dirs.len()
        }),
{
    let once = DbV {
        songs: updated_songs(d, existing, forest),
        dirs: updated_dirs(d, existing, forest),
        settings: d.settings,
        mounts: d.mounts,
    };
    lemma_table_stable(
        d.songs,
        once.songs,
        song_key(),
        keep_song(existing, d.mounts),
        forest_songs(forest, pattern_of(d)),
        existing,
        d.mounts,
    );
    assert(updated_songs(once, existing, forest).len() == once.songs.len());
    lemma_table_stable_dirs(
        d.dirs,
        once.dirs,
        dir_key(),
        keep_dir(existing, d.mounts),
        forest_dirs(forest, pattern_of(d)),
        existing,
        d.mounts,
    );
}

/// The idempotence argument for the songs table.
proof fn lemma_table_stable(
    rows: Seq<SongV>,
    once: Seq<SongV>,
    key: spec_fn(SongV) -> Seq<char>,
    keep: spec_fn(SongV) -> bool,
    batch: Seq<SongV>,
    existing: Seq<Seq<char>>,
    mounts: Seq<MountV>,
)
    requires
        keys_distinct(rows, key),
        key == song_key(),
        keep == keep_song(existing, mounts),
        once == upsert_all(rows.filter(keep), key, batch),
    ensures
        upsert_all(once.filter(keep), key, batch).len() == once.len(),
{
    let cleaned1 = rows.filter(keep);
    let cleaned2 = once.filter(keep);
    let twice = upsert_all(cleaned2, key, batch);
    lemma_filter_distinct(rows, key, keep);
    lemma_upsert_all(cleaned1, key, batch);
    lemma_filter_distinct(once, key, keep);
    lemma_upsert_all(cleaned2, key, batch);
    assert(keys_of(twice, key) =~= keys_of(once, key)) by {
        assert forall|k: Seq<char>| #[trigger]
            keys_of(twice, key).contains(k) implies keys_of(once, key).contains(k) by {
            if keys_of(cleaned2, key).contains(k) {
                lemma_keys_of(cleaned2, key, k);
                let i = choose|i: int| 0 <= i < cleaned2.len() && key(#[trigger] cleaned2[i]) == k;
                once.lemma_filter_contains_rev(keep, cleaned2[i]);
                let oi = choose|oi: int| 0 <= oi < once.len() && once[oi] == cleaned2[i];
                lemma_keys_of(once, key, k);
            } else {
                assert(keys_of(batch, key).contains(k));
            }
        }
        assert forall|k: Seq<char>| #[trigger]
            keys_of(once, key).contains(k) implies keys_of(twice, key).contains(k) by {
            if keys_of(batch, key).contains(k) {
            } else {
                assert(keys_of(cleaned1, key).contains(k));
                lemma_keys_of(cleaned1, key, k);
                let i = choose|i: int| 0 <= i < cleaned1.len() && key(#[trigger] cleaned1[i]) == k;
                rows.lemma_filter_pred(keep, i);
                assert(keep(cleaned1[i]));
                // some row with this key stands in `once`, and the survival
                // test looks at the key alone, so it survives again
                lemma_has_key_keys_of(once, key, k);
                lemma_index_of_key(once, key, k);
                let oi = index_of_key(once, key, k);
                assert(keep(once[oi])) by {
                    assert(once[oi].path == k);
                    assert(cleaned1[i].path == k);
                }
                once.lemma_filter_contains(keep, oi);
                let ci = choose|ci: int| 0 <= ci < cleaned2.len() && cleaned2[ci] == once[oi];
                lemma_keys_of(cleaned2, key, k);
            }
        }
    }
    lemma_len_keys(twice, key);
    lemma_len_keys(once, key);
}

/// The idempotence argument for the directories table.
proof fn lemma_table_stable_dirs(
    rows: Seq<DirV>,
    once: Seq<DirV>,
    key: spec_fn(DirV) -> Seq<char>,
    keep: spec_fn(DirV) -> bool,
    batch: Seq<DirV>,
    existing: Seq<Seq<char>>,
    mounts: Seq<MountV>,
)
    requires
        keys_distinct(rows, key),
        key == dir_key(),
        keep == keep_dir(existing, mounts),
        once == upsert_all(rows.filter(keep), key, batch),
    ensures
        upsert_all(once.filter(keep), key, batch).len() == once.len(),
{
    let cleaned1 = rows.filter(keep);
    let cleaned2 = once.filter(keep);
    let twice = upsert_all(cleaned2, key, batch);
    lemma_filter_distinct(rows, key, keep);
    lemma_upsert_all(cleaned1, key, batch);
    lemma_filter_distinct(once, key, keep);
    lemma_upsert_all(cleaned2, key, batch);
    assert(keys_of(twice, key) =~= keys_of(once, key)) by {
        assert forall|k: Seq<char>| #[trigger]
            keys_of(twice, key).contains(k) implies keys_of(once, key).contains(k) by {
            if keys_of(cleaned2, key).contains(k) {
                lemma_keys_of(cleaned2, key, k);
                let i = choose|i: int| 0 <= i < cleaned2.len() && key(#[trigger] cleaned2[i]) == k;
                once.lemma_filter_contains_rev(keep, cleaned2[i]);
                let oi = choose|oi: int| 0 <= oi < once.len() && once[oi] == cleaned2[i];
                lemma_keys_of(once, key, k);
            } else {
                assert(keys_of(batch, key).contains(k));
            }
        }
        assert forall|k: Seq<char>| #[trigger]
            keys_of(once, key).contains(k) implies keys_of(twice, key).contains(k) by {
            if keys_of(batch, key).contains(k) {
            } else {
                assert(keys_of(cleaned1, key).contains(k));
                lemma_keys_of(cleaned1, key, k);
                let i = choose|i: int| 0 <= i < cleaned1.len() && key(#[trigger] cleaned1[i]) == k;
                rows.lemma_filter_pred(keep, i);
                assert(keep(cleaned1[i]));
                lemma_has_key_keys_of(once, key, k);
                lemma_index_of_key(once, key, k);
                let oi = index_of_key(once, key, k);
                assert(keep(once[oi])) by {
                    assert(once[oi].path == k);
                    assert(cleaned1[i].path == k);
                }
                once.lemma_filter_contains(keep, oi);
                let ci = choose|ci: int| 0 <= ci < cleaned2.len() && cleaned2[ci] == once[oi];
                lemma_keys_of(cleaned2, key, k);
            }
        }
    }
    lemma_len_keys(twice, key);
    lemma_len_keys(once, key);
}

} // verus!
