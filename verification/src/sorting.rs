//! The orders queries return rows in: case-insensitive path order for
//! browsing, binary path order for flattening, newest-first for recent
//! albums. Sorting is stable, so rows with equal keys keep store order.

use vstd::prelude::*;

verus! {

use crate::rows::{Song, SongV, Directory, DirV};
use crate::db::{songs_v, dirs_v};
use crate::strings::{lex_lt, folded, codes, nocase_lt, binary_lt};

/// Insertion of one row into a sorted run: before the first row strictly
/// greater than it, after every equal one.
pub open spec fn insert_by<R>(lt: spec_fn(R, R) -> bool, x: R, s: Seq<R>) -> Seq<R>
    decreases s.len(),
{
    if s.len() == 0 {
        seq![x]
    } else if lt(x, s[0]) {
        seq![x] + s
    } else {
        seq![s[0]] + insert_by(lt, x, s.drop_first())
    }
}

/// Stable insertion sort, first row first.
pub open spec fn sort_by_spec<R>(lt: spec_fn(R, R) -> bool, s: Seq<R>) -> Seq<R>
    decreases s.len(),
{
    if s.len() == 0 {
        s
    } else {
        insert_by(lt, s.last(), sort_by_spec(lt, s.drop_last()))
    }
}

/// Case-insensitive path order on songs.
pub open spec fn song_nocase_lt() -> spec_fn(SongV, SongV) -> bool {
    |a: SongV, b: SongV| lex_lt(folded(a.path), folded(b.path))
}

/// Case-insensitive path order on directories.
pub open spec fn dir_nocase_lt() -> spec_fn(DirV, DirV) -> bool {
    |a: DirV, b: DirV| lex_lt(folded(a.path), folded(b.path))
}

/// Binary path order on songs.
pub open spec fn song_path_lt() -> spec_fn(SongV, SongV) -> bool {
    |a: SongV, b: SongV| lex_lt(codes(a.path), codes(b.path))
}

/// Newest-first order on directories.
pub open spec fn dir_recent_lt() -> spec_fn(DirV, DirV) -> bool {
    |a: DirV, b: DirV| a.date_added > b.date_added
}

/// A run is sorted under `lt` when no later row is strictly below an
/// earlier one.
pub open spec fn sorted_seq<R>(lt: spec_fn(R, R) -> bool, s: Seq<R>) -> bool {
    forall|i: int, j: int| 0 <= i < j < s.len() ==> !lt(#[trigger] s[j], #[trigger] s[i])
}

/// `lt` behaves as a strict order: transitive and asymmetric.
pub open spec fn strict_order<R>(lt: spec_fn(R, R) -> bool) -> bool {
    &&& forall|x: R, y: R, z: R| #![trigger lt(x, y), lt(y, z)] lt(x, y) && lt(y, z) ==> lt(x, z)
    &&& forall|x: R, y: R| #[trigger] lt(x, y) ==> !lt(y, x)
}

/// Every row of an insertion is the inserted row or one of the run's.
proof fn lemma_insert_by_membership<R>(lt: spec_fn(R, R) -> bool, x: R, s: Seq<R>)
    ensures
        forall|k: int|
            0 <= k < insert_by(lt, x, s).len() ==> insert_by(lt, x, s)[k] == x || s.contains(
                #[trigger] insert_by(lt, x, s)[k],
            ),
    decreases s.len(),
{
    if s.len() > 0 && !lt(x, s[0]) {
        lemma_insert_by_membership(lt, x, s.drop_first());
        assert forall|k: int|
            0 <= k < insert_by(lt, x, s).len() implies insert_by(lt, x, s)[k] == x || s.contains(
            #[trigger] insert_by(lt, x, s)[k],
        ) by {
            if k == 0 {
                assert(s.contains(s[0]));
            } else {
                let inner = insert_by(lt, x, s.drop_first());
                assert(insert_by(lt, x, s)[k] == inner[k - 1]);
                if inner[k - 1] != x {
                    let m = choose|m: int|
                        0 <= m < s.drop_first().len() && s.drop_first()[m] == inner[k - 1];
                    assert(s[m + 1] == inner[k - 1]);
                }
            }
        }
    }
}

/// Inserting into a sorted run keeps it sorted.
proof fn lemma_insert_by_sorted<R>(lt: spec_fn(R, R) -> bool, x: R, s: Seq<R>)
    requires
        strict_order(lt),
        sorted_seq(lt, s),
    ensures
        sorted_seq(lt, insert_by(lt, x, s)),
    decreases s.len(),
{
    let out = insert_by(lt, x, s);
    if s.len() == 0 {
    } else if lt(x, s[0]) {
        assert forall|i: int, j: int| 0 <= i < j < out.len() implies !lt(
            #[trigger] out[j],
            #[trigger] out[i],
        ) by {
            if i == 0 {
                // out[j] is s[j-1]; were it below x it would be below s[0]
                assert(out[j] == s[j - 1]);
                if j > 1 {
                    assert(!lt(s[j - 1], s[0]));
                }
            } else {
                assert(out[i] == s[i - 1] && out[j] == s[j - 1]);
            }
        }
    } else {
        lemma_insert_by_sorted(lt, x, s.drop_first());
        lemma_insert_by_membership(lt, x, s.drop_first());
        let inner = insert_by(lt, x, s.drop_first());
        assert forall|i: int, j: int| 0 <= i < j < out.len() implies !lt(
            #[trigger] out[j],
            #[trigger] out[i],
        ) by {
            if i == 0 {
                assert(out[j] == inner[j - 1]);
                if inner[j - 1] == x {
                } else {
                    let m = choose|m: int|
                        0 <= m < s.drop_first().len() && s.drop_first()[m] == inner[j - 1];
                    assert(s[m + 1] == inner[j - 1]);
                    assert(!lt(s[m + 1], s[0]));
                }
            } else {
                assert(out[i] == inner[i - 1] && out[j] == inner[j - 1]);
            }
        }
    }
}

/// What the queries sort by really is an order, and what they hand out
/// really is sorted: the browse and flatten listings under their path
/// orders, and the recent albums newest first.
pub proof fn lemma_sort_by_sorted<R>(lt: spec_fn(R, R) -> bool, s: Seq<R>)
    requires
        strict_order(lt),
    ensures
        sorted_seq(lt, sort_by_spec(lt, s)),
    decreases s.len(),
{
    if s.len() > 0 {
        lemma_sort_by_sorted(lt, s.drop_last());
        lemma_insert_by_sorted(lt, s.last(), sort_by_spec(lt, s.drop_last()));
    }
}

/// The case-insensitive and binary path orders are strict orders, as is
/// the newest-first order, so the sorted listings are sorted in fact.
pub proof fn lemma_query_orders_strict()
    ensures
        strict_order(song_nocase_lt()),
        strict_order(dir_nocase_lt()),
        strict_order(song_path_lt()),
        strict_order(dir_recent_lt()),
{
    assert forall|x: SongV, y: SongV, z: SongV| #![trigger song_nocase_lt()(x, y), song_nocase_lt()(y, z)]
        song_nocase_lt()(x, y) && song_nocase_lt()(y, z) implies song_nocase_lt()(x, z) by {
        crate::strings::lemma_lex_lt_trans(folded(x.path), folded(y.path), folded(z.path));
    }
    assert forall|x: SongV, y: SongV| #[trigger]
        song_nocase_lt()(x, y) implies !song_nocase_lt()(y, x) by {
        crate::strings::lemma_lex_lt_asym(folded(x.path), folded(y.path));
    }
    assert forall|x: DirV, y: DirV, z: DirV| #![trigger dir_nocase_lt()(x, y), dir_nocase_lt()(y, z)]
        dir_nocase_lt()(x, y) && dir_nocase_lt()(y, z) implies dir_nocase_lt()(x, z) by {
        crate::strings::lemma_lex_lt_trans(folded(x.path), folded(y.path), folded(z.path));
    }
    assert forall|x: DirV, y: DirV| #[trigger]
        dir_nocase_lt()(x, y) implies !dir_nocase_lt()(y, x) by {
        crate::strings::lemma_lex_lt_asym(folded(x.path), folded(y.path));
    }
    assert forall|x: SongV, y: SongV, z: SongV| #![trigger song_path_lt()(x, y), song_path_lt()(y, z)]
        song_path_lt()(x, y) && song_path_lt()(y, z) implies song_path_lt()(x, z) by {
        crate::strings::lemma_lex_lt_trans(codes(x.path), codes(y.path), codes(z.path));
    }
    assert forall|x: SongV, y: SongV| #[trigger]
        song_path_lt()(x, y) implies !song_path_lt()(y, x) by {
        crate::strings::lemma_lex_lt_asym(codes(x.path), codes(y.path));
    }
}

/// Inserting at the position the comparator picks is `insert_by`.
proof fn lemma_insert_by_at<R>(lt: spec_fn(R, R) -> bool, x: R, s: Seq<R>, j: int)
    requires
        0 <= j <= s.len(),
        forall|k: int| 0 <= k < j ==> !lt(x, #[trigger] s[k]),
        j < s.len() ==> lt(x, s[j]),
    ensures
        insert_by(lt, x, s) == s.take(j) + seq![x] + s.skip(j),
    decreases j,
{
    if j == 0 {
        if s.len() == 0 {
            assert(insert_by(lt, x, s) =~= s.take(0) + seq![x] + s.skip(0));
        } else {
            assert(insert_by(lt, x, s) == seq![x] + s);
            assert(seq![x] + s =~= s.take(0) + seq![x] + s.skip(0));
        }
    } else {
        assert(!lt(x, s[0]));
        lemma_insert_by_at(lt, x, s.drop_first(), j - 1);
        assert(s.drop_first().take(j - 1) =~= s.take(j).drop_first());
        assert(s.drop_first().skip(j - 1) =~= s.skip(j));
        assert(seq![s[0]] + (s.take(j).drop_first() + seq![x] + s.skip(j)) =~= s.take(j) + seq![x]
            + s.skip(j));
    }
}

/// Songs in case-insensitive or binary path order.
pub fn sort_songs(v: &Vec<Song>, fold: bool) -> (r: Vec<Song>)
    ensures
        fold ==> songs_v(r@) == sort_by_spec(song_nocase_lt(), songs_v(v@)),
        !fold ==> songs_v(r@) == sort_by_spec(song_path_lt(), songs_v(v@)),
{
    let ghost lt = if fold {
        song_nocase_lt()
    } else {
        song_path_lt()
    };
    let ghost input = songs_v(v@);
    let mut out: Vec<Song> = Vec::new();
    proof {
        assert(songs_v(out@) =~= sort_by_spec(lt, input.take(0)));
        assert(input.take(0) =~= Seq::<SongV>::empty());
    }
    let n = v.len();
    let mut i: usize = 0;
    #[verifier::loop_isolation(false)]
    while i < n
        invariant
            i <= n,
            songs_v(out@) == sort_by_spec(lt, input.take(i as int)),
        decreases n - i,
    {
        let x = v[i].duplicate();
        let ghost sorted = songs_v(out@);
        let m = out.len();
        let mut j: usize = 0;
        #[verifier::loop_isolation(false)]
        while j < m
            invariant
                j <= m,
                m == sorted.len(),
                songs_v(out@) == sorted,
                forall|k: int| 0 <= k < j ==> !lt(x@, #[trigger] sorted[k]),
            decreases m - j,
        {
            let less = if fold {
                nocase_lt(x.path.as_str(), out[j].path.as_str())
            } else {
                binary_lt(x.path.as_str(), out[j].path.as_str())
            };
            if less {
                assert(lt(x@, sorted[j as int]));
                break ;
            }
            assert(!lt(x@, sorted[j as int]));
            j = j + 1;
        }
        proof {
            lemma_insert_by_at(lt, x@, sorted, j as int);
        }
        out.insert(j, x);
        proof {
            assert(songs_v(out@) =~= sorted.take(j as int) + seq![x@] + sorted.skip(j as int));
            assert(input.take(i as int + 1).drop_last() =~= input.take(i as int));
            assert(input.take(i as int + 1).last() == input[i as int]);
            assert(songs_v(out@) == sort_by_spec(lt, input.take(i as int + 1)));
        }
        i = i + 1;
    }
    proof {
        assert(input.take(n as int) =~= input);
    }
    out
}

/// Directories in case-insensitive path order or newest-first order.
pub fn sort_directories(v: &Vec<Directory>, by_date: bool) -> (r: Vec<Directory>)
    ensures
        by_date ==> dirs_v(r@) == sort_by_spec(dir_recent_lt(), dirs_v(v@)),
        !by_date ==> dirs_v(r@) == sort_by_spec(dir_nocase_lt(), dirs_v(v@)),
{
    let ghost lt = if by_date {
        dir_recent_lt()
    } else {
        dir_nocase_lt()
    };
    let ghost input = dirs_v(v@);
    let mut out: Vec<Directory> = Vec::new();
    proof {
        assert(dirs_v(out@) =~= sort_by_spec(lt, input.take(0)));
        assert(input.take(0) =~= Seq::<DirV>::empty());
    }
    let n = v.len();
    let mut i: usize = 0;
    #[verifier::loop_isolation(false)]
    while i < n
        invariant
            i <= n,
            dirs_v(out@) == sort_by_spec(lt, input.take(i as int)),
        decreases n - i,
    {
        let x = v[i].duplicate();
        let ghost sorted = dirs_v(out@);
        let m = out.len();
        let mut j: usize = 0;
        #[verifier::loop_isolation(false)]
        while j < m
            invariant
                j <= m,
                m == sorted.len(),
                dirs_v(out@) == sorted,
                forall|k: int| 0 <= k < j ==> !lt(x@, #[trigger] sorted[k]),
            decreases m - j,
        {
            let less = if by_date {
                x.date_added > out[j].date_added
            } else {
                nocase_lt(x.path.as_str(), out[j].path.as_str())
            };
            if less {
                assert(lt(x@, sorted[j as int]));
                break ;
            }
            assert(!lt(x@, sorted[j as int]));
            j = j + 1;
        }
        proof {
            lemma_insert_by_at(lt, x@, sorted, j as int);
        }
        out.insert(j, x);
        proof {
            assert(dirs_v(out@) =~= sorted.take(j as int) + seq![x@] + sorted.skip(j as int));
            assert(input.take(i as int + 1).drop_last() =~= input.take(i as int));
            assert(input.take(i as int + 1).last() == input[i as int]);
            assert(dirs_v(out@) == sort_by_spec(lt, input.take(i as int + 1)));
        }
        i = i + 1;
    }
    proof {
        assert(input.take(n as int) =~= input);
    }
    out
}

} // verus!
