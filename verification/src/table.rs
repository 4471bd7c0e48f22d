//! The semantics of one catalog table: rows keyed by a unique path, where
//! inserting a row whose key is already present replaces the old row in
//! place, as the store's unique-path conflict handling does.

use vstd::prelude::*;

verus! {

/// The position of the first row with key `k`, or -1 when no row has it.
pub open spec fn index_of_key<R>(rows: Seq<R>, key: spec_fn(R) -> Seq<char>, k: Seq<char>) -> int
    decreases rows.len(),
{
    if rows.len() == 0 {
        -1
    } else if key(rows[0]) == k {
        0
    } else {
        let j = index_of_key(rows.drop_first(), key, k);
        if j < 0 {
            -1
        } else {
            j + 1
        }
    }
}

/// Some row has key `k`.
pub open spec fn has_key<R>(rows: Seq<R>, key: spec_fn(R) -> Seq<char>, k: Seq<char>) -> bool {
    index_of_key(rows, key, k) >= 0
}

/// The first row with key `k`.
pub open spec fn row_at<R>(rows: Seq<R>, key: spec_fn(R) -> Seq<char>, k: Seq<char>) -> R {
    rows[index_of_key(rows, key, k)]
}

/// One row upserted: replaced in place when its key is present, appended
/// otherwise.
pub open spec fn upsert_one<R>(rows: Seq<R>, key: spec_fn(R) -> Seq<char>, r: R) -> Seq<R> {
    let j = index_of_key(rows, key, key(r));
    if j < 0 {
        rows.push(r)
    } else {
        rows.update(j, r)
    }
}

/// A whole batch upserted, first row first.
pub open spec fn upsert_all<R>(rows: Seq<R>, key: spec_fn(R) -> Seq<char>, batch: Seq<R>) -> Seq<
    R,
>
    decreases batch.len(),
{
    if batch.len() == 0 {
        rows
    } else {
        upsert_all(upsert_one(rows, key, batch[0]), key, batch.drop_first())
    }
}

/// The set of keys the rows carry.
pub open spec fn keys_of<R>(rows: Seq<R>, key: spec_fn(R) -> Seq<char>) -> Set<Seq<char>> {
    rows.map_values(key).to_set()
}

/// No two rows share a key.
pub open spec fn keys_distinct<R>(rows: Seq<R>, key: spec_fn(R) -> Seq<char>) -> bool {
    forall|i: int, j: int|
        0 <= i < rows.len() && 0 <= j < rows.len() && i != j ==> key(rows[i]) != key(rows[j])
}

pub proof fn lemma_index_of_key<R>(rows: Seq<R>, key: spec_fn(R) -> Seq<char>, k: Seq<char>)
    ensures
        ({
            let j = index_of_key(rows, key, k);
            &&& j >= 0 ==> 0 <= j < rows.len() && key(rows[j]) == k && forall|i: int|
                0 <= i < j ==> key(rows[i]) != k
            &&& j < 0 ==> j == -1 && forall|i: int| 0 <= i < rows.len() ==> key(rows[i]) != k
        }),
    decreases rows.len(),
{
    if rows.len() > 0 && key(rows[0]) != k {
        lemma_index_of_key(rows.drop_first(), key, k);
        let j = index_of_key(rows, key, k);
        let jd = index_of_key(rows.drop_first(), key, k);
        if jd >= 0 {
            assert(key(rows[jd + 1]) == k) by {
                assert(rows.drop_first()[jd] == rows[jd + 1]);
            }
            assert forall|i: int| 0 <= i < j implies key(rows[i]) != k by {
                if i > 0 {
                    assert(rows.drop_first()[i - 1] == rows[i]);
                }
            }
        } else {
            assert forall|i: int| 0 <= i < rows.len() implies key(rows[i]) != k by {
                if i > 0 {
                    assert(rows.drop_first()[i - 1] == rows[i]);
                }
            }
        }
    }
}

/// A key is in `keys_of` exactly when some row carries it.
pub proof fn lemma_keys_of<R>(rows: Seq<R>, key: spec_fn(R) -> Seq<char>, k: Seq<char>)
    ensures
        keys_of(rows, key).contains(k) <==> exists|i: int|
            0 <= i < rows.len() && key(#[trigger] rows[i]) == k,
{
    if exists|i: int| 0 <= i < rows.len() && key(#[trigger] rows[i]) == k {
        let i = choose|i: int| 0 <= i < rows.len() && key(#[trigger] rows[i]) == k;
        assert(rows.map_values(key)[i] == k);
        assert(rows.map_values(key).contains(k));
    }
    if keys_of(rows, key).contains(k) {
        let i = choose|i: int|
            0 <= i < rows.map_values(key).len() && rows.map_values(key)[i] == k;
        assert(key(rows[i]) == k);
    }
}

/// `has_key` and `keys_of` agree.
pub proof fn lemma_has_key_keys_of<R>(rows: Seq<R>, key: spec_fn(R) -> Seq<char>, k: Seq<char>)
    ensures
        has_key(rows, key, k) <==> keys_of(rows, key).contains(k),
{
    lemma_index_of_key(rows, key, k);
    lemma_keys_of(rows, key, k);
    if has_key(rows, key, k) {
        let j = index_of_key(rows, key, k);
        assert(key(rows[j]) == k);
    }
}

/// With distinct keys, a table has exactly as many rows as keys.
pub proof fn lemma_len_keys<R>(rows: Seq<R>, key: spec_fn(R) -> Seq<char>)
    requires
        keys_distinct(rows, key),
    ensures
        keys_of(rows, key).len() == rows.len(),
{
    let mapped = rows.map_values(key);
    assert(mapped.no_duplicates());
    mapped.unique_seq_to_set();
}

/// What one upsert does: the new row is present at its key, every other
/// key's row is untouched, and key distinctness is preserved.
pub proof fn lemma_upsert_one<R>(rows: Seq<R>, key: spec_fn(R) -> Seq<char>, r: R)
    requires
        keys_distinct(rows, key),
    ensures
        ({
            let out = upsert_one(rows, key, r);
            &&& keys_distinct(out, key)
            &&& keys_of(out, key) == keys_of(rows, key).insert(key(r))
            &&& forall|i: int|
                0 <= i < out.len() ==> out[i] == r || (rows.contains(#[trigger] out[i]) && key(
                    out[i],
                ) != key(r))
            &&& out.len() == if has_key(rows, key, key(r)) {
                rows.len()
            } else {
                rows.len() + 1
            }
        }),
{
    let out = upsert_one(rows, key, r);
    let j = index_of_key(rows, key, key(r));
    lemma_index_of_key(rows, key, key(r));
    if j < 0 {
        assert(forall|i: int| 0 <= i < rows.len() ==> key(rows[i]) != key(r));
        assert(forall|i: int| 0 <= i < rows.len() ==> out[i] == rows[i]);
        assert(forall|i: int|
            0 <= i < rows.len() ==> rows.contains(#[trigger] out[i]));
    } else {
        assert(forall|i: int|
            0 <= i < out.len() && i != j ==> out[i] == rows[i] && rows.contains(
                #[trigger] out[i],
            ));
        assert(forall|i: int| 0 <= i < out.len() && i != j ==> key(out[i]) != key(r));
    }
    assert(keys_of(out, key) =~= keys_of(rows, key).insert(key(r))) by {
        assert forall|k: Seq<char>| #[trigger]
            keys_of(out, key).contains(k) implies keys_of(rows, key).insert(key(r)).contains(
            k,
        ) by {
            lemma_keys_of(out, key, k);
            lemma_keys_of(rows, key, k);
            let i = choose|i: int| 0 <= i < out.len() && key(#[trigger] out[i]) == k;
            if out[i] != r {
                let i2 = choose|i2: int| 0 <= i2 < rows.len() && rows[i2] == out[i];
                assert(key(rows[i2]) == k);
            }
        }
        assert forall|k: Seq<char>| #[trigger]
            keys_of(rows, key).insert(key(r)).contains(k) implies keys_of(out, key).contains(
            k,
        ) by {
            lemma_keys_of(out, key, k);
            lemma_keys_of(rows, key, k);
            if k == key(r) {
                if j < 0 {
                    assert(key(out[rows.len() as int]) == k);
                } else {
                    assert(key(out[j]) == k);
                }
            } else {
                let i = choose|i: int| 0 <= i < rows.len() && key(#[trigger] rows[i]) == k;
                assert(key(out[i]) == k);
            }
        }
    }
}

/// What a whole batch upsert does: the final keys are the union, every
/// surviving row is a batch row or an untouched old row whose key the
/// batch does not carry, and key distinctness is preserved.
pub proof fn lemma_upsert_all<R>(rows: Seq<R>, key: spec_fn(R) -> Seq<char>, batch: Seq<R>)
    requires
        keys_distinct(rows, key),
    ensures
        ({
            let out = upsert_all(rows, key, batch);
            &&& keys_distinct(out, key)
            &&& keys_of(out, key) == keys_of(rows, key) + keys_of(batch, key)
            &&& forall|i: int|
                0 <= i < out.len() ==> batch.contains(#[trigger] out[i]) || (rows.contains(
                    out[i],
                ) && !keys_of(batch, key).contains(key(out[i])))
        }),
    decreases batch.len(),
{
    let out = upsert_all(rows, key, batch);
    if batch.len() == 0 {
        assert(keys_of(batch, key) =~= Set::<Seq<char>>::empty());
        assert(keys_of(out, key) =~= keys_of(rows, key) + keys_of(batch, key));
    } else {
        let b0 = batch[0];
        let rest = batch.drop_first();
        let mid = upsert_one(rows, key, b0);
        lemma_upsert_one(rows, key, b0);
        lemma_upsert_all(mid, key, rest);
        assert(keys_of(batch, key) =~= keys_of(rest, key).insert(key(b0))) by {
            assert forall|k: Seq<char>| #[trigger]
                keys_of(batch, key).contains(k) implies keys_of(rest, key).insert(
                key(b0),
            ).contains(k) by {
                lemma_keys_of(batch, key, k);
                lemma_keys_of(rest, key, k);
                let i = choose|i: int| 0 <= i < batch.len() && key(#[trigger] batch[i]) == k;
                if i > 0 {
                    assert(rest[i - 1] == batch[i]);
                }
            }
            assert forall|k: Seq<char>| #[trigger]
                keys_of(rest, key).insert(key(b0)).contains(k) implies keys_of(
                batch,
                key,
            ).contains(k) by {
                lemma_keys_of(batch, key, k);
                lemma_keys_of(rest, key, k);
                if k == key(b0) {
                    assert(key(batch[0]) == k);
                } else {
                    let i = choose|i: int| 0 <= i < rest.len() && key(#[trigger] rest[i]) == k;
                    assert(batch[i + 1] == rest[i]);
                }
            }
        }
        assert(keys_of(out, key) =~= keys_of(rows, key) + keys_of(batch, key));
        assert forall|i: int| 0 <= i < out.len() implies batch.contains(#[trigger] out[i]) || (
        rows.contains(out[i]) && !keys_of(batch, key).contains(key(out[i]))) by {
            if rest.contains(out[i]) {
                let x = choose|x: int| 0 <= x < rest.len() && rest[x] == out[i];
                assert(batch[x + 1] == out[i]);
                assert(batch.contains(out[i]));
            } else if mid.contains(out[i]) && !keys_of(rest, key).contains(key(out[i])) {
                // the row came through the first upsert untouched or is b0
                let x = choose|x: int| 0 <= x < mid.len() && mid[x] == out[i];
                if mid[x] == b0 {
                    assert(batch.contains(out[i])) by {
                        assert(batch[0] == b0);
                    }
                } else {
                    assert(rows.contains(out[i]) && key(out[i]) != key(b0));
                    assert(!keys_of(batch, key).contains(key(out[i])));
                }
            }
        }
    }
}

/// Filtering by two predicates in turn is filtering by their conjunction.
pub proof fn lemma_filter_compose<R>(
    s: Seq<R>,
    p: spec_fn(R) -> bool,
    q: spec_fn(R) -> bool,
    r: spec_fn(R) -> bool,
)
    requires
        forall|x: R| #[trigger] r(x) == (p(x) && q(x)),
    ensures
        s.filter(p).filter(q) == s.filter(r),
    decreases s.len(),
{
    reveal(Seq::filter);
    if s.len() > 0 {
        lemma_filter_compose(s.drop_last(), p, q, r);
        if p(s.last()) {
            s.drop_last().filter(p).lemma_filter_push(s.last(), q);
        }
    }
}

/// Two predicates that agree on every element filter alike.
pub proof fn lemma_filter_congruent<R>(s: Seq<R>, p: spec_fn(R) -> bool, q: spec_fn(R) -> bool)
    requires
        forall|i: int| 0 <= i < s.len() ==> p(#[trigger] s[i]) == q(s[i]),
    ensures
        s.filter(p) == s.filter(q),
    decreases s.len(),
{
    reveal(Seq::filter);
    if s.len() > 0 {
        lemma_filter_congruent(s.drop_last(), p, q);
        assert(p(s[s.len() - 1]) == q(s[s.len() - 1]));
    }
}

/// Membership in a concatenation is membership in either half.
pub proof fn lemma_contains_split<X>(a: Seq<X>, b: Seq<X>, x: X)
    ensures
        (a + b).contains(x) == (a.contains(x) || b.contains(x)),
{
    if a.contains(x) {
        let i = choose|i: int| 0 <= i < a.len() && a[i] == x;
        assert((a + b)[i] == x);
    }
    if b.contains(x) {
        let i = choose|i: int| 0 <= i < b.len() && b[i] == x;
        assert((a + b)[a.len() + i] == x);
    }
    if (a + b).contains(x) {
        let i = choose|i: int| 0 <= i < (a + b).len() && (a + b)[i] == x;
        if i < a.len() {
            assert(a[i] == x);
        } else {
            assert(b[i - a.len()] == x);
        }
    }
}

/// A filtered table keeps its keys distinct.
pub proof fn lemma_filter_distinct<R>(s: Seq<R>, key: spec_fn(R) -> Seq<char>, p: spec_fn(R) -> bool)
    requires
        keys_distinct(s, key),
    ensures
        keys_distinct(s.filter(p), key),
        forall|i: int|
            0 <= i < s.filter(p).len() ==> s.contains(#[trigger] s.filter(p)[i]),
    decreases s.len(),
{
    reveal(Seq::filter);
    broadcast use vstd::seq_lib::group_seq_properties;

    if s.len() > 0 {
        lemma_filter_distinct(s.drop_last(), key, p);
        let out = s.filter(p);
        assert forall|i: int| 0 <= i < out.len() implies s.contains(#[trigger] out[i]) by {
            if p(s.last()) {
                if i < out.len() - 1 {
                    assert(s.drop_last().contains(s.drop_last().filter(p)[i]));
                } else {
                    assert(out[i] == s.last());
                    assert(s[s.len() - 1] == s.last());
                }
            } else {
                assert(s.drop_last().contains(s.drop_last().filter(p)[i]));
            }
        }
        assert forall|i: int, j: int|
            0 <= i < out.len() && 0 <= j < out.len() && i != j implies key(out[i]) != key(
            out[j],
        ) by {
            if p(s.last()) && (i == out.len() - 1 || j == out.len() - 1) {
                let other = if i == out.len() - 1 {
                    j
                } else {
                    i
                };
                assert(out[other] == s.drop_last().filter(p)[other]);
                assert(s.drop_last().contains(out[other]));
                let oi = choose|oi: int|
                    0 <= oi < s.drop_last().len() && s.drop_last()[oi] == out[other];
                assert(s[oi] == out[other]);
                assert(key(s[oi]) != key(s[s.len() - 1]));
            }
        }
    }
}

/// Upserting a batch then one more row is upserting the extended batch.
pub proof fn lemma_upsert_all_push<R>(
    rows: Seq<R>,
    key: spec_fn(R) -> Seq<char>,
    batch: Seq<R>,
    r: R,
)
    ensures
        upsert_all(rows, key, batch.push(r)) == upsert_one(upsert_all(rows, key, batch), key, r),
    decreases batch.len(),
{
    let s1 = batch.push(r);
    if batch.len() == 0 {
        assert(s1.drop_first() =~= Seq::<R>::empty());
        assert(s1[0] == r);
        assert(upsert_all(rows, key, s1) == upsert_all(upsert_one(rows, key, r), key,
        s1.drop_first()));
        assert(upsert_all(upsert_one(rows, key, r), key, s1.drop_first()) == upsert_one(
            rows,
            key,
            r,
        ));
    } else {
        assert(s1[0] == batch[0]);
        assert(s1.drop_first() =~= batch.drop_first().push(r));
        lemma_upsert_all_push(upsert_one(rows, key, batch[0]), key, batch.drop_first(), r);
        assert(upsert_all(rows, key, s1) == upsert_all(upsert_one(rows, key, batch[0]), key,
        batch.drop_first().push(r)));
        assert(upsert_all(rows, key, batch) == upsert_all(upsert_one(rows, key, batch[0]), key,
        batch.drop_first()));
    }
}

/// Upserting a concatenation is upserting its halves in turn.
pub proof fn lemma_upsert_all_concat<R>(
    rows: Seq<R>,
    key: spec_fn(R) -> Seq<char>,
    a: Seq<R>,
    b: Seq<R>,
)
    ensures
        upsert_all(rows, key, a + b) == upsert_all(upsert_all(rows, key, a), key, b),
    decreases a.len(),
{
    if a.len() == 0 {
        assert(a + b =~= b);
    } else {
        assert((a + b)[0] == a[0]);
        assert((a + b).drop_first() =~= a.drop_first() + b);
        lemma_upsert_all_concat(upsert_one(rows, key, a[0]), key, a.drop_first(), b);
    }
}

} // verus!
