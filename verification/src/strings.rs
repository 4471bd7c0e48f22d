//! Character-sequence utilities shared by the path mapper, the queries and
//! the sort orders: case folding, lexicographic comparison, prefix and
//! substring tests, and splitting paths at separator characters.

use vstd::prelude::*;

verus! {

use vstd::string::StrSliceExecFns;

/// The numeric code of a character, with upper-case ASCII letters folded to
/// lower case. This is the folding that case-insensitive ordering and
/// matching use.
pub open spec fn fold_code(c: char) -> int {
    if 65 <= c as int && c as int <= 90 {
        c as int + 32
    } else {
        c as int
    }
}

/// A character sequence as its exact codes.
pub open spec fn codes(s: Seq<char>) -> Seq<int> {
    s.map_values(|c: char| c as int)
}

/// A character sequence as its case-folded codes.
pub open spec fn folded(s: Seq<char>) -> Seq<int> {
    s.map_values(|c: char| fold_code(c))
}

/// Strict lexicographic order on code sequences.
pub open spec fn lex_lt(a: Seq<int>, b: Seq<int>) -> bool
    decreases a.len(),
{
    if b.len() == 0 {
        false
    } else if a.len() == 0 {
        true
    } else if a[0] < b[0] {
        true
    } else if a[0] > b[0] {
        false
    } else {
        lex_lt(a.drop_first(), b.drop_first())
    }
}

/// The lexicographic order is transitive.
pub proof fn lemma_lex_lt_trans(a: Seq<int>, b: Seq<int>, c: Seq<int>)
    requires
        lex_lt(a, b),
        lex_lt(b, c),
    ensures
        lex_lt(a, c),
    decreases a.len(),
{
    if a.len() > 0 && b.len() > 0 && c.len() > 0 {
        if a[0] == b[0] && b[0] == c[0] {
            lemma_lex_lt_trans(a.drop_first(), b.drop_first(), c.drop_first());
        }
    }
}

/// No sequence is lexicographically below one that is below it.
pub proof fn lemma_lex_lt_asym(a: Seq<int>, b: Seq<int>)
    requires
        lex_lt(a, b),
    ensures
        !lex_lt(b, a),
    decreases a.len(),
{
    if a.len() > 0 && b.len() > 0 && a[0] == b[0] {
        lemma_lex_lt_asym(a.drop_first(), b.drop_first());
    }
}

/// `fold_code`, executably.
pub fn fold_code_exec(c: char) -> (r: u32)
    ensures
        r as int == fold_code(c),
{
    let u = c as u32;
    if 65 <= u && u <= 90 {
        u + 32
    } else {
        u
    }
}

/// Equality of two string slices, decided character by character.
pub fn str_eq(a: &str, b: &str) -> (r: bool)
    ensures
        r == (a@ == b@),
{
    let alen = a.unicode_len();
    let blen = b.unicode_len();
    if alen != blen {
        assert(a@ != b@) by {
            assert(a@.len() != b@.len());
        }
        return false;
    }
    let mut i: usize = 0;
    while i < alen
        invariant
            alen == a@.len(),
            alen == b@.len(),
            i <= alen,
            forall|k: int| 0 <= k < i ==> a@[k] == b@[k],
        decreases alen - i,
    {
        if a.get_char(i) != b.get_char(i) {
            return false;
        }
        i = i + 1;
    }
    proof {
        assert(a@ =~= b@);
    }
    true
}

proof fn lemma_lex_lt_skip(a: Seq<int>, b: Seq<int>, i: int)
    requires
        0 <= i <= a.len(),
        i <= b.len(),
        forall|k: int| 0 <= k < i ==> a[k] == b[k],
    ensures
        lex_lt(a, b) == lex_lt(a.skip(i), b.skip(i)),
    decreases i,
{
    if i > 0 {
        assert(a.len() > 0 && b.len() > 0);
        assert(a[0] == b[0]);
        assert(lex_lt(a, b) == lex_lt(a.drop_first(), b.drop_first()));
        lemma_lex_lt_skip(a.drop_first(), b.drop_first(), i - 1);
        assert(a.drop_first().skip(i - 1) =~= a.skip(i));
        assert(b.drop_first().skip(i - 1) =~= b.skip(i));
    } else {
        assert(a.skip(0) =~= a);
        assert(b.skip(0) =~= b);
    }
}

/// Equality of two strings under ASCII case folding.
pub fn fold_eq(a: &str, b: &str) -> (r: bool)
    ensures
        r == (folded(a@) == folded(b@)),
{
    let alen = a.unicode_len();
    let blen = b.unicode_len();
    if alen != blen {
        assert(folded(a@) != folded(b@)) by {
            assert(folded(a@).len() != folded(b@).len());
        }
        return false;
    }
    let mut i: usize = 0;
    while i < alen
        invariant
            alen == a@.len(),
            alen == b@.len(),
            i <= alen,
            forall|k: int| 0 <= k < i ==> fold_code(a@[k]) == fold_code(b@[k]),
        decreases alen - i,
    {
        if fold_code_exec(a.get_char(i)) != fold_code_exec(b.get_char(i)) {
            assert(folded(a@)[i as int] != folded(b@)[i as int]);
            return false;
        }
        i = i + 1;
    }
    proof {
        assert(folded(a@) =~= folded(b@));
    }
    true
}

/// Case-insensitive strict order on two strings: their case-folded codes
/// compared lexicographically.
pub fn nocase_lt(a: &str, b: &str) -> (r: bool)
    ensures
        r == lex_lt(folded(a@), folded(b@)),
{
    cmp_lt(a, b, true)
}

/// Binary strict order on two strings: their exact codes compared
/// lexicographically.
pub fn binary_lt(a: &str, b: &str) -> (r: bool)
    ensures
        r == lex_lt(codes(a@), codes(b@)),
{
    cmp_lt(a, b, false)
}

/// The code of one character under either key.
pub open spec fn key_code(c: char, fold: bool) -> int {
    if fold {
        fold_code(c)
    } else {
        c as int
    }
}

/// A whole sequence under either key.
pub open spec fn key_codes(s: Seq<char>, fold: bool) -> Seq<int> {
    if fold {
        folded(s)
    } else {
        codes(s)
    }
}

/// The needle occurs in the haystack starting at position `i`.
pub open spec fn match_at(hay: Seq<int>, needle: Seq<int>, i: int) -> bool {
    0 <= i && i + needle.len() <= hay.len() && hay.subrange(i, i + needle.len() as int)
        == needle
}

/// The needle occurs somewhere in the haystack.
pub open spec fn contains_seq(hay: Seq<int>, needle: Seq<int>) -> bool {
    exists|i: int| match_at(hay, needle, i)
}

/// The first sequence is a prefix of the second.
pub open spec fn is_prefix(p: Seq<int>, s: Seq<int>) -> bool {
    match_at(s, p, 0)
}

/// Whether the needle occurs at position `i` of the haystack, under either
/// the exact or the case-folded key.
fn match_at_exec(hay: &str, needle: &str, i: usize, fold: bool) -> (r: bool)
    requires
        i + needle@.len() <= hay@.len(),
    ensures
        r == match_at(key_codes(hay@, fold), key_codes(needle@, fold), i as int),
{
    let n = needle.unicode_len();
    let h = hay.unicode_len();
    let ghost hk = key_codes(hay@, fold);
    let ghost nk = key_codes(needle@, fold);
    let mut k: usize = 0;
    while k < n
        invariant
            n == needle@.len(),
            h == hay@.len(),
            i + n <= h,
            hk == key_codes(hay@, fold),
            nk == key_codes(needle@, fold),
            k <= n,
            forall|j: int| 0 <= j < k ==> hk[i + j] == nk[j],
        decreases n - k,
    {
        let hc = if fold {
            fold_code_exec(hay.get_char(i + k))
        } else {
            hay.get_char(i + k) as u32
        };
        let nc = if fold {
            fold_code_exec(needle.get_char(k))
        } else {
            needle.get_char(k) as u32
        };
        if hc != nc {
            assert(hk.subrange(i as int, i + nk.len()) != nk) by {
                assert(hk.subrange(i as int, i + nk.len())[k as int] == hk[i + k]);
            }
            return false;
        }
        k = k + 1;
    }
    proof {
        assert(hk.subrange(i as int, i + nk.len()) =~= nk);
    }
    true
}

/// Whether the needle occurs anywhere in the haystack, under either key.
pub fn contains_str(hay: &str, needle: &str, fold: bool) -> (r: bool)
    ensures
        r == contains_seq(key_codes(hay@, fold), key_codes(needle@, fold)),
{
    let h = hay.unicode_len();
    let n = needle.unicode_len();
    let ghost hk = key_codes(hay@, fold);
    let ghost nk = key_codes(needle@, fold);
    if n > h {
        assert(forall|i: int| !match_at(hk, nk, i));
        return false;
    }
    if n == 0 {
        assert(match_at(hk, nk, 0)) by {
            assert(hk.subrange(0, 0) =~= nk);
        }
        return true;
    }
    let mut i: usize = 0;
    while i <= h - n
        invariant
            h == hay@.len(),
            n == needle@.len(),
            1 <= n <= h,
            hk == key_codes(hay@, fold),
            nk == key_codes(needle@, fold),
            i <= h - n + 1,
            forall|j: int| 0 <= j < i ==> !match_at(hk, nk, j),
        decreases h - n + 1 - i,
    {
        if match_at_exec(hay, needle, i, fold) {
            return true;
        }
        i = i + 1;
    }
    assert(forall|j: int| !match_at(hk, nk, j));
    false
}

/// Whether the first string is a prefix of the second, under either key.
pub fn prefix_str(p: &str, s: &str, fold: bool) -> (r: bool)
    ensures
        r == is_prefix(key_codes(p@, fold), key_codes(s@, fold)),
{
    let plen = p.unicode_len();
    let slen = s.unicode_len();
    if plen > slen {
        return false;
    }
    match_at_exec(s, p, 0, fold)
}

/// The position of the first occurrence of `c`, if any.
pub fn find_char(s: &str, c: char) -> (r: Option<usize>)
    ensures
        match r {
            Some(i) => i < s@.len() && s@[i as int] == c && forall|k: int|
                0 <= k < i ==> s@[k] != c,
            None => forall|k: int| 0 <= k < s@.len() ==> s@[k] != c,
        },
{
    let len = s.unicode_len();
    let mut i: usize = 0;
    while i < len
        invariant
            len == s@.len(),
            i <= len,
            forall|k: int| 0 <= k < i ==> s@[k] != c,
        decreases len - i,
    {
        if s.get_char(i) == c {
            return Some(i);
        }
        i = i + 1;
    }
    None
}

/// The position of the last occurrence of `c`, if any.
pub fn rfind_char(s: &str, c: char) -> (r: Option<usize>)
    ensures
        match r {
            Some(i) => i < s@.len() && s@[i as int] == c && forall|k: int|
                i < k < s@.len() ==> s@[k] != c,
            None => forall|k: int| 0 <= k < s@.len() ==> s@[k] != c,
        },
{
    let len = s.unicode_len();
    let mut i: usize = len;
    while i > 0
        invariant
            len == s@.len(),
            i <= len,
            forall|k: int| i <= k < len ==> s@[k] != c,
        decreases i,
    {
        i = i - 1;
        if s.get_char(i) == c {
            return Some(i);
        }
    }
    None
}

/// The two strings joined with a single separator between them.
pub fn path_join(a: &str, b: &str) -> (r: String)
    ensures
        r@ == a@ + seq!['/'] + b@,
{
    let mut s = String::from_str(a);
    s.append("/");
    s.append(b);
    proof {
        reveal_strlit("/");
        assert("/"@ =~= seq!['/']);
        assert(s@ =~= a@ + seq!['/'] + b@);
    }
    s
}

fn cmp_lt(a: &str, b: &str, fold: bool) -> (r: bool)
    ensures
        r == lex_lt(key_codes(a@, fold), key_codes(b@, fold)),
{
    let alen = a.unicode_len();
    let blen = b.unicode_len();
    let mut i: usize = 0;
    loop
        invariant
            alen == a@.len(),
            blen == b@.len(),
            i <= alen,
            i <= blen,
            forall|k: int| 0 <= k < i ==> key_code(a@[k], fold) == key_code(b@[k], fold),
        decreases alen - i,
    {
        proof {
            lemma_lex_lt_skip(key_codes(a@, fold), key_codes(b@, fold), i as int);
        }
        if i >= alen || i >= blen {
            return i >= alen && i < blen;
        }
        let ca = if fold {
            fold_code_exec(a.get_char(i))
        } else {
            a.get_char(i) as u32
        };
        let cb = if fold {
            fold_code_exec(b.get_char(i))
        } else {
            b.get_char(i) as u32
        };
        if ca < cb {
            return true;
        }
        if ca > cb {
            return false;
        }
        i = i + 1;
    }
}

} // verus!
