//! The order of strings: lexicographic on their UTF-8 bytes, which is the
//! order of Rust's `String` comparison.

use vstd::prelude::*;

verus! {

/// `a` comes strictly before `b` in lexicographic order.
pub open spec fn lex_less(a: Seq<u8>, b: Seq<u8>) -> bool
    decreases a.len(),
{
    if a.len() == 0 {
        b.len() > 0
    } else if b.len() == 0 {
        false
    } else if a[0] != b[0] {
        a[0] < b[0]
    } else {
        lex_less(a.drop_first(), b.drop_first())
    }
}

pub proof fn lemma_lex_irreflexive(a: Seq<u8>)
    ensures
        !lex_less(a, a),
    decreases a.len(),
{
    if a.len() > 0 {
        lemma_lex_irreflexive(a.drop_first());
    }
}

pub proof fn lemma_lex_asymmetric(a: Seq<u8>, b: Seq<u8>)
    requires
        lex_less(a, b),
    ensures
        !lex_less(b, a),
    decreases a.len(),
{
    if a.len() > 0 && b.len() > 0 && a[0] == b[0] {
        lemma_lex_asymmetric(a.drop_first(), b.drop_first());
    }
}

pub proof fn lemma_lex_transitive(a: Seq<u8>, b: Seq<u8>, c: Seq<u8>)
    requires
        lex_less(a, b),
        lex_less(b, c),
    ensures
        lex_less(a, c),
    decreases a.len(),
{
    if a.len() > 0 && b.len() > 0 && c.len() > 0 && a[0] == b[0] && b[0] == c[0] {
        lemma_lex_transitive(a.drop_first(), b.drop_first(), c.drop_first());
    }
}

pub proof fn lemma_lex_total(a: Seq<u8>, b: Seq<u8>)
    requires
        a != b,
    ensures
        lex_less(a, b) || lex_less(b, a),
    decreases a.len(),
{
    if a.len() > 0 && b.len() > 0 && a[0] == b[0] {
        if a.drop_first() == b.drop_first() {
            assert(a =~= seq![a[0]] + a.drop_first());
            assert(b =~= seq![b[0]] + b.drop_first());
        }
        lemma_lex_total(a.drop_first(), b.drop_first());
    } else if a.len() == 0 && b.len() == 0 {
        assert(a =~= b);
    }
}

proof fn lemma_lex_common_prefix(a: Seq<u8>, b: Seq<u8>, i: int)
    requires
        0 <= i <= a.len(),
        i <= b.len(),
        a.take(i) == b.take(i),
    ensures
        lex_less(a, b) == lex_less(a.skip(i), b.skip(i)),
    decreases i,
{
    if i > 0 {
        assert(a[0] == a.take(i)[0]);
        assert(b[0] == b.take(i)[0]);
        assert(a.drop_first().take(i - 1) =~= a.take(i).drop_first());
        assert(b.drop_first().take(i - 1) =~= b.take(i).drop_first());
        lemma_lex_common_prefix(a.drop_first(), b.drop_first(), i - 1);
        assert(a.drop_first().skip(i - 1) =~= a.skip(i));
        assert(b.drop_first().skip(i - 1) =~= b.skip(i));
    } else {
        assert(a.skip(0) =~= a);
        assert(b.skip(0) =~= b);
    }
}

/// Whether `a` comes strictly before `b` in lexicographic order of bytes.
pub fn bytes_less(a: &[u8], b: &[u8]) -> (r: bool)
    ensures
        r == lex_less(a@, b@),
{
    let n = a.len();
    let m = b.len();
    let mut i: usize = 0;
    while i < n && i < m && a[i] == b[i]
        invariant
            n == a@.len(),
            m == b@.len(),
            i <= n,
            i <= m,
            a@.take(i as int) == b@.take(i as int),
        decreases n - i,
    {
        assert(a@.take(i + 1) =~= a@.take(i as int).push(a@[i as int]));
        assert(b@.take(i + 1) =~= b@.take(i as int).push(b@[i as int]));
        i = i + 1;
    }
    proof {
        lemma_lex_common_prefix(a@, b@, i as int);
        let sa = a@.skip(i as int);
        let sb = b@.skip(i as int);
        if i < n && i < m {
            assert(sa[0] == a@[i as int]);
            assert(sb[0] == b@[i as int]);
        }
    }
    if i == n {
        i < m
    } else if i == m {
        false
    } else {
        a[i] < b[i]
    }
}

/// The bytes of a string.
pub open spec fn utf8(s: Seq<char>) -> Seq<u8> {
    vstd::utf8::encode_utf8(s)
}

/// The order of ranked items: a higher rank comes first, then the smaller
/// name in lexicographic order, then the earlier position in the input.  This is
/// the order that a stable sort by (rank descending, name ascending) leaves.
pub open spec fn ranked_before(a: (usize, Seq<u8>), i: int, b: (usize, Seq<u8>), j: int) -> bool {
    ||| a.0 > b.0
    ||| a.0 == b.0 && lex_less(a.1, b.1)
    ||| a.0 == b.0 && a.1 == b.1 && i < j
}

pub proof fn lemma_ranked_transitive(a: (usize, Seq<u8>), i: int, b: (usize, Seq<u8>), j: int, c: (usize, Seq<u8>), k: int)
    requires
        ranked_before(a, i, b, j),
        ranked_before(b, j, c, k),
    ensures
        ranked_before(a, i, c, k),
{
    if a.0 == b.0 && b.0 == c.0 {
        if lex_less(a.1, b.1) && lex_less(b.1, c.1) {
            lemma_lex_transitive(a.1, b.1, c.1);
        }
    }
}

pub proof fn lemma_ranked_asymmetric(a: (usize, Seq<u8>), i: int, b: (usize, Seq<u8>), j: int)
    requires
        ranked_before(a, i, b, j),
    ensures
        !ranked_before(b, j, a, i),
{
    if a.0 == b.0 && lex_less(a.1, b.1) {
        lemma_lex_asymmetric(a.1, b.1);
    }
    if a.0 == b.0 && a.1 == b.1 {
        lemma_lex_irreflexive(a.1);
    }
}

pub proof fn lemma_ranked_total(a: (usize, Seq<u8>), i: int, b: (usize, Seq<u8>), j: int)
    requires
        i != j,
    ensures
        ranked_before(a, i, b, j) || ranked_before(b, j, a, i),
{
    if a.0 == b.0 && a.1 != b.1 {
        lemma_lex_total(a.1, b.1);
    }
}

/// The ranked keys of a list, as mathematical values.
pub open spec fn ranked_keys(keys: Seq<(usize, Vec<u8>)>) -> Seq<(usize, Seq<u8>)> {
    keys.map_values(|k: (usize, Vec<u8>)| (k.0, k.1@))
}

/// `p` lists each of the positions `0..n` once.
pub open spec fn is_permutation(p: Seq<usize>, n: nat) -> bool {
    &&& p.len() == n
    &&& forall|k: int| 0 <= k < p.len() ==> #[trigger] p[k] < n
    &&& p.no_duplicates()
}

/// Listing the positions of `keys` in the order `p` goes in [`ranked_before`] order.
pub open spec fn is_ranked_order(keys: Seq<(usize, Seq<u8>)>, p: Seq<usize>) -> bool {
    forall|k: int, l: int|
        0 <= k < l < p.len() ==> ranked_before(keys[p[k] as int], p[k] as int, keys[p[l] as int], p[l] as int)
}

fn ranked_before_exec(keys: &Vec<(usize, Vec<u8>)>, i: usize, j: usize) -> (r: bool)
    requires
        i < keys@.len(),
        j < keys@.len(),
    ensures
        r == ranked_before(ranked_keys(keys@)[i as int], i as int, ranked_keys(keys@)[j as int], j as int),
{
    let a = &keys[i];
    let b = &keys[j];
    if a.0 != b.0 {
        return a.0 > b.0;
    }
    if bytes_less(a.1.as_slice(), b.1.as_slice()) {
        return true;
    }
    if bytes_less(b.1.as_slice(), a.1.as_slice()) {
        proof {
            lemma_lex_asymmetric(b.1@, a.1@);
            lemma_lex_irreflexive(a.1@);
        }
        return false;
    }
    proof {
        if a.1@ != b.1@ {
            lemma_lex_total(a.1@, b.1@);
        }
    }
    i < j
}

/// The positions of `keys` in the order of a stable sort by rank
/// (descending) and then by name (ascending).
pub fn ranked_order(keys: &Vec<(usize, Vec<u8>)>) -> (p: Vec<usize>)
    ensures
        is_permutation(p@, keys@.len()),
        is_ranked_order(ranked_keys(keys@), p@),
{
    let ghost ks = ranked_keys(keys@);
    let n = keys.len();
    let mut p: Vec<usize> = Vec::new();
    let mut i: usize = 0;
    while i < n
        invariant
            n == keys@.len(),
            ks == ranked_keys(keys@),
            i <= n,
            p@.len() == i,
            forall|k: int| 0 <= k < p@.len() ==> #[trigger] p@[k] < i,
            p@.no_duplicates(),
            is_ranked_order(ks, p@),
        decreases n - i,
    {
        let mut q: usize = 0;
        while q < p.len() && !ranked_before_exec(keys, i, p[q])
            invariant
                n == keys@.len(),
                ks == ranked_keys(keys@),
                i < n,
                q <= p@.len(),
                forall|k: int| 0 <= k < p@.len() ==> #[trigger] p@[k] < i,
                forall|r: int| 0 <= r < q ==> ranked_before(ks[p@[r] as int], p@[r] as int, ks[i as int], i as int),
            decreases p@.len() - q,
        {
            proof {
                lemma_ranked_total(ks[i as int], i as int, ks[p@[q as int] as int], p@[q as int] as int);
            }
            q = q + 1;
        }
        let ghost old_p = p@;
        proof {
            if q < old_p.len() {
                assert(ranked_before(ks[i as int], i as int, ks[old_p[q as int] as int], old_p[q as int] as int));
            }
        }
        p.insert(q, i);
        proof {
            assert(p@ == old_p.insert(q as int, i));
            assert forall|k: int, l: int| 0 <= k < l < p@.len() implies
                ranked_before(ks[p@[k] as int], p@[k] as int, ks[p@[l] as int], p@[l] as int) by {
                if l < q {
                    assert(p@[k] == old_p[k] && p@[l] == old_p[l]);
                } else if l == q {
                    assert(p@[k] == old_p[k]);
                } else if k < q {
                    assert(p@[k] == old_p[k] && p@[l] == old_p[l - 1]);
                    assert(ranked_before(ks[old_p[k] as int], old_p[k] as int, ks[i as int], i as int));
                    assert(ranked_before(ks[i as int], i as int, ks[old_p[q as int] as int], old_p[q as int] as int));
                    if l - 1 > q {
                        lemma_ranked_transitive(ks[i as int], i as int, ks[old_p[q as int] as int], old_p[q as int] as int, ks[old_p[l - 1] as int], old_p[l - 1] as int);
                    }
                    lemma_ranked_transitive(ks[old_p[k] as int], old_p[k] as int, ks[i as int], i as int, ks[old_p[l - 1] as int], old_p[l - 1] as int);
                } else if k == q {
                    assert(p@[l] == old_p[l - 1]);
                    if l - 1 > q {
                        lemma_ranked_transitive(ks[i as int], i as int, ks[old_p[q as int] as int], old_p[q as int] as int, ks[old_p[l - 1] as int], old_p[l - 1] as int);
                    }
                } else {
                    assert(p@[k] == old_p[k - 1] && p@[l] == old_p[l - 1]);
                }
            }
            assert forall|k: int| 0 <= k < p@.len() implies #[trigger] p@[k] < i + 1 by {
                if k < q {
                    assert(p@[k] == old_p[k]);
                } else if k > q {
                    assert(p@[k] == old_p[k - 1]);
                }
            }
            assert forall|k: int, l: int| 0 <= k < l < p@.len() implies p@[k] != p@[l] by {
                if k < q && l < q {
                    assert(p@[k] == old_p[k] && p@[l] == old_p[l]);
                } else if k < q && l == q {
                    assert(p@[k] == old_p[k]);
                } else if k < q {
                    assert(p@[k] == old_p[k] && p@[l] == old_p[l - 1]);
                } else if k == q {
                    assert(p@[l] == old_p[l - 1]);
                } else {
                    assert(p@[k] == old_p[k - 1] && p@[l] == old_p[l - 1]);
                }
            }
        }
        i = i + 1;
    }
    p
}

/// A permutation of `0..n` lists every position.
pub proof fn lemma_permutation_covers(p: Seq<usize>, n: nat, i: int)
    requires
        is_permutation(p, n),
        0 <= i < n,
    ensures
        exists|k: int| 0 <= k < p.len() && p[k] as int == i,
{
    let q = p.map_values(|x: usize| x as int);
    assert(q.no_duplicates()) by {
        assert forall|a: int, b: int| 0 <= a < q.len() && 0 <= b < q.len() && a != b implies q[a] != q[b] by {
            assert(p[a] != p[b]);
        }
    }
    q.unique_seq_to_set();
    vstd::set_lib::lemma_int_range(0, n as int);
    let range = vstd::set_lib::set_int_range(0, n as int);
    assert(q.to_set().subset_of(range)) by {
        assert forall|x: int| q.to_set().contains(x) implies range.contains(x) by {
            let k = choose|k: int| 0 <= k < q.len() && q[k] == x;
            assert(p[k] < n);
        }
    }
    vstd::set_lib::lemma_len_subset(q.to_set(), range);
    vstd::set_lib::lemma_subset_equality(q.to_set(), range);
    assert(range.contains(i));
    assert(q.to_set().contains(i));
    let k = choose|k: int| 0 <= k < q.len() && q[k] == i;
    assert(p[k] as int == i);
}

} // verus!
