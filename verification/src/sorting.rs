//! Stable sorting by a textual key, with an explicit witness permutation.
use vstd::prelude::*;
use crate::text::{chars_eq, chars_lex_le, lemma_lex_antisym, lemma_lex_total, lemma_lex_trans, lex_le};

verus! {

/// Sort key: entries whose `first` flag is set come before all others;
/// within the same flag, keys are ordered lexicographically by `text`.
#[derive(Debug)]
pub struct SortKey {
    pub first: bool,
    pub text: Vec<char>,
}

/// Mathematical value of a key.
pub open spec fn key_of(k: SortKey) -> (bool, Seq<char>) {
    (k.first, k.text@)
}

/// Strict order on keys.
pub open spec fn key_lt(a: (bool, Seq<char>), b: (bool, Seq<char>)) -> bool {
    (a.0 && !b.0) || (a.0 == b.0 && lex_le(a.1, b.1) && a.1 != b.1)
}

/// Position order used by a stable sort: by key, then by input position.
pub open spec fn stable_before(ka: (bool, Seq<char>), ia: int, kb: (bool, Seq<char>), ib: int) -> bool {
    key_lt(ka, kb) || (ka == kb && ia < ib)
}

/// `perm` lists distinct positions of a sequence of length `n`.
pub open spec fn is_index_perm(perm: Seq<int>, n: int) -> bool {
    &&& perm.len() == n
    &&& forall|k: int| 0 <= k < perm.len() ==> 0 <= #[trigger] perm[k] < n
    &&& forall|k: int, l: int| 0 <= k < l < perm.len() ==> perm[k] != perm[l]
}

/// `out` is `input` stably sorted by key, `perm[k]` being the input
/// position of `out[k]`.
pub open spec fn stably_sorted<T>(input: Seq<(SortKey, T)>, out: Seq<(SortKey, T)>, perm: Seq<int>) -> bool {
    &&& out.len() == input.len()
    &&& is_index_perm(perm, input.len() as int)
    &&& forall|k: int| 0 <= k < out.len() ==> #[trigger] out[k] == input[perm[k]]
    &&& forall|k: int, l: int|
        0 <= k < l < out.len() ==> stable_before(
            key_of(#[trigger] out[k].0),
            perm[k],
            key_of(#[trigger] out[l].0),
            perm[l],
        )
}

proof fn lemma_key_lt_trans(a: (bool, Seq<char>), b: (bool, Seq<char>), c: (bool, Seq<char>))
    requires
        key_lt(a, b),
        key_lt(b, c),
    ensures
        key_lt(a, c),
{
    if a.0 == b.0 && b.0 == c.0 {
        lemma_lex_trans(a.1, b.1, c.1);
        if a.1 == c.1 {
            lemma_lex_antisym(a.1, b.1);
        }
    }
}

proof fn lemma_key_not_lt(a: (bool, Seq<char>), b: (bool, Seq<char>))
    requires
        !key_lt(a, b),
    ensures
        key_lt(b, a) || a == b,
{
    lemma_lex_total(a.1, b.1);
    if a.0 == b.0 && a.1 == b.1 {
        assert(a == b);
    }
}

proof fn lemma_before_trans(
    ka: (bool, Seq<char>),
    ia: int,
    kb: (bool, Seq<char>),
    ib: int,
    kc: (bool, Seq<char>),
    ic: int,
)
    requires
        stable_before(ka, ia, kb, ib),
        stable_before(kb, ib, kc, ic),
    ensures
        stable_before(ka, ia, kc, ic),
{
    if key_lt(ka, kb) && key_lt(kb, kc) {
        lemma_key_lt_trans(ka, kb, kc);
    }
}

/// `a < b` on keys.
pub fn key_less(a: &SortKey, b: &SortKey) -> (r: bool)
    ensures
        r == key_lt(key_of(*a), key_of(*b)),
{
    if a.first != b.first {
        return a.first;
    }
    chars_lex_le(a.text.as_slice(), b.text.as_slice()) && !chars_eq(a.text.as_slice(), b.text.as_slice())
}

/// Stable sort of keyed entries: entries come out ordered by key, and entries
/// with equal keys keep their input order. The ghost result gives, for each
/// output position, the input position it came from.
pub fn stable_sort<T>(items: Vec<(SortKey, T)>) -> (r: (Vec<(SortKey, T)>, Ghost<Seq<int>>))
    ensures
        stably_sorted(items@, r.0@, r.1@),
{
    let ghost orig = items@;
    let ghost n = items@.len() as int;
    let mut items = items;
    let mut out: Vec<(SortKey, T)> = Vec::new();
    let ghost mut idx: Seq<int> = Seq::empty();
    while items.len() > 0
        invariant
            items@ == orig.subrange(0, items@.len() as int),
            n == orig.len(),
            out@.len() + items@.len() == n,
            idx.len() == out@.len(),
            forall|k: int| 0 <= k < idx.len() ==> items@.len() <= #[trigger] idx[k] < n,
            forall|k: int| 0 <= k < out@.len() ==> #[trigger] out@[k] == orig[idx[k]],
            forall|k: int, l: int| 0 <= k < l < idx.len() ==> idx[k] != idx[l],
            forall|k: int, l: int|
                0 <= k < l < out@.len() ==> stable_before(
                    key_of(#[trigger] out@[k].0),
                    idx[k],
                    key_of(#[trigger] out@[l].0),
                    idx[l],
                ),
        decreases items@.len(),
    {
        let x = items.pop().unwrap();
        let ghost i = items@.len() as int;
        proof {
            assert(x == orig[i]);
            assert(items@ =~= orig.subrange(0, i));
        }
        let mut p: usize = 0;
        while p < out.len() && key_less(&out[p].0, &x.0)
            invariant
                p <= out@.len(),
                forall|j: int| 0 <= j < p ==> key_lt(key_of(#[trigger] out@[j].0), key_of(x.0)),
            decreases out@.len() - p,
        {
            p = p + 1;
        }
        let ghost old_out = out@;
        let ghost old_idx = idx;
        let ghost kx = key_of(x.0);
        out.insert(p, x);
        proof {
            idx = old_idx.insert(p as int, i);
            assert(out@ == old_out.insert(p as int, x));
            // Position p holds x; earlier positions are strictly smaller keys;
            // later positions are at least x's key and come from larger indices.
            assert forall|k: int| p < k < out@.len() implies stable_before(
                kx,
                i,
                key_of(#[trigger] out@[k].0),
                idx[k],
            ) by {
                assert(out@[k] == old_out[k - 1]);
                assert(idx[k] == old_idx[k - 1]);
                if p < old_out.len() {
                    lemma_key_not_lt(key_of(old_out[p as int].0), kx);
                    if k - 1 > p {
                        assert(stable_before(
                            key_of(old_out[p as int].0),
                            old_idx[p as int],
                            key_of(old_out[k - 1].0),
                            old_idx[k - 1],
                        ));
                        if key_lt(kx, key_of(old_out[p as int].0)) {
                            lemma_before_trans(
                                kx,
                                i,
                                key_of(old_out[p as int].0),
                                old_idx[p as int],
                                key_of(old_out[k - 1].0),
                                old_idx[k - 1],
                            );
                        } else {
                            assert(kx == key_of(old_out[p as int].0));
                            lemma_before_trans(
                                kx,
                                i,
                                key_of(old_out[p as int].0),
                                old_idx[p as int],
                                key_of(old_out[k - 1].0),
                                old_idx[k - 1],
                            );
                        }
                    }
                }
            }
            assert forall|k: int, l: int| 0 <= k < l < out@.len() implies stable_before(
                key_of(#[trigger] out@[k].0),
                idx[k],
                key_of(#[trigger] out@[l].0),
                idx[l],
            ) by {
                if k < p && l < p {
                    assert(out@[k] == old_out[k] && out@[l] == old_out[l]);
                } else if k < p && l == p {
                    assert(out@[k] == old_out[k]);
                } else if k < p && l > p {
                    assert(out@[k] == old_out[k] && out@[l] == old_out[l - 1]);
                    assert(stable_before(key_of(old_out[k].0), old_idx[k], key_of(old_out[l - 1].0), old_idx[l - 1]));
                } else if k == p {
                    assert(stable_before(kx, i, key_of(out@[l].0), idx[l]));
                } else {
                    assert(out@[k] == old_out[k - 1] && out@[l] == old_out[l - 1]);
                }
            }
            assert forall|k: int| 0 <= k < out@.len() implies #[trigger] out@[k] == orig[idx[k]] by {
                if k < p {
                    assert(out@[k] == old_out[k]);
                } else if k > p {
                    assert(out@[k] == old_out[k - 1]);
                }
            }
            assert forall|k: int, l: int| 0 <= k < l < idx.len() implies idx[k] != idx[l] by {
                if k != p && l != p {
                    let k0 = if k < p { k } else { k - 1 };
                    let l0 = if l < p { l } else { l - 1 };
                    assert(idx[k] == old_idx[k0] && idx[l] == old_idx[l0]);
                } else if k == p {
                    assert(idx[l] == old_idx[l - 1]);
                } else {
                    assert(idx[k] == old_idx[k]);
                }
            }
            assert forall|k: int| 0 <= k < idx.len() implies items@.len() <= #[trigger] idx[k] < n by {
                if k < p {
                    assert(idx[k] == old_idx[k]);
                } else if k > p {
                    assert(idx[k] == old_idx[k - 1]);
                }
            }
        }
    }
    (out, Ghost(idx))
}

} // verus!
