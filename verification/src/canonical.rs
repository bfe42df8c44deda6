//! Canonical parameter strings: the deterministic, key-sorted, `&`-joined
//! `key=value` serialization of request parameters, excluding the
//! signature itself. Both the verifier and the cache-key deriver consume
//! this form, which makes signatures and cache keys independent of the
//! client's parameter order.
use vstd::prelude::*;
use vstd::relations::total_ordering;
use vstd::relations::sorted_by;
use vstd::seq_lib::lemma_sorted_unique;
use crate::text::lex_le;
use crate::text::lex_lt;
use crate::text::lemma_lex_le_reflexive;
use crate::text::lemma_lex_le_antisymmetric;
use crate::text::lemma_lex_le_transitive;
use crate::text::lemma_lex_le_connected;
use crate::text::str_lex_lt;

verus! {

/// The view of an owned parameter pair.
pub open spec fn pair_view(p: (String, String)) -> (Seq<char>, Seq<char>) {
    (p.0@, p.1@)
}

/// The views of a sequence of owned parameter pairs.
pub open spec fn views_of(s: Seq<(String, String)>) -> Seq<(Seq<char>, Seq<char>)> {
    s.map_values(|p: (String, String)| pair_view(p))
}

/// Total order on parameter pairs: by key, ties broken by value, both
/// lexicographic.
pub open spec fn param_le(a: (Seq<char>, Seq<char>), b: (Seq<char>, Seq<char>)) -> bool {
    lex_lt(a.0, b.0) || (a.0 == b.0 && lex_le(a.1, b.1))
}

/// The pair order as a first-class relation, for use with sorting.
pub open spec fn param_leq() -> spec_fn((Seq<char>, Seq<char>), (Seq<char>, Seq<char>)) -> bool {
    |a: (Seq<char>, Seq<char>), b: (Seq<char>, Seq<char>)| param_le(a, b)
}

/// The pair order is a total ordering, so sorting by it has a unique
/// result.
pub proof fn lemma_param_leq_total_ordering()
    ensures
        total_ordering(param_leq()),
{
    let leq = param_leq();
    assert forall|a: (Seq<char>, Seq<char>)| #[trigger] leq(a, a) by {
        lemma_lex_le_reflexive(a.0);
        lemma_lex_le_reflexive(a.1);
    }
    assert forall|a: (Seq<char>, Seq<char>), b: (Seq<char>, Seq<char>)|
        #[trigger] leq(a, b) && #[trigger] leq(b, a) implies a == b by {
        if lex_lt(a.0, b.0) && lex_lt(b.0, a.0) {
            lemma_lex_le_antisymmetric(a.0, b.0);
        } else if lex_lt(a.0, b.0) || lex_lt(b.0, a.0) {
            assert(a.0 == b.0);
        } else {
            lemma_lex_le_antisymmetric(a.1, b.1);
        }
    }
    assert forall|a: (Seq<char>, Seq<char>), b: (Seq<char>, Seq<char>), c: (Seq<char>, Seq<char>)|
        #[trigger] leq(a, b) && #[trigger] leq(b, c) implies leq(a, c) by {
        if a.0 == b.0 && b.0 == c.0 {
            lemma_lex_le_transitive(a.1, b.1, c.1);
        } else if a.0 == b.0 {
            assert(lex_lt(b.0, c.0));
        } else if b.0 == c.0 {
            assert(lex_lt(a.0, b.0));
        } else {
            lemma_lex_le_transitive(a.0, b.0, c.0);
            if a.0 == c.0 {
                lemma_lex_le_antisymmetric(a.0, b.0);
            }
        }
    }
    assert forall|a: (Seq<char>, Seq<char>), b: (Seq<char>, Seq<char>)|
        #[trigger] leq(a, b) || #[trigger] leq(b, a) by {
        lemma_lex_le_connected(a.0, b.0);
        if a.0 == b.0 {
            lemma_lex_le_connected(a.1, b.1);
        }
    }
}

/// One `key=value` segment of the canonical string.
pub open spec fn spec_param_part(p: (Seq<char>, Seq<char>)) -> Seq<char> {
    p.0 + "="@ + p.1
}

/// `&`-joined `key=value` segments, in sequence order.
pub open spec fn spec_join_params(qs: Seq<(Seq<char>, Seq<char>)>) -> Seq<char>
    decreases qs.len(),
{
    if qs.len() == 0 {
        Seq::<char>::empty()
    } else if qs.len() == 1 {
        spec_param_part(qs[0])
    } else {
        spec_param_part(qs[0]) + "&"@ + spec_join_params(qs.drop_first())
    }
}

/// Appending one more pair extends the join by a separator and a segment.
pub proof fn lemma_join_params_snoc(qs: Seq<(Seq<char>, Seq<char>)>, q: (Seq<char>, Seq<char>))
    ensures
        spec_join_params(qs.push(q)) == if qs.len() == 0 {
            spec_param_part(q)
        } else {
            spec_join_params(qs) + "&"@ + spec_param_part(q)
        },
    decreases qs.len(),
{
    let w = qs.push(q);
    if qs.len() == 0 {
        assert(w.len() == 1);
        assert(w[0] == q);
    } else {
        assert(w[0] == qs[0]);
        lemma_join_params_snoc(qs.drop_first(), q);
        assert(w.drop_first() =~= qs.drop_first().push(q));
        if qs.len() == 1 {
            assert(qs.drop_first().len() == 0);
            assert(spec_join_params(qs) == spec_param_part(qs[0]));
        } else {
            assert(spec_join_params(w) == spec_param_part(qs[0]) + "&"@ + spec_join_params(
                qs.drop_first().push(q),
            ));
            assert(spec_param_part(qs[0]) + "&"@ + (spec_join_params(qs.drop_first()) + "&"@
                + spec_param_part(q)) =~= (spec_param_part(qs[0]) + "&"@ + spec_join_params(
                qs.drop_first(),
            )) + "&"@ + spec_param_part(q));
        }
    }
}

/// Whether a pair is kept in the canonical string: everything but the
/// signature parameter itself.
pub open spec fn spec_not_sig(p: (Seq<char>, Seq<char>)) -> bool {
    p.0 != "sig"@
}

/// The canonical parameter string of a collection of pairs: sort by the
/// pair order, drop the `sig` parameter, join the rest. Because the order
/// is total, the result depends only on the multiset of pairs.
pub open spec fn spec_canonical(ps: Seq<(Seq<char>, Seq<char>)>) -> Seq<char> {
    spec_join_params(
        ps.sort_by(param_leq()).filter(|p: (Seq<char>, Seq<char>)| spec_not_sig(p)),
    )
}

/// Canonicalization commutativity: collections holding the same parameter
/// pairs, in whatever order, canonicalize to the same string.
pub proof fn lemma_canonical_commutative(
    ps1: Seq<(Seq<char>, Seq<char>)>,
    ps2: Seq<(Seq<char>, Seq<char>)>,
)
    requires
        ps1.to_multiset() == ps2.to_multiset(),
    ensures
        spec_canonical(ps1) == spec_canonical(ps2),
{
    lemma_param_leq_total_ordering();
    ps1.lemma_sort_by_ensures(param_leq());
    ps2.lemma_sort_by_ensures(param_leq());
    lemma_sorted_unique(ps1.sort_by(param_leq()), ps2.sort_by(param_leq()), param_leq());
    assert(ps1.sort_by(param_leq()) =~= ps2.sort_by(param_leq()));
}

/// Sorting an already-sorted sequence leaves it alone.
pub proof fn lemma_sort_by_of_sorted(ps: Seq<(Seq<char>, Seq<char>)>)
    requires
        sorted_by(ps, param_leq()),
    ensures
        ps.sort_by(param_leq()) == ps,
{
    lemma_param_leq_total_ordering();
    ps.lemma_sort_by_ensures(param_leq());
    lemma_sorted_unique(ps.sort_by(param_leq()), ps, param_leq());
    assert(ps.sort_by(param_leq()) =~= ps);
}

/// Filtering drops nothing from a sequence every element of which the
/// predicate keeps.
pub proof fn lemma_filter_all_kept(
    ps: Seq<(Seq<char>, Seq<char>)>,
    pred: spec_fn((Seq<char>, Seq<char>)) -> bool,
)
    requires
        forall|i: int| 0 <= i < ps.len() ==> pred(#[trigger] ps[i]),
    ensures
        ps.filter(pred) == ps,
    decreases ps.len(),
{
    reveal(Seq::filter);
    if ps.len() > 0 {
        assert(forall|i: int| 0 <= i < ps.len() - 1 ==> #[trigger] ps.drop_last()[i] == ps[i]);
        lemma_filter_all_kept(ps.drop_last(), pred);
        assert(pred(ps.last()));
        assert(ps.filter(pred) == ps.drop_last().push(ps.last()));
        assert(ps.drop_last().push(ps.last()) =~= ps);
    }
}

/// Changing the value of one pair — keys, order and every other pair
/// unchanged — changes the joined string.
pub proof fn lemma_join_value_tamper(
    qs1: Seq<(Seq<char>, Seq<char>)>,
    qs2: Seq<(Seq<char>, Seq<char>)>,
    d: int,
)
    requires
        qs1.len() == qs2.len(),
        0 <= d < qs1.len(),
        forall|i: int| 0 <= i < qs1.len() && i != d ==> qs1[i] == #[trigger] qs2[i],
        qs1[d].0 == qs2[d].0,
        qs1[d].1 != qs2[d].1,
    ensures
        spec_join_params(qs1) != spec_join_params(qs2),
    decreases d,
{
    reveal_strlit("=");
    reveal_strlit("&");
    let k = qs1[d].0;
    let v1 = qs1[d].1;
    let v2 = qs2[d].1;
    if spec_join_params(qs1) == spec_join_params(qs2) {
        if d == 0 {
            if qs1.len() == 1 {
                assert(spec_join_params(qs1) == (k + "="@) + v1);
                assert(spec_join_params(qs2) == (k + "="@) + v2);
                crate::text::lemma_concat_parts_equal(k + "="@, v1, k + "="@, v2);
                assert(false);
            } else {
                assert(qs1.drop_first() =~= qs2.drop_first()) by {
                    assert(forall|i: int|
                        0 <= i < qs1.len() - 1 ==> #[trigger] qs1.drop_first()[i] == qs1[i + 1]);
                    assert(forall|i: int|
                        0 <= i < qs2.len() - 1 ==> #[trigger] qs2.drop_first()[i] == qs2[i + 1]);
                }
                let j = spec_join_params(qs1.drop_first());
                let part1 = spec_param_part(qs1[0]);
                let part2 = spec_param_part(qs2[0]);
                assert(spec_join_params(qs1) == (part1 + "&"@) + j) by {
                    assert(part1 + "&"@ + j == (part1 + "&"@) + j);
                }
                assert(spec_join_params(qs2) == (part2 + "&"@) + j) by {
                    assert(part2 + "&"@ + j == (part2 + "&"@) + j);
                }
                assert(((part1 + "&"@) + j).len() == ((part2 + "&"@) + j).len());
                assert((part1 + "&"@).len() == (part2 + "&"@).len());
                crate::text::lemma_concat_parts_equal(part1 + "&"@, j, part2 + "&"@, j);
                crate::text::lemma_concat_parts_equal(part1, "&"@, part2, "&"@);
                crate::text::lemma_concat_parts_equal(k + "="@, v1, k + "="@, v2);
                assert(false);
            }
        } else {
            assert(qs1[0] == qs2[0]);
            assert(qs1.len() >= 2);
            let part0 = spec_param_part(qs1[0]);
            let j1 = spec_join_params(qs1.drop_first());
            let j2 = spec_join_params(qs2.drop_first());
            assert(spec_join_params(qs1) == (part0 + "&"@) + j1) by {
                assert(part0 + "&"@ + j1 == (part0 + "&"@) + j1);
            }
            assert(spec_join_params(qs2) == (part0 + "&"@) + j2) by {
                assert(part0 + "&"@ + j2 == (part0 + "&"@) + j2);
            }
            crate::text::lemma_concat_parts_equal(part0 + "&"@, j1, part0 + "&"@, j2);
            assert(forall|i: int|
                0 <= i < qs1.len() - 1 ==> #[trigger] qs1.drop_first()[i] == qs1[i + 1]);
            assert(forall|i: int|
                0 <= i < qs2.len() - 1 ==> #[trigger] qs2.drop_first()[i] == qs2[i + 1]);
            lemma_join_value_tamper(qs1.drop_first(), qs2.drop_first(), d - 1);
            assert(false);
        }
    }
}

/// Tamper sensitivity: take a canonical parameter list — key-sorted,
/// signature excluded — and change the value of any single parameter;
/// the canonical string changes. The signature verifier therefore
/// recomputes the HMAC of a different message than the one originally
/// signed; that distinct messages authenticate differently is the MAC's
/// collision resistance, which lies with the cryptographic primitive,
/// not in this model.
pub proof fn lemma_canonical_value_tamper(
    ps1: Seq<(Seq<char>, Seq<char>)>,
    ps2: Seq<(Seq<char>, Seq<char>)>,
    d: int,
)
    requires
        sorted_by(ps1, param_leq()),
        sorted_by(ps2, param_leq()),
        forall|i: int| 0 <= i < ps1.len() ==> spec_not_sig(#[trigger] ps1[i]),
        forall|i: int| 0 <= i < ps2.len() ==> spec_not_sig(#[trigger] ps2[i]),
        ps1.len() == ps2.len(),
        0 <= d < ps1.len(),
        forall|i: int| 0 <= i < ps1.len() && i != d ==> ps1[i] == #[trigger] ps2[i],
        ps1[d].0 == ps2[d].0,
        ps1[d].1 != ps2[d].1,
    ensures
        spec_canonical(ps1) != spec_canonical(ps2),
{
    let pred = |p: (Seq<char>, Seq<char>)| spec_not_sig(p);
    lemma_sort_by_of_sorted(ps1);
    lemma_sort_by_of_sorted(ps2);
    lemma_filter_all_kept(ps1, pred);
    lemma_filter_all_kept(ps2, pred);
    lemma_join_value_tamper(ps1, ps2, d);
}

/// Executable comparison agreeing with the pair order on views.
fn param_le_exec(a: &(String, String), b: &(String, String)) -> (r: bool)
    ensures
        r == param_le(pair_view(*a), pair_view(*b)),
{
    if str_lex_lt(a.0.as_str(), b.0.as_str()) {
        true
    } else if a.0 == b.0 {
        crate::text::str_lex_le(a.1.as_str(), b.1.as_str())
    } else {
        false
    }
}

/// Sorts parameter pairs by the pair order; at the view level the result
/// is exactly `sort_by` of the input's views.
fn sort_pairs(input: &Vec<(String, String)>) -> (r: Vec<(String, String)>)
    ensures
        views_of(r@) == views_of(input@).sort_by(param_leq()),
{
    broadcast use vstd::seq_lib::to_multiset_insert;
    broadcast use vstd::seq_lib::group_to_multiset_ensures;

    let leq = Ghost(param_leq());
    let mut r: Vec<(String, String)> = Vec::new();
    let mut i: usize = 0;
    proof {
        assert(views_of(input@.subrange(0, 0)) =~= Seq::<(Seq<char>, Seq<char>)>::empty());
        assert(views_of(r@) =~= Seq::<(Seq<char>, Seq<char>)>::empty());
        assert(views_of(r@).to_multiset() =~= views_of(input@.subrange(0, 0)).to_multiset());
    }
    while i < input.len()
        invariant
            i <= input@.len(),
            leq@ == param_leq(),
            sorted_by(views_of(r@), leq@),
            views_of(r@).to_multiset() == views_of(input@.subrange(0, i as int)).to_multiset(),
        decreases input@.len() - i,
    {
        let x = (input[i].0.clone(), input[i].1.clone());
        let ghost xv = pair_view(x);
        proof {
            assert(xv == pair_view(input@[i as int]));
        }
        let mut j: usize = 0;
        while j < r.len() && !param_le_exec(&x, &r[j])
            invariant
                j <= r@.len(),
                leq@ == param_leq(),
                xv == pair_view(x),
                sorted_by(views_of(r@), leq@),
                forall|k: int| 0 <= k < j ==> !param_le(xv, #[trigger] views_of(r@)[k]),
            decreases r@.len() - j,
        {
            j = j + 1;
        }
        proof {
            lemma_param_leq_total_ordering();
        }
        let ghost old_r = r@;
        r.insert(j, x);
        proof {
            let lq = param_leq();
            let vs = views_of(old_r);
            let nvs = views_of(r@);
            assert(nvs =~= vs.insert(j as int, xv));
            assert(forall|p: int| 0 <= p < j ==> nvs[p] == vs[p]);
            assert(nvs[j as int] == xv);
            assert(forall|q: int| j < q < nvs.len() ==> nvs[q] == vs[q - 1]);
            // sortedness of the new sequence
            assert forall|p: int, q: int| 0 <= p < q < nvs.len() implies #[trigger] lq(
                nvs[p],
                nvs[q],
            ) by {
                if q < j {
                    assert(lq(vs[p], vs[q]));
                } else if p < j && q == j {
                    assert(!param_le(xv, vs[p]));
                    assert(lq(vs[p], xv) || lq(xv, vs[p]));
                    assert(lq(vs[p], xv));
                } else if p < j && q > j {
                    assert(lq(vs[p], vs[q - 1]));
                } else if p == j && q > j {
                    // everything at or past the insertion point is above x
                    assert(lq(xv, vs[j as int]));
                    if q - 1 > j {
                        assert(lq(vs[j as int], vs[q - 1]));
                        assert(lq(xv, vs[q - 1]));
                    }
                } else {
                    assert(lq(vs[p - 1], vs[q - 1]));
                }
            }
            assert(sorted_by(nvs, lq));
            // multiset bookkeeping
            assert(views_of(input@.subrange(0, i + 1)).drop_last() =~= views_of(
                input@.subrange(0, i as int),
            ));
            assert(views_of(input@.subrange(0, i + 1)).last() == xv);
            assert(views_of(input@.subrange(0, i + 1)) =~= views_of(
                input@.subrange(0, i as int),
            ).push(xv));
            assert(j <= vs.len());
            vstd::seq_lib::to_multiset_insert(vs, j as int, xv);
            vstd::seq_lib::to_multiset_build(views_of(input@.subrange(0, i as int)), xv);
            assert(nvs.to_multiset() =~= views_of(input@.subrange(0, i + 1)).to_multiset());
        }
        i = i + 1;
    }
    proof {
        assert(input@.subrange(0, input@.len() as int) =~= input@);
        lemma_param_leq_total_ordering();
        views_of(input@).lemma_sort_by_ensures(param_leq());
        lemma_sorted_unique(views_of(r@), views_of(input@).sort_by(param_leq()), param_leq());
        assert(views_of(r@) =~= views_of(input@).sort_by(param_leq()));
    }
    r
}

/// Builds the canonical parameter string of the given pairs: key-sorted,
/// `&`-joined `key=value` segments, excluding any `sig` parameter.
pub fn canonical_string(params: &Vec<(String, String)>) -> (r: String)
    ensures
        r@ == spec_canonical(views_of(params@)),
{
    let sorted = sort_pairs(params);
    let ghost sv = views_of(sorted@);
    let ghost pred = |p: (Seq<char>, Seq<char>)| spec_not_sig(p);
    let sig_key = String::from_str("sig");
    let mut out = String::new();
    let mut started = false;
    let mut i: usize = 0;
    proof {
        reveal(Seq::filter);
        assert(sv.subrange(0, 0) =~= Seq::<(Seq<char>, Seq<char>)>::empty());
        assert(sv.subrange(0, 0).filter(pred) =~= Seq::<(Seq<char>, Seq<char>)>::empty());
    }
    while i < sorted.len()
        invariant
            i <= sorted@.len(),
            sv == views_of(sorted@),
            pred == (|p: (Seq<char>, Seq<char>)| spec_not_sig(p)),
            sig_key@ == "sig"@,
            out@ == spec_join_params(sv.subrange(0, i as int).filter(pred)),
            started == (sv.subrange(0, i as int).filter(pred).len() > 0),
        decreases sorted@.len() - i,
    {
        let ghost prefix = sv.subrange(0, i as int);
        let ghost next_prefix = sv.subrange(0, i + 1);
        proof {
            reveal(Seq::filter);
            assert(next_prefix.drop_last() =~= prefix);
            assert(next_prefix.last() == sv[i as int]);
        }
        if !(sorted[i].0 == sig_key) {
            if started {
                out.append("&");
            }
            out.append(sorted[i].0.as_str());
            out.append("=");
            out.append(sorted[i].1.as_str());
            started = true;
            proof {
                reveal(Seq::filter);
                assert(pred(sv[i as int]));
                assert(next_prefix.filter(pred) == prefix.filter(pred).push(sv[i as int]));
                lemma_join_params_snoc(prefix.filter(pred), sv[i as int]);
                assert(out@ =~= spec_join_params(next_prefix.filter(pred)));
            }
        } else {
            proof {
                reveal(Seq::filter);
                assert(!pred(sv[i as int]));
                assert(next_prefix.filter(pred) == prefix.filter(pred));
            }
        }
        i = i + 1;
    }
    proof {
        assert(sv.subrange(0, sorted@.len() as int) =~= sv);
    }
    out
}

} // verus!
