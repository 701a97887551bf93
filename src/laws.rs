//! Facts that hold across the library's operations, proved over the models that the
//! operations' contracts use.
use crate::decimal::{
    is_padded, is_shortest, lemma_padded_round_trip, lemma_shortest_round_trip,
};
use crate::format::{FTok, SchemeKind, valid_format};
use crate::specifier::{SemanticLevel, Specifier};
use crate::version::{
    VTok, compare, good_from, has_target, increment_overflows, increment_result, incremented,
    is_target, lemma_split_good, lex, parse_result, parsed, render, shapes, split, start_of,
    target_before, tok_text, values_fit,
};
use core::cmp::Ordering;
use vstd::prelude::*;

verus! {

/// A number written the way its specifier writes numbers: unpadded specifiers without
/// leading zeros, zero-padded ones with exactly the padding they add.
pub open spec fn canonical_piece(sp: Specifier, d: Seq<char>) -> bool {
    if sp.is_zero_padded() {
        is_padded(d)
    } else {
        is_shortest(d)
    }
}

/// Every number that the tokens read from `s` is written canonically.
pub open spec fn written_canonically(ft: Seq<FTok>, s: Seq<char>) -> bool {
    match split(ft, 0, s, 0) {
        Some(e) => forall|k: int|
            0 <= k < ft.len() && #[trigger] ft[k] is Spec ==> canonical_piece(
                ft[k]->Spec_0,
                s.subrange(start_of(e, 0, k), e[k]),
            ),
        None => true,
    }
}

/// Semantic values appear from the highest level to the lowest.
pub open spec fn levels_descending(v: Seq<VTok>) -> bool {
    forall|i: int, j: int|
        0 <= i < j < v.len() && #[trigger] v[i] is Value && #[trigger] v[j] is Value
            && v[i]->spec.level() is Some && v[j]->spec.level() is Some ==> v[i]->spec.level()->0.rank()
            > v[j]->spec.level()->0.rank()
}

/// The version read from a string has exactly the tokens of the format it was read with.
pub proof fn lemma_format_identity(ft: Seq<FTok>, s: Seq<char>)
    requires
        parse_result(ft, s) is Some,
    ensures
        shapes(parse_result(ft, s)->0) == ft,
{
    let e = split(ft, 0, s, 0)->0;
    assert(shapes(parsed(ft, s, e)) =~= ft);
}

/// Versions read with formats that differ in any token are incomparable.
pub proof fn lemma_incomparable(ft1: Seq<FTok>, s1: Seq<char>, ft2: Seq<FTok>, s2: Seq<char>)
    requires
        ft1 != ft2,
        parse_result(ft1, s1) is Some,
        parse_result(ft2, s2) is Some,
    ensures
        compare(parse_result(ft1, s1)->0, parse_result(ft2, s2)->0) is None,
        compare(parse_result(ft2, s2)->0, parse_result(ft1, s1)->0) is None,
{
    lemma_format_identity(ft1, s1);
    lemma_format_identity(ft2, s2);
}

/// Rendering a parsed version gives back the string it was read from, when every number
/// in that string is written the way its specifier writes numbers.
pub proof fn lemma_round_trip(ft: Seq<FTok>, s: Seq<char>)
    requires
        parse_result(ft, s) is Some,
        written_canonically(ft, s),
    ensures
        render(parse_result(ft, s)->0) == s,
{
    let e = split(ft, 0, s, 0)->0;
    let p = parsed(ft, s, e);
    lemma_split_good(ft, 0, s, 0);
    lemma_render_prefix(ft, s, e, ft.len() as int);
    assert(p.subrange(0, p.len() as int) =~= p);
    if ft.len() == 0 {
        assert(s.subrange(0, 0) =~= s);
    } else {
        assert(s.subrange(0, s.len() as int) =~= s);
    }
}

proof fn lemma_render_prefix(ft: Seq<FTok>, s: Seq<char>, e: Seq<int>, n: int)
    requires
        good_from(ft, 0, s, 0, e),
        split(ft, 0, s, 0) == Some(e),
        written_canonically(ft, s),
        0 <= n <= ft.len(),
    ensures
        render(parsed(ft, s, e).subrange(0, n)) == s.subrange(0, start_of(e, 0, n)),
    decreases n,
{
    let p = parsed(ft, s, e);
    if n == 0 {
        assert(p.subrange(0, 0) =~= seq![]);
        assert(s.subrange(0, 0) =~= seq![]);
    } else {
        let k = n - 1;
        lemma_render_prefix(ft, s, e, k);
        assert(p.subrange(0, n).drop_last() =~= p.subrange(0, k));
        let a = start_of(e, 0, k);
        let b = e[k];
        assert(ft[0 + k] == ft[k]);
        assert(0 <= a <= b <= s.len());
        let d = s.subrange(a, b);
        assert(tok_text(p[k]) == d) by {
            match ft[k] {
                FTok::Spec(sp) => {
                    assert(canonical_piece(sp, d));
                    if sp.is_zero_padded() {
                        lemma_padded_round_trip(d);
                    } else {
                        lemma_shortest_round_trip(d);
                    }
                },
                FTok::Lit(l) => {},
            }
        }
        assert(s.subrange(0, a) + d =~= s.subrange(0, b));
    }
}

proof fn lemma_lex_prefix(a: Seq<VTok>, b: Seq<VTok>, k: int, i: int)
    requires
        0 <= k <= i < a.len(),
        a.len() == b.len(),
        forall|j: int| k <= j < i ==> a[j] == b[j],
    ensures
        lex(a, b, k) == lex(a, b, i),
    decreases i - k,
{
    if k < i {
        lemma_lex_prefix(a, b, k + 1, i);
    }
}

/// Incrementing a semantic version by a level it holds gives a strictly greater version,
/// when its semantic values appear from the highest level to the lowest.
pub proof fn lemma_increment_greater(v: Seq<VTok>, level: SemanticLevel)
    requires
        valid_format(SchemeKind::Semantic, shapes(v)),
        values_fit(v),
        levels_descending(v),
        increment_result(v, level) is Ok,
    ensures
        compare(increment_result(v, level)->Ok_0, v) == Some(Ordering::Greater),
{
    let n = incremented(v, level);
    assert(has_target(v, level));
    let i = choose|i: int| 0 <= i < v.len() && #[trigger] is_target(v[i], level);
    assert(!target_before(v, level, i)) by {
        if target_before(v, level, i) {
            let j = choose|j: int| 0 <= j < i && #[trigger] is_target(v[j], level);
            assert(v[j] is Value && v[i] is Value);
        }
    }
    assert(!increment_overflows(v, level));
    assert(v[i]->value < u32::MAX);
    assert forall|j: int| 0 <= j < i implies n[j] == v[j] by {
        if v[j] is Value && v[j]->spec.level() is Some {
            assert(v[i] is Value);
        }
    }
    assert(shapes(n) =~= shapes(v));
    lemma_lex_prefix(n, v, 0, i);
}

} // verus!
