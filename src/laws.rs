use vstd::prelude::*;

use crate::directive::{declaration_of, inject_model, provide_model, reference_key};
use crate::text::{
    delim_at, delimiter, find_from, holds_delim, lemma_find_from_bounds, lemma_split_pair,
    lemma_split_single, split_parts, trim,
};

verus! {

/// The registry's mapping after the register directives `texts` of one pass,
/// in order, starting from the empty mapping; `None` once one is malformed.
pub open spec fn pass_model(texts: Seq<Seq<char>>) -> Option<Map<Seq<char>, Seq<char>>>
    decreases texts.len(),
{
    if texts.len() == 0 {
        Some(Map::empty())
    } else {
        match pass_model(texts.drop_last()) {
            Some(m) => provide_model(m, texts.last()),
            None => None,
        }
    }
}

/// Where the delimiter starts at `i` and nowhere in `[lo, i)`, a search from
/// `lo` finds it at `i`.
proof fn lemma_find_from_first(s: Seq<char>, lo: int, i: int)
    requires
        0 <= lo <= i,
        delim_at(s, i),
        forall|j: int| lo <= j < i ==> !delim_at(s, j),
    ensures
        find_from(s, lo) == Some(i),
{
    lemma_find_from_bounds(s, lo);
    match find_from(s, lo) {
        Some(w) => {
            if w > i {
                assert(delim_at(s, i));
            }
        },
        None => {
            assert(delim_at(s, i));
        },
    }
}

/// Round trip: registering `k <- e` and then resolving `k` yields `e`, both
/// taken without surrounding whitespace. The declaration must split where it
/// was joined: `k` holds no delimiter, not even with the delimiter's first
/// three characters after it, and `e` holds none.
pub proof fn lemma_round_trip(m: Map<Seq<char>, Seq<char>>, k: Seq<char>, e: Seq<char>)
    requires
        !holds_delim(k + seq![' ', '<', '-']),
        !holds_delim(e),
    ensures
        declaration_of(k + delimiter() + e) == Some((trim(k), trim(e))),
        provide_model(m, k + delimiter() + e) == Some(m.insert(trim(k), trim(e))),
        inject_model(m.insert(trim(k), trim(e)), k) == Some(trim(e)),
{
    let s = k + delimiter() + e;
    let kd = k + seq![' ', '<', '-'];
    let n = k.len() as int;
    assert(s.subrange(n, n + 4) =~= delimiter());
    assert forall|j: int| 0 <= j < n implies !delim_at(s, j) by {
        assert(s.subrange(j, j + 4) =~= kd.subrange(j, j + 4));
        assert(!delim_at(kd, j));
    }
    lemma_find_from_first(s, 0, n);
    assert forall|j: int| n + 4 <= j implies !delim_at(s, j) by {
        if j + 4 <= s.len() {
            assert(s.subrange(j, j + 4) =~= e.subrange(j - n - 4, j - n));
            assert(!delim_at(e, j - n - 4));
        }
    }
    lemma_find_from_bounds(s, n + 4);
    lemma_split_pair(s);
    assert(s.take(n) =~= k);
    assert(s.skip(n + 4) =~= e);
}

/// Overwrite: after two register directives for the same key, resolving
/// that key yields the second expression.
pub proof fn lemma_overwrite(
    m: Map<Seq<char>, Seq<char>>,
    first: Seq<char>,
    second: Seq<char>,
    reference: Seq<char>,
)
    requires
        declaration_of(first) is Some,
        declaration_of(second) is Some,
        declaration_of(first)->Some_0.0 == declaration_of(second)->Some_0.0,
        reference_key(reference) == declaration_of(first)->Some_0.0,
    ensures
        provide_model(m, first) is Some,
        provide_model(provide_model(m, first)->Some_0, second) is Some,
        inject_model(provide_model(provide_model(m, first)->Some_0, second)->Some_0, reference)
            == Some(declaration_of(second)->Some_0.1),
{
}

/// Unknown key: resolving a key that no register directive of the pass
/// declared yields nothing.
pub proof fn lemma_unknown_key(texts: Seq<Seq<char>>, reference: Seq<char>)
    requires
        pass_model(texts) is Some,
        forall|i: int|
            0 <= i < texts.len() ==> #[trigger] declaration_of(texts[i])->Some_0.0
                != reference_key(reference),
    ensures
        inject_model(pass_model(texts)->Some_0, reference) is None,
    decreases texts.len(),
{
    if texts.len() > 0 {
        let rest = texts.drop_last();
        assert forall|i: int| 0 <= i < rest.len() implies #[trigger] declaration_of(
            rest[i],
        )->Some_0.0 != reference_key(reference) by {
            assert(rest[i] == texts[i]);
        }
        lemma_unknown_key(rest, reference);
        assert(declaration_of(texts[texts.len() - 1])->Some_0.0 != reference_key(reference));
    }
}

/// Malformed declaration: a register directive's text without the
/// delimiter, or one that does not split into exactly two pieces, declares
/// nothing.
pub proof fn lemma_malformed(m: Map<Seq<char>, Seq<char>>, text: Seq<char>)
    requires
        !holds_delim(text) || split_parts(text).len() != 2,
    ensures
        !holds_delim(text) ==> split_parts(text).len() == 1,
        declaration_of(text) is None,
        provide_model(m, text) is None,
{
    lemma_split_single(text);
}

/// Isolation: a key registered in one pass cannot be resolved in a fresh
/// pass, which starts from the empty mapping.
pub proof fn lemma_isolation(first: Seq<Seq<char>>, reference: Seq<char>)
    requires
        pass_model(first) is Some,
        inject_model(pass_model(first)->Some_0, reference) is Some,
    ensures
        pass_model(Seq::empty()) == Some(Map::<Seq<char>, Seq<char>>::empty()),
        inject_model(pass_model(Seq::empty())->Some_0, reference) is None,
{
}

} // verus!
