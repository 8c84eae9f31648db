//! Properties that relate the searches to the lines of a text and to each
//! other.
use vstd::prelude::*;
use crate::search::{
    contains_query, contains_query_folded, folded_bytes, search_folded_spec, search_spec,
};
use crate::text::{has_substring, lines_of, occurs_at};

verus! {

broadcast use {Seq::lemma_filter_contains_rev, vstd::seq_lib::group_filter_ensures};

/// Exact search keeps precisely the lines of `t` that contain `q`: each line it
/// returns is a line of `t` containing `q`, and each such line is returned.
pub proof fn lemma_search_keeps_matching_lines(q: Seq<u8>, t: Seq<u8>)
    ensures
        forall|l: Seq<u8>| #[trigger]
            search_spec(q, t).contains(l) <==> lines_of(t).contains(l) && has_substring(l, q),
{
    let pred = contains_query(q);
    assert forall|l: Seq<u8>| #[trigger]
        search_spec(q, t).contains(l) <==> lines_of(t).contains(l) && has_substring(l, q) by {
        if search_spec(q, t).contains(l) {
            let k = choose|k: int| 0 <= k < search_spec(q, t).len() && search_spec(q, t)[k] == l;
            assert(pred(search_spec(q, t)[k]));
        }
        if lines_of(t).contains(l) && has_substring(l, q) {
            let k = choose|k: int| 0 <= k < lines_of(t).len() && lines_of(t)[k] == l;
            assert(pred(lines_of(t)[k]));
        }
    }
}

/// Wherever lowering keeps a case-sensitive match a match, every line that
/// exact search returns is also returned by case-insensitive search.
pub proof fn lemma_folded_search_covers_exact(q: Seq<u8>, t: Seq<u8>)
    requires
        forall|l: Seq<u8>|
            lines_of(t).contains(l) && has_substring(l, q) ==> has_substring(
                #[trigger] folded_bytes(l),
                folded_bytes(q),
            ),
    ensures
        forall|l: Seq<u8>| #[trigger]
            search_spec(q, t).contains(l) ==> search_folded_spec(q, t).contains(l),
{
    let folded = contains_query_folded(q);
    lemma_search_keeps_matching_lines(q, t);
    assert forall|l: Seq<u8>| #[trigger]
        search_spec(q, t).contains(l) implies search_folded_spec(q, t).contains(l) by {
        let k = choose|k: int| 0 <= k < lines_of(t).len() && lines_of(t)[k] == l;
        assert(folded(lines_of(t)[k]));
    }
}

/// With an empty query, exact search returns every line, unchanged and in
/// order.
pub proof fn lemma_empty_query_keeps_all_lines(t: Seq<u8>)
    ensures
        search_spec(Seq::empty(), t) == lines_of(t),
{
    let q = Seq::<u8>::empty();
    assert forall|l: Seq<u8>| has_substring(l, q) by {
        assert(l.subrange(0, 0) =~= q);
        assert(occurs_at(l, q, 0));
    }
    lemma_filter_all(lines_of(t), contains_query(q));
}

proof fn lemma_filter_all(s: Seq<Seq<u8>>, pred: spec_fn(Seq<u8>) -> bool)
    requires
        forall|l: Seq<u8>| #[trigger] pred(l),
    ensures
        s.filter(pred) == s,
    decreases s.len(),
{
    reveal(Seq::filter);
    if s.len() > 0 {
        lemma_filter_all(s.drop_last(), pred);
        assert(s.drop_last().push(s.last()) =~= s);
    }
}

/// Both searches are functions of the query and the text alone: two results
/// for the same inputs hold the same lines.
pub proof fn lemma_search_repeatable(
    q: Seq<u8>,
    t: Seq<u8>,
    first: Seq<Seq<u8>>,
    second: Seq<Seq<u8>>,
    ignore_case: bool,
)
    requires
        first == if ignore_case {
            search_folded_spec(q, t)
        } else {
            search_spec(q, t)
        },
        second == if ignore_case {
            search_folded_spec(q, t)
        } else {
            search_spec(q, t)
        },
    ensures
        first == second,
{
}

} // verus!
