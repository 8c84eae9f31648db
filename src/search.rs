//! Line search over a text, exact or after lowering both sides.
use vstd::prelude::*;
use vstd::string::StringSliceAdditionalSpecFns;
use vstd::utf8::*;
use crate::text::{contains_text, has_substring, line_bytes, lines_of, split_lines};

verus! {

/// The lowercase form of a text, as `str::to_lowercase` computes it.
pub uninterp spec fn lower_of(s: Seq<char>) -> Seq<char>;

/// Relies on `str::to_lowercase`: the lowered text depends on the characters
/// alone.
#[verifier::external_body]
fn lowercase(s: &str) -> (r: String)
    ensures
        r@ == lower_of(s@),
{
    s.to_lowercase()
}

/// Holds of a line whose bytes contain `q`.
pub open spec fn contains_query(q: Seq<u8>) -> spec_fn(Seq<u8>) -> bool {
    |l: Seq<u8>| has_substring(l, q)
}

/// The UTF-8 bytes of the lowercase form of the text encoded by `b`.
pub open spec fn folded_bytes(b: Seq<u8>) -> Seq<u8> {
    encode_utf8(lower_of(decode_utf8(b)))
}

/// Holds of a line whose lowercase form contains the lowercase form of `q`.
pub open spec fn contains_query_folded(q: Seq<u8>) -> spec_fn(Seq<u8>) -> bool {
    |l: Seq<u8>| has_substring(folded_bytes(l), folded_bytes(q))
}

/// The lines of `t` that contain `q`, in order.
pub open spec fn search_spec(q: Seq<u8>, t: Seq<u8>) -> Seq<Seq<u8>> {
    lines_of(t).filter(contains_query(q))
}

/// The lines of `t` that contain `q` once both are lowered, in order.
pub open spec fn search_folded_spec(q: Seq<u8>, t: Seq<u8>) -> Seq<Seq<u8>> {
    lines_of(t).filter(contains_query_folded(q))
}

/// The lines of `content` that contain `query`, as views into `content`, in
/// the order in which they stand.
pub fn search<'a>(query: &str, content: &'a str) -> (r: Vec<&'a str>)
    ensures
        line_bytes(r@) == search_spec(query.spec_bytes(), content.spec_bytes()),
{
    let lines = split_lines(content);
    let ghost pred = contains_query(query.spec_bytes());
    let mut results: Vec<&'a str> = Vec::new();
    let mut i: usize = 0;
    while i < lines.len()
        invariant
            i <= lines@.len(),
            pred == contains_query(query.spec_bytes()),
            line_bytes(lines@) == lines_of(content.spec_bytes()),
            line_bytes(results@) == line_bytes(lines@).take(i as int).filter(pred),
        decreases lines@.len() - i,
    {
        let line = lines[i];
        let found = contains_text(line, query);
        proof {
            let all = line_bytes(lines@);
            assert(all[i as int] == line.spec_bytes());
            assert(all.take(i + 1) =~= all.take(i as int).push(line.spec_bytes()));
            all.take(i as int).lemma_filter_push(line.spec_bytes(), pred);
        }
        if found {
            proof {
                assert(line_bytes(results@.push(line)) =~= line_bytes(results@).push(
                    line.spec_bytes(),
                ));
            }
            results.push(line);
        }
        i = i + 1;
    }
    assert(line_bytes(lines@).take(lines@.len() as int) =~= line_bytes(lines@));
    results
}

/// The lines of `content` that contain `query` once both are lowered, as views
/// into `content` in their original case, in the order in which they stand.
pub fn search_case_insenstive<'a>(query: &str, content: &'a str) -> (r: Vec<&'a str>)
    ensures
        line_bytes(r@) == search_folded_spec(query.spec_bytes(), content.spec_bytes()),
{
    broadcast use encode_utf8_decode_utf8;

    let lines = split_lines(content);
    let folded_query = lowercase(query);
    let ghost pred = contains_query_folded(query.spec_bytes());
    let mut results: Vec<&'a str> = Vec::new();
    let mut i: usize = 0;
    while i < lines.len()
        invariant
            i <= lines@.len(),
            folded_query@ == lower_of(query@),
            pred == contains_query_folded(query.spec_bytes()),
            line_bytes(lines@) == lines_of(content.spec_bytes()),
            line_bytes(results@) == line_bytes(lines@).take(i as int).filter(pred),
        decreases lines@.len() - i,
    {
        let line = lines[i];
        let folded_line = lowercase(line);
        let found = contains_text(folded_line.as_str(), folded_query.as_str());
        proof {
            encode_utf8_decode_utf8(line@);
            encode_utf8_decode_utf8(query@);
            assert(found == pred(line.spec_bytes()));
            let all = line_bytes(lines@);
            assert(all[i as int] == line.spec_bytes());
            assert(all.take(i + 1) =~= all.take(i as int).push(line.spec_bytes()));
            all.take(i as int).lemma_filter_push(line.spec_bytes(), pred);
        }
        if found {
            proof {
                assert(line_bytes(results@.push(line)) =~= line_bytes(results@).push(
                    line.spec_bytes(),
                ));
            }
            results.push(line);
        }
        i = i + 1;
    }
    assert(line_bytes(lines@).take(lines@.len() as int) =~= line_bytes(lines@));
    results
}

} // verus!
