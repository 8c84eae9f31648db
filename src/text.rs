//! The byte-level model of a text: its lines and substring containment.
use vstd::prelude::*;
use vstd::string::StringSliceAdditionalSpecFns;
use vstd::utf8::*;

verus! {

/// The line feed byte, `'\n'`.
pub const LF: u8 = 10;

/// The carriage return byte, `'\r'`.
pub const CR: u8 = 13;

/// The index of the first line feed in `b`, or `b.len()` when there is none.
pub open spec fn newline_pos(b: Seq<u8>) -> int
    decreases b.len(),
{
    if b.len() == 0 {
        0
    } else if b[0] == LF {
        0
    } else {
        1 + newline_pos(b.drop_first())
    }
}

/// A line's text without the carriage return of a `"\r\n"` terminator.
pub open spec fn strip_cr(l: Seq<u8>) -> Seq<u8> {
    if l.len() > 0 && l.last() == CR {
        l.drop_last()
    } else {
        l
    }
}

/// The lines of `b`: split at each line feed, a `"\r\n"` counted as one
/// terminator, with no empty line after a final terminator.
pub open spec fn lines_of(b: Seq<u8>) -> Seq<Seq<u8>>
    decreases b.len(),
{
    if b.len() == 0 {
        seq![]
    } else {
        let e = newline_pos(b);
        if 0 <= e < b.len() {
            seq![strip_cr(b.take(e))] + lines_of(b.skip(e + 1))
        } else {
            seq![b]
        }
    }
}

/// `q` stands in `t` starting at index `i`.
pub open spec fn occurs_at(t: Seq<u8>, q: Seq<u8>, i: int) -> bool {
    0 <= i && i + q.len() <= t.len() && t.subrange(i, i + q.len()) == q
}

/// `q` is a contiguous part of `t`.
pub open spec fn has_substring(t: Seq<u8>, q: Seq<u8>) -> bool {
    exists|i: int| occurs_at(t, q, i)
}

/// The first line feed is the one a left-to-right scan finds.
pub proof fn lemma_newline_pos_found(b: Seq<u8>, e: int)
    requires
        0 <= e <= b.len(),
        e < b.len() ==> b[e] == LF,
        forall|j: int| 0 <= j < e ==> b[j] != LF,
    ensures
        newline_pos(b) == e,
    decreases b.len(),
{
    if b.len() > 0 && e > 0 {
        assert(b[0] != LF);
        let d = b.drop_first();
        assert forall|j: int| 0 <= j < e - 1 implies d[j] != LF by {
            assert(d[j] == b[j + 1]);
        }
        lemma_newline_pos_found(d, e - 1);
    }
}

/// In valid UTF-8, the index of an ASCII byte and the index just after it are
/// both character boundaries.
pub proof fn lemma_ascii_boundary(b: Seq<u8>, i: int)
    requires
        valid_utf8(b),
        0 <= i < b.len(),
        b[i] < 0x80,
    ensures
        is_char_boundary(b, i),
        is_char_boundary(b, i + 1),
    decreases b.len(),
{
    let n = length_of_first_scalar(b);
    let rest = pop_first_scalar(b);
    assert(1 <= n <= 4);
    assert(i == 0 || i >= n);
    if i == 0 {
        assert(n == 1);
        assert(is_char_boundary(rest, 0));
    } else {
        assert(rest[i - n] == b[i]);
        lemma_ascii_boundary(rest, i - n);
    }
}

/// The bytes of each line view, in order.
pub open spec fn line_bytes<'a>(v: Seq<&'a str>) -> Seq<Seq<u8>> {
    v.map_values(|l: &'a str| l.spec_bytes())
}

/// Splits `content` into its lines, each a view into `content` without its
/// terminator.
pub fn split_lines<'a>(content: &'a str) -> (r: Vec<&'a str>)
    ensures
        line_bytes(r@) == lines_of(content.spec_bytes()),
{
    broadcast use encode_utf8_valid_utf8;

    let mut lines: Vec<&'a str> = Vec::new();
    let mut rest: &'a str = content;
    loop
        invariant_except_break
            lines_of(content.spec_bytes()) == line_bytes(lines@) + lines_of(rest.spec_bytes()),
        ensures
            lines_of(content.spec_bytes()) == line_bytes(lines@),
        decreases rest.spec_bytes().len(),
    {
        let b = rest.as_bytes();
        let n: usize = b.len();
        proof {
            encode_utf8_valid_utf8(rest@);
        }
        if n == 0 {
            assert(lines_of(b@) =~= Seq::<Seq<u8>>::empty());
            assert(line_bytes(lines@) + lines_of(rest.spec_bytes()) =~= line_bytes(lines@));
            break ;
        }
        let mut e: usize = 0;
        while e < n && b[e] != LF
            invariant
                e <= n,
                n == b@.len(),
                forall|j: int| 0 <= j < e ==> b@[j] != LF,
            decreases n - e,
        {
            e = e + 1;
        }
        proof {
            lemma_newline_pos_found(b@, e as int);
        }
        if e == n {
            proof {
                assert(line_bytes(lines@.push(rest)) =~= line_bytes(lines@).push(b@));
                assert(line_bytes(lines@.push(rest)) =~= line_bytes(lines@) + lines_of(b@));
            }
            lines.push(rest);
            break ;
        }
        let mut end: usize = e;
        if e > 0 && b[e - 1] == CR {
            end = e - 1;
        }
        proof {
            lemma_ascii_boundary(b@, e as int);
            lemma_ascii_boundary(b@, end as int);
        }
        let (line, _) = rest.split_at(end);
        let (_, tail) = rest.split_at(e + 1);
        proof {
            assert(line.spec_bytes() =~= strip_cr(b@.take(e as int)));
            assert(tail.spec_bytes() =~= b@.skip(e + 1));
            assert(line_bytes(lines@.push(line)) =~= line_bytes(lines@).push(line.spec_bytes()));
            assert(line_bytes(lines@.push(line)) + lines_of(tail.spec_bytes()) =~= line_bytes(lines@)
                + lines_of(rest.spec_bytes()));
        }
        lines.push(line);
        rest = tail;
    }
    lines
}

/// Whether `query` is a contiguous part of `text`, compared byte by byte.
pub fn contains_text(text: &str, query: &str) -> (r: bool)
    ensures
        r == has_substring(text.spec_bytes(), query.spec_bytes()),
{
    let t = text.as_bytes();
    let q = query.as_bytes();
    let tn: usize = t.len();
    if q.len() > tn {
        return false;
    }
    let last: usize = tn - q.len();
    let mut i: usize = 0;
    while i <= last
        invariant
            t@ == text.spec_bytes(),
            q@ == query.spec_bytes(),
            tn == t@.len(),
            last == t@.len() - q@.len(),
            forall|k: int| 0 <= k < i ==> !occurs_at(t@, q@, k),
        decreases last + 1 - i,
    {
        let mut j: usize = 0;
        while j < q.len() && t[i + j] == q[j]
            invariant
                i <= last,
                last == t@.len() - q@.len(),
                tn == t@.len(),
                j <= q@.len(),
                forall|m: int| 0 <= m < j ==> t@[i + m] == q@[m],
            decreases q@.len() - j,
        {
            j = j + 1;
        }
        if j == q.len() {
            assert(t@.subrange(i as int, i + q@.len()) =~= q@);
            assert(occurs_at(t@, q@, i as int));
            return true;
        }
        assert(t@.subrange(i as int, i + q@.len())[j as int] != q@[j as int]);
        i = i + 1;
    }
    false
}

/// Whether `a` and `b` are the same text.
pub fn same_text(a: &str, b: &str) -> (r: bool)
    ensures
        r == (a@ == b@),
{
    let x = a.as_bytes();
    let y = b.as_bytes();
    proof {
        encode_utf8_decode_utf8(a@);
        encode_utf8_decode_utf8(b@);
    }
    if x.len() != y.len() {
        return false;
    }
    let mut i: usize = 0;
    while i < x.len()
        invariant
            x@ == a.spec_bytes(),
            y@ == b.spec_bytes(),
            x@.len() == y@.len(),
            forall|k: int| 0 <= k < i ==> x@[k] == y@[k],
        decreases x@.len() - i,
    {
        if x[i] != y[i] {
            return false;
        }
        i = i + 1;
    }
    assert(x@ =~= y@);
    true
}

} // verus!
