//! Verified helpers over character sequences: splitting on a separator and
//! content comparison, as the address parsers need them.

use vstd::prelude::*;

verus! {

/// Whether the character occurs in the sequence.
pub open spec fn spec_contains_char(s: Seq<char>, c: char) -> bool {
    exists|i: int| 0 <= i < s.len() && s[i] == c
}

/// The pieces a sequence falls into when cut at every occurrence of the
/// separator. Always at least one piece; a separator at the edge or two in a
/// row yield empty pieces, exactly as `str::split` does.
pub open spec fn spec_split(s: Seq<char>, sep: char) -> Seq<Seq<char>>
    decreases s.len(),
{
    if s.len() == 0 {
        seq![s]
    } else {
        let rest = spec_split(s.skip(1), sep);
        if s[0] == sep {
            seq![Seq::<char>::empty()] + rest
        } else {
            seq![seq![s[0]] + rest[0]] + rest.skip(1)
        }
    }
}

pub proof fn lemma_split_len(s: Seq<char>, sep: char)
    ensures
        spec_split(s, sep).len() >= 1,
    decreases s.len(),
{
    if s.len() > 0 {
        lemma_split_len(s.skip(1), sep);
    }
}

/// A sequence without the separator is a single piece.
pub proof fn lemma_split_none(s: Seq<char>, sep: char)
    requires
        !spec_contains_char(s, sep),
    ensures
        spec_split(s, sep) =~= seq![s],
    decreases s.len(),
{
    if s.len() > 0 {
        assert(s[0] != sep);
        assert(forall|i: int| 0 <= i < s.skip(1).len() ==> s.skip(1)[i] == s[i + 1]);
        lemma_split_none(s.skip(1), sep);
        assert(seq![s[0]] + s.skip(1) =~= s);
    }
}

/// Cutting at the first separator: the piece before it, then the split of
/// what follows it.
pub proof fn lemma_split_first(s: Seq<char>, sep: char, d: int)
    requires
        0 <= d < s.len(),
        s[d] == sep,
        forall|j: int| 0 <= j < d ==> s[j] != sep,
    ensures
        spec_split(s, sep) =~= seq![s.take(d)] + spec_split(s.skip(d + 1), sep),
    decreases d,
{
    lemma_split_len(s.skip(1), sep);
    if d == 0 {
        assert(s.take(0) =~= Seq::<char>::empty());
        assert(s.skip(1) =~= s.skip(d + 1));
    } else {
        assert(s[0] != sep);
        let t = s.skip(1);
        assert(forall|i: int| 0 <= i < t.len() ==> t[i] == s[i + 1]);
        lemma_split_first(t, sep, d - 1);
        assert(seq![s[0]] + t.take(d - 1) =~= s.take(d));
        assert(t.skip(d) =~= s.skip(d + 1));
    }
}

/// A sequence holding the separator splits into at least two pieces.
pub proof fn lemma_split_contains(s: Seq<char>, sep: char)
    requires
        spec_contains_char(s, sep),
    ensures
        spec_split(s, sep).len() >= 2,
    decreases s.len(),
{
    lemma_split_len(s.skip(1), sep);
    if s[0] != sep {
        let t = s.skip(1);
        let w = choose|i: int| 0 <= i < s.len() && s[i] == sep;
        assert(t[w - 1] == s[w]);
        assert(spec_contains_char(t, sep));
        lemma_split_contains(t, sep);
    }
}

/// Whether two string slices hold the same characters.
pub fn str_content_eq(a: &str, b: &str) -> (r: bool)
    ensures
        r == (a@ == b@),
{
    let na = a.unicode_len();
    let nb = b.unicode_len();
    if na != nb {
        return false;
    }
    let mut i: usize = 0;
    while i < na
        invariant
            0 <= i <= na,
            na == a@.len(),
            na == b@.len(),
            forall|j: int| 0 <= j < i ==> a@[j] == b@[j],
        decreases na - i,
    {
        if a.get_char(i) != b.get_char(i) {
            return false;
        }
        i += 1;
    }
    proof {
        assert(a@ =~= b@);
    }
    true
}

/// The views of a sequence of owned strings, in order.
pub open spec fn views_of(parts: Seq<String>) -> Seq<Seq<char>> {
    Seq::new(parts.len(), |i: int| parts[i]@)
}

/// The pieces a string slice falls into when cut at every occurrence of the
/// separator, each as an owned string.
pub fn split_str(s: &str, sep: char) -> (parts: Vec<String>)
    ensures
        parts@.len() == spec_split(s@, sep).len(),
        forall|i: int| 0 <= i < parts@.len() ==> parts@[i]@ == spec_split(s@, sep)[i],
        parts@.len() >= 1,
{
    let n = s.unicode_len();
    let mut parts: Vec<String> = Vec::new();
    let mut start: usize = 0;
    let mut i: usize = 0;
    proof {
        assert(s@.skip(0) =~= s@);
        assert(views_of(parts@) + spec_split(s@, sep) =~= spec_split(s@, sep));
    }
    while i < n
        invariant
            0 <= start <= i <= n,
            n == s@.len(),
            spec_split(s@, sep) =~= views_of(parts@) + spec_split(s@.skip(start as int), sep),
            forall|j: int| start <= j < i ==> s@[j] != sep,
        decreases n - i,
    {
        let c = s.get_char(i);
        if c == sep {
            let piece = s.substring_char(start, i).to_owned();
            proof {
                let tail = s@.skip(start as int);
                assert(forall|j: int| 0 <= j < tail.len() ==> tail[j] == s@[j + start]);
                lemma_split_first(tail, sep, i - start);
                assert(tail.take(i - start) =~= s@.subrange(start as int, i as int));
                assert(tail.skip(i - start + 1) =~= s@.skip(i + 1));
                assert(views_of(parts@.push(piece)) =~= views_of(parts@).push(piece@));
            }
            parts.push(piece);
            start = i + 1;
        }
        i += 1;
    }
    let piece = s.substring_char(start, n).to_owned();
    proof {
        let tail = s@.skip(start as int);
        assert(forall|j: int| 0 <= j < tail.len() ==> tail[j] == s@[j + start]);
        lemma_split_none(tail, sep);
        assert(tail =~= s@.subrange(start as int, n as int));
        assert(views_of(parts@.push(piece)) =~= views_of(parts@).push(piece@));
    }
    parts.push(piece);
    proof {
        assert(views_of(parts@) =~= spec_split(s@, sep));
    }
    parts
}

} // verus!
