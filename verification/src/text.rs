//! Sequences of characters: searching, splitting, replacing, trimming and
//! joining, and the conversions between strings, bytes and characters.

use vstd::prelude::*;
use vstd::slice::slice_subrange;
use vstd::string::StringSliceAdditionalSpecFns;
use vstd::utf8::{decode_utf8, valid_utf8};

verus! {

/// `pat` stands in `s` at position `i`.
pub open spec fn occurs_at(s: Seq<char>, pat: Seq<char>, i: int) -> bool {
    &&& 0 <= i
    &&& i + pat.len() <= s.len()
    &&& s.subrange(i, i + pat.len()) == pat
}

/// `pat` stands in `s` at position `i` and at no position before it.
pub open spec fn is_first_occurrence(s: Seq<char>, pat: Seq<char>, i: int) -> bool {
    &&& occurs_at(s, pat, i)
    &&& forall|j: int| 0 <= j < i ==> !occurs_at(s, pat, j)
}

/// The leftmost position at which `pat` stands in `s`, if there is one.
pub open spec fn first_occurrence(s: Seq<char>, pat: Seq<char>) -> Option<int> {
    if exists|i: int| is_first_occurrence(s, pat, i) {
        Some(choose|i: int| is_first_occurrence(s, pat, i))
    } else {
        None
    }
}

/// The pieces of `s` that lie between the occurrences of `pat`, found from
/// left to right without overlap. There is always at least one piece, and
/// only one where `pat` is empty.
pub open spec fn pieces(s: Seq<char>, pat: Seq<char>) -> Seq<Seq<char>>
    decreases s.len(),
{
    let at = first_occurrence(s, pat);
    if pat.len() > 0 && at is Some {
        seq![s.take(at->0)] + pieces(s.skip(at->0 + pat.len()), pat)
    } else {
        seq![s]
    }
}

/// `s` with every occurrence of `pat`, found from left to right without
/// overlap, replaced by `with`; `s` itself where `pat` is empty.
pub open spec fn replaced(s: Seq<char>, pat: Seq<char>, with: Seq<char>) -> Seq<char>
    decreases s.len(),
{
    let at = first_occurrence(s, pat);
    if pat.len() > 0 && at is Some {
        s.take(at->0) + with + replaced(s.skip(at->0 + pat.len()), pat, with)
    } else {
        s
    }
}

/// `s` without the run of `c` at its start.
pub open spec fn without_leading(s: Seq<char>, c: char) -> Seq<char>
    decreases s.len(),
{
    if s.len() > 0 && s.first() == c {
        without_leading(s.drop_first(), c)
    } else {
        s
    }
}

/// `s` without the run of `c` at its end.
pub open spec fn without_trailing(s: Seq<char>, c: char) -> Seq<char>
    decreases s.len(),
{
    if s.len() > 0 && s.last() == c {
        without_trailing(s.drop_last(), c)
    } else {
        s
    }
}

/// `s` without the runs of `c` at both of its ends.
pub open spec fn trimmed(s: Seq<char>, c: char) -> Seq<char> {
    without_trailing(without_leading(s, c), c)
}

/// The lines put one after the other with `sep` between each two.
pub open spec fn joined(lines: Seq<Seq<char>>, sep: Seq<char>) -> Seq<char>
    decreases lines.len(),
{
    if lines.len() == 0 {
        Seq::empty()
    } else if lines.len() == 1 {
        lines[0]
    } else {
        joined(lines.drop_last(), sep) + sep + lines.last()
    }
}

/// What each slice of a list of slices holds.
pub open spec fn contents(parts: Seq<&[char]>) -> Seq<Seq<char>> {
    Seq::new(parts.len(), |i: int| parts[i]@)
}

/// A position at which `pat` stands first is the one that `first_occurrence` gives.
pub proof fn lemma_first_occurrence_is(s: Seq<char>, pat: Seq<char>, i: int)
    requires
        is_first_occurrence(s, pat, i),
    ensures
        first_occurrence(s, pat) == Some(i),
{
    let k = choose|k: int| is_first_occurrence(s, pat, k);
    assert(is_first_occurrence(s, pat, k));
    if k < i {
        assert(!occurs_at(s, pat, k));
    }
    if i < k {
        assert(!occurs_at(s, pat, i));
    }
}

/// Where nothing occurs there is no first occurrence.
pub proof fn lemma_no_occurrence(s: Seq<char>, pat: Seq<char>)
    requires
        forall|i: int| !occurs_at(s, pat, i),
    ensures
        first_occurrence(s, pat) is None,
{
}

/// What occurs somewhere has a first occurrence.
pub proof fn lemma_occurrence_has_first(s: Seq<char>, pat: Seq<char>, i: int)
    requires
        occurs_at(s, pat, i),
    ensures
        first_occurrence(s, pat) is Some,
    decreases i,
{
    if exists|j: int| 0 <= j < i && occurs_at(s, pat, j) {
        let j = choose|j: int| 0 <= j < i && occurs_at(s, pat, j);
        lemma_occurrence_has_first(s, pat, j);
    } else {
        lemma_first_occurrence_is(s, pat, i);
    }
}

/// No piece of a text split at the character `c` holds `c`.
pub proof fn lemma_pieces_hold_no(s: Seq<char>, c: char)
    ensures
        forall|k: int|
            0 <= k < pieces(s, seq![c]).len() ==> !(#[trigger] pieces(s, seq![c])[k]).contains(c),
    decreases s.len(),
{
    let pat = seq![c];
    match first_occurrence(s, pat) {
        Some(i) => {
            assert(is_first_occurrence(s, pat, i));
            let rest = s.skip(i + 1);
            lemma_pieces_hold_no(rest, c);
            let first = s.take(i);
            if first.contains(c) {
                let j = choose|j: int| 0 <= j < first.len() && first[j] == c;
                assert(s.subrange(j, j + 1) =~= pat);
                assert(occurs_at(s, pat, j));
            }
            assert forall|k: int| 0 <= k < pieces(s, pat).len() implies !(#[trigger] pieces(
                s,
                pat,
            )[k]).contains(c) by {
                if k > 0 {
                    assert(pieces(s, pat)[k] == pieces(rest, pat)[k - 1]);
                }
            }
        },
        None => {
            if s.contains(c) {
                let j = choose|j: int| 0 <= j < s.len() && s[j] == c;
                assert(s.subrange(j, j + 1) =~= pat);
                lemma_occurrence_has_first(s, pat, j);
            }
        },
    }
}

/// A text without the character `c` is one piece when split at `c`.
pub proof fn lemma_pieces_without(s: Seq<char>, c: char)
    requires
        !s.contains(c),
    ensures
        pieces(s, seq![c]) == seq![s],
{
    assert forall|i: int| !occurs_at(s, seq![c], i) by {
        if occurs_at(s, seq![c], i) {
            assert(s.subrange(i, i + 1)[0] == c);
            assert(s[i] == c);
        }
    }
    lemma_no_occurrence(s, seq![c]);
}

/// Where `a` is without the character `c`, the pieces of `a`, `c`, `b` are
/// `a` and the pieces of `b`.
pub proof fn lemma_pieces_after(a: Seq<char>, c: char, b: Seq<char>)
    requires
        !a.contains(c),
    ensures
        pieces(a + seq![c] + b, seq![c]) == seq![a] + pieces(b, seq![c]),
{
    let s = a + seq![c] + b;
    let at = a.len() as int;
    assert(s.subrange(at, at + 1) =~= seq![c]);
    assert forall|j: int| 0 <= j < at implies !occurs_at(s, seq![c], j) by {
        if occurs_at(s, seq![c], j) {
            assert(s.subrange(j, j + 1)[0] == c);
            assert(a[j] == c);
        }
    }
    lemma_first_occurrence_is(s, seq![c], at);
    assert(s.take(at) =~= a);
    assert(s.skip(at + 1) =~= b);
}

/// Joining two or more lines puts the first line and a separator before the
/// others joined.
pub proof fn lemma_joined_first(lines: Seq<Seq<char>>, sep: Seq<char>)
    requires
        lines.len() >= 2,
    ensures
        joined(lines, sep) == lines[0] + sep + joined(lines.drop_first(), sep),
    decreases lines.len(),
{
    if lines.len() == 2 {
        assert(joined(lines.drop_last(), sep) == lines[0]);
        assert(joined(lines.drop_first(), sep) == lines[1]);
    } else {
        lemma_joined_first(lines.drop_last(), sep);
        assert(lines.drop_last().drop_first() =~= lines.drop_first().drop_last());
        assert(lines.drop_last()[0] == lines[0]);
        assert(lines.drop_first().last() == lines.last());
        assert(joined(lines, sep) =~= lines[0] + sep + joined(lines.drop_first(), sep));
    }
}

/// Splitting undoes joining: where there is at least one line and no line
/// holds the character `c`, the pieces of the lines joined by `c` are the lines.
pub proof fn lemma_pieces_of_joined(lines: Seq<Seq<char>>, c: char)
    requires
        lines.len() >= 1,
        forall|i: int| 0 <= i < lines.len() ==> !(#[trigger] lines[i]).contains(c),
    ensures
        pieces(joined(lines, seq![c]), seq![c]) == lines,
    decreases lines.len(),
{
    if lines.len() == 1 {
        lemma_pieces_without(lines[0], c);
        assert(lines =~= seq![lines[0]]);
    } else {
        let rest = lines.drop_first();
        assert forall|i: int| 0 <= i < rest.len() implies !(#[trigger] rest[i]).contains(c) by {
            assert(rest[i] == lines[i + 1]);
        }
        lemma_pieces_of_joined(rest, c);
        lemma_joined_first(lines, seq![c]);
        lemma_pieces_after(lines[0], c, joined(rest, seq![c]));
        assert(seq![lines[0]] + rest =~= lines);
    }
}

/// `String::push` of std appends the character to the end of the string.
pub assume_specification[ String::push ](s: &mut String, ch: char)
    ensures
        final(s)@ == old(s)@.push(ch),
;

/// `core::str::from_utf8` of std: the bytes as text where they are
/// well-formed UTF-8, and nothing where they are not. The text is made of
/// the very bytes that were given.
#[verifier::external_body]
pub(crate) fn utf8_text(bytes: &[u8]) -> (text: Option<&str>)
    ensures
        text is Some <==> valid_utf8(bytes@),
        text matches Some(t) ==> t.spec_bytes() == bytes@,
{
    core::str::from_utf8(bytes).ok()
}

/// The text that bytes hold, where they are well-formed UTF-8.
pub fn decode(bytes: &[u8]) -> (text: Option<&str>)
    ensures
        match text {
            Some(t) => valid_utf8(bytes@) && t@ == decode_utf8(bytes@),
            None => !valid_utf8(bytes@),
        },
{
    broadcast use vstd::utf8::encode_utf8_decode_utf8;

    utf8_text(bytes)
}

/// The characters of a string.
pub fn to_chars(s: &str) -> (chars: Vec<char>)
    ensures
        chars@ == s@,
{
    broadcast use vstd::string::group_string_axioms;

    let mut chars: Vec<char> = Vec::new();
    for c in it: s.chars()
        invariant
            it.seq() == s@,
            chars@ == it.seq().take(it.index() as int),
    {
        chars.push(c);
        assert(it.seq().take(it.index() + 1) =~= it.seq().take(it.index() as int).push(c));
    }
    assert(s@.take(s@.len() as int) =~= s@);
    chars
}

/// The string made of the given characters.
pub fn from_chars(chars: &[char]) -> (s: String)
    ensures
        s@ == chars@,
{
    let mut s = String::new();
    let mut i: usize = 0;
    while i < chars.len()
        invariant
            i <= chars.len(),
            s@ == chars@.take(i as int),
        decreases chars.len() - i,
    {
        s.push(chars[i]);
        assert(chars@.take(i + 1) =~= chars@.take(i as int).push(chars@[i as int]));
        i += 1;
    }
    assert(chars@.take(chars@.len() as int) =~= chars@);
    s
}

/// Whether two strings hold the same characters.
pub fn same_text(a: &str, b: &str) -> (same: bool)
    ensures
        same == (a@ == b@),
{
    broadcast use vstd::utf8::encode_utf8_decode_utf8;

    let x = a.as_bytes();
    let y = b.as_bytes();
    assert(a@ == decode_utf8(x@));
    assert(b@ == decode_utf8(y@));
    if x.len() != y.len() {
        return false;
    }
    let mut i: usize = 0;
    while i < x.len()
        invariant
            i <= x.len(),
            x.len() == y.len(),
            x@.take(i as int) == y@.take(i as int),
            x@ == a.spec_bytes(),
            y@ == b.spec_bytes(),
        decreases x.len() - i,
    {
        if x[i] != y[i] {
            return false;
        }
        assert(x@.take(i + 1) =~= x@.take(i as int).push(x@[i as int]));
        assert(y@.take(i + 1) =~= y@.take(i as int).push(y@[i as int]));
        i += 1;
    }
    assert(x@.take(x@.len() as int) =~= x@);
    assert(y@.take(y@.len() as int) =~= y@);
    true
}

/// Whether `pat` stands in `s` at position `i`.
pub fn matches_at(s: &[char], pat: &[char], i: usize) -> (found: bool)
    ensures
        found == occurs_at(s@, pat@, i as int),
{
    if pat.len() > s.len() || i > s.len() - pat.len() {
        return false;
    }
    let mut k: usize = 0;
    while k < pat.len()
        invariant
            k <= pat.len(),
            i + pat.len() <= s.len(),
            forall|j: int| 0 <= j < k ==> s@[i + j] == pat@[j],
        decreases pat.len() - k,
    {
        if s[i + k] != pat[k] {
            assert(s@.subrange(i as int, i + pat.len())[k as int] != pat@[k as int]);
            return false;
        }
        k += 1;
    }
    assert(s@.subrange(i as int, i + pat.len()) =~= pat@);
    true
}

/// The leftmost position at which `pat` stands in `s`.
pub fn find(s: &[char], pat: &[char]) -> (at: Option<usize>)
    ensures
        match at {
            Some(i) => first_occurrence(s@, pat@) == Some(i as int) && is_first_occurrence(
                s@,
                pat@,
                i as int,
            ),
            None => first_occurrence(s@, pat@) is None,
        },
{
    if pat.len() > s.len() {
        return None;
    }
    let last: usize = s.len() - pat.len();
    let mut i: usize = 0;
    loop
        invariant
            i <= last,
            last + pat.len() == s.len(),
            forall|j: int| 0 <= j < i ==> !occurs_at(s@, pat@, j),
        decreases last - i,
    {
        if matches_at(s, pat, i) {
            proof {
                lemma_first_occurrence_is(s@, pat@, i as int);
            }
            return Some(i);
        }
        if i == last {
            return None;
        }
        i += 1;
    }
}

/// Splits `s` at every occurrence of `pat`. The pieces borrow from `s`.
/// An empty `pat` splits nowhere.
pub fn split<'a>(s: &'a [char], pat: &[char]) -> (parts: Vec<&'a [char]>)
    ensures
        contents(parts@) == pieces(s@, pat@),
        parts.len() >= 1,
{
    let mut parts: Vec<&'a [char]> = Vec::new();
    let mut rest: &'a [char] = s;
    if pat.len() == 0 {
        parts.push(s);
        assert(contents(parts@) =~= seq![s@]);
        return parts;
    }
    loop
        invariant_except_break
            pieces(s@, pat@) == contents(parts@) + pieces(rest@, pat@),
        invariant
            pat.len() > 0,
        ensures
            contents(parts@) == pieces(s@, pat@),
            parts.len() >= 1,
        decreases rest.len(),
    {
        match find(rest, pat) {
            Some(i) => {
                let piece = slice_subrange(rest, 0, i);
                let after = slice_subrange(rest, i + pat.len(), rest.len());
                assert(piece@ == rest@.take(i as int));
                assert(after@ == rest@.skip(i + pat.len()));
                assert(contents(parts@.push(piece)) + pieces(after@, pat@) =~= contents(parts@) + (
                seq![piece@] + pieces(after@, pat@)));
                parts.push(piece);
                rest = after;
            },
            None => {
                assert(contents(parts@.push(rest)) =~= contents(parts@) + seq![rest@]);
                parts.push(rest);
                break;
            },
        }
    }
    parts
}

/// Replaces every occurrence of `pat` in `s` by `with`. An empty `pat`
/// occurs nowhere.
pub fn replace(s: &[char], pat: &[char], with: &[char]) -> (out: Vec<char>)
    ensures
        out@ == replaced(s@, pat@, with@),
{
    let mut out: Vec<char> = Vec::new();
    let mut rest: &[char] = s;
    if pat.len() == 0 {
        push_all(&mut out, s);
        return out;
    }
    loop
        invariant_except_break
            replaced(s@, pat@, with@) == out@ + replaced(rest@, pat@, with@),
        invariant
            pat.len() > 0,
        ensures
            out@ == replaced(s@, pat@, with@),
        decreases rest.len(),
    {
        match find(rest, pat) {
            Some(i) => {
                let ghost before = out@;
                let piece = slice_subrange(rest, 0, i);
                let after = slice_subrange(rest, i + pat.len(), rest.len());
                assert(piece@ == rest@.take(i as int));
                assert(after@ == rest@.skip(i + pat.len()));
                push_all(&mut out, piece);
                push_all(&mut out, with);
                assert(out@ + replaced(after@, pat@, with@) =~= before + (piece@ + with@
                    + replaced(after@, pat@, with@)));
                rest = after;
            },
            None => {
                push_all(&mut out, rest);
                break;
            },
        }
    }
    out
}

/// Appends the characters of `more` to `out`.
pub fn push_all(out: &mut Vec<char>, more: &[char])
    ensures
        final(out)@ == old(out)@ + more@,
{
    let mut i: usize = 0;
    while i < more.len()
        invariant
            i <= more.len(),
            out@ == old(out)@ + more@.take(i as int),
        decreases more.len() - i,
    {
        out.push(more[i]);
        assert(more@.take(i + 1) =~= more@.take(i as int).push(more@[i as int]));
        assert(out@ =~= old(out)@ + more@.take(i + 1));
        i += 1;
    }
    assert(more@.take(more@.len() as int) =~= more@);
}

/// Strips the runs of `c` from both ends of `s`.
pub fn trim_matches(s: &[char], c: char) -> (out: &[char])
    ensures
        out@ == trimmed(s@, c),
{
    let mut start: usize = 0;
    assert(s@.skip(0) =~= s@);
    while start < s.len() && s[start] == c
        invariant
            start <= s.len(),
            without_leading(s@, c) == without_leading(s@.skip(start as int), c),
        decreases s.len() - start,
    {
        assert(s@.skip(start as int).drop_first() =~= s@.skip(start + 1));
        start += 1;
    }
    let ghost front = s@.skip(start as int);
    assert(without_leading(s@, c) == front);
    let mut end: usize = s.len();
    while end > start && s[end - 1] == c
        invariant
            start <= end <= s.len(),
            front == s@.skip(start as int),
            without_trailing(front, c) == without_trailing(s@.subrange(start as int, end as int), c),
        decreases end,
    {
        assert(s@.subrange(start as int, end as int).drop_last() =~= s@.subrange(
            start as int,
            end - 1,
        ));
        end -= 1;
    }
    slice_subrange(s, start, end)
}

/// Joins the lines with `sep` between each two.
pub fn join(lines: &Vec<String>, sep: &str) -> (out: String)
    ensures
        out@ == joined(lines.deep_view(), sep@),
{
    let mut out = String::new();
    let mut i: usize = 0;
    while i < lines.len()
        invariant
            i <= lines.len(),
            out@ == joined(lines.deep_view().take(i as int), sep@),
        decreases lines.len() - i,
    {
        if i > 0 {
            out.append(sep);
        }
        out.append(lines[i].as_str());
        assert(lines.deep_view().take(i + 1).drop_last() =~= lines.deep_view().take(i as int));
        assert(lines.deep_view().take(i + 1).last() == lines[i as int]@);
        i += 1;
    }
    assert(lines.deep_view().take(lines.len() as int) =~= lines.deep_view());
    out
}

} // verus!
