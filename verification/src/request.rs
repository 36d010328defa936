//! The wire parser: from the bytes read on a connection to a request.

use crate::table::Table;
use crate::text::{
    contents, decode, find, first_occurrence, from_chars, is_first_occurrence, joined,
    lemma_occurrence_has_first, lemma_pieces_after, lemma_pieces_hold_no, lemma_pieces_of_joined,
    lemma_pieces_without, occurs_at, pieces, replace, replaced, split, to_chars, trim_matches,
    trimmed,
};
use vstd::prelude::*;
use vstd::slice::slice_subrange;
use vstd::utf8::{decode_utf8, valid_utf8};

verus! {

/// Why a buffer holds no request.
#[derive(Debug, Clone, Copy, PartialEq, Eq, Structural)]
pub enum ParseError {
    /// The bytes are not well-formed UTF-8.
    InvalidUtf8,
}

/// Query parameters: a mapping from names to values in which a name that is
/// given again takes the later value.
pub struct Params {
    table: Table<String>,
}

impl View for Params {
    type V = Map<Seq<char>, Seq<char>>;

    closed spec fn view(&self) -> Map<Seq<char>, Seq<char>> {
        Map::new(|name: Seq<char>| self.table@.contains_key(name), |name: Seq<char>| self.table@[name]@)
    }
}

impl Params {
    /// The names, in the order in which they first came.
    pub closed spec fn names(&self) -> Seq<Seq<char>> {
        self.table.names()
    }

    /// No parameters.
    pub fn new() -> (params: Self)
        ensures
            params@ == Map::<Seq<char>, Seq<char>>::empty(),
            params.names() == Seq::<Seq<char>>::empty(),
    {
        let params = Params { table: Table::new() };
        assert(params@ =~= Map::<Seq<char>, Seq<char>>::empty());
        params
    }

    /// Gives `name` the value `value`.
    pub fn insert(&mut self, name: String, value: String)
        ensures
            final(self)@ == old(self)@.insert(name@, value@),
            old(self)@.contains_key(name@) ==> final(self).names() == old(self).names(),
            !old(self)@.contains_key(name@) ==> final(self).names() == old(self).names().push(name@),
    {
        let ghost name_view = name@;
        let ghost value_view = value@;
        self.table.insert(name, value);
        assert(self@ =~= old(self)@.insert(name_view, value_view));
    }

    /// The value of `name`.
    pub fn get(&self, name: &str) -> (found: Option<&String>)
        ensures
            match found {
                Some(value) => self@.contains_key(name@) && value@ == self@[name@],
                None => !self@.contains_key(name@),
            },
    {
        self.table.get(name)
    }

    /// Whether `name` has a value.
    pub fn contains_key(&self, name: &str) -> (held: bool)
        ensures
            held == self@.contains_key(name@),
    {
        self.table.get(name).is_some()
    }

    /// The number of names.
    pub fn len(&self) -> (n: usize)
        ensures
            n == self.names().len(),
            n == self@.dom().len(),
    {
        assert(self@.dom() =~= self.table@.dom());
        self.table.len()
    }
}

/// The name and the value that one piece of a query string gives: the two
/// sides of its `=` where it has exactly one, and two empty strings where it
/// has none or several.
pub open spec fn query_pair(piece: Seq<char>) -> (Seq<char>, Seq<char>) {
    let sides = pieces(piece, seq!['=']);
    if sides.len() == 2 {
        (sides[0], sides[1])
    } else {
        (Seq::empty(), Seq::empty())
    }
}

/// The pairs that a query string gives, one for each piece between `&`.
pub open spec fn query_pairs(query: Seq<char>) -> Seq<(Seq<char>, Seq<char>)> {
    let parts = pieces(query, seq!['&']);
    Seq::new(parts.len(), |i: int| query_pair(parts[i]))
}

/// The mapping that a list of pairs builds when each pair is entered in turn.
pub open spec fn mapping(pairs: Seq<(Seq<char>, Seq<char>)>) -> Map<Seq<char>, Seq<char>>
    decreases pairs.len(),
{
    if pairs.len() == 0 {
        Map::empty()
    } else {
        mapping(pairs.drop_last()).insert(pairs.last().0, pairs.last().1)
    }
}

/// The parameters that a query string stands for.
pub open spec fn query_params(query: Seq<char>) -> Map<Seq<char>, Seq<char>> {
    mapping(query_pairs(query))
}

/// The piece of a query string that gives `pair`: the name, `=`, the value.
pub open spec fn query_piece(pair: (Seq<char>, Seq<char>)) -> Seq<char> {
    pair.0 + seq!['='] + pair.1
}

/// The query string that gives `pairs`: their pieces with `&` between each two.
pub open spec fn query_string(pairs: Seq<(Seq<char>, Seq<char>)>) -> Seq<char> {
    joined(Seq::new(pairs.len(), |i: int| query_piece(pairs[i])), seq!['&'])
}

/// A name or a value that a query string can carry as it is: one without
/// `&` and without `=`.
pub open spec fn plain(s: Seq<char>) -> bool {
    !s.contains('&') && !s.contains('=')
}

/// Reading a query string undoes writing it: for one pair or more, of plain
/// names and values, the query string that gives the pairs is read as these
/// pairs, and so as the mapping that they build.
pub proof fn lemma_query_round_trip(pairs: Seq<(Seq<char>, Seq<char>)>)
    requires
        pairs.len() >= 1,
        forall|i: int| 0 <= i < pairs.len() ==> plain((#[trigger] pairs[i]).0) && plain(pairs[i].1),
    ensures
        query_pairs(query_string(pairs)) == pairs,
        query_params(query_string(pairs)) == mapping(pairs),
{
    let parts = Seq::new(pairs.len(), |i: int| query_piece(pairs[i]));
    assert forall|i: int| 0 <= i < parts.len() implies !(#[trigger] parts[i]).contains('&') by {
        let piece = parts[i];
        assert(plain(pairs[i].0) && plain(pairs[i].1));
        if piece.contains('&') {
            let k = choose|k: int| 0 <= k < piece.len() && piece[k] == '&';
            if k < pairs[i].0.len() {
                assert(pairs[i].0[k] == '&');
            } else if k > pairs[i].0.len() {
                assert(pairs[i].1[k - pairs[i].0.len() - 1] == '&');
            }
        }
    }
    lemma_pieces_of_joined(parts, '&');
    assert forall|i: int| 0 <= i < pairs.len() implies query_pair(parts[i]) == pairs[i] by {
        assert(plain(pairs[i].0) && plain(pairs[i].1));
        lemma_pieces_after(pairs[i].0, '=', pairs[i].1);
        lemma_pieces_without(pairs[i].1, '=');
        assert(seq![pairs[i].0] + seq![pairs[i].1] =~= seq![pairs[i].0, pairs[i].1]);
    }
    assert(query_pairs(query_string(pairs)) =~= pairs);
}

/// The mapping that pairs with distinct names build holds each name with
/// its value, and nothing else.
pub proof fn lemma_mapping_of_distinct(pairs: Seq<(Seq<char>, Seq<char>)>)
    requires
        forall|i: int, j: int| 0 <= i < j < pairs.len() ==> pairs[i].0 != pairs[j].0,
    ensures
        forall|name: Seq<char>|
            mapping(pairs).contains_key(name) <==> exists|i: int|
                0 <= i < pairs.len() && (#[trigger] pairs[i]).0 == name,
        forall|i: int| 0 <= i < pairs.len() ==> mapping(pairs)[(#[trigger] pairs[i]).0] == pairs[i].1,
    decreases pairs.len(),
{
    if pairs.len() > 0 {
        let before = pairs.drop_last();
        lemma_mapping_of_distinct(before);
        assert forall|name: Seq<char>| mapping(pairs).contains_key(name) implies exists|i: int|
            0 <= i < pairs.len() && (#[trigger] pairs[i]).0 == name by {
            if name == pairs.last().0 {
                assert(pairs[pairs.len() - 1].0 == name);
            } else {
                assert(mapping(before).contains_key(name));
                let i = choose|i: int| 0 <= i < before.len() && (#[trigger] before[i]).0 == name;
                assert(before[i] == pairs[i]);
                assert(pairs[i].0 == name);
            }
        }
        assert forall|name: Seq<char>|
            (exists|i: int| 0 <= i < pairs.len() && (#[trigger] pairs[i]).0 == name) implies mapping(
            pairs,
        ).contains_key(name) by {
            let i = choose|i: int| 0 <= i < pairs.len() && (#[trigger] pairs[i]).0 == name;
            if i < before.len() {
                assert(before[i] == pairs[i]);
                assert(before[i].0 == name);
                assert(mapping(before).contains_key(name));
            }
        }
        assert forall|i: int| 0 <= i < pairs.len() implies mapping(pairs)[(#[trigger] pairs[i]).0]
            == pairs[i].1 by {
            if i < before.len() {
                assert(before[i] == pairs[i]);
                assert(pairs[i].0 != pairs[pairs.len() - 1].0);
            }
        }
    }
}

/// What a request holds.
pub struct RequestView {
    pub method: Seq<char>,
    pub path: Seq<char>,
    pub params: Map<Seq<char>, Seq<char>>,
    pub headers: Seq<Seq<char>>,
    pub body: Seq<char>,
}

/// The text of a request with its line endings unified to `\n` and the NUL
/// characters at both ends removed.
pub open spec fn cleaned(text: Seq<char>) -> Seq<char> {
    trimmed(replaced(text, seq!['\r', '\n'], seq!['\n']), '\0')
}

/// What stands before the first blank line: the request line and the headers.
pub open spec fn head_block(clean: Seq<char>) -> Seq<char> {
    match first_occurrence(clean, seq!['\n', '\n']) {
        Some(i) => clean.take(i),
        None => clean,
    }
}

/// What stands after the first blank line; nothing where there is none.
pub open spec fn body_block(clean: Seq<char>) -> Seq<char> {
    match first_occurrence(clean, seq!['\n', '\n']) {
        Some(i) => clean.skip(i + 2),
        None => Seq::empty(),
    }
}

/// The request that a text holds.
///
/// The first line is split at single spaces: its first word is the method,
/// its second, where there is one, the target. The target is the path, or the
/// path, a `?` and the query string. The other lines of the head are the
/// headers, taken as they are.
pub open spec fn request_of(text: Seq<char>) -> RequestView {
    let clean = cleaned(text);
    let lines = pieces(head_block(clean), seq!['\n']);
    let words = pieces(lines[0], seq![' ']);
    let target = if words.len() > 1 {
        words[1]
    } else {
        Seq::empty()
    };
    let mark = first_occurrence(target, seq!['?']);
    RequestView {
        method: words[0],
        path: match mark {
            Some(i) => target.take(i),
            None => target,
        },
        params: match mark {
            Some(i) => query_params(target.skip(i + 1)),
            None => Map::empty(),
        },
        headers: lines.skip(1),
        body: body_block(clean),
    }
}

/// The method of a request that was read holds no space, and its path
/// neither a space nor a question mark.
pub proof fn lemma_request_words(text: Seq<char>)
    ensures
        !request_of(text).method.contains(' '),
        !request_of(text).path.contains(' '),
        !request_of(text).path.contains('?'),
{
    let clean = cleaned(text);
    let lines = pieces(head_block(clean), seq!['\n']);
    let words = pieces(lines[0], seq![' ']);
    lemma_pieces_hold_no(lines[0], ' ');
    assert(!words[0].contains(' '));
    let target = if words.len() > 1 {
        words[1]
    } else {
        Seq::<char>::empty()
    };
    assert(!target.contains(' '));
    let pat = seq!['?'];
    match first_occurrence(target, pat) {
        Some(i) => {
            assert(is_first_occurrence(target, pat, i));
            let path = target.take(i);
            if path.contains(' ') {
                let j = choose|j: int| 0 <= j < path.len() && path[j] == ' ';
                assert(target[j] == ' ');
            }
            if path.contains('?') {
                let j = choose|j: int| 0 <= j < path.len() && path[j] == '?';
                assert(target.subrange(j, j + 1) =~= pat);
                assert(occurs_at(target, pat, j));
            }
        },
        None => {
            if target.contains('?') {
                let j = choose|j: int| 0 <= j < target.len() && target[j] == '?';
                assert(target.subrange(j, j + 1) =~= pat);
                lemma_occurrence_has_first(target, pat, j);
            }
        },
    }
}

/// The request that a buffer holds, where its bytes are well-formed UTF-8.
pub open spec fn request_in(buffer: Seq<u8>) -> Option<RequestView> {
    if valid_utf8(buffer) {
        Some(request_of(decode_utf8(buffer)))
    } else {
        None
    }
}

/// A request as it was read from a connection.
pub struct Request {
    pub method: String,
    pub path: String,
    pub params: Params,
    pub headers: Vec<String>,
    pub body: String,
}

impl View for Request {
    type V = RequestView;

    open spec fn view(&self) -> RequestView {
        RequestView {
            method: self.method@,
            path: self.path@,
            params: self.params@,
            headers: self.headers.deep_view(),
            body: self.body@,
        }
    }
}

/// Reads a query string.
pub fn parse_query(query: &[char]) -> (params: Params)
    ensures
        params@ == query_params(query@),
{
    let amp: [char; 1] = ['&'];
    let eq: [char; 1] = ['='];
    assert(amp@ =~= seq!['&']);
    assert(eq@ =~= seq!['=']);
    let parts = split(query, &amp);
    let mut params = Params::new();
    let mut i: usize = 0;
    while i < parts.len()
        invariant
            i <= parts.len(),
            eq@ == seq!['='],
            contents(parts@) == pieces(query@, seq!['&']),
            params@ == mapping(query_pairs(query@).take(i as int)),
        decreases parts.len() - i,
    {
        let sides = split(parts[i], &eq);
        assert(contents(parts@)[i as int] == parts@[i as int]@);
        if sides.len() == 2 {
            assert(contents(sides@)[0] == sides@[0]@);
            assert(contents(sides@)[1] == sides@[1]@);
            params.insert(from_chars(sides[0]), from_chars(sides[1]));
        } else {
            params.insert(String::new(), String::new());
        }
        assert(query_pairs(query@).take(i + 1).drop_last() =~= query_pairs(query@).take(i as int));
        i += 1;
    }
    assert(query_pairs(query@).take(parts.len() as int) =~= query_pairs(query@));
    params
}

impl Request {
    /// Reads the request that a buffer holds.
    ///
    /// Fails only where the bytes are not well-formed UTF-8. A first line
    /// with fewer than two words gives a request with an empty path, and
    /// a piece of the query string without exactly one `=` gives the empty
    /// name with the empty value.
    pub fn process(buffer: &[u8]) -> (outcome: Result<Request, ParseError>)
        ensures
            match request_in(buffer@) {
                Some(request) => outcome is Ok && outcome->Ok_0@ == request,
                None => outcome == Err::<Request, ParseError>(ParseError::InvalidUtf8),
            },
    {
        let text = match decode(buffer) {
            Some(text) => text,
            None => {
                return Err(ParseError::InvalidUtf8);
            },
        };
        let crlf: [char; 2] = ['\r', '\n'];
        let lf: [char; 1] = ['\n'];
        let blank: [char; 2] = ['\n', '\n'];
        let space: [char; 1] = [' '];
        let question: [char; 1] = ['?'];
        assert(crlf@ =~= seq!['\r', '\n']);
        assert(lf@ =~= seq!['\n']);
        assert(blank@ =~= seq!['\n', '\n']);
        assert(space@ =~= seq![' ']);
        assert(question@ =~= seq!['?']);

        let chars = to_chars(text);
        let unified = replace(chars.as_slice(), &crlf, &lf);
        let clean = trim_matches(unified.as_slice(), '\0');
        assert(clean@ == cleaned(decode_utf8(buffer@)));

        let (head, body) = match find(clean, &blank) {
            Some(i) => {
                let end = clean.len();
                assert(occurs_at(clean@, blank@, i as int));
                (slice_subrange(clean, 0, i), slice_subrange(clean, i + 2, end))
            },
            None => (clean, slice_subrange(clean, 0, 0)),
        };
        assert(head@ == head_block(clean@));
        assert(body@ =~= body_block(clean@));

        let lines = split(head, &lf);
        assert(contents(lines@)[0] == lines@[0]@);
        let words = split(lines[0], &space);
        assert(contents(words@)[0] == words@[0]@);
        let target: &[char] = if words.len() > 1 {
            assert(contents(words@)[1] == words@[1]@);
            words[1]
        } else {
            slice_subrange(clean, 0, 0)
        };
        let ghost target_view = if pieces(lines@[0]@, seq![' ']).len() > 1 {
            pieces(lines@[0]@, seq![' '])[1]
        } else {
            Seq::<char>::empty()
        };
        assert(target@ =~= target_view);
        let (path, params) = match find(target, &question) {
            Some(i) => {
                let end = target.len();
                assert(occurs_at(target@, question@, i as int));
                (
                    from_chars(slice_subrange(target, 0, i)),
                    parse_query(slice_subrange(target, i + 1, end)),
                )
            },
            None => (from_chars(target), Params::new()),
        };

        let mut headers: Vec<String> = Vec::new();
        let mut k: usize = 1;
        while k < lines.len()
            invariant
                1 <= k <= lines.len(),
                headers.len() == k - 1,
                forall|j: int| 0 <= j < headers.len() ==> (#[trigger] headers@[j])@ == lines@[j + 1]@,
            decreases lines.len() - k,
        {
            headers.push(from_chars(lines[k]));
            k += 1;
        }
        assert(headers.deep_view() =~= contents(lines@).skip(1));

        let request = Request {
            method: from_chars(words[0]),
            path,
            params,
            headers,
            body: from_chars(body),
        };
        Ok(request)
    }
}

} // verus!
