//! Character-sequence primitives shared by every parser of the crate.
//!
//! All specifications speak of `Seq<char>`; the executable functions work on
//! `Vec<char>`, which gives constant-time indexing, and convert from and to
//! `str` / `String` at the boundary.

use vstd::prelude::*;

verus! {

/// Taken on trust: `String::push` of the standard library appends `c` to
/// the end of the string and leaves what stood there as it was. Every string
/// that this crate builds character by character rests on this.
pub assume_specification[ String::push ](s: &mut String, c: char)
    ensures
        final(s)@ == old(s)@.push(c),
;

/// The views of a sequence of character vectors.
pub open spec fn texts(v: Seq<Vec<char>>) -> Seq<Seq<char>> {
    Seq::new(v.len(), |i: int| v[i]@)
}

/// The views of a sequence of strings.
pub open spec fn string_views(v: Seq<String>) -> Seq<Seq<char>> {
    Seq::new(v.len(), |i: int| v[i]@)
}

/// The text at index `k`, or the empty text where there is none.
pub open spec fn item_or_empty(items: Seq<Seq<char>>, k: int) -> Seq<char> {
    if 0 <= k < items.len() {
        items[k]
    } else {
        Seq::empty()
    }
}

/// The characters of `s`, in order.
pub fn to_chars(s: &str) -> (v: Vec<char>)
    ensures
        v@ == s@,
{
    let mut v: Vec<char> = Vec::new();
    for c in it: s.chars()
        invariant
            v@ == it.seq().take(it.index() as int),
            it.seq() == s@,
    {
        v.push(c);
    }
    v
}

/// The string made of the characters of `v`, in order.
pub fn to_text(v: &Vec<char>) -> (s: String)
    ensures
        s@ == v@,
{
    let mut s = String::new();
    let mut i: usize = 0;
    while i < v.len()
        invariant
            i <= v.len(),
            s@ == v@.take(i as int),
        decreases v.len() - i,
    {
        s.push(v[i]);
        i += 1;
    }
    s
}

/// The text at index `k` as a string, empty where there is none.
pub fn item_text(items: &Vec<Vec<char>>, k: usize) -> (s: String)
    ensures
        s@ == item_or_empty(texts(items@), k as int),
{
    if k < items.len() {
        to_text(&items[k])
    } else {
        String::new()
    }
}

/// A copy of the characters of `v` at positions `from..to`.
pub fn slice_of(v: &Vec<char>, from: usize, to: usize) -> (r: Vec<char>)
    requires
        from <= to <= v.len(),
    ensures
        r@ == v@.subrange(from as int, to as int),
{
    let mut r: Vec<char> = Vec::new();
    let mut i: usize = from;
    while i < to
        invariant
            from <= i <= to <= v.len(),
            r@ == v@.subrange(from as int, i as int),
        decreases to - i,
    {
        r.push(v[i]);
        i += 1;
    }
    r
}

// ---------------------------------------------------------------------
// Searching for a pattern
// ---------------------------------------------------------------------

/// `pat` stands in `hay` at position `i`.
pub open spec fn occurs_at(hay: Seq<char>, pat: Seq<char>, i: int) -> bool {
    0 <= i && i + pat.len() <= hay.len() && hay.subrange(i, i + pat.len()) == pat
}

/// `pat` stands somewhere in `hay`.
pub open spec fn contains(hay: Seq<char>, pat: Seq<char>) -> bool {
    exists|i: int| occurs_at(hay, pat, i)
}

/// `pat` stands in `hay` at `i` and at no earlier position.
pub open spec fn is_first_occurrence(hay: Seq<char>, pat: Seq<char>, i: int) -> bool {
    occurs_at(hay, pat, i) && forall|j: int| 0 <= j < i ==> !occurs_at(hay, pat, j)
}

/// The least position at or after `from` where `pat` stands in `hay`.
pub open spec fn find_from(hay: Seq<char>, pat: Seq<char>, from: int) -> Option<int>
    decreases hay.len() + 1 - from,
{
    if from < 0 || from + pat.len() > hay.len() {
        None
    } else if occurs_at(hay, pat, from) {
        Some(from)
    } else {
        find_from(hay, pat, from + 1)
    }
}

/// The position of the first occurrence of `pat` in `hay`.
pub open spec fn find(hay: Seq<char>, pat: Seq<char>) -> Option<int> {
    find_from(hay, pat, 0)
}

/// `find_from` returns the least occurrence at or after `from`, and `None`
/// exactly when there is none.
pub proof fn lemma_find_from(hay: Seq<char>, pat: Seq<char>, from: int)
    requires
        0 <= from,
    ensures
        match find_from(hay, pat, from) {
            Some(i) => from <= i && occurs_at(hay, pat, i) && forall|j: int|
                from <= j < i ==> !occurs_at(hay, pat, j),
            None => forall|j: int| from <= j ==> !occurs_at(hay, pat, j),
        },
    decreases hay.len() + 1 - from,
{
    if from + pat.len() > hay.len() {
    } else if occurs_at(hay, pat, from) {
    } else {
        lemma_find_from(hay, pat, from + 1);
    }
}

/// `find` returns the first occurrence, and `None` exactly when `pat` does
/// not stand in `hay`.
pub proof fn lemma_find(hay: Seq<char>, pat: Seq<char>)
    ensures
        match find(hay, pat) {
            Some(i) => is_first_occurrence(hay, pat, i),
            None => !contains(hay, pat),
        },
        find(hay, pat) is Some <==> contains(hay, pat),
{
    lemma_find_from(hay, pat, 0);
}

/// A first occurrence is what `find` returns.
pub proof fn lemma_first_occurrence_is_found(hay: Seq<char>, pat: Seq<char>, i: int)
    requires
        is_first_occurrence(hay, pat, i),
    ensures
        find(hay, pat) == Some(i),
{
    lemma_find_from(hay, pat, 0);
}

/// Whether `pat` stands in `hay` at position `i`.
pub fn matches_at(hay: &Vec<char>, pat: &Vec<char>, i: usize) -> (b: bool)
    requires
        i + pat.len() <= hay.len(),
    ensures
        b == occurs_at(hay@, pat@, i as int),
{
    let mut k: usize = 0;
    while k < pat.len()
        invariant
            k <= pat.len(),
            i + pat.len() <= hay.len(),
            forall|j: int| 0 <= j < k ==> hay@[i + j] == pat@[j],
        decreases pat.len() - k,
    {
        if hay[i + k] != pat[k] {
            proof {
                assert(hay@.subrange(i as int, i + pat.len())[k as int] == hay@[i + k]);
            }
            return false;
        }
        k += 1;
    }
    proof {
        assert(hay@.subrange(i as int, i + pat.len()) =~= pat@);
    }
    true
}

/// The position of the first occurrence of `pat` in `hay`.
pub fn find_first(hay: &Vec<char>, pat: &Vec<char>) -> (r: Option<usize>)
    ensures
        match r {
            Some(i) => find(hay@, pat@) == Some(i as int) && i + pat.len() <= hay.len(),
            None => find(hay@, pat@) is None,
        },
{
    if pat.len() > hay.len() {
        return None;
    }
    let last: usize = hay.len() - pat.len();
    let mut i: usize = 0;
    loop
        invariant
            i <= last,
            last == hay.len() - pat.len(),
            find(hay@, pat@) == find_from(hay@, pat@, i as int),
        decreases last - i,
    {
        if matches_at(hay, pat, i) {
            return Some(i);
        }
        if i == last {
            assert(find_from(hay@, pat@, i + 1) is None);
            return None;
        }
        i += 1;
    }
}

/// Whether `pat` stands somewhere in `hay`.
pub fn has_substring(hay: &Vec<char>, pat: &Vec<char>) -> (b: bool)
    ensures
        b == contains(hay@, pat@),
{
    proof {
        lemma_find(hay@, pat@);
    }
    find_first(hay, pat).is_some()
}

// ---------------------------------------------------------------------
// Splitting on a delimiter character
// ---------------------------------------------------------------------

/// The least position at or after `from` that holds `c`, or the length of `s`
/// when there is none.
pub open spec fn next_index(s: Seq<char>, c: char, from: int) -> int
    decreases s.len() - from,
{
    if from < 0 || from >= s.len() {
        s.len() as int
    } else if s[from] == c {
        from
    } else {
        next_index(s, c, from + 1)
    }
}

/// `next_index` is the first position at or after `from` that holds `c`.
pub proof fn lemma_next_index(s: Seq<char>, c: char, from: int)
    requires
        0 <= from <= s.len(),
    ensures
        from <= next_index(s, c, from) <= s.len(),
        forall|k: int| from <= k < next_index(s, c, from) ==> s[k] != c,
        next_index(s, c, from) < s.len() ==> s[next_index(s, c, from)] == c,
    decreases s.len() - from,
{
    if from < s.len() && s[from] != c {
        lemma_next_index(s, c, from + 1);
    }
}

/// A position that holds `c`, with no `c` between `from` and it, is the
/// next index.
pub proof fn lemma_next_index_is(s: Seq<char>, c: char, from: int, i: int)
    requires
        0 <= from <= i <= s.len(),
        forall|k: int| from <= k < i ==> s[k] != c,
        i < s.len() ==> s[i] == c,
    ensures
        next_index(s, c, from) == i,
    decreases i - from,
{
    if from < i {
        lemma_next_index_is(s, c, from + 1, i);
    }
}

/// The pieces of `s` from position `from` on, cut at every `c`. There is
/// always at least one piece; two adjacent delimiters enclose an empty one.
pub open spec fn split_from(s: Seq<char>, c: char, from: int) -> Seq<Seq<char>>
    decreases s.len() - from,
    via split_from_decreases
{
    let i = next_index(s, c, from);
    if from < 0 || from > s.len() {
        Seq::empty()
    } else if i >= s.len() {
        seq![s.subrange(from, s.len() as int)]
    } else {
        seq![s.subrange(from, i)] + split_from(s, c, i + 1)
    }
}

#[via_fn]
proof fn split_from_decreases(s: Seq<char>, c: char, from: int) {
    if 0 <= from <= s.len() {
        lemma_next_index(s, c, from);
    }
}

/// The pieces of `s` cut at every `c`.
pub open spec fn split(s: Seq<char>, c: char) -> Seq<Seq<char>> {
    split_from(s, c, 0)
}

/// The pieces of `s` cut at every `delim`.
pub fn split_on(s: &Vec<char>, delim: char) -> (pieces: Vec<Vec<char>>)
    ensures
        texts(pieces@) == split(s@, delim),
{
    let mut pieces: Vec<Vec<char>> = Vec::new();
    let mut start: usize = 0;
    let mut i: usize = 0;
    let n: usize = s.len();
    assert(texts(pieces@) + split_from(s@, delim, 0) =~= split(s@, delim));
    while i < n
        invariant
            n == s.len(),
            start <= i <= n,
            forall|k: int| start <= k < i ==> s@[k] != delim,
            texts(pieces@) + split_from(s@, delim, start as int) == split(s@, delim),
        decreases n - i,
    {
        if s[i] == delim {
            let piece = slice_of(s, start, i);
            proof {
                lemma_next_index_is(s@, delim, start as int, i as int);
                assert(texts(pieces@.push(piece)) =~= texts(pieces@).push(piece@));
                assert(texts(pieces@).push(piece@) + split_from(s@, delim, i + 1) =~= texts(
                    pieces@,
                ) + (seq![piece@] + split_from(s@, delim, i + 1)));
            }
            pieces.push(piece);
            start = i + 1;
        }
        i += 1;
    }
    let piece = slice_of(s, start, n);
    proof {
        lemma_next_index_is(s@, delim, start as int, n as int);
        assert(texts(pieces@.push(piece)) =~= texts(pieces@).push(piece@));
        assert(texts(pieces@).push(piece@) =~= texts(pieces@) + seq![piece@]);
    }
    pieces.push(piece);
    pieces
}

/// A piece put before other pieces is joined to them by one separator.
pub proof fn lemma_join_first(first: Seq<char>, rest: Seq<Seq<char>>, sep: char)
    requires
        rest.len() > 0,
    ensures
        join(seq![first] + rest, sep) == first + seq![sep] + join(rest, sep),
    decreases rest.len(),
{
    let all = seq![first] + rest;
    assert(all.drop_last() =~= seq![first] + rest.drop_last());
    assert(all.last() == rest.last());
    if rest.len() == 1 {
        assert(all.drop_last() =~= seq![first]);
        assert(join(seq![first], sep) == first);
        assert(join(rest, sep) == rest[0]);
        assert(join(all, sep) == join(all.drop_last(), sep) + seq![sep] + all.last());
    } else {
        lemma_join_first(first, rest.drop_last(), sep);
        assert(join(all, sep) =~= first + seq![sep] + (join(rest.drop_last(), sep) + seq![sep]
            + rest.last()));
    }
}

/// What splitting gives: at least one piece; no piece holds the delimiter;
/// and the pieces joined by the delimiter are the text again.
pub proof fn lemma_split_from(s: Seq<char>, c: char, from: int)
    requires
        0 <= from <= s.len(),
    ensures
        split_from(s, c, from).len() >= 1,
        forall|k: int, i: int|
            0 <= k < split_from(s, c, from).len() && 0 <= i < split_from(s, c, from)[k].len()
                ==> split_from(s, c, from)[k][i] != c,
        join(split_from(s, c, from), c) == s.subrange(from, s.len() as int),
    decreases s.len() - from,
{
    lemma_next_index(s, c, from);
    let i = next_index(s, c, from);
    if i < s.len() {
        lemma_split_from(s, c, i + 1);
        let first = s.subrange(from, i);
        let rest = split_from(s, c, i + 1);
        lemma_join_first(first, rest, c);
        assert(first + seq![c] + s.subrange(i + 1, s.len() as int) =~= s.subrange(
            from,
            s.len() as int,
        ));
        assert forall|k: int, j: int|
            0 <= k < split_from(s, c, from).len() && 0 <= j < split_from(s, c, from)[k].len()
                implies split_from(s, c, from)[k][j] != c by {
            if k > 0 {
                assert(split_from(s, c, from)[k] == rest[k - 1]);
            }
        }
    }
}

/// What splitting gives: at least one piece; no piece holds the delimiter;
/// and the pieces joined by the delimiter are the text again.
pub proof fn lemma_split(s: Seq<char>, c: char)
    ensures
        split(s, c).len() >= 1,
        forall|k: int, i: int|
            0 <= k < split(s, c).len() && 0 <= i < split(s, c)[k].len() ==> split(s, c)[k][i]
                != c,
        join(split(s, c), c) == s,
{
    lemma_split_from(s, c, 0);
    assert(s.subrange(0, s.len() as int) =~= s);
}

// ---------------------------------------------------------------------
// Lines
// ---------------------------------------------------------------------

/// `l` without one trailing carriage return, if it ends in one.
pub open spec fn strip_cr(l: Seq<char>) -> Seq<char> {
    if l.len() > 0 && l.last() == '\r' {
        l.drop_last()
    } else {
        l
    }
}

/// The lines of `s` from position `from` on. A line ends at a line feed,
/// which is not part of it, nor is a carriage return just before the line
/// feed. Text after the last line feed is a line of its own, kept as it is;
/// nothing after the last line feed is no line.
pub open spec fn lines_from(s: Seq<char>, from: int) -> Seq<Seq<char>>
    decreases s.len() - from,
    via lines_from_decreases
{
    let i = next_index(s, '\n', from);
    if from < 0 || from >= s.len() {
        Seq::empty()
    } else if i >= s.len() {
        seq![s.subrange(from, s.len() as int)]
    } else {
        seq![strip_cr(s.subrange(from, i))] + lines_from(s, i + 1)
    }
}

#[via_fn]
proof fn lines_from_decreases(s: Seq<char>, from: int) {
    if 0 <= from <= s.len() {
        lemma_next_index(s, '\n', from);
    }
}

/// The lines of `s`.
pub open spec fn lines(s: Seq<char>) -> Seq<Seq<char>> {
    lines_from(s, 0)
}

/// No line holds a line feed, and there are no more lines than characters.
pub proof fn lemma_lines_from(s: Seq<char>, from: int)
    requires
        0 <= from <= s.len(),
    ensures
        lines_from(s, from).len() <= s.len() - from,
        forall|k: int, i: int|
            0 <= k < lines_from(s, from).len() && 0 <= i < lines_from(s, from)[k].len()
                ==> lines_from(s, from)[k][i] != '\n',
    decreases s.len() - from,
{
    if from < s.len() {
        lemma_next_index(s, '\n', from);
        let i = next_index(s, '\n', from);
        if i < s.len() {
            lemma_lines_from(s, i + 1);
            let rest = lines_from(s, i + 1);
            assert forall|k: int, j: int|
                0 <= k < lines_from(s, from).len() && 0 <= j < lines_from(s, from)[k].len()
                    implies lines_from(s, from)[k][j] != '\n' by {
                if k > 0 {
                    assert(lines_from(s, from)[k] == rest[k - 1]);
                }
            }
        }
    }
}

/// The lines of `s`.
pub fn lines_of(s: &Vec<char>) -> (out: Vec<Vec<char>>)
    ensures
        texts(out@) == lines(s@),
{
    let mut out: Vec<Vec<char>> = Vec::new();
    let mut start: usize = 0;
    let mut i: usize = 0;
    let n: usize = s.len();
    assert(texts(out@) + lines_from(s@, 0) =~= lines(s@));
    while i < n
        invariant
            n == s.len(),
            start <= i <= n,
            forall|k: int| start <= k < i ==> s@[k] != '\n',
            texts(out@) + lines_from(s@, start as int) == lines(s@),
        decreases n - i,
    {
        if s[i] == '\n' {
            let end: usize = if i > start && s[i - 1] == '\r' {
                i - 1
            } else {
                i
            };
            let line = slice_of(s, start, end);
            proof {
                lemma_next_index_is(s@, '\n', start as int, i as int);
                let raw = s@.subrange(start as int, i as int);
                if i > start && s@[i - 1] == '\r' {
                    assert(raw.last() == s@[i - 1]);
                    assert(raw.drop_last() =~= s@.subrange(start as int, i - 1));
                }
                assert(line@ == strip_cr(raw));
                assert(texts(out@.push(line)) =~= texts(out@).push(line@));
                assert(texts(out@).push(line@) + lines_from(s@, i + 1) =~= texts(out@) + (
                seq![line@] + lines_from(s@, i + 1)));
            }
            out.push(line);
            start = i + 1;
        }
        i += 1;
    }
    if start < n {
        let line = slice_of(s, start, n);
        proof {
            lemma_next_index_is(s@, '\n', start as int, n as int);
            assert(texts(out@.push(line)) =~= texts(out@).push(line@));
            assert(texts(out@).push(line@) =~= texts(out@) + seq![line@]);
        }
        out.push(line);
    } else {
        assert(texts(out@) + lines_from(s@, start as int) =~= texts(out@));
    }
    out
}

/// The texts `pieces` written one after another with `sep` between each
/// two.
pub open spec fn join(pieces: Seq<Seq<char>>, sep: char) -> Seq<char>
    decreases pieces.len(),
{
    if pieces.len() == 0 {
        Seq::empty()
    } else if pieces.len() == 1 {
        pieces[0]
    } else {
        join(pieces.drop_last(), sep) + seq![sep] + pieces.last()
    }
}

/// The lines `ls` written one after another with a line feed between each two.
pub open spec fn join_lines(ls: Seq<Seq<char>>) -> Seq<char> {
    join(ls, '\n')
}

/// The lines of `ls` from index `from` on, joined by line feeds.
pub fn join_from(ls: &Vec<Vec<char>>, from: usize) -> (out: Vec<char>)
    requires
        from <= ls.len(),
    ensures
        out@ == join_lines(texts(ls@).skip(from as int)),
{
    let mut out: Vec<char> = Vec::new();
    let mut i: usize = from;
    let ghost all = texts(ls@);
    while i < ls.len()
        invariant
            from <= i <= ls.len(),
            all == texts(ls@),
            out@ == join(all.subrange(from as int, i as int), '\n'),
        decreases ls.len() - i,
    {
        if i > from {
            out.push('\n');
        }
        let ghost before = out@;
        let line = &ls[i];
        let mut k: usize = 0;
        while k < line.len()
            invariant
                k <= line.len(),
                out@ == before + line@.take(k as int),
            decreases line.len() - k,
        {
            out.push(line[k]);
            k += 1;
        }
        proof {
            let upto = all.subrange(from as int, i + 1);
            assert(upto.drop_last() =~= all.subrange(from as int, i as int));
            assert(upto.last() == line@);
            assert(line@.take(line@.len() as int) =~= line@);
            if i == from {
                assert(out@ =~= line@);
            } else {
                assert(out@ =~= join(upto.drop_last(), '\n') + seq!['\n'] + line@);
            }
        }
        i += 1;
    }
    proof {
        assert(all.subrange(from as int, ls.len() as int) =~= all.skip(from as int));
    }
    out
}

// ---------------------------------------------------------------------
// Trimming
// ---------------------------------------------------------------------

/// `c` is a white-space character: a code point with the Unicode property
/// `White_Space`.
pub open spec fn is_whitespace(c: char) -> bool {
    let u = c as u32;
    ||| 0x09 <= u <= 0x0D
    ||| u == 0x20
    ||| u == 0x85
    ||| u == 0xA0
    ||| u == 0x1680
    ||| 0x2000 <= u <= 0x200A
    ||| u == 0x2028
    ||| u == 0x2029
    ||| u == 0x202F
    ||| u == 0x205F
    ||| u == 0x3000
}

/// What is taken off both ends of a text when it is trimmed.
#[derive(Clone, Copy, Debug)]
pub enum Strip {
    /// Every occurrence of one character.
    Char(char),
    /// Every white-space character.
    Whitespace,
}

impl Strip {
    /// `c` is one of the characters that are taken off.
    pub open spec fn strips(self, c: char) -> bool {
        match self {
            Strip::Char(d) => c == d,
            Strip::Whitespace => is_whitespace(c),
        }
    }

    /// Whether `c` is one of the characters that are taken off.
    pub fn takes(&self, c: char) -> (b: bool)
        ensures
            b == self.strips(c),
    {
        match self {
            Strip::Char(d) => c == *d,
            Strip::Whitespace => {
                let u: u32 = c as u32;
                (0x09 <= u && u <= 0x0D) || u == 0x20 || u == 0x85 || u == 0xA0 || u == 0x1680 || (
                0x2000 <= u && u <= 0x200A) || u == 0x2028 || u == 0x2029 || u == 0x202F || u
                    == 0x205F || u == 0x3000
            },
        }
    }
}

/// The first position at or after `from` whose character is kept, or the
/// length of `s`.
pub open spec fn skip_leading(s: Seq<char>, strip: Strip, from: int) -> int
    decreases s.len() - from,
{
    if 0 <= from < s.len() && strip.strips(s[from]) {
        skip_leading(s, strip, from + 1)
    } else {
        from
    }
}

/// The end of the last kept character before `to`, not going below `lo`.
pub open spec fn skip_trailing(s: Seq<char>, strip: Strip, lo: int, to: int) -> int
    decreases to - lo,
{
    if lo < to <= s.len() && 0 < to && strip.strips(s[to - 1]) {
        skip_trailing(s, strip, lo, to - 1)
    } else {
        to
    }
}

/// The bounds of `skip_leading`.
pub proof fn lemma_skip_leading(s: Seq<char>, strip: Strip, from: int)
    requires
        0 <= from <= s.len(),
    ensures
        from <= skip_leading(s, strip, from) <= s.len(),
    decreases s.len() - from,
{
    if from < s.len() && strip.strips(s[from]) {
        lemma_skip_leading(s, strip, from + 1);
    }
}

/// The bounds of `skip_trailing`.
pub proof fn lemma_skip_trailing(s: Seq<char>, strip: Strip, lo: int, to: int)
    requires
        0 <= lo <= to <= s.len(),
    ensures
        lo <= skip_trailing(s, strip, lo, to) <= to,
    decreases to - lo,
{
    if lo < to && strip.strips(s[to - 1]) {
        lemma_skip_trailing(s, strip, lo, to - 1);
    }
}

/// `s` without the longest prefix and the longest suffix made of stripped
/// characters.
pub open spec fn trimmed(s: Seq<char>, strip: Strip) -> Seq<char> {
    let a = skip_leading(s, strip, 0);
    let b = skip_trailing(s, strip, a, s.len() as int);
    s.subrange(a, b)
}

/// Every character between `from` and `skip_leading` is stripped, and the
/// one at `skip_leading` is kept.
pub proof fn lemma_skip_leading_strips(s: Seq<char>, strip: Strip, from: int)
    requires
        0 <= from <= s.len(),
    ensures
        forall|k: int| from <= k < skip_leading(s, strip, from) ==> strip.strips(s[k]),
        skip_leading(s, strip, from) < s.len() ==> !strip.strips(s[skip_leading(s, strip, from)]),
    decreases s.len() - from,
{
    if from < s.len() && strip.strips(s[from]) {
        lemma_skip_leading_strips(s, strip, from + 1);
    }
}

/// Every character between `skip_trailing` and `to` is stripped, and the one
/// before `skip_trailing` is kept, unless that is `lo`.
pub proof fn lemma_skip_trailing_strips(s: Seq<char>, strip: Strip, lo: int, to: int)
    requires
        0 <= lo <= to <= s.len(),
    ensures
        forall|k: int| skip_trailing(s, strip, lo, to) <= k < to ==> strip.strips(s[k]),
        lo < skip_trailing(s, strip, lo, to) ==> !strip.strips(
            s[skip_trailing(s, strip, lo, to) - 1],
        ),
    decreases to - lo,
{
    if lo < to && strip.strips(s[to - 1]) {
        lemma_skip_trailing_strips(s, strip, lo, to - 1);
    }
}

/// What trimming gives: the text is a run of stripped characters, the
/// trimmed text, and another run of stripped characters; and the trimmed text
/// neither begins nor ends with a stripped character.
pub proof fn lemma_trimmed(s: Seq<char>, strip: Strip)
    ensures
        ({
            let a = skip_leading(s, strip, 0);
            let b = skip_trailing(s, strip, a, s.len() as int);
            let t = trimmed(s, strip);
            &&& 0 <= a <= b <= s.len()
            &&& s == s.take(a) + t + s.skip(b)
            &&& forall|k: int| 0 <= k < a ==> strip.strips(s[k])
            &&& forall|k: int| b <= k < s.len() ==> strip.strips(s[k])
            &&& t.len() > 0 ==> !strip.strips(t.first()) && !strip.strips(t.last())
        }),
{
    let a = skip_leading(s, strip, 0);
    lemma_skip_leading(s, strip, 0);
    lemma_skip_leading_strips(s, strip, 0);
    let b = skip_trailing(s, strip, a, s.len() as int);
    lemma_skip_trailing(s, strip, a, s.len() as int);
    lemma_skip_trailing_strips(s, strip, a, s.len() as int);
    assert(s =~= s.take(a) + s.subrange(a, b) + s.skip(b));
}

/// `s` without the stripped characters at its two ends.
pub fn trim(s: &Vec<char>, strip: Strip) -> (r: Vec<char>)
    ensures
        r@ == trimmed(s@, strip),
{
    let n: usize = s.len();
    let mut a: usize = 0;
    while a < n && strip.takes(s[a])
        invariant
            n == s.len(),
            a <= n,
            skip_leading(s@, strip, 0) == skip_leading(s@, strip, a as int),
        decreases n - a,
    {
        a += 1;
    }
    let mut b: usize = n;
    while b > a && strip.takes(s[b - 1])
        invariant
            n == s.len(),
            a <= b <= n,
            skip_trailing(s@, strip, a as int, n as int) == skip_trailing(
                s@,
                strip,
                a as int,
                b as int,
            ),
        decreases b - a,
    {
        b -= 1;
    }
    slice_of(s, a, b)
}

// ---------------------------------------------------------------------
// Line counts
// ---------------------------------------------------------------------

/// `c` is one of the ten decimal digits.
pub open spec fn is_digit(c: char) -> bool {
    '0' <= c <= '9'
}

/// Every character of `s` is a decimal digit.
pub open spec fn all_digits(s: Seq<char>) -> bool {
    forall|i: int| 0 <= i < s.len() ==> is_digit(#[trigger] s[i])
}

/// The number that the decimal digits `s` write.
pub open spec fn digits_value(s: Seq<char>) -> nat
    decreases s.len(),
{
    if s.len() == 0 {
        0
    } else {
        (digits_value(s.drop_last()) * 10 + (s.last() as u32 - '0' as u32)) as nat
    }
}

/// `s` without one leading plus sign, if it has one.
pub open spec fn unsigned_digits(s: Seq<char>) -> Seq<char> {
    if s.len() > 0 && s[0] == '+' {
        s.skip(1)
    } else {
        s
    }
}

/// The count that `s` writes: an optional plus sign and at least one decimal
/// digit, of a value that fits in 32 bits. Anything else counts as zero.
pub open spec fn count_of(s: Seq<char>) -> nat {
    let d = unsigned_digits(s);
    if d.len() > 0 && all_digits(d) && digits_value(d) <= u32::MAX {
        digits_value(d)
    } else {
        0
    }
}

/// A longer run of digits writes a number that is at least as large as the
/// one its prefix writes.
pub proof fn lemma_digits_value_prefix(s: Seq<char>, k: int)
    requires
        0 <= k <= s.len(),
        all_digits(s),
    ensures
        digits_value(s.take(k)) <= digits_value(s),
    decreases s.len() - k,
{
    if k < s.len() {
        lemma_digits_value_prefix(s, k + 1);
        assert(s.take(k + 1).drop_last() =~= s.take(k));
        assert(is_digit(s[k]));
    } else {
        assert(s.take(k) =~= s);
    }
}

/// The count that `s` writes, zero where it writes none.
pub fn parse_count(s: &Vec<char>) -> (n: u32)
    ensures
        n == count_of(s@),
{
    let len: usize = s.len();
    let first: usize = if len > 0 && s[0] == '+' {
        1
    } else {
        0
    };
    let ghost d = unsigned_digits(s@);
    assert(d =~= s@.subrange(first as int, len as int));
    if first == len {
        return 0;
    }
    let mut acc: u64 = 0;
    let mut i: usize = first;
    while i < len
        invariant
            len == s.len(),
            first <= i <= len,
            d == unsigned_digits(s@),
            d == s@.subrange(first as int, len as int),
            all_digits(d.take(i - first)),
            acc == digits_value(d.take(i - first)),
            acc <= u32::MAX,
        decreases len - i,
    {
        let c: char = s[i];
        let ghost k = i - first;
        assert(d[k] == c);
        if !('0' <= c && c <= '9') {
            assert(!is_digit(d[k]));
            return 0;
        }
        let digit: u64 = (c as u32 - '0' as u32) as u64;
        let next: u64 = acc * 10 + digit;
        proof {
            assert(d.take(k + 1).drop_last() =~= d.take(k));
            assert(d.take(k + 1).last() == c);
            assert forall|j: int| 0 <= j < d.take(k + 1).len() implies is_digit(
                #[trigger] d.take(k + 1)[j],
            ) by {
                if j < k {
                    assert(d.take(k)[j] == d.take(k + 1)[j]);
                }
            }
            assert(next == digits_value(d.take(k + 1)));
        }
        if next > 0xFFFF_FFFF {
            proof {
                if all_digits(d) {
                    lemma_digits_value_prefix(d, k + 1);
                }
            }
            return 0;
        }
        acc = next;
        i += 1;
    }
    proof {
        assert(d.take(len - first) =~= d);
    }
    acc as u32
}

} // verus!
