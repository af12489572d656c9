//! Text as sequences of characters: the reading rules that the playlist
//! formats are built on (lines, comma pieces, substring search, replacement,
//! decimal numbers), each with its specification.
use vstd::prelude::*;

verus! {

// ---------------------------------------------------------------------
// Specifications
// ---------------------------------------------------------------------

/// `p` occurs in `s` starting at position `i`.
pub open spec fn matches_at(s: Seq<char>, p: Seq<char>, i: int) -> bool {
    &&& 0 <= i
    &&& i + p.len() <= s.len()
    &&& s.subrange(i, i + p.len()) == p
}

/// `s` begins with `p`.
pub open spec fn starts_with(s: Seq<char>, p: Seq<char>) -> bool {
    matches_at(s, p, 0)
}

/// `p` occurs somewhere in `s` (the empty pattern occurs in every text).
pub open spec fn contains(s: Seq<char>, p: Seq<char>) -> bool {
    exists|i: int| matches_at(s, p, i)
}

/// Position of the first `c` in `s`, or `s.len()` when there is none.
pub open spec fn first_index(s: Seq<char>, c: char) -> int
    decreases s.len(),
{
    if s.len() == 0 {
        0
    } else if s[0] == c {
        0
    } else {
        1 + first_index(s.drop_first(), c)
    }
}

/// First position at or after `start` where `p` occurs in `s`.
pub open spec fn find_from(s: Seq<char>, p: Seq<char>, start: int) -> Option<int>
    decreases s.len() + 1 - start,
{
    if start < 0 || start + p.len() > s.len() {
        None
    } else if matches_at(s, p, start) {
        Some(start)
    } else {
        find_from(s, p, start + 1)
    }
}

/// `t` without one trailing carriage return.
pub open spec fn strip_cr(t: Seq<char>) -> Seq<char> {
    if t.len() > 0 && t.last() == '\r' {
        t.drop_last()
    } else {
        t
    }
}

/// The lines of `s`, as std's `str::lines` gives them: split at `'\n'`,
/// one `'\r'` right before a `'\n'` dropped (a `'\r'` that ends the text
/// stays), and no empty line after a final `'\n'`.
pub open spec fn lines(s: Seq<char>) -> Seq<Seq<char>>
    decreases s.len(),
{
    if s.len() == 0 {
        seq![]
    } else {
        let i = first_index(s, '\n');
        proof {
            lemma_first_index_bounds(s, '\n');
        }
        if i >= s.len() {
            seq![s]
        } else {
            seq![strip_cr(s.take(i))] + lines(s.skip(i + 1))
        }
    }
}

/// The pieces of `s` between the separators `c`, as std's `str::split`
/// with a character gives them (always one piece more than separators).
pub open spec fn split(s: Seq<char>, c: char) -> Seq<Seq<char>>
    decreases s.len(),
{
    let i = first_index(s, c);
    proof {
        lemma_first_index_bounds(s, c);
    }
    if i >= s.len() {
        seq![s]
    } else {
        seq![s.take(i)] + split(s.skip(i + 1), c)
    }
}

/// `s` with `r` put before every character and at its end: what std's
/// `str::replace` gives for an empty pattern.
pub open spec fn insert_everywhere(s: Seq<char>, r: Seq<char>) -> Seq<char>
    decreases s.len(),
{
    if s.len() == 0 {
        r
    } else {
        r + seq![s[0]] + insert_everywhere(s.drop_first(), r)
    }
}

/// `s` with every occurrence of `p` replaced by `r`, the occurrences taken
/// from the left without overlap, as std's `str::replace` does.
pub open spec fn replace_all(s: Seq<char>, p: Seq<char>, r: Seq<char>) -> Seq<char>
    decreases s.len(),
{
    if p.len() == 0 {
        insert_everywhere(s, r)
    } else if s.len() == 0 {
        s
    } else if matches_at(s, p, 0) {
        r + replace_all(s.skip(p.len() as int), p, r)
    } else {
        seq![s[0]] + replace_all(s.drop_first(), p, r)
    }
}

/// Position of the last `c` in `s`, or -1 when there is none.
pub open spec fn last_index(s: Seq<char>, c: char) -> int
    decreases s.len(),
{
    if s.len() == 0 {
        -1
    } else if s.last() == c {
        s.len() - 1
    } else {
        last_index(s.drop_last(), c)
    }
}

/// The decimal digit `d` (0 to 9) as a character.
pub open spec fn digit_char(d: nat) -> char {
    (48 + d) as char
}

/// The decimal notation of `n`, without leading zeros.
pub open spec fn decimal(n: nat) -> Seq<char>
    decreases n,
{
    if n < 10 {
        seq![digit_char(n)]
    } else {
        decimal(n / 10).push(digit_char(n % 10))
    }
}

/// The decimal notation of `i`, with a leading `'-'` when it is negative
/// (what `{}` formatting prints for an integer).
pub open spec fn int_text(i: int) -> Seq<char> {
    if i < 0 {
        seq!['-'] + decimal((-i) as nat)
    } else {
        decimal(i as nat)
    }
}

/// The text that std's `str::to_lowercase` gives for `s` (full Unicode
/// lower-casing, independent of locale).
pub uninterp spec fn lowercase(s: Seq<char>) -> Seq<char>;

/// The views of a run of character vectors.
pub open spec fn pieces(v: Seq<Vec<char>>) -> Seq<Seq<char>> {
    v.map_values(|p: Vec<char>| p@)
}

// ---------------------------------------------------------------------
// Lemmas
// ---------------------------------------------------------------------

pub proof fn lemma_first_index(s: Seq<char>, c: char, i: int)
    requires
        0 <= i <= s.len(),
        forall|j: int| 0 <= j < i ==> s[j] != c,
        i == s.len() || s[i] == c,
    ensures
        first_index(s, c) == i,
    decreases s.len(),
{
    if s.len() > 0 && i > 0 {
        lemma_first_index(s.drop_first(), c, i - 1);
    }
}

pub proof fn lemma_find_from(s: Seq<char>, p: Seq<char>, start: int)
    requires
        0 <= start,
    ensures
        find_from(s, p, start) matches Some(i) ==> start <= i && matches_at(s, p, i) && forall|j: int|
            start <= j < i ==> !matches_at(s, p, j),
        find_from(s, p, start) is None ==> forall|j: int| start <= j ==> !matches_at(s, p, j),
    decreases s.len() + 1 - start,
{
    if start + p.len() <= s.len() && !matches_at(s, p, start) {
        lemma_find_from(s, p, start + 1);
    }
}

pub proof fn lemma_last_index_bounds(s: Seq<char>, c: char)
    ensures
        -1 <= last_index(s, c) < s.len(),
        last_index(s, c) >= 0 ==> s[last_index(s, c)] == c,
    decreases s.len(),
{
    if s.len() > 0 && s.last() != c {
        lemma_last_index_bounds(s.drop_last(), c);
    }
}

pub proof fn lemma_first_index_bounds(s: Seq<char>, c: char)
    ensures
        0 <= first_index(s, c) <= s.len(),
        forall|j: int| 0 <= j < first_index(s, c) ==> s[j] != c,
        first_index(s, c) < s.len() ==> s[first_index(s, c)] == c,
    decreases s.len(),
{
    if s.len() > 0 && s[0] != c {
        lemma_first_index_bounds(s.drop_first(), c);
        assert forall|j: int| 0 <= j < first_index(s, c) implies s[j] != c by {
            if j > 0 {
                assert(s[j] == s.drop_first()[j - 1]);
            }
        }
    }
}

// ---------------------------------------------------------------------
// Executable text operations on character vectors
// ---------------------------------------------------------------------

/// The characters of `s`, in order.
pub fn chars_of(s: &str) -> (v: Vec<char>)
    ensures
        v@ == s@,
{
    let mut v: Vec<char> = Vec::new();
    for c in it: s.chars()
        invariant
            v@ == it.seq().take(it.index() as int),
            it.seq() == s@,
    {
        v.push(c);
    }
    v
}

/// Trusted: std's `String::push`. The contract claims that the string
/// afterwards holds its old characters followed by `c`.
#[verifier::external_body]
fn push_char(s: &mut String, c: char)
    ensures
        final(s)@ == old(s)@.push(c),
{
    s.push(c)
}

/// A `String` holding the characters of `v`, in order.
pub fn string_of(v: &[char]) -> (s: String)
    ensures
        s@ == v@,
{
    let mut s = String::new();
    let n = v.len();
    for i in 0..n
        invariant
            n == v@.len(),
            s@ == v@.take(i as int),
    {
        push_char(&mut s, v[i]);
        assert(v@.take(i + 1) == v@.take(i as int).push(v@[i as int]));
    }
    assert(v@.take(n as int) == v@);
    s
}

/// Appends all of `s` to `out`.
pub fn push_all(out: &mut Vec<char>, s: &Vec<char>)
    ensures
        final(out)@ == old(out)@ + s@,
{
    let n = s.len();
    for i in 0..n
        invariant
            n == s@.len(),
            out@ == old(out)@ + s@.take(i as int),
    {
        out.push(s[i]);
        assert(s@.take(i + 1) == s@.take(i as int).push(s@[i as int]));
    }
    assert(s@.take(n as int) == s@);
}

/// The characters of `s` from `from` up to (not including) `to`.
pub fn slice_chars(s: &Vec<char>, from: usize, to: usize) -> (r: Vec<char>)
    requires
        from <= to <= s@.len(),
    ensures
        r@ == s@.subrange(from as int, to as int),
{
    let mut r: Vec<char> = Vec::new();
    let mut i = from;
    while i < to
        invariant
            from <= i <= to <= s@.len(),
            r@ == s@.subrange(from as int, i as int),
        decreases to - i,
    {
        r.push(s[i]);
        i += 1;
        assert(s@.subrange(from as int, i as int) == s@.subrange(from as int, i - 1).push(
            s@[i - 1],
        ));
    }
    r
}

/// Whether `a` and `b` hold the same characters.
pub fn chars_eq(a: &Vec<char>, b: &Vec<char>) -> (r: bool)
    ensures
        r == (a@ == b@),
{
    if a.len() != b.len() {
        return false;
    }
    let n = a.len();
    for i in 0..n
        invariant
            n == a@.len(),
            n == b@.len(),
            forall|j: int| 0 <= j < i ==> a@[j] == b@[j],
    {
        if a[i] != b[i] {
            return false;
        }
    }
    assert(a@ =~= b@);
    true
}

/// Whether `p` occurs in `s` at position `i`.
pub fn match_at(s: &Vec<char>, p: &Vec<char>, i: usize) -> (b: bool)
    ensures
        b == matches_at(s@, p@, i as int),
{
    if i > s.len() || p.len() > s.len() - i {
        return false;
    }
    let n = p.len();
    let slen = s.len();
    for k in 0..n
        invariant
            n == p@.len(),
            slen == s@.len(),
            i + n <= slen,
            forall|j: int| 0 <= j < k ==> s@[i + j] == p@[j],
    {
        assert(i + k < s@.len());
        if s[i + k] != p[k] {
            assert(s@.subrange(i as int, i + n)[k as int] != p@[k as int]);
            return false;
        }
    }
    assert(s@.subrange(i as int, i + n) =~= p@);
    true
}

/// First position at or after `start` where `p` occurs in `s`.
pub fn find_chars(s: &Vec<char>, p: &Vec<char>, start: usize) -> (r: Option<usize>)
    ensures
        r matches Some(i) ==> find_from(s@, p@, start as int) == Some(i as int),
        r is None ==> find_from(s@, p@, start as int) is None,
{
    if start > s.len() {
        return None;
    }
    let mut i = start;
    while i < s.len()
        invariant
            start <= i <= s@.len(),
            find_from(s@, p@, start as int) == find_from(s@, p@, i as int),
        decreases s@.len() - i,
    {
        if p.len() > s.len() - i {
            return None;
        }
        if match_at(s, p, i) {
            return Some(i);
        }
        i += 1;
    }
    if match_at(s, p, i) {
        Some(i)
    } else {
        assert(find_from(s@, p@, i + 1) is None);
        None
    }
}

/// Whether `p` occurs anywhere in `s`.
pub fn contains_chars(s: &Vec<char>, p: &Vec<char>) -> (b: bool)
    ensures
        b == contains(s@, p@),
{
    let r = find_chars(s, p, 0);
    proof {
        lemma_find_from(s@, p@, 0);
    }
    r.is_some()
}

/// Position of the first `c` in `s` at or after `start`, or `s.len()`.
pub fn index_of_char(s: &Vec<char>, c: char, start: usize) -> (r: usize)
    requires
        start <= s@.len(),
    ensures
        r as int == start + first_index(s@.skip(start as int), c),
{
    let mut i = start;
    while i < s.len() && s[i] != c
        invariant
            start <= i <= s@.len(),
            forall|j: int| start <= j < i ==> s@[j] != c,
        decreases s@.len() - i,
    {
        i += 1;
    }
    proof {
        let t = s@.skip(start as int);
        assert forall|j: int| 0 <= j < i - start implies t[j] != c by {
            assert(t[j] == s@[start + j]);
        }
        lemma_first_index(t, c, i - start);
    }
    i
}

/// The lines of `s` (see [`lines`]).
pub fn lines_of(s: &Vec<char>) -> (r: Vec<Vec<char>>)
    ensures
        pieces(r@) == lines(s@),
{
    let mut r: Vec<Vec<char>> = Vec::new();
    let mut start: usize = 0;
    assert(s@.skip(0) == s@);
    assert(pieces(r@) == Seq::<Seq<char>>::empty());
    while start < s.len()
        invariant
            start <= s@.len(),
            lines(s@) == pieces(r@) + lines(s@.skip(start as int)),
        decreases s@.len() - start,
    {
        let ghost rest = s@.skip(start as int);
        let i = index_of_char(s, '\n', start);
        proof {
            lemma_first_index_bounds(rest, '\n');
        }
        let mut piece = slice_chars(s, start, i);
        if i < s.len() && piece.len() > 0 && piece[piece.len() - 1] == '\r' {
            piece.pop();
        }
        proof {
            assert(rest.take(i - start) == s@.subrange(start as int, i as int));
            if i < s@.len() {
                assert(piece@ == strip_cr(rest.take(i - start)));
            } else {
                assert(piece@ == rest.take(i - start));
            }
        }
        let ghost before = pieces(r@);
        r.push(piece);
        proof {
            assert(pieces(r@) == before.push(piece@));
        }
        if i >= s.len() {
            proof {
                assert(rest.take(i - start) == rest);
                assert(lines(s@.skip(s@.len() as int)) == Seq::<Seq<char>>::empty());
            }
            start = i;
        } else {
            proof {
                assert(rest.skip(i - start + 1) == s@.skip(i + 1));
            }
            start = i + 1;
        }
    }
    proof {
        assert(lines(s@.skip(start as int)) == Seq::<Seq<char>>::empty());
    }
    r
}

/// The pieces of `s` between the separators `c` (see [`split`]).
pub fn split_chars(s: &Vec<char>, c: char) -> (r: Vec<Vec<char>>)
    ensures
        pieces(r@) == split(s@, c),
{
    let mut r: Vec<Vec<char>> = Vec::new();
    let mut start: usize = 0;
    assert(s@.skip(0) == s@);
    assert(pieces(r@) == Seq::<Seq<char>>::empty());
    loop
        invariant
            start <= s@.len(),
            split(s@, c) == pieces(r@) + split(s@.skip(start as int), c),
        decreases s@.len() - start,
    {
        let ghost rest = s@.skip(start as int);
        let i = index_of_char(s, c, start);
        proof {
            lemma_first_index_bounds(rest, c);
        }
        let piece = slice_chars(s, start, i);
        proof {
            assert(rest.take(i - start) == piece@);
        }
        let ghost before = pieces(r@);
        r.push(piece);
        proof {
            assert(pieces(r@) == before.push(piece@));
        }
        if i >= s.len() {
            proof {
                assert(rest == piece@);
                assert(pieces(r@) == before + seq![piece@]);
            }
            return r;
        }
        proof {
            assert(rest.skip(i - start + 1) == s@.skip(i + 1));
            assert(before + split(rest, c) == pieces(r@) + split(s@.skip(i + 1), c));
        }
        start = i + 1;
    }
}

/// Trusted: std's `str::to_lowercase`. The contract claims that the result
/// is [`lowercase`] of `s`: a function of the characters of `s` alone, what
/// std's full Unicode lower-casing gives, independent of locale; nothing
/// more of it is stated.
#[verifier::external_body]
pub fn to_lower(s: &str) -> (r: String)
    ensures
        r@ == lowercase(s@),
{
    s.to_lowercase()
}

/// Position of the last `c` in `s`, if any.
pub fn last_index_of_char(s: &Vec<char>, c: char) -> (r: Option<usize>)
    ensures
        r matches Some(i) ==> i as int == last_index(s@, c) && i < s@.len(),
        r is None ==> last_index(s@, c) == -1,
{
    proof {
        lemma_last_index_bounds(s@, c);
    }
    let mut i = s.len();
    assert(s@.take(i as int) == s@);
    while i > 0
        invariant
            i <= s@.len(),
            last_index(s@, c) == last_index(s@.take(i as int), c),
        decreases i,
    {
        assert(s@.take(i as int).drop_last() == s@.take(i - 1));
        if s[i - 1] == c {
            return Some(i - 1);
        }
        i -= 1;
    }
    None
}

/// `s` with every occurrence of `p` replaced by `r` (see [`replace_all`]).
pub fn replace_chars(s: &Vec<char>, p: &Vec<char>, r: &Vec<char>) -> (out: Vec<char>)
    ensures
        out@ == replace_all(s@, p@, r@),
{
    let n = s.len();
    let mut out: Vec<char> = Vec::new();
    assert(s@.skip(0) == s@);
    if p.len() == 0 {
        for i in 0..n
            invariant
                n == s@.len(),
                p@.len() == 0,
                replace_all(s@, p@, r@) == out@ + insert_everywhere(s@.skip(i as int), r@),
        {
            proof {
                let rest = s@.skip(i as int);
                assert(rest.drop_first() == s@.skip(i + 1));
                assert(out@ + insert_everywhere(rest, r@) == (out@ + r@).push(s@[i as int])
                    + insert_everywhere(s@.skip(i + 1), r@));
            }
            push_all(&mut out, r);
            out.push(s[i]);
        }
        push_all(&mut out, r);
        return out;
    }
    let mut i: usize = 0;
    while i < n
        invariant
            n == s@.len(),
            p@.len() > 0,
            i <= n,
            replace_all(s@, p@, r@) == out@ + replace_all(s@.skip(i as int), p@, r@),
        decreases n - i,
    {
        let ghost rest = s@.skip(i as int);
        if match_at(s, p, i) {
            proof {
                assert(rest.subrange(0, p@.len() as int) == s@.subrange(i as int, i + p@.len()));
                assert(rest.skip(p@.len() as int) == s@.skip(i + p@.len()));
            }
            push_all(&mut out, r);
            i = i + p.len();
        } else {
            proof {
                if matches_at(rest, p@, 0) {
                    assert(rest.subrange(0, p@.len() as int) == s@.subrange(i as int, i + p@.len()));
                }
                assert(rest.drop_first() == s@.skip(i + 1));
                assert(out@ + replace_all(rest, p@, r@) == out@.push(s@[i as int]) + replace_all(
                    s@.skip(i + 1),
                    p@,
                    r@,
                ));
            }
            out.push(s[i]);
            i = i + 1;
        }
    }
    assert(s@.skip(n as int).len() == 0);
    out
}

/// Appends the decimal notation of `n` to `out`.
fn push_decimal(out: &mut Vec<char>, n: u64)
    ensures
        final(out)@ == old(out)@ + decimal(n as nat),
    decreases n,
{
    if n >= 10 {
        push_decimal(out, n / 10);
    }
    let d = (n % 10) as u8;
    let c = (48u8 + d) as char;
    assert(c == digit_char((n % 10) as nat));
    out.push(c);
}

/// The decimal notation of `x` (see [`int_text`]).
pub fn int_chars(x: i32) -> (v: Vec<char>)
    ensures
        v@ == int_text(x as int),
{
    let mut v: Vec<char> = Vec::new();
    if x < 0 {
        v.push('-');
        let m: i64 = -(x as i64);
        push_decimal(&mut v, m as u64);
    } else {
        push_decimal(&mut v, x as u64);
    }
    v
}

} // verus!
