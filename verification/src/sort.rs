//! Ordering channels by name: a name is read as a text prefix followed by
//! a number, and channels are ordered by prefix, then by number.
use crate::m3u::{objs, M3uObject, M3uObjectList, M3uObjectListView, M3uObjectView};
use crate::text::chars_of;
use vstd::prelude::*;

verus! {

/// An ASCII decimal digit (what `char::is_digit(10)` accepts).
pub open spec fn is_digit(c: char) -> bool {
    '0' <= c && c <= '9'
}

/// The number that the digits `s` write, most significant first.
pub open spec fn digits_value(s: Seq<char>) -> nat
    decreases s.len(),
{
    if s.len() == 0 {
        0
    } else {
        digits_value(s.drop_last()) * 10 + ((s.last() as int) - 48) as nat
    }
}

/// Every character of `s` is a digit.
pub open spec fn all_digits(s: Seq<char>) -> bool {
    forall|i: int| 0 <= i < s.len() ==> is_digit(#[trigger] s[i])
}

/// What std's `str::parse::<usize>` gives for a text that starts with a
/// digit: the number when the text is all digits and the number fits.
pub open spec fn parse_usize(s: Seq<char>) -> Option<usize> {
    if s.len() > 0 && all_digits(s) && digits_value(s) <= usize::MAX {
        Some(digits_value(s) as usize)
    } else {
        None
    }
}

/// Position of the first digit of `s`, or `s.len()`.
pub open spec fn first_digit(s: Seq<char>) -> int
    decreases s.len(),
{
    if s.len() == 0 {
        0
    } else if is_digit(s[0]) {
        0
    } else {
        1 + first_digit(s.drop_first())
    }
}

/// A name read as a prefix and a number: the text before its first digit,
/// and the number that the rest writes (none when the rest is not all
/// digits or too large); a name without digits is all prefix.
pub open spec fn prefix_and_number(s: Seq<char>) -> (Seq<char>, Option<usize>) {
    let i = first_digit(s);
    if i < s.len() {
        (s.take(i), parse_usize(s.skip(i)))
    } else {
        (s, None)
    }
}

proof fn lemma_first_digit(s: Seq<char>, i: int)
    requires
        0 <= i <= s.len(),
        forall|j: int| 0 <= j < i ==> !is_digit(s[j]),
        i == s.len() || is_digit(s[i]),
    ensures
        first_digit(s) == i,
    decreases s.len(),
{
    if s.len() > 0 && i > 0 {
        lemma_first_digit(s.drop_first(), i - 1);
    }
}

proof fn lemma_value_grows(t: Seq<char>, i: int)
    requires
        0 <= i <= t.len(),
        all_digits(t),
    ensures
        digits_value(t.take(i)) <= digits_value(t),
    decreases t.len(),
{
    if i < t.len() {
        let d = t.drop_last();
        assert(all_digits(d)) by {
            assert forall|j: int| 0 <= j < d.len() implies is_digit(#[trigger] d[j]) by {
                assert(d[j] == t[j]);
            }
        }
        lemma_value_grows(d, i);
        assert(d.take(i) == t.take(i));
        assert(is_digit(t.last()));
    } else {
        assert(t.take(i) == t);
    }
}

/// The prefix and number of a name (see [`prefix_and_number`]).
pub fn extract_prefix_and_number(s: &str) -> (r: (&str, Option<usize>))
    ensures
        (r.0@, r.1) == prefix_and_number(s@),
{
    let v = chars_of(s);
    let n = v.len();
    let mut i: usize = 0;
    while i < n && !(v[i] >= '0' && v[i] <= '9')
        invariant
            n == v@.len(),
            i <= n,
            forall|j: int| 0 <= j < i ==> !is_digit(v@[j]),
        decreases n - i,
    {
        i += 1;
    }
    proof {
        lemma_first_digit(s@, i as int);
    }
    if i == n {
        assert(s@.take(n as int) == s@);
        return (s.substring_char(0, n), None);
    }
    let ghost rest = v@.skip(i as int);
    proof {
        assert(first_digit(s@) == i);
        assert(s@.skip(i as int) == rest);
        assert(rest.take(0) =~= Seq::<char>::empty());
    }
    let mut acc: usize = 0;
    let mut k = i;
    while k < n
        invariant
            n == v@.len(),
            v@ == s@,
            i < n,
            i <= k <= n,
            rest == v@.skip(i as int),
            first_digit(s@) == i,
            all_digits(rest.take(k - i)),
            acc == digits_value(rest.take(k - i)),
        decreases n - k,
    {
        let c = v[k];
        let ghost t = rest.take(k - i + 1);
        assert(t.drop_last() == rest.take(k - i));
        assert(t.last() == c);
        assert(rest[k - i] == c);
        if !(c >= '0' && c <= '9') {
            return (s.substring_char(0, i), None);
        }
        let d = (c as u32 - 48) as usize;
        proof {
            assert forall|j: int| 0 <= j < t.len() implies is_digit(#[trigger] t[j]) by {
                if j < t.len() - 1 {
                    assert(t[j] == rest.take(k - i)[j]);
                }
            }
        }
        let m = match acc.checked_mul(10) {
            Some(m) => m,
            None => {
                proof {
                    if all_digits(rest) {
                        lemma_value_grows(rest, k - i + 1);
                    }
                }
                return (s.substring_char(0, i), None);
            },
        };
        match m.checked_add(d) {
            Some(a) => {
                acc = a;
            },
            None => {
                proof {
                    if all_digits(rest) {
                        lemma_value_grows(rest, k - i + 1);
                    }
                }
                return (s.substring_char(0, i), None);
            },
        }
        k += 1;
    }
    proof {
        assert(rest.take(n - i) == rest);
        assert(rest.len() > 0);
        assert(parse_usize(rest) == Some(acc));
    }
    let number = Some(acc);
    (s.substring_char(0, i), number)
}

// ---------------------------------------------------------------------
// Order
// ---------------------------------------------------------------------

/// `a` comes before `b` in the order of texts: by the first character that
/// differs (by code point, which is also the order of their UTF-8 bytes),
/// a proper prefix first.
pub open spec fn text_lt(a: Seq<char>, b: Seq<char>) -> bool
    decreases a.len(),
{
    if a.len() == 0 {
        b.len() > 0
    } else if b.len() == 0 {
        false
    } else if a[0] != b[0] {
        a[0] < b[0]
    } else {
        text_lt(a.drop_first(), b.drop_first())
    }
}

/// The order of optional numbers: none first, then by value.
pub open spec fn num_lt(a: Option<usize>, b: Option<usize>) -> bool {
    match (a, b) {
        (None, Some(_)) => true,
        (Some(x), Some(y)) => x < y,
        _ => false,
    }
}

/// The order of name keys: by prefix, then by number.
pub open spec fn key_lt(a: (Seq<char>, Option<usize>), b: (Seq<char>, Option<usize>)) -> bool {
    text_lt(a.0, b.0) || (a.0 == b.0 && num_lt(a.1, b.1))
}

/// The key a channel is ordered by.
pub open spec fn name_key(o: M3uObjectView) -> (Seq<char>, Option<usize>) {
    prefix_and_number(o.search_name)
}

/// Where `x` goes into the ordered `r`: after every channel whose key is
/// not above its own.
pub open spec fn insert_pos(r: Seq<M3uObjectView>, x: M3uObjectView) -> int
    decreases r.len(),
{
    if r.len() == 0 {
        0
    } else if key_lt(name_key(x), name_key(r.last())) {
        insert_pos(r.drop_last(), x)
    } else {
        r.len() as int
    }
}

/// `s` ordered by name key, channels of equal key in their order in `s`
/// (the stable sort).
pub open spec fn name_sorted(s: Seq<M3uObjectView>) -> Seq<M3uObjectView>
    decreases s.len(),
{
    if s.len() == 0 {
        s
    } else {
        let r = name_sorted(s.drop_last());
        r.insert(insert_pos(r, s.last()), s.last())
    }
}

/// Whether `a` comes before `b` (see [`text_lt`]).
fn text_less(a: &Vec<char>, b: &Vec<char>) -> (r: bool)
    ensures
        r == text_lt(a@, b@),
{
    let mut i: usize = 0;
    let na = a.len();
    let nb = b.len();
    assert(a@.skip(0) == a@);
    assert(b@.skip(0) == b@);
    loop
        invariant
            na == a@.len(),
            nb == b@.len(),
            i <= na,
            i <= nb,
            text_lt(a@, b@) == text_lt(a@.skip(i as int), b@.skip(i as int)),
        decreases na - i,
    {
        if i == na {
            return i < nb;
        }
        if i == nb {
            return false;
        }
        if a[i] != b[i] {
            return a[i] < b[i];
        }
        assert(a@.skip(i as int).drop_first() == a@.skip(i + 1));
        assert(b@.skip(i as int).drop_first() == b@.skip(i + 1));
        i += 1;
    }
}

/// Whether key `a` comes before key `b` (see [`key_lt`]).
fn key_less(a: &(Vec<char>, Option<usize>), b: &(Vec<char>, Option<usize>)) -> (r: bool)
    ensures
        r == key_lt((a.0@, a.1), (b.0@, b.1)),
{
    if text_less(&a.0, &b.0) {
        return true;
    }
    if !crate::text::chars_eq(&a.0, &b.0) {
        return false;
    }
    match (a.1, b.1) {
        (None, Some(_)) => true,
        (Some(x), Some(y)) => x < y,
        _ => false,
    }
}

impl M3uObjectList {
    /// Orders the channels by the prefix of their search name, then by the
    /// number that follows it, keeping the order of channels with equal
    /// keys (see [`name_sorted`]).
    #[verifier::rlimit(40)]
    pub fn do_name_sort(&mut self)
        ensures
            final(self)@ == (M3uObjectListView { list: name_sorted(old(self)@.list), ..old(self)@ }),
    {
        let mut items: Vec<M3uObject> = Vec::new();
        std::mem::swap(&mut items, &mut self.list);
        let ghost all = objs(items@);
        let mut out: Vec<M3uObject> = Vec::new();
        let mut keys: Vec<(Vec<char>, Option<usize>)> = Vec::new();
        for v in it: items.into_iter()
            invariant
                objs(it.seq()) == all,
                objs(out@) == name_sorted(all.take(it.index() as int)),
                keys@.len() == out@.len(),
                forall|q: int|
                    0 <= q < keys@.len() ==> (#[trigger] keys@[q].0@, keys@[q].1) == name_key(
                        out@[q]@,
                    ),
        {
            let ghost k = it.index() as int;
            let (prefix, num) = extract_prefix_and_number(v.search_name.as_str());
            let key = (chars_of(prefix), num);
            let ghost r = objs(out@);
            let mut pos = out.len();
            proof {
                assert(all[k] == v@);
                assert(all.take(k + 1).drop_last() == all.take(k));
                assert(r.take(pos as int) == r);
            }
            while pos > 0 && key_less(&key, &keys[pos - 1])
                invariant
                    pos <= out@.len(),
                    r == objs(out@),
                    keys@.len() == out@.len(),
                    forall|q: int|
                        0 <= q < keys@.len() ==> (#[trigger] keys@[q].0@, keys@[q].1) == name_key(
                            out@[q]@,
                        ),
                    (key.0@, key.1) == name_key(v@),
                    insert_pos(r, v@) == insert_pos(r.take(pos as int), v@),
                decreases pos,
            {
                assert(r.take(pos as int).drop_last() == r.take(pos - 1));
                assert(r.take(pos as int).last() == out@[pos - 1]@);
                pos -= 1;
            }
            proof {
                if pos > 0 {
                    assert(r.take(pos as int).last() == out@[pos - 1]@);
                }
            }
            let ghost vv = v@;
            let ghost old_keys = keys@;
            let ghost old_out = out@;
            proof {
                assert(pos == insert_pos(r, vv));
                assert(name_sorted(all.take(k + 1)) == r.insert(pos as int, vv));
            }
            out.insert(pos, v);
            keys.insert(pos, key);
            proof {
                assert(objs(out@) =~= r.insert(pos as int, vv));
                assert forall|q: int|
                    0 <= q < keys@.len() implies (#[trigger] keys@[q].0@, keys@[q].1) == name_key(
                    out@[q]@,
                ) by {
                    if q < pos {
                        assert(keys@[q] == old_keys[q] && out@[q] == old_out[q]);
                    } else if q == pos {
                    } else {
                        assert(keys@[q] == old_keys[q - 1] && out@[q] == old_out[q - 1]);
                    }
                }
            }
        }
        proof {
            assert(all.take(all.len() as int) == all);
        }
        self.list = out;
    }
}

} // verus!
