//! Properties of the library as a whole: what its operations keep, and how
//! they relate.
use crate::list::{
    after_check, all_success, cap, first_by_url, grouped, has_url, names_in_order, same_save, search_filter, search_match,
    search_result, with_name,
};
use crate::parse::{
    cleaned_names, keyword_result, read_result, renamed_all,
    extinf_name, normal_entries, normal_obj, all_channels, has_quota_line, keyword_filter, keyword_keep, read_list, source_type, SourceType,
};
use crate::text::{
    contains, lowercase, first_index, last_index, lemma_first_index, lemma_first_index_bounds, lines, split,
    starts_with, strip_cr,
};
use crate::check::{checked, link_outcome, CheckResponseView, LinkCheckError};
use crate::m3u::{objs, raw_text, renamed, texts, CheckDataStatus, M3uObject, M3uObjectView};
use crate::sort::{insert_pos, key_lt, name_key, name_sorted, text_lt};
use vstd::prelude::*;

verus! {

broadcast use vstd::seq_lib::to_multiset_insert;

// ---------------------------------------------------------------------
// The order of names
// ---------------------------------------------------------------------

proof fn lemma_text_lt_irreflexive(a: Seq<char>)
    ensures
        !text_lt(a, a),
    decreases a.len(),
{
    if a.len() > 0 {
        lemma_text_lt_irreflexive(a.drop_first());
    }
}

proof fn lemma_text_lt_transitive(a: Seq<char>, b: Seq<char>, c: Seq<char>)
    requires
        text_lt(a, b),
        text_lt(b, c),
    ensures
        text_lt(a, c),
    decreases a.len(),
{
    if a.len() > 0 && b.len() > 0 && c.len() > 0 && a[0] == b[0] && b[0] == c[0] {
        lemma_text_lt_transitive(a.drop_first(), b.drop_first(), c.drop_first());
    }
}

proof fn lemma_text_lt_total(a: Seq<char>, b: Seq<char>)
    ensures
        a == b || text_lt(a, b) || text_lt(b, a),
    decreases a.len(),
{
    if a.len() > 0 && b.len() > 0 && a[0] == b[0] {
        lemma_text_lt_total(a.drop_first(), b.drop_first());
        if a.drop_first() == b.drop_first() {
            assert(a =~= seq![a[0]] + a.drop_first());
            assert(b =~= seq![b[0]] + b.drop_first());
        }
    } else if a.len() == 0 && b.len() == 0 {
        assert(a =~= b);
    } else if a.len() > 0 && b.len() > 0 {
    }
}

proof fn lemma_key_lt_irreflexive(a: (Seq<char>, Option<usize>))
    ensures
        !key_lt(a, a),
{
    lemma_text_lt_irreflexive(a.0);
}

proof fn lemma_key_lt_transitive(
    a: (Seq<char>, Option<usize>),
    b: (Seq<char>, Option<usize>),
    c: (Seq<char>, Option<usize>),
)
    requires
        key_lt(a, b),
        key_lt(b, c),
    ensures
        key_lt(a, c),
{
    if text_lt(a.0, b.0) && text_lt(b.0, c.0) {
        lemma_text_lt_transitive(a.0, b.0, c.0);
    }
}

/// Keys that neither precede the other have the same prefix and number.
proof fn lemma_key_lt_total(a: (Seq<char>, Option<usize>), b: (Seq<char>, Option<usize>))
    ensures
        a == b || key_lt(a, b) || key_lt(b, a),
{
    lemma_text_lt_total(a.0, b.0);
}

/// `x` does not come after `y`.
pub open spec fn key_le(x: M3uObjectView, y: M3uObjectView) -> bool {
    !key_lt(name_key(y), name_key(x))
}

/// The channels of `s` come in the order of their name keys.
pub open spec fn ordered_by_name(s: Seq<M3uObjectView>) -> bool {
    forall|i: int, j: int| 0 <= i < j < s.len() ==> key_le(#[trigger] s[i], #[trigger] s[j])
}

proof fn lemma_key_le_transitive(x: M3uObjectView, y: M3uObjectView, z: M3uObjectView)
    requires
        key_le(x, y),
        key_le(y, z),
    ensures
        key_le(x, z),
{
    lemma_key_lt_total(name_key(x), name_key(y));
    lemma_key_lt_total(name_key(y), name_key(z));
    if key_lt(name_key(z), name_key(x)) {
        if name_key(x) == name_key(y) {
        } else if name_key(y) == name_key(z) {
        } else {
            lemma_key_lt_transitive(name_key(x), name_key(y), name_key(z));
            lemma_key_lt_transitive(name_key(z), name_key(x), name_key(z));
            lemma_key_lt_irreflexive(name_key(z));
        }
    }
}

proof fn lemma_insert_pos(r: Seq<M3uObjectView>, x: M3uObjectView)
    ensures
        0 <= insert_pos(r, x) <= r.len(),
        forall|q: int| insert_pos(r, x) <= q < r.len() ==> key_lt(name_key(x), name_key(#[trigger] r[q])),
        insert_pos(r, x) > 0 ==> key_le(r[insert_pos(r, x) - 1], x),
    decreases r.len(),
{
    if r.len() > 0 && key_lt(name_key(x), name_key(r.last())) {
        let d = r.drop_last();
        lemma_insert_pos(d, x);
        assert forall|q: int| insert_pos(r, x) <= q < r.len() implies key_lt(
            name_key(x),
            name_key(#[trigger] r[q]),
        ) by {
            if q < r.len() - 1 {
                assert(r[q] == d[q]);
            }
        }
        if insert_pos(r, x) > 0 {
            assert(r[insert_pos(r, x) - 1] == d[insert_pos(r, x) - 1]);
        }
    }
}

proof fn lemma_name_sorted_ordered(s: Seq<M3uObjectView>)
    ensures
        ordered_by_name(name_sorted(s)),
        name_sorted(s).len() == s.len(),
    decreases s.len(),
{
    if s.len() > 0 {
        let r = name_sorted(s.drop_last());
        let x = s.last();
        lemma_name_sorted_ordered(s.drop_last());
        lemma_insert_pos(r, x);
        let p = insert_pos(r, x);
        let t = r.insert(p, x);
        r.insert_ensures(p, x);
        assert forall|i: int, j: int| 0 <= i < j < t.len() implies key_le(
            #[trigger] t[i],
            #[trigger] t[j],
        ) by {
            if j < p {
            } else if j == p {
                if i < p - 1 {
                    lemma_key_le_transitive(r[i], r[p - 1], x);
                }
            } else if i < p {
                assert(t[j] == r[j - 1]);
                if i < p - 1 {
                    lemma_key_le_transitive(r[i], r[p - 1], x);
                }
                lemma_key_lt_asymmetric_keys(name_key(x), name_key(r[j - 1]));
                lemma_key_le_transitive(t[i], x, r[j - 1]);
            } else if i == p {
                assert(t[j] == r[j - 1]);
                lemma_key_lt_asymmetric_keys(name_key(x), name_key(r[j - 1]));
            } else {
                assert(t[i] == r[i - 1]);
                assert(t[j] == r[j - 1]);
            }
        }
    }
}

proof fn lemma_key_lt_asymmetric_keys(a: (Seq<char>, Option<usize>), b: (Seq<char>, Option<usize>))
    requires
        key_lt(a, b),
    ensures
        !key_lt(b, a),
{
    if key_lt(b, a) {
        lemma_key_lt_transitive(a, b, a);
        lemma_key_lt_irreflexive(a);
    }
}

/// Sorting by name puts the channels in the order of their name keys:
/// no channel comes before one whose key precedes its own.
pub proof fn law_name_sort_ordered(s: Seq<M3uObjectView>)
    ensures
        ordered_by_name(name_sorted(s)),
{
    lemma_name_sorted_ordered(s);
}

/// Sorting by name keeps every channel: the sorted list holds the same
/// channels, each as often, as the list sorted.
pub proof fn law_name_sort_permutes(s: Seq<M3uObjectView>)
    ensures
        name_sorted(s).to_multiset() == s.to_multiset(),
    decreases s.len(),
{
    if s.len() > 0 {
        let r = name_sorted(s.drop_last());
        law_name_sort_permutes(s.drop_last());
        lemma_name_sorted_ordered(s.drop_last());
        lemma_insert_pos(r, s.last());
        assert(s == s.drop_last().push(s.last()));
        vstd::seq_lib::to_multiset_build(s.drop_last(), s.last());
    }
}

/// A list already in name order is left as it is by sorting; so sorting a
/// second time changes nothing.
pub proof fn law_name_sort_idempotent(s: Seq<M3uObjectView>)
    ensures
        ordered_by_name(s) ==> name_sorted(s) == s,
        name_sorted(name_sorted(s)) == name_sorted(s),
{
    if ordered_by_name(s) {
        lemma_sorted_fixed(s);
    }
    lemma_name_sorted_ordered(s);
    lemma_sorted_fixed(name_sorted(s));
}

proof fn lemma_sorted_fixed(s: Seq<M3uObjectView>)
    requires
        ordered_by_name(s),
    ensures
        name_sorted(s) == s,
    decreases s.len(),
{
    if s.len() > 0 {
        let d = s.drop_last();
        assert(ordered_by_name(d)) by {
            assert forall|i: int, j: int| 0 <= i < j < d.len() implies key_le(
                #[trigger] d[i],
                #[trigger] d[j],
            ) by {
                assert(d[i] == s[i] && d[j] == s[j]);
            }
        }
        lemma_sorted_fixed(d);
        if d.len() > 0 {
            assert(key_le(d.last(), s.last())) by {
                assert(d.last() == s[s.len() - 2]);
            }
        }
        assert(insert_pos(d, s.last()) == d.len());
        assert(d.insert(d.len() as int, s.last()) =~= s);
    }
}

// ---------------------------------------------------------------------
// A few channels per name
// ---------------------------------------------------------------------

proof fn lemma_with_name_concat(a: Seq<M3uObjectView>, b: Seq<M3uObjectView>, n: Seq<char>)
    ensures
        with_name(a + b, n) == with_name(a, n) + with_name(b, n),
    decreases b.len(),
{
    if b.len() == 0 {
        assert(a + b =~= a);
        assert(with_name(a, n) + with_name(b, n) =~= with_name(a, n));
    } else {
        lemma_with_name_concat(a, b.drop_last(), n);
        assert((a + b).drop_last() =~= a + b.drop_last());
        assert((a + b).last() == b.last());
        if b.last().search_name == n {
            assert(with_name(a, n) + with_name(b, n) =~= (with_name(a, n) + with_name(
                b.drop_last(),
                n,
            )).push(b.last()));
        }
    }
}

/// Every channel of `x` has the search name `m`.
pub open spec fn all_named(x: Seq<M3uObjectView>, m: Seq<char>) -> bool {
    forall|i: int| 0 <= i < x.len() ==> (#[trigger] x[i]).search_name == m
}

proof fn lemma_with_name_named(s: Seq<M3uObjectView>, m: Seq<char>)
    ensures
        all_named(with_name(s, m), m),
    decreases s.len(),
{
    if s.len() > 0 {
        lemma_with_name_named(s.drop_last(), m);
    }
}

proof fn lemma_with_name_of_named(x: Seq<M3uObjectView>, m: Seq<char>, n: Seq<char>)
    requires
        all_named(x, m),
    ensures
        with_name(x, n) == (if m == n {
            x
        } else {
            Seq::<M3uObjectView>::empty()
        }),
    decreases x.len(),
{
    if x.len() > 0 {
        let d = x.drop_last();
        assert(all_named(d, m)) by {
            assert forall|i: int| 0 <= i < d.len() implies (#[trigger] d[i]).search_name == m by {
                assert(d[i] == x[i]);
            }
        }
        lemma_with_name_of_named(d, m, n);
        assert(x.last() == x[x.len() - 1]);
        if m == n {
            assert(d.push(x.last()) =~= x);
        }
    }
}

proof fn lemma_cap_named(x: Seq<M3uObjectView>, m: Seq<char>, k: int)
    requires
        all_named(x, m),
    ensures
        all_named(cap(x, k), m),
{
    assert forall|i: int| 0 <= i < cap(x, k).len() implies (#[trigger] cap(x, k)[i]).search_name == m by {
        assert(cap(x, k)[i] == x[i]);
    }
}

/// The names of `names` differ from each other.
pub open spec fn distinct_names(names: Seq<Seq<char>>) -> bool {
    forall|a: int, b: int| 0 <= a < b < names.len() ==> #[trigger] names[a] != #[trigger] names[b]
}

proof fn lemma_grouped_with_name(s: Seq<M3uObjectView>, names: Seq<Seq<char>>, k: int, n: Seq<char>)
    requires
        distinct_names(names),
    ensures
        with_name(grouped(s, names, k), n) == (if names.contains(n) {
            cap(with_name(s, n), k)
        } else {
            Seq::<M3uObjectView>::empty()
        }),
    decreases names.len(),
{
    if names.len() == 0 {
        assert(with_name(Seq::<M3uObjectView>::empty(), n) == Seq::<M3uObjectView>::empty());
    } else {
        let d = names.drop_last();
        let m = names.last();
        assert(distinct_names(d)) by {
            assert forall|a: int, b: int| 0 <= a < b < d.len() implies #[trigger] d[a] != #[trigger] d[b] by {
                assert(d[a] == names[a] && d[b] == names[b]);
            }
        }
        lemma_grouped_with_name(s, d, k, n);
        lemma_with_name_concat(grouped(s, d, k), cap(with_name(s, m), k), n);
        lemma_with_name_named(s, m);
        lemma_cap_named(with_name(s, m), m, k);
        lemma_with_name_of_named(cap(with_name(s, m), k), m, n);
        if m == n {
            assert(!d.contains(n)) by {
                if d.contains(n) {
                    let a = choose|a: int| 0 <= a < d.len() && d[a] == n;
                    assert(names[a] == names[names.len() - 1]);
                }
            }
            assert(names.contains(n)) by {
                assert(names[names.len() - 1] == n);
            }
            assert(Seq::<M3uObjectView>::empty() + cap(with_name(s, n), k) =~= cap(
                with_name(s, n),
                k,
            ));
        } else {
            assert(names.contains(n) == d.contains(n)) by {
                if names.contains(n) {
                    let a = choose|a: int| 0 <= a < names.len() && names[a] == n;
                    assert(d[a] == n);
                }
                if d.contains(n) {
                    let a = choose|a: int| 0 <= a < d.len() && d[a] == n;
                    assert(names[a] == n);
                }
            }
            assert(with_name(grouped(s, d, k), n) + Seq::<M3uObjectView>::empty() =~= with_name(
                grouped(s, d, k),
                n,
            ));
        }
    }
}

proof fn lemma_names_in_order(s: Seq<M3uObjectView>, n: Seq<char>)
    ensures
        distinct_names(names_in_order(s)),
        !names_in_order(s).contains(n) ==> with_name(s, n) == Seq::<M3uObjectView>::empty(),
    decreases s.len(),
{
    if s.len() > 0 {
        let d = s.drop_last();
        lemma_names_in_order(d, n);
        lemma_names_in_order(d, s.last().search_name);
        let r = names_in_order(d);
        if !r.contains(s.last().search_name) {
            let t = r.push(s.last().search_name);
            assert forall|a: int, b: int| 0 <= a < b < t.len() implies #[trigger] t[a] != #[trigger] t[b] by {
                if b == t.len() - 1 {
                    assert(t[a] == r[a]);
                    if t[a] == t[b] {
                        assert(r.contains(s.last().search_name));
                    }
                } else {
                    assert(t[a] == r[a] && t[b] == r[b]);
                }
            }
            if !t.contains(n) {
                assert(!r.contains(n)) by {
                    if r.contains(n) {
                        let a = choose|a: int| 0 <= a < r.len() && r[a] == n;
                        assert(t[a] == n);
                    }
                }
                assert(s.last().search_name != n) by {
                    assert(t[t.len() - 1] == s.last().search_name);
                }
            }
        } else {
            if !r.contains(n) && s.last().search_name == n {
            }
        }
    }
}

/// Keeping `k` channels per name keeps, of each search name, exactly the
/// first `k` channels with it (all of them when there are fewer), in their
/// order: no name occurs more than `k` times in the result.
pub proof fn law_same_save_per_name(s: Seq<M3uObjectView>, k: int, n: Seq<char>)
    ensures
        with_name(same_save(s, k), n) == cap(with_name(s, n), k),
{
    lemma_names_in_order(s, n);
    lemma_grouped_with_name(s, names_in_order(s), k, n);
    if !names_in_order(s).contains(n) {
        assert(cap(Seq::<M3uObjectView>::empty(), k) =~= Seq::<M3uObjectView>::empty());
    }
}

// ---------------------------------------------------------------------
// Search
// ---------------------------------------------------------------------

proof fn lemma_first_by_url(s: Seq<M3uObjectView>)
    ensures
        forall|i: int, j: int|
            0 <= i < j < first_by_url(s).len() ==> (#[trigger] first_by_url(s)[i]).url != (
            #[trigger] first_by_url(s)[j]).url,
        forall|i: int| 0 <= i < first_by_url(s).len() ==> s.contains(#[trigger] first_by_url(s)[i]),
        forall|i: int| 0 <= i < s.len() ==> has_url(first_by_url(s), (#[trigger] s[i]).url),
    decreases s.len(),
{
    if s.len() > 0 {
        let d = s.drop_last();
        let r = first_by_url(d);
        lemma_first_by_url(d);
        let t = first_by_url(s);
        assert forall|i: int| 0 <= i < t.len() implies s.contains(#[trigger] t[i]) by {
            if i < r.len() {
                assert(t[i] == r[i]);
                let q = choose|q: int| 0 <= q < d.len() && d[q] == r[i];
                assert(s[q] == d[q]);
            } else {
                assert(s[s.len() - 1] == t[i]);
            }
        }
        assert forall|i: int| 0 <= i < s.len() implies has_url(t, (#[trigger] s[i]).url) by {
            if i < s.len() - 1 {
                assert(s[i] == d[i]);
                assert(has_url(r, d[i].url));
                let q = choose|q: int| 0 <= q < r.len() && #[trigger] r[q].url == d[i].url;
                assert(t[q] == r[q]);
            } else if has_url(r, s.last().url) {
                let q = choose|q: int| 0 <= q < r.len() && #[trigger] r[q].url == s.last().url;
                assert(t[q] == r[q]);
            } else {
                assert(t[t.len() - 1] == s.last());
            }
        }
        if !has_url(r, s.last().url) {
            assert forall|i: int, j: int| 0 <= i < j < t.len() implies (#[trigger] t[i]).url != (
            #[trigger] t[j]).url by {
                if j == t.len() - 1 {
                    assert(t[i] == r[i]);
                } else {
                    assert(t[i] == r[i] && t[j] == r[j]);
                }
            }
        }
    }
}

proof fn lemma_search_filter(s: Seq<M3uObjectView>, terms: Seq<Seq<char>>, full: bool)
    ensures
        forall|i: int|
            0 <= i < search_filter(s, terms, full).len() ==> search_match(
                (#[trigger] search_filter(s, terms, full)[i]).search_name,
                terms,
                full,
            ) && s.contains(search_filter(s, terms, full)[i]),
        forall|i: int|
            0 <= i < s.len() && search_match((#[trigger] s[i]).search_name, terms, full)
                ==> search_filter(s, terms, full).contains(s[i]),
    decreases s.len(),
{
    if s.len() > 0 {
        let d = s.drop_last();
        lemma_search_filter(d, terms, full);
        let r = search_filter(d, terms, full);
        let t = search_filter(s, terms, full);
        assert forall|i: int| 0 <= i < t.len() implies search_match(
            (#[trigger] t[i]).search_name,
            terms,
            full,
        ) && s.contains(t[i]) by {
            if i < r.len() {
                assert(t[i] == r[i]);
                let q = choose|q: int| 0 <= q < d.len() && d[q] == r[i];
                assert(s[q] == d[q]);
            } else {
                assert(s[s.len() - 1] == t[i]);
            }
        }
        assert forall|i: int|
            0 <= i < s.len() && search_match(
                (#[trigger] s[i]).search_name,
                terms,
                full,
            ) implies t.contains(s[i]) by {
            if i < s.len() - 1 {
                assert(s[i] == d[i]);
                let q = choose|q: int| 0 <= q < r.len() && r[q] == d[i];
                assert(t[q] == r[q]);
            } else {
                assert(t[t.len() - 1] == s[i]);
            }
        }
    }
}

/// A search gives no url twice.
pub proof fn law_search_distinct_urls(s: Seq<M3uObjectView>, name: Seq<char>, full: bool)
    ensures
        forall|i: int, j: int|
            0 <= i < j < search_result(s, name, full).len() ==> (#[trigger] search_result(
                s,
                name,
                full,
            )[i]).url != (#[trigger] search_result(s, name, full)[j]).url,
{
    lemma_first_by_url(search_filter(s, split(name, ','), full));
}

/// Every channel a search gives is one of the list's channels, and its
/// search name answers one of the terms.
pub proof fn law_search_sound(s: Seq<M3uObjectView>, name: Seq<char>, full: bool)
    ensures
        forall|i: int|
            0 <= i < search_result(s, name, full).len() ==> s.contains(
                #[trigger] search_result(s, name, full)[i],
            ) && search_match(search_result(s, name, full)[i].search_name, split(name, ','), full),
{
    let f = search_filter(s, split(name, ','), full);
    lemma_first_by_url(f);
    lemma_search_filter(s, split(name, ','), full);
    let r = search_result(s, name, full);
    assert forall|i: int| 0 <= i < r.len() implies s.contains(#[trigger] r[i]) && search_match(
        r[i].search_name,
        split(name, ','),
        full,
    ) by {
        assert(f.contains(r[i]));
        let q = choose|q: int| 0 <= q < f.len() && f[q] == r[i];
        assert(search_match(f[q].search_name, split(name, ','), full));
    }
}

/// A search misses no url: for every channel whose search name answers a
/// term, some channel with its url is among the results.
pub proof fn law_search_complete(s: Seq<M3uObjectView>, name: Seq<char>, full: bool)
    ensures
        forall|i: int|
            0 <= i < s.len() && search_match((#[trigger] s[i]).search_name, split(name, ','), full)
                ==> has_url(search_result(s, name, full), s[i].url),
{
    let f = search_filter(s, split(name, ','), full);
    lemma_first_by_url(f);
    lemma_search_filter(s, split(name, ','), full);
    assert forall|i: int|
        0 <= i < s.len() && search_match(
            (#[trigger] s[i]).search_name,
            split(name, ','),
            full,
        ) implies has_url(search_result(s, name, full), s[i].url) by {
        assert(f.contains(s[i]));
        let q = choose|q: int| 0 <= q < f.len() && f[q] == s[i];
        assert(has_url(first_by_url(f), f[q].url));
    }
}

// ---------------------------------------------------------------------
// Choosing by keyword, reading
// ---------------------------------------------------------------------

/// Without keywords, choosing by keyword keeps every channel, in order.
pub proof fn law_no_keywords_keeps_all(s: Seq<M3uObjectView>)
    ensures
        keyword_filter(s, Seq::empty(), Seq::empty()) == s,
    decreases s.len(),
{
    if s.len() > 0 {
        law_no_keywords_keeps_all(s.drop_last());
        assert(keyword_keep(s.last(), Seq::empty(), Seq::empty()));
        assert(s.drop_last().push(s.last()) =~= s);
    }
}

/// Choosing by keyword keeps channels only: each channel it gives is one
/// of the list's, and one that the keywords keep.
pub proof fn law_keyword_filter_sound(
    s: Seq<M3uObjectView>,
    like: Seq<Seq<char>>,
    dislike: Seq<Seq<char>>,
)
    ensures
        forall|i: int|
            0 <= i < keyword_filter(s, like, dislike).len() ==> s.contains(
                #[trigger] keyword_filter(s, like, dislike)[i],
            ) && keyword_keep(keyword_filter(s, like, dislike)[i], like, dislike),
    decreases s.len(),
{
    if s.len() > 0 {
        let d = s.drop_last();
        law_keyword_filter_sound(d, like, dislike);
        let r = keyword_filter(d, like, dislike);
        let t = keyword_filter(s, like, dislike);
        assert forall|i: int| 0 <= i < t.len() implies s.contains(#[trigger] t[i]) && keyword_keep(
            t[i],
            like,
            dislike,
        ) by {
            if i < r.len() {
                assert(t[i] == r[i]);
                let q = choose|q: int| 0 <= q < d.len() && d[q] == r[i];
                assert(s[q] == d[q]);
            } else {
                assert(s[s.len() - 1] == t[i]);
            }
        }
    }
}

/// Reading one playlist text together with no others, and choosing by no
/// keywords, gives the channels that reading it on its own gives.
pub proof fn law_single_text_reads_alike(b: Seq<char>)
    ensures
        keyword_filter(all_channels(seq![b]), Seq::empty(), Seq::empty()) == read_list(b).list,
{
    let bs = seq![b];
    assert(bs.drop_last() =~= Seq::<Seq<char>>::empty());
    assert(bs.last() == b);
    assert(all_channels(bs.drop_last()) == Seq::<M3uObjectView>::empty());
    assert(all_channels(bs) =~= read_list(b).list);
    law_no_keywords_keeps_all(all_channels(bs));
}

// ---------------------------------------------------------------------
// Recognising the formats
// ---------------------------------------------------------------------

/// `c` occurs in `s`.
pub open spec fn has_char(s: Seq<char>, c: char) -> bool {
    exists|i: int| 0 <= i < s.len() && s[i] == c
}

proof fn lemma_split_len(s: Seq<char>, c: char)
    ensures
        split(s, c).len() >= 1,
        split(s, c).len() >= 2 <==> has_char(s, c),
    decreases s.len(),
{
    lemma_first_index_bounds(s, c);
    let i = first_index(s, c);
    if i < s.len() {
        lemma_split_len(s.skip(i + 1), c);
    }
}

proof fn lemma_lines_comma(s: Seq<char>)
    ensures
        (exists|k: int| 0 <= k < lines(s).len() && has_char(#[trigger] lines(s)[k], ',')) <==> has_char(
            s,
            ',',
        ),
    decreases s.len(),
{
    if s.len() > 0 {
        lemma_first_index_bounds(s, '\n');
        let i = first_index(s, '\n');
        if i >= s.len() {
            let l = s;
            assert(lines(s) == seq![l]);
            if has_char(s, ',') {
                let j = choose|j: int| 0 <= j < s.len() && s[j] == ',';
                assert(l[j] == ',');
                assert(has_char(lines(s)[0], ','));
            }
            if has_char(l, ',') {
                let j = choose|j: int| 0 <= j < l.len() && l[j] == ',';
                assert(s[j] == ',');
            }
        } else {
            let rest = s.skip(i + 1);
            let l = strip_cr(s.take(i));
            lemma_lines_comma(rest);
            assert(lines(s) == seq![l] + lines(rest));
            if has_char(s, ',') {
                let j = choose|j: int| 0 <= j < s.len() && s[j] == ',';
                if j < i {
                    assert(s.take(i)[j] == ',');
                    assert(l[j] == ',');
                    assert(has_char(lines(s)[0], ','));
                } else {
                    assert(j != i);
                    assert(rest[j - i - 1] == ',');
                    let k = choose|k: int| 0 <= k < lines(rest).len() && has_char(#[trigger] lines(rest)[k], ',');
                    assert(lines(s)[k + 1] == lines(rest)[k]);
                }
            }
            if exists|k: int| 0 <= k < lines(s).len() && has_char(#[trigger] lines(s)[k], ',') {
                let k = choose|k: int| 0 <= k < lines(s).len() && has_char(#[trigger] lines(s)[k], ',');
                if k == 0 {
                    let j = choose|j: int| 0 <= j < l.len() && l[j] == ',';
                    assert(s[j] == s.take(i)[j]);
                } else {
                    assert(lines(s)[k] == lines(rest)[k - 1]);
                    let j = choose|j: int| 0 <= j < rest.len() && rest[j] == ',';
                    assert(s[j + i + 1] == ',');
                }
            }
        }
    }
}

/// A text that does not start with `#EXTM3U` is read as `name,url` lines
/// exactly when it holds a comma somewhere.
pub proof fn law_quota_iff_comma(body: Seq<char>)
    ensures
        source_type(body) == Some(SourceType::Quota) <==> !starts_with(body, "#EXTM3U"@) && contains(
            body,
            seq![','],
        ),
{
    lemma_lines_comma(body);
    let ls = lines(body);
    assert(has_quota_line(body) <==> exists|k: int| 0 <= k < ls.len() && has_char(#[trigger] ls[k], ',')) by {
        if has_quota_line(body) {
            let k = choose|k: int| 0 <= k < ls.len() && #[trigger] split(ls[k], ',').len() >= 2;
            lemma_split_len(ls[k], ',');
        }
        if exists|k: int| 0 <= k < ls.len() && has_char(#[trigger] ls[k], ',') {
            let k = choose|k: int| 0 <= k < ls.len() && has_char(#[trigger] ls[k], ',');
            lemma_split_len(ls[k], ',');
        }
    }
    assert(contains(body, seq![',']) <==> has_char(body, ',')) by {
        if contains(body, seq![',']) {
            let i = choose|i: int| crate::text::matches_at(body, seq![','], i);
            assert(body.subrange(i, i + 1)[0] == body[i]);
        }
        if has_char(body, ',') {
            let i = choose|i: int| 0 <= i < body.len() && body[i] == ',';
            assert(body.subrange(i, i + 1) =~= seq![',']);
            assert(crate::text::matches_at(body, seq![','], i));
        }
    }
}

// ---------------------------------------------------------------------
// Writing an entry and reading it back
// ---------------------------------------------------------------------

proof fn lemma_last_index_append(s: Seq<char>, t: Seq<char>, c: char)
    requires
        s.len() > 0,
        s.last() == c,
        !has_char(t, c),
    ensures
        last_index(s + t, c) == s.len() - 1,
    decreases t.len(),
{
    if t.len() == 0 {
        assert(s + t =~= s);
    } else {
        let d = t.drop_last();
        assert(!has_char(d, c)) by {
            if has_char(d, c) {
                let j = choose|j: int| 0 <= j < d.len() && d[j] == c;
                assert(t[j] == c);
            }
        }
        lemma_last_index_append(s, d, c);
        assert((s + t).drop_last() =~= s + d);
        assert((s + t).last() == t[t.len() - 1]);
    }
}

/// The reading of an entry text that `generate_raw` wrote for a channel
/// without extension gives that channel back: one channel, with the same
/// name, url and entry text, searched by its name lower-cased. This holds
/// when the name holds no line break, carriage return or comma, and the url
/// holds no line break, is not empty and does not start with `'#'`.
pub proof fn law_written_entry_reads_back(o: M3uObjectView)
    requires
        o.extend is None,
        !has_char(o.name, '\n'),
        !has_char(o.name, '\r'),
        !has_char(o.name, ','),
        !has_char(o.url, '\n'),
        o.url.len() > 0,
        o.url[0] != '#',
    ensures
        normal_entries(lines(raw_text(o)), None) == seq![
            normal_obj("#EXTINF:-1 ,"@ + o.name, raw_text(o), o.url),
        ],
        extinf_name("#EXTINF:-1 ,"@ + o.name) == o.name,
{
    reveal_strlit("#EXTINF:-1 ");
    reveal_strlit(",");
    reveal_strlit("\n");
    reveal_strlit("#EXTINF:-1 ,");
    reveal_strlit("#EXTINF");
    let pre = "#EXTINF:-1 ,"@;
    let ext = pre + o.name;
    let body = raw_text(o);
    assert("#EXTINF:-1 "@ + crate::m3u::extinf_attrs(o.extend) + ","@ =~= pre);
    assert(body =~= ext + seq!['\n'] + o.url);
    // the first line break ends the `#EXTINF` line
    assert forall|j: int| 0 <= j < ext.len() implies body[j] != '\n' by {
        if j >= pre.len() {
            assert(body[j] == o.name[j - pre.len()]);
            if body[j] == '\n' {
                assert(has_char(o.name, '\n'));
            }
        } else {
            assert(body[j] == pre[j]);
        }
    }
    lemma_first_index(body, '\n', ext.len() as int);
    assert(body.take(ext.len() as int) =~= ext);
    assert(body.skip(ext.len() as int + 1) =~= o.url);
    // the `#EXTINF` line does not end with a carriage return
    assert(strip_cr(ext) == ext) by {
        if o.name.len() > 0 {
            assert(ext.last() == o.name[o.name.len() - 1]);
            if ext.last() == '\r' {
                assert(has_char(o.name, '\r'));
            }
        } else {
            assert(ext.last() == pre.last());
        }
    }
    assert forall|j: int| 0 <= j < o.url.len() implies o.url[j] != '\n' by {
        if o.url[j] == '\n' {
            assert(has_char(o.url, '\n'));
        }
    }
    lemma_first_index(o.url, '\n', o.url.len() as int);
    assert(lines(o.url) == seq![o.url]);
    assert(lines(body) =~= seq![ext, o.url]);
    // the first line starts an entry, the url line ends it
    assert(ext.subrange(0, 7) =~= "#EXTINF"@);
    assert(starts_with(ext, "#EXTINF"@));
    assert(!starts_with(o.url, "#EXTINF"@)) by {
        if starts_with(o.url, "#EXTINF"@) {
            assert(o.url.subrange(0, 7)[0] == o.url[0]);
        }
    }
    let ls = seq![ext, o.url];
    assert(ls.drop_first() =~= seq![o.url]);
    assert(seq![o.url].drop_first() =~= Seq::<Seq<char>>::empty());
    assert(ext + seq!['\n'] + o.url =~= body);
    assert(seq![o.url][0] == o.url);
    assert(normal_entries(Seq::<Seq<char>>::empty(), None) == Seq::<M3uObjectView>::empty());
    assert(normal_entries(seq![o.url], Some((ext, ext))) == seq![normal_obj(ext, ext + seq!['\n'] + o.url, o.url)] + Seq::<M3uObjectView>::empty());
    assert(normal_entries(seq![o.url], Some((ext, ext))) =~= seq![
        normal_obj(ext, body, o.url),
    ]);
    // the name is what follows the last comma
    lemma_last_index_append(pre, o.name, ',');
    assert(ext.skip(pre.len() as int) =~= o.name);
}

// ---------------------------------------------------------------------
// Finishing a check
// ---------------------------------------------------------------------

proof fn lemma_with_name_from(s: Seq<M3uObjectView>, n: Seq<char>)
    ensures
        forall|i: int| 0 <= i < with_name(s, n).len() ==> s.contains(#[trigger] with_name(s, n)[i]),
    decreases s.len(),
{
    if s.len() > 0 {
        let d = s.drop_last();
        lemma_with_name_from(d, n);
        let r = with_name(d, n);
        let t = with_name(s, n);
        assert forall|i: int| 0 <= i < t.len() implies s.contains(#[trigger] t[i]) by {
            if i < r.len() {
                assert(t[i] == r[i]);
                let q = choose|q: int| 0 <= q < d.len() && d[q] == r[i];
                assert(s[q] == d[q]);
            } else {
                assert(s[s.len() - 1] == t[i]);
            }
        }
    }
}

proof fn lemma_grouped_from(s: Seq<M3uObjectView>, names: Seq<Seq<char>>, k: int)
    ensures
        forall|i: int| 0 <= i < grouped(s, names, k).len() ==> s.contains(#[trigger] grouped(s, names, k)[i]),
    decreases names.len(),
{
    if names.len() > 0 {
        let d = names.drop_last();
        lemma_grouped_from(s, d, k);
        lemma_with_name_from(s, names.last());
        let a = grouped(s, d, k);
        let b = cap(with_name(s, names.last()), k);
        let t = grouped(s, names, k);
        assert forall|i: int| 0 <= i < t.len() implies s.contains(#[trigger] t[i]) by {
            if i < a.len() {
                assert(t[i] == a[i]);
            } else {
                assert(t[i] == b[i - a.len()]);
                assert(b[i - a.len()] == with_name(s, names.last())[i - a.len()]);
            }
        }
    }
}

/// All the channels of `s` answer.
pub open spec fn all_answer(s: Seq<M3uObjectView>) -> bool {
    forall|i: int| 0 <= i < s.len() ==> (#[trigger] s[i]).status == CheckDataStatus::Success
}

/// Finishing a check made without checking leaves only channels marked as
/// answering, whether they are then sorted or cut to a few per name.
pub proof fn law_unchecked_finish_all_answer(s: Seq<M3uObjectView>, sort: bool, k: int)
    ensures
        all_answer(after_check(all_success(s), sort, k)),
{
    let a = all_success(s);
    assert(all_answer(a));
    let s1 = if sort {
        name_sorted(a)
    } else {
        a
    };
    assert(all_answer(s1)) by {
        if sort {
            law_name_sort_permutes(a);
            assert forall|i: int| 0 <= i < s1.len() implies (#[trigger] s1[i]).status
                == CheckDataStatus::Success by {
                assert(s1.to_multiset().count(s1[i]) > 0) by {
                    assert(s1.contains(s1[i]));
                    vstd::seq_lib::to_multiset_contains(s1, s1[i]);
                }
                vstd::seq_lib::to_multiset_contains(a, s1[i]);
                let q = choose|q: int| 0 <= q < a.len() && a[q] == s1[i];
            }
        }
    }
    if k > 0 {
        lemma_grouped_from(s1, names_in_order(s1), k);
        let r = same_save(s1, k);
        assert forall|i: int| 0 <= i < r.len() implies (#[trigger] r[i]).status == CheckDataStatus::Success by {
            assert(s1.contains(r[i]));
            let q = choose|q: int| 0 <= q < s1.len() && s1[q] == r[i];
        }
    }
}

// ---------------------------------------------------------------------
// Reading several texts, renaming
// ---------------------------------------------------------------------

proof fn lemma_keyword_filter_concat(
    x: Seq<M3uObjectView>,
    y: Seq<M3uObjectView>,
    like: Seq<Seq<char>>,
    dislike: Seq<Seq<char>>,
)
    ensures
        keyword_filter(x + y, like, dislike) == keyword_filter(x, like, dislike) + keyword_filter(
            y,
            like,
            dislike,
        ),
    decreases y.len(),
{
    if y.len() == 0 {
        assert(x + y =~= x);
        assert(keyword_filter(x, like, dislike) + keyword_filter(y, like, dislike) =~= keyword_filter(
            x,
            like,
            dislike,
        ));
    } else {
        lemma_keyword_filter_concat(x, y.drop_last(), like, dislike);
        assert((x + y).drop_last() =~= x + y.drop_last());
        assert((x + y).last() == y.last());
        let a = keyword_filter(x, like, dislike);
        let b = keyword_filter(y.drop_last(), like, dislike);
        assert((a + b).push(y.last()) =~= a + b.push(y.last()));
    }
}

proof fn lemma_all_channels_concat(a: Seq<Seq<char>>, b: Seq<Seq<char>>)
    ensures
        all_channels(a + b) == all_channels(a) + all_channels(b),
    decreases b.len(),
{
    if b.len() == 0 {
        assert(a + b =~= a);
        assert(all_channels(a) + all_channels(b) =~= all_channels(a));
    } else {
        lemma_all_channels_concat(a, b.drop_last());
        assert((a + b).drop_last() =~= a + b.drop_last());
        assert((a + b).last() == b.last());
        assert(all_channels(a + b) =~= all_channels(a) + all_channels(b));
    }
}

/// Choosing by keyword goes channel by channel: the choices made of two
/// lists, one after the other, are a choice made of the two lists put
/// together; without renaming it is the only one.
pub proof fn law_keyword_result_concat<F: Fn(String) -> String>(
    clean: F,
    la: Seq<M3uObject>,
    lb: Seq<M3uObject>,
    like: Seq<Seq<char>>,
    dislike: Seq<Seq<char>>,
    rename: bool,
    oa: Seq<M3uObjectView>,
    ob: Seq<M3uObjectView>,
)
    requires
        keyword_result(clean, la, like, dislike, rename, oa),
        keyword_result(clean, lb, like, dislike, rename, ob),
    ensures
        keyword_result(clean, la + lb, like, dislike, rename, oa + ob),
{
    assert(objs(la + lb) =~= objs(la) + objs(lb));
    lemma_keyword_filter_concat(objs(la), objs(lb), like, dislike);
    if rename {
        let csa = choose|cs: Seq<String>|
            cleaned_names(clean, la, cs) && oa == keyword_filter(
                renamed_all(objs(la), texts(cs)),
                like,
                dislike,
            );
        let csb = choose|cs: Seq<String>|
            cleaned_names(clean, lb, cs) && ob == keyword_filter(
                renamed_all(objs(lb), texts(cs)),
                like,
                dislike,
            );
        let cs = csa + csb;
        let l = la + lb;
        assert(cleaned_names(clean, l, cs)) by {
            assert forall|i: int| 0 <= i < l.len() implies clean.ensures(
                (l[i].search_name,),
                #[trigger] cs[i],
            ) by {
                if i < la.len() {
                    assert(l[i] == la[i] && cs[i] == csa[i]);
                } else {
                    assert(l[i] == lb[i - la.len()] && cs[i] == csb[i - la.len()]);
                }
            }
        }
        assert(renamed_all(objs(l), texts(cs)) =~= renamed_all(objs(la), texts(csa)) + renamed_all(
            objs(lb),
            texts(csb),
        ));
        lemma_keyword_filter_concat(
            renamed_all(objs(la), texts(csa)),
            renamed_all(objs(lb), texts(csb)),
            like,
            dislike,
        );
    }
}

/// Reading several playlist texts goes text by text: the results of
/// reading `a` and of reading `b`, one after the other, are a result of
/// reading `a` followed by `b`; without renaming it is the only one.
pub proof fn law_read_concat<F: Fn(String) -> String>(
    clean: F,
    a: Seq<Seq<char>>,
    b: Seq<Seq<char>>,
    like: Seq<Seq<char>>,
    dislike: Seq<Seq<char>>,
    rename: bool,
    oa: Seq<M3uObjectView>,
    ob: Seq<M3uObjectView>,
)
    requires
        read_result(clean, a, like, dislike, rename, oa),
        read_result(clean, b, like, dislike, rename, ob),
    ensures
        read_result(clean, a + b, like, dislike, rename, oa + ob),
        !rename ==> forall|o: Seq<M3uObjectView>|
            read_result(clean, a + b, like, dislike, rename, o) ==> o == oa + ob,
{
    let la = choose|l: Seq<M3uObject>|
        objs(l) == all_channels(a) && keyword_result(clean, l, like, dislike, rename, oa);
    let lb = choose|l: Seq<M3uObject>|
        objs(l) == all_channels(b) && keyword_result(clean, l, like, dislike, rename, ob);
    law_keyword_result_concat(clean, la, lb, like, dislike, rename, oa, ob);
    lemma_all_channels_concat(a, b);
    assert(objs(la + lb) =~= objs(la) + objs(lb));
    assert(objs(la + lb) == all_channels(a + b));
    if !rename {
        lemma_keyword_filter_concat(all_channels(a), all_channels(b), like, dislike);
    }
}

/// `after` is what renaming `before` with `clean` can give (the outcome
/// that `rename_name` states).
pub open spec fn renamed_by<F: Fn(String) -> String>(clean: F, before: M3uObject, after: M3uObject) -> bool {
    exists|c: String| clean.ensures((before.search_name,), c) && after@ == renamed(before@, c@)
}

/// Choosing with renaming is choosing without renaming among the renamed
/// channels: renaming happens first, to every channel.
pub proof fn law_rename_then_choose<F: Fn(String) -> String>(
    clean: F,
    list: Seq<M3uObject>,
    renamed_list: Seq<M3uObject>,
    like: Seq<Seq<char>>,
    dislike: Seq<Seq<char>>,
    out: Seq<M3uObjectView>,
)
    requires
        renamed_list.len() == list.len(),
        forall|i: int| 0 <= i < list.len() ==> renamed_by(clean, list[i], #[trigger] renamed_list[i]),
        keyword_result(clean, renamed_list, like, dislike, false, out),
    ensures
        keyword_result(clean, list, like, dislike, true, out),
{
    let cs = Seq::new(
        list.len(),
        |i: int|
            choose|c: String|
                clean.ensures((list[i].search_name,), c) && renamed_list[i]@ == renamed(list[i]@, c@),
    );
    assert(cleaned_names(clean, list, cs)) by {
        assert forall|i: int| 0 <= i < list.len() implies clean.ensures(
            (list[i].search_name,),
            #[trigger] cs[i],
        ) by {
            assert(renamed_by(clean, list[i], renamed_list[i]));
        }
    }
    assert forall|i: int| 0 <= i < list.len() implies #[trigger] objs(renamed_list)[i] == renamed_all(
        objs(list),
        texts(cs),
    )[i] by {
        assert(renamed_by(clean, list[i], renamed_list[i]));
    }
    assert(objs(renamed_list) =~= renamed_all(objs(list), texts(cs)));
}

// ---------------------------------------------------------------------
// Stability of the name sort
// ---------------------------------------------------------------------

/// The channels of `s` whose name key is `k`, in order.
pub open spec fn with_key(s: Seq<M3uObjectView>, k: (Seq<char>, Option<usize>)) -> Seq<M3uObjectView>
    decreases s.len(),
{
    if s.len() == 0 {
        s
    } else {
        let r = with_key(s.drop_last(), k);
        if name_key(s.last()) == k {
            r.push(s.last())
        } else {
            r
        }
    }
}

proof fn lemma_with_key_concat(a: Seq<M3uObjectView>, b: Seq<M3uObjectView>, k: (Seq<char>, Option<usize>))
    ensures
        with_key(a + b, k) == with_key(a, k) + with_key(b, k),
    decreases b.len(),
{
    if b.len() == 0 {
        assert(a + b =~= a);
        assert(with_key(a, k) + with_key(b, k) =~= with_key(a, k));
    } else {
        lemma_with_key_concat(a, b.drop_last(), k);
        assert((a + b).drop_last() =~= a + b.drop_last());
        assert((a + b).last() == b.last());
        let x = with_key(a, k);
        let y = with_key(b.drop_last(), k);
        assert((x + y).push(b.last()) =~= x + y.push(b.last()));
    }
}

proof fn lemma_with_key_none(t: Seq<M3uObjectView>, k: (Seq<char>, Option<usize>))
    requires
        forall|i: int| 0 <= i < t.len() ==> name_key(#[trigger] t[i]) != k,
    ensures
        with_key(t, k) == Seq::<M3uObjectView>::empty(),
    decreases t.len(),
{
    if t.len() > 0 {
        let d = t.drop_last();
        assert forall|i: int| 0 <= i < d.len() implies name_key(#[trigger] d[i]) != k by {
            assert(d[i] == t[i]);
        }
        lemma_with_key_none(d, k);
        assert(name_key(t[t.len() - 1]) != k);
    }
}

/// Sorting by name keeps the order of channels with equal keys: for every
/// key, the channels with it come in the sorted list in the order they
/// have in the list sorted.
pub proof fn law_name_sort_stable(s: Seq<M3uObjectView>, k: (Seq<char>, Option<usize>))
    ensures
        with_key(name_sorted(s), k) == with_key(s, k),
    decreases s.len(),
{
    if s.len() > 0 {
        let d = s.drop_last();
        let x = s.last();
        let r = name_sorted(d);
        law_name_sort_stable(d, k);
        lemma_insert_pos(r, x);
        let p = insert_pos(r, x);
        let front = r.take(p);
        let back = r.skip(p);
        assert(r =~= front + back);
        assert(r.insert(p, x) =~= front + seq![x] + back);
        lemma_with_key_concat(front, back, k);
        lemma_with_key_concat(front + seq![x], back, k);
        lemma_with_key_concat(front, seq![x], k);
        assert(seq![x].drop_last() =~= Seq::<M3uObjectView>::empty());
        assert(seq![x].last() == x);
        assert(with_key(Seq::<M3uObjectView>::empty(), k) == Seq::<M3uObjectView>::empty());
        assert(Seq::<M3uObjectView>::empty().push(x) =~= seq![x]);
        assert(s == d.push(x));
        if name_key(x) == k {
            assert forall|i: int| 0 <= i < back.len() implies name_key(#[trigger] back[i]) != k by {
                assert(back[i] == r[p + i]);
                assert(key_lt(name_key(x), name_key(r[p + i])));
                lemma_key_lt_irreflexive(name_key(x));
            }
            lemma_with_key_none(back, k);
            assert(with_key(seq![x], k) =~= seq![x]);
            assert(with_key(front, k) + Seq::<M3uObjectView>::empty() =~= with_key(front, k));
            assert(with_key(front, k) + seq![x] + Seq::<M3uObjectView>::empty() =~= with_key(
                front,
                k,
            ).push(x));
        } else {
            assert(with_key(seq![x], k) =~= Seq::<M3uObjectView>::empty());
            assert(with_key(front, k) + Seq::<M3uObjectView>::empty() =~= with_key(front, k));
        }
    }
}

// ---------------------------------------------------------------------
// Doing it twice
// ---------------------------------------------------------------------

proof fn lemma_search_filter_all(x: Seq<M3uObjectView>, terms: Seq<Seq<char>>, full: bool)
    requires
        forall|i: int| 0 <= i < x.len() ==> search_match((#[trigger] x[i]).search_name, terms, full),
    ensures
        search_filter(x, terms, full) == x,
    decreases x.len(),
{
    if x.len() > 0 {
        let d = x.drop_last();
        assert forall|i: int| 0 <= i < d.len() implies search_match((#[trigger] d[i]).search_name, terms, full) by {
            assert(d[i] == x[i]);
        }
        lemma_search_filter_all(d, terms, full);
        assert(search_match(x[x.len() - 1].search_name, terms, full));
        assert(d.push(x.last()) =~= x);
    }
}

proof fn lemma_first_by_url_distinct(x: Seq<M3uObjectView>)
    requires
        forall|i: int, j: int| 0 <= i < j < x.len() ==> (#[trigger] x[i]).url != (#[trigger] x[j]).url,
    ensures
        first_by_url(x) == x,
    decreases x.len(),
{
    if x.len() > 0 {
        let d = x.drop_last();
        assert forall|i: int, j: int| 0 <= i < j < d.len() implies (#[trigger] d[i]).url != (
        #[trigger] d[j]).url by {
            assert(d[i] == x[i] && d[j] == x[j]);
        }
        lemma_first_by_url_distinct(d);
        assert(!has_url(d, x.last().url)) by {
            if has_url(d, x.last().url) {
                let q = choose|q: int| 0 <= q < d.len() && #[trigger] d[q].url == x.last().url;
                assert(x[q] == d[q]);
                assert(x[q].url != x[x.len() - 1].url);
            }
        }
        assert(d.push(x.last()) =~= x);
    }
}

/// A second search with the same terms removes nothing: searching the
/// result of a search gives that result back.
pub proof fn law_search_idempotent(s: Seq<M3uObjectView>, name: Seq<char>, full: bool)
    ensures
        search_result(search_result(s, name, full), name, full) == search_result(s, name, full),
{
    let r = search_result(s, name, full);
    law_search_sound(s, name, full);
    law_search_distinct_urls(s, name, full);
    assert forall|i: int| 0 <= i < r.len() implies search_match(
        (#[trigger] r[i]).search_name,
        split(name, ','),
        full,
    ) by {}
    lemma_search_filter_all(r, split(name, ','), full);
    lemma_first_by_url_distinct(r);
}

proof fn lemma_with_name_nonempty(s: Seq<M3uObjectView>, i: int)
    requires
        0 <= i < s.len(),
    ensures
        with_name(s, s[i].search_name).len() > 0,
    decreases s.len(),
{
    if i < s.len() - 1 {
        assert(s.drop_last()[i] == s[i]);
        lemma_with_name_nonempty(s.drop_last(), i);
    }
}

proof fn lemma_names_contains(s: Seq<M3uObjectView>, n: Seq<char>)
    ensures
        names_in_order(s).contains(n) <==> exists|i: int| 0 <= i < s.len() && (#[trigger] s[i]).search_name == n,
    decreases s.len(),
{
    if s.len() > 0 {
        let d = s.drop_last();
        lemma_names_contains(d, n);
        let r = names_in_order(d);
        if names_in_order(s).contains(n) {
            if r.contains(n) {
                let i = choose|i: int| 0 <= i < d.len() && (#[trigger] d[i]).search_name == n;
                assert(s[i] == d[i]);
            } else {
                let t = r.push(s.last().search_name);
                let a = choose|a: int| 0 <= a < t.len() && t[a] == n;
                if a < r.len() {
                    assert(r[a] == n);
                } else {
                    assert(s[s.len() - 1].search_name == n);
                }
            }
        }
        if exists|i: int| 0 <= i < s.len() && (#[trigger] s[i]).search_name == n {
            let i = choose|i: int| 0 <= i < s.len() && (#[trigger] s[i]).search_name == n;
            if i < d.len() {
                assert(d[i] == s[i]);
                let a = choose|a: int| 0 <= a < r.len() && r[a] == n;
                if !r.contains(s.last().search_name) {
                    assert(r.push(s.last().search_name)[a] == n);
                }
            } else if r.contains(n) {
            } else {
                assert(r.push(s.last().search_name)[r.len() as int] == n);
            }
        }
    }
}

proof fn lemma_names_append_block(a: Seq<M3uObjectView>, b: Seq<M3uObjectView>, m: Seq<char>)
    requires
        b.len() > 0,
        all_named(b, m),
        !names_in_order(a).contains(m),
    ensures
        names_in_order(a + b) == names_in_order(a).push(m),
    decreases b.len(),
{
    let ab = a + b;
    assert(ab.drop_last() =~= a + b.drop_last());
    assert(ab.last() == b[b.len() - 1]);
    if b.len() == 1 {
        assert(b.drop_last() =~= Seq::<M3uObjectView>::empty());
        assert(a + b.drop_last() =~= a);
    } else {
        let d = b.drop_last();
        assert(all_named(d, m)) by {
            assert forall|i: int| 0 <= i < d.len() implies (#[trigger] d[i]).search_name == m by {
                assert(d[i] == b[i]);
            }
        }
        lemma_names_append_block(a, d, m);
        assert(names_in_order(a).push(m)[names_in_order(a).len() as int] == m);
        assert(names_in_order(a + d).contains(m));
    }
}

proof fn lemma_names_of_grouped(s: Seq<M3uObjectView>, names: Seq<Seq<char>>, k: int)
    requires
        k > 0,
        distinct_names(names),
        forall|j: int| 0 <= j < names.len() ==> with_name(s, #[trigger] names[j]).len() > 0,
    ensures
        names_in_order(grouped(s, names, k)) == names,
    decreases names.len(),
{
    if names.len() == 0 {
        assert(names_in_order(Seq::<M3uObjectView>::empty()) =~= names);
    } else {
        let d = names.drop_last();
        let m = names.last();
        assert(distinct_names(d)) by {
            assert forall|a: int, b: int| 0 <= a < b < d.len() implies #[trigger] d[a] != #[trigger] d[b] by {
                assert(d[a] == names[a] && d[b] == names[b]);
            }
        }
        assert forall|j: int| 0 <= j < d.len() implies with_name(s, #[trigger] d[j]).len() > 0 by {
            assert(d[j] == names[j]);
        }
        lemma_names_of_grouped(s, d, k);
        let blk = cap(with_name(s, m), k);
        assert(with_name(s, names[names.len() - 1]).len() > 0);
        lemma_with_name_named(s, m);
        lemma_cap_named(with_name(s, m), m, k);
        assert(!d.contains(m)) by {
            if d.contains(m) {
                let a = choose|a: int| 0 <= a < d.len() && d[a] == m;
                assert(names[a] == names[names.len() - 1]);
            }
        }
        lemma_names_append_block(grouped(s, d, k), blk, m);
        assert(d.push(m) =~= names);
    }
}

proof fn lemma_grouped_same(s: Seq<M3uObjectView>, r: Seq<M3uObjectView>, names: Seq<Seq<char>>, k: int)
    requires
        forall|j: int| 0 <= j < names.len() ==> cap(with_name(r, #[trigger] names[j]), k) == cap(
            with_name(s, names[j]),
            k,
        ),
    ensures
        grouped(r, names, k) == grouped(s, names, k),
    decreases names.len(),
{
    if names.len() > 0 {
        let d = names.drop_last();
        assert forall|j: int| 0 <= j < d.len() implies cap(with_name(r, #[trigger] d[j]), k) == cap(
            with_name(s, d[j]),
            k,
        ) by {
            assert(d[j] == names[j]);
        }
        lemma_grouped_same(s, r, d, k);
        assert(names.last() == names[names.len() - 1]);
    }
}

/// Keeping `k` channels per name a second time changes nothing.
pub proof fn law_same_save_idempotent(s: Seq<M3uObjectView>, k: int)
    ensures
        same_save(same_save(s, k), k) == same_save(s, k),
{
    let r = same_save(s, k);
    let names = names_in_order(s);
    if k <= 0 {
        crate::list::lemma_grouped_none(s, names, k);
        crate::list::lemma_grouped_none(r, names_in_order(r), k);
    } else {
        lemma_names_in_order(s, Seq::empty());
        assert forall|j: int| 0 <= j < names.len() implies with_name(s, #[trigger] names[j]).len() > 0 by {
            assert(names.contains(names[j]));
            lemma_names_contains(s, names[j]);
            let i = choose|i: int| 0 <= i < s.len() && (#[trigger] s[i]).search_name == names[j];
            lemma_with_name_nonempty(s, i);
        }
        lemma_names_of_grouped(s, names, k);
        assert forall|j: int| 0 <= j < names.len() implies cap(with_name(r, #[trigger] names[j]), k)
            == cap(with_name(s, names[j]), k) by {
            law_same_save_per_name(s, k, names[j]);
            let x = with_name(s, names[j]);
            assert(cap(cap(x, k), k) =~= cap(x, k));
        }
        lemma_grouped_same(s, r, names, k);
    }
}

// ---------------------------------------------------------------------
// Cleaning that gives one result per text
// ---------------------------------------------------------------------

/// `clean` gives one result per text: calls on equal texts give equal
/// texts.
pub open spec fn cleans_uniquely<F: Fn(String) -> String>(clean: F) -> bool {
    forall|s1: String, s2: String, c1: String, c2: String|
        s1@ == s2@ && #[trigger] clean.ensures((s1,), c1) && #[trigger] clean.ensures((s2,), c2)
            ==> c1@ == c2@
}

/// With cleaning that gives one result per text, renaming has one result:
/// renaming equal channels gives equal channels.
pub proof fn law_rename_unique<F: Fn(String) -> String>(
    clean: F,
    a: M3uObject,
    b: M3uObject,
    ra: M3uObject,
    rb: M3uObject,
)
    requires
        cleans_uniquely(clean),
        a@ == b@,
        renamed_by(clean, a, ra),
        renamed_by(clean, b, rb),
    ensures
        ra@ == rb@,
{
    let ca = choose|c: String| clean.ensures((a.search_name,), c) && ra@ == renamed(a@, c@);
    let cb = choose|c: String| clean.ensures((b.search_name,), c) && rb@ == renamed(b@, c@);
    assert(a.search_name@ == b.search_name@);
}

/// With cleaning that gives one result per text, choosing by keyword has
/// one result, with renaming as without; lists of the same channels give
/// the same result.
pub proof fn law_keyword_result_unique<F: Fn(String) -> String>(
    clean: F,
    l1: Seq<M3uObject>,
    l2: Seq<M3uObject>,
    like: Seq<Seq<char>>,
    dislike: Seq<Seq<char>>,
    rename: bool,
    o1: Seq<M3uObjectView>,
    o2: Seq<M3uObjectView>,
)
    requires
        cleans_uniquely(clean),
        objs(l1) == objs(l2),
        keyword_result(clean, l1, like, dislike, rename, o1),
        keyword_result(clean, l2, like, dislike, rename, o2),
    ensures
        o1 == o2,
{
    if rename {
        let cs1 = choose|cs: Seq<String>|
            cleaned_names(clean, l1, cs) && o1 == keyword_filter(
                renamed_all(objs(l1), texts(cs)),
                like,
                dislike,
            );
        let cs2 = choose|cs: Seq<String>|
            cleaned_names(clean, l2, cs) && o2 == keyword_filter(
                renamed_all(objs(l2), texts(cs)),
                like,
                dislike,
            );
        assert(l1.len() == l2.len()) by {
            assert(objs(l1).len() == objs(l2).len());
        }
        assert forall|i: int| 0 <= i < l1.len() implies #[trigger] texts(cs1)[i] == texts(cs2)[i] by {
            assert(objs(l1)[i] == l1[i]@);
            assert(objs(l2)[i] == l2[i]@);
            assert(l1[i].search_name@ == l2[i].search_name@);
            assert(clean.ensures((l1[i].search_name,), cs1[i]));
            assert(clean.ensures((l2[i].search_name,), cs2[i]));
        }
        assert(texts(cs1) =~= texts(cs2));
    }
}

/// With cleaning that gives one result per text, reading playlist texts
/// has one result, with renaming as without.
pub proof fn law_read_result_unique<F: Fn(String) -> String>(
    clean: F,
    bodies: Seq<Seq<char>>,
    like: Seq<Seq<char>>,
    dislike: Seq<Seq<char>>,
    rename: bool,
    o1: Seq<M3uObjectView>,
    o2: Seq<M3uObjectView>,
)
    requires
        cleans_uniquely(clean) || !rename,
        read_result(clean, bodies, like, dislike, rename, o1),
        read_result(clean, bodies, like, dislike, rename, o2),
    ensures
        o1 == o2,
{
    let l1 = choose|l: Seq<M3uObject>|
        objs(l) == all_channels(bodies) && keyword_result(clean, l, like, dislike, rename, o1);
    let l2 = choose|l: Seq<M3uObject>|
        objs(l) == all_channels(bodies) && keyword_result(clean, l, like, dislike, rename, o2);
    if rename {
        law_keyword_result_unique(clean, l1, l2, like, dislike, rename, o1, o2);
    }
}

/// With cleaning that gives one result per text, reading texts one after
/// the other, with renaming or without, gives exactly the results of
/// reading each in turn, put together.
pub proof fn law_read_concat_unique<F: Fn(String) -> String>(
    clean: F,
    a: Seq<Seq<char>>,
    b: Seq<Seq<char>>,
    like: Seq<Seq<char>>,
    dislike: Seq<Seq<char>>,
    rename: bool,
    oa: Seq<M3uObjectView>,
    ob: Seq<M3uObjectView>,
    o: Seq<M3uObjectView>,
)
    requires
        cleans_uniquely(clean) || !rename,
        read_result(clean, a, like, dislike, rename, oa),
        read_result(clean, b, like, dislike, rename, ob),
        read_result(clean, a + b, like, dislike, rename, o),
    ensures
        o == oa + ob,
{
    law_read_concat(clean, a, b, like, dislike, rename, oa, ob);
    law_read_result_unique(clean, a + b, like, dislike, rename, o, oa + ob);
}

/// With cleaning that gives one result per text, choosing with renaming
/// and choosing without renaming among the renamed channels agree.
pub proof fn law_rename_then_choose_unique<F: Fn(String) -> String>(
    clean: F,
    list: Seq<M3uObject>,
    renamed_list: Seq<M3uObject>,
    like: Seq<Seq<char>>,
    dislike: Seq<Seq<char>>,
    out: Seq<M3uObjectView>,
    o: Seq<M3uObjectView>,
)
    requires
        cleans_uniquely(clean),
        renamed_list.len() == list.len(),
        forall|i: int| 0 <= i < list.len() ==> renamed_by(clean, list[i], #[trigger] renamed_list[i]),
        keyword_result(clean, renamed_list, like, dislike, false, out),
        keyword_result(clean, list, like, dislike, true, o),
    ensures
        o == out,
{
    law_rename_then_choose(clean, list, renamed_list, like, dislike, out);
    law_keyword_result_unique(clean, list, list, like, dislike, true, o, out);
}


// ---------------------------------------------------------------------
// What each step is for
// ---------------------------------------------------------------------

/// `name` holds one of `keys`.
pub open spec fn holds_one_of(name: Seq<char>, keys: Seq<Seq<char>>) -> bool {
    exists|k: int| 0 <= k < keys.len() && contains(name, #[trigger] keys[k])
}

/// A check records its outcome: every error marks the channel failed, an
/// answer marks it answering with the streams found; the channel's link,
/// names and entry text stay as they were.
pub proof fn law_check_outcome(o: M3uObjectView, r: Result<CheckResponseView, LinkCheckError>)
    ensures
        r is Err ==> checked(o, r).status == CheckDataStatus::Failed,
        r is Ok ==> checked(o, r).status == CheckDataStatus::Success,
        checked(o, r).status == CheckDataStatus::Success <==> r is Ok,
        checked(o, r).url == o.url,
        checked(o, r).name == o.name,
        checked(o, r).search_name == o.search_name,
        checked(o, r).raw == o.raw,
        checked(o, r).index == o.index,
        checked(o, r).extend == o.extend,
        r is Ok ==> checked(o, r).other_status is Some && checked(o, r).other_status->0.video == r->Ok_0.video
            && checked(o, r).other_status->0.audio == r->Ok_0.audio,
{
}

/// When no number of channels per name is asked for (0 or less), the
/// steps after a check drop no channel: the list is left as it is, or
/// only sorted.
pub proof fn law_no_cut_keeps_every_channel(s: Seq<M3uObjectView>, sort: bool, k: int)
    requires
        k <= 0,
    ensures
        after_check(s, false, k) == s,
        after_check(s, true, k) == name_sorted(s),
        after_check(s, sort, k).to_multiset() == s.to_multiset(),
        after_check(s, sort, k).len() == s.len(),
{
    law_name_sort_permutes(s);
    let r = after_check(s, sort, k);
    vstd::seq_lib::to_multiset_len(r);
    vstd::seq_lib::to_multiset_len(s);
}

/// A text is a standard playlist exactly when it starts with `#EXTM3U`,
/// whatever follows the mark.
pub proof fn law_extm3u_is_standard(body: Seq<char>)
    ensures
        source_type(body) == Some(SourceType::Normal) <==> starts_with(body, "#EXTM3U"@),
{
}

/// No channel that choosing by keyword gives holds a disliked keyword
/// (lower-cased) in its search name, and when keywords are liked, each
/// holds one of them.
pub proof fn law_keyword_choice_sound(
    s: Seq<M3uObjectView>,
    like: Seq<Seq<char>>,
    dislike: Seq<Seq<char>>,
)
    ensures
        forall|i: int, k: int|
            0 <= i < keyword_filter(s, like, dislike).len() && 0 <= k < dislike.len() ==> !contains(
                (#[trigger] keyword_filter(s, like, dislike)[i]).search_name,
                #[trigger] lowercase(dislike[k]),
            ),
        forall|i: int|
            0 <= i < keyword_filter(s, like, dislike).len() && like.len() > 0 ==> holds_one_of(
                (#[trigger] keyword_filter(s, like, dislike)[i]).search_name,
                like.map_values(|w: Seq<char>| lowercase(w)),
            ),
{
    law_keyword_filter_sound(s, like, dislike);
    let r = keyword_filter(s, like, dislike);
    assert forall|i: int, k: int| 0 <= i < r.len() && 0 <= k < dislike.len() implies !contains(
        (#[trigger] r[i]).search_name,
        #[trigger] lowercase(dislike[k]),
    ) by {
        assert(keyword_keep(r[i], like, dislike));
    }
    let lw = like.map_values(|w: Seq<char>| lowercase(w));
    assert forall|i: int| 0 <= i < r.len() && like.len() > 0 implies holds_one_of(
        (#[trigger] r[i]).search_name,
        lw,
    ) by {
        assert(keyword_keep(r[i], like, dislike));
        let k = choose|k: int| 0 <= k < like.len() && contains(r[i].search_name, #[trigger] lowercase(like[k]));
        assert(lw[k] == lowercase(like[k]));
    }
}

/// Choosing by keyword misses no channel: one whose search name holds no
/// disliked keyword, and a liked one when any are liked, is given.
pub proof fn law_keyword_choice_complete(
    s: Seq<M3uObjectView>,
    like: Seq<Seq<char>>,
    dislike: Seq<Seq<char>>,
)
    ensures
        forall|i: int|
            0 <= i < s.len() && (forall|k: int|
                0 <= k < dislike.len() ==> !contains(
                    (#[trigger] s[i]).search_name,
                    lowercase(dislike[k]),
                )) && (like.len() == 0 || exists|k: int|
                0 <= k < like.len() && contains(s[i].search_name, lowercase(like[k])))
                ==> keyword_filter(s, like, dislike).contains(s[i]),
    decreases s.len(),
{
    if s.len() > 0 {
        let d = s.drop_last();
        law_keyword_choice_complete(d, like, dislike);
        assert forall|i: int|
            0 <= i < s.len() && (forall|k: int|
                0 <= k < dislike.len() ==> !contains(
                    (#[trigger] s[i]).search_name,
                    lowercase(dislike[k]),
                )) && (like.len() == 0 || exists|k: int|
                0 <= k < like.len() && contains(s[i].search_name, lowercase(like[k])))
                implies keyword_filter(s, like, dislike).contains(s[i]) by {
            let r = keyword_filter(d, like, dislike);
            if i < s.len() - 1 {
                assert(d[i] == s[i]);
                assert(r.contains(d[i]));
                let q = choose|q: int| 0 <= q < r.len() && r[q] == d[i];
                if keyword_keep(s.last(), like, dislike) {
                    assert(r.push(s.last())[q] == s[i]);
                }
            } else {
                assert(keyword_keep(s[i], like, dislike));
                assert(r.push(s.last())[r.len() as int] == s[i]);
            }
        }
    }
}

/// Without full match a search gives exactly the channels whose search
/// name holds one of the comma-separated terms: each one given holds a
/// term, and for each channel that holds one, its link is among those
/// given. With full match each one given is named exactly as a term.
pub proof fn law_search_by_containment(s: Seq<M3uObjectView>, name: Seq<char>)
    ensures
        forall|i: int|
            0 <= i < search_result(s, name, false).len() ==> holds_one_of(
                (#[trigger] search_result(s, name, false)[i]).search_name,
                split(name, ','),
            ),
        forall|i: int, k: int|
            0 <= i < s.len() && 0 <= k < split(name, ',').len() && contains(
                (#[trigger] s[i]).search_name,
                #[trigger] split(name, ',')[k],
            ) ==> has_url(search_result(s, name, false), s[i].url),
        forall|i: int|
            0 <= i < search_result(s, name, true).len() ==> split(name, ',').contains(
                (#[trigger] search_result(s, name, true)[i]).search_name,
            ),
        forall|i: int|
            0 <= i < s.len() && split(name, ',').contains((#[trigger] s[i]).search_name) ==> has_url(
                search_result(s, name, true),
                s[i].url,
            ),
{
    law_search_complete(s, name, true);
    law_search_sound(s, name, false);
    law_search_sound(s, name, true);
    law_search_complete(s, name, false);
    let t = split(name, ',');
    let r = search_result(s, name, false);
    assert forall|i: int| 0 <= i < r.len() implies holds_one_of((#[trigger] r[i]).search_name, t) by {
        assert(search_match(r[i].search_name, t, false));
    }
    assert forall|i: int, k: int|
        0 <= i < s.len() && 0 <= k < t.len() && contains((#[trigger] s[i]).search_name, #[trigger] t[k])
        implies has_url(r, s[i].url) by {
        assert(search_match(s[i].search_name, t, false));
    }
    assert forall|i: int|
        0 <= i < s.len() && t.contains((#[trigger] s[i]).search_name) implies has_url(
        search_result(s, name, true),
        s[i].url,
    ) by {
        let k = choose|k: int| 0 <= k < t.len() && t[k] == s[i].search_name;
        assert(search_match(s[i].search_name, t, true));
    }
    let rf = search_result(s, name, true);
    assert forall|i: int| 0 <= i < rf.len() implies t.contains((#[trigger] rf[i]).search_name) by {
        assert(search_match(rf[i].search_name, t, true));
        let k = choose|k: int| 0 <= k < t.len() && rf[i].search_name == #[trigger] t[k];
    }
}

/// A link check marks its channel answering exactly when the request was
/// answered with a success status and, unless the streams were probed,
/// the answer is an m3u8 playlist; a failed status is always the error
/// "status is not a success".
pub proof fn law_link_check_marks(
    o: M3uObjectView,
    status_ok: bool,
    delay: i64,
    need_video_info: bool,
    info: Option<CheckResponseView>,
    body_is_m3u8: bool,
)
    ensures
        checked(o, link_outcome(status_ok, delay, need_video_info, info, body_is_m3u8)).status
            == CheckDataStatus::Success <==> status_ok && (need_video_info || body_is_m3u8),
        !status_ok ==> link_outcome(status_ok, delay, need_video_info, info, body_is_m3u8) == Err::<
            CheckResponseView,
            LinkCheckError,
        >(LinkCheckError::StatusNotSuccess),
        status_ok && !need_video_info && !body_is_m3u8 ==> link_outcome(
            status_ok,
            delay,
            need_video_info,
            info,
            body_is_m3u8,
        ) == Err::<CheckResponseView, LinkCheckError>(LinkCheckError::NotM3u8),
        status_ok && need_video_info && info is Some ==> (link_outcome(
            status_ok,
            delay,
            need_video_info,
            info,
            body_is_m3u8,
        ) matches Ok(d) && d.video == info->0.video && d.audio == info->0.audio),
{
}

/// Marking every channel answering keeps every channel, in order, and
/// changes nothing but its status.
pub proof fn law_mark_all_keeps_channels(s: Seq<M3uObjectView>)
    ensures
        all_success(s).len() == s.len(),
        forall|i: int|
            0 <= i < s.len() ==> (#[trigger] all_success(s)[i]).status == CheckDataStatus::Success
                && all_success(s)[i].url == s[i].url && all_success(s)[i].name == s[i].name
                && all_success(s)[i].search_name == s[i].search_name && all_success(s)[i].raw
                == s[i].raw && all_success(s)[i].other_status == s[i].other_status,
{
}

} // verus!
