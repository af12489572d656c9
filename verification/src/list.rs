//! Operations on whole playlists: search, keeping a few channels per name,
//! and what is written out after a check.
use crate::m3u::{
    objs, texts, CheckDataStatus, M3uExtend, M3uObject, M3uObjectList, M3uObjectListCounter,
    M3uObjectListView, M3uObjectView, QualityType,
};
use crate::text::{
    chars_eq, chars_of, contains, contains_chars, lines, lines_of, pieces, push_all, replace_all,
    replace_chars, split, split_chars, string_of,
};
use vstd::prelude::*;

verus! {

/// What to search a playlist for.
#[derive(Debug, Clone)]
pub struct SearchOptions {
    /// Comma-separated search terms.
    pub search_name: String,
    /// Whether a term must equal the search name (else occur in it).
    pub full_match: bool,
    pub ipv4: bool,
    pub ipv6: bool,
    pub exclude_url: Vec<String>,
    pub exclude_host: Vec<String>,
    pub quality: Vec<QualityType>,
}

/// How to check a playlist.
#[derive(Debug, Clone)]
pub struct CheckOptions {
    /// Time allowed for one request, in milliseconds.
    pub request_time: i32,
    /// How many channels are checked at once.
    pub concurrent: i32,
    /// Sort by name afterwards.
    pub sort: bool,
    /// Mark every channel reachable without checking.
    pub no_check: bool,
    pub ffmpeg_check: bool,
    /// Keep at most this many channels per search name (when above 0).
    pub same_save_num: i32,
    pub not_http_skip: bool,
    pub search_clarity: Vec<QualityType>,
}

// ---------------------------------------------------------------------
// Search
// ---------------------------------------------------------------------

/// `name` answers one of the search terms: equals it when `full`, else
/// contains it.
pub open spec fn search_match(name: Seq<char>, terms: Seq<Seq<char>>, full: bool) -> bool {
    exists|k: int|
        0 <= k < terms.len() && (if full {
            name == #[trigger] terms[k]
        } else {
            contains(name, terms[k])
        })
}

/// The channels of `s` whose search name answers a term, in order.
pub open spec fn search_filter(s: Seq<M3uObjectView>, terms: Seq<Seq<char>>, full: bool) -> Seq<
    M3uObjectView,
>
    decreases s.len(),
{
    if s.len() == 0 {
        s
    } else {
        let r = search_filter(s.drop_last(), terms, full);
        if search_match(s.last().search_name, terms, full) {
            r.push(s.last())
        } else {
            r
        }
    }
}

/// Some channel of `s` has the url `u`.
pub open spec fn has_url(s: Seq<M3uObjectView>, u: Seq<char>) -> bool {
    exists|j: int| 0 <= j < s.len() && #[trigger] s[j].url == u
}

/// The channels of `s` whose url no earlier channel has: the first channel
/// of each url, in order.
pub open spec fn first_by_url(s: Seq<M3uObjectView>) -> Seq<M3uObjectView>
    decreases s.len(),
{
    if s.len() == 0 {
        s
    } else {
        let r = first_by_url(s.drop_last());
        if has_url(r, s.last().url) {
            r
        } else {
            r.push(s.last())
        }
    }
}

/// What a search keeps of the channels `s`.
pub open spec fn search_result(s: Seq<M3uObjectView>, opts_name: Seq<char>, full: bool) -> Seq<
    M3uObjectView,
> {
    first_by_url(search_filter(s, split(opts_name, ','), full))
}

/// Whether `name` answers one of the search terms.
fn matches_terms(name: &Vec<char>, terms: &Vec<Vec<char>>, full: bool) -> (b: bool)
    ensures
        b == search_match(name@, pieces(terms@), full),
{
    let n = terms.len();
    for k in 0..n
        invariant
            n == terms@.len(),
            forall|j: int|
                0 <= j < k ==> !(if full {
                    name@ == #[trigger] pieces(terms@)[j]
                } else {
                    contains(name@, pieces(terms@)[j])
                }),
    {
        let hit = if full {
            chars_eq(name, &terms[k])
        } else {
            contains_chars(name, &terms[k])
        };
        assert(pieces(terms@)[k as int] == terms@[k as int]@);
        if hit {
            return true;
        }
    }
    false
}

impl M3uObjectList {
    /// Keeps the channels whose search name answers one of the
    /// comma-separated terms of `search.search_name` (equal to it with
    /// `full_match`, else containing it), and of those only the first with
    /// each url (see [`search_result`]).
    pub fn search(&mut self, search: SearchOptions)
        ensures
            final(self)@ == (M3uObjectListView {
                list: search_result(old(self)@.list, search.search_name@, search.full_match),
                ..old(self)@
            }),
    {
        let terms = split_chars(&chars_of(search.search_name.as_str()), ',');
        let ghost tv = split(search.search_name@, ',');
        let mut items: Vec<M3uObject> = Vec::new();
        std::mem::swap(&mut items, &mut self.list);
        let ghost all = objs(items@);
        let mut found: Vec<M3uObject> = Vec::new();
        for v in it: items.into_iter()
            invariant
                objs(it.seq()) == all,
                pieces(terms@) == tv,
                objs(found@) == search_filter(all.take(it.index() as int), tv, search.full_match),
        {
            let ghost k = it.index() as int;
            let name = chars_of(v.search_name.as_str());
            let is_save = matches_terms(&name, &terms, search.full_match);
            proof {
                assert(all[k] == v@);
                assert(all.take(k + 1).drop_last() == all.take(k));
            }
            let ghost before = objs(found@);
            if is_save {
                found.push(v);
                assert(objs(found@) =~= before.push(all[k]));
            }
        }
        proof {
            assert(all.take(all.len() as int) == all);
        }
        let ghost fv = objs(found@);
        let mut seen: Vec<Vec<char>> = Vec::new();
        let mut unique_list: Vec<M3uObject> = Vec::new();
        for v in it: found.into_iter()
            invariant
                objs(it.seq()) == fv,
                objs(unique_list@) == first_by_url(fv.take(it.index() as int)),
                seen@.len() == unique_list@.len(),
                forall|j: int| 0 <= j < seen@.len() ==> #[trigger] seen@[j]@ == unique_list@[j]@.url,
        {
            let ghost k = it.index() as int;
            let url = chars_of(v.url.as_str());
            let mut dup = false;
            let m = seen.len();
            for j in 0..m
                invariant
                    m == seen@.len(),
                    seen@.len() == unique_list@.len(),
                    forall|j: int| 0 <= j < seen@.len() ==> #[trigger] seen@[j]@ == unique_list@[j]@.url,
                    dup <==> exists|q: int| 0 <= q < j && #[trigger] seen@[q]@ == url@,
            {
                if chars_eq(&seen[j], &url) {
                    dup = true;
                }
            }
            proof {
                assert(fv[k] == v@);
                assert(fv.take(k + 1).drop_last() == fv.take(k));
                let r = objs(unique_list@);
                if dup {
                    let q = choose|q: int| 0 <= q < m && #[trigger] seen@[q]@ == url@;
                    assert(r[q].url == v@.url);
                } else {
                    assert forall|q: int| 0 <= q < r.len() implies #[trigger] r[q].url != v@.url by {
                        assert(seen@[q]@ == r[q].url);
                    }
                }
            }
            let ghost before = objs(unique_list@);
            if !dup {
                seen.push(url);
                unique_list.push(v);
                assert(objs(unique_list@) =~= before.push(fv[k]));
            }
        }
        proof {
            assert(fv.take(fv.len() as int) == fv);
        }
        self.list = unique_list;
    }
}

// ---------------------------------------------------------------------
// A few channels per name
// ---------------------------------------------------------------------

/// The distinct search names of `s`, in the order of their first channel.
pub open spec fn names_in_order(s: Seq<M3uObjectView>) -> Seq<Seq<char>>
    decreases s.len(),
{
    if s.len() == 0 {
        Seq::empty()
    } else {
        let r = names_in_order(s.drop_last());
        if r.contains(s.last().search_name) {
            r
        } else {
            r.push(s.last().search_name)
        }
    }
}

/// The channels of `s` with the search name `n`, in order.
pub open spec fn with_name(s: Seq<M3uObjectView>, n: Seq<char>) -> Seq<M3uObjectView>
    decreases s.len(),
{
    if s.len() == 0 {
        s
    } else {
        let r = with_name(s.drop_last(), n);
        if s.last().search_name == n {
            r.push(s.last())
        } else {
            r
        }
    }
}

/// The first `k` of `x` (none when `k` is not positive).
pub open spec fn cap(x: Seq<M3uObjectView>, k: int) -> Seq<M3uObjectView> {
    if k <= 0 {
        Seq::empty()
    } else if x.len() <= k {
        x
    } else {
        x.take(k)
    }
}

/// For each name of `names` in turn, the first `k` channels of `s` with it.
pub open spec fn grouped(s: Seq<M3uObjectView>, names: Seq<Seq<char>>, k: int) -> Seq<M3uObjectView>
    decreases names.len(),
{
    if names.len() == 0 {
        Seq::empty()
    } else {
        grouped(s, names.drop_last(), k) + cap(with_name(s, names.last()), k)
    }
}

/// What keeping `k` channels per search name makes of `s`: the names in the
/// order of their first channel, and for each the first `k` channels with
/// it, in their order.
pub open spec fn same_save(s: Seq<M3uObjectView>, k: int) -> Seq<M3uObjectView> {
    grouped(s, names_in_order(s), k)
}

/// With no channel to keep per name, nothing is kept.
pub proof fn lemma_grouped_none(s: Seq<M3uObjectView>, names: Seq<Seq<char>>, k: int)
    requires
        k <= 0,
    ensures
        grouped(s, names, k) == Seq::<M3uObjectView>::empty(),
    decreases names.len(),
{
    if names.len() > 0 {
        lemma_grouped_none(s, names.drop_last(), k);
    }
}

impl M3uObjectList {
    /// Keeps at most `same_save_num` channels per search name (see
    /// [`same_save`]). The groups come in the order of their first channel.
    pub fn do_same_save(&mut self, same_save_num: i32)
        ensures
            final(self)@ == (M3uObjectListView {
                list: same_save(old(self)@.list, same_save_num as int),
                ..old(self)@
            }),
    {
        let ghost s = objs(self.list@);
        let k = same_save_num;
        if k <= 0 {
            proof {
                lemma_grouped_none(s, names_in_order(s), k as int);
            }
            self.list = Vec::new();
            assert(objs(self.list@) =~= Seq::<M3uObjectView>::empty());
            return;
        }
        let len = self.list.len();
        let mut names: Vec<Vec<char>> = Vec::new();
        let mut g: Vec<usize> = Vec::new();
        for i in 0..len
            invariant
                len == self.list@.len(),
                s == objs(self.list@),
                pieces(names@) == names_in_order(s.take(i as int)),
                g@.len() == i,
                forall|a: int, b: int| 0 <= a < b < names@.len() ==> names@[a]@ != names@[b]@,
                forall|q: int|
                    0 <= q < i ==> #[trigger] g@[q] < names@.len() && names@[g@[q] as int]@
                        == s[q].search_name,
        {
            let name = chars_of(self.list[i].search_name.as_str());
            let m = names.len();
            let mut found = m;
            for j in 0..m
                invariant
                    m == names@.len(),
                    found <= m,
                    found < m ==> names@[found as int]@ == name@,
                    found == m ==> forall|q: int| 0 <= q < j ==> names@[q]@ != name@,
            {
                if found == m && chars_eq(&names[j], &name) {
                    found = j;
                }
            }
            proof {
                let p = pieces(names@);
                assert(s.take(i + 1).drop_last() == s.take(i as int));
                assert(s.take(i + 1).last() == s[i as int]);
                assert(s[i as int].search_name == name@);
                if found < m {
                    assert(p[found as int] == name@);
                    assert(p.contains(name@));
                } else {
                    assert forall|q: int| 0 <= q < p.len() implies p[q] != name@ by {
                        assert(p[q] == names@[q]@);
                    }
                    assert(!p.contains(name@));
                }
            }
            if found == m {
                let ghost before = pieces(names@);
                names.push(name);
                assert(pieces(names@) =~= before.push(s[i as int].search_name));
            }
            g.push(found);
        }
        assert(s.take(len as int) == s);
        let ghost nv = pieces(names@);
        let ng = names.len();
        let mut out: Vec<M3uObject> = Vec::new();
        for j in 0..ng
            invariant
                len == self.list@.len(),
                s == objs(self.list@),
                ng == names@.len(),
                nv == pieces(names@),
                nv == names_in_order(s),
                g@.len() == len,
                k > 0,
                forall|a: int, b: int| 0 <= a < b < names@.len() ==> names@[a]@ != names@[b]@,
                forall|q: int|
                    0 <= q < len ==> #[trigger] g@[q] < names@.len() && names@[g@[q] as int]@
                        == s[q].search_name,
                objs(out@) == grouped(s, nv.take(j as int), k as int),
        {
            let ghost base = objs(out@);
            let ghost nm = nv[j as int];
            let mut cnt: i32 = 0;
            assert(s.take(0) =~= Seq::<M3uObjectView>::empty());
            for i in 0..len
                invariant
                    len == self.list@.len(),
                    s == objs(self.list@),
                    ng == names@.len(),
                    nv == pieces(names@),
                    j < ng,
                    nm == nv[j as int],
                    g@.len() == len,
                    k > 0,
                    forall|a: int, b: int| 0 <= a < b < names@.len() ==> names@[a]@ != names@[b]@,
                    forall|q: int|
                        0 <= q < len ==> #[trigger] g@[q] < names@.len() && names@[g@[q] as int]@
                            == s[q].search_name,
                    0 <= cnt <= k,
                    cnt == cap(with_name(s.take(i as int), nm), k as int).len(),
                    objs(out@) == base + cap(with_name(s.take(i as int), nm), k as int),
            {
                let ghost x = with_name(s.take(i as int), nm);
                proof {
                    assert(s.take(i + 1).drop_last() == s.take(i as int));
                    assert(s.take(i + 1).last() == s[i as int]);
                    assert(nv[j as int] == names@[j as int]@);
                    assert(g@[i as int] == j <==> s[i as int].search_name == nm) by {
                        if s[i as int].search_name == nm && g@[i as int] != j {
                            let a = g@[i as int] as int;
                            assert(names@[a]@ == names@[j as int]@);
                            if a < j {
                            } else {
                            }
                        }
                    }
                }
                if g[i] == j && cnt < k {
                    let ghost before = objs(out@);
                    let o = self.list[i].duplicate();
                    out.push(o);
                    cnt += 1;
                    proof {
                        assert(objs(out@) =~= before.push(s[i as int]));
                        assert(x.push(s[i as int]).take(x.len() as int) == x);
                        if x.len() + 1 <= k {
                        } else {
                        }
                        assert(cap(x.push(s[i as int]), k as int) =~= cap(x, k as int).push(s[i as int]));
                    }
                } else {
                    proof {
                        if g@[i as int] == j {
                            assert(x.len() >= k);
                            assert(cap(x.push(s[i as int]), k as int) =~= cap(x, k as int));
                        }
                    }
                }
            }
            proof {
                assert(s.take(len as int) == s);
                assert(nv.take(j + 1).drop_last() == nv.take(j as int));
                assert(nv.take(j + 1).last() == nm);
            }
        }
        proof {
            assert(nv.take(ng as int) == nv);
        }
        self.list = out;
    }
}

// ---------------------------------------------------------------------
// What is written out
// ---------------------------------------------------------------------

/// How many channels of `s` answered.
pub open spec fn success_count(s: Seq<M3uObjectView>) -> nat
    decreases s.len(),
{
    if s.len() == 0 {
        0
    } else {
        success_count(s.drop_last()) + if s.last().status == CheckDataStatus::Success {
            1nat
        } else {
            0nat
        }
    }
}

/// The lines of the entry texts of the channels of `s` that answered.
pub open spec fn success_lines(s: Seq<M3uObjectView>) -> Seq<Seq<char>>
    decreases s.len(),
{
    if s.len() == 0 {
        Seq::empty()
    } else {
        success_lines(s.drop_last()) + if s.last().status == CheckDataStatus::Success {
            lines(s.last().raw)
        } else {
            Seq::empty()
        }
    }
}

/// The entry texts of the channels of `s` (only of those that answered,
/// when `only_succ`).
pub open spec fn entry_texts(s: Seq<M3uObjectView>, only_succ: bool) -> Seq<Seq<char>>
    decreases s.len(),
{
    if s.len() == 0 {
        Seq::empty()
    } else {
        let r = entry_texts(s.drop_last(), only_succ);
        if !only_succ || s.last().status == CheckDataStatus::Success {
            r.push(s.last().raw)
        } else {
            r
        }
    }
}

/// `name,url` for each channel of `s` that answered.
pub open spec fn text_lines(s: Seq<M3uObjectView>) -> Seq<Seq<char>>
    decreases s.len(),
{
    if s.len() == 0 {
        Seq::empty()
    } else {
        let r = text_lines(s.drop_last());
        if s.last().status == CheckDataStatus::Success {
            r.push(s.last().name + ","@ + s.last().url)
        } else {
            r
        }
    }
}

/// The pieces `ps` joined by `sep`.
pub open spec fn join(ps: Seq<Seq<char>>, sep: Seq<char>) -> Seq<char>
    decreases ps.len(),
{
    if ps.len() == 0 {
        Seq::empty()
    } else if ps.len() == 1 {
        ps[0]
    } else {
        join(ps.drop_last(), sep) + sep + ps.last()
    }
}

/// The first line of a written playlist: `#EXTM3U`, with the programme
/// guide urls of the header, comma-joined, when there are any.
pub open spec fn header_text(h: Option<Seq<Seq<char>>>) -> Seq<char> {
    match h {
        Some(urls) => if urls.len() > 0 {
            "#EXTM3U x-tvg-url=\""@ + join(urls, ","@) + "\""@
        } else {
            "#EXTM3U"@
        },
        None => "#EXTM3U"@,
    }
}

/// The lines of a written playlist: the header line, then `body`; none
/// when `body` is empty.
pub open spec fn playlist_lines(h: Option<Seq<Seq<char>>>, body: Seq<Seq<char>>) -> Seq<Seq<char>> {
    if body.len() == 0 {
        Seq::empty()
    } else {
        seq![header_text(h)] + body
    }
}

/// Every channel of `s` marked as answering.
pub open spec fn all_success(s: Seq<M3uObjectView>) -> Seq<M3uObjectView> {
    s.map_values(|o: M3uObjectView| M3uObjectView { status: CheckDataStatus::Success, ..o })
}

/// What the steps after a check make of the channels `s`: sorted when
/// asked, then cut to `same_save_num` channels per name when that is
/// above 0.
pub open spec fn after_check(s: Seq<M3uObjectView>, sort: bool, same_save_num: int) -> Seq<M3uObjectView> {
    let s1 = if sort {
        crate::sort::name_sorted(s)
    } else {
        s
    };
    if same_save_num > 0 {
        same_save(s1, same_save_num)
    } else {
        s1
    }
}

/// The file name for the text list that goes with the playlist file
/// `output_file`: `.m3u` replaced by `.txt` throughout.
pub open spec fn text_file_name_of(output_file: Seq<char>) -> Seq<char> {
    replace_all(output_file, ".m3u"@, ".txt"@)
}

/// The name of the text list that goes with the playlist `output_file`.
pub fn text_file_name(output_file: &str) -> (r: String)
    ensures
        r@ == text_file_name_of(output_file@),
{
    let out = replace_chars(&chars_of(output_file), &chars_of(".m3u"), &chars_of(".txt"));
    string_of(out.as_slice())
}

/// Strings of the texts of `ps`.
fn strings_of(ps: &Vec<Vec<char>>) -> (r: Vec<String>)
    ensures
        texts(r@) == pieces(ps@),
{
    let mut r: Vec<String> = Vec::new();
    let n = ps.len();
    for k in 0..n
        invariant
            n == ps@.len(),
            texts(r@) == pieces(ps@).take(k as int),
    {
        let ghost before = r@;
        let s = string_of(ps[k].as_slice());
        r.push(s);
        assert(texts(r@) =~= texts(before).push(s@));
        assert(pieces(ps@)[k as int] == ps@[k as int]@);
        assert(texts(r@) =~= pieces(ps@).take(k + 1));
    }
    assert(pieces(ps@).take(n as int) == pieces(ps@));
    r
}

impl M3uObjectList {
    /// The lines written out after a check: the lines of the entry text of
    /// every channel that answered, each of them counted as a success.
    pub fn output_lines(&mut self) -> (r: Vec<String>)
        requires
            old(self).counter.success_count + success_count(old(self)@.list) <= i32::MAX,
        ensures
            texts(r@) == success_lines(old(self)@.list),
            final(self)@ == (M3uObjectListView {
                counter: M3uObjectListCounter {
                    success_count: (old(self).counter.success_count + success_count(
                        old(self)@.list,
                    )) as i32,
                    ..old(self).counter
                },
                ..old(self)@
            }),
    {
        let ghost s = objs(self.list@);
        let mut lines_out: Vec<String> = Vec::new();
        let mut counter = self.counter;
        let n = self.list.len();
        for i in 0..n
            invariant
                n == self.list@.len(),
                s == objs(self.list@),
                self.counter.success_count + success_count(s) <= i32::MAX,
                counter == (M3uObjectListCounter {
                    success_count: (self.counter.success_count + success_count(s.take(i as int))) as i32,
                    ..self.counter
                }),
                texts(lines_out@) == success_lines(s.take(i as int)),
        {
            proof {
                assert(s.take(i + 1).drop_last() == s.take(i as int));
                assert(s.take(i + 1).last() == s[i as int]);
                lemma_success_count_prefix(s, i + 1);
            }
            let x = &self.list[i];
            if x.status == CheckDataStatus::Success {
                counter.incr_succ();
                let exp = lines_of(&chars_of(x.raw.as_str()));
                let mut more = strings_of(&exp);
                let ghost before = lines_out@;
                lines_out.append(&mut more);
                assert(texts(lines_out@) =~= texts(before) + lines(s[i as int].raw));
            }
        }
        proof {
            assert(s.take(n as int) == s);
        }
        self.set_counter(counter);
        lines_out
    }

    /// The header line of a written playlist (see [`header_text`]).
    pub fn header_line(&self) -> (r: String)
        ensures
            r@ == header_text(self@.header),
    {
        match &self.header {
            None => String::from_str("#EXTM3U"),
            Some(data) => {
                let n = data.x_tv_url.len();
                if n > 0 {
                    let ghost urls = texts(data.x_tv_url@);
                    let mut joined = chars_of(data.x_tv_url[0].as_str());
                    assert(urls.take(1) =~= seq![urls[0]]);
                    for k in 1..n
                        invariant
                            n == data.x_tv_url@.len(),
                            urls == texts(data.x_tv_url@),
                            joined@ == join(urls.take(k as int), ","@),
                    {
                        let ghost before = joined@;
                        push_all(&mut joined, &chars_of(","));
                        push_all(&mut joined, &chars_of(data.x_tv_url[k].as_str()));
                        assert(urls.take(k + 1).drop_last() == urls.take(k as int));
                        assert(joined@ =~= join(urls.take(k + 1), ","@));
                    }
                    assert(urls.take(n as int) == urls);
                    let mut out = chars_of("#EXTM3U x-tvg-url=\"");
                    push_all(&mut out, &joined);
                    push_all(&mut out, &chars_of("\""));
                    assert(out@ =~= header_text(self@.header));
                    string_of(out.as_slice())
                } else {
                    String::from_str("#EXTM3U")
                }
            },
        }
    }

    /// The lines of the playlist file: the header line and the entry text
    /// of each channel (of each that answered, with `only_succ`); none when
    /// the list is empty.
    pub fn m3u_file_lines(&self, only_succ: bool) -> (r: Vec<String>)
        ensures
            texts(r@) == if self@.list.len() == 0 {
                Seq::empty()
            } else {
                seq![header_text(self@.header)] + entry_texts(self@.list, only_succ)
            },
    {
        let ghost s = objs(self.list@);
        let mut r: Vec<String> = Vec::new();
        if self.list.len() == 0 {
            assert(texts(r@) =~= Seq::<Seq<char>>::empty());
            return r;
        }
        let h = self.header_line();
        r.push(h);
        let n = self.list.len();
        assert(texts(r@) =~= seq![header_text(self@.header)] + entry_texts(s.take(0), only_succ));
        for i in 0..n
            invariant
                n == self.list@.len(),
                s == objs(self.list@),
                texts(r@) == seq![header_text(self@.header)] + entry_texts(s.take(i as int), only_succ),
        {
            proof {
                assert(s.take(i + 1).drop_last() == s.take(i as int));
                assert(s.take(i + 1).last() == s[i as int]);
            }
            let x = &self.list[i];
            if !only_succ || x.status == CheckDataStatus::Success {
                let ghost before = texts(r@);
                r.push(x.raw.clone());
                assert(texts(r@) =~= before.push(s[i as int].raw));
            }
        }
        assert(s.take(n as int) == s);
        r
    }

    /// The lines of the playlist file written from the given entry lines:
    /// the header line and the lines; none when there are no lines.
    pub fn m3u_lines_from(&self, lines: Vec<String>) -> (r: Vec<String>)
        ensures
            texts(r@) == playlist_lines(self@.header, texts(lines@)),
    {
        let mut r: Vec<String> = Vec::new();
        if lines.len() == 0 {
            assert(texts(r@) =~= Seq::<Seq<char>>::empty());
            return r;
        }
        r.push(self.header_line());
        let ghost first = texts(r@);
        let mut lines = lines;
        let ghost lv = texts(lines@);
        r.append(&mut lines);
        assert(texts(r@) =~= first + lv);
        r
    }

    /// The lines of the text list: `name,url` for each channel that
    /// answered.
    pub fn text_file_lines(&self) -> (r: Vec<String>)
        ensures
            texts(r@) == text_lines(self@.list),
    {
        let ghost s = objs(self.list@);
        let mut r: Vec<String> = Vec::new();
        let n = self.list.len();
        for i in 0..n
            invariant
                n == self.list@.len(),
                s == objs(self.list@),
                texts(r@) == text_lines(s.take(i as int)),
        {
            proof {
                assert(s.take(i + 1).drop_last() == s.take(i as int));
                assert(s.take(i + 1).last() == s[i as int]);
            }
            let line = &self.list[i];
            if line.status == CheckDataStatus::Success {
                let mut txt = chars_of(line.name.as_str());
                push_all(&mut txt, &chars_of(","));
                push_all(&mut txt, &chars_of(line.url.as_str()));
                let ghost before = texts(r@);
                let t = string_of(txt.as_slice());
                r.push(t);
                assert(texts(r@) =~= before.push(s[i as int].name + ","@ + s[i as int].url));
            }
        }
        assert(s.take(n as int) == s);
        r
    }

    /// Marks every channel as answering.
    pub fn mark_all_success(&mut self)
        ensures
            final(self)@ == (M3uObjectListView { list: all_success(old(self)@.list), ..old(self)@ }),
    {
        let mut items: Vec<M3uObject> = Vec::new();
        std::mem::swap(&mut items, &mut self.list);
        let ghost all = objs(items@);
        let mut out: Vec<M3uObject> = Vec::new();
        for v in it: items.into_iter()
            invariant
                objs(it.seq()) == all,
                objs(out@) == all_success(all.take(it.index() as int)),
        {
            let ghost k = it.index() as int;
            assert(all[k] == v@);
            let mut v = v;
            v.set_status(CheckDataStatus::Success);
            let ghost before = objs(out@);
            let ghost nv = v@;
            out.push(v);
            proof {
                assert(objs(out@) =~= before.push(nv));
                assert(all_success(all.take(k + 1)) =~= all_success(all.take(k)).push(nv));
                assert(objs(out@) =~= all_success(all.take(k + 1)));
            }
        }
        proof {
            assert(all.take(all.len() as int) == all);
        }
        self.list = out;
    }

    /// Starts a check: the counter is reset, with the number of channels
    /// (as `i32`) as its total, and returned.
    pub fn begin_check(&mut self) -> (r: M3uObjectListCounter)
        ensures
            r == (M3uObjectListCounter {
                check_index: 0,
                total: old(self)@.list.len() as i32,
                success_count: 0,
            }),
            final(self)@ == (M3uObjectListView { counter: r, ..old(self)@ }),
    {
        let total = self.list.len();
        let mut counter = M3uObjectListCounter::new();
        counter.set_total(total as i32);
        self.set_counter(counter);
        counter
    }

    /// The steps that follow a check: without a check every channel is
    /// marked as answering; then the list is sorted by name when asked, and
    /// cut to `same_save_num` channels per name when that is above 0.
    pub fn finish_check(&mut self, opt: &CheckOptions)
        ensures
            final(self)@ == (M3uObjectListView {
                list: after_check(
                    if opt.no_check {
                        all_success(old(self)@.list)
                    } else {
                        old(self)@.list
                    },
                    opt.sort,
                    opt.same_save_num as int,
                ),
                ..old(self)@
            }),
    {
        if opt.no_check {
            self.mark_all_success();
        }
        if opt.sort {
            self.do_name_sort();
        }
        if opt.same_save_num > 0 {
            self.do_same_save(opt.same_save_num);
        }
    }
}

proof fn lemma_success_count_prefix(s: Seq<M3uObjectView>, i: int)
    requires
        0 <= i <= s.len(),
    ensures
        success_count(s.take(i)) <= success_count(s),
    decreases s.len() - i,
{
    if i < s.len() {
        lemma_success_count_prefix(s, i + 1);
        assert(s.take(i + 1).drop_last() == s.take(i));
    } else {
        assert(s.take(i) == s);
    }
}

/// What a thumbnail attempt makes of a channel: when the picture was taken,
/// the channel with `img_url` as the thumbnail of its extension (a new
/// extension when it had none) and marked as answering; else nothing.
pub fn apply_thumbnail(v: M3uObject, succ: bool, img_url: String) -> (r: Option<M3uObject>)
    ensures
        !succ ==> r is None,
        succ ==> (r matches Some(o) && o@ == (M3uObjectView {
            extend: Some(
                crate::m3u::M3uExtendView {
                    thumbnail: Some(img_url@),
                    ..match v@.extend {
                        Some(e) => e,
                        None => crate::m3u::new_extend_view(),
                    }
                },
            ),
            status: CheckDataStatus::Success,
            ..v@
        })),
{
    if succ {
        let mut v = v;
        let mut extend = match v.get_extend() {
            None => M3uExtend::new(),
            Some(data) => data,
        };
        extend.set_thumbnail(img_url);
        v.set_status(CheckDataStatus::Success);
        v.set_extend(extend);
        Some(v)
    } else {
        None
    }
}

} // verus!
