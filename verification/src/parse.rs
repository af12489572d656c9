//! Reading playlists: recognising the two formats, reading channels out of
//! them, and choosing channels by keyword.
use crate::m3u::{
    empty_obj, objs, raw_text, renamed, texts, zero_counter, M3uExtend, M3uExtendView, M3uObject,
    M3uObjectList, M3uObjectListView, M3uObjectView,
};
use crate::text::{
    matches_at,
    chars_of, contains, contains_chars, find_chars, find_from, first_index, index_of_char,
    last_index, last_index_of_char, lemma_first_index_bounds, lowercase, slice_chars, string_of,
    to_lower, lines, lines_of, match_at, pieces, split, split_chars, starts_with};
use vstd::prelude::*;

verus! {

/// The two playlist formats.
#[derive(Debug, Clone, Copy, PartialEq, Eq, Structural)]
pub enum SourceType {
    /// A standard m3u file, starting with `#EXTM3U`.
    Normal,
    /// Lines of `name,url`.
    Quota,
}

/// Some line of `body` has at least two comma-separated pieces.
pub open spec fn has_quota_line(body: Seq<char>) -> bool {
    exists|i: int| 0 <= i < lines(body).len() && #[trigger] split(lines(body)[i], ',').len() >= 2
}

/// The format of `body`: standard when it starts with `#EXTM3U`, else
/// `name,url` lines when some line holds a comma, else none.
pub open spec fn source_type(body: Seq<char>) -> Option<SourceType> {
    if starts_with(body, "#EXTM3U"@) {
        Some(SourceType::Normal)
    } else if has_quota_line(body) {
        Some(SourceType::Quota)
    } else {
        None
    }
}

/// The format of a playlist text (see [`source_type`]).
pub fn check_source_type(_body: String) -> (r: Option<SourceType>)
    ensures
        r == source_type(_body@),
{
    let body = chars_of(_body.as_str());
    let mark = chars_of("#EXTM3U");
    if match_at(&body, &mark, 0) {
        return Some(SourceType::Normal);
    }
    let ls = lines_of(&body);
    let n = ls.len();
    let mut quota = false;
    for i in 0..n
        invariant
            n == ls@.len(),
            pieces(ls@) == lines(body@),
            quota <==> exists|j: int| 0 <= j < i && #[trigger] split(lines(body@)[j], ',').len() >= 2,
    {
        if !quota {
            let exp = split_chars(&ls[i], ',');
            assert(ls@[i as int]@ == lines(body@)[i as int]);
            assert(split(lines(body@)[i as int], ',').len() == exp@.len());
            if exp.len() >= 2 {
                quota = true
            }
        } else {
            assert(split(lines(body@)[i as int], ',').len() >= 2 || quota);
        }
    }
    if quota {
        return Some(SourceType::Quota);
    }
    None
}

/// Some keyword of `keywords`, lower-cased, occurs in `name`.
pub open spec fn names_any(name: Seq<char>, keywords: Seq<Seq<char>>) -> bool {
    exists|k: int| 0 <= k < keywords.len() && contains(name, #[trigger] lowercase(keywords[k]))
}

/// A channel is kept when its search name holds one of the wanted
/// keywords (or none are wanted) and none of the unwanted ones.
pub open spec fn keyword_keep(o: M3uObjectView, like: Seq<Seq<char>>, dislike: Seq<Seq<char>>) -> bool {
    (like.len() == 0 || names_any(o.search_name, like)) && !names_any(o.search_name, dislike)
}

/// The channels of `s` that [`keyword_keep`] keeps, in their order.
pub open spec fn keyword_filter(
    s: Seq<M3uObjectView>,
    like: Seq<Seq<char>>,
    dislike: Seq<Seq<char>>,
) -> Seq<M3uObjectView>
    decreases s.len(),
{
    if s.len() == 0 {
        s
    } else {
        let r = keyword_filter(s.drop_last(), like, dislike);
        if keyword_keep(s.last(), like, dislike) {
            r.push(s.last())
        } else {
            r
        }
    }
}

/// The channels of `s`, each renamed to the corresponding text of `cs`.
pub open spec fn renamed_all(s: Seq<M3uObjectView>, cs: Seq<Seq<char>>) -> Seq<M3uObjectView> {
    Seq::new(s.len(), |i: int| renamed(s[i], cs[i]))
}

/// `cs` holds what `clean` gives for the search name of each channel of `list`.
pub open spec fn cleaned_names<F: Fn(String) -> String>(
    clean: F,
    list: Seq<M3uObject>,
    cs: Seq<String>,
) -> bool {
    &&& cs.len() == list.len()
    &&& forall|i: int| 0 <= i < list.len() ==> clean.ensures((list[i].search_name,), #[trigger] cs[i])
}

/// `out` is what choosing by keyword makes of `list`: without renaming,
/// the channels that [`keyword_keep`] keeps; with renaming, the same of the
/// channels renamed to what `clean` gives for their search names.
pub open spec fn keyword_result<F: Fn(String) -> String>(
    clean: F,
    list: Seq<M3uObject>,
    like: Seq<Seq<char>>,
    dislike: Seq<Seq<char>>,
    rename: bool,
    out: Seq<M3uObjectView>,
) -> bool {
    &&& !rename ==> out == keyword_filter(objs(list), like, dislike)
    &&& rename ==> exists|cs: Seq<String>|
        cleaned_names(clean, list, cs) && out == keyword_filter(
            renamed_all(objs(list), texts(cs)),
            like,
            dislike,
        )
}

/// Lower-cased copies of the keywords.
fn lower_all(keywords: &Vec<String>) -> (r: Vec<Vec<char>>)
    ensures
        r@.len() == keywords@.len(),
        forall|k: int| 0 <= k < r@.len() ==> #[trigger] r@[k]@ == lowercase(keywords@[k]@),
{
    let mut r: Vec<Vec<char>> = Vec::new();
    let n = keywords.len();
    for k in 0..n
        invariant
            n == keywords@.len(),
            r@.len() == k,
            forall|j: int| 0 <= j < k ==> #[trigger] r@[j]@ == lowercase(keywords@[j]@),
    {
        let low = to_lower(keywords[k].as_str());
        r.push(chars_of(low.as_str()));
    }
    r
}

/// Some text of `keys` occurs in `name`.
pub open spec fn contains_any(name: Seq<char>, keys: Seq<Seq<char>>) -> bool {
    exists|k: int| 0 <= k < keys.len() && contains(name, #[trigger] keys[k])
}

/// Whether one of the (already lower-cased) keywords `lowered` occurs in
/// `name`.
pub fn any_keyword(name: &Vec<char>, lowered: &Vec<Vec<char>>) -> (b: bool)
    ensures
        b == contains_any(name@, pieces(lowered@)),
{
    let n = lowered.len();
    for k in 0..n
        invariant
            n == lowered@.len(),
            forall|j: int| 0 <= j < k ==> !contains(name@, #[trigger] pieces(lowered@)[j]),
    {
        assert(pieces(lowered@)[k as int] == lowered@[k as int]@);
        if contains_chars(name, &lowered[k]) {
            return true;
        }
    }
    false
}

proof fn lemma_lowered_any(name: Seq<char>, lowered: Seq<Vec<char>>, keywords: Seq<Seq<char>>)
    requires
        lowered.len() == keywords.len(),
        forall|k: int| 0 <= k < lowered.len() ==> #[trigger] lowered[k]@ == lowercase(keywords[k]),
    ensures
        contains_any(name, pieces(lowered)) == names_any(name, keywords),
{
    if contains_any(name, pieces(lowered)) {
        let k = choose|k: int| 0 <= k < pieces(lowered).len() && contains(name, #[trigger] pieces(lowered)[k]);
        assert(pieces(lowered)[k] == lowered[k]@);
    }
    if names_any(name, keywords) {
        let k = choose|k: int| 0 <= k < keywords.len() && contains(name, #[trigger] lowercase(keywords[k]));
        assert(pieces(lowered)[k] == lowered[k]@);
    }
}

/// Renames every channel with `clean` when `rename` is set, then keeps the
/// channels that the keywords choose (see [`keyword_keep`]).
pub fn filter_by_keyword<F: Fn(String) -> String>(
    list: Vec<M3uObject>,
    keyword_like: Vec<String>,
    keyword_dislike: Vec<String>,
    rename: bool,
    clean: &F,
) -> (r: Vec<M3uObject>)
    requires
        rename ==> forall|s: String| clean.requires((s,)),
    ensures
        keyword_result(*clean, list@, texts(keyword_like@), texts(keyword_dislike@), rename, objs(r@)),
{
    let ghost like_v = texts(keyword_like@);
    let ghost dislike_v = texts(keyword_dislike@);
    let ghost mut cs: Seq<String> = Seq::empty();
    let ghost orig = list@;
    let mut items: Vec<M3uObject> = Vec::new();
    for item in it: list.into_iter()
        invariant
            it.seq() == orig,
            items@.len() == it.index(),
            rename ==> cleaned_names(*clean, orig.take(it.index() as int), cs),
            rename ==> objs(items@) == renamed_all(objs(orig.take(it.index() as int)), texts(cs)),
            !rename ==> objs(items@) == objs(orig.take(it.index() as int)),
            rename ==> forall|s: String| clean.requires((s,)),
    {
        let ghost k = it.index() as int;
        assert(item == orig[k]);
        let mut item = item;
        if rename {
            let ghost before = item;
            item.rename_name(clean);
            proof {
                let c = choose|c: String|
                    clean.ensures((before.search_name,), c) && item@ == renamed(before@, c@);
                cs = cs.push(c);
            }
        }
        let ghost old_items = items@;
        let ghost item_v = item@;
        items.push(item);
        proof {
            assert(orig.take(k + 1) == orig.take(k).push(orig[k]));
            assert(objs(items@) =~= objs(old_items).push(item_v));
            assert(objs(orig.take(k + 1)) =~= objs(orig.take(k)).push(orig[k]@));
            if rename {
                let ts = texts(cs);
                assert(ts[k] == cs[k]@);
                assert forall|j: int| 0 <= j < k + 1 implies #[trigger] objs(items@)[j] == renamed(
                    objs(orig.take(k + 1))[j],
                    ts[j],
                ) by {
                    if j < k {
                        assert(objs(old_items)[j] == renamed_all(objs(orig.take(k)), texts(cs.drop_last()))[j]);
                        assert(cs.drop_last()[j] == cs[j]);
                    }
                }
                assert(objs(items@) =~= renamed_all(objs(orig.take(k + 1)), texts(cs)));
            } else {
                assert(objs(items@) =~= objs(orig.take(k + 1)));
            }
        }
    }
    proof {
        assert(orig.take(orig.len() as int) == orig);
    }
    let like_l = lower_all(&keyword_like);
    let dislike_l = lower_all(&keyword_dislike);
    let ghost all = objs(items@);
    let mut save_list: Vec<M3uObject> = Vec::new();
    for i in it: items.into_iter()
        invariant
            objs(it.seq()) == all,
            objs(save_list@) == keyword_filter(all.take(it.index() as int), like_v, dislike_v),
            like_l@.len() == like_v.len(),
            forall|k: int| 0 <= k < like_l@.len() ==> #[trigger] like_l@[k]@ == lowercase(like_v[k]),
            dislike_l@.len() == dislike_v.len(),
            forall|k: int| 0 <= k < dislike_l@.len() ==> #[trigger] dislike_l@[k]@ == lowercase(dislike_v[k]),
    {
        let name = chars_of(i.search_name.as_str());
        let mut save = true;
        if like_l.len() > 0 {
            save = any_keyword(&name, &like_l);
            proof {
                lemma_lowered_any(name@, like_l@, like_v);
            }
        }
        if dislike_l.len() > 0 {
            let hit = any_keyword(&name, &dislike_l);
            proof {
                lemma_lowered_any(name@, dislike_l@, dislike_v);
            }
            if hit {
                save = false;
            }
        }
        proof {
            let k = it.index() as int;
            assert(all[k] == i@);
            assert(all.take(k + 1).drop_last() == all.take(k));
            assert(save == keyword_keep(i@, like_v, dislike_v));
        }
        if save {
            save_list.push(i);
        }
        proof {
            assert(objs(save_list@) =~= keyword_filter(all.take(it.index() + 1), like_v, dislike_v));
        }
    }
    proof {
        assert(all.take(all.len() as int) == all);
    }
    save_list
}

// ---------------------------------------------------------------------
// Lines of `name,url`
// ---------------------------------------------------------------------

/// A `name,url` line gives a channel when it has at least two
/// comma-separated pieces and its second piece is a url: not empty and not
/// starting with `'#'` (lines such as `name,#genre#` mark groups).
pub open spec fn quota_line_ok(l: Seq<char>) -> bool {
    let ps = split(l, ',');
    ps.len() >= 2 && ps[1].len() > 0 && ps[1][0] != '#'
}

/// The channel of a `name,url` line: named `name` (searched lower-cased),
/// at `url`, with the entry text that `generate_raw` writes.
pub open spec fn quota_obj(name: Seq<char>, url: Seq<char>) -> M3uObjectView {
    let o = M3uObjectView { url: url, name: name, search_name: lowercase(name), ..empty_obj() };
    M3uObjectView { raw: raw_text(o), ..o }
}

/// The channels of the `name,url` lines of `ls`, in order.
pub open spec fn quota_entries(ls: Seq<Seq<char>>) -> Seq<M3uObjectView>
    decreases ls.len(),
{
    if ls.len() == 0 {
        Seq::empty()
    } else {
        let r = quota_entries(ls.drop_last());
        let l = ls.last();
        if quota_line_ok(l) {
            r.push(quota_obj(split(l, ',')[0], split(l, ',')[1]))
        } else {
            r
        }
    }
}

/// What a `name,url` playlist reads as: its channels, no header.
pub open spec fn quota_list(body: Seq<char>) -> M3uObjectListView {
    M3uObjectListView { header: None, list: quota_entries(lines(body)), counter: zero_counter() }
}

/// Reads a `name,url` playlist.
fn parse_quota_str(body: &String) -> (r: M3uObjectList)
    ensures
        r@ == quota_list(body@),
{
    let chars = chars_of(body.as_str());
    let ls = lines_of(&chars);
    let ghost all = lines(body@);
    let n = ls.len();
    let mut list: Vec<M3uObject> = Vec::new();
    for i in 0..n
        invariant
            n == ls@.len(),
            pieces(ls@) == all,
            objs(list@) == quota_entries(all.take(i as int)),
    {
        let ps = split_chars(&ls[i], ',');
        proof {
            assert(ls@[i as int]@ == all[i as int]);
            assert(all.take(i + 1).drop_last() == all.take(i as int));
            assert(all.take(i + 1).last() == all[i as int]);
        }
        let ghost before = objs(list@);
        if ps.len() >= 2 && ps[1].len() > 0 && ps[1][0] != '#' {
            proof {
                assert(ps@[1]@ == split(all[i as int], ',')[1]);
                assert(ps@[0]@ == split(all[i as int], ',')[0]);
            }
            let mut o = M3uObject::new();
            o.set_url(string_of(ps[1].as_slice()));
            o.set_name(string_of(ps[0].as_slice()));
            o.set_search_name(string_of(ps[0].as_slice()));
            o.generate_raw();
            list.push(o);
            proof {
                assert(objs(list@) =~= before.push(quota_obj(ps@[0]@, ps@[1]@)));
            }
        } else {
            proof {
                if ps@.len() >= 2 {
                    assert(ps@[1]@ == split(all[i as int], ',')[1]);
                }
            }
        }
    }
    proof {
        assert(all.take(n as int) == all);
    }
    let mut r = M3uObjectList::new();
    r.set_list(list);
    r
}

// ---------------------------------------------------------------------
// Standard m3u playlists
// ---------------------------------------------------------------------

/// The value of the attribute `key` in an `#EXTINF` (or `#EXTM3U`) line:
/// the text between the first `key="` and the next `"`, or empty when the
/// attribute is missing or its quote is not closed.
pub open spec fn attr_value(line: Seq<char>, key: Seq<char>) -> Seq<char> {
    let pat = key + seq!['=', '"'];
    match find_from(line, pat, 0) {
        Some(i) => {
            let rest = line.skip(i + pat.len());
            let j = first_index(rest, '"');
            if 0 <= j < rest.len() {
                rest.take(j)
            } else {
                Seq::empty()
            }
        },
        None => Seq::empty(),
    }
}

/// The channel name of an `#EXTINF` line: what follows its last comma
/// (empty when it has none).
pub open spec fn extinf_name(line: Seq<char>) -> Seq<char> {
    let k = last_index(line, ',');
    if k >= 0 {
        line.skip(k + 1)
    } else {
        Seq::empty()
    }
}

/// The extended attributes of an `#EXTINF` line.
pub open spec fn extinf_extend(line: Seq<char>) -> M3uExtendView {
    M3uExtendView {
        group_title: attr_value(line, "group-title"@),
        tv_logo: attr_value(line, "tvg-logo"@),
        tv_language: attr_value(line, "tvg-language"@),
        tv_country: attr_value(line, "tvg-country"@),
        tv_id: attr_value(line, "tvg-id"@),
        user_agent: attr_value(line, "user-agent"@),
        thumbnail: None,
        video_width: 0,
        video_height: 0,
    }
}

/// The channel of an entry: its `#EXTINF` line `ext`, its whole text `raw`
/// and its `url`.
pub open spec fn normal_obj(ext: Seq<char>, raw: Seq<char>, url: Seq<char>) -> M3uObjectView {
    M3uObjectView {
        url: url,
        name: extinf_name(ext),
        extend: Some(extinf_extend(ext)),
        search_name: lowercase(extinf_name(ext)),
        raw: raw,
        ..empty_obj()
    }
}

/// The channels of the lines `ls` of a standard playlist. An entry starts
/// at an `#EXTINF` line (a later one drops an entry without url); the
/// following lines that start with `'#'` belong to its text, empty lines
/// are passed over, and the first other line is its url and ends it. Lines
/// outside entries are passed over. `st` is the entry under way: its
/// `#EXTINF` line and its text so far.
pub open spec fn normal_entries(ls: Seq<Seq<char>>, st: Option<(Seq<char>, Seq<char>)>) -> Seq<
    M3uObjectView,
>
    decreases ls.len(),
{
    if ls.len() == 0 {
        Seq::empty()
    } else {
        let l = ls[0];
        let rest = ls.drop_first();
        if starts_with(l, "#EXTINF"@) {
            normal_entries(rest, Some((l, l)))
        } else {
            match st {
                None => normal_entries(rest, None),
                Some((e, text)) => {
                    if l.len() == 0 {
                        normal_entries(rest, st)
                    } else if l[0] == '#' {
                        normal_entries(rest, Some((e, text + seq!['\n'] + l)))
                    } else {
                        seq![normal_obj(e, text + seq!['\n'] + l, l)] + normal_entries(rest, None)
                    }
                },
            }
        }
    }
}

/// The header of a standard playlist: the comma-separated pieces of the
/// `x-tvg-url` attribute of its first line, when that line starts with
/// `#EXTM3U` and the attribute is there and not empty.
pub open spec fn normal_header(ls: Seq<Seq<char>>) -> Option<Seq<Seq<char>>> {
    if ls.len() > 0 && starts_with(ls[0], "#EXTM3U"@) && attr_value(ls[0], "x-tvg-url"@).len() > 0 {
        Some(split(attr_value(ls[0], "x-tvg-url"@), ','))
    } else {
        None
    }
}

/// What a standard playlist reads as.
pub open spec fn normal_list(body: Seq<char>) -> M3uObjectListView {
    M3uObjectListView {
        header: normal_header(lines(body)),
        list: normal_entries(lines(body), None),
        counter: zero_counter(),
    }
}

/// The value of the attribute `key` in `line` (see [`attr_value`]).
fn attr_of(line: &Vec<char>, key: &str) -> (r: String)
    ensures
        r@ == attr_value(line@, key@),
{
    let mut pat = chars_of(key);
    pat.push('=');
    pat.push('"');
    assert(pat@ == key@ + seq!['=', '"']);
    let line_len = line.len();
    match find_chars(line, &pat, 0) {
        Some(i) => {
            proof {
                crate::text::lemma_find_from(line@, pat@, 0);
                assert(matches_at(line@, pat@, i as int));
            }
            let start = i + pat.len();
            let j = index_of_char(line, '"', start);
            let ghost rest = line@.skip(start as int);
            proof {
                lemma_first_index_bounds(rest, '"');
            }
            if j < line.len() {
                let v = slice_chars(line, start, j);
                assert(v@ == rest.take(j - start));
                string_of(v.as_slice())
            } else {
                String::new()
            }
        },
        None => String::new(),
    }
}

/// The channel of an entry (see [`normal_obj`]).
fn entry_obj(ext: &Vec<char>, text: &Vec<char>, url: &Vec<char>) -> (r: M3uObject)
    ensures
        r@ == normal_obj(ext@, text@ + seq!['\n'] + url@, url@),
{
    let ext_len = ext.len();
    let name = match last_index_of_char(ext, ',') {
        Some(k) => slice_chars(ext, k + 1, ext_len),
        None => Vec::new(),
    };
    assert(name@ == extinf_name(ext@));
    let name_s = string_of(name.as_slice());
    let mut raw = slice_chars(text, 0, text.len());
    raw.push('\n');
    crate::text::push_all(&mut raw, url);
    assert(text@.subrange(0, text@.len() as int) == text@);
    let extend = M3uExtend {
        group_title: attr_of(ext, "group-title"),
        tv_logo: attr_of(ext, "tvg-logo"),
        tv_language: attr_of(ext, "tvg-language"),
        tv_country: attr_of(ext, "tvg-country"),
        tv_id: attr_of(ext, "tvg-id"),
        user_agent: attr_of(ext, "user-agent"),
        thumbnail: None,
        video_width: 0,
        video_height: 0,
    };
    let mut o = M3uObject::new();
    o.set_url(string_of(url.as_slice()));
    o.set_search_name(name_s.clone());
    o.set_name(name_s);
    o.set_raw(string_of(raw.as_slice()));
    o.set_extend(extend);
    proof {
        let want = normal_obj(ext@, text@ + seq!['\n'] + url@, url@);
        assert(raw@ =~= text@ + seq!['\n'] + url@);
        assert(o@.extend == want.extend);
        assert(o@.name == want.name);
        assert(o@.search_name == want.search_name);
        assert(o@.raw == want.raw);
        assert(o@.url == want.url);
    }
    o
}

/// Reads a standard playlist.
fn parse_normal_str(body: &String) -> (r: M3uObjectList)
    ensures
        r@ == normal_list(body@),
{
    let chars = chars_of(body.as_str());
    let ls = lines_of(&chars);
    let ghost all = lines(body@);
    let n = ls.len();
    let mut list: Vec<M3uObject> = Vec::new();
    let mut pending = false;
    let mut ext: Vec<char> = Vec::new();
    let mut text: Vec<char> = Vec::new();
    let extinf = chars_of("#EXTINF");
    assert(all.skip(0) == all);
    for i in 0..n
        invariant
            n == ls@.len(),
            pieces(ls@) == all,
            extinf@ == "#EXTINF"@,
            normal_entries(all, None) == objs(list@) + normal_entries(
                all.skip(i as int),
                if pending {
                    Some((ext@, text@))
                } else {
                    None
                },
            ),
    {
        let ghost st = if pending {
            Some((ext@, text@))
        } else {
            None::<(Seq<char>, Seq<char>)>
        };
        let ghost before = objs(list@);
        let line = &ls[i];
        proof {
            assert(line@ == all[i as int]);
            assert(all.skip(i as int)[0] == all[i as int]);
            assert(all.skip(i as int).drop_first() == all.skip(i + 1));
        }
        if match_at(line, &extinf, 0) {
            pending = true;
            ext = slice_chars(line, 0, line.len());
            text = slice_chars(line, 0, line.len());
            assert(line@.subrange(0, line@.len() as int) == line@);
        } else if pending {
            if line.len() == 0 {
            } else if line[0] == '#' {
                let ghost old_text = text@;
                text.push('\n');
                crate::text::push_all(&mut text, line);
                assert(text@ =~= old_text + seq!['\n'] + line@);
            } else {
                let o = entry_obj(&ext, &text, line);
                list.push(o);
                pending = false;
                proof {
                    assert(objs(list@) == before.push(o@));
                    assert(before + normal_entries(all.skip(i as int), st) == objs(list@)
                        + normal_entries(all.skip(i + 1), None));
                }
            }
        }
    }
    let mut r = M3uObjectList::new();
    let first_is_header = n > 0 && match_at(&ls[0], &chars_of("#EXTM3U"), 0);
    if first_is_header {
        assert(ls@[0]@ == all[0]);
        let url = attr_of(&ls[0], "x-tvg-url");
        if !url.as_str().is_empty() {
            let pieces_v = split_chars(&chars_of(url.as_str()), ',');
            let mut urls: Vec<String> = Vec::new();
            let m = pieces_v.len();
            for k in 0..m
                invariant
                    m == pieces_v@.len(),
                    texts(urls@) == pieces(pieces_v@).take(k as int),
            {
                let ghost old_urls = urls@;
                let u = string_of(pieces_v[k].as_slice());
                urls.push(u);
                assert(texts(urls@) =~= texts(old_urls).push(u@));
                assert(pieces(pieces_v@)[k as int] == pieces_v@[k as int]@);
                assert(texts(urls@) =~= pieces(pieces_v@).take(k + 1));
            }
            assert(pieces(pieces_v@).take(m as int) == pieces(pieces_v@));
            r.set_header(crate::m3u::M3uExt { x_tv_url: urls });
        }
    }
    proof {
        assert(all.skip(n as int).len() == 0);
        assert(objs(list@) + Seq::<M3uObjectView>::empty() == objs(list@));
    }
    r.set_list(list);
    r
}

// ---------------------------------------------------------------------
// Reading playlists of either format
// ---------------------------------------------------------------------

/// What a playlist text reads as, in the format that [`source_type`]
/// recognises; an empty list when it recognises none.
pub open spec fn read_list(body: Seq<char>) -> M3uObjectListView {
    match source_type(body) {
        Some(SourceType::Normal) => normal_list(body),
        Some(SourceType::Quota) => quota_list(body),
        None => M3uObjectListView { header: None, list: Seq::empty(), counter: zero_counter() },
    }
}

/// The channels of the playlist texts `bodies`, one text after the other.
pub open spec fn all_channels(bodies: Seq<Seq<char>>) -> Seq<M3uObjectView>
    decreases bodies.len(),
{
    if bodies.len() == 0 {
        Seq::empty()
    } else {
        all_channels(bodies.drop_last()) + read_list(bodies.last()).list
    }
}

/// Reads a standard m3u playlist. (`not_show_input_type` is unused.)
pub fn body_normal(_body: String, not_show_input_type: bool) -> (r: M3uObjectList)
    ensures
        r@ == normal_list(_body@),
{
    parse_normal_str(&_body)
}

/// Reads a playlist of `name,url` lines. (`not_show_input_type` is unused.)
pub fn body_quota(_body: String, not_show_input_type: bool) -> (r: M3uObjectList)
    ensures
        r@ == quota_list(_body@),
{
    parse_quota_str(&_body)
}

impl From<String> for M3uObjectList {
    /// Reads a playlist text of either format (see [`read_list`]).
    fn from(_str: String) -> (r: M3uObjectList)
        ensures
            r@ == read_list(_str@),
    {
        let source_type = check_source_type(_str.clone());
        match source_type {
            Some(SourceType::Normal) => body_normal(_str, false),
            Some(SourceType::Quota) => body_quota(_str, false),
            None => M3uObjectList::new(),
        }
    }
}

/// What `from` gives is stated by its own `ensures` over the view; no spec
/// value of the list stands for it, so `obeys_from_spec` is false.
impl vstd::std_specs::convert::FromSpecImpl<String> for M3uObjectList {
    open spec fn obeys_from_spec() -> bool {
        false
    }

    open spec fn from_spec(v: String) -> M3uObjectList {
        vstd::pervasive::arbitrary()
    }
}

/// `out` is what reading the playlist texts `bodies` one after the other
/// and choosing among their channels by keyword gives (see
/// [`keyword_result`]).
pub open spec fn read_result<F: Fn(String) -> String>(
    clean: F,
    bodies: Seq<Seq<char>>,
    like: Seq<Seq<char>>,
    dislike: Seq<Seq<char>>,
    rename: bool,
    out: Seq<M3uObjectView>,
) -> bool {
    exists|l: Seq<M3uObject>|
        objs(l) == all_channels(bodies) && keyword_result(clean, l, like, dislike, rename, out)
}

/// Reads every playlist text of `str_arr`, puts their channels together
/// and chooses among them by keyword (see [`keyword_result`]). The list
/// has no header and a zero counter. (`now_show_input_top` is unused.)
pub fn from_body_arr<F: Fn(String) -> String>(
    str_arr: Vec<String>,
    keyword_like: Vec<String>,
    keyword_dislike: Vec<String>,
    now_show_input_top: bool,
    rename: bool,
    clean: &F,
) -> (r: M3uObjectList)
    requires
        rename ==> forall|s: String| clean.requires((s,)),
    ensures
        r@.header is None,
        r@.counter == zero_counter(),
        read_result(*clean, texts(str_arr@), texts(keyword_like@), texts(keyword_dislike@), rename, r@.list),
{
    let mut obj = M3uObjectList::new();
    let mut list: Vec<M3uObject> = Vec::new();
    let ghost orig = str_arr@;
    for _str in it: str_arr.into_iter()
        invariant
            it.seq() == orig,
            objs(list@) == all_channels(texts(orig.take(it.index() as int))),
    {
        let ghost k = it.index() as int;
        assert(_str == orig[k]);
        let ghost body = _str@;
        let data = M3uObjectList::from(_str);
        let ghost old_list = list@;
        let mut items = data.get_list();
        list.append(&mut items);
        proof {
            assert(objs(list@) =~= objs(old_list) + read_list(body).list);
            let ts = texts(orig.take(k + 1));
            assert(ts.drop_last() =~= texts(orig.take(k)));
            assert(ts.last() == body);
        }
    }
    proof {
        assert(orig.take(orig.len() as int) == orig);
    }
    let save_keyword = filter_by_keyword(list, keyword_like, keyword_dislike, rename, clean);
    obj.set_list(save_keyword);
    obj
}

/// `s` names a web resource: it starts with `http://` or `https://`.
pub open spec fn is_url_text(s: Seq<char>) -> bool {
    starts_with(s, "http://"@) || starts_with(s, "https://"@)
}

/// Whether a playlist source names a web resource (else it names a file).
pub fn is_url(s: &str) -> (r: bool)
    ensures
        r == is_url_text(s@),
{
    let v = chars_of(s);
    match_at(&v, &chars_of("http://"), 0) || match_at(&v, &chars_of("https://"), 0)
}

} // verus!
