use iptv_checker::list::SearchOptions;
use iptv_checker::m3u::{CheckDataStatus, M3uObject, M3uObjectList};
use iptv_checker::parse::{body_normal, check_source_type, filter_by_keyword, from_body_arr, SourceType};
use iptv_checker::sort::extract_prefix_and_number;

fn obj(name: &str, url: &str) -> M3uObject {
    let mut o = M3uObject::new();
    o.set_name(name.to_string());
    o.set_search_name(name.to_string());
    o.set_url(url.to_string());
    o.generate_raw();
    o
}

fn keep_name(s: String) -> String {
    s
}

fn sample() -> Vec<M3uObject> {
    vec![
        obj("cctv10", "http://1"),
        obj("hunan", "http://2"),
        obj("cctv2", "http://3"),
        obj("cctv", "http://4"),
        obj("hunan", "http://5"),
        obj("cctv2", "http://1"),
        obj("anhui", "http://6"),
    ]
}

fn urls(l: &M3uObjectList) -> Vec<String> {
    l.list.iter().map(|o| o.url.clone()).collect()
}

#[test]
fn sorted_list_is_ordered_permuted_and_stable() {
    let mut l = M3uObjectList::new();
    l.set_list(sample());
    l.do_name_sort();
    for w in l.list.windows(2) {
        let a = extract_prefix_and_number(&w[0].search_name);
        let b = extract_prefix_and_number(&w[1].search_name);
        assert!(a.0 < b.0 || (a.0 == b.0 && a.1 <= b.1));
    }
    let mut before: Vec<String> = sample().iter().map(|o| o.url.clone() + &o.name).collect();
    let mut after: Vec<String> = l.list.iter().map(|o| o.url.clone() + &o.name).collect();
    before.sort();
    after.sort();
    assert_eq!(before, after);
    let once = urls(&l);
    l.do_name_sort();
    assert_eq!(urls(&l), once);
}

#[test]
fn same_save_keeps_first_k_of_each_name() {
    for k in 0..4 {
        let mut l = M3uObjectList::new();
        l.set_list(sample());
        l.do_same_save(k);
        for name in ["cctv10", "hunan", "cctv2", "cctv", "anhui"] {
            let got: Vec<String> = l.list.iter().filter(|o| o.search_name == name).map(|o| o.url.clone()).collect();
            let want: Vec<String> = sample()
                .iter()
                .filter(|o| o.search_name == name)
                .take(k as usize)
                .map(|o| o.url.clone())
                .collect();
            assert_eq!(got, want);
        }
    }
}

#[test]
fn search_gives_distinct_matching_complete_urls() {
    let mut l = M3uObjectList::new();
    l.set_list(sample());
    l.search(SearchOptions {
        search_name: "cctv,an".to_string(),
        full_match: false,
        ipv4: false,
        ipv6: false,
        exclude_url: vec![],
        exclude_host: vec![],
        quality: vec![],
    });
    let got = urls(&l);
    let mut dedup = got.clone();
    dedup.sort();
    dedup.dedup();
    assert_eq!(dedup.len(), got.len());
    for o in &l.list {
        assert!(o.search_name.contains("cctv") || o.search_name.contains("an"));
    }
    for o in sample() {
        if o.search_name.contains("cctv") || o.search_name.contains("an") {
            assert!(got.contains(&o.url));
        }
    }
    assert_eq!(got, vec!["http://1", "http://2", "http://3", "http://4", "http://5", "http://6"]);
}

#[test]
fn no_keywords_keep_every_channel() {
    let kept = filter_by_keyword(sample(), vec![], vec![], false, &keep_name);
    let got: Vec<String> = kept.iter().map(|o| o.url.clone()).collect();
    let want: Vec<String> = sample().iter().map(|o| o.url.clone()).collect();
    assert_eq!(got, want);
}

#[test]
fn one_text_reads_alike_both_ways() {
    for text in ["#EXTM3U\n#EXTINF:-1 tvg-id=\"x\",A\nhttp://a\n#EXTINF:-1,B\nhttp://b", "A,http://a\nB,http://b", "none"] {
        let one = M3uObjectList::from(text.to_string());
        let arr = from_body_arr(vec![text.to_string()], vec![], vec![], true, false, &keep_name);
        assert_eq!(urls(&one), urls(&arr));
        let n1: Vec<String> = one.list.iter().map(|o| o.raw.clone()).collect();
        let n2: Vec<String> = arr.list.iter().map(|o| o.raw.clone()).collect();
        assert_eq!(n1, n2);
    }
}

#[test]
fn quota_exactly_when_comma() {
    for text in ["a,b", "abc", "x\ny,", "\r\n,", "", "#EXTM3U,x"] {
        let t = check_source_type(text.to_string());
        let expect_quota = !text.starts_with("#EXTM3U") && text.contains(',');
        assert_eq!(t == Some(SourceType::Quota), expect_quota, "{:?}", text);
    }
}

#[test]
fn written_entry_reads_back() {
    let mut o = M3uObject::new();
    o.set_name("Phoenix TV".to_string());
    o.set_url("http://p/live.m3u8".to_string());
    o.generate_raw();
    let l = body_normal(o.raw.clone(), false);
    assert_eq!(l.list.len(), 1);
    assert_eq!(l.list[0].name, "Phoenix TV");
    assert_eq!(l.list[0].search_name, "phoenix tv");
    assert_eq!(l.list[0].url, "http://p/live.m3u8");
    assert_eq!(l.list[0].raw, o.raw);
    assert_eq!(l.list[0].status, CheckDataStatus::Unchecked);
}

#[test]
fn reading_texts_together_is_reading_them_in_turn() {
    let a = vec!["#EXTM3U\n#EXTINF:-1,One\nhttp://1\n".to_string(), "Two,http://2".to_string()];
    let b = vec!["Three,http://3\nFour HD,http://4".to_string()];
    let like = vec!["o".to_string(), "t".to_string()];
    let dislike = vec!["hd".to_string()];
    let ra = from_body_arr(a.clone(), like.clone(), dislike.clone(), false, false, &keep_name);
    let rb = from_body_arr(b.clone(), like.clone(), dislike.clone(), false, false, &keep_name);
    let mut ab = a.clone();
    ab.extend(b.clone());
    let rab = from_body_arr(ab, like, dislike, false, false, &keep_name);
    let mut want = urls(&ra);
    want.extend(urls(&rb));
    assert_eq!(urls(&rab), want);
    assert_eq!(want, vec!["http://1", "http://2", "http://3"]);
}

#[test]
fn renaming_then_choosing_is_choosing_the_renamed() {
    let clean = |s: String| s.replace(" hd", "");
    let list = vec![obj("CCTV HD", "http://1"), obj("Hunan", "http://2")];
    let with = filter_by_keyword(list.clone(), vec!["cctv".to_string()], vec!["hd".to_string()], true, &clean);
    let mut renamed = list.clone();
    for o in renamed.iter_mut() {
        o.rename_name(&clean);
    }
    let without = filter_by_keyword(renamed, vec!["cctv".to_string()], vec!["hd".to_string()], false, &keep_name);
    let n1: Vec<String> = with.iter().map(|o| o.name.clone() + &o.raw).collect();
    let n2: Vec<String> = without.iter().map(|o| o.name.clone() + &o.raw).collect();
    assert_eq!(n1, n2);
    assert_eq!(n1.len(), 1);
}

#[test]
fn name_sort_keeps_order_of_equal_keys() {
    let mut l = M3uObjectList::new();
    l.set_list(vec![
        obj("cctv2", "http://a"),
        obj("cctv1 hd", "http://b"),
        obj("cctv2", "http://c"),
        obj("cctv", "http://d"),
        obj("cctv2", "http://e"),
    ]);
    l.do_name_sort();
    assert_eq!(urls(&l), vec!["http://b", "http://d", "http://a", "http://c", "http://e"]);
}

fn cctv_options() -> SearchOptions {
    SearchOptions {
        search_name: "cctv,an".to_string(),
        full_match: false,
        ipv4: false,
        ipv6: false,
        exclude_url: vec![],
        exclude_host: vec![],
        quality: vec![],
    }
}

#[test]
fn second_search_removes_nothing() {
    let mut l = M3uObjectList::new();
    l.set_list(sample());
    l.search(cctv_options());
    let once = urls(&l);
    l.search(cctv_options());
    assert_eq!(urls(&l), once);
    assert_eq!(once, vec!["http://1", "http://2", "http://3", "http://4", "http://5", "http://6"]);
}

#[test]
fn keeping_per_name_twice_is_keeping_once() {
    for k in 0..4 {
        let mut l = M3uObjectList::new();
        l.set_list(sample());
        l.do_same_save(k);
        let once: Vec<String> = l.list.iter().map(|o| o.url.clone() + &o.name).collect();
        l.do_same_save(k);
        let twice: Vec<String> = l.list.iter().map(|o| o.url.clone() + &o.name).collect();
        assert_eq!(once, twice);
    }
}

#[test]
fn text_converts_into_a_list() {
    let text = "#EXTM3U\n#EXTINF:-1,One\nhttp://1\n#EXTINF:-1,Two\nhttp://2".to_string();
    let l: M3uObjectList = text.clone().into();
    assert_eq!(urls(&l), vec!["http://1", "http://2"]);
    assert_eq!(urls(&l), urls(&M3uObjectList::from(text)));
}

#[test]
fn reading_with_renaming_together_is_reading_in_turn() {
    let clean = |s: String| s.replace(" hd", "");
    let a = vec!["#EXTM3U\n#EXTINF:-1,One HD\nhttp://1\n".to_string()];
    let b = vec!["Two HD,http://2\nThree,http://3".to_string()];
    let like = vec!["o".to_string()];
    let ra = from_body_arr(a.clone(), like.clone(), vec![], false, true, &clean);
    let rb = from_body_arr(b.clone(), like.clone(), vec![], false, true, &clean);
    let mut ab = a.clone();
    ab.extend(b.clone());
    let rab = from_body_arr(ab, like, vec![], false, true, &clean);
    let names = |l: &M3uObjectList| -> Vec<String> { l.list.iter().map(|o| o.name.clone() + &o.url).collect() };
    let mut want = names(&ra);
    want.extend(names(&rb));
    assert_eq!(names(&rab), want);
    assert_eq!(want, vec!["onehttp://1", "twohttp://2"]);
}
