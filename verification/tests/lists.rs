use iptv_checker::list::{apply_thumbnail, text_file_name, CheckOptions, SearchOptions};
use iptv_checker::m3u::{
    CheckDataStatus, M3uExt, M3uExtend, M3uObject, M3uObjectList, M3uObjectListCounter,
};

fn obj(name: &str, url: &str, status: CheckDataStatus) -> M3uObject {
    let mut o = M3uObject::new();
    o.set_name(name.to_string());
    o.set_search_name(name.to_string());
    o.set_url(url.to_string());
    o.generate_raw();
    o.set_status(status);
    o
}

fn list_of(items: Vec<M3uObject>) -> M3uObjectList {
    let mut l = M3uObjectList::new();
    l.set_list(items);
    l
}

fn names(l: &M3uObjectList) -> Vec<String> {
    l.list.iter().map(|o| o.name.clone()).collect()
}

fn search_opts(name: &str, full: bool) -> SearchOptions {
    SearchOptions {
        search_name: name.to_string(),
        full_match: full,
        ipv4: true,
        ipv6: true,
        exclude_url: vec![],
        exclude_host: vec![],
        quality: vec![],
    }
}

#[test]
fn search_by_terms_without_repeated_urls() {
    let mut l = list_of(vec![
        obj("CCTV1", "http://a", CheckDataStatus::Unchecked),
        obj("Hunan", "http://b", CheckDataStatus::Unchecked),
        obj("CCTV2", "http://a", CheckDataStatus::Unchecked),
        obj("Zhejiang", "http://c", CheckDataStatus::Unchecked),
    ]);
    l.search(search_opts("cctv,zhe", false));
    assert_eq!(names(&l), vec!["CCTV1", "Zhejiang"]);
}

#[test]
fn search_full_match() {
    let mut l = list_of(vec![
        obj("CCTV1", "http://a", CheckDataStatus::Unchecked),
        obj("CCTV10", "http://b", CheckDataStatus::Unchecked),
    ]);
    l.search(search_opts("cctv1", true));
    assert_eq!(names(&l), vec!["CCTV1"]);
    let mut l2 = list_of(vec![obj("CCTV1", "http://a", CheckDataStatus::Unchecked)]);
    l2.search(search_opts("", false));
    assert_eq!(names(&l2), vec!["CCTV1"]);
}

#[test]
fn same_save_keeps_first_per_name() {
    let mut l = list_of(vec![
        obj("A", "http://1", CheckDataStatus::Success),
        obj("B", "http://2", CheckDataStatus::Success),
        obj("A", "http://3", CheckDataStatus::Success),
        obj("A", "http://4", CheckDataStatus::Success),
        obj("B", "http://5", CheckDataStatus::Success),
    ]);
    l.do_same_save(2);
    let urls: Vec<String> = l.list.iter().map(|o| o.url.clone()).collect();
    assert_eq!(urls, vec!["http://1", "http://3", "http://2", "http://5"]);
    l.do_same_save(0);
    assert!(l.list.is_empty());
}

#[test]
fn name_sort_by_prefix_then_number() {
    let mut l = list_of(vec![
        obj("cctv10", "http://1", CheckDataStatus::Unchecked),
        obj("cctv2", "http://2", CheckDataStatus::Unchecked),
        obj("cctv1 hd", "http://3", CheckDataStatus::Unchecked),
        obj("abc", "http://4", CheckDataStatus::Unchecked),
        obj("cctv", "http://5", CheckDataStatus::Unchecked),
        obj("cctv2", "http://6", CheckDataStatus::Unchecked),
    ]);
    l.do_name_sort();
    let urls: Vec<String> = l.list.iter().map(|o| o.url.clone()).collect();
    assert_eq!(urls, vec!["http://4", "http://3", "http://5", "http://2", "http://6", "http://1"]);
}

#[test]
fn output_lines_count_successes() {
    let mut a = obj("A", "http://1", CheckDataStatus::Success);
    a.set_raw("#EXTINF:-1,A\r\nhttp://1\n".to_string());
    let mut l = list_of(vec![
        a,
        obj("B", "http://2", CheckDataStatus::Failed),
        obj("C", "http://3", CheckDataStatus::Success),
    ]);
    let mut c = M3uObjectListCounter::new();
    c.set_total(3);
    l.set_counter(c);
    let lines = l.output_lines();
    assert_eq!(lines, vec!["#EXTINF:-1,A", "http://1", "#EXTINF:-1 ,C", "http://3"]);
    assert_eq!(l.counter.success_count, 2);
    assert_eq!(l.print_result(), "有效源: 2, 无效源: 1");
}

#[test]
fn summary_with_negative_failures() {
    let mut l = M3uObjectList::new();
    let mut c = M3uObjectListCounter::new();
    c.incr_succ();
    c.incr_succ();
    l.set_counter(c);
    assert_eq!(l.print_result(), "有效源: 2, 无效源: -2");
}

#[test]
fn playlist_file_lines() {
    let mut l = list_of(vec![
        obj("A", "http://1", CheckDataStatus::Success),
        obj("B", "http://2", CheckDataStatus::Failed),
    ]);
    assert_eq!(l.header_line(), "#EXTM3U");
    assert_eq!(l.m3u_file_lines(true), vec!["#EXTM3U", "#EXTINF:-1 ,A\nhttp://1"]);
    assert_eq!(l.m3u_file_lines(false).len(), 3);
    l.set_header(M3uExt { x_tv_url: vec!["http://e/1".to_string(), "http://e/2".to_string()] });
    assert_eq!(l.header_line(), "#EXTM3U x-tvg-url=\"http://e/1,http://e/2\"");
    assert_eq!(
        l.m3u_lines_from(vec!["x".to_string()]),
        vec!["#EXTM3U x-tvg-url=\"http://e/1,http://e/2\"", "x"]
    );
    assert!(l.m3u_lines_from(vec![]).is_empty());
    assert_eq!(l.text_file_lines(), vec!["A,http://1"]);
    let empty = M3uObjectList::new();
    assert!(empty.m3u_file_lines(false).is_empty());
    l.set_header(M3uExt { x_tv_url: vec![] });
    assert_eq!(l.header_line(), "#EXTM3U");
}

#[test]
fn text_list_name() {
    assert_eq!(text_file_name("./out.m3u"), "./out.txt");
    assert_eq!(text_file_name("a.m3u.m3u"), "a.txt.txt");
    assert_eq!(text_file_name("plain"), "plain");
}

#[test]
fn finishing_a_check() {
    let mut l = list_of(vec![
        obj("b2", "http://1", CheckDataStatus::Unchecked),
        obj("b1", "http://2", CheckDataStatus::Unchecked),
        obj("b1", "http://3", CheckDataStatus::Unchecked),
        obj("a", "http://4", CheckDataStatus::Unchecked),
    ]);
    let counter = l.begin_check();
    assert_eq!(counter.total, 4);
    assert_eq!(l.counter.total, 4);
    let opt = CheckOptions {
        request_time: 1000,
        concurrent: 1,
        sort: true,
        no_check: true,
        ffmpeg_check: false,
        same_save_num: 1,
        not_http_skip: false,
        search_clarity: vec![],
    };
    l.finish_check(&opt);
    let urls: Vec<String> = l.list.iter().map(|o| o.url.clone()).collect();
    assert_eq!(urls, vec!["http://4", "http://2", "http://1"]);
    assert!(l.list.iter().all(|o| o.status == CheckDataStatus::Success));
}

#[test]
fn thumbnails() {
    let o = obj("A", "http://1", CheckDataStatus::Unchecked);
    assert!(apply_thumbnail(o.clone(), false, "x.jpeg".to_string()).is_none());
    let t = apply_thumbnail(o, true, "x.jpeg".to_string()).unwrap();
    assert_eq!(t.status, CheckDataStatus::Success);
    assert_eq!(t.extend.unwrap().thumbnail, Some("x.jpeg".to_string()));
    let mut o2 = obj("B", "http://2", CheckDataStatus::Failed);
    let mut e = M3uExtend::new();
    e.set_tv_id("id".to_string());
    o2.set_extend(e);
    let t2 = apply_thumbnail(o2, true, "y".to_string()).unwrap();
    let e2 = t2.extend.unwrap();
    assert_eq!(e2.tv_id, "id");
    assert_eq!(e2.thumbnail, Some("y".to_string()));
}

#[test]
fn channel_entry_and_renaming() {
    let mut o = obj("CCTV-1 HD", "http://1", CheckDataStatus::Unchecked);
    assert_eq!(o.search_name, "cctv-1 hd");
    let mut e = M3uExtend::new();
    e.set_tv_id("c1".to_string());
    e.set_tv_logo("logo".to_string());
    e.set_group_title("news".to_string());
    o.set_extend(e);
    o.generate_raw();
    assert_eq!(
        o.raw,
        "#EXTINF:-1  tvg-id=\"c1\" tvg-logo=\"c1\" group-title=\"c1\",CCTV-1 HD\nhttp://1"
    );
    let clean = |s: String| s.replace(" hd", "");
    o.rename_name(&clean);
    assert_eq!(o.name, "cctv-1");
    assert_eq!(o.search_name, "cctv-1");
    assert_eq!(
        o.raw,
        "#EXTINF:-1  tvg-id=\"c1\" tvg-logo=\"c1\" group-title=\"c1\",cctv-1\nhttp://1"
    );
    assert_eq!(o.get_url(), "http://1");
    assert_eq!(o.get_extend().unwrap().tv_logo, "logo");
}

#[test]
fn renaming_an_unnamed_channel() {
    let mut o = M3uObject::new();
    o.set_raw("ab".to_string());
    let to_x = |_s: String| "X".to_string();
    o.rename_name(&to_x);
    assert_eq!(o.raw, "XaXbX");
    assert_eq!(o.name, "X");
}

#[test]
fn counters() {
    let mut c = M3uObjectListCounter::new();
    c.now_index_incr();
    c.now_index_incr();
    c.incr_succ();
    c.set_total(9);
    assert_eq!((c.check_index, c.total, c.success_count), (2, 9, 1));
    let mut o = M3uObject::new();
    o.set_index(5);
    assert_eq!(o.get_obj().index, 5);
}

#[test]
fn output_lines_keep_a_final_carriage_return() {
    let mut a = obj("A", "http://1", CheckDataStatus::Success);
    a.set_raw("x\r\ny\r\na\r".to_string());
    let mut l = list_of(vec![a]);
    assert_eq!(l.output_lines(), vec!["x", "y", "a\r"]);
}
