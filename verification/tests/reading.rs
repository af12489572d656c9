use iptv_checker::m3u::{CheckDataStatus, M3uObjectList};
use iptv_checker::parse::{
    any_keyword, body_normal, body_quota, check_source_type, filter_by_keyword, from_body_arr, is_url,
    SourceType,
};
use iptv_checker::sort::extract_prefix_and_number;

fn keep_name(s: String) -> String {
    s
}

#[test]
fn source_type_standard() {
    assert_eq!(check_source_type("#EXTM3U x-tvg-url=\"a\"\n#EXTINF:-1,A\nhttp://a".to_string()), Some(SourceType::Normal));
}

#[test]
fn source_type_quota() {
    assert_eq!(check_source_type("CCTV-1,http://a\n".to_string()), Some(SourceType::Quota));
    assert_eq!(check_source_type("no comma\r\nstill none\nx,".to_string()), Some(SourceType::Quota));
}

#[test]
fn source_type_none() {
    assert_eq!(check_source_type("just a line\nanother".to_string()), None);
    assert_eq!(check_source_type("".to_string()), None);
    assert_eq!(check_source_type(" #EXTM3U".to_string()), None);
}

#[test]
fn quota_lines_are_read() {
    let l = body_quota("CCTV-1,http://a/1\n央视频道,#genre#\nno comma\nEmpty,\r\nHunan TV,http://b/2,extra\n".to_string(), false);
    assert!(l.header.is_none());
    assert_eq!(l.list.len(), 2);
    assert_eq!(l.list[0].name, "CCTV-1");
    assert_eq!(l.list[0].search_name, "cctv-1");
    assert_eq!(l.list[0].url, "http://a/1");
    assert_eq!(l.list[0].raw, "#EXTINF:-1 ,CCTV-1\nhttp://a/1");
    assert_eq!(l.list[0].status, CheckDataStatus::Unchecked);
    assert!(l.list[0].extend.is_none());
    assert_eq!(l.list[1].name, "Hunan TV");
    assert_eq!(l.list[1].search_name, "hunan tv");
    assert_eq!(l.list[1].url, "http://b/2");
}

#[test]
fn standard_playlist_is_read() {
    let body = "#EXTM3U x-tvg-url=\"http://e/1.xml,http://e/2.xml\"\r\n\
#EXTINF:-1 tvg-id=\"c1\" tvg-logo=\"http://l/1.png\" group-title=\"News, World\",CCTV 1\n\
#EXTVLCOPT:http-user-agent=x\n\
\n\
http://s/1.m3u8\n\
#EXTINF:-1,Dropped\n\
#EXTINF:-1 tvg-language=\"zh\" tvg-country=\"CN\" user-agent=\"ua\",Two\n\
http://s/2\n\
http://stray\n";
    let l = body_normal(body.to_string(), false);
    let h = l.header.clone().unwrap();
    assert_eq!(h.x_tv_url, vec!["http://e/1.xml".to_string(), "http://e/2.xml".to_string()]);
    assert_eq!(l.list.len(), 2);
    let a = &l.list[0];
    assert_eq!(a.name, "CCTV 1");
    assert_eq!(a.search_name, "cctv 1");
    assert_eq!(a.url, "http://s/1.m3u8");
    assert_eq!(
        a.raw,
        "#EXTINF:-1 tvg-id=\"c1\" tvg-logo=\"http://l/1.png\" group-title=\"News, World\",CCTV 1\n#EXTVLCOPT:http-user-agent=x\nhttp://s/1.m3u8"
    );
    let e = a.extend.clone().unwrap();
    assert_eq!(e.tv_id, "c1");
    assert_eq!(e.tv_logo, "http://l/1.png");
    assert_eq!(e.group_title, "News, World");
    assert_eq!(e.tv_language, "");
    assert!(e.thumbnail.is_none());
    let b = &l.list[1];
    assert_eq!(b.name, "Two");
    assert_eq!(b.url, "http://s/2");
    let e = b.extend.clone().unwrap();
    assert_eq!(e.tv_language, "zh");
    assert_eq!(e.tv_country, "CN");
    assert_eq!(e.user_agent, "ua");
    assert_eq!(e.tv_id, "");
}

#[test]
fn standard_playlist_without_guide() {
    let l = body_normal("#EXTM3U\n#EXTINF:-1 tvg-id=\"open,CH\nhttp://x\n".to_string(), true);
    assert!(l.header.is_none());
    assert_eq!(l.list.len(), 1);
    assert_eq!(l.list[0].name, "CH");
    assert_eq!(l.list[0].extend.clone().unwrap().tv_id, "");
}

#[test]
fn from_reads_either_format() {
    let a = M3uObjectList::from("#EXTM3U\n#EXTINF:-1,A\nhttp://a\n".to_string());
    assert_eq!(a.list.len(), 1);
    assert_eq!(a.list[0].name, "A");
    let b = M3uObjectList::from("B,http://b".to_string());
    assert_eq!(b.list.len(), 1);
    assert_eq!(b.list[0].url, "http://b");
    let c = M3uObjectList::from("nothing here".to_string());
    assert_eq!(c.list.len(), 0);
    assert!(c.header.is_none());
}

#[test]
fn keywords_choose_channels() {
    let l = body_quota("CCTV-1,http://a\nCCTV-2 HD,http://b\nHunan,http://c\n".to_string(), false);
    let kept = filter_by_keyword(l.list.clone(), vec!["CCTV".to_string()], vec!["hd".to_string()], false, &keep_name);
    assert_eq!(kept.len(), 1);
    assert_eq!(kept[0].name, "CCTV-1");
    let all = filter_by_keyword(l.list.clone(), vec![], vec![], false, &keep_name);
    assert_eq!(all.len(), 3);
    let no_hd = filter_by_keyword(l.list.clone(), vec![], vec!["HD".to_string()], false, &keep_name);
    assert_eq!(no_hd.len(), 2);
}

#[test]
fn keywords_with_renaming() {
    let l = body_quota("CCTV-1,http://a\n".to_string(), false);
    let strip = |s: String| s.replace("-", "");
    let kept = filter_by_keyword(l.list.clone(), vec!["cctv1".to_string()], vec![], true, &strip);
    assert_eq!(kept.len(), 1);
    assert_eq!(kept[0].search_name, "cctv1");
    assert_eq!(kept[0].name, "cctv1");
    assert_eq!(kept[0].raw, "#EXTINF:-1 ,cctv1\nhttp://a");
}

#[test]
fn several_texts_are_read_together() {
    let r = from_body_arr(
        vec![
            "#EXTM3U\n#EXTINF:-1,One\nhttp://1\n".to_string(),
            "nothing".to_string(),
            "Two,http://2\nThree,http://3".to_string(),
        ],
        vec![],
        vec!["three".to_string()],
        false,
        false,
        &keep_name,
    );
    assert!(r.header.is_none());
    assert_eq!(r.list.len(), 2);
    assert_eq!(r.list[0].name, "One");
    assert_eq!(r.list[1].name, "Two");
    assert_eq!(r.counter.total, 0);
}

#[test]
fn prefix_and_number_of_names() {
    assert_eq!(extract_prefix_and_number("cctv12"), ("cctv", Some(12)));
    assert_eq!(extract_prefix_and_number("cctv"), ("cctv", None));
    assert_eq!(extract_prefix_and_number("cctv1 hd"), ("cctv", None));
    assert_eq!(extract_prefix_and_number("7"), ("", Some(7)));
    assert_eq!(extract_prefix_and_number("凤凰007"), ("凤凰", Some(7)));
    assert_eq!(extract_prefix_and_number("a99999999999999999999999"), ("a", None));
    assert_eq!(extract_prefix_and_number(""), ("", None));
}

#[test]
fn urls_are_told_from_files() {
    assert!(is_url("http://a/b.m3u"));
    assert!(is_url("https://a"));
    assert!(!is_url("static/input/a.m3u"));
    assert!(!is_url("HTTP://a"));
}

#[test]
fn lowered_keywords_in_a_name() {
    let name: Vec<char> = "cctv-1 hd".chars().collect();
    let hd: Vec<char> = "hd".chars().collect();
    let sd: Vec<char> = "sd".chars().collect();
    let upper: Vec<char> = "HD".chars().collect();
    assert!(any_keyword(&name, &vec![sd.clone(), hd]));
    assert!(!any_keyword(&name, &vec![sd, upper]));
    assert!(!any_keyword(&name, &vec![]));
    assert!(any_keyword(&name, &vec![vec![]]));
}

#[test]
fn no_cleaning_needed_without_renaming() {
    let l = body_quota("CCTV-1,http://a\n".to_string(), false);
    let never = |_s: String| -> String { unreachable!() };
    let kept = filter_by_keyword(l.list, vec![], vec![], false, &never);
    assert_eq!(kept.len(), 1);
}
