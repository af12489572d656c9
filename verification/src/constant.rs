//! Names of the files and folders the program works with, and the initial
//! content of its state file.
use vstd::prelude::*;

verus! {

pub const CORE_JSON: &'static str = "core.json";

pub const STATIC_FOLDER: &'static str = "./static/";

pub const INPUT_FOLDER: &'static str = "./static/input/";

pub const INPUT_SEARCH_FOLDER: &'static str = "./static/input/search/";

pub const INPUT_LIVE_FOLDER: &'static str = "./static/input/live/";

pub const OUTPUT_FOLDER: &'static str = "./static/output/";

pub const OUTPUT_THUMBNAIL_FOLDER: &'static str = "./static/output/thumbnail/";

pub const LOGS_FOLDER: &'static str = "./static/logs/";

/// The initial content of the state file.
pub const core_data: &'static str = r#"{
  "check": {
    "now": null,
    "task": {
    }
  },
  "ob": {
    "list": []
  },
  "search": {
    "source": [
      {
        "urls": [
          "https://github.com/YueChan/Live",
          "https://github.com/YanG-1989/m3u",
          "https://github.com/fanmingming/live",
          "https://github.com/qwerttvv/Beijing-IPTV",
          "https://github.com/joevess/IPTV",
          "https://github.com/cymz6/AutoIPTV-Hotel",
          "https://github.com/skddyj/iptv",
          "https://github.com/suxuang/myIPTV"
        ],
        "include_files": [],
        "parse_type": "github-home-page"
      },
      {
        "urls": [
          "https://live.zbds.top/tv/iptv6.m3u",
          "https://live.zbds.top/tv/iptv4.m3u",
          "https://raw.githubusercontent.com/jackell777/jackell777.github.io/fa8f1249b67cff645628b6e08fa6f802d430afbb/list.txt",
          "https://raw.githubusercontent.com/sake0116/0305/983fcb9a7ea4cea08a4c177495d34d9ce76db757/2185"
        ],
        "include_files": [],
        "parse_type": "raw-source"
      },
      {
        "urls": [
          "https://github.com/iptv-org/iptv/tree/master/streams"
        ],
        "include_files": [
          "cn.m3u",
          "tw.m3u",
          "hk.m3u"
        ],
        "parse_type": "github-sub-page"
      }
    ],
    "extensions": [
      ".txt",
      ".m3u"
    ],
    "search_list": []
  }
}"#;

} // verus!
