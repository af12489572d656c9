# iptv_checker

A library for IPTV playlists, verified with Verus: it recognises and reads
standard m3u playlists and `name,url` lists, chooses channels by keyword,
searches, sorts by name, keeps a few channels per name, decides the outcome
of link checks, and produces the lines of the files written after a check.

- `src/text.rs`: text as character sequences (lines, comma pieces, search,
  replacement, decimal numbers) with their specifications.
- `src/m3u.rs`: channels, their attributes and statuses, playlists.
- `src/parse.rs`: format recognition, reading both formats, keywords.
- `src/list.rs`: search, a few channels per name, the output lines.
- `src/sort.rs`: the name order and the stable sort by it.
- `src/check.rs`: probe reports, link-check decisions, check outcomes.
- `src/laws.rs`: properties of the library proved over the specifications.
- `app/`: requests, ffprobe, threads and files around the library.
