use tracker_scrape::aggregate::Verdict;
use tracker_scrape::identifier::{extract_infohash_from_magnet, InfoHash};
use tracker_scrape::records::{
    collect_infohashes, filter_new_records, parse_size_to_bytes, CsvRecord, TorrentCsvRecord,
};
use tracker_scrape::search::{
    get_tpb_trackers, parse_date, to_int, torrent_from_api, torrent_from_row, Torrent,
    TorrentProxies,
};
use tracker_scrape::text::{
    before_char, i64_to_string, parse_i32, parse_u64, remove_all, replace_char, split_char,
    tokens, u64_to_string,
};

#[test]
fn test_parse_size() {
    assert_eq!(parse_size_to_bytes("1.5 GB"), 1500000000);
    assert_eq!(parse_size_to_bytes("500 MB"), 500000000);
    assert_eq!(parse_size_to_bytes("2.0 KB"), 2000);
}

#[test]
fn test_extract_infohash() {
    let magnet = "magnet:?xt=urn:btih:ABC123&dn=test";
    assert_eq!(extract_infohash_from_magnet(magnet), Some("abc123".to_string()));
}

#[test]
fn parse_size_edges() {
    assert_eq!(parse_size_to_bytes("12 bytes"), 12);
    assert_eq!(parse_size_to_bytes("3 TB"), 3000000000000);
    assert_eq!(parse_size_to_bytes("1.25 KB"), 1250);
    assert_eq!(parse_size_to_bytes("  7  MB  "), 7000000);
    assert_eq!(parse_size_to_bytes("junk"), 0);
    assert_eq!(parse_size_to_bytes("1.5"), 0);
    assert_eq!(parse_size_to_bytes("x GB"), 0);
    assert_eq!(parse_size_to_bytes("5 parsecs"), 5);
    // saturation instead of overflow
    assert_eq!(parse_size_to_bytes("99999999999999999999 TB"), u64::MAX);
}

#[test]
fn extract_infohash_edges() {
    assert_eq!(extract_infohash_from_magnet("magnet:?dn=test"), None);
    assert_eq!(
        extract_infohash_from_magnet("magnet:?xt=urn:btih:FFee00"),
        Some("ffee00".to_string())
    );
}

#[test]
fn infohash_hex_round_trip() {
    let hex = "00112233445566778899aabbccddeeff00112233";
    let h = InfoHash::from_hex(hex).unwrap();
    assert_eq!(h.as_bytes().len(), 20);
    assert_eq!(h.as_bytes()[0], 0x00);
    assert_eq!(h.as_bytes()[2], 0x22);
    assert_eq!(h.to_hex(), hex);
    // uppercase input decodes to the same bytes, rendered lowercase
    let upper = InfoHash::from_hex(&hex.to_uppercase()).unwrap();
    assert_eq!(upper.to_hex(), hex);
    // wrong length or non-hex is rejected before batching
    assert!(InfoHash::from_hex(&hex[1..]).is_none());
    assert!(InfoHash::from_hex("zz112233445566778899aabbccddeeff00112233").is_none());
}

#[test]
fn csv_record_round_trip() {
    let line = "abc;Some Name;100;200;5;3;7;1700000000";
    let rec = CsvRecord::from_line(line).unwrap();
    assert_eq!(rec.infohash, "abc");
    assert_eq!(rec.name, "Some Name");
    assert_eq!(rec.size_bytes, "100");
    assert_eq!(rec.created_unix, "200");
    assert_eq!(rec.seeders, 5);
    assert_eq!(rec.leechers, 3);
    assert_eq!(rec.completed, "7");
    assert_eq!(rec.scraped_date, 1700000000);
    assert_eq!(rec.to_line(), line);
    // unreadable counts read as zero
    let lenient = CsvRecord::from_line("a;b;c;d;x;y;z;w").unwrap();
    assert_eq!(lenient.seeders, 0);
    assert_eq!(lenient.leechers, 0);
    assert_eq!(lenient.scraped_date, 0);
    // too few fields is no record
    assert!(CsvRecord::from_line("a;b;c").is_none());
}

#[test]
fn verdicts_drive_record_updates() {
    let line = "abc;Name;100;200;5;3;7;1700000000";
    // Failed: keep the stored record untouched
    let kept = tracker_scrape::records::updated_record(line, &Verdict::Failed, 42).unwrap();
    assert_eq!(kept.seeders, 5);
    assert_eq!(kept.scraped_date, 1700000000);
    // Dead: drop it
    assert!(tracker_scrape::records::updated_record(line, &Verdict::Dead, 42).is_none());
    // Alive: carry the new maxima and scrape time
    let upd = tracker_scrape::records::updated_record(
        line,
        &Verdict::Alive { seeders: 9, leechers: 4 },
        42,
    )
    .unwrap();
    assert_eq!(upd.seeders, 9);
    assert_eq!(upd.leechers, 4);
    assert_eq!(upd.scraped_date, 42);
    assert_eq!(upd.name, "Name");
}

#[test]
fn torrent_csv_line_escapes_name() {
    let rec = TorrentCsvRecord {
        infohash: "abc".to_string(),
        name: "A;B".to_string(),
        size_bytes: 1500000000,
        created_unix: 200,
        seeders: 5,
        leechers: -1,
        completed: 0,
        scraped_date: 1700000000,
    };
    assert_eq!(rec.to_csv_line(), "abc;A,B;1500000000;200;5;-1;0;1700000000");
}

#[test]
fn record_from_torrent() {
    let t = Torrent {
        name: "X".to_string(),
        seeders: 5,
        leechers: 2,
        size: "1.5 GB".to_string(),
        date: Some(42),
        uploader: "u".to_string(),
        link: "l".to_string(),
    };
    let rec = TorrentCsvRecord::from_torrent(&t, "abc", 77);
    assert_eq!(rec.infohash, "abc");
    assert_eq!(rec.name, "X");
    assert_eq!(rec.size_bytes, 1500000000);
    assert_eq!(rec.created_unix, 42);
    assert_eq!(rec.seeders, 5);
    assert_eq!(rec.leechers, 2);
    assert_eq!(rec.completed, 0);
    assert_eq!(rec.scraped_date, 77);
    // without a listing date, the scrape time stands in
    let undated = Torrent { date: None, ..t };
    let rec2 = TorrentCsvRecord::from_torrent(&undated, "abc", 77);
    assert_eq!(rec2.created_unix, 77);
}

#[test]
fn dedup_on_append() {
    let lines = vec![
        "infohash;name;rest".to_string(),
        "aaa;one;x".to_string(),
        "bbb;two;y".to_string(),
    ];
    let existing = collect_infohashes(&lines);
    assert_eq!(existing, vec!["aaa".to_string(), "bbb".to_string()]);

    let mk = |h: &str| TorrentCsvRecord {
        infohash: h.to_string(),
        name: "n".to_string(),
        size_bytes: 0,
        created_unix: 0,
        seeders: 0,
        leechers: 0,
        completed: 0,
        scraped_date: 0,
    };
    let fresh = filter_new_records(vec![mk("aaa"), mk("ccc"), mk("bbb"), mk("ddd")], &existing);
    let kept: Vec<String> = fresh.iter().map(|r| r.infohash.clone()).collect();
    assert_eq!(kept, vec!["ccc".to_string(), "ddd".to_string()]);
}

#[test]
fn to_int_strips_grouping_commas() {
    assert_eq!(to_int("1,234"), Ok(1234));
    assert_eq!(to_int("42"), Ok(42));
    assert_eq!(to_int("-7"), Ok(-7));
    assert_eq!(to_int("+5"), Ok(5));
    assert!(to_int("").is_err());
    assert!(to_int("12x").is_err());
    assert!(to_int("+-5").is_err());
}

#[test]
fn numerals_accept_a_leading_plus() {
    assert_eq!(parse_u64("+7"), Some(7));
    assert_eq!(parse_u64("+"), None);
    assert_eq!(parse_i32("+12"), Some(12));
    assert_eq!(parse_i32("++12"), None);
    let rec = CsvRecord::from_line("a;b;c;d;+5;+3;e;+9").unwrap();
    assert_eq!(rec.seeders, 5);
    assert_eq!(rec.leechers, 3);
    assert_eq!(rec.scraped_date, 9);
}

#[test]
fn size_tokens_split_on_unicode_whitespace() {
    assert_eq!(parse_size_to_bytes("1.5\u{00A0}GB"), 1500000000);
    assert_eq!(parse_size_to_bytes("2\u{2003}KB"), 2000);
}

#[test]
fn magnet_identifier_lowercase_is_unicode() {
    let magnet = "magnet:?xt=urn:btih:\u{c9}F0&dn=x";
    assert_eq!(
        extract_infohash_from_magnet(magnet),
        Some("\u{e9}f0".to_string())
    );
}

#[test]
fn tracker_params_are_percent_encoded() {
    let params = get_tpb_trackers();
    assert!(params.starts_with("&tr=udp%3A%2F%2Ftracker.coppersurfer.tk%3A6969%2Fannounce"));
    assert_eq!(params.matches("&tr=").count(), 7);
    assert!(!params.contains("://"));
}

#[test]
fn date_parsing_is_chronological() {
    assert_eq!(
        parse_date("2024-01-02 03:04:05", "%Y-%m-%d %H:%M:%S"),
        Some(1704164645)
    );
    assert_eq!(parse_date("not a date", "%Y-%m-%d %H:%M:%S"), None);
}

#[test]
fn torrent_built_from_row_fields() {
    let t = torrent_from_row(
        "Name".to_string(),
        "1,234",
        "56",
        "1.5 GB extra",
        "Jan. 22nd '24",
        "uploader".to_string(),
        "https://mirror.example",
        "/torrent/1",
    );
    assert_eq!(t.seeders, 1234);
    assert_eq!(t.leechers, 56);
    assert_eq!(t.size, "1.5 GB");
    assert_eq!(t.link, "https://mirror.example/torrent/1");
    assert_eq!(t.uploader, "uploader");
    // the listing format carries no time of day, so the datetime parser
    // yields nothing and the record falls back to the scrape time
    assert_eq!(t.date, None);
}

#[test]
fn torrent_built_from_api_fields() {
    let t = torrent_from_api(
        "Name".to_string(),
        "12",
        "3",
        "1.2 GB".to_string(),
        "user".to_string(),
        "991",
    );
    assert_eq!(t.seeders, 12);
    assert_eq!(t.leechers, 3);
    assert_eq!(t.date, None);
    assert_eq!(t.link, "http://apibay.org/t.php?id=991");
}

#[test]
fn default_proxies() {
    let p = TorrentProxies::default();
    assert_eq!(p.x1337, vec!["https://1337xx.to".to_string()]);
    assert_eq!(p.the_pirate_bay, vec!["https://www1.thepiratebay3.to".to_string()]);
    assert!(p.rarbg.is_empty());
}

#[test]
fn text_primitives() {
    assert_eq!(
        split_char("a;;b", ';'),
        vec!["a".to_string(), "".to_string(), "b".to_string()]
    );
    assert_eq!(split_char("", ';'), vec!["".to_string()]);
    assert_eq!(tokens("  1.5  GB "), vec!["1.5".to_string(), "GB".to_string()]);
    assert_eq!(before_char("abc;def", ';'), "abc");
    assert_eq!(before_char("abc", ';'), "abc");
    assert_eq!(remove_all("22nd Jan, 2nd try", "nd"), "22 Jan, 2 try");
    assert_eq!(replace_char("a;b;c", ';', ','), "a,b,c");
    assert_eq!(u64_to_string(0), "0");
    assert_eq!(u64_to_string(18446744073709551615), "18446744073709551615");
    assert_eq!(i64_to_string(-5), "-5");
    assert_eq!(i64_to_string(i64::MIN), "-9223372036854775808");
    assert_eq!(parse_u64("18446744073709551615"), Some(u64::MAX));
    assert_eq!(parse_u64("18446744073709551616"), None);
    assert_eq!(parse_u64(""), None);
    assert_eq!(parse_i32("-2147483648"), Some(i32::MIN));
    assert_eq!(parse_i32("-2147483649"), None);
    assert_eq!(parse_i32("2147483647"), Some(i32::MAX));
}
