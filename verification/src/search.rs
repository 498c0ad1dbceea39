//! Discovery-side data: torrent listings assembled from text fields that
//! the page-fetching layer extracts, plus the tracker-parameter string for
//! the search API.

use vstd::prelude::*;
use crate::text::{
    spec_parse_i32, parse_i32, spec_before, before_char, spec_remove_all, remove_all,
    string_from_chars,
};

verus! {

/// One listed torrent.
pub struct Torrent {
    pub name: String,
    pub seeders: i32,
    pub leechers: i32,
    pub size: String,
    pub date: Option<i64>,
    pub uploader: String,
    pub link: String,
}

/// Detail-page data for one torrent.
pub struct TorrentData {
    pub magnet: String,
    pub files: Vec<String>,
}

/// Mirror sites per source.
pub struct TorrentProxies {
    pub x1337: Vec<String>,
    pub the_pirate_bay: Vec<String>,
    pub rarbg: Vec<String>,
}

impl Default for TorrentProxies {
    /// The built-in mirror list: one mirror per active source.
    fn default() -> (r: Self)
        ensures
            r.x1337@.len() == 1 && r.x1337@[0]@ == "https://1337xx.to"@,
            r.the_pirate_bay@.len() == 1 && r.the_pirate_bay@[0]@
                == "https://www1.thepiratebay3.to"@,
            r.rarbg@.len() == 0,
    {
        TorrentProxies {
            x1337: vec!["https://1337xx.to".to_owned()],
            the_pirate_bay: vec!["https://www1.thepiratebay3.to".to_owned()],
            rarbg: Vec::new(),
        }
    }
}

/// Failure to read a listing count as a number.
#[derive(Clone, Copy, Debug, PartialEq, Eq, Structural)]
pub struct IntParseError;

/// `s` with every comma removed.
pub open spec fn strip_commas(s: Seq<char>) -> Seq<char>
    decreases s.len(),
{
    if s.len() == 0 {
        s
    } else {
        let r = strip_commas(s.drop_last());
        if s.last() == ',' {
            r
        } else {
            r.push(s.last())
        }
    }
}

/// Reads a listing count: the decimal value of `value` with its grouping
/// commas removed; an error when what remains is no numeral.
pub fn to_int(value: &str) -> (r: Result<i32, IntParseError>)
    ensures
        match r {
            Ok(v) => spec_parse_i32(strip_commas(value@)) == Some(v),
            Err(_) => spec_parse_i32(strip_commas(value@)) is None,
        },
{
    let n: usize = value.unicode_len();
    let mut cs: Vec<char> = Vec::new();
    let mut i: usize = 0;
    proof {
        assert(value@.take(0) =~= Seq::<char>::empty());
    }
    while i < n
        invariant
            n == value@.len(),
            i <= n,
            cs@ == strip_commas(value@.take(i as int)),
        decreases n - i,
    {
        let c = value.get_char(i);
        proof {
            assert(value@.take(i + 1).drop_last() =~= value@.take(i as int));
        }
        if c != ',' {
            cs.push(c);
        }
        i = i + 1;
    }
    proof {
        assert(value@.take(n as int) =~= value@);
    }
    let stripped = string_from_chars(&cs);
    match parse_i32(stripped.as_str()) {
        Some(v) => Ok(v),
        None => Err(IntParseError),
    }
}

/// What an outside encoder returns for a string: its percent-encoding, a
/// pure function of the characters.
pub uninterp spec fn percent_encoded(s: Seq<char>) -> Seq<char>;

/// Relies on urlencoding::encode: percent-encodes the UTF-8 bytes of `s`,
/// a function of the input string alone.
#[verifier::external_body]
fn percent_encode(s: &str) -> (r: String)
    ensures
        r@ == percent_encoded(s@),
{
    urlencoding::encode(s).into_owned()
}

/// One `&tr=` query parameter carrying a percent-encoded tracker address.
pub open spec fn tracker_param(t: Seq<char>) -> Seq<char> {
    "&tr="@ + percent_encoded(t)
}

/// The full tracker parameter string appended to search-API magnet links.
pub open spec fn tpb_tracker_params() -> Seq<char> {
    tracker_param("udp://tracker.coppersurfer.tk:6969/announce"@) + tracker_param(
        "udp://9.rarbg.to:2920/announce"@,
    ) + tracker_param("udp://tracker.opentrackr.org:1337"@) + tracker_param(
        "udp://tracker.internetwarriors.net:1337/announce"@,
    ) + tracker_param("udp://tracker.leechers-paradise.org:6969/announce"@) + tracker_param(
        "udp://tracker.pirateparty.gr:6969/announce"@,
    ) + tracker_param("udp://tracker.cyberia.is:6969/announce"@)
}

/// Builds the `&tr=` parameter chain for the built-in tracker list.
pub fn get_tpb_trackers() -> (r: String)
    ensures
        r@ == tpb_tracker_params(),
{
    let mut r = String::new();
    r.append("&tr=");
    let e0 = percent_encode("udp://tracker.coppersurfer.tk:6969/announce");
    r.append(e0.as_str());
    r.append("&tr=");
    let e1 = percent_encode("udp://9.rarbg.to:2920/announce");
    r.append(e1.as_str());
    r.append("&tr=");
    let e2 = percent_encode("udp://tracker.opentrackr.org:1337");
    r.append(e2.as_str());
    r.append("&tr=");
    let e3 = percent_encode("udp://tracker.internetwarriors.net:1337/announce");
    r.append(e3.as_str());
    r.append("&tr=");
    let e4 = percent_encode("udp://tracker.leechers-paradise.org:6969/announce");
    r.append(e4.as_str());
    r.append("&tr=");
    let e5 = percent_encode("udp://tracker.pirateparty.gr:6969/announce");
    r.append(e5.as_str());
    r.append("&tr=");
    let e6 = percent_encode("udp://tracker.cyberia.is:6969/announce");
    r.append(e6.as_str());
    proof {
        assert(r@ =~= tpb_tracker_params());
    }
    r
}

/// What the outside date parser returns: the Unix timestamp denoted by a
/// date string under a format string, a function of the two alone.
pub uninterp spec fn parsed_timestamp(s: Seq<char>, fmt: Seq<char>) -> Option<i64>;

/// Relies on chrono::NaiveDateTime::parse_from_str, and_utc and timestamp:
/// the Unix timestamp of the date `date_str` denotes under `format`, if it
/// parses; a function of the two strings alone.
#[verifier::external_body]
pub fn parse_date(date_str: &str, format: &str) -> (r: Option<i64>)
    ensures
        r == parsed_timestamp(date_str@, format@),
{
    chrono::NaiveDateTime::parse_from_str(date_str, format).ok().map(
        |dt| dt.and_utc().timestamp(),
    )
}

/// A listing date with English ordinal suffixes removed, ready for the
/// date parser.
pub open spec fn cleaned_date(s: Seq<char>) -> Seq<char> {
    spec_remove_all(
        spec_remove_all(spec_remove_all(spec_remove_all(s, "nd"@), "th"@), "rd"@),
        "st"@,
    )
}

/// The listing date format.
pub open spec fn row_date_format() -> Seq<char> {
    "%b. %d '%y"@
}

/// Assembles one torrent from the text fields of a listing row: counts
/// read leniently (zero when unreadable), the size cut after its first
/// `B`, the date parsed after ordinal-suffix cleanup, and the link joined
/// from mirror and path.
pub fn torrent_from_row(
    name: String,
    seeders_text: &str,
    leechers_text: &str,
    size_text: &str,
    date_text: &str,
    uploader: String,
    proxy: &str,
    href: &str,
) -> (t: Torrent)
    ensures
        t.name == name,
        t.uploader == uploader,
        t.seeders == (match spec_parse_i32(strip_commas(seeders_text@)) {
            Some(v) => v,
            None => 0,
        }),
        t.leechers == (match spec_parse_i32(strip_commas(leechers_text@)) {
            Some(v) => v,
            None => 0,
        }),
        t.size@ == spec_before(size_text@, 'B') + seq!['B'],
        t.date == parsed_timestamp(cleaned_date(date_text@), row_date_format()),
        t.link@ == proxy@ + href@,
{
    let seeders: i32 = match to_int(seeders_text) {
        Ok(v) => v,
        Err(_) => 0,
    };
    let leechers: i32 = match to_int(leechers_text) {
        Ok(v) => v,
        Err(_) => 0,
    };
    let mut size = before_char(size_text, 'B');
    proof {
        reveal_strlit("B");
    }
    size.append("B");
    proof {
        assert(size@ =~= spec_before(size_text@, 'B') + seq!['B']);
    }
    let c1 = remove_all(date_text, "nd");
    let c2 = remove_all(c1.as_str(), "th");
    let c3 = remove_all(c2.as_str(), "rd");
    let cleaned = remove_all(c3.as_str(), "st");
    let date = parse_date(cleaned.as_str(), "%b. %d '%y");
    let mut link = String::new();
    link.append(proxy);
    link.append(href);
    Torrent { name, seeders, leechers, size, date, uploader, link }
}

/// Assembles one torrent from the fields of a search-API record; the
/// displayed size is prepared by the caller, the link keyed by the
/// record's id.
pub fn torrent_from_api(
    name: String,
    seeders_text: &str,
    leechers_text: &str,
    size_display: String,
    username: String,
    id: &str,
) -> (t: Torrent)
    ensures
        t.name == name,
        t.uploader == username,
        t.size == size_display,
        t.date is None,
        t.seeders == (match spec_parse_i32(strip_commas(seeders_text@)) {
            Some(v) => v,
            None => 0,
        }),
        t.leechers == (match spec_parse_i32(strip_commas(leechers_text@)) {
            Some(v) => v,
            None => 0,
        }),
        t.link@ == "http://apibay.org/t.php?id="@ + id@,
{
    let seeders: i32 = match to_int(seeders_text) {
        Ok(v) => v,
        Err(_) => 0,
    };
    let leechers: i32 = match to_int(leechers_text) {
        Ok(v) => v,
        Err(_) => 0,
    };
    let mut link = String::new();
    link.append("http://apibay.org/t.php?id=");
    link.append(id);
    Torrent {
        name,
        seeders,
        leechers,
        size: size_display,
        date: None,
        uploader: username,
        link,
    }
}

} // verus!
