//! Catalogue records: the delimited line format consumed and produced by
//! the persistence collaborator, and the rules that apply a verdict to a
//! stored line.

use vstd::prelude::*;
use crate::aggregate::Verdict;
use crate::search::Torrent;
use crate::text::{
    spec_split, split_char, spec_parse_u32, parse_u32, spec_parse_i64, parse_i64, spec_u64_digits,
    u64_to_string, spec_i64_digits, i64_to_string, spec_replace_char, replace_char, spec_tokens,
    tokens, all_digits, digits_val, pow10, ascii_upper, to_ascii_upper, spec_before, before_char,
    parse_u64, check_all_digits, lemma_digits_val_bound, lemma_pow10_mono, lemma_pow10_le,
    pow10_u64,
};

verus! {

/// One line of the verification catalogue.
pub struct CsvRecord {
    pub infohash: String,
    pub name: String,
    pub size_bytes: String,
    pub created_unix: String,
    pub seeders: u32,
    pub leechers: u32,
    pub completed: String,
    pub scraped_date: i64,
}

/// The `u32` a field denotes, zero when it is no numeral.
pub open spec fn u32_field(parts: Seq<Seq<char>>, i: int) -> u32 {
    match spec_parse_u32(parts[i]) {
        Some(v) => v,
        None => 0,
    }
}

/// The `i64` a field denotes, zero when it is no numeral.
pub open spec fn i64_field(parts: Seq<Seq<char>>, i: int) -> i64 {
    match spec_parse_i64(parts[i]) {
        Some(v) => v,
        None => 0,
    }
}

/// `rec` holds exactly what `line` carries in its first eight
/// semicolon-separated fields.
pub open spec fn parses_to(line: Seq<char>, rec: CsvRecord) -> bool {
    let parts = spec_split(line, ';');
    &&& parts.len() >= 8
    &&& rec.infohash@ == parts[0]
    &&& rec.name@ == parts[1]
    &&& rec.size_bytes@ == parts[2]
    &&& rec.created_unix@ == parts[3]
    &&& rec.seeders == u32_field(parts, 4)
    &&& rec.leechers == u32_field(parts, 5)
    &&& rec.completed@ == parts[6]
    &&& rec.scraped_date == i64_field(parts, 7)
}

/// Like `parses_to`, with the liveness fields overridden: the given
/// counts and scrape time replace what the line carried.
pub open spec fn parses_updated(
    line: Seq<char>,
    rec: CsvRecord,
    seeders: u32,
    leechers: u32,
    now: i64,
) -> bool {
    let parts = spec_split(line, ';');
    &&& parts.len() >= 8
    &&& rec.infohash@ == parts[0]
    &&& rec.name@ == parts[1]
    &&& rec.size_bytes@ == parts[2]
    &&& rec.created_unix@ == parts[3]
    &&& rec.seeders == seeders
    &&& rec.leechers == leechers
    &&& rec.completed@ == parts[6]
    &&& rec.scraped_date == now
}

/// The line a record renders to: its eight fields joined by semicolons.
pub open spec fn spec_record_line(rec: CsvRecord) -> Seq<char> {
    rec.infohash@ + seq![';'] + rec.name@ + seq![';'] + rec.size_bytes@ + seq![';']
        + rec.created_unix@ + seq![';'] + spec_u64_digits(rec.seeders as nat) + seq![';']
        + spec_u64_digits(rec.leechers as nat) + seq![';'] + rec.completed@ + seq![';']
        + spec_i64_digits(rec.scraped_date as int)
}

impl CsvRecord {
    /// Reads one catalogue line; a line of fewer than eight fields is no
    /// record.  Count fields that are no numerals read as zero.
    pub fn from_line(line: &str) -> (r: Option<CsvRecord>)
        ensures
            match r {
                Some(rec) => parses_to(line@, rec),
                None => spec_split(line@, ';').len() < 8,
            },
    {
        let parts = split_char(line, ';');
        if parts.len() < 8 {
            return None;
        }
        proof {
            assert(forall|q: int|
                0 <= q < parts@.len() ==> (#[trigger] parts@[q])@ == spec_split(line@, ';')[q]);
        }
        let seeders: u32 = match parse_u32(parts[4].as_str()) {
            Some(v) => v,
            None => 0,
        };
        let leechers: u32 = match parse_u32(parts[5].as_str()) {
            Some(v) => v,
            None => 0,
        };
        let scraped_date: i64 = match parse_i64(parts[7].as_str()) {
            Some(v) => v,
            None => 0,
        };
        Some(
            CsvRecord {
                infohash: parts[0].clone(),
                name: parts[1].clone(),
                size_bytes: parts[2].clone(),
                created_unix: parts[3].clone(),
                seeders,
                leechers,
                completed: parts[6].clone(),
                scraped_date,
            },
        )
    }

    /// Renders the record back to its catalogue line.
    pub fn to_line(&self) -> (r: String)
        ensures
            r@ == spec_record_line(*self),
    {
        proof {
            reveal_strlit(";");
        }
        let mut r = String::new();
        r.append(self.infohash.as_str());
        r.append(";");
        r.append(self.name.as_str());
        r.append(";");
        r.append(self.size_bytes.as_str());
        r.append(";");
        r.append(self.created_unix.as_str());
        r.append(";");
        let se = u64_to_string(self.seeders as u64);
        r.append(se.as_str());
        r.append(";");
        let le = u64_to_string(self.leechers as u64);
        r.append(le.as_str());
        r.append(";");
        r.append(self.completed.as_str());
        r.append(";");
        let sd = i64_to_string(self.scraped_date);
        r.append(sd.as_str());
        proof {
            assert(r@ =~= spec_record_line(*self));
        }
        r
    }

    /// An identical copy of the record.
    pub fn duplicate(&self) -> (r: CsvRecord)
        ensures
            r == *self,
    {
        CsvRecord {
            infohash: self.infohash.clone(),
            name: self.name.clone(),
            size_bytes: self.size_bytes.clone(),
            created_unix: self.created_unix.clone(),
            seeders: self.seeders,
            leechers: self.leechers,
            completed: self.completed.clone(),
            scraped_date: self.scraped_date,
        }
    }
}

/// Applies a verdict to the stored line it was computed for: a `Failed`
/// verdict keeps the line's record untouched, `Dead` drops it, and
/// `Alive` carries the new maxima and scrape time into it.  A line that
/// does not parse yields nothing.
pub fn updated_record(line: &str, v: &Verdict, now: i64) -> (r: Option<CsvRecord>)
    ensures
        v is Dead ==> r is None,
        v is Failed ==> match r {
            Some(rec) => parses_to(line@, rec),
            None => spec_split(line@, ';').len() < 8,
        },
        *v matches Verdict::Alive { seeders, leechers } ==> match r {
            Some(rec) => parses_updated(line@, rec, seeders, leechers, now),
            None => spec_split(line@, ';').len() < 8,
        },
{
    match v {
        Verdict::Dead => None,
        Verdict::Failed => CsvRecord::from_line(line),
        Verdict::Alive { seeders, leechers } => {
            match CsvRecord::from_line(line) {
                Some(rec) => {
                    let mut rec = rec;
                    rec.seeders = *seeders;
                    rec.leechers = *leechers;
                    rec.scraped_date = now;
                    Some(rec)
                },
                None => None,
            }
        },
    }
}

/// The multiplier a size unit denotes; unknown units count as bytes.
pub open spec fn unit_multiplier(u: Seq<char>) -> nat {
    if u == "BYTES"@ {
        1
    } else if u == "KB"@ {
        1000
    } else if u == "MB"@ {
        1000000
    } else if u == "GB"@ {
        1000000000
    } else if u == "TB"@ {
        1000000000000
    } else {
        1
    }
}

/// The fraction digits that carry weight: at most twelve, since the
/// largest unit is a trillion bytes.
pub open spec fn frac_digits(f: Seq<char>) -> Seq<char> {
    if f.len() <= 12 {
        f
    } else {
        f.take(12)
    }
}

/// The byte count a decimal numeral denotes under a unit multiplier:
/// integer part times the multiplier, plus the scaled fraction, rounded
/// down; zero when the numeral is not `digits` or `digits.digits`.
pub open spec fn spec_size_amount(num: Seq<char>, mult: nat) -> nat {
    let parts = spec_split(num, '.');
    if parts.len() == 1 && parts[0].len() > 0 && all_digits(parts[0]) {
        digits_val(parts[0]) * mult
    } else if parts.len() == 2 && parts[0].len() > 0 && all_digits(parts[0]) && all_digits(
        parts[1],
    ) {
        let fd = frac_digits(parts[1]);
        digits_val(parts[0]) * mult + (digits_val(fd) * mult) / pow10(fd.len())
    } else {
        0
    }
}

/// What a size display like `1.5 GB` denotes in bytes: zero unless it is
/// exactly a numeral and a unit, saturating at the largest `u64`.
pub open spec fn spec_parse_size(s: Seq<char>) -> u64 {
    let toks = spec_tokens(s);
    if toks.len() != 2 {
        0
    } else {
        let amount = spec_size_amount(toks[0], unit_multiplier(ascii_upper(toks[1])));
        if amount > u64::MAX {
            u64::MAX
        } else {
            amount as u64
        }
    }
}

/// Reads a size display like `1.5 GB` as a byte count.
pub fn parse_size_to_bytes(size: &str) -> (r: u64)
    ensures
        r == spec_parse_size(size@),
{
    let toks = tokens(size);
    proof {
        assert(toks@.map_values(|t: String| t@).len() == toks@.len());
    }
    if toks.len() != 2 {
        return 0;
    }
    proof {
        assert(toks@[0]@ == spec_tokens(size@)[0]);
        assert(toks@[1]@ == spec_tokens(size@)[1]);
    }
    let up = to_ascii_upper(toks[1].as_str());
    let mult: u64 = if str_eq(up.as_str(), "BYTES") {
        1
    } else if str_eq(up.as_str(), "KB") {
        1000
    } else if str_eq(up.as_str(), "MB") {
        1000000
    } else if str_eq(up.as_str(), "GB") {
        1000000000
    } else if str_eq(up.as_str(), "TB") {
        1000000000000
    } else {
        1
    };
    let ghost gm = unit_multiplier(ascii_upper(spec_tokens(size@)[1]));
    proof {
        assert(mult == gm);
        assert(1 <= gm <= 1000000000000);
    }
    let parts = split_char(toks[0].as_str(), '.');
    let ghost sparts = spec_split(spec_tokens(size@)[0], '.');
    proof {
        assert(parts@.map_values(|t: String| t@) == sparts);
        assert(forall|q: int|
            0 <= q < parts@.len() ==> (#[trigger] parts@[q])@ == sparts[q]);
    }
    if parts.len() == 1 {
        if parts[0].as_str().unicode_len() == 0 || !check_all_digits(parts[0].as_str()) {
            return 0;
        }
        match parse_u64(parts[0].as_str()) {
            Some(d) => {
                proof {
                    assert((d as int) * (gm as int) <= 0xFFFF_FFFF_FFFF_FFFFint
                        * 1000000000000int) by (nonlinear_arith)
                        requires
                            0 <= d <= 0xFFFF_FFFF_FFFF_FFFFint,
                            0 <= gm <= 1000000000000int,
                    ;
                }
                let total: u128 = (d as u128) * (mult as u128);
                if total > 0xFFFF_FFFF_FFFF_FFFFu128 {
                    u64::MAX
                } else {
                    total as u64
                }
            },
            None => {
                proof {
                    assert(digits_val(sparts[0]) > u64::MAX);
                    assert(digits_val(sparts[0]) * gm >= digits_val(sparts[0]) * 1)
                        by (nonlinear_arith)
                        requires
                            gm >= 1,
                            digits_val(sparts[0]) >= 0,
                    ;
                }
                u64::MAX
            },
        }
    } else if parts.len() == 2 {
        if parts[0].as_str().unicode_len() == 0 || !check_all_digits(parts[0].as_str())
            || !check_all_digits(parts[1].as_str()) {
            return 0;
        }
        let flen: usize = parts[1].as_str().unicode_len();
        let fcut: usize = if flen <= 12 {
            flen
        } else {
            12
        };
        let ftrunc = parts[1].as_str().substring_char(0, fcut);
        proof {
            assert(ftrunc@ =~= frac_digits(sparts[1]));
            lemma_digits_val_bound(frac_digits(sparts[1]));
            lemma_pow10_mono(frac_digits(sparts[1]).len(), 12);
            lemma_pow10_le(12);
            assert(digits_val(frac_digits(sparts[1])) < 1000000000001);
        }
        let fv: u64 = match parse_u64(ftrunc) {
            Some(v) => v,
            None => {
                proof {
                    if fcut > 0 {
                        assert(all_digits(frac_digits(sparts[1])));
                        assert(false);
                    }
                }
                0
            },
        };
        let fpow: u64 = pow10_u64(fcut);
        proof {
            lemma_pow10_le(fcut as nat);
        }
        proof {
            assert((fv as int) * (gm as int) <= 1000000000001int * 1000000000000int)
                by (nonlinear_arith)
                requires
                    0 <= fv <= 1000000000001int,
                    0 <= gm <= 1000000000000int,
            ;
        }
        let frac: u128 = (fv as u128) * (mult as u128) / (fpow as u128);
        match parse_u64(parts[0].as_str()) {
            Some(d) => {
                proof {
                    assert((d as int) * (gm as int) <= 0xFFFF_FFFF_FFFF_FFFFint
                        * 1000000000000int) by (nonlinear_arith)
                        requires
                            0 <= d <= 0xFFFF_FFFF_FFFF_FFFFint,
                            0 <= gm <= 1000000000000int,
                    ;
                }
                let whole: u128 = (d as u128) * (mult as u128);
                let total: u128 = whole + frac;
                if total > 0xFFFF_FFFF_FFFF_FFFFu128 {
                    u64::MAX
                } else {
                    total as u64
                }
            },
            None => {
                proof {
                    assert(digits_val(sparts[0]) > u64::MAX);
                    assert(digits_val(sparts[0]) * gm >= digits_val(sparts[0]) * 1)
                        by (nonlinear_arith)
                        requires
                            gm >= 1,
                            digits_val(sparts[0]) >= 0,
                    ;
                }
                u64::MAX
            },
        }
    } else {
        0
    }
}

/// Compares two strings character for character.
fn str_eq(a: &str, b: &str) -> (r: bool)
    ensures
        r == (a@ == b@),
{
    let n: usize = a.unicode_len();
    let m: usize = b.unicode_len();
    if n != m {
        return false;
    }
    let mut i: usize = 0;
    while i < n
        invariant
            n == a@.len(),
            n == b@.len(),
            i <= n,
            forall|j: int| 0 <= j < i ==> a@[j] == b@[j],
        decreases n - i,
    {
        if a.get_char(i) != b.get_char(i) {
            return false;
        }
        i = i + 1;
    }
    proof {
        assert(a@ =~= b@);
    }
    true
}

/// One record destined for the discovery catalogue.
pub struct TorrentCsvRecord {
    pub infohash: String,
    pub name: String,
    pub size_bytes: u64,
    pub created_unix: i64,
    pub seeders: i32,
    pub leechers: i32,
    pub completed: i32,
    pub scraped_date: i64,
}

/// The line a discovery record renders to; semicolons inside the name are
/// escaped to commas so the field count stays fixed.
pub open spec fn spec_torrent_csv_line(rec: TorrentCsvRecord) -> Seq<char> {
    rec.infohash@ + seq![';'] + spec_replace_char(rec.name@, ';', ',') + seq![';']
        + spec_u64_digits(rec.size_bytes as nat) + seq![';'] + spec_i64_digits(
        rec.created_unix as int,
    ) + seq![';'] + spec_i64_digits(rec.seeders as int) + seq![';'] + spec_i64_digits(
        rec.leechers as int,
    ) + seq![';'] + spec_i64_digits(rec.completed as int) + seq![';'] + spec_i64_digits(
        rec.scraped_date as int,
    )
}

impl TorrentCsvRecord {
    /// Renders the record as its catalogue line.
    pub fn to_csv_line(&self) -> (r: String)
        ensures
            r@ == spec_torrent_csv_line(*self),
    {
        proof {
            reveal_strlit(";");
        }
        let mut r = String::new();
        r.append(self.infohash.as_str());
        r.append(";");
        let name = replace_char(self.name.as_str(), ';', ',');
        r.append(name.as_str());
        r.append(";");
        let sb = u64_to_string(self.size_bytes);
        r.append(sb.as_str());
        r.append(";");
        let cu = i64_to_string(self.created_unix);
        r.append(cu.as_str());
        r.append(";");
        let se = i64_to_string(self.seeders as i64);
        r.append(se.as_str());
        r.append(";");
        let le = i64_to_string(self.leechers as i64);
        r.append(le.as_str());
        r.append(";");
        let co = i64_to_string(self.completed as i64);
        r.append(co.as_str());
        r.append(";");
        let sd = i64_to_string(self.scraped_date);
        r.append(sd.as_str());
        proof {
            assert(r@ =~= spec_torrent_csv_line(*self));
        }
        r
    }

    /// Builds a record from a discovered torrent and its identifier at
    /// scrape time `now`: the size display read as bytes, the given date
    /// kept when present and `now` otherwise, and the scrape time
    /// stamped `now`.
    pub fn from_torrent(torrent: &Torrent, infohash: &str, now: i64) -> (r: TorrentCsvRecord)
        ensures
            r.infohash@ == infohash@,
            r.name == torrent.name,
            r.size_bytes == spec_parse_size(torrent.size@),
            r.created_unix == (match torrent.date {
                Some(d) => d,
                None => now,
            }),
            r.seeders == torrent.seeders,
            r.leechers == torrent.leechers,
            r.completed == 0,
            r.scraped_date == now,
    {
        let created_unix: i64 = match torrent.date {
            Some(d) => d,
            None => now,
        };
        TorrentCsvRecord {
            infohash: infohash.to_owned(),
            name: torrent.name.clone(),
            size_bytes: parse_size_to_bytes(torrent.size.as_str()),
            created_unix,
            seeders: torrent.seeders,
            leechers: torrent.leechers,
            completed: 0,
            scraped_date: now,
        }
    }

    /// An identical copy of the record.
    pub fn duplicate(&self) -> (r: TorrentCsvRecord)
        ensures
            r == *self,
    {
        TorrentCsvRecord {
            infohash: self.infohash.clone(),
            name: self.name.clone(),
            size_bytes: self.size_bytes,
            created_unix: self.created_unix,
            seeders: self.seeders,
            leechers: self.leechers,
            completed: self.completed,
            scraped_date: self.scraped_date,
        }
    }
}

/// The first field of every line after the header: the identifiers the
/// catalogue already holds.
pub fn collect_infohashes(lines: &Vec<String>) -> (r: Vec<String>)
    ensures
        lines@.len() == 0 ==> r@.len() == 0,
        lines@.len() > 0 ==> r@.len() == lines@.len() - 1 && forall|i: int|
            0 <= i < r@.len() ==> (#[trigger] r@[i])@ == spec_before(lines@[i + 1]@, ';'),
{
    let mut r: Vec<String> = Vec::new();
    if lines.len() == 0 {
        return r;
    }
    let mut i: usize = 1;
    while i < lines.len()
        invariant
            1 <= i <= lines@.len(),
            r@.len() == i - 1,
            forall|q: int| 0 <= q < r@.len() ==> (#[trigger] r@[q])@ == spec_before(
                lines@[q + 1]@,
                ';',
            ),
        decreases lines@.len() - i,
    {
        r.push(before_char(lines[i].as_str(), ';'));
        i = i + 1;
    }
    r
}

/// The catalogue already lists `h`.
pub open spec fn known_hash(existing: Seq<Seq<char>>, h: Seq<char>) -> bool {
    exists|j: int| 0 <= j < existing.len() && existing[j] == h
}

/// The records whose identifiers the catalogue does not list yet, in
/// order.
pub open spec fn spec_filter_new(
    rs: Seq<TorrentCsvRecord>,
    existing: Seq<Seq<char>>,
) -> Seq<TorrentCsvRecord>
    decreases rs.len(),
{
    if rs.len() == 0 {
        rs
    } else {
        let r = spec_filter_new(rs.drop_last(), existing);
        if known_hash(existing, rs.last().infohash@) {
            r
        } else {
            r.push(rs.last())
        }
    }
}

/// Whether the catalogue already lists `h`.
fn contains_hash(existing: &Vec<String>, h: &String) -> (r: bool)
    ensures
        r == known_hash(existing.deep_view(), h@),
{
    let mut j: usize = 0;
    while j < existing.len()
        invariant
            j <= existing@.len(),
            forall|q: int| 0 <= q < j ==> existing.deep_view()[q] != h@,
        decreases existing@.len() - j,
    {
        if existing[j].eq(h) {
            proof {
                assert(existing.deep_view()[j as int] == existing@[j as int]@);
            }
            return true;
        }
        proof {
            assert(existing.deep_view()[j as int] == existing@[j as int]@);
        }
        j = j + 1;
    }
    false
}

/// Keeps the records whose identifiers the catalogue does not hold yet:
/// exactly what deduplication-on-append writes.
pub fn filter_new_records(records: Vec<TorrentCsvRecord>, existing: &Vec<String>) -> (r: Vec<
    TorrentCsvRecord,
>)
    ensures
        r@ == spec_filter_new(records@, existing.deep_view()),
{
    let mut out: Vec<TorrentCsvRecord> = Vec::new();
    let mut i: usize = 0;
    proof {
        assert(out@ =~= spec_filter_new(records@.take(0), existing.deep_view()));
    }
    while i < records.len()
        invariant
            i <= records@.len(),
            out@ == spec_filter_new(records@.take(i as int), existing.deep_view()),
        decreases records@.len() - i,
    {
        proof {
            assert(records@.take(i + 1).drop_last() =~= records@.take(i as int));
        }
        if !contains_hash(existing, &records[i].infohash) {
            out.push(records[i].duplicate());
        }
        proof {
            assert(out@ =~= spec_filter_new(records@.take(i + 1), existing.deep_view()));
        }
        i = i + 1;
    }
    proof {
        assert(records@.take(records@.len() as int) =~= records@);
    }
    out
}

} // verus!
