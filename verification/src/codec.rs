//! Wire codec for the four fixed-layout binary tracker messages.
//!
//! All integers on the wire are big-endian.  Decoding is total: malformed or
//! truncated input yields `None` (or absent records), never a panic.

use vstd::prelude::*;

verus! {

/// Magic constant opening every connect request.
pub const CONNECT_MAGIC: u64 = 0x41727101980;

/// Action code of the connect exchange.
pub const ACTION_CONNECT: u32 = 0;

/// Action code of the scrape exchange.
pub const ACTION_SCRAPE: u32 = 2;

/// Hard protocol cap on identifiers per scrape datagram.
pub const MAX_SCRAPE_HASHES: usize = 74;

/// Byte length of one identifier on the wire.
pub const ID_LEN: usize = 20;

/// Seeder and leecher counts reported by one server for one identifier.
#[derive(Clone, Copy, Debug, PartialEq, Eq, Structural)]
pub struct TorrentStats {
    pub seeders: u32,
    pub leechers: u32,
}

/// The `u32` read big-endian from a 4-byte sequence.
pub open spec fn u32_of_be(b: Seq<u8>) -> u32
    recommends
        b.len() == 4,
{
    (b[0] as u32) << 24 | (b[1] as u32) << 16 | (b[2] as u32) << 8 | (b[3] as u32)
}

/// The `u64` read big-endian from an 8-byte sequence.
pub open spec fn u64_of_be(b: Seq<u8>) -> u64 {
    (b[0] as u64) << 56 | (b[1] as u64) << 48 | (b[2] as u64) << 40 | (b[3] as u64) << 32
        | (b[4] as u64) << 24 | (b[5] as u64) << 16 | (b[6] as u64) << 8 | (b[7] as u64)
}

/// The big-endian 4-byte encoding of a `u32`.
pub open spec fn be4(x: u32) -> Seq<u8> {
    seq![(x >> 24) as u8, (x >> 16) as u8, (x >> 8) as u8, x as u8]
}

/// The big-endian 8-byte encoding of a `u64`.
pub open spec fn be8(x: u64) -> Seq<u8> {
    seq![
        (x >> 56) as u8,
        (x >> 48) as u8,
        (x >> 40) as u8,
        (x >> 32) as u8,
        (x >> 24) as u8,
        (x >> 16) as u8,
        (x >> 8) as u8,
        x as u8,
    ]
}

/// Reading back the 4-byte encoding recovers the value.
pub proof fn lemma_u32_be_inverse(x: u32)
    ensures
        u32_of_be(be4(x)) == x,
{
    assert(((x >> 24) as u8 as u32) << 24 | ((x >> 16) as u8 as u32) << 16 | ((x >> 8) as u8
        as u32) << 8 | (x as u8 as u32) == x) by (bit_vector);
}

/// Reading back the 8-byte encoding recovers the value.
pub proof fn lemma_u64_be_inverse(x: u64)
    ensures
        u64_of_be(be8(x)) == x,
{
    assert(((x >> 56) as u8 as u64) << 56 | ((x >> 48) as u8 as u64) << 48 | ((x >> 40) as u8
        as u64) << 40 | ((x >> 32) as u8 as u64) << 32 | ((x >> 24) as u8 as u64) << 24 | ((x
        >> 16) as u8 as u64) << 16 | ((x >> 8) as u8 as u64) << 8 | (x as u8 as u64) == x)
        by (bit_vector);
}

/// Appends the big-endian bytes of `x` to `out`.
pub fn push_u32_be(out: &mut Vec<u8>, x: u32)
    ensures
        final(out)@ == old(out)@ + be4(x),
{
    out.push(#[verifier::truncate] ((x >> 24) as u8));
    out.push(#[verifier::truncate] ((x >> 16) as u8));
    out.push(#[verifier::truncate] ((x >> 8) as u8));
    out.push(#[verifier::truncate] (x as u8));
    proof {
        assert(out@ =~= old(out)@ + be4(x));
    }
}

/// Appends the big-endian bytes of `x` to `out`.
pub fn push_u64_be(out: &mut Vec<u8>, x: u64)
    ensures
        final(out)@ == old(out)@ + be8(x),
{
    out.push(#[verifier::truncate] ((x >> 56) as u8));
    out.push(#[verifier::truncate] ((x >> 48) as u8));
    out.push(#[verifier::truncate] ((x >> 40) as u8));
    out.push(#[verifier::truncate] ((x >> 32) as u8));
    out.push(#[verifier::truncate] ((x >> 24) as u8));
    out.push(#[verifier::truncate] ((x >> 16) as u8));
    out.push(#[verifier::truncate] ((x >> 8) as u8));
    out.push(#[verifier::truncate] (x as u8));
    proof {
        assert(out@ =~= old(out)@ + be8(x));
    }
}

/// Reads the big-endian `u32` at offset `off`.
pub fn u32_be_at(buf: &Vec<u8>, off: usize) -> (x: u32)
    requires
        off + 4 <= buf@.len(),
    ensures
        x == u32_of_be(buf@.subrange(off as int, off as int + 4)),
{
    let _n: usize = buf.len();
    let x: u32 = (buf[off] as u32) << 24 | (buf[off + 1] as u32) << 16 | (buf[off + 2] as u32)
        << 8 | (buf[off + 3] as u32);
    proof {
        let s = buf@.subrange(off as int, off as int + 4);
        assert(s[0] == buf@[off as int]);
        assert(s[1] == buf@[off as int + 1]);
        assert(s[2] == buf@[off as int + 2]);
        assert(s[3] == buf@[off as int + 3]);
    }
    x
}

/// Reads the big-endian `u64` at offset `off`.
pub fn u64_be_at(buf: &Vec<u8>, off: usize) -> (x: u64)
    requires
        off + 8 <= buf@.len(),
    ensures
        x == u64_of_be(buf@.subrange(off as int, off as int + 8)),
{
    let _n: usize = buf.len();
    let x: u64 = (buf[off] as u64) << 56 | (buf[off + 1] as u64) << 48 | (buf[off + 2] as u64)
        << 40 | (buf[off + 3] as u64) << 32 | (buf[off + 4] as u64) << 24 | (buf[off + 5]
        as u64) << 16 | (buf[off + 6] as u64) << 8 | (buf[off + 7] as u64);
    proof {
        let s = buf@.subrange(off as int, off as int + 8);
        assert(s[0] == buf@[off as int]);
        assert(s[1] == buf@[off as int + 1]);
        assert(s[2] == buf@[off as int + 2]);
        assert(s[3] == buf@[off as int + 3]);
        assert(s[4] == buf@[off as int + 4]);
        assert(s[5] == buf@[off as int + 5]);
        assert(s[6] == buf@[off as int + 6]);
        assert(s[7] == buf@[off as int + 7]);
    }
    x
}

/// The 16 bytes of a connect request carrying transaction id `tid`.
pub open spec fn connect_request_bytes(tid: u32) -> Seq<u8> {
    be8(CONNECT_MAGIC) + be4(ACTION_CONNECT) + be4(tid)
}

/// Encodes a connect request: magic, action 0, transaction id.
pub fn encode_connect_request(tid: u32) -> (r: Vec<u8>)
    ensures
        r@ == connect_request_bytes(tid),
        r@.len() == 16,
{
    let mut out: Vec<u8> = Vec::new();
    push_u64_be(&mut out, CONNECT_MAGIC);
    push_u32_be(&mut out, ACTION_CONNECT);
    push_u32_be(&mut out, tid);
    proof {
        assert(out@ =~= connect_request_bytes(tid));
    }
    out
}

/// The 16 bytes of a connect response: action, echoed transaction id, token.
pub open spec fn connect_response_bytes(action: u32, tid: u32, token: u64) -> Seq<u8> {
    be4(action) + be4(tid) + be8(token)
}

/// What a received connect response means: the connection token, if the
/// response is exactly 16 bytes with the connect action and the expected
/// transaction id; otherwise nothing.
pub open spec fn parse_connect_response(b: Seq<u8>, tid: u32) -> Option<u64> {
    if b.len() == 16 && u32_of_be(b.subrange(0, 4)) == ACTION_CONNECT && u32_of_be(
        b.subrange(4, 8),
    ) == tid {
        Some(u64_of_be(b.subrange(8, 16)))
    } else {
        None
    }
}

/// Decodes a connect response against the transaction id that was sent.
pub fn decode_connect_response(buf: &Vec<u8>, tid: u32) -> (r: Option<u64>)
    ensures
        r == parse_connect_response(buf@, tid),
{
    if buf.len() != 16 {
        return None;
    }
    let action = u32_be_at(buf, 0);
    let trans = u32_be_at(buf, 4);
    if action != ACTION_CONNECT || trans != tid {
        return None;
    }
    Some(u64_be_at(buf, 8))
}

/// The bytes of a scrape request: token, action 2, transaction id, then the
/// 20-byte identifiers in batch order.
pub open spec fn scrape_request_bytes(token: u64, tid: u32, hashes: Seq<Seq<u8>>) -> Seq<u8> {
    be8(token) + be4(ACTION_SCRAPE) + be4(tid) + hashes.flatten()
}

/// The header of a scrape response is valid for `tid` when at least the
/// 8 header bytes arrived, with the scrape action and the expected id.
pub open spec fn scrape_header_ok(b: Seq<u8>, tid: u32) -> bool {
    b.len() >= 8 && u32_of_be(b.subrange(0, 4)) == ACTION_SCRAPE && u32_of_be(b.subrange(4, 8))
        == tid
}

/// Whether the 12 bytes of record `i` arrived in full.
pub open spec fn record_present(b: Seq<u8>, i: int) -> bool {
    8 + 12 * (i + 1) <= b.len()
}

/// The stats held by record `i` of a scrape response body.
pub open spec fn record_at(b: Seq<u8>, i: int) -> TorrentStats {
    TorrentStats {
        seeders: u32_of_be(b.subrange(8 + 12 * i, 12 + 12 * i)),
        leechers: u32_of_be(b.subrange(16 + 12 * i, 20 + 12 * i)),
    }
}

/// What a received scrape response means for a batch of `k` identifiers:
/// positionally, record `i` if its 12 bytes arrived under a valid header,
/// otherwise absent.  Records beyond the received bytes are absent, not zero.
pub open spec fn parse_scrape_response(b: Seq<u8>, tid: u32, k: nat) -> Seq<
    Option<TorrentStats>,
> {
    Seq::new(
        k,
        |i: int|
            if scrape_header_ok(b, tid) && record_present(b, i) {
                Some(record_at(b, i))
            } else {
                None
            },
    )
}

/// Decodes a scrape response for a batch of `k` identifiers.  Never panics:
/// a bad header or truncated record only yields absent entries.
pub fn decode_scrape_response(buf: &Vec<u8>, tid: u32, k: usize) -> (r: Vec<Option<TorrentStats>>)
    requires
        k <= MAX_SCRAPE_HASHES,
    ensures
        r@ == parse_scrape_response(buf@, tid, k as nat),
        r@.len() == k,
{
    let header_ok: bool = if buf.len() < 8 {
        false
    } else {
        let action = u32_be_at(buf, 0);
        let trans = u32_be_at(buf, 4);
        action == ACTION_SCRAPE && trans == tid
    };
    let mut r: Vec<Option<TorrentStats>> = Vec::new();
    let mut i: usize = 0;
    while i < k
        invariant
            i <= k,
            k <= MAX_SCRAPE_HASHES,
            header_ok == scrape_header_ok(buf@, tid),
            r@.len() == i,
            forall|j: int|
                0 <= j < i ==> r@[j] == parse_scrape_response(buf@, tid, k as nat)[j],
        decreases k - i,
    {
        if header_ok && 8 + 12 * (i + 1) <= buf.len() {
            let seeders = u32_be_at(buf, 8 + 12 * i);
            let leechers = u32_be_at(buf, 16 + 12 * i);
            r.push(Some(TorrentStats { seeders, leechers }));
        } else {
            r.push(None);
        }
        i = i + 1;
    }
    proof {
        assert(r@ =~= parse_scrape_response(buf@, tid, k as nat));
    }
    r
}

/// The 12 bytes of one scrape response record: seeders, completed, leechers.
pub open spec fn stats_record_bytes(seeders: u32, completed: u32, leechers: u32) -> Seq<u8> {
    be4(seeders) + be4(completed) + be4(leechers)
}

/// The record bytes of a sequence of (seeders, completed, leechers) triples.
pub open spec fn records_bytes(recs: Seq<(u32, u32, u32)>) -> Seq<u8> {
    recs.map_values(|t: (u32, u32, u32)| stats_record_bytes(t.0, t.1, t.2)).flatten()
}

/// The full bytes of a scrape response.
pub open spec fn scrape_response_bytes(action: u32, tid: u32, recs: Seq<(u32, u32, u32)>) -> Seq<
    u8,
> {
    be4(action) + be4(tid) + records_bytes(recs)
}

/// Encodes a scrape response; the form a compliant server sends back, used
/// to exercise the decoder against synthetically built responses.
pub fn encode_scrape_response(action: u32, tid: u32, recs: &Vec<(u32, u32, u32)>) -> (r: Vec<u8>)
    ensures
        r@ == scrape_response_bytes(action, tid, recs@),
{
    let mut out: Vec<u8> = Vec::new();
    push_u32_be(&mut out, action);
    push_u32_be(&mut out, tid);
    let mut i: usize = 0;
    proof {
        broadcast use Seq::lemma_flatten_push;

        assert(recs@.subrange(0, 0).map_values(
            |t: (u32, u32, u32)| stats_record_bytes(t.0, t.1, t.2),
        ).flatten() =~= Seq::<u8>::empty());
        assert(out@ =~= be4(action) + be4(tid) + records_bytes(recs@.subrange(0, 0)));
    }
    while i < recs.len()
        invariant
            i <= recs@.len(),
            out@ == be4(action) + be4(tid) + records_bytes(recs@.subrange(0, i as int)),
        decreases recs@.len() - i,
    {
        let (s, c, l) = recs[i];
        push_u32_be(&mut out, s);
        push_u32_be(&mut out, c);
        push_u32_be(&mut out, l);
        proof {
            broadcast use Seq::lemma_flatten_push;

            let f = |t: (u32, u32, u32)| stats_record_bytes(t.0, t.1, t.2);
            assert(recs@.subrange(0, i + 1).map_values(f) =~= recs@.subrange(0, i as int)
                .map_values(f).push(stats_record_bytes(s, c, l)));
            assert(out@ =~= be4(action) + be4(tid) + records_bytes(recs@.subrange(0, i + 1)));
        }
        i = i + 1;
    }
    proof {
        assert(recs@.subrange(0, recs@.len() as int) =~= recs@);
    }
    out
}

/// Every sequence in `rs` has length 12; its flattening is their
/// concatenation, record-aligned.
proof fn lemma_flatten_records(rs: Seq<Seq<u8>>)
    requires
        forall|i: int| 0 <= i < rs.len() ==> (#[trigger] rs[i]).len() == 12,
    ensures
        rs.flatten().len() == 12 * rs.len(),
        forall|i: int|
            0 <= i < rs.len() ==> #[trigger] rs.flatten().subrange(12 * i, 12 * i + 12) == rs[i],
    decreases rs.len(),
{
    if rs.len() == 0 {
        assert(rs.flatten() =~= Seq::<u8>::empty());
    } else {
        let rest = rs.drop_first();
        lemma_flatten_records(rest);
        assert(rs.flatten() == rs.first() + rest.flatten());
        assert forall|i: int| 0 <= i < rs.len() implies #[trigger] rs.flatten().subrange(
            12 * i,
            12 * i + 12,
        ) == rs[i] by {
            if i == 0 {
                assert(rs.flatten().subrange(0, 12) =~= rs.first());
            } else {
                assert(rest.flatten().subrange(12 * (i - 1), 12 * (i - 1) + 12) == rest[i - 1]);
                assert(rs.flatten().subrange(12 * i, 12 * i + 12) =~= rest.flatten().subrange(
                    12 * (i - 1),
                    12 * (i - 1) + 12,
                ));
                assert(rest[i - 1] == rs[i]);
            }
        }
    }
}

/// Round trip for the connect exchange: a compliant 16-byte response that
/// echoes the transaction id decodes to exactly the token it carries; a
/// response echoing a different id, or shorter than 16 bytes, is invalid.
pub proof fn lemma_connect_round_trip(tid: u32, other_tid: u32, token: u64, short: Seq<u8>)
    ensures
        parse_connect_response(connect_response_bytes(ACTION_CONNECT, tid, token), tid)
            == Some(token),
        other_tid != tid ==> parse_connect_response(
            connect_response_bytes(ACTION_CONNECT, other_tid, token),
            tid,
        ) is None,
        short.len() < 16 ==> parse_connect_response(short, tid) is None,
{
    let b = connect_response_bytes(ACTION_CONNECT, tid, token);
    assert(b.subrange(0, 4) =~= be4(ACTION_CONNECT));
    assert(b.subrange(4, 8) =~= be4(tid));
    assert(b.subrange(8, 16) =~= be8(token));
    lemma_u32_be_inverse(ACTION_CONNECT);
    lemma_u32_be_inverse(tid);
    lemma_u64_be_inverse(token);
    let b2 = connect_response_bytes(ACTION_CONNECT, other_tid, token);
    assert(b2.subrange(0, 4) =~= be4(ACTION_CONNECT));
    assert(b2.subrange(4, 8) =~= be4(other_tid));
    lemma_u32_be_inverse(other_tid);
}

/// Round trip for the scrape exchange: a compliant response carrying one
/// 12-byte record per identifier decodes positionally to exactly the
/// seeder and leecher counts it carries; a response echoing a different
/// transaction id decodes to all-absent.
pub proof fn lemma_scrape_round_trip(tid: u32, other_tid: u32, recs: Seq<(u32, u32, u32)>)
    ensures
        parse_scrape_response(scrape_response_bytes(ACTION_SCRAPE, tid, recs), tid, recs.len())
            =~= Seq::new(
            recs.len(),
            |i: int| Some(TorrentStats { seeders: recs[i].0, leechers: recs[i].2 }),
        ),
        other_tid != tid ==> parse_scrape_response(
            scrape_response_bytes(ACTION_SCRAPE, other_tid, recs),
            tid,
            recs.len(),
        ) =~= Seq::new(recs.len(), |i: int| None::<TorrentStats>),
{
    let f = |t: (u32, u32, u32)| stats_record_bytes(t.0, t.1, t.2);
    let rs = recs.map_values(f);
    assert(forall|i: int| 0 <= i < rs.len() ==> (#[trigger] rs[i]).len() == 12);
    lemma_flatten_records(rs);
    let b = scrape_response_bytes(ACTION_SCRAPE, tid, recs);
    assert(b.len() == 8 + 12 * recs.len());
    assert(b.subrange(0, 4) =~= be4(ACTION_SCRAPE));
    assert(b.subrange(4, 8) =~= be4(tid));
    lemma_u32_be_inverse(ACTION_SCRAPE);
    lemma_u32_be_inverse(tid);
    assert(scrape_header_ok(b, tid));
    assert forall|i: int| 0 <= i < recs.len() implies parse_scrape_response(
        b,
        tid,
        recs.len(),
    )[i] == Some(TorrentStats { seeders: recs[i].0, leechers: recs[i].2 }) by {
        assert(record_present(b, i));
        assert(rs.flatten().subrange(12 * i, 12 * i + 12) == rs[i]);
        assert(b.subrange(8 + 12 * i, 20 + 12 * i) =~= rs.flatten().subrange(
            12 * i,
            12 * i + 12,
        ));
        assert(b.subrange(8 + 12 * i, 12 + 12 * i) =~= rs[i].subrange(0, 4));
        assert(b.subrange(16 + 12 * i, 20 + 12 * i) =~= rs[i].subrange(8, 12));
        assert(rs[i] == stats_record_bytes(recs[i].0, recs[i].1, recs[i].2));
        assert(rs[i].subrange(0, 4) =~= be4(recs[i].0));
        assert(rs[i].subrange(8, 12) =~= be4(recs[i].2));
        lemma_u32_be_inverse(recs[i].0);
        lemma_u32_be_inverse(recs[i].2);
    }
    if other_tid != tid {
        let b2 = scrape_response_bytes(ACTION_SCRAPE, other_tid, recs);
        assert(b2.subrange(4, 8) =~= be4(other_tid));
        lemma_u32_be_inverse(other_tid);
        assert(!scrape_header_ok(b2, tid));
    }
}

} // verus!
