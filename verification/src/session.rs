//! Endpoint session steps: one handshake-then-scrape exchange against one
//! server for one batch.  The datagram I/O itself lives outside the
//! library; these functions build each request and interpret each response,
//! so a timeout or a malformed reply degrades to "no answer", never a
//! panic.

use vstd::prelude::*;
use crate::codec::{
    connect_request_bytes, encode_connect_request, parse_connect_response,
    decode_connect_response, scrape_request_bytes, parse_scrape_response, decode_scrape_response,
    push_u64_be, push_u32_be, be8, be4, TorrentStats, ACTION_SCRAPE,
};
use crate::planner::ScrapeBatch;

verus! {

/// Relies on rand::random::<u32>: a transaction id drawn fresh from the
/// thread-local generator; nothing is assumed about its value.
#[verifier::external_body]
fn random_u32() -> u32 {
    rand::random::<u32>()
}

/// Opens the handshake: a fresh transaction id and the connect request
/// carrying it.
pub fn begin_connect() -> (r: (Vec<u8>, u32))
    ensures
        r.0@ == connect_request_bytes(r.1),
        r.0@.len() == 16,
{
    let tid = random_u32();
    (encode_connect_request(tid), tid)
}

/// Validates a connect response against the transaction id that was sent
/// and extracts the connection token; anything else is no answer.
pub fn read_token(buf: &Vec<u8>, tid: u32) -> (r: Option<u64>)
    ensures
        r == parse_connect_response(buf@, tid),
{
    decode_connect_response(buf, tid)
}

/// Builds the scrape request for one batch under a fresh transaction id:
/// connection token, scrape action, transaction id, then the batch's
/// identifiers in order.
pub fn begin_scrape(token: u64, batch: &ScrapeBatch) -> (r: (Vec<u8>, u32))
    requires
        batch.wf(),
    ensures
        r.0@ == scrape_request_bytes(token, r.1, batch@),
        r.0@.len() == 16 + 20 * batch@.len(),
{
    let tid = random_u32();
    let ghost prefix: Seq<u8> = be8(token) + be4(ACTION_SCRAPE) + be4(tid);
    let mut out: Vec<u8> = Vec::new();
    push_u64_be(&mut out, token);
    push_u32_be(&mut out, ACTION_SCRAPE);
    push_u32_be(&mut out, tid);
    proof {
        broadcast use Seq::lemma_flatten_push;

        assert(out@ =~= prefix + batch@.subrange(0, 0).flatten());
        assert(batch@.subrange(0, 0).flatten() =~= Seq::<u8>::empty());
    }
    let mut i: usize = 0;
    while i < batch.hashes.len()
        invariant
            batch.wf(),
            i <= batch.hashes@.len(),
            batch@.len() == batch.hashes@.len(),
            out@ == prefix + batch@.subrange(0, i as int).flatten(),
            out@.len() == 16 + 20 * i,
        decreases batch.hashes@.len() - i,
    {
        let hb = batch.hashes[i].as_bytes();
        let ghost out0 = out@;
        let n: usize = hb.len();
        proof {
            assert(batch.hashes@[i as int].wf());
            assert(hb@ == batch@[i as int]);
        }
        let mut k: usize = 0;
        while k < n
            invariant
                k <= n,
                n == hb@.len(),
                out@ == out0 + hb@.take(k as int),
            decreases n - k,
        {
            out.push(hb[k]);
            proof {
                assert(out@ =~= out0 + hb@.take(k + 1));
            }
            k = k + 1;
        }
        proof {
            broadcast use Seq::lemma_flatten_push;

            assert(hb@.take(n as int) =~= hb@);
            assert(batch@.subrange(0, i + 1) =~= batch@.subrange(0, i as int).push(
                batch@[i as int],
            ));
            assert(out@ =~= prefix + batch@.subrange(0, i + 1).flatten());
        }
        i = i + 1;
    }
    proof {
        assert(batch@.subrange(0, batch@.len() as int) =~= batch@);
    }
    (out, tid)
}

/// Decodes the scrape response positionally against the batch: entry `i`
/// is the observation for the batch's identifier `i`, absent when the
/// header is invalid or the record's bytes did not arrive.
pub fn read_observations(buf: &Vec<u8>, tid: u32, batch: &ScrapeBatch) -> (r: Vec<
    Option<TorrentStats>,
>)
    requires
        batch.wf(),
    ensures
        r@ == parse_scrape_response(buf@, tid, batch@.len()),
        r@.len() == batch@.len(),
{
    decode_scrape_response(buf, tid, batch.len())
}

} // verus!
