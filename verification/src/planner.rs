//! Batch planner: partitions the run's identifier list into protocol-legal
//! batches, in input order, dropping (and reporting) malformed renderings.

use vstd::prelude::*;
use crate::codec::MAX_SCRAPE_HASHES;
use crate::identifier::{InfoHash, is_valid_hex_id, hex_bytes_of};

verus! {

/// An ordered group of identifiers bound for one server in one datagram.
pub struct ScrapeBatch {
    pub hashes: Vec<InfoHash>,
}

impl View for ScrapeBatch {
    type V = Seq<Seq<u8>>;

    open spec fn view(&self) -> Seq<Seq<u8>> {
        self.hashes@.map_values(|h: InfoHash| h@)
    }
}

impl ScrapeBatch {
    /// A batch is non-empty, within the protocol cap, and holds only
    /// well-formed identifiers.
    pub open spec fn wf(self) -> bool {
        1 <= self@.len() <= MAX_SCRAPE_HASHES && forall|i: int|
            0 <= i < self.hashes@.len() ==> (#[trigger] self.hashes@[i]).wf()
    }

    /// The number of identifiers in the batch.
    pub fn len(&self) -> (r: usize)
        ensures
            r == self@.len(),
    {
        self.hashes.len()
    }
}

/// The decoded identifiers of the syntactically valid renderings, in input
/// order.
pub open spec fn decoded_valid(ids: Seq<Seq<char>>) -> Seq<Seq<u8>>
    decreases ids.len(),
{
    if ids.len() == 0 {
        Seq::<Seq<u8>>::empty()
    } else {
        let r = decoded_valid(ids.drop_last());
        if is_valid_hex_id(ids.last()) {
            r.push(hex_bytes_of(ids.last()))
        } else {
            r
        }
    }
}

/// The input positions of the valid renderings, in input order: position
/// `j` of this sequence is the input line that valid identifier `j`
/// stems from.
pub open spec fn kept_of(ids: Seq<Seq<char>>) -> Seq<int>
    decreases ids.len(),
{
    if ids.len() == 0 {
        Seq::<int>::empty()
    } else {
        let r = kept_of(ids.drop_last());
        if is_valid_hex_id(ids.last()) {
            r.push(ids.len() - 1)
        } else {
            r
        }
    }
}

/// The input positions of the malformed renderings, in input order.
pub open spec fn skipped_of(ids: Seq<Seq<char>>) -> Seq<int>
    decreases ids.len(),
{
    if ids.len() == 0 {
        Seq::<int>::empty()
    } else {
        let r = skipped_of(ids.drop_last());
        if is_valid_hex_id(ids.last()) {
            r
        } else {
            r.push(ids.len() - 1)
        }
    }
}

/// Where batch `b` of a chunking with batch size `cap` ends in a list of
/// `n` identifiers.
pub open spec fn chunk_end(b: int, cap: int, n: int) -> int {
    if (b + 1) * cap <= n {
        (b + 1) * cap
    } else {
        n
    }
}

/// Partitions the valid identifiers of `ids`, in input order, into batches
/// of at most `cap`; malformed renderings are dropped and their positions
/// returned as skipped.  Batch `b` holds exactly the valid identifiers
/// numbered `b * cap` up to `chunk_end`, so the batches are disjoint and
/// cover exactly the valid input, in order (see `lemma_chunks_flatten`).
pub fn plan_batches(ids: &Vec<String>, cap: usize) -> (r: (Vec<ScrapeBatch>, Vec<usize>))
    requires
        1 <= cap <= MAX_SCRAPE_HASHES,
    ensures
        ({
            let valid = decoded_valid(ids.deep_view());
            &&& r.1@.map_values(|u: usize| u as int) == skipped_of(ids.deep_view())
            &&& r.0@.len() * cap >= valid.len()
            &&& r.0@.len() > 0 ==> (r.0@.len() - 1) * cap < valid.len()
            &&& forall|b: int|
                0 <= b < r.0@.len() ==> (#[trigger] r.0@[b])@ == valid.subrange(
                    b * cap,
                    chunk_end(b, cap as int, valid.len() as int),
                )
            &&& forall|b: int| 0 <= b < r.0@.len() ==> (#[trigger] r.0@[b])@.len() <= cap
            &&& forall|b: int| 0 <= b < r.0@.len() ==> (#[trigger] r.0@[b]).wf()
        }),
{
    let ghost idviews = ids.deep_view();
    let mut valid: Vec<InfoHash> = Vec::new();
    let mut skipped: Vec<usize> = Vec::new();
    let mut i: usize = 0;
    proof {
        assert(idviews.take(0) =~= Seq::<Seq<char>>::empty());
        assert(valid@.map_values(|h: InfoHash| h@) =~~= decoded_valid(idviews.take(0)));
        assert(skipped@.map_values(|u: usize| u as int) =~= skipped_of(idviews.take(0)));
    }
    while i < ids.len()
        invariant
            i <= ids@.len(),
            idviews == ids.deep_view(),
            idviews.len() == ids@.len(),
            valid@.map_values(|h: InfoHash| h@) == decoded_valid(idviews.take(i as int)),
            skipped@.map_values(|u: usize| u as int) == skipped_of(idviews.take(i as int)),
            forall|q: int| 0 <= q < valid@.len() ==> (#[trigger] valid@[q]).wf(),
        decreases ids@.len() - i,
    {
        proof {
            assert(idviews.take(i + 1).drop_last() =~= idviews.take(i as int));
            assert(idviews[i as int] == ids@[i as int]@);
        }
        match InfoHash::from_hex(ids[i].as_str()) {
            Some(h) => {
                valid.push(h);
                proof {
                    assert(valid@.map_values(|h: InfoHash| h@) =~~= decoded_valid(
                        idviews.take(i + 1),
                    ));
                }
            },
            None => {
                skipped.push(i);
                proof {
                    assert(skipped@.map_values(|u: usize| u as int) =~= skipped_of(
                        idviews.take(i + 1),
                    ));
                }
            },
        }
        i = i + 1;
    }
    proof {
        assert(idviews.take(ids@.len() as int) =~= idviews);
    }
    let ghost vviews = decoded_valid(idviews);
    let total: usize = valid.len();
    let mut batches: Vec<ScrapeBatch> = Vec::new();
    let mut start: usize = 0;
    proof {
        assert(batches@.len() == 0);
        assert(batches@.len() * cap == 0);
    }
    while start < total
        invariant
            1 <= cap <= MAX_SCRAPE_HASHES,
            total == valid@.len(),
            vviews == valid@.map_values(|h: InfoHash| h@),
            vviews.len() == total,
            forall|q: int| 0 <= q < valid@.len() ==> (#[trigger] valid@[q]).wf(),
            start <= total,
            start == if batches@.len() * cap <= total {
                (batches@.len() * cap) as int
            } else {
                total as int
            },
            batches@.len() > 0 ==> (batches@.len() - 1) * cap < total,
            forall|b: int|
                0 <= b < batches@.len() ==> (#[trigger] batches@[b])@ == vviews.subrange(
                    b * cap,
                    if (b + 1) * cap <= total {
                        (b + 1) * cap
                    } else {
                        total as int
                    },
                ),
            forall|b: int| 0 <= b < batches@.len() ==> (#[trigger] batches@[b]).wf(),
        decreases total - start,
    {
        let end: usize = if total - start < cap {
            total
        } else {
            start + cap
        };
        let mut bh: Vec<InfoHash> = Vec::new();
        let mut j: usize = start;
        while j < end
            invariant
                start <= j <= end <= total,
                total == valid@.len(),
                vviews == valid@.map_values(|h: InfoHash| h@),
                vviews.len() == total,
                forall|q: int| 0 <= q < valid@.len() ==> (#[trigger] valid@[q]).wf(),
                bh@.map_values(|h: InfoHash| h@) == vviews.subrange(start as int, j as int),
                forall|q: int| 0 <= q < bh@.len() ==> (#[trigger] bh@[q]).wf(),
            decreases end - j,
        {
            let h = valid[j].duplicate();
            proof {
                assert(vviews[j as int] == valid@.map_values(|h: InfoHash| h@)[j as int]);
                assert(h@ == vviews[j as int]);
            }
            let ghost bh0 = bh@;
            bh.push(h);
            proof {
                let f = |h: InfoHash| h@;
                assert(bh@ == bh0.push(h));
                assert(bh0.map_values(f) == vviews.subrange(start as int, j as int));
                assert(bh0.map_values(f).len() == bh0.len());
                assert(bh0.len() == j - start);
                assert forall|q: int| 0 <= q < bh@.len() implies bh@.map_values(f)[q]
                    == vviews.subrange(start as int, j + 1)[q] by {
                    assert(bh@.map_values(f)[q] == f(bh@[q]));
                    if q < bh0.len() {
                        assert(bh@[q] == bh0[q]);
                        assert(bh0.map_values(f)[q] == f(bh0[q]));
                        assert(vviews.subrange(start as int, j as int)[q] == vviews.subrange(
                            start as int,
                            j + 1,
                        )[q]);
                    } else {
                        assert(bh@[q] == h);
                    }
                }
                assert(bh@.map_values(f) =~~= vviews.subrange(start as int, j + 1));
            }
            j = j + 1;
        }
        let ghost nb = batches@.len();
        proof {
            assert(nb * cap <= total) by (nonlinear_arith)
                requires
                    start == if nb * cap <= total {
                        (nb * cap) as int
                    } else {
                        total as int
                    },
                    start < total,
            ;
            assert((nb + 1) * cap == nb * cap + cap) by (nonlinear_arith);
        }
        batches.push(ScrapeBatch { hashes: bh });
        proof {
            assert(batches@[nb as int]@ =~= vviews.subrange(
                nb * cap,
                if (nb + 1) * cap <= total {
                    (nb + 1) * cap
                } else {
                    total as int
                },
            ));
            assert(forall|b: int|
                0 <= b < nb ==> (#[trigger] batches@[b]) == batches@.drop_last()[b]);
        }
        start = end;
    }
    proof {
        let nb = batches@.len();
        if nb * cap <= total {
            assert(start == nb * cap);
        }
        assert(nb * cap >= total);
        assert forall|b: int| 0 <= b < batches@.len() implies (#[trigger] batches@[b])@.len()
            <= cap by {
            assert(b * cap >= 0 && (b + 1) * cap == b * cap + cap) by (nonlinear_arith)
                requires
                    b >= 0,
                    cap >= 1,
            ;
            assert(batches@[b]@ == vviews.subrange(
                b * cap,
                if (b + 1) * cap <= total {
                    (b + 1) * cap
                } else {
                    total as int
                },
            ));
            if (b + 1) * cap > total {
                assert(b * cap <= (batches@.len() - 1) * cap) by (nonlinear_arith)
                    requires
                        0 <= b <= batches@.len() - 1,
                        cap >= 1,
                ;
            }
        }
    }
    (batches, skipped)
}

/// The input positions whose renderings are valid, in input order;
/// position `j` of the result is the input line of valid identifier `j`,
/// so a caller can map batch slots back to input lines
/// (see `lemma_kept_positions`).
pub fn kept_positions(ids: &Vec<String>) -> (r: Vec<usize>)
    ensures
        r@.map_values(|u: usize| u as int) == kept_of(ids.deep_view()),
{
    let ghost idviews = ids.deep_view();
    let mut r: Vec<usize> = Vec::new();
    let mut i: usize = 0;
    proof {
        assert(idviews.take(0) =~= Seq::<Seq<char>>::empty());
        assert(r@.map_values(|u: usize| u as int) =~= kept_of(idviews.take(0)));
    }
    while i < ids.len()
        invariant
            i <= ids@.len(),
            idviews == ids.deep_view(),
            idviews.len() == ids@.len(),
            r@.map_values(|u: usize| u as int) == kept_of(idviews.take(i as int)),
        decreases ids@.len() - i,
    {
        proof {
            assert(idviews.take(i + 1).drop_last() =~= idviews.take(i as int));
            assert(idviews[i as int] == ids@[i as int]@);
        }
        if crate::identifier::is_valid_hex_id_exec(ids[i].as_str()) {
            r.push(i);
            proof {
                assert(r@.map_values(|u: usize| u as int) =~= kept_of(idviews.take(i + 1)));
            }
        }
        i = i + 1;
    }
    proof {
        assert(idviews.take(ids@.len() as int) =~= idviews);
    }
    r
}

/// Valid identifier `j` stems from input position `kept_of(ids)[j]`: the
/// kept positions line the decoded identifiers up with their input lines,
/// one to one and in order.
pub proof fn lemma_kept_positions(ids: Seq<Seq<char>>)
    ensures
        kept_of(ids).len() == decoded_valid(ids).len(),
        forall|j: int|
            0 <= j < kept_of(ids).len() ==> {
                &&& 0 <= #[trigger] kept_of(ids)[j] < ids.len()
                &&& is_valid_hex_id(ids[kept_of(ids)[j]])
                &&& decoded_valid(ids)[j] == hex_bytes_of(ids[kept_of(ids)[j]])
            },
    decreases ids.len(),
{
    if ids.len() > 0 {
        let front = ids.drop_last();
        lemma_kept_positions(front);
        assert forall|j: int| 0 <= j < kept_of(ids).len() implies {
            &&& 0 <= #[trigger] kept_of(ids)[j] < ids.len()
            &&& is_valid_hex_id(ids[kept_of(ids)[j]])
            &&& decoded_valid(ids)[j] == hex_bytes_of(ids[kept_of(ids)[j]])
        } by {
            if j < kept_of(front).len() {
                assert(kept_of(ids)[j] == kept_of(front)[j]);
                assert(decoded_valid(ids)[j] == decoded_valid(front)[j]);
                assert(front[kept_of(front)[j]] == ids[kept_of(front)[j]]);
            } else {
                assert(is_valid_hex_id(ids.last()));
                assert(kept_of(ids)[j] == ids.len() - 1);
                assert(decoded_valid(ids)[j] == hex_bytes_of(ids.last()));
            }
        }
    }
}

/// The chunks of a planned run are disjoint and cover exactly the valid
/// identifiers, in order: flattening the batch contents yields the valid
/// input back.
pub proof fn lemma_chunks_flatten(views: Seq<Seq<Seq<u8>>>, valid: Seq<Seq<u8>>, cap: int)
    requires
        cap >= 1,
        views.len() * cap >= valid.len(),
        views.len() > 0 ==> (views.len() - 1) * cap < valid.len(),
        forall|b: int|
            0 <= b < views.len() ==> #[trigger] views[b] == valid.subrange(
                b * cap,
                chunk_end(b, cap, valid.len() as int),
            ),
    ensures
        views.flatten() == valid,
    decreases views.len(),
{
    if views.len() == 0 {
        assert(views.flatten() =~= Seq::<Seq<u8>>::empty());
        assert(valid.len() == 0);
        assert(views.flatten() =~= valid);
    } else {
        let n = views.len() as int;
        assert((n - 1) * cap >= 0) by (nonlinear_arith)
            requires
                n >= 1,
                cap >= 1,
        ;
        let prev = (n - 1) * cap;
        let front = views.drop_last();
        let vfront = valid.take(prev);
        assert(n * cap == (n - 1) * cap + cap) by (nonlinear_arith);
        if n >= 2 {
            assert((n - 2) * cap < (n - 1) * cap) by (nonlinear_arith)
                requires
                    cap >= 1,
                    n >= 2,
            ;
        }
        assert forall|b: int|
            0 <= b < front.len() implies #[trigger] front[b] == vfront.subrange(
            b * cap,
            chunk_end(b, cap, vfront.len() as int),
        ) by {
            assert((b + 1) * cap <= (n - 1) * cap) by (nonlinear_arith)
                requires
                    0 <= b + 1 <= n - 1,
                    cap >= 1,
            ;
            assert(b * cap >= 0) by (nonlinear_arith)
                requires
                    b >= 0,
                    cap >= 1,
            ;
            assert((b + 1) * cap == b * cap + cap) by (nonlinear_arith);
            assert(front[b] == views[b]);
            assert(chunk_end(b, cap, valid.len() as int) == (b + 1) * cap);
            assert(chunk_end(b, cap, vfront.len() as int) == (b + 1) * cap);
            assert(vfront.subrange(b * cap, (b + 1) * cap) =~= valid.subrange(
                b * cap,
                (b + 1) * cap,
            ));
        }
        lemma_chunks_flatten(front, vfront, cap);
        views.lemma_flatten_and_flatten_alt_are_equivalent();
        front.lemma_flatten_and_flatten_alt_are_equivalent();
        assert(views.flatten_alt() == front.flatten_alt() + views.last());
        assert(views[n - 1] == valid.subrange(prev, chunk_end(n - 1, cap, valid.len() as int)));
        assert(chunk_end(n - 1, cap, valid.len() as int) == valid.len());
        assert(vfront + valid.subrange(prev, valid.len() as int) =~= valid);
    }
}

} // verus!
