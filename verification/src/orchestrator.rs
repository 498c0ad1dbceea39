//! Fan-out plan and run configuration: the cross product of batches and
//! servers, executed elsewhere under a concurrency ceiling, and the
//! configuration checks that stop a run before it starts.

use vstd::prelude::*;
use vstd::arithmetic::div_mod::{lemma_fundamental_div_mod, lemma_fundamental_div_mod_converse};
use crate::codec::MAX_SCRAPE_HASHES;

verus! {

/// Default identifiers per batch.
pub const DEFAULT_BATCH_SIZE: usize = 50;

/// Default ceiling on concurrently running units of work.
pub const DEFAULT_CONCURRENCY: usize = 10;

/// Default per-session timeout in seconds.
pub const DEFAULT_TIMEOUT_SECS: u64 = 5;

/// Configuration errors; the only errors that stop a run before it starts.
#[derive(Clone, Copy, Debug, PartialEq, Eq, Structural)]
pub enum ConfigError {
    /// No tracking server is configured.
    NoServers,
    /// The batch size is zero or exceeds the protocol cap.
    BatchSizeOutOfRange,
    /// The concurrency ceiling is zero, so no unit could ever run.
    ZeroConcurrency,
}

/// Process-wide, static-for-a-run configuration.
pub struct Config {
    pub servers: Vec<String>,
    pub batch_size: usize,
    pub concurrency: usize,
    pub timeout_secs: u64,
}

impl Config {
    /// A usable configuration: at least one server, a batch size within
    /// the protocol cap, and a positive concurrency ceiling.
    pub open spec fn wf(self) -> bool {
        self.servers@.len() >= 1 && 1 <= self.batch_size <= MAX_SCRAPE_HASHES
            && self.concurrency >= 1
    }

    /// Validates a configuration; each error names exactly the first
    /// check that fails, and success keeps the inputs unchanged.
    pub fn new(servers: Vec<String>, batch_size: usize, concurrency: usize, timeout_secs: u64) -> (r:
        Result<Config, ConfigError>)
        ensures
            match r {
                Ok(c) => servers@.len() >= 1 && 1 <= batch_size <= MAX_SCRAPE_HASHES
                    && concurrency >= 1 && c.servers == servers && c.batch_size == batch_size
                    && c.concurrency == concurrency && c.timeout_secs == timeout_secs && c.wf(),
                Err(e) => match e {
                    ConfigError::NoServers => servers@.len() == 0,
                    ConfigError::BatchSizeOutOfRange => servers@.len() >= 1 && !(1 <= batch_size
                        <= MAX_SCRAPE_HASHES),
                    ConfigError::ZeroConcurrency => servers@.len() >= 1 && 1 <= batch_size
                        <= MAX_SCRAPE_HASHES && concurrency == 0,
                },
            },
    {
        if servers.len() == 0 {
            return Err(ConfigError::NoServers);
        }
        if batch_size == 0 || batch_size > MAX_SCRAPE_HASHES {
            return Err(ConfigError::BatchSizeOutOfRange);
        }
        if concurrency == 0 {
            return Err(ConfigError::ZeroConcurrency);
        }
        Ok(Config { servers, batch_size, concurrency, timeout_secs })
    }
}

/// The full cross product of batches and servers, as (batch, server) index
/// pairs in a fixed order: entry `u` is `(u / n_servers, u % n_servers)`,
/// so every pair occurs exactly once.
pub fn session_plan(n_batches: usize, n_servers: usize) -> (r: Vec<(usize, usize)>)
    requires
        n_servers >= 1,
        n_batches * n_servers <= usize::MAX,
    ensures
        r@.len() == n_batches * n_servers,
        forall|u: int|
            0 <= u < r@.len() ==> #[trigger] r@[u] == (
                ((u / n_servers as int) as usize),
                ((u % n_servers as int) as usize),
            ),
{
    let total: usize = n_batches * n_servers;
    let mut r: Vec<(usize, usize)> = Vec::new();
    let mut u: usize = 0;
    while u < total
        invariant
            u <= total,
            n_servers >= 1,
            r@.len() == u,
            forall|q: int|
                0 <= q < u ==> #[trigger] r@[q] == (
                    ((q / n_servers as int) as usize),
                    ((q % n_servers as int) as usize),
                ),
        decreases total - u,
    {
        r.push((u / n_servers, u % n_servers));
        u = u + 1;
    }
    r
}

/// Every (batch, server) pair is attempted exactly once: pair `(b, s)`
/// stands at index `b * n_servers + s` of the plan, and at no other.
pub proof fn lemma_session_plan_covers(n_batches: int, n_servers: int, b: int, s: int)
    requires
        n_servers >= 1,
        0 <= b < n_batches,
        0 <= s < n_servers,
    ensures
        0 <= b * n_servers + s < n_batches * n_servers,
        (b * n_servers + s) / n_servers == b,
        (b * n_servers + s) % n_servers == s,
        forall|u: int|
            0 <= u < n_batches * n_servers && #[trigger] (u / n_servers) == b && u % n_servers
                == s ==> u == b * n_servers + s,
{
    let u0 = b * n_servers + s;
    assert(0 <= b * n_servers + s < n_batches * n_servers) by (nonlinear_arith)
        requires
            0 <= b < n_batches,
            0 <= s < n_servers,
            n_servers >= 1,
    ;
    lemma_fundamental_div_mod_converse(u0, n_servers, b, s);
    assert forall|u: int|
        0 <= u < n_batches * n_servers && #[trigger] (u / n_servers) == b && u % n_servers
            == s implies u == u0 by {
        lemma_fundamental_div_mod(u, n_servers);
        assert(n_servers * b == b * n_servers) by (nonlinear_arith);
    }
}

} // verus!
