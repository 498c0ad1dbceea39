use tracker_scrape::aggregate::{classify, classify_batch, Progress, Verdict};
use tracker_scrape::codec::{
    decode_connect_response, decode_scrape_response, encode_connect_request,
    encode_scrape_response, TorrentStats,
};
use tracker_scrape::orchestrator::{session_plan, Config, ConfigError};
use tracker_scrape::planner::{kept_positions, plan_batches};
use tracker_scrape::session::{begin_connect, begin_scrape, read_observations, read_token};

fn hex_ids(n: usize) -> Vec<String> {
    (0..n).map(|i| format!("{:040x}", i)).collect()
}

#[test]
fn connect_request_layout() {
    let req = encode_connect_request(0x01020304);
    assert_eq!(req.len(), 16);
    assert_eq!(&req[0..8], &[0x00, 0x00, 0x04, 0x17, 0x27, 0x10, 0x19, 0x80]);
    assert_eq!(&req[8..12], &[0, 0, 0, 0]);
    assert_eq!(&req[12..16], &[1, 2, 3, 4]);
}

#[test]
fn connect_response_round_trip() {
    let tid: u32 = 0xDEADBEEF;
    let token: u64 = 0x1122334455667788;
    let mut resp = Vec::new();
    resp.extend_from_slice(&0u32.to_be_bytes());
    resp.extend_from_slice(&tid.to_be_bytes());
    resp.extend_from_slice(&token.to_be_bytes());
    assert_eq!(decode_connect_response(&resp, tid), Some(token));
    // mismatched transaction id is no answer
    assert_eq!(decode_connect_response(&resp, tid.wrapping_add(1)), None);
    // wrong action is no answer
    let mut bad = resp.clone();
    bad[3] = 1;
    assert_eq!(decode_connect_response(&bad, tid), None);
    // truncated below 16 bytes is no answer, not a panic
    let short = resp[0..15].to_vec();
    assert_eq!(decode_connect_response(&short, tid), None);
}

#[test]
fn scrape_response_round_trip() {
    let tid: u32 = 7;
    let recs = vec![(5u32, 9u32, 2u32), (0, 0, 0)];
    let resp = encode_scrape_response(2, tid, &recs);
    let out = decode_scrape_response(&resp, tid, 2);
    assert_eq!(
        out,
        vec![
            Some(TorrentStats { seeders: 5, leechers: 2 }),
            Some(TorrentStats { seeders: 0, leechers: 0 }),
        ]
    );
    // a record whose bytes did not arrive is absent, not zero
    let out3 = decode_scrape_response(&resp, tid, 3);
    assert_eq!(out3[2], None);
    // mismatched transaction id drops everything
    let out_bad = decode_scrape_response(&resp, tid + 1, 2);
    assert_eq!(out_bad, vec![None, None]);
    // truncated mid-record omits the broken record
    let cut = resp[0..8 + 12 + 5].to_vec();
    let out_cut = decode_scrape_response(&cut, tid, 2);
    assert_eq!(out_cut[0], Some(TorrentStats { seeders: 5, leechers: 2 }));
    assert_eq!(out_cut[1], None);
}

#[test]
fn session_builds_wire_requests() {
    let (req, tid) = begin_connect();
    assert_eq!(req.len(), 16);
    assert_eq!(&req[12..16], &tid.to_be_bytes());
    assert_eq!(read_token(&req, tid), None); // a request is no valid response

    let ids = hex_ids(3);
    let (batches, skipped) = plan_batches(&ids, 50);
    assert!(skipped.is_empty());
    let token: u64 = 0xAABBCCDD00112233;
    let (sreq, stid) = begin_scrape(token, &batches[0]);
    assert_eq!(sreq.len(), 16 + 20 * 3);
    assert_eq!(&sreq[0..8], &token.to_be_bytes());
    assert_eq!(&sreq[8..12], &[0, 0, 0, 2]);
    assert_eq!(&sreq[12..16], &stid.to_be_bytes());
    // identifiers follow in batch order
    assert_eq!(&sreq[16..36], &batches[0].hashes[0].as_bytes()[..]);

    let resp = encode_scrape_response(2, stid, &vec![(1, 0, 0), (0, 0, 0), (3, 0, 4)]);
    let obs = read_observations(&resp, stid, &batches[0]);
    assert_eq!(obs.len(), 3);
    assert_eq!(obs[2], Some(TorrentStats { seeders: 3, leechers: 4 }));
}

#[test]
fn planner_covers_valid_ids_in_order() {
    // the 130-identifier scenario: batches of 50, 50, 30
    let ids = hex_ids(130);
    let (batches, skipped) = plan_batches(&ids, 50);
    assert!(skipped.is_empty());
    assert_eq!(batches.len(), 3);
    assert_eq!(batches[0].hashes.len(), 50);
    assert_eq!(batches[1].hashes.len(), 50);
    assert_eq!(batches[2].hashes.len(), 30);
    // disjoint cover in input order
    let mut seen = Vec::new();
    for b in &batches {
        for h in &b.hashes {
            seen.push(h.to_hex());
        }
    }
    assert_eq!(seen, ids);
}

#[test]
fn planner_skips_malformed_ids() {
    let mut ids = hex_ids(4);
    ids.insert(1, "not-hex".to_string());
    ids.insert(3, "abc123".to_string()); // too short
    let (batches, skipped) = plan_batches(&ids, 2);
    assert_eq!(skipped, vec![1, 3]);
    assert_eq!(batches.len(), 2);
    assert_eq!(batches[0].hashes.len(), 2);
    assert_eq!(batches[1].hashes.len(), 2);
    let kept: Vec<String> = batches
        .iter()
        .flat_map(|b| b.hashes.iter().map(|h| h.to_hex()))
        .collect();
    assert_eq!(kept, hex_ids(4));
    // valid identifier j stems from input position kept_positions[j]
    let positions = kept_positions(&ids);
    assert_eq!(positions, vec![0, 2, 4, 5]);
    for (j, p) in positions.iter().enumerate() {
        assert_eq!(kept[j], ids[*p]);
    }
}

#[test]
fn orchestrator_issues_full_cross_product() {
    // 3 batches x 3 servers -> 9 sessions, each pair exactly once
    let plan = session_plan(3, 3);
    assert_eq!(plan.len(), 9);
    for b in 0..3 {
        for s in 0..3 {
            assert_eq!(plan.iter().filter(|p| **p == (b, s)).count(), 1);
        }
    }
}

#[test]
fn verdict_failed_when_all_absent() {
    let obs = vec![None, None, None];
    assert_eq!(classify(&obs), Verdict::Failed);
}

#[test]
fn verdict_dead_when_all_answers_zero() {
    let obs = vec![
        Some(TorrentStats { seeders: 0, leechers: 0 }),
        None,
        Some(TorrentStats { seeders: 0, leechers: 0 }),
    ];
    assert_eq!(classify(&obs), Verdict::Dead);
}

#[test]
fn verdict_alive_takes_maxima() {
    // server A answers (5,2), B times out, C answers (0,0)
    let obs = vec![
        Some(TorrentStats { seeders: 5, leechers: 2 }),
        None,
        Some(TorrentStats { seeders: 0, leechers: 0 }),
    ];
    assert_eq!(classify(&obs), Verdict::Alive { seeders: 5, leechers: 2 });
    // more evidence never lowers the maxima
    let mut more = obs.clone();
    more.push(Some(TorrentStats { seeders: 7, leechers: 1 }));
    assert_eq!(classify(&more), Verdict::Alive { seeders: 7, leechers: 2 });
}

#[test]
fn verdict_order_independent() {
    let a = Some(TorrentStats { seeders: 5, leechers: 2 });
    let c = Some(TorrentStats { seeders: 0, leechers: 7 });
    let perms = vec![
        vec![a, None, c],
        vec![a, c, None],
        vec![None, a, c],
        vec![None, c, a],
        vec![c, a, None],
        vec![c, None, a],
    ];
    for p in &perms {
        assert_eq!(classify(p), Verdict::Alive { seeders: 5, leechers: 7 });
    }
}

#[test]
fn batch_classification_is_positional() {
    // three servers' positional rows for a batch of two identifiers
    let rows = vec![
        vec![Some(TorrentStats { seeders: 5, leechers: 2 }), None],
        vec![None, None],
        vec![Some(TorrentStats { seeders: 0, leechers: 0 }), None],
    ];
    let verdicts = classify_batch(&rows, 2);
    assert_eq!(verdicts[0], Verdict::Alive { seeders: 5, leechers: 2 });
    assert_eq!(verdicts[1], Verdict::Failed);
}

#[test]
fn progress_counts_each_outcome() {
    let mut p = Progress::new();
    p.record(&Verdict::Alive { seeders: 1, leechers: 0 });
    p.record(&Verdict::Dead);
    p.record(&Verdict::Failed);
    p.record(&Verdict::Failed);
    assert_eq!(p.processed, 4);
    assert_eq!(p.alive, 1);
    assert_eq!(p.dead, 1);
    assert_eq!(p.failed, 2);
}

#[test]
fn config_rejects_unusable_runs() {
    assert_eq!(
        Config::new(Vec::new(), 50, 10, 5).err(),
        Some(ConfigError::NoServers)
    );
    let servers = vec!["tracker.example:1337".to_string()];
    assert_eq!(
        Config::new(servers.clone(), 75, 10, 5).err(),
        Some(ConfigError::BatchSizeOutOfRange)
    );
    assert_eq!(
        Config::new(servers.clone(), 0, 10, 5).err(),
        Some(ConfigError::BatchSizeOutOfRange)
    );
    assert_eq!(
        Config::new(servers.clone(), 50, 0, 5).err(),
        Some(ConfigError::ZeroConcurrency)
    );
    let c = Config::new(servers, 50, 10, 5).ok().unwrap();
    assert_eq!(c.batch_size, 50);
    assert_eq!(c.concurrency, 10);
    assert_eq!(c.timeout_secs, 5);
    assert_eq!(c.servers.len(), 1);
}

#[test]
fn end_to_end_verdicts_for_one_identifier() {
    // 3 servers, 130 identifiers, batch size 50: the planner yields 3
    // batches and the orchestrator 9 sessions; identifier H is the first
    // of the first batch.
    let ids = hex_ids(130);
    let (batches, _) = plan_batches(&ids, 50);
    let plan = session_plan(batches.len(), 3);
    assert_eq!(plan.len(), 9);
    let batch = &batches[0];
    let k = batch.hashes.len();

    // server A answers (5,2) for H, server B times out, server C answers (0,0)
    let recs_a: Vec<(u32, u32, u32)> = (0..k).map(|i| if i == 0 { (5, 0, 2) } else { (0, 0, 0) }).collect();
    let recs_c: Vec<(u32, u32, u32)> = (0..k).map(|_| (0, 0, 0)).collect();
    let (_, tid_a) = begin_scrape(1, batch);
    let resp_a = encode_scrape_response(2, tid_a, &recs_a);
    let obs_a = read_observations(&resp_a, tid_a, batch);
    let obs_b: Vec<Option<TorrentStats>> = vec![None; k]; // timeout: no answer
    let (_, tid_c) = begin_scrape(2, batch);
    let resp_c = encode_scrape_response(2, tid_c, &recs_c);
    let obs_c = read_observations(&resp_c, tid_c, batch);

    let rows = vec![obs_a, obs_b, obs_c.clone()];
    let verdicts = classify_batch(&rows, k);
    assert_eq!(verdicts[0], Verdict::Alive { seeders: 5, leechers: 2 });

    // no server answers for H at all
    let silent = vec![vec![None; k], vec![None; k], vec![None; k]];
    let verdicts2 = classify_batch(&silent, k);
    assert_eq!(verdicts2[0], Verdict::Failed);

    // all three answer (0,0) for H
    let zero_rows = vec![obs_c.clone(), obs_c.clone(), obs_c];
    let verdicts3 = classify_batch(&zero_rows, k);
    assert_eq!(verdicts3[0], Verdict::Dead);
}
