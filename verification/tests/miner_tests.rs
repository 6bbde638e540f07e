use burst_miner::miner::{
    has_new_signature, record_submit, scan_plot_data, scan_window, should_submit, Best, MinerWork,
    SubmitSession,
};
use burst_miner::plots::Plot;
use burst_miner::pool::MiningInfo;
use shabal::{Digest, Shabal256};

fn info(sig: &str, height: u64, base_target: u64, target_deadline: u64) -> MiningInfo {
    MiningInfo {
        generation_signature: sig.to_string(),
        base_target,
        request_processing_time: 0,
        height,
        target_deadline,
    }
}

fn reference_scoop_num(sig_bytes: &[u8; 32], height: u64) -> u16 {
    let mut prefix = Vec::new();
    prefix.extend_from_slice(sig_bytes);
    prefix.extend_from_slice(&height.to_be_bytes());
    let digest = Shabal256::digest(&prefix);
    (u16::from_be_bytes([digest[30], digest[31]])) % 4096
}

fn reference_score(prefix32: &[u8], scoop: &[u8]) -> u64 {
    let mut buf = Vec::new();
    buf.extend_from_slice(prefix32);
    buf.extend_from_slice(scoop);
    let digest = Shabal256::digest(&buf);
    u64::from_le_bytes([
        digest[0], digest[1], digest[2], digest[3], digest[4], digest[5], digest[6], digest[7],
    ])
}

#[test]
fn derive_work_matches_reference_scoop_formula() {
    // The all-zero signature at height 1, as a known round.
    let m = info(&"00".repeat(32), 1, 18325193796, 31536000);
    let work = MinerWork::from_mining_info(&m).unwrap();
    assert_eq!(work.scoop_num, reference_scoop_num(&[0u8; 32], 1));
    assert!(work.scoop_num < 4096);
    assert_eq!(work.height, 1);
    assert_eq!(work.base_target, 18325193796);
    assert_eq!(work.target_deadline, 31536000);
    assert_eq!(&work.hasher[..], &[0u8; 96][..]);

    // A non-trivial signature.
    let sig: Vec<u8> = (0..32).map(|i| (i * 7 + 3) as u8).collect();
    let sig_hex: String = sig.iter().map(|b| format!("{:02x}", b)).collect();
    let m2 = info(&sig_hex, 500_000, 1, 86400);
    let w2 = MinerWork::from_mining_info(&m2).unwrap();
    let mut sig_arr = [0u8; 32];
    sig_arr.copy_from_slice(&sig);
    assert_eq!(w2.scoop_num, reference_scoop_num(&sig_arr, 500_000));
    assert_eq!(&w2.hasher[..32], &sig[..]);
    assert_eq!(&w2.hasher[32..], &[0u8; 64][..]);
}

#[test]
fn derive_work_rejects_bad_hex() {
    let m = info("zz", 1, 1, 1);
    assert!(MinerWork::from_mining_info(&m).is_err());
    let m2 = info("00f", 1, 1, 1);
    assert!(MinerWork::from_mining_info(&m2).is_err());
}

#[test]
fn scan_window_finds_minimum_score() {
    let prefix: Vec<u8> = (0..32).map(|i| i as u8).collect();
    // Four nonces, each scoop filled with a distinct byte.
    let mut window = Vec::new();
    for n in 0..4u8 {
        window.extend_from_slice(&[n.wrapping_mul(37).wrapping_add(11); 64]);
    }
    let mut best: Option<Best> = None;
    scan_window(&prefix, &window, 100, 1234, &mut best);
    let best = best.unwrap();

    let mut expect: Option<Best> = None;
    for n in 0..4usize {
        let score = reference_score(&prefix, &window[n * 64..(n + 1) * 64]);
        match expect {
            Some(e) if e.score <= score => {}
            _ => {
                expect = Some(Best {
                    score,
                    nonce: 100 + n as u64,
                    account_id: 1234,
                })
            }
        }
    }
    assert_eq!(best, expect.unwrap());
}

#[test]
fn scan_window_keeps_earliest_on_ties() {
    let prefix = [5u8; 32];
    // Two identical scoops: the tie must keep the earlier nonce.
    let mut window = Vec::new();
    window.extend_from_slice(&[9u8; 64]);
    window.extend_from_slice(&[9u8; 64]);
    let mut best: Option<Best> = None;
    scan_window(&prefix, &window, 7, 1, &mut best);
    assert_eq!(best.unwrap().nonce, 7);
}

#[test]
fn scan_window_respects_existing_best() {
    let prefix = [5u8; 32];
    let window = [3u8; 64];
    let unbeatable = Some(Best {
        score: 0,
        nonce: 42,
        account_id: 9,
    });
    let mut best = unbeatable;
    scan_window(&prefix, &window, 100, 1, &mut best);
    assert_eq!(best, unbeatable);
}

fn synthetic_plot_data(nonce_count: u64) -> Vec<u8> {
    let len = (nonce_count * 4096 * 64) as usize;
    let mut data = vec![0u8; len];
    for (i, b) in data.iter_mut().enumerate() {
        *b = (i % 251) as u8;
    }
    data
}

fn brute_force_best(work: &MinerWork, plot: &Plot, data: &[u8], staggers: u64) -> Option<Best> {
    let mut expect: Option<Best> = None;
    for k in 0..staggers {
        let base = k * 4096 * 64 * plot.stagger_size + work.scoop_num as u64 * plot.stagger_size * 64;
        for i in 0..plot.stagger_size {
            let off = (base + i * 64) as usize;
            let score = reference_score(&work.hasher[..32], &data[off..off + 64]);
            let nonce = plot.start_nonce + k * plot.stagger_size + i;
            match expect {
                Some(e) if e.score <= score => {}
                _ => {
                    expect = Some(Best {
                        score,
                        nonce,
                        account_id: plot.account_id,
                    })
                }
            }
        }
    }
    expect
}

#[test]
fn scan_plot_single_stagger_completes() {
    // stagger_size == nonce_count: exactly one stagger block.
    let plot = Plot {
        path: "1234_0_8_8".to_string(),
        account_id: 1234,
        start_nonce: 0,
        nonce_count: 8,
        stagger_size: 8,
    };
    let data = synthetic_plot_data(8);
    assert_eq!(data.len(), 2 * 1024 * 1024);
    let m = info(&"00".repeat(32), 1, 18325193796, 31536000);
    let work = MinerWork::from_mining_info(&m).unwrap();
    let mut best: Option<Best> = None;
    let completed = scan_plot_data(&work, &plot, &data, &mut best);
    assert!(completed);
    let expect = brute_force_best(&work, &plot, &data, 1);
    assert_eq!(best, expect);
    assert_eq!(best.unwrap().account_id, 1234);
    // Whether this best is worth submitting is exactly the deadline test.
    let under_cap = (best.unwrap().score as u128)
        < work.target_deadline as u128 * work.base_target as u128;
    assert_eq!(should_submit(&best, &None, &work), under_cap);
}

#[test]
fn scan_plot_multiple_staggers() {
    let plot = Plot {
        path: "77_16_8_4".to_string(),
        account_id: 77,
        start_nonce: 16,
        nonce_count: 8,
        stagger_size: 4,
    };
    let data = synthetic_plot_data(8);
    let m = info(&"ab".repeat(32), 42, 1, 1);
    let work = MinerWork::from_mining_info(&m).unwrap();
    let mut best: Option<Best> = None;
    let completed = scan_plot_data(&work, &plot, &data, &mut best);
    assert!(completed);
    let expect = brute_force_best(&work, &plot, &data, 2);
    assert_eq!(best, expect);
    let b = best.unwrap();
    assert!(b.nonce >= 16 && b.nonce < 24);
}

#[test]
fn scan_plot_short_file_skips_remainder() {
    let plot = Plot {
        path: "77_16_8_4".to_string(),
        account_id: 77,
        start_nonce: 16,
        nonce_count: 8,
        stagger_size: 4,
    };
    // Only the first stagger block fits.
    let full = synthetic_plot_data(8);
    let data = &full[..full.len() / 2];
    let m = info(&"ab".repeat(32), 42, 1, 1);
    let work = MinerWork::from_mining_info(&m).unwrap();
    let mut best: Option<Best> = None;
    let completed = scan_plot_data(&work, &plot, data, &mut best);
    assert!(!completed);
    let expect = brute_force_best(&work, &plot, data, 1);
    assert_eq!(best, expect);

    // A file too short for anything yields no best at all.
    let mut none_best: Option<Best> = None;
    let completed2 = scan_plot_data(&work, &plot, &data[..100], &mut none_best);
    assert!(!completed2);
    assert!(none_best.is_none());
}

#[test]
fn new_signature_preempts_at_check_point() {
    let m_a = info(&"00".repeat(32), 1, 1, 1);
    let work_a = MinerWork::from_mining_info(&m_a).unwrap();
    let m_b = info(&"11".repeat(32), 2, 1, 1);
    let work_b = MinerWork::from_mining_info(&m_b).unwrap();

    // Nothing pending: the scan goes on.
    let mut next: Option<MinerWork> = None;
    assert!(!has_new_signature(None, &mut next));
    assert!(next.is_none());

    // Round B arrives: the worker must drop round A's scan and adopt B.
    assert!(has_new_signature(Some(work_b), &mut next));
    let adopted = next.unwrap();
    assert_eq!(adopted.height, 2);
    assert_eq!(adopted.hasher[0], 0x11);
    assert_eq!(work_a.hasher[0], 0x00);
}

#[test]
fn should_submit_gates_on_deadline_and_duplicates() {
    let m = info(&"00".repeat(32), 1, 10, 10);
    let work = MinerWork::from_mining_info(&m).unwrap();
    let best = Some(Best {
        score: 99,
        nonce: 5,
        account_id: 1,
    });
    // 99 < 10 * 10: worth submitting, not yet submitted.
    assert!(should_submit(&best, &None, &work));
    // The same nonce was already submitted: suppressed.
    assert!(!should_submit(&best, &Some(5), &work));
    // A different previous submission does not suppress.
    assert!(should_submit(&best, &Some(4), &work));
    // On the cap is not under it.
    let at_cap = Some(Best {
        score: 100,
        nonce: 5,
        account_id: 1,
    });
    assert!(!should_submit(&at_cap, &None, &work));
    // No best yet: nothing to submit.
    assert!(!should_submit(&None, &None, &work));
}

#[test]
fn submit_retry_stops_at_first_success() {
    // The pool fails twice, then accepts: exactly three attempts, and the
    // record is updated only by the success.
    let outcomes = [false, false, true];
    let mut last_submit: Option<u64> = None;
    let mut session = SubmitSession::begin();
    let mut attempts = 0;
    let mut idx = 0;
    while session.wants_attempt() {
        let ok = outcomes[idx];
        idx += 1;
        attempts += 1;
        session.on_result(ok);
        if !ok {
            assert!(last_submit.is_none());
        }
        record_submit(&mut last_submit, 5, ok);
    }
    assert_eq!(attempts, 3);
    assert_eq!(last_submit, Some(5));
}

#[test]
fn submit_retry_gives_up_after_three_failures() {
    let mut last_submit: Option<u64> = Some(3);
    let mut session = SubmitSession::begin();
    let mut attempts = 0;
    while session.wants_attempt() {
        attempts += 1;
        session.on_result(false);
        record_submit(&mut last_submit, 5, false);
    }
    assert_eq!(attempts, 3);
    // All attempts failed: the record keeps its old value, so the nonce is
    // retried at the next check point.
    assert_eq!(last_submit, Some(3));
}

#[test]
fn two_folders_submit_with_their_own_accounts() {
    // One worker per folder, each folder one plot with a disjoint account:
    // each worker's best carries its own account, so each submission does.
    let catalog = burst_miner::plots::get_plots(vec![
        ("/a".to_string(), vec!["1_0_4_4".to_string()]),
        ("/b".to_string(), vec!["2_100_4_4".to_string()]),
    ]);
    let m = info(&"00".repeat(32), 1, u64::MAX, u64::MAX);
    let work = MinerWork::from_mining_info(&m).unwrap();
    let data = synthetic_plot_data(4);
    let mut submissions: Vec<Best> = Vec::new();
    for folder in &catalog.folders {
        let plot = &folder.plots[0];
        let mut best: Option<Best> = None;
        assert!(scan_plot_data(&work, plot, &data, &mut best));
        let mut last_submit: Option<u64> = None;
        if should_submit(&best, &last_submit, &work) {
            record_submit(&mut last_submit, best.unwrap().nonce, true);
            submissions.push(best.unwrap());
        }
        // Each worker suppresses its own duplicate at the next check point.
        assert!(!should_submit(&best, &last_submit, &work));
    }
    assert_eq!(submissions.len(), 2);
    assert_eq!(submissions[0].account_id, 1);
    assert_eq!(submissions[1].account_id, 2);
    assert!(submissions[0].nonce < 4);
    assert!(submissions[1].nonce >= 100 && submissions[1].nonce < 104);
}

#[test]
fn round_preemption_switches_to_the_new_work() {
    // A worker scanning round A finds round B pending at a check point: it
    // drops the scan and every later score is computed under round B.
    let m_a = info(&"aa".repeat(32), 10, 1, 1);
    let m_b = info(&"bb".repeat(32), 11, 1, 1);
    let work_a = MinerWork::from_mining_info(&m_a).unwrap();
    let work_b = MinerWork::from_mining_info(&m_b).unwrap();
    let plot = Plot {
        path: "9_0_4_2".to_string(),
        account_id: 9,
        start_nonce: 0,
        nonce_count: 4,
        stagger_size: 2,
    };
    let data = synthetic_plot_data(4);

    let mut current = work_a;
    let mut best: Option<Best> = None;
    // First stagger block under round A.
    let (off, len) = plot.window(current.scoop_num, 0, data.len() as u64).unwrap();
    scan_window(
        &current.hasher[..32],
        &data[off as usize..(off + len) as usize],
        plot.start_nonce,
        plot.account_id,
        &mut best,
    );
    // Check point: round B is pending, so the worker aborts round A's scan.
    let mut next: Option<MinerWork> = None;
    assert!(has_new_signature(Some(work_b), &mut next));
    current = next.take().unwrap();
    assert_eq!(current.height, 11);
    best = None;
    // The fresh scan uses round B's scoop and its best is round B's.
    let completed = scan_plot_data(&current, &plot, &data, &mut best);
    assert!(completed);
    let expect = brute_force_best(&current, &plot, &data, 2);
    assert_eq!(best, expect);
    assert_ne!(work_a.hasher[0], current.hasher[0]);
}

#[test]
fn duplicate_suppression_yields_one_submit() {
    // The best nonce does not change between two check points: the first
    // check point submits, the second is suppressed.
    let m = info(&"00".repeat(32), 1, u64::MAX, u64::MAX);
    let work = MinerWork::from_mining_info(&m).unwrap();
    let best = Some(Best {
        score: 17,
        nonce: 5,
        account_id: 1,
    });
    let mut last_submit: Option<u64> = None;
    let mut submits = 0;
    for _check_point in 0..2 {
        if should_submit(&best, &last_submit, &work) {
            submits += 1;
            record_submit(&mut last_submit, best.unwrap().nonce, true);
        }
    }
    assert_eq!(submits, 1);
}
