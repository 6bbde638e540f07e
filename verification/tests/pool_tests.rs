use burst_miner::pool::{
    mining_info_url, submit_url, Error, MiningInfo, RoundChange, RoundTracker,
};

#[test]
fn decode_pool_response_with_stringified_numbers() {
    let body = "{\"generationSignature\":\"6ec823b5fd86c4aee9f7c3453cacaf4a43296f48ede77e70060a8948fe18d973\",\"baseTarget\":\"18325193796\",\"requestProcessingTime\":27,\"height\":\"500000\",\"targetDeadline\":86400}";
    let info = MiningInfo::decode(body).unwrap();
    assert_eq!(
        info.generation_signature,
        "6ec823b5fd86c4aee9f7c3453cacaf4a43296f48ede77e70060a8948fe18d973"
    );
    assert_eq!(info.base_target, 18325193796);
    assert_eq!(info.request_processing_time, 27);
    assert_eq!(info.height, 500000);
    assert_eq!(info.target_deadline, 86400);
}

#[test]
fn decode_accepts_plain_numbers_and_whitespace() {
    let body = " {\n \"height\" : 12 ,\t\"baseTarget\": 34, \"targetDeadline\": 56,\r\n \"requestProcessingTime\": -7, \"generationSignature\": \"00ff\" } ";
    let info = MiningInfo::decode(body).unwrap();
    assert_eq!(info.height, 12);
    assert_eq!(info.base_target, 34);
    assert_eq!(info.target_deadline, 56);
    assert_eq!(info.request_processing_time, -7);
    assert_eq!(info.generation_signature, "00ff");
}

#[test]
fn decode_ignores_unknown_members_and_keeps_last_duplicate() {
    let body = "{\"answer\":null,\"extra\":true,\"more\":false,\"note\":\"x\",\"n\":-1,\"generationSignature\":\"aa\",\"baseTarget\":1,\"requestProcessingTime\":0,\"height\":7,\"targetDeadline\":9,\"height\":8}";
    let info = MiningInfo::decode(body).unwrap();
    assert_eq!(info.height, 8);
    assert_eq!(info.target_deadline, 9);
}

#[test]
fn decode_rejects_bad_responses() {
    // Not an object.
    assert!(MiningInfo::decode("[]").is_err());
    assert!(MiningInfo::decode("").is_err());
    // A required member is missing.
    assert!(MiningInfo::decode(
        "{\"generationSignature\":\"aa\",\"baseTarget\":1,\"height\":7,\"targetDeadline\":9}"
    )
    .is_err());
    // The signature is not a string.
    assert!(MiningInfo::decode(
        "{\"generationSignature\":3,\"baseTarget\":1,\"requestProcessingTime\":0,\"height\":7,\"targetDeadline\":9}"
    )
    .is_err());
    // A u64 field is negative.
    assert!(MiningInfo::decode(
        "{\"generationSignature\":\"aa\",\"baseTarget\":-1,\"requestProcessingTime\":0,\"height\":7,\"targetDeadline\":9}"
    )
    .is_err());
    // Trailing garbage after the object.
    assert!(MiningInfo::decode(
        "{\"generationSignature\":\"aa\",\"baseTarget\":1,\"requestProcessingTime\":0,\"height\":7,\"targetDeadline\":9} x"
    )
    .is_err());
    // A string with an escape is outside the protocol's grammar.
    assert!(MiningInfo::decode(
        "{\"generationSignature\":\"a\\\"a\",\"baseTarget\":1,\"requestProcessingTime\":0,\"height\":7,\"targetDeadline\":9}"
    )
    .is_err());
    // A value past u64::MAX does not decode.
    assert!(MiningInfo::decode(
        "{\"generationSignature\":\"aa\",\"baseTarget\":18446744073709551616,\"requestProcessingTime\":0,\"height\":7,\"targetDeadline\":9}"
    )
    .is_err());
}

fn info(sig: &str, height: u64) -> MiningInfo {
    MiningInfo {
        generation_signature: sig.to_string(),
        base_target: 1,
        request_processing_time: 0,
        height,
        target_deadline: 1,
    }
}

#[test]
fn tracker_broadcasts_each_new_signature_once() {
    let mut tracker = RoundTracker::new();
    let round_a = info(&"00".repeat(32), 1);
    match tracker.observe(round_a.clone()) {
        RoundChange::New(w) => assert_eq!(w.height, 1),
        _ => panic!("first round must derive work"),
    }
    // The same signature again: no broadcast.
    match tracker.observe(round_a) {
        RoundChange::Unchanged => {}
        _ => panic!("repeated signature must not broadcast"),
    }
    // A new signature: a new round.
    let round_b = info(&"11".repeat(32), 2);
    match tracker.observe(round_b) {
        RoundChange::New(w) => assert_eq!(w.height, 2),
        _ => panic!("new signature must broadcast"),
    }
}

#[test]
fn tracker_reports_underivable_round() {
    let mut tracker = RoundTracker::new();
    match tracker.observe(info("not hex", 1)) {
        RoundChange::Invalid(e) => assert_eq!(e, Error::HexDecode),
        _ => panic!("bad signature must be reported"),
    }
    // The bad round was still adopted: seeing it again changes nothing.
    match tracker.observe(info("not hex", 1)) {
        RoundChange::Unchanged => {}
        _ => panic!("adopted signature must not broadcast again"),
    }
}

#[test]
fn request_urls_follow_the_protocol() {
    assert_eq!(
        mining_info_url("http://pool.example:8124"),
        "http://pool.example:8124/burst?requestType=getMiningInfo"
    );
    // A trailing slash does not double.
    assert_eq!(
        mining_info_url("http://pool.example:8124/"),
        "http://pool.example:8124/burst?requestType=getMiningInfo"
    );
    assert_eq!(
        submit_url("http://pool.example/", 1234, 567, "cryptoport"),
        "http://pool.example/burst?requestType=submitNonce&accountId=1234&nonce=567&secretPhrase=cryptoport"
    );
}

#[test]
fn submit_url_is_deterministic_per_nonce() {
    // Re-submitting the same (account, nonce) sends the identical request.
    let a = submit_url("http://p", 1, 2, "s");
    let b = submit_url("http://p", 1, 2, "s");
    assert_eq!(a, b);
    let c = submit_url("http://p", 1, 3, "s");
    assert_ne!(a, c);
}
