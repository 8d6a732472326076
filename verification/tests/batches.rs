use std::collections::HashSet;

use slink::bank::FilterBank;
use slink::builder::BatchBuilder;
use slink::codec::{decode_batch, decode_filter, encode_batch};
use slink::errors::CodeGenError;
use slink::short_link::{generate_short_link, generate_short_link_batch};

const FP_TEN_TO_MINUS_FIVE: u64 = 10_000;

#[test]
fn build_accepts_exactly_the_target_of_distinct_codes() {
    let bank = FilterBank::empty();
    let batch = match BatchBuilder::build(500, &bank, FP_TEN_TO_MINUS_FIVE, 1_000_000) {
        Ok(b) => b,
        Err(_) => panic!("build failed"),
    };
    assert_eq!(batch.codes.len(), 500);
    let distinct: HashSet<&String> = batch.codes.iter().collect();
    assert_eq!(distinct.len(), 500);
}

#[test]
fn round_trip_preserves_code_list_and_filter_membership() {
    let bank = FilterBank::empty();
    let batch = match BatchBuilder::build(200, &bank, FP_TEN_TO_MINUS_FIVE, 1_000_000) {
        Ok(b) => b,
        Err(_) => panic!("build failed"),
    };
    let bytes = encode_batch(&batch);
    let decoded = match decode_batch(bytes.as_slice()) {
        Ok(b) => b,
        Err(_) => panic!("decode failed"),
    };
    let original: HashSet<&String> = batch.codes.iter().collect();
    let recovered: HashSet<&String> = decoded.codes.iter().collect();
    assert_eq!(original, recovered);
    for code in &batch.codes {
        assert!(decoded.filter.check(code));
    }
}

#[test]
fn build_with_too_small_a_budget_reports_exhaustion() {
    let bank = FilterBank::empty();
    let r = BatchBuilder::build(10, &bank, FP_TEN_TO_MINUS_FIVE, 5);
    match r {
        Ok(_) => panic!("a five-attempt budget cannot yield ten codes"),
        Err(e) => assert_eq!(e, CodeGenError::AddressSpaceExhaustion),
    }
}

#[test]
fn build_with_zero_target_succeeds_immediately() {
    let bank = FilterBank::empty();
    let batch = match BatchBuilder::build(0, &bank, FP_TEN_TO_MINUS_FIVE, 0) {
        Ok(b) => b,
        Err(_) => panic!("an empty batch needs no attempts"),
    };
    assert_eq!(batch.codes.len(), 0);
}

#[test]
fn decode_rejects_truncated_and_malformed_input() {
    // too short for the length prefix
    match decode_filter(&[1u8, 2, 3]) {
        Err(CodeGenError::CorruptBatchFile) => {},
        _ => panic!("short input must be corrupt"),
    }
    // length prefix pointing past the end
    let mut header_only = vec![0u8; 8];
    header_only[0] = 200;
    match decode_filter(header_only.as_slice()) {
        Err(CodeGenError::CorruptBatchFile) => {},
        _ => panic!("overlong prefix must be corrupt"),
    }
    // a good file, then damaged in the code section
    let bank = FilterBank::empty();
    let batch = match BatchBuilder::build(5, &bank, FP_TEN_TO_MINUS_FIVE, 1_000) {
        Ok(b) => b,
        Err(_) => panic!("build failed"),
    };
    let good = encode_batch(&batch);
    assert!(decode_batch(good.as_slice()).is_ok());

    let mut unterminated = good.clone();
    unterminated.extend_from_slice(b"AAAAAA");
    match decode_batch(unterminated.as_slice()) {
        Err(CodeGenError::CorruptBatchFile) => {},
        _ => panic!("an unterminated last line must be corrupt"),
    }
    // the filter alone still reads back from that damaged file
    assert!(decode_filter(unterminated.as_slice()).is_ok());

    let mut bad_line = good.clone();
    bad_line.extend_from_slice(b"no spaces allowed in a code line\n");
    match decode_batch(bad_line.as_slice()) {
        Err(CodeGenError::CorruptBatchFile) => {},
        _ => panic!("a line outside the alphabet must be corrupt"),
    }
}

#[test]
fn bank_skips_a_corrupt_file_and_keeps_the_good_one() {
    let empty = FilterBank::empty();
    let batch = match BatchBuilder::build(50, &empty, FP_TEN_TO_MINUS_FIVE, 100_000) {
        Ok(b) => b,
        Err(_) => panic!("build failed"),
    };
    let good = encode_batch(&batch);
    let truncated = good[..20].to_vec();
    let files = vec![good, truncated];
    let bank = FilterBank::load_from_contents(&files);
    assert_eq!(bank.loaded_count(), 1);
    assert_eq!(bank.skipped_count(), 1);
    for code in &batch.codes {
        assert!(bank.possibly_contains(code));
    }
}

#[test]
fn end_to_end_build_persist_reload_and_query() {
    let empty = FilterBank::empty();
    let batch = match BatchBuilder::build(1000, &empty, FP_TEN_TO_MINUS_FIVE, 2_000_000) {
        Ok(b) => b,
        Err(_) => panic!("build failed"),
    };
    assert_eq!(batch.codes.len(), 1000);
    let distinct: HashSet<&String> = batch.codes.iter().collect();
    assert_eq!(distinct.len(), 1000);

    let file = encode_batch(&batch);
    let files = vec![file];
    let bank = FilterBank::load_from_contents(&files);
    assert_eq!(bank.loaded_count(), 1);
    assert_eq!(bank.skipped_count(), 0);
    for code in &batch.codes {
        assert!(bank.possibly_contains(code));
    }
}

#[test]
fn chained_runs_never_repeat_a_code() {
    let first = match generate_short_link_batch(&vec![], 100, FP_TEN_TO_MINUS_FIVE, 100_000) {
        Ok(f) => f,
        Err(_) => panic!("first run failed"),
    };
    let prior = vec![first.clone()];
    let second = match generate_short_link_batch(&prior, 100, FP_TEN_TO_MINUS_FIVE, 100_000) {
        Ok(f) => f,
        Err(_) => panic!("second run failed"),
    };
    let b1 = decode_batch(first.as_slice()).unwrap();
    let b2 = decode_batch(second.as_slice()).unwrap();
    let seen: HashSet<&String> = b1.codes.iter().collect();
    assert_eq!(b2.codes.len(), 100);
    for code in &b2.codes {
        assert!(!seen.contains(code));
    }
}

#[test]
fn observed_false_positive_rate_stays_near_the_configured_rate() {
    let bank = FilterBank::empty();
    let fp_ppb: u64 = 10_000_000; // one in a hundred
    let batch = match BatchBuilder::build(10_000, &bank, fp_ppb, 10_000_000) {
        Ok(b) => b,
        Err(_) => panic!("build failed"),
    };
    let members: HashSet<&String> = batch.codes.iter().collect();
    let mut tried: usize = 0;
    let mut hits: usize = 0;
    while tried < 200_000 {
        let code = generate_short_link();
        if members.contains(&code) {
            continue;
        }
        tried += 1;
        if batch.filter.check(&code) {
            hits += 1;
        }
    }
    // about 2000 expected at the configured rate; far more would mean the
    // filter is too small, none at all that the query is broken
    assert!(hits < 10_000);
    assert!(hits > 100);
}

#[test]
fn filter_reports_every_inserted_code() {
    let mut filter = match slink::filter::MembershipFilter::new(1_000, FP_TEN_TO_MINUS_FIVE) {
        Some(f) => f,
        None => panic!("no filter"),
    };
    let mut inserted: Vec<String> = Vec::new();
    for _ in 0..200 {
        let code = generate_short_link();
        filter.insert(&code);
        inserted.push(code);
    }
    for code in &inserted {
        assert!(filter.check(code));
    }
}

#[test]
fn a_code_never_inserted_is_almost_surely_reported_absent() {
    let bank = FilterBank::empty();
    let batch = match BatchBuilder::build(1_000, &bank, FP_TEN_TO_MINUS_FIVE, 2_000_000) {
        Ok(b) => b,
        Err(_) => panic!("build failed"),
    };
    let probe = "X7g19f".to_string();
    if !batch.codes.contains(&probe) {
        assert!(!batch.filter.check(&probe));
    }
}
