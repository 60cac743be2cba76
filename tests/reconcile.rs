use event_tracker::amount::{amount_to_felt, combine_amount, reconstruct_amount};
use event_tracker::codec::{encode_message, message_digest};
use event_tracker::config::{check_block_range, load_config};
use event_tracker::error::ReconcileError;
use event_tracker::hex::parse_hex_word;
use event_tracker::record::{
    complete_record, message_payload, prepare_withdrawal, withdrawal_key_filter, WithdrawalEvent,
};
use event_tracker::scan::Scanner;
use event_tracker::timestamp::{block_time_text, BlockLookup, LAST_CALENDAR_SECOND};
use event_tracker::word::Word;

fn word(first: u8, last: u8) -> Word {
    let mut b = vec![0u8; 32];
    b[0] = first;
    b[31] = last;
    Word::from_bytes(b).unwrap()
}

fn small(n: u64) -> Word {
    Word::from_u64(n)
}

fn stark_prime() -> Vec<u8> {
    let mut p = vec![0u8; 32];
    p[0] = 0x08;
    p[7] = 0x11;
    p[31] = 0x01;
    p
}

fn payload(words: [u64; 5]) -> Vec<Word> {
    words.iter().map(|w| small(*w)).collect()
}

#[test]
fn combine_zero_halves() {
    let r = combine_amount(&small(0), &small(0));
    assert_eq!(r, vec![0u8; 64]);
}

#[test]
fn combine_low_one() {
    let r = combine_amount(&small(1), &small(0));
    let mut expected = vec![0u8; 64];
    expected[63] = 1;
    assert_eq!(r, expected);
}

#[test]
fn combine_high_one_is_two_to_the_256() {
    let r = combine_amount(&small(0), &small(1));
    let mut expected = vec![0u8; 64];
    expected[31] = 1;
    assert_eq!(r, expected);
}

#[test]
fn combine_keeps_both_halves() {
    let r = combine_amount(&word(0x12, 0x34), &word(0x56, 0x78));
    assert_eq!(&r[..32], word(0x56, 0x78).bytes.as_slice());
    assert_eq!(&r[32..], word(0x12, 0x34).bytes.as_slice());
}

#[test]
fn amount_with_zero_high_half_is_the_low_half() {
    let r = reconstruct_amount(&small(100), &small(0)).unwrap();
    assert_eq!(r.bytes, small(100).bytes);
}

#[test]
fn amount_with_high_half_is_out_of_range() {
    assert_eq!(
        reconstruct_amount(&small(0), &small(1)).err(),
        Some(ReconcileError::AmountOutOfRange)
    );
}

#[test]
fn amount_below_prime_fits() {
    let mut total = vec![0u8; 32];
    let mut below = stark_prime();
    below[31] = 0;
    total.extend_from_slice(&below);
    assert_eq!(amount_to_felt(&total).unwrap().bytes, below);
}

#[test]
fn amount_at_prime_is_out_of_range() {
    let mut total = vec![0u8; 32];
    total.extend_from_slice(&stark_prime());
    assert_eq!(amount_to_felt(&total).err(), Some(ReconcileError::AmountOutOfRange));
}

#[test]
fn word_from_u64_is_big_endian() {
    let w = Word::from_u64(0x0102);
    let mut expected = vec![0u8; 32];
    expected[30] = 1;
    expected[31] = 2;
    assert_eq!(w.bytes, expected);
    assert!(Word::from_u64(0).is_zero());
    assert!(!w.is_zero());
}

#[test]
fn encoding_is_256_bytes_in_order() {
    let enc = encode_message(&small(1), &small(2), &payload([3, 4, 5, 6, 7]));
    assert_eq!(enc.len(), 256);
    for (i, v) in [1u8, 2, 5, 3, 4, 5, 6, 7].iter().enumerate() {
        assert_eq!(enc[32 * i + 31], *v);
        assert!(enc[32 * i..32 * i + 31].iter().all(|b| *b == 0));
    }
}

#[test]
fn digest_is_deterministic() {
    let a = message_digest(&small(1), &small(2), &payload([3, 4, 5, 6, 7]));
    let b = message_digest(&small(1), &small(2), &payload([3, 4, 5, 6, 7]));
    assert_eq!(a.bytes, b.bytes);
    assert_eq!(a.bytes.len(), 32);
}

#[test]
fn digest_changes_with_any_payload_word() {
    let base = [3u64, 4, 5, 6, 7];
    let d0 = message_digest(&small(1), &small(2), &payload(base));
    for i in 0..5 {
        let mut changed = base;
        changed[i] ^= 1;
        let d = message_digest(&small(1), &small(2), &payload(changed));
        assert_ne!(d.bytes, d0.bytes);
    }
    let d = message_digest(&small(0), &small(2), &payload(base));
    assert_ne!(d.bytes, d0.bytes);
}

#[test]
fn digest_is_keccak_of_encoding() {
    let p = payload([3, 4, 5, 6, 7]);
    let enc = encode_message(&small(1), &small(2), &p);
    let d = message_digest(&small(1), &small(2), &p);
    assert_eq!(d.bytes, alloy::primitives::keccak256(&enc).to_vec());
    assert_ne!(d.bytes, enc[..32].to_vec());
}

fn run_scan(pages: &[(Vec<u32>, Option<&str>)]) -> (usize, Vec<u32>) {
    let mut scanner = Scanner::new(3);
    let mut fetches = 0usize;
    let mut rows = Vec::new();
    while let Some(token) = scanner.next_request() {
        let expected = if fetches == 0 { None } else { pages[fetches - 1].1.map(|t| t.to_string()) };
        assert_eq!(token, expected);
        let (events, next) = &pages[fetches];
        fetches += 1;
        rows.extend_from_slice(events);
        scanner.page_received(next.map(|t| t.to_string()));
    }
    assert!(scanner.is_done());
    assert!(!scanner.has_failed());
    (fetches, rows)
}

#[test]
fn scan_ends_after_last_page() {
    let pages = vec![
        (vec![1, 2], Some("a")),
        (vec![], Some("b")),
        (vec![3, 4, 5], None),
    ];
    assert_eq!(run_scan(&pages), (3, vec![1, 2, 3, 4, 5]));
}

#[test]
fn scan_of_one_page() {
    let pages = vec![(vec![7], None)];
    assert_eq!(run_scan(&pages), (1, vec![7]));
}

#[test]
fn scan_retries_then_fails() {
    let mut scanner = Scanner::new(2);
    scanner.fetch_failed();
    scanner.fetch_failed();
    assert!(!scanner.is_done());
    assert_eq!(scanner.next_request(), Some(None));
    scanner.fetch_failed();
    assert!(scanner.is_done());
    assert!(scanner.has_failed());
    assert_eq!(scanner.next_request(), None);
}

#[test]
fn scan_failure_count_resets_on_a_page() {
    let mut scanner = Scanner::new(1);
    scanner.fetch_failed();
    scanner.page_received(Some("t".to_string()));
    assert_eq!(scanner.failures, 0);
    scanner.fetch_failed();
    assert!(!scanner.is_done());
    assert_eq!(scanner.next_request(), Some(Some("t".to_string())));
}

#[test]
fn timestamp_of_available_block() {
    assert_eq!(
        block_time_text(&BlockLookup::Available(1_700_000_000)),
        "2023-11-14 22:13:20 UTC"
    );
    assert_eq!(block_time_text(&BlockLookup::Available(0)), "1970-01-01 00:00:00 UTC");
}

#[test]
fn timestamp_of_last_calendar_second() {
    assert_eq!(
        block_time_text(&BlockLookup::Available(LAST_CALENDAR_SECOND)),
        "9999-12-31 23:59:59 UTC"
    );
}

#[test]
fn timestamp_of_pending_block() {
    assert_eq!(block_time_text(&BlockLookup::Pending), "BLOCK STILL PENDING");
}

#[test]
fn timestamp_of_missing_block() {
    assert_eq!(block_time_text(&BlockLookup::NotFound), "BLOCK NOT FOUND");
}

#[test]
fn timestamp_beyond_calendar() {
    assert_eq!(
        block_time_text(&BlockLookup::Available(u64::MAX)),
        "BLOCK TIMESTAMP OUT OF RANGE"
    );
    assert_eq!(
        block_time_text(&BlockLookup::Available(i64::MAX as u64)),
        "BLOCK TIMESTAMP OUT OF RANGE"
    );
}

#[test]
fn block_range_in_order() {
    assert_eq!(check_block_range(10, 20), Ok(()));
    assert_eq!(check_block_range(7, 7), Ok(()));
}

#[test]
fn block_range_reversed() {
    assert_eq!(check_block_range(21, 20), Err(ReconcileError::Configuration));
}

#[test]
fn hex_words_parse() {
    assert_eq!(parse_hex_word("0x1").unwrap().bytes, small(1).bytes);
    assert_eq!(parse_hex_word("0XaBc").unwrap().bytes, small(0xabc).bytes);
    let full = format!("0x{}", "f".repeat(64));
    assert_eq!(parse_hex_word(&full).unwrap().bytes, vec![0xffu8; 32]);
}

#[test]
fn malformed_hex_is_invalid_input() {
    let long = format!("0x{}", "1".repeat(65));
    for s in ["", "0x", "12", "1x12", "0y12", "0x1g", long.as_str()] {
        assert_eq!(parse_hex_word(s).err(), Some(ReconcileError::InvalidInput), "{}", s);
    }
}

#[test]
fn network_settings_with_valid_addresses() {
    let c = load_config(
        "http://l2".to_string(),
        "http://l1".to_string(),
        "0x2".to_string(),
        "0x1".to_string(),
        "0x3".to_string(),
    )
    .unwrap();
    assert_eq!(c.starknet_rpc_url, "http://l2");
    assert_eq!(c.eth_rpc_url, "http://l1");
    assert_eq!(c.starkway_l1, "0x2");
    assert_eq!(c.starkway_l2, "0x1");
    assert_eq!(c.starknet_core, "0x3");
}

#[test]
fn network_settings_with_bad_address() {
    let r = load_config(
        "http://l2".to_string(),
        "http://l1".to_string(),
        "0x2".to_string(),
        "bridge".to_string(),
        "0x3".to_string(),
    );
    assert_eq!(r.err(), Some(ReconcileError::Configuration));
}

#[test]
fn key_filter_slots() {
    let f = withdrawal_key_filter(None);
    assert_eq!(f.len(), 6);
    assert_eq!(f[3].len(), 1);
    assert_eq!(f[3][0].bytes, parse_hex_word("0x5749544844524157").unwrap().bytes);
    assert!(f[1].is_empty() && f[0].is_empty() && f[5].is_empty());
    let g = withdrawal_key_filter(Some(small(9)));
    assert_eq!(g[1].len(), 1);
    assert_eq!(g[1][0].bytes, small(9).bytes);
}

#[test]
fn end_to_end_single_event() {
    let event = WithdrawalEvent {
        tx_hash: word(0xdd, 0x04),
        l1_recipient: word(0xaa, 0x01),
        l2_sender: word(0xbb, 0x02),
        l1_token: word(0xcc, 0x03),
        amount_low: small(100),
        amount_high: small(0),
        block_number: 5,
    };
    let l2 = parse_hex_word("0x1").unwrap();
    let l1 = parse_hex_word("0x2").unwrap();
    assert_eq!(message_payload(&event).len(), 5);
    let prepared = prepare_withdrawal(&event, &l2, &l1).unwrap();
    let ts = block_time_text(&BlockLookup::Available(0));
    let record = complete_record(prepared, ts, small(0));

    let mut literal = Vec::new();
    for w in [
        small(1),
        small(2),
        small(5),
        word(0xcc, 0x03),
        word(0xaa, 0x01),
        word(0xbb, 0x02),
        small(100),
        small(0),
    ] {
        literal.extend_from_slice(&w.bytes);
    }
    assert_eq!(literal.len(), 256);
    assert_eq!(record.digest.bytes, alloy::primitives::keccak256(&literal).to_vec());
    assert_eq!(record.amount.bytes, small(100).bytes);
    assert!(record.pending_messages.is_zero());
    assert_eq!(record.tx_hash.bytes, word(0xdd, 0x04).bytes);
    assert_eq!(record.l1_recipient.bytes, word(0xaa, 0x01).bytes);
    assert_eq!(record.l2_sender.bytes, word(0xbb, 0x02).bytes);
    assert_eq!(record.l1_token.bytes, word(0xcc, 0x03).bytes);
    assert_eq!(record.timestamp, "1970-01-01 00:00:00 UTC");
}

#[test]
fn end_to_end_amount_out_of_range() {
    let event = WithdrawalEvent {
        tx_hash: small(4),
        l1_recipient: small(1),
        l2_sender: small(2),
        l1_token: small(3),
        amount_low: small(0),
        amount_high: small(1),
        block_number: 5,
    };
    let r = prepare_withdrawal(&event, &small(1), &small(2));
    assert_eq!(r.err(), Some(ReconcileError::AmountOutOfRange));
}
