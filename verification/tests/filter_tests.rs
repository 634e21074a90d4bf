use snapshot_filter::account::AccountFilter;
use snapshot_filter::error::FilterParseError;
use snapshot_filter::memcmp::MemCmp;
use snapshot_filter::owner::OwnerFilter;
use snapshot_filter::record::AccountRecord;

const TOKEN_PROGRAM: &str = "TokenkegQfeZyiNwAJbNbGKPFXCWuBvf9Ss623VQ5DA";

fn decode58(s: &str) -> Vec<u8> {
    bs58::decode(s).into_vec().unwrap()
}

fn record(pubkey: Vec<u8>, owner: Vec<u8>, data_len: u64, data: Vec<u8>) -> AccountRecord {
    AccountRecord {
        pubkey,
        owner,
        data_len,
        lamports: 1,
        write_version: 7,
        data,
    }
}

fn owner_only_filter(rule: &str) -> AccountFilter {
    AccountFilter::new(&vec![], &None, &vec![rule.to_string()]).unwrap()
}

// --- ByteMatcher semantics ---

#[test]
fn memcmp_short_buffer_is_false() {
    let m = MemCmp::new(5, vec![1, 2]);
    assert!(!m.is_match(&[0u8; 6]));
    assert!(!m.is_match(&[]));
    assert!(!m.is_match(&[1, 2]));
}

#[test]
fn memcmp_exact_fit_matches() {
    let m = MemCmp::new(5, vec![1, 2]);
    let mut buf = vec![0u8; 7];
    buf[5] = 1;
    buf[6] = 2;
    assert!(m.is_match(&buf));
    buf[6] = 3;
    assert!(!m.is_match(&buf));
}

#[test]
fn memcmp_zero_offset_empty_bytes() {
    let m = MemCmp::new(0, vec![]);
    assert!(m.is_match(&[]));
    assert!(m.is_match(&[9, 9]));
}

#[test]
fn memcmp_huge_offset_does_not_panic() {
    let m = MemCmp::new(usize::MAX, vec![1]);
    assert!(!m.is_match(&[1, 2, 3]));
}

// --- owner rule parsing ---

#[test]
fn parse_owner_only_rule() {
    let f = OwnerFilter::new(&TOKEN_PROGRAM.to_string()).unwrap();
    let rec = record(vec![3; 32], decode58(TOKEN_PROGRAM), 10, vec![]);
    assert!(f.is_match(&rec));
}

#[test]
fn parse_rejects_empty_text() {
    let e = OwnerFilter::new(&String::new()).unwrap_err();
    assert_eq!(e, FilterParseError::InvalidOwnerFilterSyntax);
}

#[test]
fn parse_rejects_bad_alphabet() {
    // '0', 'O', 'I', 'l' and '!' are outside the base58 alphabet
    let e = OwnerFilter::new(&"abc!def".to_string()).unwrap_err();
    assert_eq!(e, FilterParseError::InvalidOwnerFilterSyntax);
    let e = OwnerFilter::new(&"0abc".to_string()).unwrap_err();
    assert_eq!(e, FilterParseError::InvalidOwnerFilterSyntax);
}

#[test]
fn parse_scenario_d_short_identity() {
    // "abc" is alphabet-valid, so the syntax check passes and the 32-byte
    // identity check fails: the deterministic precedence picks
    // InvalidOwnerPubkey.
    let e = OwnerFilter::new(&"abc".to_string()).unwrap_err();
    assert_eq!(e, FilterParseError::InvalidOwnerPubkey);
}

#[test]
fn parse_rejects_unknown_option() {
    let e = OwnerFilter::new(&format!("{},foo", TOKEN_PROGRAM)).unwrap_err();
    assert_eq!(e, FilterParseError::UnknownFilter);
    let e = OwnerFilter::new(&format!("{},size:", TOKEN_PROGRAM)).unwrap_err();
    assert_eq!(e, FilterParseError::UnknownFilter);
    let e = OwnerFilter::new(&format!("{},size:12x", TOKEN_PROGRAM)).unwrap_err();
    assert_eq!(e, FilterParseError::UnknownFilter);
    // odd-length hex payload does not fit the hex shape
    let e = OwnerFilter::new(&format!("{},memcmp:0x123@4", TOKEN_PROGRAM)).unwrap_err();
    assert_eq!(e, FilterParseError::UnknownFilter);
    // missing offset
    let e = OwnerFilter::new(&format!("{},memcmp:0x12", TOKEN_PROGRAM)).unwrap_err();
    assert_eq!(e, FilterParseError::UnknownFilter);
}

#[test]
fn parse_rejects_size_overflow() {
    // 99999999999999999999999 > u64::MAX
    let e = OwnerFilter::new(&format!("{},size:99999999999999999999999", TOKEN_PROGRAM))
        .unwrap_err();
    assert_eq!(e, FilterParseError::InvalidSizeFilter);
}

#[test]
fn parse_rejects_offset_overflow() {
    let e = OwnerFilter::new(&format!(
        "{},memcmp:0x06@99999999999999999999999999",
        TOKEN_PROGRAM
    ))
    .unwrap_err();
    assert_eq!(e, FilterParseError::InvalidOffsetMemcmpFilter);
}

#[test]
fn parse_rejects_duplicate_size() {
    let e = OwnerFilter::new(&format!("{},size:165,size:165", TOKEN_PROGRAM)).unwrap_err();
    assert_eq!(e, FilterParseError::MultipleSizeFilter);
}

#[test]
fn duplicate_size_with_other_valid_options() {
    let e = OwnerFilter::new(&format!(
        "{},size:165,memcmp:0x06@44,size:82",
        TOKEN_PROGRAM
    ))
    .unwrap_err();
    assert_eq!(e, FilterParseError::MultipleSizeFilter);
}

#[test]
fn empty_options_are_skipped() {
    let f = OwnerFilter::new(&format!("{},,size:165,", TOKEN_PROGRAM)).unwrap();
    let rec = record(vec![3; 32], decode58(TOKEN_PROGRAM), 165, vec![]);
    assert!(f.is_match(&rec));
    let f = OwnerFilter::new(&format!("{},", TOKEN_PROGRAM)).unwrap();
    assert!(f.is_match(&rec));
}

#[test]
fn parse_is_deterministic() {
    // Re-parsing the same text yields structurally equal rules: the two
    // compiled rules agree on matching and non-matching records alike.
    let text = format!("{},size:82,memcmp:0x0102@3", TOKEN_PROGRAM);
    let f1 = OwnerFilter::new(&text).unwrap();
    let f2 = OwnerFilter::new(&text).unwrap();
    let mut data = vec![0u8; 8];
    data[3] = 1;
    data[4] = 2;
    let good = record(vec![3; 32], decode58(TOKEN_PROGRAM), 82, data.clone());
    let bad_size = record(vec![3; 32], decode58(TOKEN_PROGRAM), 83, data.clone());
    let bad_owner = record(vec![3; 32], vec![9; 32], 82, data);
    let bad_bytes = record(vec![3; 32], decode58(TOKEN_PROGRAM), 82, vec![0u8; 8]);
    for rec in [&good, &bad_size, &bad_owner, &bad_bytes] {
        assert_eq!(f1.is_match(rec), f2.is_match(rec));
    }
    assert!(f1.is_match(&good));
    assert!(!f1.is_match(&bad_size));
    assert!(!f1.is_match(&bad_owner));
    assert!(!f1.is_match(&bad_bytes));
}

// --- owner rule matching scenarios ---

#[test]
fn scenario_a_size_filter() {
    let filter = owner_only_filter(&format!("{},size:165", TOKEN_PROGRAM));
    let hit = record(vec![1; 32], decode58(TOKEN_PROGRAM), 165, vec![]);
    let miss = record(vec![1; 32], decode58(TOKEN_PROGRAM), 82, vec![]);
    assert!(filter.is_match(&hit));
    assert!(!filter.is_match(&miss));
}

#[test]
fn scenario_b_size_and_memcmp() {
    let filter = owner_only_filter(&format!("{},size:82,memcmp:0x06@44", TOKEN_PROGRAM));
    let mut data = vec![0u8; 82];
    data[44] = 0x06;
    let hit = record(vec![1; 32], decode58(TOKEN_PROGRAM), 82, data.clone());
    assert!(filter.is_match(&hit));

    let mut wrong_byte = data.clone();
    wrong_byte[44] = 0x05;
    let miss_byte = record(vec![1; 32], decode58(TOKEN_PROGRAM), 82, wrong_byte);
    assert!(!filter.is_match(&miss_byte));

    let miss_size = record(vec![1; 32], decode58(TOKEN_PROGRAM), 81, data.clone());
    assert!(!filter.is_match(&miss_size));

    let miss_owner = record(vec![1; 32], vec![2; 32], 82, data);
    assert!(!filter.is_match(&miss_owner));
}

#[test]
fn memcmp_base58_payload() {
    let payload = "3yZe7d";
    let expected = decode58(payload);
    let filter = owner_only_filter(&format!("{},memcmp:{}@4", TOKEN_PROGRAM, payload));
    let mut data = vec![0u8; 4 + expected.len() + 2];
    data[4..4 + expected.len()].copy_from_slice(&expected);
    let hit = record(vec![1; 32], decode58(TOKEN_PROGRAM), data.len() as u64, data.clone());
    assert!(filter.is_match(&hit));
    let mut wrong = data.clone();
    wrong[4] ^= 0xFF;
    let miss = record(vec![1; 32], decode58(TOKEN_PROGRAM), data.len() as u64, wrong);
    assert!(!filter.is_match(&miss));
}

#[test]
fn memcmp_beyond_buffer_fails_closed() {
    let filter = owner_only_filter(&format!("{},memcmp:0x01@100", TOKEN_PROGRAM));
    let rec = record(vec![1; 32], decode58(TOKEN_PROGRAM), 3, vec![0, 0, 0]);
    assert!(!filter.is_match(&rec));
}

// --- AccountFilter construction ---

#[test]
fn scenario_c_identity_set() {
    let filter = AccountFilter::new(
        &vec!["pkA,pkB".to_string()],
        &Some("pkC\n\npkD\n".to_string()),
        &vec![],
    )
    .unwrap();
    assert_eq!(filter.identity_count(), 4);
    assert!(filter.contains_identity("pkA"));
    assert!(filter.contains_identity("pkB"));
    assert!(filter.contains_identity("pkC"));
    assert!(filter.contains_identity("pkD"));
    assert!(!filter.contains_identity("pkE"));
    assert!(!filter.contains_identity(""));
}

#[test]
fn identity_set_collapses_duplicates_and_skips_empties() {
    let filter = AccountFilter::new(
        &vec!["pkA,,pkB".to_string(), "pkA".to_string()],
        &None,
        &vec![],
    )
    .unwrap();
    assert_eq!(filter.identity_count(), 2);
}

#[test]
fn pubkey_file_lines_are_trimmed() {
    let filter = AccountFilter::new(
        &vec![],
        &Some("  pkE\t\r\npkF \n   \n".to_string()),
        &vec![],
    )
    .unwrap();
    assert_eq!(filter.identity_count(), 2);
    assert!(filter.contains_identity("pkE"));
    assert!(filter.contains_identity("pkF"));
}

#[test]
fn construction_error_propagates_first_rule_error() {
    let e = AccountFilter::new(
        &vec![],
        &None,
        &vec![TOKEN_PROGRAM.to_string(), "abc".to_string()],
    )
    .unwrap_err();
    assert_eq!(e, FilterParseError::InvalidOwnerPubkey);
}

// --- AccountFilter matching ---

#[test]
fn empty_filter_matches_everything() {
    let filter = AccountFilter::new(&vec![], &None, &vec![]).unwrap();
    assert_eq!(filter.identity_count(), 0);
    assert_eq!(filter.owner_rule_count(), 0);
    let rec = record(vec![1; 32], vec![2; 32], 0, vec![]);
    assert!(filter.is_match(&rec));
    let rec2 = record(vec![0; 32], vec![0; 32], 9, vec![1, 2, 3]);
    assert!(filter.is_match(&rec2));
}

#[test]
fn pubkey_allow_list_matches_by_base58_string() {
    // The allow-list compares the base58 rendering of the record's pubkey,
    // so a filter holding the canonical string must select the raw bytes.
    let filter = AccountFilter::new(&vec![TOKEN_PROGRAM.to_string()], &None, &vec![]).unwrap();
    let hit = record(decode58(TOKEN_PROGRAM), vec![2; 32], 0, vec![]);
    assert!(filter.is_match(&hit));
    let miss = record(vec![1; 32], vec![2; 32], 0, vec![]);
    assert!(!filter.is_match(&miss));
}

#[test]
fn owner_rules_are_an_or() {
    let other = "Vote111111111111111111111111111111111111111";
    let filter = AccountFilter::new(
        &vec![],
        &None,
        &vec![
            format!("{},size:165", TOKEN_PROGRAM),
            other.to_string(),
        ],
    )
    .unwrap();
    let by_second = record(vec![1; 32], decode58(other), 7, vec![]);
    assert!(filter.is_match(&by_second));
    let by_first = record(vec![1; 32], decode58(TOKEN_PROGRAM), 165, vec![]);
    assert!(filter.is_match(&by_first));
    let neither = record(vec![1; 32], decode58(TOKEN_PROGRAM), 164, vec![]);
    assert!(!filter.is_match(&neither));
}

#[test]
fn nonempty_filter_rejects_unrelated_record() {
    let filter = AccountFilter::new(&vec!["pkA".to_string()], &None, &vec![]).unwrap();
    let rec = record(vec![1; 32], vec![2; 32], 0, vec![]);
    assert!(!filter.is_match(&rec));
}

#[test]
fn is_match_is_idempotent() {
    let filter = AccountFilter::new(
        &vec!["pkA".to_string()],
        &None,
        &vec![format!("{},size:82,memcmp:0x06@44", TOKEN_PROGRAM)],
    )
    .unwrap();
    let mut data = vec![0u8; 82];
    data[44] = 0x06;
    let hit = record(vec![1; 32], decode58(TOKEN_PROGRAM), 82, data);
    let miss = record(vec![1; 32], vec![9; 32], 82, vec![]);
    for rec in [&hit, &miss] {
        let first = filter.is_match(rec);
        let second = filter.is_match(rec);
        assert_eq!(first, second);
    }
    assert!(filter.is_match(&hit));
    assert!(!filter.is_match(&miss));
}

// --- error messages ---

#[test]
fn error_messages_name_the_kind() {
    assert_eq!(
        FilterParseError::InvalidOwnerFilterSyntax.message(),
        "Invalid owner filter syntax"
    );
    assert_eq!(
        FilterParseError::InvalidOwnerPubkey.message(),
        "Invalid owner pubkey"
    );
    assert_eq!(FilterParseError::InvalidSizeFilter.message(), "Invalid size filter");
    assert_eq!(FilterParseError::MultipleSizeFilter.message(), "Multiple size filter");
    assert_eq!(
        FilterParseError::InvalidBytesMemcmpFilter.message(),
        "Invalid memcmp filter (bytes)"
    );
    assert_eq!(
        FilterParseError::InvalidOffsetMemcmpFilter.message(),
        "Invalid memcmp filter (offset)"
    );
    assert_eq!(FilterParseError::UnknownFilter.message(), "Unknown filter");
}

// --- grammar edge cases ---

#[test]
fn option_shapes_are_anchored() {
    // junk before `memcmp:` does not fit any option shape
    let e = OwnerFilter::new(&format!("{},xmemcmp:0x06@44", TOKEN_PROGRAM)).unwrap_err();
    assert_eq!(e, FilterParseError::UnknownFilter);
    // a second `@` leaves a non-numeric offset
    let e = OwnerFilter::new(&format!("{},memcmp:0x06@4@5", TOKEN_PROGRAM)).unwrap_err();
    assert_eq!(e, FilterParseError::UnknownFilter);
}

#[test]
fn hex_payload_accepts_both_cases() {
    let filter = owner_only_filter(&format!("{},memcmp:0x0AbF@1", TOKEN_PROGRAM));
    let data = vec![0u8, 0x0A, 0xBF, 0u8];
    let hit = record(vec![1; 32], decode58(TOKEN_PROGRAM), 4, data);
    assert!(filter.is_match(&hit));
}

#[test]
fn size_filter_reads_declared_length_not_payload() {
    // the size constraint checks the record's declared data_len field,
    // which is carried independently of the payload buffer
    let filter = owner_only_filter(&format!("{},size:10", TOKEN_PROGRAM));
    let declared_ten = record(vec![1; 32], decode58(TOKEN_PROGRAM), 10, vec![0u8; 3]);
    assert!(filter.is_match(&declared_ten));
    let declared_three = record(vec![1; 32], decode58(TOKEN_PROGRAM), 3, vec![0u8; 10]);
    assert!(!filter.is_match(&declared_three));
}

#[test]
fn size_zero_and_max_are_valid() {
    let filter = owner_only_filter(&format!("{},size:0", TOKEN_PROGRAM));
    let hit = record(vec![1; 32], decode58(TOKEN_PROGRAM), 0, vec![]);
    assert!(filter.is_match(&hit));
    let filter = owner_only_filter(&format!("{},size:18446744073709551615", TOKEN_PROGRAM));
    let hit = record(vec![1; 32], decode58(TOKEN_PROGRAM), u64::MAX, vec![]);
    assert!(filter.is_match(&hit));
}

#[test]
fn identity_longer_than_32_bytes_is_rejected() {
    // 44 '1' characters decode to 44 zero bytes: alphabet-valid, wrong length
    let e = OwnerFilter::new(&"11111111111111111111111111111111111111111111".to_string())
        .unwrap_err();
    assert_eq!(e, FilterParseError::InvalidOwnerPubkey);
}
