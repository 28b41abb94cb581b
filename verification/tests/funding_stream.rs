use lightningchess::framing::RecordBuffer;
use lightningchess::funding::{
    invoice_is_actionable, invoice_lookup_due, invoice_lookup_key, parse_sat_amount,
    update_settled_invoice,
};
use lightningchess::ledger::Ledger;
use lightningchess::models::Invoice;

fn settled_invoice(payment_addr: &str, amt_paid_sat: &str) -> Invoice {
    Invoice {
        memo: "wager deposit".to_string(),
        value: "150".to_string(),
        settled: true,
        creation_date: "1700000000".to_string(),
        settle_date: "1700000100".to_string(),
        payment_request: "lnbc1".to_string(),
        payment_addr: payment_addr.to_string(),
        expiry: "1800".to_string(),
        amt_paid_sat: amt_paid_sat.to_string(),
        state: "SETTLED".to_string(),
    }
}

#[test]
fn amount_parser_accepts_plain_decimals() {
    assert_eq!(parse_sat_amount("0"), Some(0));
    assert_eq!(parse_sat_amount("150"), Some(150));
    assert_eq!(parse_sat_amount("+7"), Some(7));
    assert_eq!(parse_sat_amount("-5"), Some(-5));
    assert_eq!(parse_sat_amount("9223372036854775807"), Some(i64::MAX));
    assert_eq!(parse_sat_amount("-9223372036854775808"), Some(i64::MIN));
}

#[test]
fn amount_parser_rejects_garbage_and_overflow() {
    assert_eq!(parse_sat_amount(""), None);
    assert_eq!(parse_sat_amount("+"), None);
    assert_eq!(parse_sat_amount("-"), None);
    assert_eq!(parse_sat_amount("12a"), None);
    assert_eq!(parse_sat_amount(" 12"), None);
    assert_eq!(parse_sat_amount("1.5"), None);
    assert_eq!(parse_sat_amount("9223372036854775808"), None);
    assert_eq!(parse_sat_amount("-9223372036854775809"), None);
    assert_eq!(parse_sat_amount("99999999999999999999"), None);
}

#[test]
fn funding_event_applies_exactly_once() {
    let mut ledger = Ledger::new();
    assert!(ledger.add_open_deposit("user1", 150, "addr-one", 1_700_000_000));
    assert_eq!(ledger.balance_of("user1"), 0);

    // the paid amount is authoritative, not the quoted one
    let invoice = settled_invoice("addr-one", "149");
    assert_eq!(update_settled_invoice(&mut ledger, &invoice), Ok(true));
    assert_eq!(ledger.balance_of("user1"), 149);
    assert_eq!(ledger.entries[0].state, "SETTLED");
    assert_eq!(ledger.entries[0].amount, 149);

    // the duplicate delivery is absorbed: nothing changes
    assert_eq!(update_settled_invoice(&mut ledger, &invoice), Ok(false));
    assert_eq!(ledger.balance_of("user1"), 149);
    assert_eq!(ledger.entries.len(), 1);
    assert_eq!(ledger.entries[0].amount, 149);
}

#[test]
fn unknown_funding_reference_is_a_noop() {
    let mut ledger = Ledger::new();
    assert!(ledger.add_open_deposit("user1", 150, "addr-one", 1_700_000_000));

    let invoice = settled_invoice("addr-other", "150");
    assert_eq!(update_settled_invoice(&mut ledger, &invoice), Ok(false));
    assert_eq!(ledger.balance_of("user1"), 0);
    assert_eq!(ledger.entries[0].state, "OPEN");
}

#[test]
fn duplicate_open_deposit_is_refused() {
    let mut ledger = Ledger::new();
    assert!(ledger.add_open_deposit("user1", 150, "addr-one", 1_700_000_000));
    assert!(!ledger.add_open_deposit("user2", 99, "addr-one", 1_700_000_001));
    assert_eq!(ledger.entries.len(), 1);
}

#[test]
fn only_settled_invoices_are_actionable() {
    let settled = settled_invoice("addr-one", "150");
    assert!(invoice_is_actionable(&settled));

    let mut open = settled_invoice("addr-one", "150");
    open.state = "OPEN".to_string();
    assert!(!invoice_is_actionable(&open));
}

#[test]
fn records_flush_on_any_terminator_not_only_chunk_ends() {
    let mut buffer = RecordBuffer::new();

    // a terminator in the middle of a chunk ends the record there
    let records = buffer.push_chunk(b"{\"a\":1}\n{\"b\"");
    assert_eq!(records.len(), 1);
    assert_eq!(records[0], b"{\"a\":1}".to_vec());

    // the rest arrives over two more chunks
    let records = buffer.push_chunk(b":2}");
    assert_eq!(records.len(), 0);
    let records = buffer.push_chunk(b"\n");
    assert_eq!(records.len(), 1);
    assert_eq!(records[0], b"{\"b\":2}".to_vec());
}

#[test]
fn two_records_in_one_chunk() {
    let mut buffer = RecordBuffer::new();
    let records = buffer.push_chunk(b"one\ntwo\nthr");
    assert_eq!(records.len(), 2);
    assert_eq!(records[0], b"one".to_vec());
    assert_eq!(records[1], b"two".to_vec());

    let records = buffer.push_chunk(b"ee\n");
    assert_eq!(records.len(), 1);
    assert_eq!(records[0], b"three".to_vec());
}

#[test]
fn empty_records_and_empty_chunks() {
    let mut buffer = RecordBuffer::new();
    let records = buffer.push_chunk(b"");
    assert_eq!(records.len(), 0);
    let records = buffer.push_chunk(b"\n\n");
    assert_eq!(records.len(), 2);
    assert_eq!(records[0], b"".to_vec());
    assert_eq!(records[1], b"".to_vec());
}

#[test]
fn lookup_key_is_url_safe_reencoding() {
    // standard-alphabet input with '+' and '/' must come back with
    // '-' and '_': the bytes decode and re-encode, not pass through
    assert_eq!(invoice_lookup_key("+/8=").as_deref(), Some("-_8="));
    // a plain reference is unchanged in spelling but round-tripped
    assert_eq!(invoice_lookup_key("SGVsbG8=").as_deref(), Some("SGVsbG8="));
    // a malformed reference yields nothing
    assert_eq!(invoice_lookup_key("not base64!"), None);
}

#[test]
fn reconcile_waits_out_the_expiry_window() {
    let created_on: i64 = 1_700_000_000;
    assert!(!invoice_lookup_due(created_on, created_on + 2000));
    assert!(invoice_lookup_due(created_on, created_on + 2001));
}
