use payments_engine::data_models::{Amount, ClientId, PaymentRecord, TransactionId, TransactionType};
use payments_engine::engine::process_rows;
use payments_engine::errors::TransactionReaderError;
use payments_engine::records::{parse_amount, parse_type, parse_uint};
use payments_engine::render::write_amount;
use payments_engine::transactions::{group_records, validate_pre_process_record};
use payments_engine::{read_and_parse_transactions, read_client_transactions};

fn bytes(s: &str) -> Vec<u8> {
    s.as_bytes().to_vec()
}

fn amount_text(v: i64) -> String {
    let mut out = Vec::new();
    write_amount(&mut out, Amount { value: v });
    String::from_utf8(out).unwrap()
}

fn run(input: &str) -> Result<String, TransactionReaderError> {
    let mut output = Vec::new();
    read_and_parse_transactions(input.as_bytes(), &mut output).map(|()| String::from_utf8(output).unwrap())
}

#[test]
fn amounts_parse_to_ten_thousandths() {
    assert_eq!(parse_amount(&bytes("1.5")), Some(Amount { value: 15_000 }));
    assert_eq!(parse_amount(&bytes("2.0")), Some(Amount { value: 20_000 }));
    assert_eq!(parse_amount(&bytes("100")), Some(Amount { value: 1_000_000 }));
    assert_eq!(parse_amount(&bytes("0.0001")), Some(Amount { value: 1 }));
    assert_eq!(parse_amount(&bytes("-3.25")), Some(Amount { value: -32_500 }));
    assert_eq!(parse_amount(&bytes("7.")), Some(Amount { value: 70_000 }));
    assert_eq!(parse_amount(&bytes("922337203685477.5807")), Some(Amount { value: i64::MAX }));
}

#[test]
fn malformed_amounts_are_refused() {
    assert_eq!(parse_amount(&bytes("")), None);
    assert_eq!(parse_amount(&bytes("-")), None);
    assert_eq!(parse_amount(&bytes(".5")), None);
    assert_eq!(parse_amount(&bytes("1.23456")), None);
    assert_eq!(parse_amount(&bytes("1.2.3")), None);
    assert_eq!(parse_amount(&bytes("1e3")), None);
    assert_eq!(parse_amount(&bytes("922337203685477.5808")), None);
}

#[test]
fn identifiers_parse_within_their_range() {
    assert_eq!(parse_uint(&bytes("65535"), 65535), Some(65535));
    assert_eq!(parse_uint(&bytes("65536"), 65535), None);
    assert_eq!(parse_uint(&bytes("4294967295"), 4294967295), Some(4294967295));
    assert_eq!(parse_uint(&bytes("99999999999999999999"), 4294967295), None);
    assert_eq!(parse_uint(&bytes(""), 65535), None);
    assert_eq!(parse_uint(&bytes("1a"), 65535), None);
}

#[test]
fn transaction_types_are_lower_case_words() {
    assert_eq!(parse_type(&bytes("deposit")), Some(TransactionType::Deposit));
    assert_eq!(parse_type(&bytes("withdrawal")), Some(TransactionType::Withdrawal));
    assert_eq!(parse_type(&bytes("dispute")), Some(TransactionType::Dispute));
    assert_eq!(parse_type(&bytes("resolve")), Some(TransactionType::Resolve));
    assert_eq!(parse_type(&bytes("chargeback")), Some(TransactionType::Chargeback));
    assert_eq!(parse_type(&bytes("Deposit")), None);
}

#[test]
fn amounts_render_as_short_decimals() {
    assert_eq!(amount_text(15_000), "1.5");
    assert_eq!(amount_text(20_000), "2");
    assert_eq!(amount_text(0), "0");
    assert_eq!(amount_text(-50_000), "-5");
    assert_eq!(amount_text(-5_000), "-0.5");
    assert_eq!(amount_text(1), "0.0001");
    assert_eq!(amount_text(12_340), "1.234");
    assert_eq!(amount_text(i64::MIN), "-922337203685477.5808");
}

#[test]
fn end_to_end_rows() {
    let out = run("type, client, tx, amount\ndeposit,1,1,1.5\ndeposit,2,2,2.0\n").unwrap();
    let mut lines: Vec<&str> = out.lines().collect();
    assert_eq!(lines[0], "client, available, held, total, locked");
    lines.remove(0);
    lines.sort();
    assert_eq!(lines, vec!["1,1.5,0,1.5,false", "2,2,0,2,false"]);
}

#[test]
fn withdrawal_without_amount_aborts_with_no_output() {
    let mut output = Vec::new();
    let r = read_and_parse_transactions(
        b"type, client, tx, amount\ndeposit, 1, 1, 5\nwithdrawal, 1, 7,\n",
        &mut output,
    );
    assert!(matches!(r, Err(TransactionReaderError::InvalidWithdrawal(TransactionId { value: 7 }))));
    assert!(output.is_empty());
}

#[test]
fn each_structural_error_names_its_transaction() {
    assert!(matches!(
        run("type, client, tx, amount\ndispute, 1, 3, 1.0\n"),
        Err(TransactionReaderError::InvalidDisputeFormat(TransactionId { value: 3 }))
    ));
    assert!(matches!(
        run("type, client, tx, amount\nresolve, 1, 4, 1.0\n"),
        Err(TransactionReaderError::InvalidResolveFormat(TransactionId { value: 4 }))
    ));
    assert!(matches!(
        run("type, client, tx, amount\nchargeback, 1, 5, 1.0\n"),
        Err(TransactionReaderError::InvalidChargebackFormat(TransactionId { value: 5 }))
    ));
}

#[test]
fn first_error_wins() {
    assert!(matches!(
        run("type, client, tx, amount\ndeposit, 1, 1,\nbogus, 1, 2, 1.0\n"),
        Err(TransactionReaderError::InvalidDeposit(TransactionId { value: 1 }))
    ));
    assert!(matches!(
        run("type, client, tx, amount\nbogus, 1, 2, 1.0\ndeposit, 1, 1,\n"),
        Err(TransactionReaderError::InvalidField(1))
    ));
}

#[test]
fn undecodable_fields_and_missing_columns() {
    assert!(matches!(
        run("type, client, tx, amount\ndeposit, 70000, 1, 1.0\n"),
        Err(TransactionReaderError::InvalidField(1))
    ));
    assert!(matches!(
        run("type, client, amount\ndeposit, 1, 1.0\n"),
        Err(TransactionReaderError::MissingColumn)
    ));
}

#[test]
fn columns_are_found_by_name() {
    let out = run("amount, tx, client, type\n2.5, 1, 4, deposit\n").unwrap();
    assert_eq!(out, "client, available, held, total, locked\n4,2.5,0,2.5,false\n");
}

#[test]
fn empty_input_gives_the_header_alone() {
    assert_eq!(run("").unwrap(), "client, available, held, total, locked\n");
    let rows: Vec<Vec<Vec<u8>>> = Vec::new();
    assert_eq!(process_rows(&rows).unwrap(), bytes("client, available, held, total, locked\n"));
}

#[test]
fn records_are_grouped_per_client_in_order() {
    let groups = read_client_transactions(
        b"type, client, tx, amount\ndeposit, 2, 1, 1\ndeposit, 1, 2, 1\nwithdrawal, 2, 3, 1\n",
    )
    .unwrap();
    assert_eq!(groups.len(), 2);
    assert_eq!(groups[0].client, ClientId { value: 2 });
    let txs: Vec<u32> = groups[0].transactions.iter().map(|r| r.tx.value).collect();
    assert_eq!(txs, vec![1, 3]);
    assert_eq!(groups[1].transactions.len(), 1);
}

#[test]
fn validator_rejects_without_touching_the_map() {
    let mut map = Vec::new();
    let bad = PaymentRecord {
        transaction_type: TransactionType::Withdrawal,
        client: ClientId { value: 1 },
        tx: TransactionId { value: 9 },
        amount: None,
    };
    assert!(matches!(
        validate_pre_process_record(&mut map, bad),
        Err(TransactionReaderError::InvalidWithdrawal(TransactionId { value: 9 }))
    ));
    assert!(map.is_empty());
    let good = PaymentRecord { amount: Some(Amount { value: 1 }), ..bad };
    assert!(validate_pre_process_record(&mut map, good).is_ok());
    assert!(validate_pre_process_record(&mut map, good).is_ok());
    assert_eq!(map.len(), 1);
    assert_eq!(map[0].transactions.len(), 2);
    let grouped = group_records(&vec![good, bad]);
    assert!(grouped.is_err());
}
