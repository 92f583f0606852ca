use client_ledger::amount::{Amount, MAX_MANTISSA};
use client_ledger::ledger::{Ledger, LedgerError, Transaction};
use client_ledger::model::ClientInfo;
use client_ledger::storage::{
    date_stamp, is_snapshot_file, next_sequence_for_today, render_snapshot, today, FileStorage, SnapshotDate,
};

fn info(document_number: &str) -> ClientInfo {
    ClientInfo {
        name: "Ana".to_string(),
        birth_date: "1990-01-01".to_string(),
        document_number: document_number.to_string(),
        country: "BR".to_string(),
    }
}

fn amount(mantissa: i128, scale: u32) -> Amount {
    Amount::new(mantissa, scale).unwrap()
}

fn text(a: &Amount) -> String {
    a.to_text()
}

fn balance(ledger: &Ledger, id: &str) -> String {
    text(&ledger.find_client(&id.to_string()).unwrap().balance)
}

#[test]
fn scenario_create_credit_debit_snapshot() {
    let mut ledger = Ledger::new();
    let id = ledger.create_client(info("123"), "A".to_string()).unwrap();
    assert_eq!(id, "A");
    assert_eq!(balance(&ledger, "A"), "0");
    let b = ledger.credit(&id, amount(10000, 2)).unwrap();
    assert_eq!(text(&b), "100.00");
    let b = ledger.debit(&id, amount(3000, 2)).unwrap();
    assert_eq!(text(&b), "70.00");
    let r = ledger.debit(&id, amount(100000, 2));
    assert!(matches!(r, Err(LedgerError::InsufficientFunds { .. })));
    assert_eq!(balance(&ledger, "A"), "70.00");
    let records = ledger.snapshot_and_reset();
    assert_eq!(records.len(), 1);
    assert_eq!(records[0].0, "A");
    assert_eq!(text(&records[0].1), "70.00");
    assert_eq!(balance(&ledger, "A"), "0");
    assert_eq!(render_snapshot(&records), "A 70.00\n");
    let date = SnapshotDate { year: 2024, month: 12, day: 25 };
    let stamp = date_stamp(&date);
    let storage = FileStorage::new("./db/");
    let sequence = next_sequence_for_today(&Vec::new(), &stamp);
    assert_eq!(storage.file_path(&stamp, sequence), "./db/25122024_1.DAT");
}

#[test]
fn duplicate_document_is_refused() {
    let mut ledger = Ledger::new();
    ledger.create_client(info("42"), "first".to_string()).unwrap();
    let r = ledger.create_client(info("42"), "second".to_string());
    match r {
        Err(LedgerError::DuplicateIdentity { document_number }) => assert_eq!(document_number, "42"),
        _ => panic!("expected a duplicate identity"),
    }
    assert_eq!(ledger.len(), 1);
    assert!(ledger.find_client(&"second".to_string()).is_err());
}

#[test]
fn distinct_documents_are_all_created() {
    let mut ledger = Ledger::new();
    for k in 0..20 {
        let r = ledger.create_client_with_new_id(info(&format!("doc-{}", k)));
        assert_eq!(r.unwrap().len(), 36);
    }
    assert_eq!(ledger.len(), 20);
    assert!(ledger.has_document(&"doc-7".to_string()));
    assert!(!ledger.has_document(&"doc-20".to_string()));
}

#[test]
fn taken_id_is_refused() {
    let mut ledger = Ledger::new();
    ledger.create_client(info("1"), "X".to_string()).unwrap();
    let r = ledger.create_client(info("2"), "X".to_string());
    assert!(matches!(r, Err(LedgerError::IdInUse { .. })));
    assert_eq!(ledger.len(), 1);
}

#[test]
fn credit_then_debit_restores_balance() {
    let mut ledger = Ledger::new();
    let id = ledger.create_client(info("9"), "B".to_string()).unwrap();
    ledger.credit(&id, amount(15, 1)).unwrap();
    let before = ledger.find_client(&id).unwrap().balance;
    ledger.credit(&id, amount(25, 2)).unwrap();
    assert_eq!(balance(&ledger, "B"), "1.75");
    let after = ledger.debit(&id, amount(25, 2)).unwrap();
    assert!(!after.is_less_than(&before) && !before.is_less_than(&after));
    assert_eq!(text(&after), "1.50");
}

#[test]
fn debit_beyond_balance_changes_nothing() {
    let mut ledger = Ledger::new();
    let id = ledger.create_client(info("5"), "C".to_string()).unwrap();
    ledger.credit(&id, amount(5, 0)).unwrap();
    let r = ledger.debit(&id, amount(501, 2));
    match r {
        Err(LedgerError::InsufficientFunds { id }) => assert_eq!(id, "C"),
        _ => panic!("expected insufficient funds"),
    }
    assert_eq!(balance(&ledger, "C"), "5");
    assert_eq!(text(&ledger.debit(&id, amount(500, 2)).unwrap()), "0.00");
}

#[test]
fn unknown_id_is_not_found() {
    let mut ledger = Ledger::new();
    let missing = "nobody".to_string();
    assert!(matches!(ledger.credit(&missing, amount(1, 0)), Err(LedgerError::NotFound { .. })));
    assert!(matches!(ledger.debit(&missing, amount(1, 0)), Err(LedgerError::NotFound { .. })));
    match ledger.find_client(&missing) {
        Err(LedgerError::NotFound { id }) => assert_eq!(id, "nobody"),
        _ => panic!("expected not found"),
    }
    let r = ledger.apply(&missing, amount(1, 0), Transaction::Credit);
    assert!(matches!(r, Err(LedgerError::NotFound { .. })));
}

#[test]
fn credit_past_the_largest_balance_overflows() {
    let mut ledger = Ledger::new();
    let id = ledger.create_client(info("7"), "D".to_string()).unwrap();
    ledger.credit(&id, amount(MAX_MANTISSA, 0)).unwrap();
    let r = ledger.credit(&id, amount(1, 0));
    assert!(matches!(r, Err(LedgerError::Overflow { .. })));
    assert_eq!(balance(&ledger, "D"), "79228162514264337593543950335");
}

#[test]
fn snapshot_sums_and_resets() {
    let mut ledger = Ledger::new();
    let a = ledger.create_client(info("1"), "A".to_string()).unwrap();
    let b = ledger.create_client(info("2"), "B".to_string()).unwrap();
    ledger.credit(&a, amount(1050, 2)).unwrap();
    ledger.credit(&b, amount(5, 1)).unwrap();
    let records = ledger.snapshot_and_reset();
    let total = records[0].1.checked_add(&records[1].1).unwrap();
    assert_eq!(text(&total), "11.00");
    assert_eq!(render_snapshot(&records), "A 10.50\nB 0.5\n");
    let after = ledger.snapshot();
    assert_eq!(text(&after[0].1), "0");
    assert_eq!(text(&after[1].1), "0");
    let again = ledger.snapshot_and_reset();
    assert_eq!(render_snapshot(&again), "A 0\nB 0\n");
}

#[test]
fn sequence_counts_the_days_files() {
    let stamp = "25122024".to_string();
    let names = vec![
        "25122024_1.DAT".to_string(),
        "24122024_1.DAT".to_string(),
        "25122024_2.txt".to_string(),
        "25122024_2.DAT".to_string(),
    ];
    assert_eq!(next_sequence_for_today(&names, &stamp), 2);
    assert_eq!(next_sequence_for_today(&names, &stamp), 2);
    let storage = FileStorage::new("./db/");
    let path = storage.file_path(&stamp, 2);
    assert_eq!(path, "./db/25122024_3.DAT");
    let mut written = names.clone();
    written.push("25122024_3.DAT".to_string());
    assert_eq!(next_sequence_for_today(&written, &stamp), 3);
}

#[test]
fn snapshot_file_names() {
    let stamp = "01022025".to_string();
    assert!(is_snapshot_file(&"01022025_10.DAT".to_string(), &stamp));
    assert!(!is_snapshot_file(&"01022025_1.dat".to_string(), &stamp));
    assert!(!is_snapshot_file(&"x01022025_1.DAT".to_string(), &stamp));
    assert!(!is_snapshot_file(&"0102".to_string(), &stamp));
}

#[test]
fn date_stamps() {
    assert_eq!(date_stamp(&SnapshotDate { year: 2024, month: 12, day: 25 }), "25122024");
    assert_eq!(date_stamp(&SnapshotDate { year: 987, month: 3, day: 7 }), "07030987");
    let now = today();
    assert!((1..=12).contains(&now.month));
    assert_eq!(date_stamp(&now).len(), 8);
}

#[test]
fn amounts() {
    assert!(Amount::new(MAX_MANTISSA + 1, 0).is_none());
    assert!(Amount::new(1, 29).is_none());
    assert_eq!(text(&amount(5, 2)), "0.05");
    assert_eq!(text(&amount(-15, 1)), "-1.5");
    assert_eq!(text(&Amount::zero()), "0");
    assert!(amount(1, 0).is_less_than(&amount(101, 2)));
    assert!(!amount(100, 2).is_less_than(&amount(1, 0)));
    let sum = amount(1, 0).checked_add(&amount(5, 2)).unwrap();
    assert_eq!((sum.mantissa, sum.scale), (105, 2));
    let difference = amount(1, 0).checked_sub(&amount(5, 2)).unwrap();
    assert_eq!(text(&difference), "0.95");
    assert!(amount(MAX_MANTISSA, 0).checked_add(&amount(1, 0)).is_none());
}

#[test]
fn storage_directory() {
    let storage = FileStorage::new("/tmp/snapshots/");
    assert_eq!(storage.directory(), "/tmp/snapshots/");
}
