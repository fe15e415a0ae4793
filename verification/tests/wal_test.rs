use dspatch_router::wal::{Wal, WalDirection, WalError};

fn parse(text: &str) -> serde_json::Value {
    serde_json::from_str(text).unwrap()
}

fn append(wal: &mut Wal, direction: WalDirection, data: &str) -> u64 {
    let pending = wal.begin_append(direction, 1_700_000_000_000, data).unwrap();
    wal.commit_append(pending).unwrap()
}

#[test]
fn append_and_read_entries() {
    let mut wal = Wal::new();

    append(&mut wal, WalDirection::Outbound, r#"{"type":"agent.output.message"}"#);
    append(&mut wal, WalDirection::Outbound, r#"{"type":"agent.output.log"}"#);

    let entries = wal.unacked_entries(WalDirection::Outbound);
    assert_eq!(entries.len(), 2);
    assert_eq!(entries[0].seq, 1);
    assert_eq!(entries[1].seq, 2);
}

#[test]
fn ack_truncates() {
    let mut wal = Wal::new();

    append(&mut wal, WalDirection::Outbound, r#"{"seq":1}"#);
    append(&mut wal, WalDirection::Outbound, r#"{"seq":2}"#);
    append(&mut wal, WalDirection::Outbound, r#"{"seq":3}"#);

    wal.ack(WalDirection::Outbound, 2);
    let remaining = wal.unacked_entries(WalDirection::Outbound);
    assert_eq!(remaining.len(), 1);
    assert_eq!(remaining[0].seq, 3);
}

#[test]
fn survives_reopen() {
    let rows = {
        let mut wal = Wal::new();
        append(&mut wal, WalDirection::Outbound, r#"{"msg":"hello"}"#);
        append(&mut wal, WalDirection::Outbound, r#"{"msg":"world"}"#);
        wal.ack(WalDirection::Outbound, 1);
        wal.rows()
    };

    let wal = Wal::from_lines(&rows).unwrap();
    let entries = wal.unacked_entries(WalDirection::Outbound);
    assert_eq!(entries.len(), 1);
    assert_eq!(parse(&entries[0].data)["msg"], "world");
}

#[test]
fn bidirectional_independence() {
    let mut wal = Wal::new();

    append(&mut wal, WalDirection::Outbound, r#"{"dir":"out"}"#);
    append(&mut wal, WalDirection::Inbound, r#"{"dir":"in"}"#);

    assert_eq!(wal.unacked_entries(WalDirection::Outbound).len(), 1);
    assert_eq!(wal.unacked_entries(WalDirection::Inbound).len(), 1);

    wal.ack(WalDirection::Outbound, 1);
    assert_eq!(wal.unacked_entries(WalDirection::Outbound).len(), 0);
    assert_eq!(wal.unacked_entries(WalDirection::Inbound).len(), 1);
}

#[test]
fn rows_are_json_lines_of_four_fields() {
    let mut wal = Wal::new();
    let pending = wal.begin_append(WalDirection::Inbound, 42, r#"{"a":1}"#).unwrap();
    assert_eq!(pending.seq(), 1);
    let row = parse(pending.row());
    assert_eq!(row, parse(r#"[1,"inbound",42,{"a":1}]"#));
    wal.commit_append(pending).unwrap();
    let rows = wal.rows();
    assert_eq!(rows.len(), 1);
    assert_eq!(parse(&rows[0]), parse(r#"[1,"inbound",42,{"a":1}]"#));
    let e = &wal.unacked_entries(WalDirection::Inbound)[0];
    assert_eq!(e.timestamp_ms, 42);
    assert_eq!(e.direction, WalDirection::Inbound);
    assert_eq!(parse(e.row()), parse(&rows[0]));
}

#[test]
fn reopen_skips_unreadable_lines_and_continues_numbering() {
    let lines = vec![
        r#"[3,"outbound",10,{"x":1}]"#.to_string(),
        "".to_string(),
        "garbage".to_string(),
        r#"[9,"sideways",10,{}]"#.to_string(),
        r#"[7,"inbound",11,"text"]"#.to_string(),
    ];
    let mut wal = Wal::from_lines(&lines).unwrap();
    assert_eq!(wal.unacked_entries(WalDirection::Outbound).len(), 1);
    let inbound = wal.unacked_entries(WalDirection::Inbound);
    assert_eq!(inbound.len(), 1);
    assert_eq!(inbound[0].seq, 7);
    assert_eq!(parse(&inbound[0].data), "text");
    assert_eq!(append(&mut wal, WalDirection::Outbound, "null"), 8);
}

#[test]
fn reopen_of_an_empty_file() {
    let mut wal = Wal::from_lines(&vec![]).unwrap();
    assert!(wal.rows().is_empty());
    assert_eq!(append(&mut wal, WalDirection::Outbound, "{}"), 1);
}

#[test]
fn data_that_is_not_json_is_refused_without_using_a_number() {
    let mut wal = Wal::new();
    assert_eq!(wal.begin_append(WalDirection::Outbound, 0, "{broken").unwrap_err(), WalError::InvalidData);
    assert_eq!(append(&mut wal, WalDirection::Outbound, "{}"), 1);
}

#[test]
fn exhausted_numbering_is_refused() {
    let lines = vec![format!(r#"[{},"outbound",0,{{}}]"#, u64::MAX)];
    assert_eq!(Wal::from_lines(&lines).err(), Some(WalError::SequenceExhausted));
    let lines = vec![format!(r#"[{},"outbound",0,{{}}]"#, u64::MAX - 1)];
    let mut wal = Wal::from_lines(&lines).unwrap();
    assert_eq!(wal.begin_append(WalDirection::Outbound, 0, "{}").unwrap_err(), WalError::SequenceExhausted);
}

#[test]
fn ack_of_one_direction_keeps_the_other_and_later_entries() {
    let mut wal = Wal::new();
    append(&mut wal, WalDirection::Outbound, "1");
    append(&mut wal, WalDirection::Inbound, "2");
    append(&mut wal, WalDirection::Outbound, "3");
    append(&mut wal, WalDirection::Inbound, "4");
    wal.ack(WalDirection::Inbound, 3);
    let seqs: Vec<u64> = wal.unacked_entries(WalDirection::Inbound).iter().map(|e| e.seq).collect();
    assert_eq!(seqs, vec![4]);
    let seqs: Vec<u64> = wal.unacked_entries(WalDirection::Outbound).iter().map(|e| e.seq).collect();
    assert_eq!(seqs, vec![1, 3]);
    assert_eq!(wal.rows().len(), 3);
}

#[test]
fn direction_names() {
    assert_eq!(WalDirection::Outbound.as_str(), "outbound");
    assert_eq!(WalDirection::Inbound.as_str(), "inbound");
    assert_eq!(WalDirection::parse("inbound"), Some(WalDirection::Inbound));
    assert_eq!(WalDirection::parse("Inbound"), None);
}

#[test]
fn stored_data_is_the_package_without_surrounding_whitespace() {
    let mut wal = Wal::new();
    let p = wal.begin_append(WalDirection::Outbound, 5, " \n{\"a\": [1, 2]}\t ").unwrap();
    wal.commit_append(p).unwrap();
    let e = &wal.unacked_entries(WalDirection::Outbound)[0];
    assert_eq!(e.data, "{\"a\": [1, 2]}");
    let reopened = Wal::from_lines(&wal.rows()).unwrap();
    assert_eq!(reopened.unacked_entries(WalDirection::Outbound)[0].data, "{\"a\": [1, 2]}");
}

#[test]
fn raw_json_beyond_value_limits_is_logged() {
    let mut wal = Wal::new();
    let deep = format!("{}{}", "[".repeat(200), "]".repeat(200));
    assert_eq!(append(&mut wal, WalDirection::Outbound, "1e400"), 1);
    assert_eq!(append(&mut wal, WalDirection::Outbound, &deep), 2);
    assert_eq!(wal.unacked_entries(WalDirection::Outbound)[1].data, deep);
}

#[test]
fn commits_out_of_order_are_refused() {
    let mut wal = Wal::new();
    let a = wal.begin_append(WalDirection::Outbound, 0, "1").unwrap();
    let b = wal.begin_append(WalDirection::Outbound, 0, "2").unwrap();
    assert_eq!(wal.commit_append(b).unwrap(), 2);
    assert_eq!(wal.commit_append(a).unwrap_err(), WalError::OutOfOrder);
    assert_eq!(wal.rows().len(), 1);

    let mut other = Wal::new();
    let foreign = other.begin_append(WalDirection::Outbound, 0, "3").unwrap();
    assert_eq!(wal.commit_append(foreign).unwrap_err(), WalError::OutOfOrder);
}
