use turing::table::{Move, ParseError, TransitionTable, TransitionValue};

#[test]
fn parse_single_record_lookup() {
    let t = TransitionTable::parse(&b"001R0".to_vec()).unwrap();
    assert_eq!(
        t.lookup(0, b'0'),
        Some(TransitionValue { write: b'1', mv: Move::Right, next: 0 })
    );
    assert_eq!(t.lookup(1, b'0'), None);
    assert_eq!(t.lookup(0, b'1'), None);
}

#[test]
fn parse_rejects_too_short() {
    assert_eq!(TransitionTable::parse(&b"0".to_vec()).unwrap_err(), ParseError { record: 0 });
}

#[test]
fn parse_rejects_empty() {
    assert_eq!(TransitionTable::parse(&b"".to_vec()).unwrap_err(), ParseError { record: 0 });
}

#[test]
fn parse_rejects_too_long() {
    assert_eq!(TransitionTable::parse(&b"0AAR00".to_vec()).unwrap_err(), ParseError { record: 0 });
}

#[test]
fn parse_rejects_bad_move() {
    assert_eq!(TransitionTable::parse(&b"0AAX0".to_vec()).unwrap_err(), ParseError { record: 0 });
}

#[test]
fn parse_rejects_bad_current_state() {
    assert_eq!(TransitionTable::parse(&b"XAAR0".to_vec()).unwrap_err(), ParseError { record: 0 });
}

#[test]
fn parse_rejects_bad_next_state() {
    assert_eq!(TransitionTable::parse(&b"0AARX".to_vec()).unwrap_err(), ParseError { record: 0 });
}

#[test]
fn parse_reports_first_bad_record() {
    assert_eq!(
        TransitionTable::parse(&b"0AAR0,0AAX0".to_vec()).unwrap_err(),
        ParseError { record: 1 }
    );
    assert_eq!(
        TransitionTable::parse(&b"0AAR0,1BBL1,zz".to_vec()).unwrap_err(),
        ParseError { record: 2 }
    );
}

#[test]
fn duplicate_key_last_record_wins() {
    let t = TransitionTable::parse(&b"0AXR1,0AYL2".to_vec()).unwrap();
    assert_eq!(
        t.lookup(0, b'A'),
        Some(TransitionValue { write: b'Y', mv: Move::Left, next: 2 })
    );
}

#[test]
fn parse_full_program() {
    let prog = b"001R0,010R0,0BBL1,101L2,200L2,211L2,2BBR5,110L3,310L3,301L2".to_vec();
    let t = TransitionTable::parse(&prog).unwrap();
    assert_eq!(
        t.lookup(0, b'B'),
        Some(TransitionValue { write: b'B', mv: Move::Left, next: 1 })
    );
    assert_eq!(
        t.lookup(3, b'0'),
        Some(TransitionValue { write: b'1', mv: Move::Left, next: 2 })
    );
    assert_eq!(t.lookup(5, b'0'), None);
    assert_eq!(t.lookup(5, b'B'), None);
}
