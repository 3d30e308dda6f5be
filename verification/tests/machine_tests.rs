use turing::machine::{RunOutcome, StepOutcome, TraceEvent, Turing};
use turing::table::{Move, ParseError};

fn blank_tape() -> Vec<u8> {
    vec![b'B'; 64]
}

fn padded(middle: &[u8]) -> Vec<u8> {
    let mut t = vec![b'B'; 32];
    t.extend_from_slice(middle);
    t.extend_from_slice(&vec![b'B'; 32]);
    t
}

#[test]
fn new_machine_blank_tape() {
    let t = Turing::new();
    assert_eq!(t.get_tape(), blank_tape());
    assert_eq!(t.position(), 32);
    assert_eq!(t.state(), 0);
}

#[test]
fn set_tape_writes_at_center() {
    let mut t = Turing::new();
    t.set_tape("AB");
    assert_eq!(t.get_tape(), padded(b"AB"));
    assert_eq!(t.position(), 32);
    assert_eq!(t.state(), 0);
}

#[test]
fn set_input_error_leaves_machine_unchanged() {
    let mut t = Turing::new();
    assert_eq!(t.set_input("0"), Err(ParseError { record: 0 }));
    assert_eq!(t.get_tape(), blank_tape());
    assert_eq!(t.position(), 32);
    assert_eq!(t.state(), 0);
    let (trace, outcome) = t.run(100);
    assert_eq!(outcome, RunOutcome::Halted);
    assert!(trace.is_empty());
}

#[test]
fn no_transition_for_start_state_halts_at_once() {
    let mut t = Turing::new();
    t.set_input("111R1").unwrap();
    t.set_tape("A");
    let (trace, outcome) = t.run(1000);
    assert_eq!(outcome, RunOutcome::Halted);
    assert!(trace.is_empty());
    assert_eq!(t.get_tape(), padded(b"A"));
    assert_eq!(t.position(), 32);
    assert_eq!(t.state(), 0);
}

#[test]
fn halting_is_idempotent() {
    let mut t = Turing::new();
    t.set_tape("A");
    assert_eq!(t.step(), StepOutcome::Halted);
    let tape_after_first = t.get_tape();
    assert_eq!(t.step(), StepOutcome::Halted);
    assert_eq!(t.get_tape(), tape_after_first);
    assert_eq!(t.position(), 32);
    assert_eq!(t.state(), 0);
}

#[test]
fn step_applies_one_transition() {
    let mut t = Turing::new();
    t.set_input("0AZR7").unwrap();
    t.set_tape("A");
    let r = t.step();
    assert_eq!(
        r,
        StepOutcome::Transitioned(TraceEvent {
            prev_state: 0,
            read: b'A',
            written: b'Z',
            mv: Move::Right,
            next_state: 7,
            pos: 33,
        })
    );
    assert_eq!(t.get_tape(), padded(b"Z"));
    assert_eq!(t.position(), 33);
    assert_eq!(t.state(), 7);
    assert_eq!(t.step(), StepOutcome::Halted);
}

#[test]
fn twos_complement_program() {
    let mut t = Turing::new();
    t.set_input("001R0,010R0,0BBL1,101L2,200L2,211L2,2BBR5,110L3,310L3,301L2")
        .unwrap();
    t.set_tape("1010");
    let (trace, outcome) = t.run(1000);
    assert_eq!(outcome, RunOutcome::Halted);
    assert_eq!(t.get_tape(), padded(b"0110"));
    assert_eq!(trace.len(), 10);
    assert_eq!(t.state(), 5);
    assert_eq!(t.position(), 32);
    assert_eq!(
        trace[0],
        TraceEvent {
            prev_state: 0,
            read: b'1',
            written: b'0',
            mv: Move::Right,
            next_state: 0,
            pos: 33,
        }
    );
    assert_eq!(
        trace[9],
        TraceEvent {
            prev_state: 2,
            read: b'B',
            written: b'B',
            mv: Move::Right,
            next_state: 5,
            pos: 32,
        }
    );
}

#[test]
fn identical_runs_are_byte_identical() {
    let make = || {
        let mut t = Turing::new();
        t.set_input("001R0,010R0,0BBL1,101L2,200L2,211L2,2BBR5,110L3,310L3,301L2")
            .unwrap();
        t.set_tape("1010");
        t
    };
    let mut a = make();
    let mut b = make();
    let (trace_a, out_a) = a.run(1000);
    let (trace_b, out_b) = b.run(1000);
    assert_eq!(out_a, out_b);
    assert_eq!(trace_a, trace_b);
    assert_eq!(a.get_tape(), b.get_tape());
}

#[test]
fn running_off_the_right_edge_is_reported() {
    let mut t = Turing::new();
    t.set_input("0BBR0").unwrap();
    let (trace, outcome) = t.run(1000);
    assert_eq!(outcome, RunOutcome::OutOfBounds { state: 0, pos: 63 });
    assert_eq!(trace.len(), 31);
    assert_eq!(t.get_tape(), blank_tape());
    assert_eq!(t.position(), 63);
}

#[test]
fn running_off_the_left_edge_is_reported() {
    let mut t = Turing::new();
    t.set_input("0BBL0").unwrap();
    let (trace, outcome) = t.run(1000);
    assert_eq!(outcome, RunOutcome::OutOfBounds { state: 0, pos: 0 });
    assert_eq!(trace.len(), 32);
    assert_eq!(t.get_tape(), blank_tape());
    assert_eq!(t.position(), 0);
}

#[test]
fn start_state_can_be_overridden() {
    let mut t = Turing::new();
    t.set_input("111R1").unwrap();
    t.set_tape("1");
    t.set_state(1);
    assert_eq!(t.state(), 1);
    let r = t.step();
    assert_eq!(
        r,
        StepOutcome::Transitioned(TraceEvent {
            prev_state: 1,
            read: b'1',
            written: b'1',
            mv: Move::Right,
            next_state: 1,
            pos: 33,
        })
    );
}

#[test]
fn step_budget_stops_a_runaway_machine() {
    let mut t = Turing::new();
    t.set_input("0BBR0").unwrap();
    let (trace, outcome) = t.run(3);
    assert_eq!(outcome, RunOutcome::StepLimit);
    assert_eq!(trace.len(), 3);
    assert_eq!(t.position(), 35);
}
