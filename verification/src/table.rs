//! The transition table: a mapping from (state, symbol read) to
//! (symbol written, head move, next state), built once from program text
//! and immutable afterwards.
//!
//! Program text is a comma-separated list of records.  A record is exactly
//! five bytes, `<state><input><output><move><state>`: a decimal digit for
//! the current state, the symbol read, the symbol written, `L` or `R`, and
//! a decimal digit for the next state.  A record of any other shape is
//! rejected with a [`ParseError`] naming it.  Two records with the same
//! (state, input) key are allowed: the later one overwrites the earlier
//! (last write wins).

use std::collections::HashMap;
use vstd::prelude::*;

verus! {

broadcast use vstd::std_specs::hash::group_hash_axioms;

/// The byte that separates records in program text.
pub const RECORD_SEPARATOR: u8 = 44;

/// The byte encoding a move of the head one cell to the left.
pub const MOVE_LEFT: u8 = 76;

/// The byte encoding a move of the head one cell to the right.
pub const MOVE_RIGHT: u8 = 82;

/// The lowest byte that encodes a state digit.
pub const DIGIT_ZERO: u8 = 48;

/// The highest byte that encodes a state digit.
pub const DIGIT_NINE: u8 = 57;

/// A head displacement: one cell to the left or one to the right.
///
/// These are the only two displacements a transition can ask for; any
/// other move byte in a record is rejected at parse time, so no invalid
/// move can reach a running machine.
#[derive(Clone, Copy, Debug, PartialEq, Eq, Structural)]
pub enum Move {
    Left,
    Right,
}

/// What a transition does: the symbol it writes over the cell under the
/// head, the move it applies to the head, and the state it enters.
#[derive(Clone, Copy, Debug, PartialEq, Eq, Structural)]
pub struct TransitionValue {
    /// The symbol written into the cell under the head.
    pub write: u8,
    /// The displacement applied to the head.
    pub mv: Move,
    /// The control state entered after the transition.
    pub next: u8,
}

/// A malformed program record: `record` is the index, counted from zero,
/// of the first record that is not a well-formed five-byte transition.
#[derive(Clone, Copy, Debug, PartialEq, Eq, Structural)]
pub struct ParseError {
    /// Index of the offending record within the comma-separated list.
    pub record: usize,
}

/// The key under which a transition is stored: the current state in the
/// high byte, the symbol read in the low byte.
pub open spec fn trans_key(state: u8, sym: u8) -> u16 {
    (state * 256 + sym) as u16
}

/// Whether `b` is a decimal digit, as state fields of a record must be.
pub open spec fn is_state_digit(b: u8) -> bool {
    DIGIT_ZERO <= b <= DIGIT_NINE
}

/// Whether `r` is a well-formed record: exactly five bytes, digit state
/// fields, and a move field that is `L` or `R`.  The two symbol fields
/// may hold any byte.
pub open spec fn wf_record(r: Seq<u8>) -> bool {
    &&& r.len() == 5
    &&& is_state_digit(r[0])
    &&& r[3] == MOVE_LEFT || r[3] == MOVE_RIGHT
    &&& is_state_digit(r[4])
}

/// The table key a well-formed record inserts under.
pub open spec fn record_key(r: Seq<u8>) -> u16 {
    trans_key((r[0] - DIGIT_ZERO) as u8, r[1])
}

/// The transition a well-formed record inserts.
pub open spec fn record_value(r: Seq<u8>) -> TransitionValue {
    TransitionValue {
        write: r[2],
        mv: if r[3] == MOVE_LEFT {
            Move::Left
        } else {
            Move::Right
        },
        next: (r[4] - DIGIT_ZERO) as u8,
    }
}

/// Index of the first record separator in `s`, or `s.len()` if there is
/// none.
pub open spec fn first_sep(s: Seq<u8>) -> int
    decreases s.len(),
{
    if s.len() == 0 {
        0
    } else if s[0] == RECORD_SEPARATOR {
        0
    } else {
        1 + first_sep(s.skip(1))
    }
}

pub proof fn lemma_first_sep_bounds(s: Seq<u8>)
    ensures
        0 <= first_sep(s) <= s.len(),
        first_sep(s) < s.len() ==> s[first_sep(s)] == RECORD_SEPARATOR,
        forall|j: int| 0 <= j < first_sep(s) ==> s[j] != RECORD_SEPARATOR,
    decreases s.len(),
{
    if s.len() != 0 && s[0] != RECORD_SEPARATOR {
        lemma_first_sep_bounds(s.skip(1));
        assert forall|j: int| 0 <= j < first_sep(s) implies s[j] != RECORD_SEPARATOR by {
            if j > 0 {
                assert(s.skip(1)[j - 1] == s[j]);
            }
        }
    }
}

/// Pins `first_sep` down from the outside: if nothing before `k` is a
/// separator and `k` is one (or the end), then `k` is the first.
pub proof fn lemma_first_sep_is(s: Seq<u8>, k: int)
    requires
        0 <= k <= s.len(),
        forall|j: int| 0 <= j < k ==> s[j] != RECORD_SEPARATOR,
        k < s.len() ==> s[k] == RECORD_SEPARATOR,
    ensures
        first_sep(s) == k,
    decreases k,
{
    if k == 0 {
        if s.len() > 0 && s[0] != RECORD_SEPARATOR {
            lemma_first_sep_bounds(s);
        }
    } else {
        assert(s[0] != RECORD_SEPARATOR);
        let t = s.skip(1);
        assert forall|j: int| 0 <= j < k - 1 implies t[j] != RECORD_SEPARATOR by {
            assert(t[j] == s[j + 1]);
        }
        assert(k - 1 < t.len() ==> t[k - 1] == RECORD_SEPARATOR);
        lemma_first_sep_is(t, k - 1);
    }
}

/// The records of program text `s`: the chunks between separators, in
/// order.  Program text always holds at least one record; empty text is
/// one empty (and hence malformed) record.
pub open spec fn split_records(s: Seq<u8>) -> Seq<Seq<u8>>
    decreases s.len(),
{
    let i = first_sep(s);
    if 0 <= i < s.len() {
        seq![s.take(i)] + split_records(s.skip(i + 1))
    } else {
        seq![s]
    }
}

pub proof fn lemma_split_records_nonempty(s: Seq<u8>)
    ensures
        split_records(s).len() >= 1,
{
    let i = first_sep(s);
    if 0 <= i < s.len() {
    }
}

/// Whether every record of program text `s` is well-formed.
pub open spec fn program_wf(s: Seq<u8>) -> bool {
    forall|j: int| 0 <= j < split_records(s).len() ==> wf_record(#[trigger] split_records(s)[j])
}

/// The mapping that a sequence of well-formed records builds: each record
/// inserted in order, so a later record overwrites an earlier one with
/// the same key.
pub open spec fn table_of(recs: Seq<Seq<u8>>) -> Map<u16, TransitionValue>
    decreases recs.len(),
{
    if recs.len() == 0 {
        Map::empty()
    } else {
        table_of(recs.drop_last()).insert(record_key(recs.last()), record_value(recs.last()))
    }
}

/// The mapping that well-formed program text builds.
pub open spec fn program_table(s: Seq<u8>) -> Map<u16, TransitionValue> {
    table_of(split_records(s))
}

proof fn lemma_table_of_remove_agrees(recs: Seq<Seq<u8>>, i: int, k: u16)
    requires
        0 <= i < recs.len(),
        k != record_key(recs[i]),
    ensures
        table_of(recs).contains_key(k) <==> table_of(recs.remove(i)).contains_key(k),
        table_of(recs).contains_key(k) ==> table_of(recs)[k] == table_of(recs.remove(i))[k],
    decreases recs.len(),
{
    let last = recs.last();
    let dl = recs.drop_last();
    assert(table_of(recs) == table_of(dl).insert(record_key(last), record_value(last)));
    if i == recs.len() - 1 {
        assert(recs.remove(i) =~= dl);
    } else {
        assert(recs.remove(i).last() == last);
        assert(recs.remove(i).drop_last() =~= dl.remove(i));
        assert(recs.remove(i).len() > 0);
        assert(table_of(recs.remove(i)) == table_of(dl.remove(i)).insert(
            record_key(last),
            record_value(last),
        ));
        assert(dl[i] == recs[i]);
        lemma_table_of_remove_agrees(dl, i, k);
    }
}

/// Last write wins: a record whose (state, input) key is written again by
/// a later record contributes nothing, so the table built from `recs` is
/// the table built as if only the later record existed.
pub proof fn lemma_duplicate_key_overwritten(recs: Seq<Seq<u8>>, i: int, j: int)
    requires
        0 <= i < j < recs.len(),
        record_key(recs[j]) == record_key(recs[i]),
    ensures
        table_of(recs) == table_of(recs.remove(i)),
    decreases recs.len(),
{
    let last = recs.last();
    let dl = recs.drop_last();
    let ki = record_key(recs[i]);
    assert(recs.remove(i).last() == last);
    assert(recs.remove(i).drop_last() =~= dl.remove(i));
    assert(recs.remove(i).len() > 0);
    assert(table_of(recs) == table_of(dl).insert(record_key(last), record_value(last)));
    assert(table_of(recs.remove(i)) == table_of(dl.remove(i)).insert(
        record_key(last),
        record_value(last),
    ));
    if j == recs.len() - 1 {
        assert(dl[i] == recs[i]);
        assert(record_key(last) == ki);
        assert forall|k: u16|
            table_of(recs).contains_key(k) <==> table_of(recs.remove(i)).contains_key(k) by {
            if k != ki {
                lemma_table_of_remove_agrees(dl, i, k);
            }
        }
        assert forall|k: u16| #[trigger]
            table_of(recs).contains_key(k) implies table_of(recs)[k] == table_of(recs.remove(i))[k] by {
            if k != ki {
                lemma_table_of_remove_agrees(dl, i, k);
            }
        }
        assert(table_of(recs) =~= table_of(recs.remove(i)));
    } else {
        assert(dl[i] == recs[i] && dl[j] == recs[j]);
        lemma_duplicate_key_overwritten(dl, i, j);
    }
}

/// An immutable-after-construction mapping from (state, symbol read) to
/// [`TransitionValue`], the data that drives the machine.
#[derive(Debug)]
pub struct TransitionTable {
    m: HashMap<u16, TransitionValue>,
}

impl View for TransitionTable {
    type V = Map<u16, TransitionValue>;

    closed spec fn view(&self) -> Map<u16, TransitionValue> {
        self.m@
    }
}

impl TransitionTable {
    /// An empty table: no transition matches anything, so a machine
    /// driven by it halts at once.
    pub fn new() -> (t: TransitionTable)
        ensures
            t@ == Map::<u16, TransitionValue>::empty(),
    {
        TransitionTable { m: HashMap::new() }
    }

    /// Builds the table from program text: the records between separators,
    /// each validated and inserted in order, a later record overwriting an
    /// earlier one with the same (state, input) key.  Parsing is strict:
    /// on the first malformed record the whole program is rejected and no
    /// partial table is handed out.
    pub fn parse(program: &Vec<u8>) -> (r: Result<TransitionTable, ParseError>)
        ensures
            match r {
                Ok(t) => program_wf(program@) && t@ == program_table(program@),
                Err(e) => {
                    &&& !program_wf(program@)
                    &&& e.record < split_records(program@).len()
                    &&& !wf_record(split_records(program@)[e.record as int])
                    &&& forall|j: int|
                        0 <= j < e.record ==> wf_record(#[trigger] split_records(program@)[j])
                },
            },
    {
        let ghost s = program@;
        let n = program.len();
        let mut m = HashMap::<u16, TransitionValue>::new();
        let ghost mut recs: Seq<Seq<u8>> = Seq::empty();
        let mut count: usize = 0;
        let mut start: usize = 0;
        let mut i: usize = 0;
        proof {
            assert(s.skip(0) =~= s);
            assert(recs + split_records(s) =~= split_records(s));
        }
        loop
            invariant_except_break
                n == s.len(),
                program@ == s,
                start <= i <= n,
                count == recs.len(),
                count <= start,
                m@ == table_of(recs),
                forall|j: int| 0 <= j < recs.len() ==> wf_record(#[trigger] recs[j]),
                split_records(s) == recs + split_records(s.skip(start as int)),
                forall|j: int| start <= j < i ==> s[j] != RECORD_SEPARATOR,
            ensures
                program@ == s,
                m@ == table_of(recs),
                forall|j: int| 0 <= j < recs.len() ==> wf_record(#[trigger] recs[j]),
                split_records(s) == recs,
            decreases n - i,
        {
            if i == n || program[i] == RECORD_SEPARATOR {
                let ghost rec = s.subrange(start as int, i as int);
                let ghost rem = s.skip(start as int);
                proof {
                    assert forall|j: int| 0 <= j < i - start implies rem[j] != RECORD_SEPARATOR by {
                        assert(rem[j] == s[start + j]);
                    }
                    lemma_first_sep_is(rem, i - start);
                    if i < n {
                        assert(rem.take(i - start) =~= rec);
                        assert(rem.skip(i - start + 1) =~= s.skip(i + 1));
                        assert(split_records(rem) == seq![rec] + split_records(s.skip(i + 1)));
                    } else {
                        assert(rem =~= rec);
                        assert(split_records(rem) == seq![rec]);
                    }
                    assert(split_records(rem)[0] == rec);
                    assert(split_records(s)[count as int] == rec);
                    assert forall|j: int| 0 <= j < count implies wf_record(
                        #[trigger] split_records(s)[j],
                    ) by {
                        assert(split_records(s)[j] == recs[j]);
                    }
                    lemma_split_records_nonempty(rem);
                }
                if i - start != 5 {
                    proof {
                        assert(rec.len() != 5);
                    }
                    return Err(ParseError { record: count });
                }
                let b0 = program[start];
                let b1 = program[start + 1];
                let b2 = program[start + 2];
                let b3 = program[start + 3];
                let b4 = program[start + 4];
                proof {
                    assert(rec[0] == b0 && rec[1] == b1 && rec[2] == b2 && rec[3] == b3 && rec[4]
                        == b4);
                }
                if b0 < DIGIT_ZERO || b0 > DIGIT_NINE || b4 < DIGIT_ZERO || b4 > DIGIT_NINE || (b3
                    != MOVE_LEFT && b3 != MOVE_RIGHT) {
                    return Err(ParseError { record: count });
                }
                let key: u16 = ((b0 - DIGIT_ZERO) as u16) * 256 + (b1 as u16);
                let value = TransitionValue {
                    write: b2,
                    mv: if b3 == MOVE_LEFT {
                        Move::Left
                    } else {
                        Move::Right
                    },
                    next: b4 - DIGIT_ZERO,
                };
                m.insert(key, value);
                proof {
                    assert(wf_record(rec));
                    assert(key == record_key(rec));
                    assert(value == record_value(rec));
                    assert(recs.push(rec).drop_last() =~= recs);
                    recs = recs.push(rec);
                }
                if i == n {
                    proof {
                        assert(split_records(s) =~= recs);
                    }
                    break;
                }
                count = count + 1;
                start = i + 1;
            }
            i = i + 1;
        }
        Ok(TransitionTable { m })
    }

    /// The transition for (state, symbol read), if the table holds one.
    /// Pure: the table is never changed by a lookup.
    pub fn lookup(&self, state: u8, sym: u8) -> (r: Option<TransitionValue>)
        ensures
            r == if self@.contains_key(trans_key(state, sym)) {
                Some(self@[trans_key(state, sym)])
            } else {
                None::<TransitionValue>
            },
    {
        let key: u16 = (state as u16) * 256 + (sym as u16);
        match self.m.get(&key) {
            Some(v) => Some(*v),
            None => None,
        }
    }
}

} // verus!
