//! The machine: a symbol tape, a head position, a current control state
//! and a transition table.  `step` applies the one matching transition,
//! if any; `run` drives `step` until the machine halts, the head would
//! leave the tape, or a step budget is spent.
//!
//! The tape is a finite buffer with a designated centre cell standing for
//! position zero.  A fresh machine holds a blank tape of
//! [`TAPE_LEN`] cells with the head on the centre; `set_tape` writes the
//! initial symbols starting at the centre.  The buffer is never indexed
//! outside its bounds: a move that would leave it is reported as the
//! fatal [`StepOutcome::OutOfBounds`], never performed.

use crate::table::{
    trans_key, Move, ParseError, TransitionTable, TransitionValue, program_table, program_wf,
    split_records, wf_record,
};
use vstd::prelude::*;
use vstd::string::StrSliceExecFns;
use vstd::string::StringSliceAdditionalSpecFns;

verus! {

/// Number of cells a fresh machine's tape holds.
pub const TAPE_LEN: usize = 64;

/// Index of the centre cell, the tape's origin: the head starts here and
/// `set_tape` writes the initial symbols from here on.
pub const CENTER: usize = 32;

/// The blank symbol, filling every cell nothing was written to.
pub const BLANK: u8 = 66;

/// The conventional start state: a program's entry point.
pub const START_STATE: u8 = 0;

/// What one `step` call did.
#[derive(Clone, Copy, Debug, PartialEq, Eq, Structural)]
pub enum StepOutcome {
    /// A transition matched and was applied; the event describes it.
    Transitioned(TraceEvent),
    /// No transition matches the current (state, symbol) pair.  This is
    /// the designed termination signal, not an error; nothing was
    /// mutated.
    Halted,
    /// The matching transition would move the head off the tape buffer.
    /// Fatal: nothing was mutated, and the run must stop here.  `state`
    /// and `pos` are the control state and head position at the failure.
    OutOfBounds { state: u8, pos: usize },
}

/// What a whole `run` call ended with.
#[derive(Clone, Copy, Debug, PartialEq, Eq, Structural)]
pub enum RunOutcome {
    /// The machine halted normally: no transition matched.
    Halted,
    /// A transition would have moved the head off the tape buffer.
    OutOfBounds { state: u8, pos: usize },
    /// The step budget was spent before the machine halted.
    StepLimit,
}

/// One applied transition, as reported to an observer: the state and
/// symbol before, the symbol written, the move, the state after, and the
/// head position after the move.  Observational only: emitting or
/// dropping these events never affects the machine.
#[derive(Clone, Copy, Debug, PartialEq, Eq, Structural)]
pub struct TraceEvent {
    /// Control state before the transition.
    pub prev_state: u8,
    /// Symbol that was under the head.
    pub read: u8,
    /// Symbol written over it.
    pub written: u8,
    /// Displacement applied to the head.
    pub mv: Move,
    /// Control state after the transition.
    pub next_state: u8,
    /// Head position after the move.
    pub pos: usize,
}

/// The mathematical state of a machine: the table as a mapping, the tape
/// as a sequence, the head position and the control state.
pub struct Config {
    pub table: Map<u16, TransitionValue>,
    pub tape: Seq<u8>,
    pub pos: int,
    pub state: u8,
}

impl Config {
    /// The bounds invariant: the head stands on a cell of the buffer.
    pub open spec fn wf(self) -> bool {
        0 <= self.pos < self.tape.len()
    }

    /// The symbol under the head.
    pub open spec fn cur_sym(self) -> u8 {
        self.tape[self.pos]
    }

    /// The table key for the current (state, symbol) pair.
    pub open spec fn key(self) -> u16 {
        trans_key(self.state, self.cur_sym())
    }

    /// Halted: no transition matches the current (state, symbol) pair.
    pub open spec fn halted(self) -> bool {
        !self.table.contains_key(self.key())
    }

    /// The matching transition (meaningful only when not halted).
    pub open spec fn action(self) -> TransitionValue {
        self.table[self.key()]
    }

    /// Where the matching transition sends the head.
    pub open spec fn next_pos(self) -> int {
        match self.action().mv {
            Move::Left => self.pos - 1,
            Move::Right => self.pos + 1,
        }
    }

    /// Whether the matching transition would move the head off the
    /// buffer.
    pub open spec fn oob(self) -> bool {
        &&& !self.halted()
        &&& !(0 <= self.next_pos() < self.tape.len())
    }

    /// Whether no further step is possible: halted, or stopped by the
    /// bounds check.
    pub open spec fn terminal(self) -> bool {
        self.halted() || self.oob()
    }

    /// The configuration after one applied transition: exactly the cell
    /// under the head rewritten, the head moved by one, the state
    /// replaced.  The table itself never changes.
    pub open spec fn step_cfg(self) -> Config {
        Config {
            table: self.table,
            tape: self.tape.update(self.pos, self.action().write),
            pos: self.next_pos(),
            state: self.action().next,
        }
    }

    /// The trace event that applying the matching transition emits.
    pub open spec fn event(self) -> TraceEvent {
        TraceEvent {
            prev_state: self.state,
            read: self.cur_sym(),
            written: self.action().write,
            mv: self.action().mv,
            next_state: self.action().next,
            pos: self.next_pos() as usize,
        }
    }

    /// The configuration reached after at most `n` steps: stepping stops
    /// early at a terminal configuration, which then stays as it is.
    pub open spec fn reach(self, n: nat) -> Config
        decreases n,
    {
        if n == 0 || self.terminal() {
            self
        } else {
            self.step_cfg().reach((n - 1) as nat)
        }
    }

    /// The trace of the first (at most) `n` steps.
    pub open spec fn trace(self, n: nat) -> Seq<TraceEvent>
        decreases n,
    {
        if n == 0 || self.terminal() {
            Seq::empty()
        } else {
            seq![self.event()] + self.step_cfg().trace((n - 1) as nat)
        }
    }
}

/// One step keeps the bounds invariant: the tape length never changes,
/// and the head moves to a cell of the buffer or the step is refused.
pub proof fn lemma_step_preserves_wf(c: Config)
    requires
        c.wf(),
        !c.terminal(),
    ensures
        c.step_cfg().wf(),
        c.step_cfg().tape.len() == c.tape.len(),
{
}

/// Extending an unfinished run by one step appends exactly that step's
/// event and advances the configuration by exactly that step.
proof fn lemma_reach_snoc(c: Config, n: nat)
    requires
        !c.reach(n).terminal(),
    ensures
        c.reach(n + 1) == c.reach(n).step_cfg(),
        c.trace(n + 1) == c.trace(n).push(c.reach(n).event()),
    decreases n,
{
    reveal_with_fuel(Config::reach, 3);
    reveal_with_fuel(Config::trace, 3);
    if n == 0 {
        assert(c.trace(1) =~= c.trace(0).push(c.event()));
    } else {
        if c.terminal() {
            assert(c.reach(n) == c);
        } else {
            lemma_reach_snoc(c.step_cfg(), (n - 1) as nat);
            assert(c.reach(n + 1) == c.step_cfg().reach(n));
            assert(c.trace(n + 1) == seq![c.event()] + c.step_cfg().trace(n));
            assert(seq![c.event()] + c.step_cfg().trace((n - 1) as nat).push(
                c.step_cfg().reach((n - 1) as nat).event(),
            ) =~= (seq![c.event()] + c.step_cfg().trace((n - 1) as nat)).push(
                c.step_cfg().reach((n - 1) as nat).event(),
            ));
        }
    }
}

/// Law: the transition table is frozen once stepping starts — however
/// many steps a run takes, the table never changes.
pub proof fn lemma_table_frozen(c: Config, n: nat)
    ensures
        c.reach(n).table == c.table,
    decreases n,
{
    if !(n == 0 || c.terminal()) {
        lemma_table_frozen(c.step_cfg(), (n - 1) as nat);
    }
}

/// A terminal configuration stays exactly as it is, however many more
/// steps are allowed, and emits no further trace events.
pub proof fn lemma_terminal_stays(c: Config, n: nat)
    requires
        c.terminal(),
    ensures
        c.reach(n) == c,
        c.trace(n) == Seq::<TraceEvent>::empty(),
{
}

/// Law: once a configuration reports halted, stepping it again — on the
/// same, unchanged configuration — reports halted again.
pub proof fn lemma_halting_idempotent(c: Config, n: nat)
    requires
        c.halted(),
    ensures
        c.reach(n) == c,
        c.reach(n).halted(),
{
}

/// Law: one step either rewrites exactly the cell under the head and
/// moves the head by exactly one position, or — halted, or refused by
/// the bounds check — changes nothing at all; never both.
pub proof fn lemma_step_discipline(c: Config)
    requires
        c.wf(),
    ensures
        c.terminal() ==> c.reach(1) == c,
        !c.terminal() ==> {
            let c2 = c.step_cfg();
            &&& c2.tape.len() == c.tape.len()
            &&& c2.tape[c.pos] == c.action().write
            &&& forall|j: int| 0 <= j < c.tape.len() && j != c.pos ==> c2.tape[j] == c.tape[j]
            &&& (c2.pos == c.pos - 1 || c2.pos == c.pos + 1)
        },
{
}

/// Law (determinism): stepping is a function of the configuration alone,
/// so equal starting configurations yield equal runs — the same
/// configurations reached and identical traces, step for step.
pub proof fn lemma_run_deterministic(c1: Config, c2: Config, n: nat)
    requires
        c1 == c2,
    ensures
        c1.reach(n) == c2.reach(n),
        c1.trace(n) == c2.trace(n),
{
}

/// A run that has finished is not changed by a larger step budget.
pub proof fn lemma_terminal_extend(c: Config, n: nat, m: nat)
    requires
        n <= m,
        c.reach(n).terminal(),
    ensures
        c.reach(m) == c.reach(n),
        c.trace(m) == c.trace(n),
    decreases n,
{
    if c.terminal() {
        lemma_terminal_stays(c, n);
        lemma_terminal_stays(c, m);
    } else if n == 0 {
    } else {
        lemma_terminal_extend(c.step_cfg(), (n - 1) as nat, (m - 1) as nat);
    }
}

/// Law (determinism of the outcome): any two step budgets that both let
/// the machine finish leave it in the same configuration with the same
/// trace; running longer cannot change a finished run.
pub proof fn lemma_outcome_unique(c: Config, n: nat, m: nat)
    requires
        c.reach(n).terminal(),
        c.reach(m).terminal(),
    ensures
        c.reach(n) == c.reach(m),
        c.trace(n) == c.trace(m),
{
    if n <= m {
        lemma_terminal_extend(c, n, m);
    } else {
        lemma_terminal_extend(c, m, n);
    }
}

/// The machine: a transition table, a tape buffer, a head position and a
/// current control state.
#[derive(Debug)]
pub struct Turing {
    transitions: TransitionTable,
    tape: Vec<u8>,
    pos: usize,
    curr: u8,
}

impl View for Turing {
    type V = Config;

    closed spec fn view(&self) -> Config {
        Config {
            table: self.transitions@,
            tape: self.tape@,
            pos: self.pos as int,
            state: self.curr,
        }
    }
}

impl Turing {
    /// The bounds invariant, as seen from outside: every constructor
    /// establishes it and every method preserves it.
    pub open spec fn wf(&self) -> bool {
        self@.wf()
    }

    /// A fresh machine: an empty transition table, a blank tape of
    /// [`TAPE_LEN`] cells, the head on the centre cell, and the
    /// conventional start state.
    pub fn new() -> (t: Turing)
        ensures
            t@.table == Map::<u16, TransitionValue>::empty(),
            t@.tape == Seq::new(TAPE_LEN as nat, |j: int| BLANK),
            t@.pos == CENTER as int,
            t@.state == START_STATE,
            t.wf(),
    {
        let mut tape: Vec<u8> = Vec::new();
        let mut k: usize = 0;
        while k < TAPE_LEN
            invariant
                k <= TAPE_LEN,
                tape@.len() == k,
                forall|j: int| 0 <= j < k ==> tape@[j] == BLANK,
            decreases TAPE_LEN - k,
        {
            tape.push(BLANK);
            k = k + 1;
        }
        proof {
            assert(tape@ =~= Seq::new(TAPE_LEN as nat, |j: int| BLANK));
        }
        Turing { transitions: TransitionTable::new(), tape, pos: CENTER, curr: START_STATE }
    }

    /// The head's position on the tape buffer.
    pub fn position(&self) -> (p: usize)
        ensures
            p as int == self@.pos,
    {
        self.pos
    }

    /// The current control state.
    pub fn state(&self) -> (s: u8)
        ensures
            s == self@.state,
    {
        self.curr
    }

    /// Overrides the control state.  [`START_STATE`] is only a
    /// convention, not a structural requirement: a run may be configured
    /// to enter a program elsewhere.  Table, tape and head stay as they
    /// are.
    pub fn set_state(&mut self, s: u8)
        ensures
            final(self)@.state == s,
            final(self)@.table == old(self)@.table,
            final(self)@.tape == old(self)@.tape,
            final(self)@.pos == old(self)@.pos,
            old(self).wf() ==> final(self).wf(),
    {
        self.curr = s;
    }

    /// Replaces the transition table with the one parsed from `input`,
    /// a comma-separated list of five-byte records.  On a malformed
    /// record nothing at all changes: no partial table is kept.  The
    /// tape, head and state are never touched.
    pub fn set_input(&mut self, input: &str) -> (r: Result<(), ParseError>)
        ensures
            final(self)@.tape == old(self)@.tape,
            final(self)@.pos == old(self)@.pos,
            final(self)@.state == old(self)@.state,
            match r {
                Ok(()) => program_wf(input.spec_bytes()) && final(self)@.table == program_table(
                    input.spec_bytes(),
                ),
                Err(e) => {
                    &&& final(self)@.table == old(self)@.table
                    &&& !program_wf(input.spec_bytes())
                    &&& e.record < split_records(input.spec_bytes()).len()
                    &&& !wf_record(split_records(input.spec_bytes())[e.record as int])
                    &&& forall|j: int|
                        0 <= j < e.record ==> wf_record(
                            #[trigger] split_records(input.spec_bytes())[j],
                        )
                },
            },
    {
        let bytes = input.as_bytes_vec();
        match TransitionTable::parse(&bytes) {
            Ok(t) => {
                self.transitions = t;
                Ok(())
            },
            Err(e) => Err(e),
        }
    }

    /// Writes the initial tape symbols into the buffer starting at the
    /// centre cell, shifting what stood from the centre on to the right:
    /// the buffer becomes its first [`CENTER`] cells, then the symbols,
    /// then the rest.  Head, state and table stay as they are.
    pub fn set_tape(&mut self, tape: &str)
        requires
            old(self)@.tape.len() >= CENTER as int,
            old(self)@.tape.len() + tape.spec_bytes().len() <= usize::MAX,
        ensures
            final(self)@.tape == old(self)@.tape.take(CENTER as int) + tape.spec_bytes() + old(
                self,
            )@.tape.skip(CENTER as int),
            final(self)@.pos == old(self)@.pos,
            final(self)@.state == old(self)@.state,
            final(self)@.table == old(self)@.table,
            old(self).wf() ==> final(self).wf(),
    {
        let bytes = tape.as_bytes_vec();
        let ghost front = self.tape@.take(CENTER as int);
        let ghost back = self.tape@.skip(CENTER as int);
        let mut k: usize = 0;
        proof {
            assert(self.tape@ =~= front + bytes@.take(0) + back);
        }
        while k < bytes.len()
            invariant
                k <= bytes.len(),
                self.tape@ == front + bytes@.take(k as int) + back,
                front.len() == CENTER as int,
                front.len() + back.len() + bytes@.len() <= usize::MAX,
                self.pos == old(self).pos,
                self.curr == old(self).curr,
                self.transitions == old(self).transitions,
            decreases bytes.len() - k,
        {
            let b = bytes[k];
            self.tape.insert(CENTER + k, b);
            proof {
                assert((front + bytes@.take(k as int) + back).insert(CENTER + k, b) =~= front
                    + bytes@.take(k + 1) + back);
            }
            k = k + 1;
        }
        proof {
            assert(bytes@.take(bytes@.len() as int) =~= bytes@);
        }
    }

    /// Applies the one matching transition, if any.
    ///
    /// Looks the current (state, symbol under the head) pair up.  If no
    /// transition matches, nothing is mutated and `Halted` is reported:
    /// the designed termination signal.  If one matches but its move
    /// would take the head off the buffer, nothing is mutated either and
    /// the fatal `OutOfBounds` is reported with the state and position
    /// at which it happened.  Otherwise the transition's symbol is
    /// written into the cell under the head, the head moves by exactly
    /// one cell, the state is replaced, and the applied transition is
    /// reported as a trace event.
    pub fn step(&mut self) -> (r: StepOutcome)
        requires
            old(self).wf(),
        ensures
            final(self).wf(),
            old(self)@.halted() ==> r == StepOutcome::Halted && final(self)@ == old(self)@,
            old(self)@.oob() ==> r == (StepOutcome::OutOfBounds {
                state: old(self)@.state,
                pos: old(self)@.pos as usize,
            }) && final(self)@ == old(self)@,
            !old(self)@.terminal() ==> r == StepOutcome::Transitioned(old(self)@.event())
                && final(self)@ == old(self)@.step_cfg(),
    {
        let sym = self.tape[self.pos];
        match self.transitions.lookup(self.curr, sym) {
            None => StepOutcome::Halted,
            Some(t) => {
                let dst: usize = match t.mv {
                    Move::Left => {
                        if self.pos == 0 {
                            return StepOutcome::OutOfBounds { state: self.curr, pos: self.pos };
                        }
                        self.pos - 1
                    },
                    Move::Right => {
                        if self.pos == self.tape.len() - 1 {
                            return StepOutcome::OutOfBounds { state: self.curr, pos: self.pos };
                        }
                        self.pos + 1
                    },
                };
                let ev = TraceEvent {
                    prev_state: self.curr,
                    read: sym,
                    written: t.write,
                    mv: t.mv,
                    next_state: t.next,
                    pos: dst,
                };
                self.tape.set(self.pos, t.write);
                self.pos = dst;
                self.curr = t.next;
                StepOutcome::Transitioned(ev)
            },
        }
    }

    /// Drives `step` until the machine halts or fails, but at most
    /// `max_steps` times — a safety ceiling against machines that never
    /// halt.  Returns the trace of every applied transition, in order,
    /// and how the run ended.  The trace's length is the number of steps
    /// taken, and the machine ends exactly where stepping the starting
    /// configuration that many times leaves it.
    pub fn run(&mut self, max_steps: usize) -> (r: (Vec<TraceEvent>, RunOutcome))
        requires
            old(self).wf(),
        ensures
            final(self).wf(),
            r.0@.len() <= max_steps,
            final(self)@ == old(self)@.reach(r.0@.len() as nat),
            r.0@ == old(self)@.trace(r.0@.len() as nat),
            match r.1 {
                RunOutcome::Halted => final(self)@.halted(),
                RunOutcome::OutOfBounds { state, pos } => final(self)@.oob() && state
                    == final(self)@.state && pos == final(self)@.pos,
                RunOutcome::StepLimit => r.0@.len() == max_steps,
            },
            r.1 != RunOutcome::StepLimit ==> final(self)@.terminal(),
    {
        let ghost init = self@;
        let mut events: Vec<TraceEvent> = Vec::new();
        let mut steps: usize = 0;
        while steps < max_steps
            invariant
                init == old(self)@,
                self.wf(),
                steps == events@.len(),
                steps <= max_steps,
                self@ == init.reach(steps as nat),
                events@ == init.trace(steps as nat),
            decreases max_steps - steps,
        {
            let ghost pre = self@;
            match self.step() {
                StepOutcome::Halted => {
                    return (events, RunOutcome::Halted);
                },
                StepOutcome::OutOfBounds { state, pos } => {
                    return (events, RunOutcome::OutOfBounds { state, pos });
                },
                StepOutcome::Transitioned(ev) => {
                    events.push(ev);
                    proof {
                        lemma_reach_snoc(init, steps as nat);
                    }
                    steps = steps + 1;
                },
            }
        }
        (events, RunOutcome::StepLimit)
    }

    /// The tape contents, as a fresh buffer of symbols.
    pub fn get_tape(&self) -> (t: Vec<u8>)
        ensures
            t@ == self@.tape,
    {
        let mut out: Vec<u8> = Vec::new();
        let mut k: usize = 0;
        while k < self.tape.len()
            invariant
                k <= self.tape.len(),
                out@ == self.tape@.take(k as int),
            decreases self.tape.len() - k,
        {
            let b = self.tape[k];
            out.push(b);
            proof {
                assert(self.tape@.take(k + 1) =~= self.tape@.take(k as int).push(b));
            }
            k = k + 1;
        }
        proof {
            assert(self.tape@.take(self.tape@.len() as int) =~= self.tape@);
        }
        out
    }
}

} // verus!
