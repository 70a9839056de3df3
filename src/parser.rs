use vstd::prelude::*;
use crate::state::{BFState, TapeView, EXTENSION};

verus! {

/// Number of characters a single execution may process before it is cut off.
/// Bounding every execution makes `Parser::parse` return on every program; no
/// run on real hardware comes near this many steps.
pub const STEP_LIMIT: u64 = 18446744073709551615;

/// Why an execution stopped without finishing the program text.
#[derive(Debug, Clone, Copy, PartialEq, Eq, Structural)]
pub enum BfError {
    /// A `]` with no open `[` to pop or jump back to.
    UnmatchedLoopEnd,
    /// The text ended while one or more `[` were still open.
    UnmatchedLoopStart,
    /// A `<` with the pointer already on cell 0.
    LeftBoundExceeded,
    /// A `>` at the right edge of a tape that cannot grow any further.
    TapeFull,
    /// `STEP_LIMIT` characters were processed without reaching the end.
    StepLimit,
}

/// Everything one execution reads and changes: the tape, the position in the
/// program text, the open loops, the loop being skipped, how much input has
/// been consumed and what has been emitted.
pub ghost struct Config {
    pub tape: TapeView,
    pub pos: int,
    pub stack: Seq<usize>,
    pub skip: Option<usize>,
    pub inp: int,
    pub out: Seq<u8>,
}

/// Where an execution ended, and how.
pub ghost struct Outcome {
    pub end: Config,
    pub result: Result<(), BfError>,
}

/// The byte stored when `c` is read: the low eight bits of its code.
pub open spec fn byte_of(c: char) -> u8 {
    (c as u32 % 256) as u8
}

impl Config {
    /// The state at the start of an execution on `tape`.
    pub open spec fn start(tape: TapeView) -> Config {
        Config { tape, pos: 0, stack: Seq::empty(), skip: None, inp: 0, out: Seq::empty() }
    }
}

/// Bracket bookkeeping for the character `ch` at `c.pos`, done before anything
/// else and also while skipping.
pub open spec fn loop_control(c: Config, ch: char) -> Result<Config, BfError> {
    if ch == '[' {
        let skip = if c.tape.current() == 0 && c.skip is None {
            Some(c.pos as usize)
        } else {
            c.skip
        };
        Ok(Config { stack: c.stack.push(c.pos as usize), skip, ..c })
    } else if ch == ']' {
        if c.stack.len() == 0 {
            Err(BfError::UnmatchedLoopEnd)
        } else if c.skip is Some {
            let last = c.stack.last();
            let skip = if c.skip == Some(last) {
                None
            } else {
                c.skip
            };
            Ok(Config { stack: c.stack.drop_last(), skip, ..c })
        } else if c.tape.current() == 0 {
            Ok(Config { stack: c.stack.drop_last(), ..c })
        } else {
            Ok(Config { pos: c.stack.last() as int, ..c })
        }
    } else {
        Ok(c)
    }
}

/// The effect of `ch` on tape, input and output; none while skipping.
pub open spec fn instruction(c: Config, ch: char, input: Seq<char>) -> Result<Config, BfError> {
    if c.skip is Some {
        Ok(c)
    } else if ch == '+' {
        Ok(Config { tape: c.tape.incr(), ..c })
    } else if ch == '-' {
        Ok(Config { tape: c.tape.decr(), ..c })
    } else if ch == '>' {
        if c.tape.can_move_right() {
            Ok(Config { tape: c.tape.right(), ..c })
        } else {
            Err(BfError::TapeFull)
        }
    } else if ch == '<' {
        if c.tape.ptr > 0 {
            Ok(Config { tape: c.tape.left(), ..c })
        } else {
            Err(BfError::LeftBoundExceeded)
        }
    } else if ch == '.' {
        Ok(Config { out: c.out.push(c.tape.current()), ..c })
    } else if ch == ',' && c.inp < input.len() {
        Ok(Config { tape: c.tape.write(byte_of(input[c.inp])), inp: c.inp + 1, ..c })
    } else {
        Ok(c)
    }
}

/// Processing the character at `c.pos`, before the position advances.
pub open spec fn step(c: Config, code: Seq<char>, input: Seq<char>) -> Result<Config, BfError> {
    let ch = code[c.pos];
    match loop_control(c, ch) {
        Ok(c1) => instruction(c1, ch, input),
        Err(e) => Err(e),
    }
}

/// Running from `c` for at most `fuel` characters.
pub open spec fn run(c: Config, code: Seq<char>, input: Seq<char>, fuel: nat) -> Outcome
    decreases fuel,
{
    if c.pos >= code.len() {
        Outcome {
            end: c,
            result: if c.stack.len() == 0 {
                Ok(())
            } else {
                Err(BfError::UnmatchedLoopStart)
            },
        }
    } else if fuel == 0 {
        Outcome { end: c, result: Err(BfError::StepLimit) }
    } else {
        match step(c, code, input) {
            Ok(n) => run(Config { pos: n.pos + 1, ..n }, code, input, (fuel - 1) as nat),
            Err(e) => Outcome { end: c, result: Err(e) },
        }
    }
}

/// One execution of `code` with `input` on `tape`.
pub open spec fn execution(tape: TapeView, code: Seq<char>, input: Seq<char>) -> Outcome {
    run(Config::start(tape), code, input, STEP_LIMIT as nat)
}

/// The engine: a tape that lives for the whole session, and the transient
/// state of the execution in progress.
pub struct Parser {
    current_pos: usize,
    loop_stack: Vec<usize>,
    state: BFState,
    skip_flag: Option<usize>,
}

impl Parser {
    /// The persistent tape.
    pub closed spec fn tape(&self) -> TapeView {
        self.state@
    }

    /// The position in the program text being executed.
    pub closed spec fn pos(&self) -> int {
        self.current_pos as int
    }

    /// Positions of the `[` of the loops that are open, innermost last.
    pub closed spec fn stack(&self) -> Seq<usize> {
        self.loop_stack@
    }

    /// Position of the `[` whose loop is being skipped, if any.
    pub closed spec fn skip(&self) -> Option<usize> {
        self.skip_flag
    }

    /// The pointer designates an allocated cell.
    pub open spec fn wf(&self) -> bool {
        self.tape().wf()
    }

    /// The execution state, given how much input was consumed and what was emitted.
    pub open spec fn config(&self, inp: int, out: Seq<u8>) -> Config {
        Config {
            tape: self.tape(),
            pos: self.pos(),
            stack: self.stack(),
            skip: self.skip(),
            inp,
            out,
        }
    }

    /// Positions held in the state lie inside a program text of `len` characters.
    pub open spec fn within(&self, len: int) -> bool {
        &&& 0 <= self.pos() < len
        &&& forall|i: int| 0 <= i < self.stack().len() ==> self.stack()[i] < len
        &&& self.skip() is Some ==> self.skip()->0 < len
    }

    /// A fresh tape and no execution in progress.
    pub fn new() -> (r: Parser)
        ensures
            r.tape() == TapeView::initial(),
            r.wf(),
            r.pos() == 0,
            r.stack() == Seq::<usize>::empty(),
            r.skip() is None,
    {
        Parser { current_pos: 0, loop_stack: Vec::new(), state: BFState::new(), skip_flag: None }
    }

    /// The tape as it stands between executions.
    pub fn state(&self) -> (r: &BFState)
        ensures
            r@ == self.tape(),
    {
        &self.state
    }

    fn reset(&mut self)
        ensures
            final(self).tape() == old(self).tape(),
            final(self).pos() == 0,
            final(self).stack() == Seq::<usize>::empty(),
            final(self).skip() is None,
    {
        self.current_pos = 0;
        self.loop_stack.clear();
        self.skip_flag = None;
    }

    /// Process the character at the current position; the caller advances the
    /// position afterwards. On an error nothing changes.
    fn parse_next(
        &mut self,
        code: &Vec<char>,
        input: &Vec<char>,
        inp: &mut usize,
        out: &mut Vec<u8>,
    ) -> (r: Result<(), BfError>)
        requires
            old(self).wf(),
            old(self).within(code.len() as int),
            *old(inp) <= input.len(),
        ensures
            match step(old(self).config(*old(inp) as int, old(out)@), code@, input@) {
                Ok(n) => {
                    &&& r is Ok
                    &&& final(self).config(*final(inp) as int, final(out)@) == n
                    &&& final(self).wf()
                    &&& final(self).within(code.len() as int)
                    &&& *final(inp) <= input.len()
                },
                Err(e) => {
                    &&& r == Err::<(), BfError>(e)
                    &&& *final(self) == *old(self)
                    &&& *final(inp) == *old(inp)
                    &&& final(out)@ == old(out)@
                },
            },
    {
        let command = code[self.current_pos];
        if command == '[' {
            self.start_of_loop();
        } else if command == ']' {
            match self.end_of_loop() {
                Ok(()) => {},
                Err(e) => {
                    return Err(e);
                },
            }
        }
        if self.skip_flag.is_some() {
            return Ok(());
        }
        if command == '+' {
            self.state.incr();
        } else if command == '-' {
            self.state.decr();
        } else if command == '>' {
            if self.state.len() == self.state.index() + 1 && self.state.len() > usize::MAX - EXTENSION {
                return Err(BfError::TapeFull);
            }
            self.state.up();
        } else if command == '<' {
            if self.state.index() == 0 {
                return Err(BfError::LeftBoundExceeded);
            }
            self.state.down();
        } else if command == '.' {
            out.push(self.state.out());
        } else if command == ',' {
            if *inp < input.len() {
                let c = input[*inp];
                self.state.inp((c as u32 % 256) as u8);
                *inp = *inp + 1;
            }
        }
        Ok(())
    }

    /// Run `code` against the tape, reading characters of `input` for `,` and
    /// appending the bytes of `.` to `out`. The position, the open loops and
    /// the skip marker start afresh; the tape carries over from earlier runs.
    /// Output emitted before an error is kept, and so are changes to the tape.
    pub fn parse(&mut self, code: String, input: String, out: &mut Vec<u8>) -> (r: Result<
        (),
        BfError,
    >)
        requires
            old(self).wf(),
        ensures
            r == execution(old(self).tape(), code@, input@).result,
            final(self).tape() == execution(old(self).tape(), code@, input@).end.tape,
            final(self).stack() == execution(old(self).tape(), code@, input@).end.stack,
            final(out)@ == old(out)@ + execution(old(self).tape(), code@, input@).end.out,
            final(self).wf(),
    {
        let code_v = chars_of(&code);
        let input_v = chars_of(&input);
        self.reset();
        let mut emitted: Vec<u8> = Vec::new();
        let r = self.run_from_start(&code_v, &input_v, &mut emitted);
        out.append(&mut emitted);
        r
    }

    fn run_from_start(&mut self, code: &Vec<char>, input: &Vec<char>, out: &mut Vec<u8>) -> (r:
        Result<(), BfError>)
        requires
            old(self).wf(),
            old(self).config(0, old(out)@) == Config::start(old(self).tape()),
        ensures
            r == run(old(self).config(0, seq![]), code@, input@, STEP_LIMIT as nat).result,
            final(self).config(
                run(old(self).config(0, seq![]), code@, input@, STEP_LIMIT as nat).end.inp,
                final(out)@,
            ) == run(old(self).config(0, seq![]), code@, input@, STEP_LIMIT as nat).end,
            final(self).wf(),
    {
        let ghost whole = run(self.config(0, seq![]), code@, input@, STEP_LIMIT as nat);
        let mut inp: usize = 0;
        let mut steps: u64 = 0;
        while self.current_pos < code.len()
            invariant
                whole == run(old(self).config(0, seq![]), code@, input@, STEP_LIMIT as nat),
                self.wf(),
                0 <= self.pos() <= code.len(),
                forall|i: int| 0 <= i < self.stack().len() ==> self.stack()[i] < code.len(),
                self.skip() is Some ==> self.skip()->0 < code.len(),
                inp <= input.len(),
                run(self.config(inp as int, out@), code@, input@, (STEP_LIMIT - steps) as nat)
                    == whole,
            decreases STEP_LIMIT - steps,
        {
            if steps == STEP_LIMIT {
                assert(run(self.config(inp as int, out@), code@, input@, 0).result == Err::<
                    (),
                    BfError,
                >(BfError::StepLimit));
                return Err(BfError::StepLimit);
            }
            match self.parse_next(code, input, &mut inp, out) {
                Ok(()) => {},
                Err(e) => {
                    return Err(e);
                },
            }
            self.current_pos = self.current_pos + 1;
            steps = steps + 1;
        }
        if self.loop_stack.len() != 0 {
            Err(BfError::UnmatchedLoopStart)
        } else {
            Ok(())
        }
    }

    fn start_of_loop(&mut self)
        requires
            old(self).wf(),
        ensures
            loop_control(old(self).config(0, seq![]), '[') == Ok::<Config, BfError>(
                final(self).config(0, seq![]),
            ),
    {
        self.loop_stack.push(self.current_pos);
        if self.state.is_zero() && self.skip_flag.is_none() {
            self.skip_flag = Some(self.current_pos);
        }
    }

    fn end_of_loop(&mut self) -> (r: Result<(), BfError>)
        requires
            old(self).wf(),
        ensures
            match loop_control(old(self).config(0, seq![]), ']') {
                Ok(n) => r is Ok && final(self).config(0, seq![]) == n,
                Err(e) => r == Err::<(), BfError>(e) && *final(self) == *old(self),
            },
    {
        if self.loop_stack.len() == 0 {
            return Err(BfError::UnmatchedLoopEnd);
        }
        if self.skip_flag.is_some() {
            let last = self.loop_stack.pop().unwrap();
            if self.skip_flag == Some(last) {
                self.skip_flag = None;
            }
            return Ok(());
        }
        if self.state.is_zero() {
            self.loop_stack.pop();
        } else {
            self.current_pos = self.loop_stack[self.loop_stack.len() - 1];
        }
        Ok(())
    }
}

/// The state after processing the character at `c.pos` and advancing past it;
/// `None` at the end of the text or on an error.
pub open spec fn next(c: Config, code: Seq<char>, input: Seq<char>) -> Option<Config> {
    if 0 <= c.pos < code.len() {
        match step(c, code, input) {
            Ok(n) => Some(Config { pos: n.pos + 1, ..n }),
            Err(_) => None,
        }
    } else {
        None
    }
}

/// The state after `n` characters, or where the run stopped if sooner.
pub open spec fn advance(c: Config, code: Seq<char>, input: Seq<char>, n: nat) -> Config
    decreases n,
{
    if n == 0 {
        c
    } else {
        match next(c, code, input) {
            Some(d) => advance(d, code, input, (n - 1) as nat),
            None => c,
        }
    }
}

/// The next `n` characters are all processed while a loop is being skipped.
pub open spec fn skips_for(c: Config, code: Seq<char>, input: Seq<char>, n: nat) -> bool
    decreases n,
{
    n == 0 || (c.skip is Some && match next(c, code, input) {
        Some(d) => skips_for(d, code, input, (n - 1) as nat),
        None => false,
    })
}

/// A `<` on cell 0 is an error: the pointer is never clamped or wrapped.
pub proof fn lemma_left_bound(c: Config, code: Seq<char>, input: Seq<char>)
    requires
        0 <= c.pos < code.len(),
        code[c.pos] == '<',
        c.skip is None,
        c.tape.ptr == 0,
    ensures
        step(c, code, input) == Err::<Config, BfError>(BfError::LeftBoundExceeded),
{
}

/// A `[` met with a zero current cell, outside any skipped loop, starts
/// skipping that loop and changes nothing else but the open loops.
pub proof fn lemma_false_guard_skips(c: Config, code: Seq<char>, input: Seq<char>)
    requires
        0 <= c.pos < code.len(),
        code[c.pos] == '[',
        c.skip is None,
        c.tape.current() == 0,
    ensures
        step(c, code, input) == Ok::<Config, BfError>(
            Config { stack: c.stack.push(c.pos as usize), skip: Some(c.pos as usize), ..c },
        ),
{
}

/// While a loop is skipped, a character touches neither tape, input nor
/// output; skipping ends only at the `]` that pops the skipped loop's `[`.
pub proof fn lemma_skipping_is_inert(c: Config, code: Seq<char>, input: Seq<char>)
    requires
        0 <= c.pos < code.len(),
        c.skip is Some,
    ensures
        step(c, code, input) is Ok ==> {
            let n = step(c, code, input)->Ok_0;
            &&& n.tape == c.tape
            &&& n.out == c.out
            &&& n.inp == c.inp
            &&& n.pos == c.pos
            &&& n.skip is Some ==> n.skip == c.skip
            &&& n.skip is None ==> code[c.pos] == ']' && Some(c.stack.last()) == c.skip
        },
{
}

/// However deeply the skipped body nests, a stretch of characters processed
/// while skipping leaves tape, input and output as they were.
pub proof fn lemma_skipped_body_has_no_effect(
    c: Config,
    code: Seq<char>,
    input: Seq<char>,
    n: nat,
)
    requires
        skips_for(c, code, input, n),
    ensures
        advance(c, code, input, n).tape == c.tape,
        advance(c, code, input, n).out == c.out,
        advance(c, code, input, n).inp == c.inp,
    decreases n,
{
    if n > 0 {
        lemma_skipping_is_inert(c, code, input);
        let d = next(c, code, input)->0;
        lemma_skipped_body_has_no_effect(d, code, input, (n - 1) as nat);
    }
}

/// A loop whose guard is false on entry has no effect: from its `[` through
/// every character processed while it is skipped, tape, input and output stay
/// as they were, even across loops nested inside it.
pub proof fn lemma_false_guard_loop_has_no_effect(
    c: Config,
    code: Seq<char>,
    input: Seq<char>,
    n: nat,
)
    requires
        0 <= c.pos < code.len(),
        code[c.pos] == '[',
        c.skip is None,
        c.tape.current() == 0,
        skips_for(next(c, code, input)->0, code, input, n),
    ensures
        advance(c, code, input, n + 1).tape == c.tape,
        advance(c, code, input, n + 1).out == c.out,
        advance(c, code, input, n + 1).inp == c.inp,
{
    lemma_false_guard_skips(c, code, input);
    let d = next(c, code, input)->0;
    lemma_skipped_body_has_no_effect(d, code, input, n);
    assert(advance(c, code, input, n + 1) == advance(d, code, input, n));
}

/// A text without brackets runs to its end, or stops on a tape error, within
/// one step per character, and no loop is ever left open.
pub proof fn lemma_bracket_free_terminates(
    c: Config,
    code: Seq<char>,
    input: Seq<char>,
    fuel: nat,
)
    requires
        forall|i: int| 0 <= i < code.len() ==> code[i] != '[' && code[i] != ']',
        c.stack.len() == 0,
        c.skip is None,
        0 <= c.pos,
        fuel >= code.len() - c.pos,
    ensures
        run(c, code, input, fuel).result != Err::<(), BfError>(BfError::StepLimit),
        run(c, code, input, fuel).result != Err::<(), BfError>(BfError::UnmatchedLoopStart),
        run(c, code, input, fuel).result != Err::<(), BfError>(BfError::UnmatchedLoopEnd),
        run(c, code, input, fuel).end.stack.len() == 0,
    decreases fuel,
{
    if c.pos < code.len() {
        let ch = code[c.pos];
        assert(loop_control(c, ch) == Ok::<Config, BfError>(c));
        match step(c, code, input) {
            Ok(n) => {
                lemma_bracket_free_terminates(
                    Config { pos: n.pos + 1, ..n },
                    code,
                    input,
                    (fuel - 1) as nat,
                );
            },
            Err(_) => {},
        }
    }
}

/// A whole execution of a bracket-free text ends without a loop error and
/// with no loop open.
pub proof fn lemma_bracket_free_execution(tape: TapeView, code: Seq<char>, input: Seq<char>)
    requires
        forall|i: int| 0 <= i < code.len() ==> code[i] != '[' && code[i] != ']',
        code.len() <= STEP_LIMIT,
    ensures
        execution(tape, code, input).result != Err::<(), BfError>(BfError::StepLimit),
        execution(tape, code, input).result != Err::<(), BfError>(BfError::UnmatchedLoopStart),
        execution(tape, code, input).result != Err::<(), BfError>(BfError::UnmatchedLoopEnd),
        execution(tape, code, input).end.stack.len() == 0,
{
    lemma_bracket_free_terminates(Config::start(tape), code, input, STEP_LIMIT as nat);
}

/// A text made of a single `]` fails with `UnmatchedLoopEnd`, tape untouched.
pub proof fn lemma_lone_loop_end(tape: TapeView, input: Seq<char>)
    ensures
        execution(tape, seq![']'], input).result == Err::<(), BfError>(BfError::UnmatchedLoopEnd),
        execution(tape, seq![']'], input).end.tape == tape,
        execution(tape, seq![']'], input).end.out.len() == 0,
{
    reveal_with_fuel(run, 2);
}

/// A text made of a single `[` fails with `UnmatchedLoopStart`, tape untouched.
pub proof fn lemma_lone_loop_start(tape: TapeView, input: Seq<char>)
    ensures
        execution(tape, seq!['['], input).result == Err::<(), BfError>(
            BfError::UnmatchedLoopStart,
        ),
        execution(tape, seq!['['], input).end.tape == tape,
        execution(tape, seq!['['], input).end.out.len() == 0,
{
    reveal_with_fuel(run, 2);
    let c = Config::start(tape);
    let n = step(c, seq!['['], input)->Ok_0;
    assert(run(Config { pos: n.pos + 1, ..n }, seq!['['], input, (STEP_LIMIT - 1) as nat).result
        == Err::<(), BfError>(BfError::UnmatchedLoopStart));
}

/// Executing the empty text succeeds, leaves the tape as it was and emits
/// nothing.
pub proof fn lemma_empty_program(tape: TapeView, input: Seq<char>)
    ensures
        execution(tape, seq![], input).result == Ok::<(), BfError>(()),
        execution(tape, seq![], input).end.tape == tape,
        execution(tape, seq![], input).end.out.len() == 0,
{
}

/// How many times `ch` occurs in `s`.
pub open spec fn count_of(s: Seq<char>, ch: char) -> nat
    decreases s.len(),
{
    if s.len() == 0 {
        0
    } else {
        count_of(s.drop_last(), ch) + if s.last() == ch {
            1nat
        } else {
            0nat
        }
    }
}

/// Whether `buf` holds as many `[` as `]`: the point at which an interactive
/// session stops waiting for more lines of a program.
pub fn check_valid_inp(buf: String) -> (r: bool)
    ensures
        r == (count_of(buf@, '[') == count_of(buf@, ']')),
{
    let chars = chars_of(&buf);
    let mut opens: usize = 0;
    let mut closes: usize = 0;
    let mut i: usize = 0;
    while i < chars.len()
        invariant
            i <= chars.len(),
            opens == count_of(chars@.take(i as int), '['),
            closes == count_of(chars@.take(i as int), ']'),
            opens <= i,
            closes <= i,
        decreases chars.len() - i,
    {
        assert(chars@.take(i + 1).drop_last() =~= chars@.take(i as int));
        if chars[i] == '[' {
            opens = opens + 1;
        } else if chars[i] == ']' {
            closes = closes + 1;
        }
        i = i + 1;
    }
    assert(chars@.take(i as int) =~= buf@);
    opens == closes
}

/// The characters of `s`, in order.
fn chars_of(s: &String) -> (r: Vec<char>)
    ensures
        r@ == s@,
{
    let mut r: Vec<char> = Vec::new();
    for c in it: s.as_str().chars()
        invariant
            r@ == it.seq().take(it.index() as int),
    {
        r.push(c);
    }
    r
}

} // verus!
