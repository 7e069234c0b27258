use vstd::prelude::*;

use crate::ast::{
    clone_cmd, clone_cmds, lemma_view_cmds_index, lemma_view_cmds_len, view_cmd, view_cmds,
    view_spanned, CmdV, Command, SpannedCommand, SpannedV,
};
use crate::tape::{
    cells_of, grow_to, grow_tape_to, off_v, tape_op_result, ArithOp, Direction, Number, Tape,
    wrap_u64,
};
use crate::chars::{char_from_u32, char_upper, upper_of, valid_code_point};
use crate::RuntimeError;

verus! {

/// The cell value `ReadKey` stores for one keystroke: a newline for Enter,
/// the uppercase form of a shifted letter, and any other character's code
/// point.
pub fn key_cell_value(enter: bool, c: char, shifted: bool) -> (r: i64)
    ensures
        enter ==> r == 10,
        !enter && shifted ==> r == (upper_of(c) as u32) as i64,
        !enter && !shifted ==> r == (c as u32) as i64,
{
    if enter {
        10
    } else if shifted {
        (char_upper(c) as u32) as i64
    } else {
        (c as u32) as i64
    }
}

/// The character a `Ch` output event displays as: the character of the
/// emitted value if it is a valid code point, a single space otherwise.
pub fn display_char(u: u32) -> (r: char)
    ensures
        valid_code_point(u) ==> r as u32 == u,
        !valid_code_point(u) ==> r == ' ',
{
    match char_from_u32(u) {
        Some(c) => c,
        None => ' ',
    }
}

/// One value the running program has emitted: a number printed as text, or
/// a cell value to be shown as the character of that code point.
#[derive(Debug, PartialEq, Eq, Structural, Copy, Clone)]
pub enum Out {
    Num(i64),
    Ch(u32),
}

/// Where execution stands.
#[derive(Debug, PartialEq, Eq, Structural, Copy, Clone)]
pub enum Status {
    Running,
    NeedKey,
    Finished,
    Failed(RuntimeError),
}

/// Why a body was entered: a plain nested scope, or the body of a `while`
/// or `loop`, which re-tests the current cell when it completes.
#[derive(Debug, PartialEq, Eq, Structural, Copy, Clone)]
pub enum FrameKind {
    Plain,
    WhileBody,
    LoopBody,
}

/// One active scope: a body and the position of the next command in it.
struct Frame {
    body: Vec<SpannedCommand>,
    pos: usize,
    kind: FrameKind,
}

/// Mathematical mirror of a frame.
#[verifier::ext_equal]
pub struct FrameV {
    pub body: Seq<SpannedV>,
    pub pos: int,
    pub kind: FrameKind,
}

/// The whole machine, mathematically: the tape and cursor, the function
/// table, the stack of active scopes, and the queues of emitted output and
/// pending keys.
#[verifier::ext_equal]
pub struct MState {
    pub tape: Seq<int>,
    pub cursor: int,
    pub names: Seq<(Seq<char>, int)>,
    pub bodies: Seq<Seq<SpannedV>>,
    pub frames: Seq<FrameV>,
    pub output: Seq<Out>,
    pub input: Seq<i64>,
    pub status: Status,
}

/// The states the machine keeps itself in: a nonempty tape of 64-bit signed
/// values, the cursor on it, every registered index naming a body, and every
/// frame position within its body.
pub open spec fn st_wf(s: MState) -> bool {
    &&& s.tape.len() >= 1
    &&& 0 <= s.cursor < s.tape.len()
    &&& forall|i: int| 0 <= i < s.tape.len() ==> i64::MIN <= #[trigger] s.tape[i] <= i64::MAX
    &&& forall|i: int|
        0 <= i < s.names.len() ==> 0 <= (#[trigger] s.names[i]).1 < s.bodies.len()
    &&& forall|i: int|
        0 <= i < s.frames.len() ==> 0 <= (#[trigger] s.frames[i]).pos <= s.frames[i].body.len()
}

/// The registration index a name maps to: the last definition wins.
pub open spec fn lookup_name(names: Seq<(Seq<char>, int)>, nm: Seq<char>) -> Option<int>
    decreases names.len(),
{
    if names.len() == 0 {
        None
    } else if names.last().0 == nm {
        Some(names.last().1)
    } else {
        lookup_name(names.drop_last(), nm)
    }
}

pub open spec fn top(s: MState) -> FrameV {
    s.frames.last()
}

pub open spec fn cell(s: MState) -> int {
    s.tape[s.cursor]
}

/// Step the top frame past the command it just dispatched.
pub open spec fn adv(s: MState) -> MState {
    MState {
        frames: s.frames.update(
            s.frames.len() - 1,
            FrameV { pos: top(s).pos + 1, ..top(s) },
        ),
        ..s
    }
}

pub open spec fn pushf(s: MState, b: Seq<SpannedV>, k: FrameKind) -> MState {
    MState { frames: s.frames.push(FrameV { body: b, pos: 0, kind: k }), ..s }
}

pub open spec fn popf(s: MState) -> MState {
    MState { frames: s.frames.drop_last(), ..s }
}

pub open spec fn reset_top(s: MState) -> MState {
    MState {
        frames: s.frames.update(s.frames.len() - 1, FrameV { pos: 0, ..top(s) }),
        ..s
    }
}

pub open spec fn fail(s: MState, e: RuntimeError) -> MState {
    MState { status: Status::Failed(e), ..s }
}

/// The tape after a string is written cell by cell to the right of the
/// cursor: each character's code point lands one past the previous cell,
/// growing the tape as needed.
pub open spec fn add_str_tape(t: Seq<int>, cur: int, str: Seq<char>) -> Seq<int> {
    Seq::new(
        if t.len() >= cur + str.len() + 1 {
            t.len()
        } else {
            (cur + str.len() + 1) as nat
        },
        |i: int|
            if cur + 1 <= i <= cur + str.len() {
                (str[i - cur - 1] as u32) as int
            } else if i < t.len() {
                t[i]
            } else {
                0
            },
    )
}

/// The tape after a string is written in place: the first character lands on
/// the cursor itself, the rest follow to its right.
pub open spec fn write_str_tape(t: Seq<int>, cur: int, str: Seq<char>) -> Seq<int> {
    Seq::new(
        if t.len() >= cur + str.len() + 1 {
            t.len()
        } else {
            (cur + str.len() + 1) as nat
        },
        |i: int|
            if cur <= i < cur + str.len() {
                (str[i - cur] as u32) as int
            } else if i < t.len() {
                t[i]
            } else {
                0
            },
    )
}

/// The directional in-place arithmetic step on 64-bit cells.
pub open spec fn arith_step(s: MState, dir: Direction, o: Option<usize>, op: ArithOp) -> MState {
    let r = tape_op_result(s.tape, s.cursor, dir, off_v(o), op, i64::MIN as int, i64::MAX as int);
    match r.err {
        None => MState { tape: r.cells, ..s },
        Some(e) => MState { tape: r.cells, status: Status::Failed(e), ..s },
    }
}

/// The effect of one command on everything but the frame stack. Block
/// commands and calls leave the state as it is here; the scope they enter
/// is given by `step_cmd_child`.
pub open spec fn step_cmd_base(s: MState, c: CmdV) -> MState {
    match c {
        CmdV::AddInteger(i) => MState {
            tape: grow_to(s.tape, s.cursor + 2).update(s.cursor + 1, i as int),
            cursor: s.cursor + 1,
            ..s
        },
        CmdV::AddString(str) => MState {
            tape: add_str_tape(s.tape, s.cursor, str),
            cursor: s.cursor + str.len(),
            ..s
        },
        CmdV::WriteInteger(i) => MState { tape: s.tape.update(s.cursor, i as int), ..s },
        CmdV::WriteString(str) => MState {
            tape: write_str_tape(s.tape, s.cursor, str),
            cursor: s.cursor + str.len(),
            ..s
        },
        CmdV::MoveLeft => MState {
            cursor: if s.cursor >= 1 {
                s.cursor - 1
            } else {
                0
            },
            ..s
        },
        CmdV::MoveRight => MState {
            cursor: s.cursor + 1,
            tape: grow_to(s.tape, s.cursor + 2),
            ..s
        },
        CmdV::ReadMoveLeft => {
            let d = wrap_u64(cell(s));
            MState {
                cursor: if d >= s.cursor {
                    0
                } else {
                    s.cursor - d
                },
                ..s
            }
        },
        CmdV::ReadMoveRight => {
            let d = wrap_u64(cell(s));
            if s.cursor + d > usize::MAX as int {
                fail(s, RuntimeError::Overflow)
            } else {
                MState {
                    cursor: s.cursor + d,
                    tape: grow_to(s.tape, s.cursor + d + 1),
                    ..s
                }
            }
        },
        CmdV::MoveNLeft(k) => MState {
            cursor: if k as int >= s.cursor {
                0
            } else {
                s.cursor - k as int
            },
            ..s
        },
        CmdV::MoveNRight(k) => {
            if s.cursor + k as int > usize::MAX as int {
                fail(s, RuntimeError::Overflow)
            } else {
                MState {
                    cursor: s.cursor + k as int,
                    tape: grow_to(s.tape, s.cursor + k as int + 1),
                    ..s
                }
            }
        },
        CmdV::Increment => {
            if cell(s) + 1 > i64::MAX as int {
                fail(s, RuntimeError::Overflow)
            } else {
                MState { tape: s.tape.update(s.cursor, cell(s) + 1), ..s }
            }
        },
        CmdV::Decrement => {
            if cell(s) - 1 < i64::MIN as int {
                fail(s, RuntimeError::Overflow)
            } else {
                MState { tape: s.tape.update(s.cursor, cell(s) - 1), ..s }
            }
        },
        CmdV::LeftAdd(o) => arith_step(s, Direction::Left, o, ArithOp::Add),
        CmdV::RightAdd(o) => arith_step(s, Direction::Right, o, ArithOp::Add),
        CmdV::LeftSubtract(o) => arith_step(s, Direction::Left, o, ArithOp::Sub),
        CmdV::RightSubtract(o) => arith_step(s, Direction::Right, o, ArithOp::Sub),
        CmdV::LeftMultiply(o) => arith_step(s, Direction::Left, o, ArithOp::Mul),
        CmdV::RightMultiply(o) => arith_step(s, Direction::Right, o, ArithOp::Mul),
        CmdV::LeftDivide(o) => arith_step(s, Direction::Left, o, ArithOp::Div),
        CmdV::RightDivide(o) => arith_step(s, Direction::Right, o, ArithOp::Div),
        CmdV::LeftModulo(o) => arith_step(s, Direction::Left, o, ArithOp::Mod),
        CmdV::RightModulo(o) => arith_step(s, Direction::Right, o, ArithOp::Mod),
        CmdV::If(t, e) => s,
        CmdV::While(b) => s,
        CmdV::Loop(b) => s,
        CmdV::FunctionDefinition(nm, b) => MState {
            names: s.names.push((nm, s.bodies.len() as int)),
            bodies: s.bodies.push(b),
            ..s
        },
        CmdV::FunctionCall(nm) => s,
        CmdV::GetFunction(nm) => {
            match lookup_name(s.names, nm) {
                Some(ix) => {
                    if ix <= i64::MAX as int {
                        MState { tape: s.tape.update(s.cursor, ix), ..s }
                    } else {
                        fail(s, RuntimeError::Overflow)
                    }
                },
                None => s,
            }
        },
        CmdV::CallFunction => s,
        CmdV::OutputNumber => MState { output: s.output.push(Out::Num(cell(s) as i64)), ..s },
        CmdV::OutputChar => MState {
            output: s.output.push(Out::Ch((wrap_u64(cell(s)) % 0x1_0000_0000) as u32)),
            ..s
        },
        CmdV::ReadKey => MState {
            tape: s.tape.update(s.cursor, s.input[0] as int),
            input: s.input.drop_first(),
            ..s
        },
        CmdV::Comment => s,
    }
}

/// The scope a command enters, if it enters one: the taken branch of an
/// `if`, the body of a `while` whose condition holds, the body of a `loop`,
/// or a registered function's body.
pub open spec fn step_cmd_child(s: MState, c: CmdV) -> Option<FrameV> {
    match c {
        CmdV::If(t, e) => {
            if cell(s) != 0 {
                Some(FrameV { body: t, pos: 0, kind: FrameKind::Plain })
            } else {
                match e {
                    Some(b) => Some(FrameV { body: b, pos: 0, kind: FrameKind::Plain }),
                    None => None,
                }
            }
        },
        CmdV::While(b) => {
            if cell(s) != 0 {
                Some(FrameV { body: b, pos: 0, kind: FrameKind::WhileBody })
            } else {
                None
            }
        },
        CmdV::Loop(b) => Some(FrameV { body: b, pos: 0, kind: FrameKind::LoopBody }),
        CmdV::FunctionCall(nm) => {
            match lookup_name(s.names, nm) {
                Some(ix) => Some(
                    FrameV { body: s.bodies[ix], pos: 0, kind: FrameKind::Plain },
                ),
                None => None,
            }
        },
        CmdV::CallFunction => {
            let v = cell(s);
            if 0 <= v < s.bodies.len() {
                Some(FrameV { body: s.bodies[v], pos: 0, kind: FrameKind::Plain })
            } else {
                None
            }
        },
        _ => None,
    }
}

/// The commands whose dispatch the second half of the executor handles:
/// the directional arithmetic family and everything that touches the
/// function table or enters a scope.
pub open spec fn is_block_or_arith(c: CmdV) -> bool {
    match c {
        CmdV::LeftAdd(o) => true,
        CmdV::RightAdd(o) => true,
        CmdV::LeftSubtract(o) => true,
        CmdV::RightSubtract(o) => true,
        CmdV::LeftMultiply(o) => true,
        CmdV::RightMultiply(o) => true,
        CmdV::LeftDivide(o) => true,
        CmdV::RightDivide(o) => true,
        CmdV::LeftModulo(o) => true,
        CmdV::RightModulo(o) => true,
        CmdV::If(t, e) => true,
        CmdV::While(b) => true,
        CmdV::Loop(b) => true,
        CmdV::FunctionDefinition(n, b) => true,
        CmdV::FunctionCall(n) => true,
        CmdV::GetFunction(n) => true,
        CmdV::CallFunction => true,
        _ => false,
    }
}

/// The directional arithmetic commands.
pub open spec fn is_arith_cmd(c: CmdV) -> bool {
    match c {
        CmdV::LeftAdd(o) => true,
        CmdV::RightAdd(o) => true,
        CmdV::LeftSubtract(o) => true,
        CmdV::RightSubtract(o) => true,
        CmdV::LeftMultiply(o) => true,
        CmdV::RightMultiply(o) => true,
        CmdV::LeftDivide(o) => true,
        CmdV::RightDivide(o) => true,
        CmdV::LeftModulo(o) => true,
        CmdV::RightModulo(o) => true,
        _ => false,
    }
}

/// The whole effect of one command: its base effect, and the scope it
/// enters pushed on top.
pub open spec fn step_cmd(s: MState, c: CmdV) -> MState {
    let b = step_cmd_base(s, c);
    match step_cmd_child(s, c) {
        Some(f) => MState { frames: b.frames.push(f), ..b },
        None => b,
    }
}

/// One step of the machine. A machine that is not running stays as it is; an
/// empty frame stack finishes; a completed frame pops or, for `while` and
/// `loop` bodies, re-tests the current cell; otherwise the next command of
/// the top frame is dispatched. `ReadKey` with no pending key parks the
/// machine instead of advancing, so the command runs when a key arrives.
pub open spec fn spec_step(s: MState) -> MState {
    if s.status != Status::Running {
        s
    } else if s.frames.len() == 0 {
        MState { status: Status::Finished, ..s }
    } else {
        let f = top(s);
        if f.pos >= f.body.len() {
            match f.kind {
                FrameKind::Plain => popf(s),
                FrameKind::WhileBody => if cell(s) != 0 {
                    reset_top(s)
                } else {
                    popf(s)
                },
                FrameKind::LoopBody => if cell(s) == 0 {
                    popf(s)
                } else {
                    reset_top(s)
                },
            }
        } else {
            let c = f.body[f.pos].command;
            if c matches CmdV::ReadKey && s.input.len() == 0 {
                MState { status: Status::NeedKey, ..s }
            } else {
                step_cmd(adv(s), c)
            }
        }
    }
}

/// The machine after `n` steps.
pub open spec fn spec_run(s: MState, n: nat) -> MState
    decreases n,
{
    if n == 0 {
        s
    } else {
        spec_step(spec_run(s, (n - 1) as nat))
    }
}

/// The machine set up to run a program: one frame at its start, the tape,
/// function table and queues carried over.
pub open spec fn boot(s: MState, prog: Seq<SpannedV>) -> MState {
    MState {
        frames: seq![FrameV { body: prog, pos: 0, kind: FrameKind::Plain }],
        status: Status::Running,
        ..s
    }
}

/// A fresh machine: one zero cell, the cursor on it, nothing registered,
/// nothing queued.
pub open spec fn init_state() -> MState {
    MState {
        tape: seq![0int],
        cursor: 0,
        names: Seq::empty(),
        bodies: Seq::empty(),
        frames: Seq::empty(),
        output: Seq::empty(),
        input: Seq::empty(),
        status: Status::Finished,
    }
}


// ---------------------------------------------------------------------------
// Every step keeps the machine well formed.
// ---------------------------------------------------------------------------
pub proof fn lemma_trem_range(a: int, b: int)
    requires
        i64::MIN <= a <= i64::MAX,
        i64::MIN <= b <= i64::MAX,
        b != 0,
    ensures
        i64::MIN <= crate::tape::trem(a, b) <= i64::MAX,
{
}

/// Every cell an in-place operation leaves behind is a 64-bit value.
pub proof fn lemma_arith_wf(s: MState, d: Direction, o: Option<usize>, op: ArithOp)
    requires
        st_wf(s),
    ensures
        st_wf(arith_step(s, d, o, op)),
        arith_step(s, d, o, op).tape.len() >= s.tape.len(),
{
    reveal(tape_op_result);
    let off = off_v(o);
    let lo = i64::MIN as int;
    let hi = i64::MAX as int;
    let s3 = arith_step(s, d, o, op);
    match d {
        Direction::Left => {
            if off <= s.cursor {
                let tt = s.cursor - off;
                let a = s.tape[tt];
                let b = s.tape[s.cursor];
                if b != 0 {
                    lemma_trem_range(a, b);
                }
                assert forall|i: int| 0 <= i < s3.tape.len() implies lo <= #[trigger] s3.tape[i]
                    <= hi by {}
            }
        },
        Direction::Right => {
            if s.cursor + off <= usize::MAX as int {
                let tt = s.cursor + off;
                let g = grow_to(s.tape, tt + 1);
                let a = g[tt];
                let b = s.tape[s.cursor];
                if b != 0 {
                    lemma_trem_range(a, b);
                }
                assert forall|i: int| 0 <= i < g.len() implies lo <= #[trigger] g[i] <= hi by {
                    if i < s.tape.len() {
                    }
                }
                assert forall|i: int| 0 <= i < s3.tape.len() implies lo <= #[trigger] s3.tape[i]
                    <= hi by {
                    if i != tt && i < s.tape.len() {
                    }
                }
            }
        },
    }
}

#[verifier::rlimit(100)]
pub proof fn lemma_base_wf_arith(s: MState, c: CmdV)
    requires
        st_wf(s),
        is_arith_cmd(c),
    ensures
        st_wf(step_cmd_base(s, c)),
        step_cmd_base(s, c).frames == s.frames,
{
    match c {
        CmdV::LeftAdd(o) => lemma_arith_wf(s, Direction::Left, o, ArithOp::Add),
        CmdV::RightAdd(o) => lemma_arith_wf(s, Direction::Right, o, ArithOp::Add),
        CmdV::LeftSubtract(o) => lemma_arith_wf(s, Direction::Left, o, ArithOp::Sub),
        CmdV::RightSubtract(o) => lemma_arith_wf(s, Direction::Right, o, ArithOp::Sub),
        CmdV::LeftMultiply(o) => lemma_arith_wf(s, Direction::Left, o, ArithOp::Mul),
        CmdV::RightMultiply(o) => lemma_arith_wf(s, Direction::Right, o, ArithOp::Mul),
        CmdV::LeftDivide(o) => lemma_arith_wf(s, Direction::Left, o, ArithOp::Div),
        CmdV::RightDivide(o) => lemma_arith_wf(s, Direction::Right, o, ArithOp::Div),
        CmdV::LeftModulo(o) => lemma_arith_wf(s, Direction::Left, o, ArithOp::Mod),
        CmdV::RightModulo(o) => lemma_arith_wf(s, Direction::Right, o, ArithOp::Mod),
        _ => {},
    }
}

/// Writing a string keeps the machine well formed: each written cell holds
/// a code point, and the cursor lands on a cell the grown tape has.
#[verifier::rlimit(100)]
pub proof fn lemma_base_wf_strings(s: MState, c: CmdV)
    requires
        st_wf(s),
        c matches CmdV::AddString(x) || c matches CmdV::WriteString(x),
    ensures
        st_wf(step_cmd_base(s, c)),
        step_cmd_base(s, c).frames == s.frames,
{
    match c {
        CmdV::AddString(str) => {
            let t2 = add_str_tape(s.tape, s.cursor, str);
            assert forall|i: int| 0 <= i < t2.len() implies i64::MIN <= #[trigger] t2[i]
                <= i64::MAX by {}
        },
        CmdV::WriteString(str) => {
            let t2 = write_str_tape(s.tape, s.cursor, str);
            assert forall|i: int| 0 <= i < t2.len() implies i64::MIN <= #[trigger] t2[i]
                <= i64::MAX by {}
        },
        _ => {},
    }
}

#[verifier::rlimit(100)]
pub proof fn lemma_step_cmd_base_wf(s: MState, c: CmdV)
    requires
        st_wf(s),
        c matches CmdV::ReadKey ==> s.input.len() > 0,
    ensures
        st_wf(step_cmd_base(s, c)),
        step_cmd_base(s, c).frames == s.frames,
{
    if is_arith_cmd(c) {
        lemma_base_wf_arith(s, c);
    } else {
        match c {
            CmdV::AddString(str) => {
                lemma_base_wf_strings(s, c);
            },
            CmdV::WriteString(str) => {
                lemma_base_wf_strings(s, c);
            },
            CmdV::ReadKey => {
                assert(i64::MIN <= s.input[0] <= i64::MAX);
            },
            CmdV::GetFunction(nm) => {
                lemma_lookup_range(s.names, nm, s.bodies.len() as int);
            },
            _ => {},
        }
    }
}

#[verifier::rlimit(100)]
pub proof fn lemma_step_cmd_wf(s: MState, c: CmdV)
    requires
        st_wf(s),
        c matches CmdV::ReadKey ==> s.input.len() > 0,
    ensures
        st_wf(step_cmd(s, c)),
{
    lemma_step_cmd_base_wf(s, c);
    let b = step_cmd_base(s, c);
    match step_cmd_child(s, c) {
        Some(f) => {
            let s4 = MState { frames: b.frames.push(f), ..b };
            assert(f.pos == 0);
            assert forall|i: int|
                0 <= i < s4.frames.len() implies 0 <= (#[trigger] s4.frames[i]).pos
                <= s4.frames[i].body.len() by {
                if i < b.frames.len() {
                    assert(s4.frames[i] == s.frames[i]);
                }
            }
        },
        None => {},
    }
}

pub proof fn lemma_step_wf(s: MState)
    requires
        st_wf(s),
    ensures
        st_wf(spec_step(s)),
{
    if s.status == Status::Running && s.frames.len() > 0 {
        let f = top(s);
        if f.pos < f.body.len() {
            let c = f.body[f.pos].command;
            if !(c matches CmdV::ReadKey && s.input.len() == 0) {
                assert(st_wf(adv(s)));
                lemma_step_cmd_wf(adv(s), c);
            }
        }
    }
}

pub proof fn lemma_run_wf(s: MState, n: nat)
    requires
        st_wf(s),
    ensures
        st_wf(spec_run(s, n)),
    decreases n,
{
    if n > 0 {
        lemma_run_wf(s, (n - 1) as nat);
        lemma_step_wf(spec_run(s, (n - 1) as nat));
    }
}

pub proof fn lemma_run_step(s: MState, n: nat)
    ensures
        spec_run(s, n + 1) == spec_step(spec_run(s, n)),
{
}

/// Dropping the top frame keeps the machine well formed.
pub proof fn lemma_popf_wf(s: MState)
    requires
        st_wf(s),
        s.frames.len() > 0,
    ensures
        st_wf(popf(s)),
{
    assert forall|i: int|
        0 <= i < popf(s).frames.len() implies 0 <= (#[trigger] popf(s).frames[i]).pos <= popf(
        s,
    ).frames[i].body.len() by {
        assert(popf(s).frames[i] == s.frames[i]);
    }
}

/// Stepping the top frame past a command it has not finished keeps the
/// machine well formed.
pub proof fn lemma_adv_wf(s: MState)
    requires
        st_wf(s),
        s.frames.len() > 0,
        top(s).pos < top(s).body.len(),
    ensures
        st_wf(adv(s)),
{
    assert forall|i: int|
        0 <= i < adv(s).frames.len() implies 0 <= (#[trigger] adv(s).frames[i]).pos <= adv(
        s,
    ).frames[i].body.len() by {
        if i < s.frames.len() - 1 {
            assert(adv(s).frames[i] == s.frames[i]);
        }
    }
}

/// A name the table knows maps to a registered body.
pub proof fn lemma_lookup_range(names: Seq<(Seq<char>, int)>, nm: Seq<char>, blen: int)
    requires
        forall|i: int| 0 <= i < names.len() ==> 0 <= (#[trigger] names[i]).1 < blen,
    ensures
        (match lookup_name(names, nm) {
            Some(ix) => 0 <= ix < blen,
            None => true,
        }),
    decreases names.len(),
{
    if names.len() > 0 {
        if names.last().0 == nm {
            assert(names.last() == names[names.len() - 1]);
        } else {
            assert(forall|i: int|
                0 <= i < names.drop_last().len() ==> names.drop_last()[i] == #[trigger] names[
                    i
                ]);
            lemma_lookup_range(names.drop_last(), nm, blen);
        }
    }
}

// ---------------------------------------------------------------------------
// The executable machine.
// ---------------------------------------------------------------------------
spec fn names_of(s: Seq<(String, usize)>) -> Seq<(Seq<char>, int)> {
    Seq::new(s.len(), |i: int| (s[i].0@, s[i].1 as int))
}

spec fn bodies_of(s: Seq<Vec<SpannedCommand>>) -> Seq<Seq<SpannedV>> {
    Seq::new(s.len(), |i: int| view_cmds(s[i]@))
}

spec fn frame_v(f: Frame) -> FrameV {
    FrameV { body: view_cmds(f.body@), pos: f.pos as int, kind: f.kind }
}

spec fn frames_of(s: Seq<Frame>) -> Seq<FrameV> {
    Seq::new(s.len(), |i: int| frame_v(s[i]))
}

/// The tree-walking executor: a tape of 64-bit cells, the cursor on it, the
/// function table built by execution, the stack of active scopes, and the
/// output and key queues it exchanges with its caller.
pub struct Interpreter {
    tape: Vec<i64>,
    tape_index: usize,
    functions: Vec<(String, usize)>,
    functions_list: Vec<Vec<SpannedCommand>>,
    frames: Vec<Frame>,
    output: Vec<Out>,
    input: Vec<i64>,
    status: Status,
}

impl View for Interpreter {
    type V = MState;

    closed spec fn view(&self) -> MState {
        MState {
            tape: cells_of(self.tape@),
            cursor: self.tape_index as int,
            names: names_of(self.functions@),
            bodies: bodies_of(self.functions_list@),
            frames: frames_of(self.frames@),
            output: self.output@,
            input: self.input@,
            status: self.status,
        }
    }
}

/// The registration index a name maps to, scanning the newest entry first.
fn lookup_fn(functions: &Vec<(String, usize)>, name: &String) -> (r: Option<usize>)
    ensures
        (match lookup_name(names_of(functions@), name@) {
            Some(ix) => r matches Some(u) && u as int == ix,
            None => r is None,
        }),
{
    let ghost names = names_of(functions@);
    let mut i: usize = functions.len();
    proof {
        assert(names.take(functions@.len() as int) =~= names);
    }
    loop
        invariant
            i <= functions.len(),
            names == names_of(functions@),
            lookup_name(names, name@) == lookup_name(names.take(i as int), name@),
        decreases i,
    {
        if i == 0 {
            proof {
                assert(names.take(0) =~= Seq::<(Seq<char>, int)>::empty());
            }
            return None;
        }
        let entry_name: &String = &functions[i - 1].0;
        proof {
            assert(names.take(i as int).last() == names[i - 1]);
            assert(names.take(i as int).drop_last() =~= names.take(i - 1));
        }
        if entry_name.eq(name) {
            proof {
                assert(names.take(i as int).last().0 == name@);
                assert(lookup_name(names, name@) == Some(names[i - 1].1));
            }
            return Some(functions[i - 1].1);
        }
        i = i - 1;
    }
}

/// The helpers the interpreter dispatches string and character commands to.
pub trait InterpreterUtils {
    /// The machine state this value stands for.
    spec fn st(&self) -> MState;

    /// Run a command sequence to its end, or to the first missing key or
    /// failure.
    fn interpret_commands(&mut self, command_tape: &Vec<SpannedCommand>) -> (st: Status)
        requires
            st_wf(old(self).st()),
        ensures
            st_wf(final(self).st()),
            exists|n: nat|
                #![auto]
                final(self).st() == spec_run(
                    boot(old(self).st(), view_cmds(command_tape@)),
                    n,
                ) && (final(self).st().status == Status::Running ==> n == u64::MAX as nat),
            st == final(self).st().status,
    ;

    /// Write each character of `s` one cell past the previous one, growing
    /// the tape, and leave the cursor on the last cell written.
    fn add_string(&mut self, s: &str)
        requires
            st_wf(old(self).st()),
        ensures
            final(self).st() == (MState {
                tape: add_str_tape(old(self).st().tape, old(self).st().cursor, s@),
                cursor: old(self).st().cursor + s@.len(),
                ..old(self).st()
            }),
            st_wf(final(self).st()),
    ;

    /// Write `s` in place: the first character on the current cell, the
    /// rest to its right; the cursor ends one past the last cell written.
    fn write_string(&mut self, s: &str)
        requires
            st_wf(old(self).st()),
        ensures
            final(self).st() == (MState {
                tape: write_str_tape(old(self).st().tape, old(self).st().cursor, s@),
                cursor: old(self).st().cursor + s@.len(),
                ..old(self).st()
            }),
            st_wf(final(self).st()),
    ;

    /// Emit the current cell as a character event: its low 32 bits.
    fn output_char(&mut self)
        requires
            st_wf(old(self).st()),
        ensures
            final(self).st() == (MState {
                output: old(self).st().output.push(
                    Out::Ch((wrap_u64(cell(old(self).st())) % 0x1_0000_0000) as u32),
                ),
                ..old(self).st()
            }),
            st_wf(final(self).st()),
    ;

    /// Store a character's code point into the current cell.
    fn write_char(&mut self, c: char)
        requires
            st_wf(old(self).st()),
        ensures
            final(self).st() == (MState {
                tape: old(self).st().tape.update(
                    old(self).st().cursor,
                    (c as u32) as int,
                ),
                ..old(self).st()
            }),
            st_wf(final(self).st()),
    ;
}

impl Interpreter {
    /// A machine over a fresh tape of one zero cell.
    pub fn new() -> (r: Interpreter)
        ensures
            r@ == init_state(),
            st_wf(r@),
    {
        let mut tape: Vec<i64> = Vec::new();
        tape.push(0);
        let r = Interpreter {
            tape,
            tape_index: 0,
            functions: Vec::new(),
            functions_list: Vec::new(),
            frames: Vec::new(),
            output: Vec::new(),
            input: Vec::new(),
            status: Status::Finished,
        };
        proof {
            assert(r@ =~~= init_state());
        }
        r
    }

    /// Perform one step of the machine.
    #[verifier::rlimit(100)]
    pub fn step(&mut self) -> (st: Status)
        requires
            st_wf(old(self)@),
        ensures
            final(self)@ == spec_step(old(self)@),
            st_wf(final(self)@),
            st == final(self)@.status,
    {
        proof {
            lemma_step_wf(old(self)@);
        }
        match self.status {
            Status::Running => {},
            _ => {
                return self.status;
            },
        }
        if self.frames.len() == 0 {
            self.status = Status::Finished;
            proof {
                assert(self@ =~~= spec_step(old(self)@));
            }
            return self.status;
        }
        let fi = self.frames.len() - 1;
        proof {
            lemma_view_cmds_len(self.frames[fi as int].body@);
        }
        if self.frames[fi].pos >= self.frames[fi].body.len() {
            let do_pop: bool = match self.frames[fi].kind {
                FrameKind::Plain => true,
                FrameKind::WhileBody | FrameKind::LoopBody => {
                    let cv = Tape::get(&self.tape, self.tape_index);
                    cv == 0
                },
            };
            if do_pop {
                self.frames.pop();
                proof {
                    assert(frames_of(self.frames@) =~= frames_of(old(self).frames@).drop_last());
                    assert(self@ =~~= spec_step(old(self)@));
                }
            } else {
                let mut fr = self.frames.pop().unwrap();
                fr.pos = 0;
                self.frames.push(fr);
                proof {
                    assert(self@.frames =~= reset_top(old(self)@).frames);
                    assert(self@ =~~= spec_step(old(self)@));
                }
            }
            return self.status;
        }
        let mut fr = self.frames.pop().unwrap();
        let fpos = fr.pos;
        proof {
            lemma_view_cmds_index(fr.body@, fpos as int);
            assert(top(old(self)@).body[fpos as int] == view_spanned(fr.body@[fpos as int]));
        }
        let needs_key: bool = match &fr.body[fpos].command {
            Command::ReadKey => self.input.len() == 0,
            _ => false,
        };
        if needs_key {
            self.status = Status::NeedKey;
            self.frames.push(fr);
            proof {
                assert(self@.frames =~= old(self)@.frames);
                assert(self@ =~~= spec_step(old(self)@));
            }
            return self.status;
        }
        let cmd = clone_cmd(&fr.body[fpos].command);
        fr.pos = fpos + 1;
        self.frames.push(fr);
        proof {
            lemma_adv_wf(old(self)@);
            assert(self@.frames =~= adv(old(self)@).frames);
            assert(self@ =~~= adv(old(self)@));
        }
        let child = self.dispatch(&cmd);
        match child {
            Some(cf) => {
                self.frames.push(cf);
            },
            None => {},
        }
        proof {
            assert(self@ =~~= spec_step(old(self)@));
        }
        self.status
    }

    /// Apply one command's effect to the machine, handing back the scope it
    /// enters, if any.
    #[verifier::rlimit(100)]
    fn dispatch(&mut self, cmd: &Command) -> (child: Option<Frame>)
        requires
            st_wf(old(self)@),
            view_cmd(*cmd) matches CmdV::ReadKey ==> old(self)@.input.len() > 0,
        ensures
            final(self)@ == step_cmd_base(old(self)@, view_cmd(*cmd)),
            (match (child, step_cmd_child(old(self)@, view_cmd(*cmd))) {
                (Some(cf), Some(fv)) => frame_v(cf) == fv,
                (None, None) => true,
                _ => false,
            }),
    {
        let mut child: Option<Frame> = None;
        match cmd {
            Command::AddInteger(i) => {
                let l = self.tape.len();
                self.tape_index = self.tape_index + 1;
                grow_tape_to(&mut self.tape, self.tape_index);
                Tape::set(&mut self.tape, self.tape_index, *i);
            },
            Command::AddString(str) => {
                InterpreterUtils::add_string(self, str.as_str());
            },
            Command::WriteInteger(i) => {
                Tape::set(&mut self.tape, self.tape_index, *i);
            },
            Command::WriteString(str) => {
                InterpreterUtils::write_string(self, str.as_str());
            },
            Command::MoveLeft => {
                if self.tape_index >= 1 {
                    self.tape_index = self.tape_index - 1;
                }
            },
            Command::MoveRight => {
                let l = self.tape.len();
                self.tape_index = self.tape_index + 1;
                grow_tape_to(&mut self.tape, self.tape_index);
            },
            Command::ReadMoveLeft => {
                let cv = Tape::get(&self.tape, self.tape_index);
                let d = Number::to_u64(&cv);
                if d >= self.tape_index as u64 {
                    self.tape_index = 0;
                } else {
                    self.tape_index = self.tape_index - (d as usize);
                }
            },
            Command::ReadMoveRight => {
                let cv = Tape::get(&self.tape, self.tape_index);
                let d = Number::to_u64(&cv);
                if d > (usize::MAX - self.tape_index) as u64 {
                    self.status = Status::Failed(RuntimeError::Overflow);
                } else {
                    self.tape_index = self.tape_index + (d as usize);
                    grow_tape_to(&mut self.tape, self.tape_index);
                }
            },
            Command::MoveNLeft(n) => {
                if *n >= self.tape_index as u64 {
                    self.tape_index = 0;
                } else {
                    self.tape_index = self.tape_index - (*n as usize);
                }
            },
            Command::MoveNRight(n) => {
                if *n > (usize::MAX - self.tape_index) as u64 {
                    self.status = Status::Failed(RuntimeError::Overflow);
                } else {
                    self.tape_index = self.tape_index + (*n as usize);
                    grow_tape_to(&mut self.tape, self.tape_index);
                }
            },
            Command::Increment => {
                let cv = Tape::get(&self.tape, self.tape_index);
                match i64::checked_add(cv, 1) {
                    Some(x) => {
                        Tape::set(&mut self.tape, self.tape_index, x);
                    },
                    None => {
                        self.status = Status::Failed(RuntimeError::Overflow);
                    },
                }
            },
            Command::Decrement => {
                let cv = Tape::get(&self.tape, self.tape_index);
                match i64::checked_sub(cv, 1) {
                    Some(x) => {
                        Tape::set(&mut self.tape, self.tape_index, x);
                    },
                    None => {
                        self.status = Status::Failed(RuntimeError::Overflow);
                    },
                }
            },
            Command::LeftAdd(o) | Command::RightAdd(o) | Command::LeftSubtract(o)
                | Command::RightSubtract(o) | Command::LeftMultiply(o)
                | Command::RightMultiply(o) | Command::LeftDivide(o) | Command::RightDivide(o)
                | Command::LeftModulo(o) | Command::RightModulo(o) => {
                child = self.dispatch_blocks(cmd);
            },
            Command::If(tb, eb) => {
                child = self.dispatch_blocks(cmd);
            },
            Command::While(b) => {
                child = self.dispatch_blocks(cmd);
            },
            Command::Loop(b) => {
                child = self.dispatch_blocks(cmd);
            },
            Command::FunctionDefinition(nm, b) => {
                child = self.dispatch_blocks(cmd);
            },
            Command::FunctionCall(nm) => {
                child = self.dispatch_blocks(cmd);
            },
            Command::GetFunction(nm) => {
                child = self.dispatch_blocks(cmd);
            },
            Command::CallFunction => {
                child = self.dispatch_blocks(cmd);
            },
            Command::OutputNumber => {
                let cv = Tape::get(&self.tape, self.tape_index);
                self.output.push(Out::Num(cv));
            },
            Command::OutputChar => {
                InterpreterUtils::output_char(self);
            },
            Command::ReadKey => {
                let k = self.input.remove(0);
                Tape::set(&mut self.tape, self.tape_index, k);
                proof {
                    assert(self.input@ =~= old(self).input@.drop_first());
                }
            },
            Command::Comment => {},
        }
        proof {
            assert(self@ =~~= step_cmd_base(old(self)@, view_cmd(*cmd)));
        }
        child
    }

    /// The half of the dispatcher for arithmetic, control flow and the
    /// function table.
    #[verifier::rlimit(100)]
    fn dispatch_blocks(&mut self, cmd: &Command) -> (child: Option<Frame>)
        requires
            st_wf(old(self)@),
            is_block_or_arith(view_cmd(*cmd)),
        ensures
            final(self)@ == step_cmd_base(old(self)@, view_cmd(*cmd)),
            (match (child, step_cmd_child(old(self)@, view_cmd(*cmd))) {
                (Some(cf), Some(fv)) => frame_v(cf) == fv,
                (None, None) => true,
                _ => false,
            }),
    {
        let mut child: Option<Frame> = None;
        match cmd {
            Command::LeftAdd(o) => {
                match Tape::add(&mut self.tape, self.tape_index, Direction::Left, *o) {
                    Ok(u) => {},
                    Err(e) => {
                        self.status = Status::Failed(e);
                    },
                }
            },
            Command::RightAdd(o) => {
                match Tape::add(&mut self.tape, self.tape_index, Direction::Right, *o) {
                    Ok(u) => {},
                    Err(e) => {
                        self.status = Status::Failed(e);
                    },
                }
            },
            Command::LeftSubtract(o) => {
                match Tape::sub(&mut self.tape, self.tape_index, Direction::Left, *o) {
                    Ok(u) => {},
                    Err(e) => {
                        self.status = Status::Failed(e);
                    },
                }
            },
            Command::RightSubtract(o) => {
                match Tape::sub(&mut self.tape, self.tape_index, Direction::Right, *o) {
                    Ok(u) => {},
                    Err(e) => {
                        self.status = Status::Failed(e);
                    },
                }
            },
            Command::LeftMultiply(o) => {
                match Tape::mul(&mut self.tape, self.tape_index, Direction::Left, *o) {
                    Ok(u) => {},
                    Err(e) => {
                        self.status = Status::Failed(e);
                    },
                }
            },
            Command::RightMultiply(o) => {
                match Tape::mul(&mut self.tape, self.tape_index, Direction::Right, *o) {
                    Ok(u) => {},
                    Err(e) => {
                        self.status = Status::Failed(e);
                    },
                }
            },
            Command::LeftDivide(o) => {
                match Tape::div(&mut self.tape, self.tape_index, Direction::Left, *o) {
                    Ok(u) => {},
                    Err(e) => {
                        self.status = Status::Failed(e);
                    },
                }
            },
            Command::RightDivide(o) => {
                match Tape::div(&mut self.tape, self.tape_index, Direction::Right, *o) {
                    Ok(u) => {},
                    Err(e) => {
                        self.status = Status::Failed(e);
                    },
                }
            },
            Command::LeftModulo(o) => {
                match Tape::modulo(&mut self.tape, self.tape_index, Direction::Left, *o) {
                    Ok(u) => {},
                    Err(e) => {
                        self.status = Status::Failed(e);
                    },
                }
            },
            Command::RightModulo(o) => {
                match Tape::modulo(&mut self.tape, self.tape_index, Direction::Right, *o) {
                    Ok(u) => {},
                    Err(e) => {
                        self.status = Status::Failed(e);
                    },
                }
            },
            Command::If(tb, eb) => {
                child = self.dispatch_ctrl(cmd);
            },
            Command::While(b) => {
                child = self.dispatch_ctrl(cmd);
            },
            Command::Loop(b) => {
                child = self.dispatch_ctrl(cmd);
            },
            Command::FunctionDefinition(nm, b) => {
                child = self.dispatch_ctrl(cmd);
            },
            Command::FunctionCall(nm) => {
                child = self.dispatch_ctrl(cmd);
            },
            Command::GetFunction(nm) => {
                child = self.dispatch_ctrl(cmd);
            },
            Command::CallFunction => {
                child = self.dispatch_ctrl(cmd);
            },
            _ => {
                proof {
                    assert(false);
                }
            },
        }
        proof {
            assert(self@ =~~= step_cmd_base(old(self)@, view_cmd(*cmd)));
        }
        child
    }

    /// The dispatcher's control-flow and function-table half.
    #[verifier::rlimit(100)]
    fn dispatch_ctrl(&mut self, cmd: &Command) -> (child: Option<Frame>)
        requires
            st_wf(old(self)@),
            is_block_or_arith(view_cmd(*cmd)),
            !is_arith_cmd(view_cmd(*cmd)),
        ensures
            final(self)@ == step_cmd_base(old(self)@, view_cmd(*cmd)),
            (match (child, step_cmd_child(old(self)@, view_cmd(*cmd))) {
                (Some(cf), Some(fv)) => frame_v(cf) == fv,
                (None, None) => true,
                _ => false,
            }),
    {
        let mut child: Option<Frame> = None;
        match cmd {
            Command::If(tb, eb) => {
                let cv = Tape::get(&self.tape, self.tape_index);
                if cv != 0 {
                    child = Some(Frame { body: clone_cmds(tb), pos: 0, kind: FrameKind::Plain });
                } else {
                    match eb {
                        Some(b) => {
                            child = Some(
                                Frame { body: clone_cmds(b), pos: 0, kind: FrameKind::Plain },
                            );
                        },
                        None => {},
                    }
                }
            },
            Command::While(b) => {
                let cv = Tape::get(&self.tape, self.tape_index);
                if cv != 0 {
                    child = Some(
                        Frame { body: clone_cmds(b), pos: 0, kind: FrameKind::WhileBody },
                    );
                }
            },
            Command::Loop(b) => {
                child = Some(Frame { body: clone_cmds(b), pos: 0, kind: FrameKind::LoopBody });
            },
            Command::FunctionDefinition(nm, b) => {
                let ix = self.functions_list.len();
                self.functions.push((nm.clone(), ix));
                self.functions_list.push(clone_cmds(b));
                proof {
                    assert(names_of(self.functions@) =~= names_of(old(self).functions@).push(
                        (nm@, old(self)@.bodies.len() as int),
                    ));
                    assert(bodies_of(self.functions_list@) =~= bodies_of(
                        old(self).functions_list@,
                    ).push(view_cmds(b@)));
                }
            },
            Command::FunctionCall(nm) => {
                proof {
                    lemma_lookup_range(self@.names, nm@, self@.bodies.len() as int);
                }
                match lookup_fn(&self.functions, nm) {
                    Some(ix) => {
                        child = Some(
                            Frame {
                                body: clone_cmds(&self.functions_list[ix]),
                                pos: 0,
                                kind: FrameKind::Plain,
                            },
                        );
                    },
                    None => {},
                }
            },
            Command::GetFunction(nm) => {
                proof {
                    lemma_lookup_range(self@.names, nm@, self@.bodies.len() as int);
                }
                match lookup_fn(&self.functions, nm) {
                    Some(ix) => {
                        if ix as u64 <= i64::MAX as u64 {
                            Tape::set(&mut self.tape, self.tape_index, ix as i64);
                        } else {
                            self.status = Status::Failed(RuntimeError::Overflow);
                        }
                    },
                    None => {},
                }
            },
            Command::CallFunction => {
                let cv = Tape::get(&self.tape, self.tape_index);
                if cv >= 0 && (cv as u64) < (self.functions_list.len() as u64) {
                    child = Some(
                        Frame {
                            body: clone_cmds(&self.functions_list[cv as usize]),
                            pos: 0,
                            kind: FrameKind::Plain,
                        },
                    );
                }
            },
            _ => {
                proof {
                    assert(false);
                }
            },
        }
        proof {
            assert(self@ =~~= step_cmd_base(old(self)@, view_cmd(*cmd)));
        }
        child
    }
}
/// The tape after the first `k` characters of an in-place write: cells
/// `cur` through `cur + k - 1` hold their code points, the tape grown just
/// far enough to hold them.
spec fn wpartial(t: Seq<int>, cur: int, str: Seq<char>, k: int) -> Seq<int> {
    Seq::new(
        if t.len() >= cur + k {
            t.len()
        } else {
            (cur + k) as nat
        },
        |i: int|
            if cur <= i < cur + k {
                (str[i - cur] as u32) as int
            } else if i < t.len() {
                t[i]
            } else {
                0
            },
    )
}

impl InterpreterUtils for Interpreter {
    open spec fn st(&self) -> MState {
        self@
    }

    fn interpret_commands(&mut self, command_tape: &Vec<SpannedCommand>) -> (st: Status) {
        self.start(command_tape);
        self.run_steps(u64::MAX)
    }

    fn add_string(&mut self, s: &str) {
        let ghost t0 = self@.tape;
        let ghost cur0 = self@.cursor;
        let n = s.unicode_len();
        let mut k: usize = 0;
        proof {
            assert(add_str_tape(t0, cur0, s@.take(0)) =~= t0);
            assert(self@ =~~= (MState {
                tape: add_str_tape(t0, cur0, s@.take(0)),
                cursor: cur0 + 0,
                ..old(self)@
            }));
        }
        while k < n
            invariant
                k <= n,
                n == s@.len(),
                t0 == old(self)@.tape,
                cur0 == old(self)@.cursor,
                0 <= cur0 < t0.len(),
                self@ == (MState {
                    tape: add_str_tape(t0, cur0, s@.take(k as int)),
                    cursor: cur0 + k,
                    ..old(self)@
                }),
            decreases n - k,
        {
            let c = s.get_char(k);
            let l = self.tape.len();
            proof {
                assert(cells_of(self.tape@).len() == self.tape@.len());
                assert(self@.tape.len() >= cur0 + k + 1);
                assert(self.tape_index as int == cur0 + k);
            }
            self.tape_index = self.tape_index + 1;
            grow_tape_to(&mut self.tape, self.tape_index);
            Tape::set(&mut self.tape, self.tape_index, (c as u32) as i64);
            proof {
                assert(add_str_tape(t0, cur0, s@.take(k + 1)) =~= grow_to(
                    add_str_tape(t0, cur0, s@.take(k as int)),
                    cur0 + k + 2,
                ).update(cur0 + k + 1, (c as u32) as int));
                assert(self@ =~~= (MState {
                    tape: add_str_tape(t0, cur0, s@.take(k + 1)),
                    cursor: cur0 + k + 1,
                    ..old(self)@
                }));
            }
            k = k + 1;
        }
        proof {
            assert(s@.take(n as int) =~= s@);
        }
    }

    fn write_string(&mut self, s: &str) {
        let ghost t0 = self@.tape;
        let ghost cur0 = self@.cursor;
        let n = s.unicode_len();
        let mut k: usize = 0;
        proof {
            assert(wpartial(t0, cur0, s@, 0) =~= t0);
            assert(self@ =~~= (MState {
                tape: wpartial(t0, cur0, s@, 0),
                cursor: cur0 + 0,
                ..old(self)@
            }));
        }
        while k < n
            invariant
                k <= n,
                n == s@.len(),
                t0 == old(self)@.tape,
                cur0 == old(self)@.cursor,
                0 <= cur0 < t0.len(),
                self@ == (MState {
                    tape: wpartial(t0, cur0, s@, k as int),
                    cursor: cur0 + k,
                    ..old(self)@
                }),
            decreases n - k,
        {
            let c = s.get_char(k);
            let l = self.tape.len();
            proof {
                assert(cells_of(self.tape@).len() == self.tape@.len());
                assert(self@.tape.len() >= cur0 + k);
                assert(self.tape_index as int == cur0 + k);
            }
            grow_tape_to(&mut self.tape, self.tape_index);
            Tape::set(&mut self.tape, self.tape_index, (c as u32) as i64);
            proof {
                assert(wpartial(t0, cur0, s@, k + 1) =~= grow_to(
                    wpartial(t0, cur0, s@, k as int),
                    cur0 + k + 1,
                ).update(cur0 + k, (c as u32) as int));
                assert(self@ =~~= (MState {
                    tape: wpartial(t0, cur0, s@, k + 1),
                    cursor: cur0 + k,
                    ..old(self)@
                }));
            }
            let l2 = self.tape.len();
            self.tape_index = self.tape_index + 1;
            k = k + 1;
        }
        grow_tape_to(&mut self.tape, self.tape_index);
        proof {
            assert(write_str_tape(t0, cur0, s@) =~= grow_to(
                wpartial(t0, cur0, s@, n as int),
                cur0 + n + 1,
            ));
            assert(self@ =~~= (MState {
                tape: write_str_tape(t0, cur0, s@),
                cursor: cur0 + s@.len(),
                ..old(self)@
            }));
        }
    }

    fn output_char(&mut self) {
        let cv = Tape::get(&self.tape, self.tape_index);
        let w = Number::to_u64(&cv);
        let low = w % 0x1_0000_0000u64;
        self.output.push(Out::Ch(low as u32));
        proof {
            assert(self@ =~~= (MState {
                output: old(self)@.output.push(
                    Out::Ch((wrap_u64(cell(old(self)@)) % 0x1_0000_0000) as u32),
                ),
                ..old(self)@
            }));
        }
    }

    fn write_char(&mut self, c: char) {
        Tape::set(&mut self.tape, self.tape_index, (c as u32) as i64);
        proof {
            assert(self@ =~~= (MState {
                tape: old(self)@.tape.update(old(self)@.cursor, (c as u32) as int),
                ..old(self)@
            }));
        }
    }
}

impl Interpreter {
    /// Stand a program at its first command, keeping the tape, the function
    /// table and the queues as they are.
    pub fn start(&mut self, command_tape: &Vec<SpannedCommand>)
        requires
            st_wf(old(self)@),
        ensures
            st_wf(final(self)@),
            final(self)@ == boot(old(self)@, view_cmds(command_tape@)),
    {
        let root = Frame { body: clone_cmds(command_tape), pos: 0, kind: FrameKind::Plain };
        let mut fr_vec: Vec<Frame> = Vec::new();
        fr_vec.push(root);
        self.frames = fr_vec;
        self.status = Status::Running;
        proof {
            assert(self@ =~~= boot(old(self)@, view_cmds(command_tape@)));
            assert forall|i: int|
                0 <= i < self@.frames.len() implies 0 <= (#[trigger] self@.frames[i]).pos
                <= self@.frames[i].body.len() by {
                crate::ast::lemma_view_cmds_len(command_tape@);
            }
        }
    }

    /// Run up to `budget` steps, stopping early when the machine is no
    /// longer running.
    pub fn run_steps(&mut self, budget: u64) -> (st: Status)
        requires
            st_wf(old(self)@),
        ensures
            st_wf(final(self)@),
            st == final(self)@.status,
            exists|n: nat|
                #![auto]
                n <= budget && final(self)@ == spec_run(old(self)@, n) && (final(self)@.status == Status::Running ==> n == budget),
    {
        let ghost s0 = self@;
        let mut done: u64 = 0;
        loop
            invariant
                st_wf(self@),
                s0 == old(self)@,
                done <= budget,
                self@ == spec_run(s0, done as nat),
            ensures
                st_wf(self@),
                done <= budget,
                self@ == spec_run(s0, done as nat),
                self@.status == Status::Running ==> done == budget,
            decreases budget - done,
        {
            if done == budget {
                break;
            }
            let still: bool = match self.status {
                Status::Running => true,
                _ => false,
            };
            if !still {
                break;
            }
            self.step();
            proof {
                lemma_run_step(s0, done as nat);
            }
            done = done + 1;
        }
        self.status
    }

    /// Queue one key for `ReadKey`; a machine parked for a key resumes.
    pub fn provide_key(&mut self, key: i64)
        requires
            st_wf(old(self)@),
        ensures
            st_wf(final(self)@),
            final(self)@ == (MState {
                input: old(self)@.input.push(key),
                status: if old(self)@.status == Status::NeedKey {
                    Status::Running
                } else {
                    old(self)@.status
                },
                ..old(self)@
            }),
    {
        self.input.push(key);
        let parked: bool = match self.status {
            Status::NeedKey => true,
            _ => false,
        };
        if parked {
            self.status = Status::Running;
        }
        proof {
            assert(self@ =~~= (MState {
                input: old(self)@.input.push(key),
                status: if old(self)@.status == Status::NeedKey {
                    Status::Running
                } else {
                    old(self)@.status
                },
                ..old(self)@
            }));
        }
    }

    /// Where execution stands.
    pub fn status(&self) -> (r: Status)
        ensures
            r == self@.status,
    {
        self.status
    }

    /// The cursor's position on the tape.
    pub fn cursor(&self) -> (r: usize)
        ensures
            r as int == self@.cursor,
    {
        self.tape_index
    }

    /// How many cells the tape holds.
    pub fn tape_len(&self) -> (r: usize)
        ensures
            r as int == self@.tape.len(),
    {
        self.tape.len()
    }

    /// The value of one cell, if that cell exists.
    pub fn get_cell(&self, index: usize) -> (r: Option<i64>)
        ensures
            (match r {
                Some(v) => index < self@.tape.len() && v as int == self@.tape[index as int],
                None => index >= self@.tape.len(),
            }),
    {
        if index < self.tape.len() {
            Some(Tape::get(&self.tape, index))
        } else {
            None
        }
    }

    /// Hand over everything emitted so far and clear the queue.
    pub fn take_output(&mut self) -> (r: Vec<Out>)
        ensures
            r@ == old(self)@.output,
            final(self)@ == (MState { output: Seq::empty(), ..old(self)@ }),
    {
        let mut out: Vec<Out> = Vec::new();
        core::mem::swap(&mut out, &mut self.output);
        proof {
            assert(self@ =~~= (MState { output: Seq::empty(), ..old(self)@ }));
        }
        out
    }
}

} // verus!
