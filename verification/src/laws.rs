use vstd::prelude::*;

use crate::ast::{CmdV, SpannedV};
use crate::chars::{bytes_len, is_digit_char, utf8_len};
use crate::interpreter::{
    adv, boot, cell, init_state, lemma_run_step, pushf, spec_run, spec_step, st_wf, top,
    FrameKind, MState, Status,
};
use crate::parser::{
    dec_val, digits_end, is_ascii_digit, lemma_dec_val_nonneg, lit_ok, scan_until, sp_parse,
    sp_toplevel, sp_next, PParse, PTok,
};

verus! {

// ---------------------------------------------------------------------------
// Facts about scanning a run of digits.
// ---------------------------------------------------------------------------
pub proof fn lemma_bytes_ascii(s: Seq<char>)
    requires
        forall|k: int| 0 <= k < s.len() ==> (#[trigger] s[k] as u32) < 128,
    ensures
        bytes_len(s) == s.len(),
    decreases s,
{
    if s.len() > 0 {
        assert(forall|k: int|
            0 <= k < s.len() - 1 ==> s.drop_last()[k] == #[trigger] s[k]);
        lemma_bytes_ascii(s.drop_last());
        assert(utf8_len(s.last()) == 1);
    }
}

pub proof fn lemma_digits_end_all(s: Seq<char>, i: int)
    requires
        0 <= i <= s.len(),
        forall|k: int| i <= k < s.len() ==> is_ascii_digit(#[trigger] s[k]),
    ensures
        digits_end(s, i) == s.len(),
    decreases s.len() - i,
{
    if i < s.len() {
        assert(is_digit_char(s[i]));
        lemma_digits_end_all(s, i + 1);
    }
}

pub proof fn lemma_scan_lands(s: Seq<char>, i: int, m: int, stop: char)
    requires
        0 <= i <= m < s.len(),
        s[m] == stop,
        forall|k: int| i <= k < m ==> #[trigger] s[k] != stop,
    ensures
        scan_until(s, i, stop) == m,
    decreases m - i,
{
    if i < m {
        lemma_scan_lands(s, i + 1, m, stop);
    }
}

// ---------------------------------------------------------------------------
// The advance-then-write law: for every literal in range, the text `N`
// parses to a single `AddInteger` command, and executing it on a fresh
// machine advances the cursor by exactly one and sets the new cell to `N`.
// ---------------------------------------------------------------------------
#[verifier::rlimit(100)]
pub proof fn lemma_parse_literal(ds: Seq<char>)
    requires
        lit_ok(ds, i64::MAX as int),
    ensures
        sp_parse(ds) == PParse::POk(
            seq![
                SpannedV {
                    command: CmdV::AddInteger(dec_val(ds) as i64),
                    start: 0,
                    end: ds.len() as int,
                },
            ],
        ),
{
    assert(forall|k: int| 0 <= k < ds.len() ==> (#[trigger] ds[k] as u32) < 128);
    lemma_bytes_ascii(ds);
    assert(is_digit_char(ds[0]));
    lemma_digits_end_all(ds, 1);
    assert(digits_end(ds, 0) == ds.len());
    assert(ds.take(0) =~= Seq::<char>::empty());
    assert(ds.take(ds.len() as int) =~= ds);
    assert(ds.subrange(0, ds.len() as int) =~= ds);
    let c = SpannedV {
        command: CmdV::AddInteger(dec_val(ds) as i64),
        start: 0,
        end: ds.len() as int,
    };
    assert(sp_next(ds, 0) == PTok::Tok(c, ds.len() as int));
    assert(sp_next(ds, ds.len() as int) == PTok::Eof);
    assert(sp_toplevel(ds, ds.len() as int) == PParse::POk(Seq::<SpannedV>::empty()));
    assert(seq![c] + Seq::<SpannedV>::empty() =~= seq![c]);
}

pub proof fn lemma_exec_add_integer(v: i64, a: int, b: int)
    ensures
        ({
            let prog = seq![SpannedV { command: CmdV::AddInteger(v), start: a, end: b }];
            let r = spec_run(boot(init_state(), prog), 3);
            &&& r.status == Status::Finished
            &&& r.tape =~= seq![0int, v as int]
            &&& r.cursor == 1
            &&& r.output == Seq::<crate::interpreter::Out>::empty()
        }),
{
    let prog = seq![SpannedV { command: CmdV::AddInteger(v), start: a, end: b }];
    let s0 = boot(init_state(), prog);
    let s1 = spec_step(s0);
    assert(s1 =~~= (MState {
        tape: seq![0int, v as int],
        cursor: 1,
        frames: seq![
            crate::interpreter::FrameV { body: prog, pos: 1, kind: FrameKind::Plain },
        ],
        ..s0
    })) by {
        assert(adv(s0).frames =~= seq![
            crate::interpreter::FrameV { body: prog, pos: 1, kind: FrameKind::Plain },
        ]);
        assert(crate::tape::grow_to(seq![0int], 2).update(1, v as int) =~= seq![
            0int,
            v as int,
        ]);
    }
    let s2 = spec_step(s1);
    assert(s2 =~~= (MState { frames: Seq::empty(), ..s1 })) by {
        assert(s1.frames.drop_last() =~= Seq::<crate::interpreter::FrameV>::empty());
    }
    let s3 = spec_step(s2);
    assert(s3 == MState { status: Status::Finished, ..s2 });
    lemma_run_step(s0, 0);
    lemma_run_step(s0, 1);
    lemma_run_step(s0, 2);
    assert(spec_run(s0, 0) == s0);
    assert(spec_run(s0, 1) == s1);
    assert(spec_run(s0, 2) == s2);
    assert(spec_run(s0, 3) == s3);
}

/// For every literal `N` in range: parsing the text `N` yields one
/// `AddInteger` command, and executing it against a fresh tape advances the
/// cursor by exactly one and sets the new cell to `N`.
pub proof fn law_advance_then_write(ds: Seq<char>)
    requires
        lit_ok(ds, i64::MAX as int),
    ensures
        ({
            let v = dec_val(ds) as i64;
            let prog = seq![
                SpannedV { command: CmdV::AddInteger(v), start: 0, end: ds.len() as int },
            ];
            let r = spec_run(boot(init_state(), prog), 3);
            &&& sp_parse(ds) == PParse::POk(prog)
            &&& r.status == Status::Finished
            &&& r.cursor == 1
            &&& r.tape =~= seq![0int, dec_val(ds) as int]
            &&& cell(r) == dec_val(ds)
        }),
{
    lemma_dec_val_nonneg(ds);
    lemma_parse_literal(ds);
    lemma_exec_add_integer(dec_val(ds) as i64, 0, ds.len() as int);
}

// ---------------------------------------------------------------------------
// The write-in-place round trip.
// ---------------------------------------------------------------------------
#[verifier::rlimit(100)]
pub proof fn lemma_parse_write_integer(ds: Seq<char>)
    requires
        lit_ok(ds, i64::MAX as int),
    ensures
        sp_parse(seq!['['] + ds + seq![']']) == PParse::POk(
            seq![
                SpannedV {
                    command: CmdV::WriteInteger(dec_val(ds) as i64),
                    start: 0,
                    end: ds.len() as int + 2,
                },
            ],
        ),
{
    let src = seq!['['] + ds + seq![']'];
    let m = 1 + ds.len() as int;
    assert(src.len() == ds.len() as int + 2);
    assert(src[0] == '[');
    assert(src[m] == ']');
    assert(forall|k: int| 0 <= k < ds.len() ==> src[1 + k] == #[trigger] ds[k]);
    assert(forall|k: int| 1 <= k < m ==> is_ascii_digit(#[trigger] src[k]));
    assert(forall|k: int| 1 <= k < m ==> #[trigger] src[k] != ']');
    lemma_scan_lands(src, 1, m, ']');
    assert(src.subrange(1, m) =~= ds);
    assert(forall|k: int| 0 <= k < src.len() ==> (#[trigger] src[k] as u32) < 128);
    lemma_bytes_ascii(src);
    assert(src.take(0) =~= Seq::<char>::empty());
    assert(forall|k: int| 0 <= k < m ==> (#[trigger] src.take(m)[k] as u32) < 128);
    lemma_bytes_ascii(src.take(m));
    let c = SpannedV {
        command: CmdV::WriteInteger(dec_val(ds) as i64),
        start: 0,
        end: ds.len() as int + 2,
    };
    assert(sp_next(src, 0) == PTok::Tok(c, src.len() as int));
    assert(sp_next(src, src.len() as int) == PTok::Eof);
    assert(sp_toplevel(src, src.len() as int) == PParse::POk(Seq::<SpannedV>::empty()));
    assert(seq![c] + Seq::<SpannedV>::empty() =~= seq![c]);
}

pub proof fn lemma_exec_write_integer(v: i64, a: int, b: int)
    ensures
        ({
            let prog = seq![SpannedV { command: CmdV::WriteInteger(v), start: a, end: b }];
            let r = spec_run(boot(init_state(), prog), 3);
            &&& r.status == Status::Finished
            &&& r.tape =~= seq![v as int]
            &&& r.cursor == 0
        }),
{
    let prog = seq![SpannedV { command: CmdV::WriteInteger(v), start: a, end: b }];
    let s0 = boot(init_state(), prog);
    let s1 = spec_step(s0);
    assert(s1 =~~= (MState {
        tape: seq![v as int],
        frames: seq![
            crate::interpreter::FrameV { body: prog, pos: 1, kind: FrameKind::Plain },
        ],
        ..s0
    })) by {
        assert(adv(s0).frames =~= seq![
            crate::interpreter::FrameV { body: prog, pos: 1, kind: FrameKind::Plain },
        ]);
        assert(seq![0int].update(0, v as int) =~= seq![v as int]);
    }
    let s2 = spec_step(s1);
    assert(s2 =~~= (MState { frames: Seq::empty(), ..s1 })) by {
        assert(s1.frames.drop_last() =~= Seq::<crate::interpreter::FrameV>::empty());
    }
    let s3 = spec_step(s2);
    assert(s3 == MState { status: Status::Finished, ..s2 });
    lemma_run_step(s0, 0);
    lemma_run_step(s0, 1);
    lemma_run_step(s0, 2);
}

/// Round trip of the write-in-place form: for every literal `N` in range,
/// parsing `[N]` yields one `WriteInteger` command, and executing it against
/// a fresh tape leaves the current cell equal to `N` with the cursor
/// unmoved.
pub proof fn law_write_in_place_round_trip(ds: Seq<char>)
    requires
        lit_ok(ds, i64::MAX as int),
    ensures
        ({
            let v = dec_val(ds) as i64;
            let prog = seq![
                SpannedV { command: CmdV::WriteInteger(v), start: 0, end: ds.len() as int + 2 },
            ];
            let r = spec_run(boot(init_state(), prog), 3);
            &&& sp_parse(seq!['['] + ds + seq![']']) == PParse::POk(prog)
            &&& r.status == Status::Finished
            &&& r.cursor == 0
            &&& cell(r) == dec_val(ds)
        }),
{
    lemma_dec_val_nonneg(ds);
    lemma_parse_write_integer(ds);
    lemma_exec_write_integer(dec_val(ds) as i64, 0, ds.len() as int + 2);
}

// ---------------------------------------------------------------------------
// `While` with a zero cell runs its body zero times; `Loop` enters its body
// unconditionally, so the body runs at least once.
// ---------------------------------------------------------------------------
/// Dispatching `While` on a zero current cell only steps past the command:
/// the body is never entered and nothing else changes. On a nonzero cell
/// the body is entered.
pub proof fn law_while_zero_skips_body(s: MState)
    requires
        st_wf(s),
        s.status == Status::Running,
        s.frames.len() > 0,
        top(s).pos < top(s).body.len(),
    ensures
        (match top(s).body[top(s).pos].command {
            CmdV::While(b) => {
                &&& (cell(s) == 0 ==> spec_step(s) == adv(s))
                &&& (cell(s) != 0 ==> spec_step(s) == pushf(adv(s), b, FrameKind::WhileBody))
            },
            _ => true,
        }),
{
    match top(s).body[top(s).pos].command {
        CmdV::While(b) => {
            if cell(s) == 0 {
                assert(spec_step(s) =~~= adv(s));
            } else {
                assert(spec_step(s) =~~= pushf(adv(s), b, FrameKind::WhileBody));
            }
        },
        _ => {},
    }
}

/// Dispatching `Loop` enters the body whatever the current cell holds: the
/// body's scope is pushed with its position at the start, so its commands
/// run at least once.
pub proof fn law_loop_enters_body(s: MState)
    requires
        st_wf(s),
        s.status == Status::Running,
        s.frames.len() > 0,
        top(s).pos < top(s).body.len(),
    ensures
        (match top(s).body[top(s).pos].command {
            CmdV::Loop(b) => spec_step(s) == pushf(adv(s), b, FrameKind::LoopBody),
            _ => true,
        }),
{
    match top(s).body[top(s).pos].command {
        CmdV::Loop(b) => {
            assert(spec_step(s) =~~= pushf(adv(s), b, FrameKind::LoopBody));
        },
        _ => {},
    }
}

// ---------------------------------------------------------------------------
// Movement never leaves the tape on the left.
// ---------------------------------------------------------------------------
/// One `MoveLeft` saturates at the left edge: from cursor zero it stays at
/// zero, otherwise it moves one cell left, and nothing else changes.
pub proof fn law_move_left_saturates(s: MState)
    requires
        st_wf(s),
        s.status == Status::Running,
        s.frames.len() > 0,
        top(s).pos < top(s).body.len(),
        top(s).body[top(s).pos].command == CmdV::MoveLeft,
    ensures
        spec_step(s) == (MState {
            cursor: if s.cursor >= 1 {
                s.cursor - 1
            } else {
                0
            },
            ..adv(s)
        }),
        s.cursor == 0 ==> spec_step(s).cursor == 0,
{
    assert(spec_step(s) =~~= (MState {
        cursor: if s.cursor >= 1 {
            s.cursor - 1
        } else {
            0
        },
        ..adv(s)
    }));
}

/// Running a body made only of `MoveLeft` commands from cursor zero leaves
/// the cursor at zero after every step.
pub proof fn law_move_left_stays_at_zero(s: MState, j: int)
    requires
        st_wf(s),
        s.status == Status::Running,
        s.cursor == 0,
        s.frames.len() == 1,
        s.frames[0].pos == 0,
        s.frames[0].kind == FrameKind::Plain,
        forall|i: int|
            0 <= i < s.frames[0].body.len() ==> (#[trigger] s.frames[0].body[i]).command
                == CmdV::MoveLeft,
        0 <= j <= s.frames[0].body.len(),
    ensures
        spec_run(s, j as nat).cursor == 0,
        spec_run(s, j as nat) == (MState {
            frames: seq![
                crate::interpreter::FrameV { pos: j, ..s.frames[0] },
            ],
            ..s
        }),
    decreases j,
{
    assert(s.frames =~= seq![s.frames[0]]);
    if j == 0 {
        assert(spec_run(s, 0) == s);
        assert(s == (MState {
            frames: seq![crate::interpreter::FrameV { pos: 0, ..s.frames[0] }],
            ..s
        })) by {
            assert(s.frames =~= seq![
                crate::interpreter::FrameV { pos: 0, ..s.frames[0] },
            ]);
            assert(s =~~= (MState {
                frames: seq![crate::interpreter::FrameV { pos: 0, ..s.frames[0] }],
                ..s
            }));
        }
    } else {
        law_move_left_stays_at_zero(s, j - 1);
        let sp = spec_run(s, (j - 1) as nat);
        lemma_run_step(s, (j - 1) as nat);
        assert(spec_step(sp) =~~= (MState {
            frames: seq![crate::interpreter::FrameV { pos: j, ..s.frames[0] }],
            ..s
        })) by {
            assert(top(sp) == crate::interpreter::FrameV { pos: j - 1, ..s.frames[0] });
            assert(top(sp).body[j - 1].command == CmdV::MoveLeft);
            assert(adv(sp).frames =~= seq![
                crate::interpreter::FrameV { pos: j, ..s.frames[0] },
            ]);
        }
    }
}

// ---------------------------------------------------------------------------
// The tape never shrinks.
// ---------------------------------------------------------------------------
#[verifier::rlimit(100)]
pub proof fn lemma_base_tape_len(s: MState, c: CmdV)
    requires
        st_wf(s),
    ensures
        crate::interpreter::step_cmd_base(s, c).tape.len() >= s.tape.len(),
{
    match c {
        CmdV::LeftAdd(o) => crate::interpreter::lemma_arith_wf(
            s,
            crate::tape::Direction::Left,
            o,
            crate::tape::ArithOp::Add,
        ),
        CmdV::RightAdd(o) => crate::interpreter::lemma_arith_wf(
            s,
            crate::tape::Direction::Right,
            o,
            crate::tape::ArithOp::Add,
        ),
        CmdV::LeftSubtract(o) => crate::interpreter::lemma_arith_wf(
            s,
            crate::tape::Direction::Left,
            o,
            crate::tape::ArithOp::Sub,
        ),
        CmdV::RightSubtract(o) => crate::interpreter::lemma_arith_wf(
            s,
            crate::tape::Direction::Right,
            o,
            crate::tape::ArithOp::Sub,
        ),
        CmdV::LeftMultiply(o) => crate::interpreter::lemma_arith_wf(
            s,
            crate::tape::Direction::Left,
            o,
            crate::tape::ArithOp::Mul,
        ),
        CmdV::RightMultiply(o) => crate::interpreter::lemma_arith_wf(
            s,
            crate::tape::Direction::Right,
            o,
            crate::tape::ArithOp::Mul,
        ),
        CmdV::LeftDivide(o) => crate::interpreter::lemma_arith_wf(
            s,
            crate::tape::Direction::Left,
            o,
            crate::tape::ArithOp::Div,
        ),
        CmdV::RightDivide(o) => crate::interpreter::lemma_arith_wf(
            s,
            crate::tape::Direction::Right,
            o,
            crate::tape::ArithOp::Div,
        ),
        CmdV::LeftModulo(o) => crate::interpreter::lemma_arith_wf(
            s,
            crate::tape::Direction::Left,
            o,
            crate::tape::ArithOp::Mod,
        ),
        CmdV::RightModulo(o) => crate::interpreter::lemma_arith_wf(
            s,
            crate::tape::Direction::Right,
            o,
            crate::tape::ArithOp::Mod,
        ),
        _ => {},
    }
}

/// One step of a well-formed machine never shrinks the tape: growth to the
/// right is monotonic.
pub proof fn law_step_tape_monotone(s: MState)
    requires
        st_wf(s),
    ensures
        spec_step(s).tape.len() >= s.tape.len(),
{
    if s.status == Status::Running && s.frames.len() > 0 {
        let f = top(s);
        if f.pos < f.body.len() {
            let c = f.body[f.pos].command;
            if !(c matches CmdV::ReadKey && s.input.len() == 0) {
                crate::interpreter::lemma_adv_wf(s);
                lemma_base_tape_len(adv(s), c);
            }
        }
    }
}

/// However many steps run, the tape's length never decreases.
pub proof fn law_run_tape_monotone(s: MState, n: nat)
    requires
        st_wf(s),
    ensures
        spec_run(s, n).tape.len() >= s.tape.len(),
    decreases n,
{
    if n > 0 {
        law_run_tape_monotone(s, (n - 1) as nat);
        crate::interpreter::lemma_run_wf(s, (n - 1) as nat);
        law_step_tape_monotone(spec_run(s, (n - 1) as nat));
    }
}


} // verus!
