use vstd::prelude::*;

use crate::ast::{view_cmd, view_cmds, view_spanned, CmdV, Command, SpannedCommand, SpannedV};
use crate::chars::{
    bpos, bytes_len, char_alphabetic, char_numeric, char_utf8_len, char_whitespace,
    is_digit_char, is_ident_char, is_space_char, lemma_bpos_le_total, lemma_bpos_step,
    str_byte_len, utf8_len,
};
use crate::chars::str_eq;
use crate::{ParseError, ParseErrorKind};
use vstd::string::StrSliceExecFns;

verus! {

// ---------------------------------------------------------------------------
// Scanning: each function returns the first position at or after `i` where a
// scan stops. All are total; callers keep `0 <= i <= s.len()`.
// ---------------------------------------------------------------------------
pub open spec fn ws_end(s: Seq<char>, i: int) -> int
    decreases s.len() - i,
{
    if 0 <= i && i < s.len() && is_space_char(s[i]) {
        ws_end(s, i + 1)
    } else {
        i
    }
}

pub open spec fn ident_end(s: Seq<char>, i: int) -> int
    decreases s.len() - i,
{
    if 0 <= i && i < s.len() && is_ident_char(s[i]) {
        ident_end(s, i + 1)
    } else {
        i
    }
}

pub open spec fn digits_end(s: Seq<char>, i: int) -> int
    decreases s.len() - i,
{
    if 0 <= i && i < s.len() && is_digit_char(s[i]) {
        digits_end(s, i + 1)
    } else {
        i
    }
}

/// Position of the next occurrence of `stop`, or `s.len()` if there is none.
pub open spec fn scan_until(s: Seq<char>, i: int, stop: char) -> int
    decreases s.len() - i,
{
    if 0 <= i && i < s.len() {
        if s[i] == stop {
            i
        } else {
            scan_until(s, i + 1, stop)
        }
    } else {
        if i < 0 {
            i
        } else {
            s.len() as int
        }
    }
}

/// The characters that terminate a `<`-prefixed offset: an arithmetic
/// operator or the close of a counted move.
pub open spec fn is_offset_stop(c: char) -> bool {
    c == '+' || c == '-' || c == '*' || c == '/' || c == '%' || c == ')'
}

pub open spec fn scan_until_offset_stop(s: Seq<char>, i: int) -> int
    decreases s.len() - i,
{
    if 0 <= i && i < s.len() {
        if is_offset_stop(s[i]) {
            i
        } else {
            scan_until_offset_stop(s, i + 1)
        }
    } else {
        if i < 0 {
            i
        } else {
            s.len() as int
        }
    }
}

/// Position of the closing quote of a string literal, or `s.len()` if the
/// literal never closes. A quote directly preceded by a backslash does not
/// close the literal; the backslash itself stays part of the text.
pub open spec fn str_end(s: Seq<char>, i: int, armed: bool) -> int
    decreases s.len() - i,
{
    if 0 <= i && i < s.len() {
        if s[i] == '"' && !armed {
            i
        } else {
            str_end(s, i + 1, s[i] == '\\')
        }
    } else {
        if i < 0 {
            i
        } else {
            s.len() as int
        }
    }
}

pub proof fn lemma_ws_end_bounds(s: Seq<char>, i: int)
    requires
        0 <= i <= s.len(),
    ensures
        i <= ws_end(s, i) <= s.len(),
    decreases s.len() - i,
{
    if i < s.len() && is_space_char(s[i]) {
        lemma_ws_end_bounds(s, i + 1);
    }
}

pub proof fn lemma_ident_end_bounds(s: Seq<char>, i: int)
    requires
        0 <= i <= s.len(),
    ensures
        i <= ident_end(s, i) <= s.len(),
    decreases s.len() - i,
{
    if i < s.len() && is_ident_char(s[i]) {
        lemma_ident_end_bounds(s, i + 1);
    }
}

pub proof fn lemma_digits_end_bounds(s: Seq<char>, i: int)
    requires
        0 <= i <= s.len(),
    ensures
        i <= digits_end(s, i) <= s.len(),
    decreases s.len() - i,
{
    if i < s.len() && is_digit_char(s[i]) {
        lemma_digits_end_bounds(s, i + 1);
    }
}

pub proof fn lemma_scan_until_bounds(s: Seq<char>, i: int, stop: char)
    requires
        0 <= i <= s.len(),
    ensures
        i <= scan_until(s, i, stop) <= s.len(),
        scan_until(s, i, stop) < s.len() ==> s[scan_until(s, i, stop)] == stop,
    decreases s.len() - i,
{
    if i < s.len() && s[i] != stop {
        lemma_scan_until_bounds(s, i + 1, stop);
    }
}

pub proof fn lemma_scan_until_offset_stop_bounds(s: Seq<char>, i: int)
    requires
        0 <= i <= s.len(),
    ensures
        i <= scan_until_offset_stop(s, i) <= s.len(),
        scan_until_offset_stop(s, i) < s.len() ==> is_offset_stop(
            s[scan_until_offset_stop(s, i)],
        ),
    decreases s.len() - i,
{
    if i < s.len() && !is_offset_stop(s[i]) {
        lemma_scan_until_offset_stop_bounds(s, i + 1);
    }
}

pub proof fn lemma_str_end_bounds(s: Seq<char>, i: int, armed: bool)
    requires
        0 <= i <= s.len(),
    ensures
        i <= str_end(s, i, armed) <= s.len(),
        str_end(s, i, armed) < s.len() ==> s[str_end(s, i, armed)] == '"',
    decreases s.len() - i,
{
    if i < s.len() && !(s[i] == '"' && !armed) {
        lemma_str_end_bounds(s, i + 1, s[i] == '\\');
    }
}

// ---------------------------------------------------------------------------
// Decimal literals.
// ---------------------------------------------------------------------------
pub open spec fn is_ascii_digit(c: char) -> bool {
    48 <= c as u32 && c as u32 <= 57
}

pub open spec fn digit_val(c: char) -> int {
    c as u32 - 48
}

pub open spec fn all_ascii_digits(s: Seq<char>) -> bool {
    forall|k: int| 0 <= k < s.len() ==> is_ascii_digit(#[trigger] s[k])
}

/// The value of a run of decimal digits, most significant first.
pub open spec fn dec_val(s: Seq<char>) -> int
    decreases s,
{
    if s.len() == 0 {
        0
    } else {
        dec_val(s.drop_last()) * 10 + digit_val(s.last())
    }
}

/// A text is a usable literal when it is a nonempty run of ASCII digits
/// whose value does not exceed `bound`.
pub open spec fn lit_ok(s: Seq<char>, bound: int) -> bool {
    s.len() > 0 && all_ascii_digits(s) && dec_val(s) <= bound
}

pub proof fn lemma_dec_val_nonneg(s: Seq<char>)
    requires
        all_ascii_digits(s),
    ensures
        dec_val(s) >= 0,
    decreases s,
{
    if s.len() > 0 {
        assert(all_ascii_digits(s.drop_last())) by {
            assert(forall|k: int|
                0 <= k < s.len() - 1 ==> s.drop_last()[k] == #[trigger] s[k]);
        }
        lemma_dec_val_nonneg(s.drop_last());
    }
}

// ---------------------------------------------------------------------------
// The reserved words.
// ---------------------------------------------------------------------------
pub open spec fn kw_if() -> Seq<char> {
    seq!['i', 'f']
}

pub open spec fn kw_while() -> Seq<char> {
    seq!['w', 'h', 'i', 'l', 'e']
}

pub open spec fn kw_loop() -> Seq<char> {
    seq!['l', 'o', 'o', 'p']
}

pub open spec fn kw_fun() -> Seq<char> {
    seq!['f', 'u', 'n']
}

pub open spec fn kw_getfun() -> Seq<char> {
    seq!['g', 'e', 't', 'f', 'u', 'n']
}

pub open spec fn kw_call() -> Seq<char> {
    seq!['c', 'a', 'l', 'l']
}

pub open spec fn kw_end() -> Seq<char> {
    seq!['e', 'n', 'd']
}

pub open spec fn kw_else() -> Seq<char> {
    seq!['e', 'l', 's', 'e']
}

// ---------------------------------------------------------------------------
// The structural parser, as a mathematical function. `sp_next` reads one
// token (recursively reading a whole block for the reserved words); the
// block readers pull tokens until their matching `end`.
//
// Block bodies keep every token, bare identifiers included: a nested block
// consumes its own terminator during its recursive parse, so only the
// block's own `end` (and `else` inside `if`) is taken as a terminator and
// kept out of the body. Reaching the end of the input closes every open
// block.
// ---------------------------------------------------------------------------
/// A parse failure, before the offset is narrowed to a machine word.
pub struct PErr {
    pub kind: ParseErrorKind,
    pub off: int,
}

pub enum PTok {
    Eof,
    Fail(PErr),
    /// A token and the character position that follows it.
    Tok(SpannedV, int),
}

pub enum PBlock {
    BFail(PErr),
    /// Body commands, byte end of the last token pulled (None if none was),
    /// and the character position that follows the block.
    BDone(Seq<SpannedV>, Option<int>, int),
}

pub enum PIf {
    IFail(PErr),
    /// Then-branch, optional else-branch, last token end, following position.
    IDone(Seq<SpannedV>, Option<Seq<SpannedV>>, Option<int>, int),
}

pub enum PFun {
    FFail(PErr),
    /// Function name, body, end byte, following position.
    FDone(Seq<char>, Seq<SpannedV>, int, int),
}

pub enum PGet {
    GFail(PErr),
    /// Function name, end byte, following position.
    GDone(Seq<char>, int, int),
}

pub open spec fn or_end(e: Option<int>, d: int) -> Option<int> {
    match e {
        Some(x) => Some(x),
        None => Some(d),
    }
}

pub open spec fn end_or(e: Option<int>, d: int) -> int {
    match e {
        Some(x) => x,
        None => d,
    }
}

pub open spec fn sp_next(s: Seq<char>, p: int) -> PTok
    decreases s.len() - p, 0int,
{
    let i = ws_end(s, p);
    if !(p <= i && i < s.len()) {
        PTok::Eof
    } else {
        let c0 = s[i];
        let b0 = bpos(s, i);
        if is_ident_char(c0) {
            let j = ident_end(s, i);
            if !(i < j && j <= s.len()) {
                PTok::Eof
            } else {
                let name = s.subrange(i, j);
                if name == kw_if() {
                    match sp_if(s, j) {
                        PIf::IFail(e) => PTok::Fail(e),
                        PIf::IDone(t, els, e2, p3) => PTok::Tok(
                            SpannedV {
                                command: CmdV::If(t, els),
                                start: b0,
                                end: end_or(e2, 0),
                            },
                            p3,
                        ),
                    }
                } else if name == kw_while() {
                    match sp_block(s, j) {
                        PBlock::BFail(e) => PTok::Fail(e),
                        PBlock::BDone(cs, e2, p3) => PTok::Tok(
                            SpannedV {
                                command: CmdV::While(cs),
                                start: b0,
                                end: end_or(e2, 0),
                            },
                            p3,
                        ),
                    }
                } else if name == kw_loop() {
                    match sp_block(s, j) {
                        PBlock::BFail(e) => PTok::Fail(e),
                        PBlock::BDone(cs, e2, p3) => PTok::Tok(
                            SpannedV {
                                command: CmdV::Loop(cs),
                                start: b0,
                                end: end_or(e2, 0),
                            },
                            p3,
                        ),
                    }
                } else if name == kw_fun() {
                    match sp_fun(s, j, b0) {
                        PFun::FFail(e) => PTok::Fail(e),
                        PFun::FDone(nm, cs, e2, p3) => PTok::Tok(
                            SpannedV {
                                command: CmdV::FunctionDefinition(nm, cs),
                                start: b0,
                                end: e2,
                            },
                            p3,
                        ),
                    }
                } else if name == kw_getfun() {
                    match sp_getfun(s, j, b0) {
                        PGet::GFail(e) => PTok::Fail(e),
                        PGet::GDone(nm, e2, p3) => PTok::Tok(
                            SpannedV { command: CmdV::GetFunction(nm), start: b0, end: e2 },
                            p3,
                        ),
                    }
                } else if name == kw_call() {
                    PTok::Tok(
                        SpannedV { command: CmdV::CallFunction, start: b0, end: bpos(s, j) },
                        j,
                    )
                } else {
                    PTok::Tok(
                        SpannedV { command: CmdV::FunctionCall(name), start: b0, end: bpos(s, j) },
                        j,
                    )
                }
            }
        } else if is_digit_char(c0) {
            let j = digits_end(s, i);
            let t = s.subrange(i, j);
            if lit_ok(t, i64::MAX as int) {
                PTok::Tok(
                    SpannedV {
                        command: CmdV::AddInteger(dec_val(t) as i64),
                        start: b0,
                        end: bpos(s, j),
                    },
                    j,
                )
            } else {
                PTok::Fail(PErr { kind: ParseErrorKind::MalformedNumber, off: b0 })
            }
        } else if c0 == '"' {
            let k = str_end(s, i + 1, false);
            if k >= s.len() {
                PTok::Fail(PErr { kind: ParseErrorKind::UnterminatedString, off: b0 })
            } else {
                PTok::Tok(
                    SpannedV {
                        command: CmdV::AddString(s.subrange(i + 1, k)),
                        start: b0,
                        end: bpos(s, k),
                    },
                    k + 1,
                )
            }
        } else if c0 == '+' {
            if i + 1 >= s.len() {
                PTok::Tok(SpannedV { command: CmdV::Increment, start: b0, end: b0 + 1 }, i + 1)
            } else if s[i + 1] == '>' {
                PTok::Tok(
                    SpannedV { command: CmdV::RightAdd(None), start: b0, end: b0 + 2 },
                    i + 2,
                )
            } else {
                match sp_offset(s, i) {
                    POff::OFail(e) => PTok::Fail(e),
                    POff::OBare => PTok::Tok(
                        SpannedV { command: CmdV::Increment, start: b0, end: b0 + 1 },
                        i + 1,
                    ),
                    POff::ODone(v, e2, p2) => PTok::Tok(
                        SpannedV { command: CmdV::RightAdd(Some(v)), start: b0, end: e2 },
                        p2,
                    ),
                }
            }
        } else if c0 == '-' {
            if i + 1 >= s.len() {
                PTok::Tok(SpannedV { command: CmdV::Decrement, start: b0, end: b0 + 1 }, i + 1)
            } else if s[i + 1] == '>' {
                PTok::Tok(
                    SpannedV { command: CmdV::RightSubtract(None), start: b0, end: b0 + 2 },
                    i + 2,
                )
            } else if is_digit_char(s[i + 1]) {
                match sp_offset(s, i) {
                    POff::OFail(e) => PTok::Fail(e),
                    POff::OBare => PTok::Tok(
                        SpannedV { command: CmdV::Decrement, start: b0, end: b0 + 1 },
                        i + 1,
                    ),
                    POff::ODone(v, e2, p2) => PTok::Tok(
                        SpannedV { command: CmdV::RightSubtract(Some(v)), start: b0, end: e2 },
                        p2,
                    ),
                }
            } else {
                PTok::Tok(SpannedV { command: CmdV::Decrement, start: b0, end: b0 + 1 }, i + 1)
            }
        } else if c0 == '*' || c0 == '/' || c0 == '%' {
            if i + 1 >= s.len() {
                PTok::Tok(
                    SpannedV { command: left_op_cmd(c0, None), start: b0, end: b0 + 1 },
                    i + 1,
                )
            } else if s[i + 1] == '>' {
                PTok::Tok(
                    SpannedV { command: right_op_cmd(c0, None), start: b0, end: b0 + 2 },
                    i + 2,
                )
            } else {
                match sp_offset(s, i) {
                    POff::OFail(e) => PTok::Fail(e),
                    POff::OBare => PTok::Tok(
                        SpannedV { command: left_op_cmd(c0, None), start: b0, end: b0 + 1 },
                        i + 1,
                    ),
                    POff::ODone(v, e2, p2) => PTok::Tok(
                        SpannedV { command: right_op_cmd(c0, Some(v)), start: b0, end: e2 },
                        p2,
                    ),
                }
            }
        } else if c0 == '<' {
            if i + 1 >= s.len() {
                PTok::Tok(SpannedV { command: CmdV::MoveLeft, start: b0, end: b0 + 1 }, i + 1)
            } else if s[i + 1] == '+' || s[i + 1] == '-' || s[i + 1] == '*' || s[i + 1] == '/'
                || s[i + 1] == '%' {
                PTok::Tok(
                    SpannedV { command: left_op_cmd(s[i + 1], None), start: b0, end: b0 + 2 },
                    i + 2,
                )
            } else if s[i + 1] == '|' {
                PTok::Tok(
                    SpannedV { command: CmdV::ReadMoveLeft, start: b0, end: b0 + 2 },
                    i + 2,
                )
            } else if is_digit_char(s[i + 1]) {
                let k = scan_until_offset_stop(s, i + 1);
                if k >= s.len() {
                    PTok::Fail(PErr { kind: ParseErrorKind::UnterminatedOffset, off: b0 })
                } else {
                    let t = s.subrange(i + 1, k);
                    if s[k] == ')' {
                        if lit_ok(t, u64::MAX as int) {
                            PTok::Tok(
                                SpannedV {
                                    command: CmdV::MoveNLeft(dec_val(t) as u64),
                                    start: b0,
                                    end: bpos(s, k) + 1,
                                },
                                k + 1,
                            )
                        } else {
                            PTok::Fail(PErr { kind: ParseErrorKind::MalformedNumber, off: b0 })
                        }
                    } else {
                        if lit_ok(t, usize::MAX as int) {
                            PTok::Tok(
                                SpannedV {
                                    command: left_op_cmd(s[k], Some(dec_val(t) as usize)),
                                    start: b0,
                                    end: bpos(s, k) + 1,
                                },
                                k + 1,
                            )
                        } else {
                            PTok::Fail(PErr { kind: ParseErrorKind::MalformedNumber, off: b0 })
                        }
                    }
                }
            } else {
                PTok::Tok(SpannedV { command: CmdV::MoveLeft, start: b0, end: b0 + 1 }, i + 1)
            }
        } else if c0 == '>' {
            PTok::Tok(SpannedV { command: CmdV::MoveRight, start: b0, end: b0 + 1 }, i + 1)
        } else if c0 == '|' {
            if i + 1 < s.len() && s[i + 1] == '>' {
                PTok::Tok(
                    SpannedV { command: CmdV::ReadMoveRight, start: b0, end: b0 + 2 },
                    i + 2,
                )
            } else {
                PTok::Fail(PErr { kind: ParseErrorKind::ExpectedMoveRight, off: b0 })
            }
        } else if c0 == '(' {
            let k = scan_until(s, i + 1, '>');
            let t = s.subrange(i + 1, if k <= s.len() { k } else { s.len() as int });
            if lit_ok(t, u64::MAX as int) {
                PTok::Tok(
                    SpannedV {
                        command: CmdV::MoveNRight(dec_val(t) as u64),
                        start: b0,
                        end: if k < s.len() { bpos(s, k) + 1 } else { bpos(s, s.len() as int) },
                    },
                    if k < s.len() { k + 1 } else { s.len() as int },
                )
            } else {
                PTok::Fail(PErr { kind: ParseErrorKind::MalformedNumber, off: b0 })
            }
        } else if c0 == '.' {
            PTok::Tok(SpannedV { command: CmdV::OutputNumber, start: b0, end: b0 + 1 }, i + 1)
        } else if c0 == ',' {
            PTok::Tok(SpannedV { command: CmdV::OutputChar, start: b0, end: b0 + 1 }, i + 1)
        } else if c0 == '?' {
            PTok::Tok(SpannedV { command: CmdV::ReadKey, start: b0, end: b0 + 1 }, i + 1)
        } else if c0 == '[' {
            if i + 1 < s.len() && s[i + 1] == '"' {
                let q = str_end(s, i + 2, false);
                if q >= s.len() {
                    PTok::Fail(PErr { kind: ParseErrorKind::UnterminatedString, off: b0 })
                } else if q + 1 < s.len() && s[q + 1] == ']' {
                    PTok::Tok(
                        SpannedV {
                            command: CmdV::WriteString(s.subrange(i + 2, q)),
                            start: b0,
                            end: bpos(s, q + 1) + 1,
                        },
                        q + 2,
                    )
                } else {
                    PTok::Fail(PErr { kind: ParseErrorKind::ExpectedClosingBracket, off: b0 })
                }
            } else {
                let k = scan_until(s, i + 1, ']');
                let t = s.subrange(i + 1, if k <= s.len() { k } else { s.len() as int });
                if lit_ok(t, i64::MAX as int) {
                    PTok::Tok(
                        SpannedV {
                            command: CmdV::WriteInteger(dec_val(t) as i64),
                            start: b0,
                            end: if k < s.len() { bpos(s, k) + 1 } else { bpos(s, s.len() as int) },
                        },
                        if k < s.len() { k + 1 } else { s.len() as int },
                    )
                } else {
                    PTok::Fail(PErr { kind: ParseErrorKind::MalformedNumber, off: b0 })
                }
            }
        } else if c0 == '#' {
            let k = scan_until(s, i + 1, '\n');
            PTok::Tok(
                SpannedV {
                    command: CmdV::Comment,
                    start: b0,
                    end: if k < s.len() { bpos(s, k) + 1 } else { bpos(s, s.len() as int) },
                },
                if k < s.len() { k + 1 } else { s.len() as int },
            )
        } else {
            PTok::Fail(PErr { kind: ParseErrorKind::UnexpectedChar, off: b0 })
        }
    }
}

/// A `N>` offset after an arithmetic operator at position `i`: the digits
/// run from `i + 1` to the closing `>`. When no `>` follows anywhere, the
/// operator stands bare and no offset is read.
pub enum POff {
    OFail(PErr),
    OBare,
    ODone(usize, int, int),
}

pub open spec fn sp_offset(s: Seq<char>, i: int) -> POff {
    let b0 = bpos(s, i);
    let k = scan_until(s, i + 1, '>');
    if k >= s.len() {
        POff::OBare
    } else {
        let t = s.subrange(i + 1, k);
        if lit_ok(t, usize::MAX as int) {
            POff::ODone(dec_val(t) as usize, bpos(s, k) + 1, k + 1)
        } else {
            POff::OFail(PErr { kind: ParseErrorKind::MalformedNumber, off: b0 })
        }
    }
}

pub open spec fn left_op_cmd(c: char, o: Option<usize>) -> CmdV {
    if c == '+' {
        CmdV::LeftAdd(o)
    } else if c == '-' {
        CmdV::LeftSubtract(o)
    } else if c == '*' {
        CmdV::LeftMultiply(o)
    } else if c == '/' {
        CmdV::LeftDivide(o)
    } else {
        CmdV::LeftModulo(o)
    }
}

pub open spec fn right_op_cmd(c: char, o: Option<usize>) -> CmdV {
    if c == '+' {
        CmdV::RightAdd(o)
    } else if c == '-' {
        CmdV::RightSubtract(o)
    } else if c == '*' {
        CmdV::RightMultiply(o)
    } else if c == '/' {
        CmdV::RightDivide(o)
    } else {
        CmdV::RightModulo(o)
    }
}

/// Body of a `while`, `loop` or `fun` block: tokens up to the matching `end`.
pub open spec fn sp_block(s: Seq<char>, p: int) -> PBlock
    decreases s.len() - p, 1int,
{
    match sp_next(s, p) {
        PTok::Eof => PBlock::BDone(Seq::empty(), None, s.len() as int),
        PTok::Fail(e) => PBlock::BFail(e),
        PTok::Tok(c, p2) => {
            if !(p < p2 && p2 <= s.len()) {
                PBlock::BDone(Seq::empty(), None, p)
            } else {
                if c.command == CmdV::FunctionCall(kw_end()) {
                    PBlock::BDone(Seq::empty(), Some(c.end), p2)
                } else {
                    match sp_block(s, p2) {
                        PBlock::BFail(e) => PBlock::BFail(e),
                        PBlock::BDone(cs, e2, p3) => PBlock::BDone(
                            seq![c] + cs,
                            or_end(e2, c.end),
                            p3,
                        ),
                    }
                }
            }
        },
    }
}

/// Body of an `if` block: a then-branch up to `else` or `end`, and after an
/// `else` a second branch up to `end`.
pub open spec fn sp_if(s: Seq<char>, p: int) -> PIf
    decreases s.len() - p, 1int,
{
    match sp_next(s, p) {
        PTok::Eof => PIf::IDone(Seq::empty(), None, None, s.len() as int),
        PTok::Fail(e) => PIf::IFail(e),
        PTok::Tok(c, p2) => {
            if !(p < p2 && p2 <= s.len()) {
                PIf::IDone(Seq::empty(), None, None, p)
            } else {
                if c.command == CmdV::FunctionCall(kw_else()) {
                    match sp_block(s, p2) {
                        PBlock::BFail(e) => PIf::IFail(e),
                        PBlock::BDone(cs, e2, p3) => PIf::IDone(
                            Seq::empty(),
                            Some(cs),
                            or_end(e2, c.end),
                            p3,
                        ),
                    }
                } else if c.command == CmdV::FunctionCall(kw_end()) {
                    PIf::IDone(Seq::empty(), None, Some(c.end), p2)
                } else {
                    match sp_if(s, p2) {
                        PIf::IFail(e) => PIf::IFail(e),
                        PIf::IDone(t, els, e2, p3) => PIf::IDone(
                            seq![c] + t,
                            els,
                            or_end(e2, c.end),
                            p3,
                        ),
                    }
                }
            }
        },
    }
}

/// A function definition after `fun`: a bare identifier naming the function,
/// then its body up to the matching `end`.
pub open spec fn sp_fun(s: Seq<char>, p: int, err_off: int) -> PFun
    decreases s.len() - p, 1int,
{
    match sp_next(s, p) {
        PTok::Eof => PFun::FFail(PErr { kind: ParseErrorKind::ExpectedFunctionName, off: err_off }),
        PTok::Fail(e) => PFun::FFail(e),
        PTok::Tok(c, p2) => {
            if !(p < p2 && p2 <= s.len()) {
                PFun::FFail(PErr { kind: ParseErrorKind::ExpectedFunctionName, off: err_off })
            } else {
                match c.command {
                    CmdV::FunctionCall(n) => {
                        match sp_block(s, p2) {
                            PBlock::BFail(e) => PFun::FFail(e),
                            PBlock::BDone(cs, e2, p3) => PFun::FDone(
                                n,
                                cs,
                                end_or(e2, c.end),
                                p3,
                            ),
                        }
                    },
                    _ => PFun::FFail(
                        PErr { kind: ParseErrorKind::ExpectedFunctionName, off: err_off },
                    ),
                }
            }
        },
    }
}

/// The identifier after `getfun`.
pub open spec fn sp_getfun(s: Seq<char>, p: int, err_off: int) -> PGet
    decreases s.len() - p, 1int,
{
    match sp_next(s, p) {
        PTok::Eof => PGet::GFail(PErr { kind: ParseErrorKind::ExpectedFunctionName, off: err_off }),
        PTok::Fail(e) => PGet::GFail(e),
        PTok::Tok(c, p2) => {
            match c.command {
                CmdV::FunctionCall(n) => PGet::GDone(n, c.end, p2),
                _ => PGet::GFail(
                    PErr { kind: ParseErrorKind::ExpectedFunctionName, off: err_off },
                ),
            }
        },
    }
}

pub enum PParse {
    PFail(PErr),
    POk(Seq<SpannedV>),
}

/// The whole input as a command sequence.
pub open spec fn sp_toplevel(s: Seq<char>, p: int) -> PParse
    decreases s.len() - p, 2int,
{
    match sp_next(s, p) {
        PTok::Eof => PParse::POk(Seq::empty()),
        PTok::Fail(e) => PParse::PFail(e),
        PTok::Tok(c, p2) => {
            if !(p < p2 && p2 <= s.len()) {
                PParse::POk(Seq::empty())
            } else {
                match sp_toplevel(s, p2) {
                    PParse::PFail(e) => PParse::PFail(e),
                    PParse::POk(cs) => PParse::POk(seq![c] + cs),
                }
            }
        },
    }
}

pub open spec fn sp_parse(s: Seq<char>) -> PParse {
    sp_toplevel(s, 0)
}

// ---------------------------------------------------------------------------
// Reading a token always consumes at least one character, and never runs
// past the end of the input.
// ---------------------------------------------------------------------------
pub proof fn lemma_next_pos(s: Seq<char>, p: int)
    requires
        0 <= p <= s.len(),
    ensures
        match sp_next(s, p) {
            PTok::Tok(c, p2) => p < p2 <= s.len(),
            _ => true,
        },
    decreases s.len() - p, 0int,
{
    lemma_ws_end_bounds(s, p);
    let i = ws_end(s, p);
    if p <= i && i < s.len() {
        lemma_ident_end_bounds(s, i + 1);
        lemma_digits_end_bounds(s, i + 1);
        lemma_scan_until_bounds(s, i + 1, '>');
        lemma_scan_until_bounds(s, i + 1, ']');
        lemma_scan_until_bounds(s, i + 1, '\n');
        lemma_scan_until_offset_stop_bounds(s, i + 1);
        lemma_str_end_bounds(s, i + 1, false);
        if i + 2 <= s.len() {
            lemma_str_end_bounds(s, i + 2, false);
        }
        if is_digit_char(s[i]) {
            assert(digits_end(s, i) == digits_end(s, i + 1));
        }
        if is_ident_char(s[i]) {
            let j = ident_end(s, i);
            assert(j == ident_end(s, i + 1));
            lemma_if_pos(s, j);
            lemma_block_pos(s, j);
            lemma_fun_pos(s, j, bpos(s, i));
            lemma_getfun_pos(s, j, bpos(s, i));
        }
    }
}

pub proof fn lemma_block_pos(s: Seq<char>, p: int)
    requires
        0 <= p <= s.len(),
    ensures
        match sp_block(s, p) {
            PBlock::BDone(cs, e2, p3) => p <= p3 <= s.len(),
            _ => true,
        },
    decreases s.len() - p, 1int,
{
    lemma_next_pos(s, p);
    match sp_next(s, p) {
        PTok::Tok(c, p2) => {
            if p < p2 && p2 <= s.len() {
                lemma_block_pos(s, p2);
            }
        },
        _ => {},
    }
}

pub proof fn lemma_if_pos(s: Seq<char>, p: int)
    requires
        0 <= p <= s.len(),
    ensures
        match sp_if(s, p) {
            PIf::IDone(t, els, e2, p3) => p <= p3 <= s.len(),
            _ => true,
        },
    decreases s.len() - p, 1int,
{
    lemma_next_pos(s, p);
    match sp_next(s, p) {
        PTok::Tok(c, p2) => {
            if p < p2 && p2 <= s.len() {
                lemma_if_pos(s, p2);
                lemma_block_pos(s, p2);
            }
        },
        _ => {},
    }
}

pub proof fn lemma_fun_pos(s: Seq<char>, p: int, err_off: int)
    requires
        0 <= p <= s.len(),
    ensures
        match sp_fun(s, p, err_off) {
            PFun::FDone(nm, cs, e2, p3) => p <= p3 <= s.len(),
            _ => true,
        },
    decreases s.len() - p, 1int,
{
    lemma_next_pos(s, p);
    match sp_next(s, p) {
        PTok::Tok(c, p2) => {
            if p < p2 && p2 <= s.len() {
                lemma_block_pos(s, p2);
            }
        },
        _ => {},
    }
}

pub proof fn lemma_getfun_pos(s: Seq<char>, p: int, err_off: int)
    requires
        0 <= p <= s.len(),
    ensures
        match sp_getfun(s, p, err_off) {
            PGet::GDone(nm, e2, p3) => p <= p3 <= s.len(),
            _ => true,
        },
    decreases s.len() - p, 1int,
{
    lemma_next_pos(s, p);
}

// ---------------------------------------------------------------------------
// Reading a decimal literal.
// ---------------------------------------------------------------------------
pub proof fn lemma_dec_val_take_step(t: Seq<char>, m: int)
    requires
        0 <= m < t.len(),
    ensures
        dec_val(t.take(m + 1)) == dec_val(t.take(m)) * 10 + digit_val(t[m]),
{
    assert(t.take(m + 1).drop_last() =~= t.take(m));
    assert(t.take(m + 1).last() == t[m]);
}

pub proof fn lemma_all_digits_take(t: Seq<char>, m: int)
    requires
        all_ascii_digits(t),
        0 <= m <= t.len(),
    ensures
        all_ascii_digits(t.take(m)),
{
    assert(forall|k: int| 0 <= k < m ==> t.take(m)[k] == #[trigger] t[k]);
}

pub proof fn lemma_dec_val_prefix_le(t: Seq<char>, m: int)
    requires
        all_ascii_digits(t),
        0 <= m <= t.len(),
    ensures
        dec_val(t.take(m)) <= dec_val(t),
    decreases t.len() - m,
{
    if m == t.len() {
        assert(t.take(m) =~= t);
    } else {
        lemma_dec_val_take_step(t, m);
        lemma_all_digits_take(t, m);
        lemma_dec_val_nonneg(t.take(m));
        lemma_dec_val_prefix_le(t, m + 1);
    }
}

/// Read the decimal value of the characters of `s` between `a` and `b`, if
/// they are a literal no greater than `bound`.
pub fn read_number(s: &str, a: usize, b: usize, bound: u64) -> (r: Option<u64>)
    requires
        a <= b && b <= s@.len(),
    ensures
        match r {
            Some(v) => lit_ok(s@.subrange(a as int, b as int), bound as int) && v as int
                == dec_val(s@.subrange(a as int, b as int)) && v <= bound,
            None => !lit_ok(s@.subrange(a as int, b as int), bound as int),
        },
{
    let ghost t = s@.subrange(a as int, b as int);
    if a == b {
        return None;
    }
    let mut val: u64 = 0;
    let mut j: usize = a;
    loop
        invariant
            a <= j <= b,
            b <= s@.len(),
            a < b,
            t == s@.subrange(a as int, b as int),
            all_ascii_digits(t.take(j - a)),
            val as int == dec_val(t.take(j - a)),
            val <= bound,
        ensures
            j == b,
            all_ascii_digits(t),
            val as int == dec_val(t),
            val <= bound,
        decreases b - j,
    {
        if j == b {
            proof {
                assert(t.take(j - a) =~= t);
            }
            break;
        }
        let c = s.get_char(j);
        proof {
            assert(t[j - a] == s@[j as int]);
        }
        let u = c as u32;
        if u < 48 || u > 57 {
            proof {
                assert(!is_ascii_digit(t[j - a]));
                assert(!all_ascii_digits(t));
            }
            return None;
        }
        let d: u64 = (u - 48) as u64;
        let nv: u128 = (val as u128) * 10 + (d as u128);
        proof {
            lemma_dec_val_take_step(t, j - a);
        }
        if nv > bound as u128 {
            proof {
                if lit_ok(t, bound as int) {
                    lemma_dec_val_prefix_le(t, j - a + 1);
                }
            }
            return None;
        }
        val = nv as u64;
        proof {
            assert(t.take(j - a + 1).drop_last() =~= t.take(j - a));
        }
        j = j + 1;
    }
    Some(val)
}

// ---------------------------------------------------------------------------
// Position bookkeeping of the executable lexer: `pos` counts characters,
// `byte_pos` the bytes of their UTF-8 encodings.
// ---------------------------------------------------------------------------
pub struct Lexer<'a> {
    input: &'a str,
    n: usize,
    nb: usize,
    pos: usize,
    byte_pos: usize,
}

impl<'a> Lexer<'a> {
    pub closed spec fn src(&self) -> Seq<char> {
        self.input@
    }

    /// The character position of the cursor.
    pub closed spec fn cpos(&self) -> int {
        self.pos as int
    }

    pub closed spec fn wf(&self) -> bool {
        &&& self.n == self.input@.len()
        &&& self.nb as int == bytes_len(self.input@)
        &&& self.pos <= self.n
        &&& self.byte_pos as int == bpos(self.input@, self.pos as int)
    }

    pub fn new(input: &'a str) -> (r: Lexer<'a>)
        ensures
            r.wf(),
            r.src() == input@,
            r.cpos() == 0,
    {
        let n = input.unicode_len();
        let nb = str_byte_len(input);
        proof {
            assert(input@.take(0) =~= Seq::<char>::empty());
        }
        Lexer { input, n, nb, pos: 0, byte_pos: 0 }
    }

    /// Step over the character at the cursor.
    fn advance(&mut self)
        requires
            old(self).wf(),
            old(self).pos < old(self).n,
        ensures
            final(self).wf(),
            final(self).input == old(self).input,
            final(self).n == old(self).n,
            final(self).pos == old(self).pos + 1,
            final(self).byte_pos as int == old(self).byte_pos + utf8_len(
                old(self).input@[old(self).pos as int],
            ),
    {
        let c = self.input.get_char(self.pos);
        let w = char_utf8_len(c);
        proof {
            lemma_bpos_step(self.input@, self.pos as int);
            lemma_bpos_le_total(self.input@, self.pos + 1);
        }
        self.pos = self.pos + 1;
        self.byte_pos = self.byte_pos + w;
    }

    fn skip_ws(&mut self)
        requires
            old(self).wf(),
        ensures
            final(self).wf(),
            final(self).input == old(self).input,
            final(self).n == old(self).n,
            final(self).pos as int == ws_end(old(self).input@, old(self).pos as int),
            old(self).pos <= final(self).pos,
    {
        let ghost s = self.input@;
        let ghost p0 = self.pos as int;
        loop
            invariant
                self.wf(),
                self.input == old(self).input,
                self.input@ == s,
                self.n == old(self).n,
                p0 == old(self).pos as int,
                p0 <= self.pos as int,
                ws_end(s, p0) == ws_end(s, self.pos as int),
            ensures
                self.wf(),
                self.input == old(self).input,
                self.input@ == s,
                self.n == old(self).n,
                p0 == old(self).pos as int,
                p0 <= self.pos as int,
                self.pos as int == ws_end(s, p0),
            decreases self.n - self.pos,
        {
            if self.pos >= self.n {
                proof {
                    assert(ws_end(s, self.pos as int) == self.pos as int);
                }
                break;
            }
            let c = self.input.get_char(self.pos);
            if !char_whitespace(c) {
                proof {
                    assert(ws_end(s, self.pos as int) == self.pos as int);
                }
                break;
            }
            proof {
                assert(ws_end(s, self.pos as int) == ws_end(s, self.pos as int + 1));
            }
            self.advance();
        }
    }

    fn scan_ident(&mut self)
        requires
            old(self).wf(),
        ensures
            final(self).wf(),
            final(self).input == old(self).input,
            final(self).n == old(self).n,
            final(self).pos as int == ident_end(old(self).input@, old(self).pos as int),
            old(self).pos <= final(self).pos,
    {
        let ghost s = self.input@;
        let ghost p0 = self.pos as int;
        loop
            invariant
                self.wf(),
                self.input == old(self).input,
                self.input@ == s,
                self.n == old(self).n,
                p0 == old(self).pos as int,
                p0 <= self.pos as int,
                ident_end(s, p0) == ident_end(s, self.pos as int),
            ensures
                self.wf(),
                self.input == old(self).input,
                self.input@ == s,
                self.n == old(self).n,
                p0 == old(self).pos as int,
                p0 <= self.pos as int,
                self.pos as int == ident_end(s, p0),
            decreases self.n - self.pos,
        {
            if self.pos >= self.n {
                proof {
                    assert(ident_end(s, self.pos as int) == self.pos as int);
                }
                break;
            }
            let c = self.input.get_char(self.pos);
            if !(char_alphabetic(c) || c == '_') {
                proof {
                    assert(ident_end(s, self.pos as int) == self.pos as int);
                }
                break;
            }
            proof {
                assert(ident_end(s, self.pos as int) == ident_end(s, self.pos as int + 1));
            }
            self.advance();
        }
    }

    fn scan_digits(&mut self)
        requires
            old(self).wf(),
        ensures
            final(self).wf(),
            final(self).input == old(self).input,
            final(self).n == old(self).n,
            final(self).pos as int == digits_end(old(self).input@, old(self).pos as int),
            old(self).pos <= final(self).pos,
    {
        let ghost s = self.input@;
        let ghost p0 = self.pos as int;
        loop
            invariant
                self.wf(),
                self.input == old(self).input,
                self.input@ == s,
                self.n == old(self).n,
                p0 == old(self).pos as int,
                p0 <= self.pos as int,
                digits_end(s, p0) == digits_end(s, self.pos as int),
            ensures
                self.wf(),
                self.input == old(self).input,
                self.input@ == s,
                self.n == old(self).n,
                p0 == old(self).pos as int,
                p0 <= self.pos as int,
                self.pos as int == digits_end(s, p0),
            decreases self.n - self.pos,
        {
            if self.pos >= self.n {
                proof {
                    assert(digits_end(s, self.pos as int) == self.pos as int);
                }
                break;
            }
            let c = self.input.get_char(self.pos);
            if !char_numeric(c) {
                proof {
                    assert(digits_end(s, self.pos as int) == self.pos as int);
                }
                break;
            }
            proof {
                assert(digits_end(s, self.pos as int) == digits_end(s, self.pos as int + 1));
            }
            self.advance();
        }
    }

    /// Stop at the next occurrence of `stop`, without taking it.
    fn scan_to(&mut self, stop: char)
        requires
            old(self).wf(),
        ensures
            final(self).wf(),
            final(self).input == old(self).input,
            final(self).n == old(self).n,
            final(self).pos as int == scan_until(old(self).input@, old(self).pos as int, stop),
            old(self).pos <= final(self).pos,
    {
        let ghost s = self.input@;
        let ghost p0 = self.pos as int;
        loop
            invariant
                self.wf(),
                self.input == old(self).input,
                self.input@ == s,
                self.n == old(self).n,
                p0 == old(self).pos as int,
                p0 <= self.pos as int,
                scan_until(s, p0, stop) == scan_until(s, self.pos as int, stop),
            ensures
                self.wf(),
                self.input == old(self).input,
                self.input@ == s,
                self.n == old(self).n,
                p0 == old(self).pos as int,
                p0 <= self.pos as int,
                self.pos as int == scan_until(s, p0, stop),
            decreases self.n - self.pos,
        {
            if self.pos >= self.n {
                proof {
                    assert(scan_until(s, self.pos as int, stop) == s.len() as int);
                }
                break;
            }
            let c = self.input.get_char(self.pos);
            if c == stop {
                proof {
                    assert(scan_until(s, self.pos as int, stop) == self.pos as int);
                }
                break;
            }
            proof {
                assert(scan_until(s, self.pos as int, stop) == scan_until(
                    s,
                    self.pos as int + 1,
                    stop,
                ));
            }
            self.advance();
        }
    }

    /// Stop at the next offset terminator, without taking it.
    fn scan_to_offset_stop(&mut self)
        requires
            old(self).wf(),
        ensures
            final(self).wf(),
            final(self).input == old(self).input,
            final(self).n == old(self).n,
            final(self).pos as int == scan_until_offset_stop(old(self).input@, old(self).pos as int),
            old(self).pos <= final(self).pos,
    {
        let ghost s = self.input@;
        let ghost p0 = self.pos as int;
        loop
            invariant
                self.wf(),
                self.input == old(self).input,
                self.input@ == s,
                self.n == old(self).n,
                p0 == old(self).pos as int,
                p0 <= self.pos as int,
                scan_until_offset_stop(s, p0) == scan_until_offset_stop(s, self.pos as int),
            ensures
                self.wf(),
                self.input == old(self).input,
                self.input@ == s,
                self.n == old(self).n,
                p0 == old(self).pos as int,
                p0 <= self.pos as int,
                self.pos as int == scan_until_offset_stop(s, p0),
            decreases self.n - self.pos,
        {
            if self.pos >= self.n {
                proof {
                    assert(scan_until_offset_stop(s, self.pos as int) == s.len() as int);
                }
                break;
            }
            let c = self.input.get_char(self.pos);
            if c == '+' || c == '-' || c == '*' || c == '/' || c == '%' || c == ')' {
                proof {
                    assert(scan_until_offset_stop(s, self.pos as int) == self.pos as int);
                }
                break;
            }
            proof {
                assert(scan_until_offset_stop(s, self.pos as int) == scan_until_offset_stop(
                    s,
                    self.pos as int + 1,
                ));
            }
            self.advance();
        }
    }

    /// Stop at the closing quote of a string literal, without taking it.
    fn scan_str(&mut self)
        requires
            old(self).wf(),
        ensures
            final(self).wf(),
            final(self).input == old(self).input,
            final(self).n == old(self).n,
            final(self).pos as int == str_end(old(self).input@, old(self).pos as int, false),
            old(self).pos <= final(self).pos,
    {
        let ghost s = self.input@;
        let ghost p0 = self.pos as int;
        let mut armed: bool = false;
        loop
            invariant
                self.wf(),
                self.input == old(self).input,
                self.input@ == s,
                self.n == old(self).n,
                p0 == old(self).pos as int,
                p0 <= self.pos as int,
                str_end(s, p0, false) == str_end(s, self.pos as int, armed),
            ensures
                self.wf(),
                self.input == old(self).input,
                self.input@ == s,
                self.n == old(self).n,
                p0 == old(self).pos as int,
                p0 <= self.pos as int,
                self.pos as int == str_end(s, p0, false),
            decreases self.n - self.pos,
        {
            if self.pos >= self.n {
                proof {
                    assert(str_end(s, self.pos as int, armed) == s.len() as int);
                }
                break;
            }
            let c = self.input.get_char(self.pos);
            if c == '"' && !armed {
                proof {
                    assert(str_end(s, self.pos as int, armed) == self.pos as int);
                }
                break;
            }
            proof {
                assert(str_end(s, self.pos as int, armed) == str_end(
                    s,
                    self.pos as int + 1,
                    s[self.pos as int] == '\\',
                ));
            }
            armed = c == '\\';
            self.advance();
        }
    }

    /// Read `N>` after an arithmetic operator: the digits between the
    /// operator at `i` and the closing `>`. With no `>` ahead the operator
    /// stands bare: nothing further is consumed and `None` is handed back.
    fn read_offset(&mut self, b0: usize, Ghost(i): Ghost<int>) -> (r: Result<
        Option<(usize, usize)>,
        ParseError,
    >)
        requires
            old(self).wf(),
            0 <= i < old(self).input@.len(),
            old(self).pos as int == i + 1,
            b0 as int == bpos(old(self).input@, i),
        ensures
            final(self).wf(),
            final(self).input == old(self).input,
            final(self).n == old(self).n,
            (match sp_offset(old(self).input@, i) {
                POff::OBare => r == Ok::<Option<(usize, usize)>, ParseError>(None) && final(self).pos == old(self).pos && final(self).byte_pos == old(self).byte_pos,
                POff::ODone(v, e2, p2) => (r matches Ok(x) && x matches Some(y) && y.0 == v
                    && y.1 as int == e2 && final(self).pos as int == p2),
                POff::OFail(e) => (r matches Err(pe) && pe.kind == e.kind && pe.offset as int
                    == e.off),
            }),
    {
        let ghost s = self.input@;
        let a_us = self.pos;
        let a_bytes = self.byte_pos;
        self.scan_to('>');
        let k_us = self.pos;
        proof {
            lemma_scan_until_bounds(s, i + 1, '>');
        }
        if self.pos >= self.n {
            self.pos = a_us;
            self.byte_pos = a_bytes;
            return Ok(None);
        }
        self.advance();
        let end_b = self.byte_pos;
        match read_number(self.input, a_us, k_us, usize::MAX as u64) {
            Some(v) => Ok(Some((v as usize, end_b))),
            None => Err(ParseError { kind: ParseErrorKind::MalformedNumber, offset: b0 }),
        }
    }

    /// Read the next command from the source, or `None` at its end.
    #[verifier::rlimit(100)]
    fn next(&mut self) -> (r: Result<Option<SpannedCommand>, ParseError>)
        requires
            old(self).wf(),
        ensures
            final(self).wf(),
            final(self).input == old(self).input,
            final(self).n == old(self).n,
            (match sp_next(old(self).input@, old(self).pos as int) {
                PTok::Eof => r == Ok::<Option<SpannedCommand>, ParseError>(None) && final(self).pos == final(self).n,
                PTok::Fail(e) => (r matches Err(pe) && pe.kind == e.kind && pe.offset as int
                    == e.off),
                PTok::Tok(c, p2) => (r matches Ok(op) && op matches Some(cmd) && view_spanned(
                    cmd,
                ) == c && final(self).pos as int == p2),
            }),
        decreases old(self).n - old(self).pos, 0int,
    {
        let ghost s = self.input@;
        let ghost p = self.pos as int;
        self.skip_ws();
        if self.pos >= self.n {
            return Ok(None);
        }
        let ghost i = self.pos as int;
        let i_us = self.pos;
        let b0 = self.byte_pos;
        let c0 = self.input.get_char(self.pos);
        if char_alphabetic(c0) || c0 == '_' {
            self.scan_ident();
            let ghost j = self.pos as int;
            let j_us = self.pos;
            proof {
                assert(ident_end(s, i) == ident_end(s, i + 1));
                lemma_ident_end_bounds(s, i + 1);
            }
            let name_s: &str = self.input.substring_char(i_us, j_us);
            proof {
                reveal_strlit("if");
                reveal_strlit("while");
                reveal_strlit("loop");
                reveal_strlit("fun");
                reveal_strlit("getfun");
                reveal_strlit("call");
                assert("if"@ =~= kw_if());
                assert("while"@ =~= kw_while());
                assert("loop"@ =~= kw_loop());
                assert("fun"@ =~= kw_fun());
                assert("getfun"@ =~= kw_getfun());
                assert("call"@ =~= kw_call());
            }
            if str_eq(name_s, "if") {
                match self.parse_if() {
                    Err(e) => Err(e),
                    Ok((tc, ec, endv)) => Ok(
                        Some(
                            SpannedCommand {
                                command: Command::If(tc, ec),
                                start: b0,
                                end: endv,
                            },
                        ),
                    ),
                }
            } else if str_eq(name_s, "while") {
                match self.parse_while() {
                    Err(e) => Err(e),
                    Ok((cs, endv)) => Ok(
                        Some(
                            SpannedCommand { command: Command::While(cs), start: b0, end: endv },
                        ),
                    ),
                }
            } else if str_eq(name_s, "loop") {
                match self.parse_loop() {
                    Err(e) => Err(e),
                    Ok((cs, endv)) => Ok(
                        Some(SpannedCommand { command: Command::Loop(cs), start: b0, end: endv }),
                    ),
                }
            } else if str_eq(name_s, "fun") {
                match self.parse_function_definition(b0) {
                    Err(e) => Err(e),
                    Ok((nm, cs, endv)) => Ok(
                        Some(
                            SpannedCommand {
                                command: Command::FunctionDefinition(nm, cs),
                                start: b0,
                                end: endv,
                            },
                        ),
                    ),
                }
            } else if str_eq(name_s, "getfun") {
                match self.parse_get_function(b0) {
                    Err(e) => Err(e),
                    Ok((nm, endv)) => Ok(
                        Some(
                            SpannedCommand {
                                command: Command::GetFunction(nm),
                                start: b0,
                                end: endv,
                            },
                        ),
                    ),
                }
            } else if str_eq(name_s, "call") {
                Ok(
                    Some(
                        SpannedCommand {
                            command: Command::CallFunction,
                            start: b0,
                            end: self.byte_pos,
                        },
                    ),
                )
            } else {
                let name = name_s.to_owned();
                Ok(
                    Some(
                        SpannedCommand {
                            command: Command::FunctionCall(name),
                            start: b0,
                            end: self.byte_pos,
                        },
                    ),
                )
            }
        } else if char_numeric(c0) {
            self.scan_digits();
            let j_us = self.pos;
            proof {
                assert(digits_end(s, i) == digits_end(s, i + 1));
                lemma_digits_end_bounds(s, i + 1);
            }
            match read_number(self.input, i_us, j_us, i64::MAX as u64) {
                Some(v) => Ok(
                    Some(
                        SpannedCommand {
                            command: Command::AddInteger(v as i64),
                            start: b0,
                            end: self.byte_pos,
                        },
                    ),
                ),
                None => Err(ParseError { kind: ParseErrorKind::MalformedNumber, offset: b0 }),
            }
        } else if c0 == '"' {
            self.advance();
            self.scan_str();
            proof {
                lemma_str_end_bounds(s, i + 1, false);
            }
            if self.pos >= self.n {
                return Err(
                    ParseError { kind: ParseErrorKind::UnterminatedString, offset: b0 },
                );
            }
            let content = self.input.substring_char(i_us + 1, self.pos).to_owned();
            let end_b = self.byte_pos;
            self.advance();
            Ok(
                Some(
                    SpannedCommand {
                        command: Command::AddString(content),
                        start: b0,
                        end: end_b,
                    },
                ),
            )
        } else if c0 == '+' {
            self.advance();
            if self.pos >= self.n {
                return Ok(
                    Some(
                        SpannedCommand {
                            command: Command::Increment,
                            start: b0,
                            end: self.byte_pos,
                        },
                    ),
                );
            }
            let c1 = self.input.get_char(self.pos);
            if c1 == '>' {
                self.advance();
                return Ok(
                    Some(
                        SpannedCommand {
                            command: Command::RightAdd(None),
                            start: b0,
                            end: self.byte_pos,
                        },
                    ),
                );
            }
            match self.read_offset(b0, Ghost(i)) {
                Err(e) => Err(e),
                Ok(None) => Ok(
                    Some(
                        SpannedCommand {
                            command: Command::Increment,
                            start: b0,
                            end: self.byte_pos,
                        },
                    ),
                ),
                Ok(Some((v, endv))) => Ok(
                    Some(
                        SpannedCommand {
                            command: Command::RightAdd(Some(v)),
                            start: b0,
                            end: endv,
                        },
                    ),
                ),
            }
        } else if c0 == '-' {
            self.advance();
            if self.pos >= self.n {
                return Ok(
                    Some(
                        SpannedCommand {
                            command: Command::Decrement,
                            start: b0,
                            end: self.byte_pos,
                        },
                    ),
                );
            }
            let c1 = self.input.get_char(self.pos);
            if c1 == '>' {
                self.advance();
                return Ok(
                    Some(
                        SpannedCommand {
                            command: Command::RightSubtract(None),
                            start: b0,
                            end: self.byte_pos,
                        },
                    ),
                );
            }
            if char_numeric(c1) {
                match self.read_offset(b0, Ghost(i)) {
                    Err(e) => Err(e),
                    Ok(None) => Ok(
                        Some(
                            SpannedCommand {
                                command: Command::Decrement,
                                start: b0,
                                end: self.byte_pos,
                            },
                        ),
                    ),
                    Ok(Some((v, endv))) => Ok(
                        Some(
                            SpannedCommand {
                                command: Command::RightSubtract(Some(v)),
                                start: b0,
                                end: endv,
                            },
                        ),
                    ),
                }
            } else {
                Ok(
                    Some(
                        SpannedCommand {
                            command: Command::Decrement,
                            start: b0,
                            end: self.byte_pos,
                        },
                    ),
                )
            }
        } else if c0 == '*' || c0 == '/' || c0 == '%' {
            self.advance();
            if self.pos >= self.n {
                return Ok(
                    Some(
                        SpannedCommand {
                            command: left_cmd(c0, None),
                            start: b0,
                            end: self.byte_pos,
                        },
                    ),
                );
            }
            let c1 = self.input.get_char(self.pos);
            if c1 == '>' {
                self.advance();
                return Ok(
                    Some(
                        SpannedCommand {
                            command: right_cmd(c0, None),
                            start: b0,
                            end: self.byte_pos,
                        },
                    ),
                );
            }
            match self.read_offset(b0, Ghost(i)) {
                Err(e) => Err(e),
                Ok(None) => Ok(
                    Some(
                        SpannedCommand {
                            command: left_cmd(c0, None),
                            start: b0,
                            end: self.byte_pos,
                        },
                    ),
                ),
                Ok(Some((v, endv))) => Ok(
                    Some(
                        SpannedCommand {
                            command: right_cmd(c0, Some(v)),
                            start: b0,
                            end: endv,
                        },
                    ),
                ),
            }
        } else if c0 == '<' {
            self.advance();
            if self.pos >= self.n {
                return Ok(
                    Some(
                        SpannedCommand {
                            command: Command::MoveLeft,
                            start: b0,
                            end: self.byte_pos,
                        },
                    ),
                );
            }
            let c1 = self.input.get_char(self.pos);
            if c1 == '+' || c1 == '-' || c1 == '*' || c1 == '/' || c1 == '%' {
                self.advance();
                return Ok(
                    Some(
                        SpannedCommand {
                            command: left_cmd(c1, None),
                            start: b0,
                            end: self.byte_pos,
                        },
                    ),
                );
            }
            if c1 == '|' {
                self.advance();
                return Ok(
                    Some(
                        SpannedCommand {
                            command: Command::ReadMoveLeft,
                            start: b0,
                            end: self.byte_pos,
                        },
                    ),
                );
            }
            if char_numeric(c1) {
                let a_us = self.pos;
                self.scan_to_offset_stop();
                let k_us = self.pos;
                proof {
                    lemma_scan_until_offset_stop_bounds(s, i + 1);
                }
                if self.pos >= self.n {
                    return Err(
                        ParseError { kind: ParseErrorKind::UnterminatedOffset, offset: b0 },
                    );
                }
                let opc = self.input.get_char(self.pos);
                self.advance();
                let end_b = self.byte_pos;
                if opc == ')' {
                    match read_number(self.input, a_us, k_us, u64::MAX) {
                        Some(v) => Ok(
                            Some(
                                SpannedCommand {
                                    command: Command::MoveNLeft(v),
                                    start: b0,
                                    end: end_b,
                                },
                            ),
                        ),
                        None => Err(
                            ParseError { kind: ParseErrorKind::MalformedNumber, offset: b0 },
                        ),
                    }
                } else {
                    match read_number(self.input, a_us, k_us, usize::MAX as u64) {
                        Some(v) => Ok(
                            Some(
                                SpannedCommand {
                                    command: left_cmd(opc, Some(v as usize)),
                                    start: b0,
                                    end: end_b,
                                },
                            ),
                        ),
                        None => Err(
                            ParseError { kind: ParseErrorKind::MalformedNumber, offset: b0 },
                        ),
                    }
                }
            } else {
                Ok(
                    Some(
                        SpannedCommand {
                            command: Command::MoveLeft,
                            start: b0,
                            end: self.byte_pos,
                        },
                    ),
                )
            }
        } else if c0 == '>' {
            self.advance();
            Ok(
                Some(
                    SpannedCommand {
                        command: Command::MoveRight,
                        start: b0,
                        end: self.byte_pos,
                    },
                ),
            )
        } else if c0 == '|' {
            self.advance();
            if self.pos < self.n {
                let c1 = self.input.get_char(self.pos);
                if c1 == '>' {
                    self.advance();
                    return Ok(
                        Some(
                            SpannedCommand {
                                command: Command::ReadMoveRight,
                                start: b0,
                                end: self.byte_pos,
                            },
                        ),
                    );
                }
            }
            Err(ParseError { kind: ParseErrorKind::ExpectedMoveRight, offset: b0 })
        } else if c0 == '(' {
            self.advance();
            let a_us = self.pos;
            self.scan_to('>');
            let k_us = self.pos;
            proof {
                lemma_scan_until_bounds(s, i + 1, '>');
            }
            if self.pos < self.n {
                self.advance();
            }
            let end_b = self.byte_pos;
            match read_number(self.input, a_us, k_us, u64::MAX) {
                Some(v) => Ok(
                    Some(
                        SpannedCommand {
                            command: Command::MoveNRight(v),
                            start: b0,
                            end: end_b,
                        },
                    ),
                ),
                None => Err(ParseError { kind: ParseErrorKind::MalformedNumber, offset: b0 }),
            }
        } else if c0 == '.' {
            self.advance();
            Ok(
                Some(
                    SpannedCommand {
                        command: Command::OutputNumber,
                        start: b0,
                        end: self.byte_pos,
                    },
                ),
            )
        } else if c0 == ',' {
            self.advance();
            Ok(
                Some(
                    SpannedCommand {
                        command: Command::OutputChar,
                        start: b0,
                        end: self.byte_pos,
                    },
                ),
            )
        } else if c0 == '?' {
            self.advance();
            Ok(
                Some(
                    SpannedCommand {
                        command: Command::ReadKey,
                        start: b0,
                        end: self.byte_pos,
                    },
                ),
            )
        } else if c0 == '[' {
            self.advance();
            let quoted: bool = if self.pos < self.n {
                let c1 = self.input.get_char(self.pos);
                c1 == '"'
            } else {
                false
            };
            if quoted {
                self.advance();
                self.scan_str();
                proof {
                    lemma_str_end_bounds(s, i + 2, false);
                }
                if self.pos >= self.n {
                    return Err(
                        ParseError { kind: ParseErrorKind::UnterminatedString, offset: b0 },
                    );
                }
                let ghost q = self.pos as int;
                let content = self.input.substring_char(i_us + 2, self.pos).to_owned();
                self.advance();
                if self.pos < self.n {
                    let c2 = self.input.get_char(self.pos);
                    if c2 == ']' {
                        self.advance();
                        return Ok(
                            Some(
                                SpannedCommand {
                                    command: Command::WriteString(content),
                                    start: b0,
                                    end: self.byte_pos,
                                },
                            ),
                        );
                    }
                }
                Err(ParseError { kind: ParseErrorKind::ExpectedClosingBracket, offset: b0 })
            } else {
                let a_us = self.pos;
                self.scan_to(']');
                let k_us = self.pos;
                proof {
                    lemma_scan_until_bounds(s, i + 1, ']');
                }
                if self.pos < self.n {
                    self.advance();
                }
                let end_b = self.byte_pos;
                match read_number(self.input, a_us, k_us, i64::MAX as u64) {
                    Some(v) => Ok(
                        Some(
                            SpannedCommand {
                                command: Command::WriteInteger(v as i64),
                                start: b0,
                                end: end_b,
                            },
                        ),
                    ),
                    None => Err(
                        ParseError { kind: ParseErrorKind::MalformedNumber, offset: b0 },
                    ),
                }
            }
        } else if c0 == '#' {
            self.advance();
            self.scan_to('\n');
            proof {
                lemma_scan_until_bounds(s, i + 1, '\n');
            }
            if self.pos < self.n {
                self.advance();
            }
            Ok(
                Some(
                    SpannedCommand {
                        command: Command::Comment,
                        start: b0,
                        end: self.byte_pos,
                    },
                ),
            )
        } else {
            Err(ParseError { kind: ParseErrorKind::UnexpectedChar, offset: b0 })
        }
    }

    /// Pull tokens into a block body until the matching `end` or the end of
    /// the input, as `while`, `loop` and `fun` do.
    fn parse_body(&mut self) -> (r: Result<(Vec<SpannedCommand>, Option<usize>), ParseError>)
        requires
            old(self).wf(),
        ensures
            final(self).wf(),
            final(self).input == old(self).input,
            final(self).n == old(self).n,
            (match sp_block(old(self).input@, old(self).pos as int) {
                PBlock::BDone(cs, e2, p3) => (r matches Ok(x) && view_cmds(x.0@) == cs && final(self).pos as int == p3 && (match (x.1, e2) {
                    (Some(u), Some(v)) => u as int == v,
                    (None, None) => true,
                    _ => false,
                })),
                PBlock::BFail(e) => (r matches Err(pe) && pe.kind == e.kind && pe.offset as int
                    == e.off),
            }),
        decreases old(self).n - old(self).pos, 1int,
    {
        let ghost s = self.input@;
        let ghost p0 = self.pos as int;
        let mut commands: Vec<SpannedCommand> = Vec::new();
        let mut last_end: usize = 0;
        let mut any: bool = false;
        proof {
            assert(view_cmds(commands@) =~= Seq::<SpannedV>::empty());
        }
        loop
            invariant
                self.wf(),
                self.input == old(self).input,
                self.input@ == s,
                self.n == old(self).n,
                p0 == old(self).pos as int,
                p0 <= self.pos as int,
                (sp_block(s, p0) == match sp_block(s, self.pos as int) {
                    PBlock::BFail(e) => PBlock::BFail(e),
                    PBlock::BDone(cs, e2, p3) => PBlock::BDone(
                        view_cmds(commands@) + cs,
                        if any {
                            or_end(e2, last_end as int)
                        } else {
                            e2
                        },
                        p3,
                    ),
                }),
            decreases self.n - self.pos,
        {
            let ghost pc = self.pos as int;
            let tok = self.next();
            proof {
                lemma_next_pos(s, pc);
            }
            match tok {
                Err(e) => {
                    return Err(e);
                },
                Ok(None) => {
                    proof {
                        assert(view_cmds(commands@) + Seq::<SpannedV>::empty() =~= view_cmds(
                            commands@,
                        ));
                    }
                    if any {
                        return Ok((commands, Some(last_end)));
                    } else {
                        return Ok((commands, None));
                    }
                },
                Ok(Some(cmd)) => {
                    let ghost c = view_spanned(cmd);
                    let is_term: bool = match &cmd.command {
                        Command::FunctionCall(nm) => {
                            proof {
                                reveal_strlit("end");
                                assert("end"@ =~= kw_end());
                            }
                            str_eq(nm.as_str(), "end")
                        },
                        _ => false,
                    };
                    if is_term {
                        proof {
                            assert(view_cmds(commands@) + Seq::<SpannedV>::empty() =~= view_cmds(
                                commands@,
                            ));
                        }
                        return Ok((commands, Some(cmd.end)));
                    }
                    last_end = cmd.end;
                    any = true;
                    let ghost prev = commands@;
                    commands.push(cmd);
                    proof {
                        assert(commands@.drop_last() =~= prev);
                        assert(view_cmds(commands@) == view_cmds(prev).push(c));
                        match sp_block(s, self.pos as int) {
                            PBlock::BFail(e) => {},
                            PBlock::BDone(cs, e2, p3) => {
                                assert(view_cmds(prev) + (seq![c] + cs) =~= view_cmds(
                                    prev,
                                ).push(c) + cs);
                            },
                        }
                    }
                },
            }
        }
    }

    /// The two branches of an `if` block: up to `else` or `end`, then, after
    /// an `else`, up to `end`.
    fn parse_if(&mut self) -> (r: Result<
        (Vec<SpannedCommand>, Option<Vec<SpannedCommand>>, usize),
        ParseError,
    >)
        requires
            old(self).wf(),
        ensures
            final(self).wf(),
            final(self).input == old(self).input,
            final(self).n == old(self).n,
            (match sp_if(old(self).input@, old(self).pos as int) {
                PIf::IDone(tb, els, e2, p3) => (r matches Ok(x) && view_cmds(x.0@) == tb && final(self).pos as int == p3 && x.2 as int == end_or(e2, 0) && (match (x.1, els) {
                    (Some(v), Some(es)) => view_cmds(v@) == es,
                    (None, None) => true,
                    _ => false,
                })),
                PIf::IFail(e) => (r matches Err(pe) && pe.kind == e.kind && pe.offset as int
                    == e.off),
            }),
        decreases old(self).n - old(self).pos, 1int,
    {
        let ghost s = self.input@;
        let ghost p0 = self.pos as int;
        let mut commands: Vec<SpannedCommand> = Vec::new();
        let mut last_end: usize = 0;
        let mut any: bool = false;
        proof {
            assert(view_cmds(commands@) =~= Seq::<SpannedV>::empty());
        }
        loop
            invariant
                self.wf(),
                self.input == old(self).input,
                self.input@ == s,
                self.n == old(self).n,
                p0 == old(self).pos as int,
                p0 <= self.pos as int,
                (sp_if(s, p0) == match sp_if(s, self.pos as int) {
                    PIf::IFail(e) => PIf::IFail(e),
                    PIf::IDone(tb, els, e2, p3) => PIf::IDone(
                        view_cmds(commands@) + tb,
                        els,
                        if any {
                            or_end(e2, last_end as int)
                        } else {
                            e2
                        },
                        p3,
                    ),
                }),
            decreases self.n - self.pos,
        {
            let ghost pc = self.pos as int;
            let tok = self.next();
            proof {
                lemma_next_pos(s, pc);
            }
            match tok {
                Err(e) => {
                    return Err(e);
                },
                Ok(None) => {
                    proof {
                        assert(view_cmds(commands@) + Seq::<SpannedV>::empty() =~= view_cmds(
                            commands@,
                        ));
                    }
                    if any {
                        return Ok((commands, None, last_end));
                    } else {
                        return Ok((commands, None, 0));
                    }
                },
                Ok(Some(cmd)) => {
                    let ghost c = view_spanned(cmd);
                    let kind: u8 = match &cmd.command {
                        Command::FunctionCall(nm) => {
                            proof {
                                reveal_strlit("end");
                                reveal_strlit("else");
                                assert("end"@ =~= kw_end());
                                assert("else"@ =~= kw_else());
                            }
                            if str_eq(nm.as_str(), "else") {
                                1
                            } else if str_eq(nm.as_str(), "end") {
                                2
                            } else {
                                0
                            }
                        },
                        _ => 0,
                    };
                    if kind == 1 {
                        proof {
                            assert(view_cmds(commands@) + Seq::<SpannedV>::empty() =~= view_cmds(
                                commands@,
                            ));
                        }
                        match self.parse_body() {
                            Err(e) => {
                                return Err(e);
                            },
                            Ok((ecs, eo)) => {
                                let endv = eo.unwrap_or(cmd.end);
                                return Ok((commands, Some(ecs), endv));
                            },
                        }
                    } else if kind == 2 {
                        proof {
                            assert(view_cmds(commands@) + Seq::<SpannedV>::empty() =~= view_cmds(
                                commands@,
                            ));
                        }
                        return Ok((commands, None, cmd.end));
                    } else {
                        last_end = cmd.end;
                        any = true;
                        let ghost prev = commands@;
                        commands.push(cmd);
                        proof {
                            assert(commands@.drop_last() =~= prev);
                            assert(view_cmds(commands@) == view_cmds(prev).push(c));
                            match sp_if(s, self.pos as int) {
                                PIf::IFail(e) => {},
                                PIf::IDone(tb, els, e2, p3) => {
                                    assert(view_cmds(prev) + (seq![c] + tb) =~= view_cmds(
                                        prev,
                                    ).push(c) + tb);
                                },
                            }
                        }
                    }
                },
            }
        }
    }

    /// Body of a `while` block.
    fn parse_while(&mut self) -> (r: Result<(Vec<SpannedCommand>, usize), ParseError>)
        requires
            old(self).wf(),
        ensures
            final(self).wf(),
            final(self).input == old(self).input,
            final(self).n == old(self).n,
            (match sp_block(old(self).input@, old(self).pos as int) {
                PBlock::BDone(cs, e2, p3) => (r matches Ok(x) && view_cmds(x.0@) == cs && final(self).pos as int == p3 && x.1 as int == end_or(e2, 0)),
                PBlock::BFail(e) => (r matches Err(pe) && pe.kind == e.kind && pe.offset as int
                    == e.off),
            }),
        decreases old(self).n - old(self).pos, 2int,
    {
        match self.parse_body() {
            Err(e) => Err(e),
            Ok((cs, eo)) => {
                let endv = eo.unwrap_or(0);
                Ok((cs, endv))
            },
        }
    }

    /// Body of a `loop` block.
    fn parse_loop(&mut self) -> (r: Result<(Vec<SpannedCommand>, usize), ParseError>)
        requires
            old(self).wf(),
        ensures
            final(self).wf(),
            final(self).input == old(self).input,
            final(self).n == old(self).n,
            (match sp_block(old(self).input@, old(self).pos as int) {
                PBlock::BDone(cs, e2, p3) => (r matches Ok(x) && view_cmds(x.0@) == cs && final(self).pos as int == p3 && x.1 as int == end_or(e2, 0)),
                PBlock::BFail(e) => (r matches Err(pe) && pe.kind == e.kind && pe.offset as int
                    == e.off),
            }),
        decreases old(self).n - old(self).pos, 2int,
    {
        match self.parse_body() {
            Err(e) => Err(e),
            Ok((cs, eo)) => {
                let endv = eo.unwrap_or(0);
                Ok((cs, endv))
            },
        }
    }

    /// `fun`: the next token names the function; its body runs to `end`.
    fn parse_function_definition(&mut self, err_off: usize) -> (r: Result<
        (String, Vec<SpannedCommand>, usize),
        ParseError,
    >)
        requires
            old(self).wf(),
        ensures
            final(self).wf(),
            final(self).input == old(self).input,
            final(self).n == old(self).n,
            (match sp_fun(old(self).input@, old(self).pos as int, err_off as int) {
                PFun::FDone(nm, cs, e2, p3) => (r matches Ok(x) && x.0@ == nm && view_cmds(x.1@)
                    == cs && final(self).pos as int == p3 && x.2 as int == e2),
                PFun::FFail(e) => (r matches Err(pe) && pe.kind == e.kind && pe.offset as int
                    == e.off),
            }),
        decreases old(self).n - old(self).pos, 2int,
    {
        let ghost s = self.input@;
        let ghost p0 = self.pos as int;
        let tok = self.next();
        proof {
            lemma_next_pos(s, p0);
        }
        match tok {
            Err(e) => Err(e),
            Ok(None) => Err(
                ParseError { kind: ParseErrorKind::ExpectedFunctionName, offset: err_off },
            ),
            Ok(Some(cmd)) => {
                let ce = cmd.end;
                match cmd.command {
                    Command::FunctionCall(name) => {
                        match self.parse_body() {
                            Err(e) => Err(e),
                            Ok((cs, eo)) => {
                                let endv = eo.unwrap_or(ce);
                                Ok((name, cs, endv))
                            },
                        }
                    },
                    _ => Err(
                        ParseError {
                            kind: ParseErrorKind::ExpectedFunctionName,
                            offset: err_off,
                        },
                    ),
                }
            },
        }
    }

    /// `getfun`: the next token names the function looked up.
    fn parse_get_function(&mut self, err_off: usize) -> (r: Result<(String, usize), ParseError>)
        requires
            old(self).wf(),
        ensures
            final(self).wf(),
            final(self).input == old(self).input,
            final(self).n == old(self).n,
            (match sp_getfun(old(self).input@, old(self).pos as int, err_off as int) {
                PGet::GDone(nm, e2, p3) => (r matches Ok(x) && x.0@ == nm && final(self).pos
                    as int == p3 && x.1 as int == e2),
                PGet::GFail(e) => (r matches Err(pe) && pe.kind == e.kind && pe.offset as int
                    == e.off),
            }),
        decreases old(self).n - old(self).pos, 2int,
    {
        let ghost s = self.input@;
        let ghost p0 = self.pos as int;
        let tok = self.next();
        proof {
            lemma_next_pos(s, p0);
        }
        match tok {
            Err(e) => Err(e),
            Ok(None) => Err(
                ParseError { kind: ParseErrorKind::ExpectedFunctionName, offset: err_off },
            ),
            Ok(Some(cmd)) => {
                let ce = cmd.end;
                match cmd.command {
                    Command::FunctionCall(name) => Ok((name, ce)),
                    _ => Err(
                        ParseError {
                            kind: ParseErrorKind::ExpectedFunctionName,
                            offset: err_off,
                        },
                    ),
                }
            },
        }
    }
}

pub fn left_cmd(c: char, o: Option<usize>) -> (r: Command)
    requires
        c == '+' || c == '-' || c == '*' || c == '/' || c == '%',
    ensures
        view_cmd(r) == left_op_cmd(c, o),
{
    if c == '+' {
        Command::LeftAdd(o)
    } else if c == '-' {
        Command::LeftSubtract(o)
    } else if c == '*' {
        Command::LeftMultiply(o)
    } else if c == '/' {
        Command::LeftDivide(o)
    } else {
        Command::LeftModulo(o)
    }
}

pub fn right_cmd(c: char, o: Option<usize>) -> (r: Command)
    requires
        c == '+' || c == '-' || c == '*' || c == '/' || c == '%',
    ensures
        view_cmd(r) == right_op_cmd(c, o),
{
    if c == '+' {
        Command::RightAdd(o)
    } else if c == '-' {
        Command::RightSubtract(o)
    } else if c == '*' {
        Command::RightMultiply(o)
    } else if c == '/' {
        Command::RightDivide(o)
    } else {
        Command::RightModulo(o)
    }
}

/// Turn a whole source text into its command sequence, or report the first
/// failure with its byte offset.
pub fn parse(input: &str) -> (r: Result<Vec<SpannedCommand>, ParseError>)
    ensures
        (match sp_parse(input@) {
            PParse::POk(cs) => (r matches Ok(v) && view_cmds(v@) == cs),
            PParse::PFail(e) => (r matches Err(pe) && pe.kind == e.kind && pe.offset as int
                == e.off),
        }),
{
    let ghost s = input@;
    let mut lexer = Lexer::new(input);
    let mut commands: Vec<SpannedCommand> = Vec::new();
    proof {
        assert(view_cmds(commands@) =~= Seq::<SpannedV>::empty());
    }
    loop
        invariant
            lexer.wf(),
            lexer.src() == s,
            s == input@,
            0 <= lexer.cpos() <= s.len(),
            (sp_toplevel(s, 0) == match sp_toplevel(s, lexer.cpos()) {
                PParse::PFail(e) => PParse::PFail(e),
                PParse::POk(cs) => PParse::POk(view_cmds(commands@) + cs),
            }),
        decreases s.len() - lexer.cpos(),
    {
        let ghost pc = lexer.cpos();
        let tok = lexer.next();
        proof {
            lemma_next_pos(s, pc);
        }
        match tok {
            Err(e) => {
                return Err(e);
            },
            Ok(None) => {
                proof {
                    assert(view_cmds(commands@) + Seq::<SpannedV>::empty() =~= view_cmds(
                        commands@,
                    ));
                }
                return Ok(commands);
            },
            Ok(Some(cmd)) => {
                let ghost c = view_spanned(cmd);
                let ghost prev = commands@;
                commands.push(cmd);
                proof {
                    assert(commands@.drop_last() =~= prev);
                    assert(view_cmds(commands@) == view_cmds(prev).push(c));
                    match sp_toplevel(s, lexer.cpos()) {
                        PParse::PFail(e) => {},
                        PParse::POk(cs) => {
                            assert(view_cmds(prev) + (seq![c] + cs) =~= view_cmds(prev).push(c)
                                + cs);
                        },
                    }
                }
            },
        }
    }
}

} // verus!
