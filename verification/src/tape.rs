use vstd::prelude::*;

use crate::RuntimeError;
use vstd::pervasive::VecAdditionalExecFns;

verus! {

/// Which side of the cursor a movement or arithmetic target lies on.
#[derive(Debug, PartialEq, Eq, Structural, Copy, Clone)]
pub enum Direction {
    Left,
    Right,
}

/// Truncating division, as machine division behaves on signed integers.
pub open spec fn tdiv(x: int, d: int) -> int {
    if x == 0 {
        0
    } else if x > 0 && d > 0 {
        x / d
    } else if x < 0 && d < 0 {
        (x * -1) / (d * -1)
    } else if x < 0 {
        ((x * -1) / d) * -1
    } else {
        (x / (d * -1)) * -1
    }
}

/// Truncating remainder, the companion of `tdiv`.
pub open spec fn trem(x: int, d: int) -> int {
    if x == 0 {
        0
    } else if x > 0 && d > 0 {
        x % d
    } else if x < 0 && d < 0 {
        ((x * -1) % (d * -1)) * -1
    } else if x < 0 {
        ((x * -1) % d) * -1
    } else {
        x % (d * -1)
    }
}

/// A signed value read as an unsigned 64-bit move distance, as an `as` cast
/// to `u64` reads it.
pub open spec fn wrap_u64(x: int) -> int {
    if x >= 0 {
        x
    } else {
        x + 0x1_0000_0000_0000_0000
    }
}

/// A numeric tape cell: zero tests, checked arithmetic, construction from a
/// 64-bit literal and conversion to an unsigned move distance.
pub trait Number: Sized + Copy {
    /// The mathematical value of the cell.
    spec fn v(&self) -> int;

    /// The smallest value the cell type holds.
    spec fn min_v() -> int;

    /// The largest value the cell type holds.
    spec fn max_v() -> int;

    proof fn lemma_zero_in_range()
        ensures
            Self::min_v() < 0 < Self::max_v(),
            Self::min_v() >= i64::MIN as int,
    ;

    fn is_zero(&self) -> (r: bool)
        ensures
            r == (self.v() == 0),
    ;

    fn is_nonzero(&self) -> (r: bool)
        ensures
            r == (self.v() != 0),
    ;

    fn from(i: i64) -> (r: Self)
        ensures
            Self::min_v() <= i as int <= Self::max_v() ==> r.v() == i as int,
    ;

    fn to_u64(&self) -> (r: u64)
        ensures
            r as int == wrap_u64(self.v()),
    ;

    fn checked_add(self, other: Self) -> (r: Option<Self>)
        ensures
            (match r {
                Some(x) => Self::min_v() <= self.v() + other.v() <= Self::max_v() && x.v()
                    == self.v() + other.v(),
                None => !(Self::min_v() <= self.v() + other.v() <= Self::max_v()),
            }),
    ;

    fn checked_sub(self, other: Self) -> (r: Option<Self>)
        ensures
            (match r {
                Some(x) => Self::min_v() <= self.v() - other.v() <= Self::max_v() && x.v()
                    == self.v() - other.v(),
                None => !(Self::min_v() <= self.v() - other.v() <= Self::max_v()),
            }),
    ;

    fn checked_mul(self, other: Self) -> (r: Option<Self>)
        ensures
            (match r {
                Some(x) => Self::min_v() <= self.v() * other.v() <= Self::max_v() && x.v()
                    == self.v() * other.v(),
                None => !(Self::min_v() <= self.v() * other.v() <= Self::max_v()),
            }),
    ;

    fn checked_div(self, other: Self) -> (r: Option<Self>)
        ensures
            (match r {
                Some(x) => other.v() != 0 && Self::min_v() <= tdiv(self.v(), other.v())
                    <= Self::max_v() && x.v() == tdiv(self.v(), other.v()),
                None => other.v() == 0 || !(Self::min_v() <= tdiv(self.v(), other.v())
                    <= Self::max_v()),
            }),
    ;

    fn checked_rem(self, other: Self) -> (r: Option<Self>)
        ensures
            (match r {
                Some(x) => other.v() != 0 && !(self.v() == Self::min_v() && other.v() == -1)
                    && x.v() == trem(self.v(), other.v()),
                None => other.v() == 0 || (self.v() == Self::min_v() && other.v() == -1),
            }),
    ;
}

/// Wrapping conversion of a signed 64-bit value to unsigned.
fn i64_wrap_u64(x: i64) -> (r: u64)
    ensures
        r as int == wrap_u64(x as int),
{
    if x >= 0 {
        x as u64
    } else {
        let y = -(x + 1);
        u64::MAX - (y as u64)
    }
}

impl Number for i64 {
    open spec fn v(&self) -> int {
        *self as int
    }

    open spec fn min_v() -> int {
        i64::MIN as int
    }

    open spec fn max_v() -> int {
        i64::MAX as int
    }

    proof fn lemma_zero_in_range() {
    }

    fn is_zero(&self) -> (r: bool) {
        *self == 0
    }

    fn is_nonzero(&self) -> (r: bool) {
        *self != 0
    }

    fn from(i: i64) -> (r: Self) {
        i
    }

    fn to_u64(&self) -> (r: u64) {
        i64_wrap_u64(*self)
    }

    fn checked_add(self, other: Self) -> (r: Option<Self>) {
        i64::checked_add(self, other)
    }

    fn checked_sub(self, other: Self) -> (r: Option<Self>) {
        i64::checked_sub(self, other)
    }

    fn checked_mul(self, other: Self) -> (r: Option<Self>) {
        i64::checked_mul(self, other)
    }

    fn checked_div(self, other: Self) -> (r: Option<Self>) {
        i64::checked_div(self, other)
    }

    fn checked_rem(self, other: Self) -> (r: Option<Self>) {
        i64::checked_rem(self, other)
    }
}

impl Number for i32 {
    open spec fn v(&self) -> int {
        *self as int
    }

    open spec fn min_v() -> int {
        i32::MIN as int
    }

    open spec fn max_v() -> int {
        i32::MAX as int
    }

    proof fn lemma_zero_in_range() {
    }

    fn is_zero(&self) -> (r: bool) {
        *self == 0
    }

    fn is_nonzero(&self) -> (r: bool) {
        *self != 0
    }

    fn from(i: i64) -> (r: Self) {
        if i >= i32::MIN as i64 && i <= i32::MAX as i64 {
            i as i32
        } else {
            #[verifier::truncate]
            (i as i32)
        }
    }

    fn to_u64(&self) -> (r: u64) {
        i64_wrap_u64(*self as i64)
    }

    fn checked_add(self, other: Self) -> (r: Option<Self>) {
        i32::checked_add(self, other)
    }

    fn checked_sub(self, other: Self) -> (r: Option<Self>) {
        i32::checked_sub(self, other)
    }

    fn checked_mul(self, other: Self) -> (r: Option<Self>) {
        i32::checked_mul(self, other)
    }

    fn checked_div(self, other: Self) -> (r: Option<Self>) {
        i32::checked_div(self, other)
    }

    fn checked_rem(self, other: Self) -> (r: Option<Self>) {
        i32::checked_rem(self, other)
    }
}

impl Number for i16 {
    open spec fn v(&self) -> int {
        *self as int
    }

    open spec fn min_v() -> int {
        i16::MIN as int
    }

    open spec fn max_v() -> int {
        i16::MAX as int
    }

    proof fn lemma_zero_in_range() {
    }

    fn is_zero(&self) -> (r: bool) {
        *self == 0
    }

    fn is_nonzero(&self) -> (r: bool) {
        *self != 0
    }

    fn from(i: i64) -> (r: Self) {
        if i >= i16::MIN as i64 && i <= i16::MAX as i64 {
            i as i16
        } else {
            #[verifier::truncate]
            (i as i16)
        }
    }

    fn to_u64(&self) -> (r: u64) {
        i64_wrap_u64(*self as i64)
    }

    fn checked_add(self, other: Self) -> (r: Option<Self>) {
        i16::checked_add(self, other)
    }

    fn checked_sub(self, other: Self) -> (r: Option<Self>) {
        i16::checked_sub(self, other)
    }

    fn checked_mul(self, other: Self) -> (r: Option<Self>) {
        i16::checked_mul(self, other)
    }

    fn checked_div(self, other: Self) -> (r: Option<Self>) {
        i16::checked_div(self, other)
    }

    fn checked_rem(self, other: Self) -> (r: Option<Self>) {
        i16::checked_rem(self, other)
    }
}

impl Number for i8 {
    open spec fn v(&self) -> int {
        *self as int
    }

    open spec fn min_v() -> int {
        i8::MIN as int
    }

    open spec fn max_v() -> int {
        i8::MAX as int
    }

    proof fn lemma_zero_in_range() {
    }

    fn is_zero(&self) -> (r: bool) {
        *self == 0
    }

    fn is_nonzero(&self) -> (r: bool) {
        *self != 0
    }

    fn from(i: i64) -> (r: Self) {
        if i >= i8::MIN as i64 && i <= i8::MAX as i64 {
            i as i8
        } else {
            #[verifier::truncate]
            (i as i8)
        }
    }

    fn to_u64(&self) -> (r: u64) {
        i64_wrap_u64(*self as i64)
    }

    fn checked_add(self, other: Self) -> (r: Option<Self>) {
        i8::checked_add(self, other)
    }

    fn checked_sub(self, other: Self) -> (r: Option<Self>) {
        i8::checked_sub(self, other)
    }

    fn checked_mul(self, other: Self) -> (r: Option<Self>) {
        i8::checked_mul(self, other)
    }

    fn checked_div(self, other: Self) -> (r: Option<Self>) {
        i8::checked_div(self, other)
    }

    fn checked_rem(self, other: Self) -> (r: Option<Self>) {
        i8::checked_rem(self, other)
    }
}

/// The values of a sequence of cells.
pub open spec fn cells_of<T: Number>(s: Seq<T>) -> Seq<int> {
    Seq::new(s.len(), |i: int| s[i].v())
}

/// The cells extended with zeroes so that position `m - 1` exists.
pub open spec fn grow_to(c: Seq<int>, m: int) -> Seq<int> {
    if m <= c.len() {
        c
    } else {
        c + Seq::new((m - c.len()) as nat, |k: int| 0)
    }
}

/// The five in-place arithmetic operations of the language.
#[derive(Debug, PartialEq, Eq, Structural, Copy, Clone)]
pub enum ArithOp {
    Add,
    Sub,
    Mul,
    Div,
    Mod,
}

pub open spec fn off_v(o: Option<usize>) -> int {
    match o {
        Some(x) => x as int,
        None => 1,
    }
}

pub open spec fn op_val(op: ArithOp, a: int, b: int) -> int {
    match op {
        ArithOp::Add => a + b,
        ArithOp::Sub => a - b,
        ArithOp::Mul => a * b,
        ArithOp::Div => tdiv(a, b),
        ArithOp::Mod => trem(a, b),
    }
}

/// Whether `a <op> b` is defined and stays within `[lo, hi]`.
pub open spec fn op_ok(op: ArithOp, a: int, b: int, lo: int, hi: int) -> bool {
    match op {
        ArithOp::Add => lo <= a + b <= hi,
        ArithOp::Sub => lo <= a - b <= hi,
        ArithOp::Mul => lo <= a * b <= hi,
        ArithOp::Div => b != 0 && lo <= tdiv(a, b) <= hi,
        ArithOp::Mod => b != 0 && !(a == lo && b == -1),
    }
}

pub open spec fn op_err(op: ArithOp, b: int) -> RuntimeError {
    match op {
        ArithOp::Div => if b == 0 {
            RuntimeError::DivisionByZero
        } else {
            RuntimeError::Overflow
        },
        ArithOp::Mod => if b == 0 {
            RuntimeError::DivisionByZero
        } else {
            RuntimeError::Overflow
        },
        _ => RuntimeError::Overflow,
    }
}

/// What a directional in-place operation does to the cells: the target cell,
/// one offset away from `index`, takes `target <op> current`. A right-hand
/// target grows the tape first; that growth stays even if the operation then
/// fails.
pub struct TapeOpOut {
    pub cells: Seq<int>,
    pub err: Option<RuntimeError>,
}

#[verifier::opaque]
pub open spec fn tape_op_result(
    cells: Seq<int>,
    index: int,
    direction: Direction,
    off: int,
    op: ArithOp,
    lo: int,
    hi: int,
) -> TapeOpOut {
    match direction {
        Direction::Left => {
            if off > index {
                TapeOpOut { cells: cells, err: Some(RuntimeError::OutOfBounds) }
            } else {
                let t = index - off;
                let a = cells[t];
                let b = cells[index];
                if op_ok(op, a, b, lo, hi) {
                    TapeOpOut { cells: cells.update(t, op_val(op, a, b)), err: None }
                } else {
                    TapeOpOut { cells: cells, err: Some(op_err(op, b)) }
                }
            }
        },
        Direction::Right => {
            if index + off > usize::MAX as int {
                TapeOpOut { cells: cells, err: Some(RuntimeError::Overflow) }
            } else {
                let t = index + off;
                let g = grow_to(cells, t + 1);
                let a = g[t];
                let b = cells[index];
                if op_ok(op, a, b, lo, hi) {
                    TapeOpOut { cells: g.update(t, op_val(op, a, b)), err: None }
                } else {
                    TapeOpOut { cells: g, err: Some(op_err(op, b)) }
                }
            }
        },
    }
}

/// Shared body of the five directional operations on a vector tape.
fn tape_arith<T: Number>(
    tape: &mut Vec<T>,
    index: usize,
    direction: Direction,
    offset: Option<usize>,
    op: ArithOp,
) -> (r: Result<(), RuntimeError>)
    requires
        index < old(tape)@.len(),
    ensures
        ({
            let o = tape_op_result(
                cells_of(old(tape)@),
                index as int,
                direction,
                off_v(offset),
                op,
                T::min_v(),
                T::max_v(),
            );
            &&& cells_of(final(tape)@) == o.cells
            &&& (match (r, o.err) {
                (Ok(u), None) => true,
                (Err(e1), Some(e2)) => e1 == e2,
                _ => false,
            })
        }),
{
    proof {
        reveal(tape_op_result);
    }
    let ghost oldc = cells_of(tape@);
    let off: usize = match offset {
        Some(x) => x,
        None => 1,
    };
    let t: usize = match direction {
        Direction::Left => {
            if off > index {
                return Err(RuntimeError::OutOfBounds);
            }
            index - off
        },
        Direction::Right => {
            match index.checked_add(off) {
                Some(t) => {
                    grow_tape_to(tape, t);
                    t
                },
                None => {
                    return Err(RuntimeError::Overflow);
                },
            }
        },
    };
    let a: T = tape[t];
    let b: T = tape[index];
    proof {
        assert(a.v() == cells_of(tape@)[t as int]);
        assert(b.v() == cells_of(tape@)[index as int]);
    }
    let res: Option<T> = match op {
        ArithOp::Add => a.checked_add(b),
        ArithOp::Sub => a.checked_sub(b),
        ArithOp::Mul => a.checked_mul(b),
        ArithOp::Div => a.checked_div(b),
        ArithOp::Mod => a.checked_rem(b),
    };
    match res {
        Some(x) => {
            let ghost before = cells_of(tape@);
            VecAdditionalExecFns::set(tape, t, x);
            proof {
                assert(cells_of(tape@) =~= before.update(t as int, x.v()));
            }
            Ok(())
        },
        None => {
            match op {
                ArithOp::Div | ArithOp::Mod => {
                    if b.is_zero() {
                        Err(RuntimeError::DivisionByZero)
                    } else {
                        Err(RuntimeError::Overflow)
                    }
                },
                _ => Err(RuntimeError::Overflow),
            }
        },
    }
}

/// Append zero cells until position `t` exists.
pub(crate) fn grow_tape_to<T: Number>(tape: &mut Vec<T>, t: usize)
    ensures
        cells_of(final(tape)@) == grow_to(cells_of(old(tape)@), t as int + 1),
        final(tape)@.len() >= old(tape)@.len(),
        t < final(tape)@.len(),
        cells_of(final(tape)@).len() == final(tape)@.len(),
{
    let ghost oldc = cells_of(tape@);
    while t >= tape.len()
        invariant
            cells_of(tape@) == grow_to(oldc, tape@.len() as int),
            tape@.len() >= oldc.len(),
            tape@.len() <= t + 1 || tape@.len() == oldc.len(),
            oldc == cells_of(old(tape)@),
        decreases t + 1 - tape@.len(),
    {
        let z = T::from(0);
        proof {
            T::lemma_zero_in_range();
        }
        let ghost before = tape@;
        tape.push(z);
        proof {
            assert(cells_of(tape@) =~= cells_of(before).push(0));
            assert(grow_to(oldc, before.len() as int + 1) =~= grow_to(
                oldc,
                before.len() as int,
            ).push(0));
        }
    }
    proof {
        if t as int + 1 <= oldc.len() {
            assert(grow_to(oldc, t as int + 1) =~= oldc);
            assert(grow_to(oldc, tape@.len() as int) =~= oldc);
        } else {
            assert(tape@.len() == t + 1);
        }
    }
}

/// The growable store of numeric cells the interpreter acts on.
pub trait Tape<T: Number> {
    /// The values of the cells, leftmost first.
    spec fn cells(&self) -> Seq<int>;

    fn get(&self, index: usize) -> (r: T)
        requires
            index < self.cells().len(),
        ensures
            r.v() == self.cells()[index as int],
    ;

    fn set(&mut self, index: usize, value: T)
        requires
            index < old(self).cells().len(),
        ensures
            final(self).cells() == old(self).cells().update(index as int, value.v()),
    ;

    fn add(&mut self, index: usize, direction: Direction, offset: Option<usize>) -> (r: Result<
        (),
        RuntimeError,
    >)
        requires
            index < old(self).cells().len(),
        ensures
            ({
                let o = tape_op_result(
                    old(self).cells(),
                    index as int,
                    direction,
                    off_v(offset),
                    ArithOp::Add,
                    T::min_v(),
                    T::max_v(),
                );
                &&& final(self).cells() == o.cells
                &&& (match (r, o.err) {
                    (Ok(u), None) => true,
                    (Err(e1), Some(e2)) => e1 == e2,
                    _ => false,
                })
            }),
    ;

    fn sub(&mut self, index: usize, direction: Direction, offset: Option<usize>) -> (r: Result<
        (),
        RuntimeError,
    >)
        requires
            index < old(self).cells().len(),
        ensures
            ({
                let o = tape_op_result(
                    old(self).cells(),
                    index as int,
                    direction,
                    off_v(offset),
                    ArithOp::Sub,
                    T::min_v(),
                    T::max_v(),
                );
                &&& final(self).cells() == o.cells
                &&& (match (r, o.err) {
                    (Ok(u), None) => true,
                    (Err(e1), Some(e2)) => e1 == e2,
                    _ => false,
                })
            }),
    ;

    fn mul(&mut self, index: usize, direction: Direction, offset: Option<usize>) -> (r: Result<
        (),
        RuntimeError,
    >)
        requires
            index < old(self).cells().len(),
        ensures
            ({
                let o = tape_op_result(
                    old(self).cells(),
                    index as int,
                    direction,
                    off_v(offset),
                    ArithOp::Mul,
                    T::min_v(),
                    T::max_v(),
                );
                &&& final(self).cells() == o.cells
                &&& (match (r, o.err) {
                    (Ok(u), None) => true,
                    (Err(e1), Some(e2)) => e1 == e2,
                    _ => false,
                })
            }),
    ;

    fn div(&mut self, index: usize, direction: Direction, offset: Option<usize>) -> (r: Result<
        (),
        RuntimeError,
    >)
        requires
            index < old(self).cells().len(),
        ensures
            ({
                let o = tape_op_result(
                    old(self).cells(),
                    index as int,
                    direction,
                    off_v(offset),
                    ArithOp::Div,
                    T::min_v(),
                    T::max_v(),
                );
                &&& final(self).cells() == o.cells
                &&& (match (r, o.err) {
                    (Ok(u), None) => true,
                    (Err(e1), Some(e2)) => e1 == e2,
                    _ => false,
                })
            }),
    ;

    fn modulo(&mut self, index: usize, direction: Direction, offset: Option<usize>) -> (r: Result<
        (),
        RuntimeError,
    >)
        requires
            index < old(self).cells().len(),
        ensures
            ({
                let o = tape_op_result(
                    old(self).cells(),
                    index as int,
                    direction,
                    off_v(offset),
                    ArithOp::Mod,
                    T::min_v(),
                    T::max_v(),
                );
                &&& final(self).cells() == o.cells
                &&& (match (r, o.err) {
                    (Ok(u), None) => true,
                    (Err(e1), Some(e2)) => e1 == e2,
                    _ => false,
                })
            }),
    ;

    fn grow(&mut self)
        ensures
            final(self).cells() == old(self).cells().push(0),
    ;

    fn in_bounds(&self, index: usize) -> (r: bool)
        ensures
            r == (index < self.cells().len()),
    ;
}

impl<T: Number> Tape<T> for Vec<T> {
    open spec fn cells(&self) -> Seq<int> {
        cells_of(self@)
    }

    fn get(&self, index: usize) -> (r: T) {
        self[index]
    }

    fn set(&mut self, index: usize, value: T) {
        VecAdditionalExecFns::set(self, index, value);
        proof {
            assert(cells_of(self@) =~= cells_of(old(self)@).update(index as int, value.v()));
        }
    }

    fn add(&mut self, index: usize, direction: Direction, offset: Option<usize>) -> (r: Result<
        (),
        RuntimeError,
    >) {
        tape_arith(self, index, direction, offset, ArithOp::Add)
    }

    fn sub(&mut self, index: usize, direction: Direction, offset: Option<usize>) -> (r: Result<
        (),
        RuntimeError,
    >) {
        tape_arith(self, index, direction, offset, ArithOp::Sub)
    }

    fn mul(&mut self, index: usize, direction: Direction, offset: Option<usize>) -> (r: Result<
        (),
        RuntimeError,
    >) {
        tape_arith(self, index, direction, offset, ArithOp::Mul)
    }

    fn div(&mut self, index: usize, direction: Direction, offset: Option<usize>) -> (r: Result<
        (),
        RuntimeError,
    >) {
        tape_arith(self, index, direction, offset, ArithOp::Div)
    }

    fn modulo(&mut self, index: usize, direction: Direction, offset: Option<usize>) -> (r: Result<
        (),
        RuntimeError,
    >) {
        tape_arith(self, index, direction, offset, ArithOp::Mod)
    }

    fn grow(&mut self) {
        let z = T::from(0);
        proof {
            T::lemma_zero_in_range();
        }
        self.push(z);
        proof {
            assert(cells_of(self@) =~= cells_of(old(self)@).push(0));
        }
    }

    fn in_bounds(&self, index: usize) -> (r: bool) {
        index < self.len()
    }
}

} // verus!
