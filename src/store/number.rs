use vstd::prelude::*;

verus! {

/// Function ids of the commands and queries a [`Number`] answers to.
pub const SET: u64 = 0;
pub const GET: u64 = 1;
pub const GET_AND_ADD: u64 = 2;
pub const ADD_AND_GET: u64 = 3;
pub const GET_AND_MINUS: u64 = 4;
pub const MINUS_AND_GET: u64 = 5;
pub const GET_AND_INCR: u64 = 6;
pub const INCR_AND_GET: u64 = 7;
pub const GET_AND_DECR: u64 = 8;
pub const DECR_AND_GET: u64 = 9;
pub const GET_AND_MULTIPLY: u64 = 10;
pub const MULTIPLY_AND_GET: u64 = 11;
pub const GET_AND_DIVIDE: u64 = 12;
pub const DIVIDE_AND_GET: u64 = 13;
pub const COMPARE_AND_SWAP: u64 = 14;
pub const SWAP: u64 = 15;

/// Event id of the `on_changed(old, new)` notification.
pub const ON_CHANGED: u64 = 16;

/// An operation-level fault; the stored value is left as it was.
#[derive(Clone, Copy, Debug, PartialEq, Eq, Structural)]
pub enum NumberError {
    /// The exact result does not fit the stored type.
    Overflow,
    /// Division by zero.
    DivideByZero,
    /// A payload or snapshot that does not decode.
    Malformed,
    /// A function id that this state machine does not know.
    UnknownFunction,
}

pub open spec fn in_i8(x: int) -> bool {
    i8::MIN <= x <= i8::MAX
}

/// Division rounding toward zero, as the machine does it.
pub open spec fn trunc_div(a: int, b: int) -> int {
    let q = abs(a) / abs(b);
    if (a < 0) != (b < 0) { -q } else { q }
}

pub open spec fn abs(a: int) -> int {
    if a < 0 { -a } else { a }
}

/// The exact result of an arithmetic operation, or the fault it raises.
pub open spec fn arith(op: u64, a: int, b: int) -> Result<int, NumberError> {
    let v = if op == 0 { a + b } else if op == 1 { a - b } else if op == 2 { a * b } else {
        trunc_div(a, b)
    };
    if op == 3 && b == 0 {
        Err(NumberError::DivideByZero)
    } else if !in_i8(v) {
        Err(NumberError::Overflow)
    } else {
        Ok(v)
    }
}

/// The snapshot of a register holding `v`.
pub open spec fn snapshot_bytes(v: i8) -> Seq<u8> {
    seq![v as u8]
}

/// The value a snapshot restores, if it is well formed.
pub open spec fn recovered(s: Seq<u8>) -> Option<i8> {
    if s.len() == 1 { Some(s[0] as i8) } else { None }
}

/// Restoring a snapshot gives back exactly the value it was taken of.
pub proof fn snapshot_round_trip(v: i8)
    ensures
        recovered(snapshot_bytes(v)) == Some(v),
{
    assert(((v as u8) as i8) == v) by (bit_vector);
}

/// The `k`-th one-byte argument of a command payload.
pub open spec fn arg(p: Seq<u8>, k: int) -> Option<i8> {
    if 0 <= k < p.len() { Some(p[k] as i8) } else { None }
}

/// The arithmetic operation behind an arithmetic function id: 0 adds,
/// 1 subtracts, 2 multiplies, 3 divides.
pub open spec fn op_of(fid: u64) -> u64 {
    if fid == GET_AND_ADD || fid == ADD_AND_GET || fid == GET_AND_INCR || fid == INCR_AND_GET {
        0
    } else if fid == GET_AND_MINUS || fid == MINUS_AND_GET || fid == GET_AND_DECR || fid
        == DECR_AND_GET {
        1
    } else if fid == GET_AND_MULTIPLY || fid == MULTIPLY_AND_GET {
        2
    } else {
        3
    }
}

/// The op-then-get functions, which return the new value.
pub open spec fn returns_new(fid: u64) -> bool {
    fid == ADD_AND_GET || fid == MINUS_AND_GET || fid == INCR_AND_GET || fid == DECR_AND_GET
        || fid == MULTIPLY_AND_GET || fid == DIVIDE_AND_GET
}

/// What a command does to a register holding `v`: the value it installs
/// (if any) and the value it returns (if any), or the fault it raises.
pub open spec fn command(v: i8, fid: u64, p: Seq<u8>) -> Result<(Option<int>, Option<i8>), NumberError> {
    if fid == SET {
        match arg(p, 0) {
            Some(n) => Ok((Some(n as int), None)),
            None => Err(NumberError::Malformed),
        }
    } else if GET_AND_ADD <= fid <= DIVIDE_AND_GET {
        let n: Option<i8> = if GET_AND_INCR <= fid <= DECR_AND_GET { Some(1i8) } else { arg(p, 0) };
        match n {
            None => Err(NumberError::Malformed),
            Some(n) => match arith(op_of(fid), v as int, n as int) {
                Ok(nv) => Ok((Some(nv), Some(if returns_new(fid) { nv as i8 } else { v }))),
                Err(e) => Err(e),
            },
        }
    } else if fid == COMPARE_AND_SWAP {
        match (arg(p, 0), arg(p, 1)) {
            (Some(o), Some(n)) => Ok((if v == o { Some(n as int) } else { None }, Some(v))),
            _ => Err(NumberError::Malformed),
        }
    } else if fid == SWAP {
        match arg(p, 0) {
            Some(n) => Ok((Some(n as int), Some(v))),
            None => Err(NumberError::Malformed),
        }
    } else {
        Err(NumberError::UnknownFunction)
    }
}

/// The bytes a command replies with.
pub open spec fn reply_bytes(ret: Option<i8>) -> Seq<u8> {
    match ret {
        Some(x) => seq![x as u8],
        None => Seq::empty(),
    }
}

/// Relies on bincode::serialize: an `i8` is written as its one byte.
#[verifier::external_body]
fn encode_i8(n: i8) -> (r: Vec<u8>)
    ensures
        r@ == seq![n as u8],
{
    bincode::serialize(&n).unwrap()
}

/// Relies on bincode::deserialize: an `i8` is read from the first byte,
/// trailing bytes are allowed, and an empty input is an error.
#[verifier::external_body]
fn decode_i8_at(data: &Vec<u8>, at: usize) -> (r: Option<i8>)
    requires
        at <= data.len(),
    ensures
        r == arg(data@, at as int),
{
    bincode::deserialize::<i8>(&data[at..]).ok()
}

/// A replicated single-value register over `i8`.
pub struct Number {
    pub num: i8,
    pub id: u64,
    /// `on_changed(old, new)` notifications not yet handed to the bus.
    pub changes: Vec<(i8, i8)>,
}

/// `after` is `before` with its value replaced by `v` and the change published.
pub open spec fn set_to(before: Number, after: Number, v: int) -> bool {
    &&& after.num == v
    &&& after.id == before.id
    &&& after.changes@ == before.changes@.push((before.num, v as i8))
}

pub open spec fn same(before: Number, after: Number) -> bool {
    &&& after.num == before.num
    &&& after.id == before.id
    &&& after.changes@ == before.changes@
}

/// What a get-then-op or op-then-get call does: with `ret_new`, the new value
/// is returned, otherwise the old one.
pub open spec fn op_outcome(
    before: Number,
    after: Number,
    r: Result<i8, NumberError>,
    op: u64,
    n: int,
    ret_new: bool,
) -> bool {
    match arith(op, before.num as int, n) {
        Ok(v) => set_to(before, after, v) && r == Ok::<i8, NumberError>(
            if ret_new { v as i8 } else { before.num },
        ),
        Err(e) => same(before, after) && r == Err::<i8, NumberError>(e),
    }
}

fn arith_exec(op: u64, a: i8, b: i8) -> (r: Result<i8, NumberError>)
    requires
        op <= 3,
    ensures
        match arith(op, a as int, b as int) {
            Ok(v) => r == Ok::<i8, NumberError>(v as i8),
            Err(e) => r == Err::<i8, NumberError>(e),
        },
{
    let x = a as i32;
    let y = b as i32;
    let v: i32 = if op == 0 {
        x + y
    } else if op == 1 {
        x - y
    } else if op == 2 {
        assert(-16384 <= x * y <= 16384) by (nonlinear_arith)
            requires -128 <= x <= 127, -128 <= y <= 127;
        x * y
    } else {
        if b == 0 {
            return Err(NumberError::DivideByZero);
        }
        let ux: u32 = if x < 0 { (-x) as u32 } else { x as u32 };
        let uy: u32 = if y < 0 { (-y) as u32 } else { y as u32 };
        let q: u32 = ux / uy;
        assert(q <= 128) by (nonlinear_arith)
            requires q == ux / uy, ux <= 128, uy >= 1;
        if (x < 0) != (y < 0) { -(q as i32) } else { q as i32 }
    };
    if v < -128 || v > 127 {
        Err(NumberError::Overflow)
    } else {
        Ok(v as i8)
    }
}

impl Number {
    pub fn new(id: u64, val: i8) -> (r: Number)
        ensures
            r.num == val,
            r.id == id,
            r.changes@ == Seq::<(i8, i8)>::empty(),
    {
        Number { num: val, id, changes: Vec::new() }
    }

    pub fn id(&self) -> (r: u64)
        ensures
            r == self.id,
    {
        self.id
    }

    pub fn get(&self) -> (r: i8)
        ensures
            r == self.num,
    {
        self.num
    }

    /// Installs `n` and publishes `on_changed(old, n)`.
    pub fn set(&mut self, n: i8)
        ensures
            set_to(*old(self), *final(self), n as int),
    {
        let on = self.num;
        self.num = n;
        self.changes.push((on, n));
    }

    fn update(&mut self, op: u64, n: i8, ret_new: bool) -> (r: Result<i8, NumberError>)
        requires
            op <= 3,
        ensures
            op_outcome(*old(self), *final(self), r, op, n as int, ret_new),
    {
        let on = self.num;
        match arith_exec(op, on, n) {
            Ok(v) => {
                self.set(v);
                if ret_new { Ok(v) } else { Ok(on) }
            },
            Err(e) => Err(e),
        }
    }

    pub fn get_and_add(&mut self, n: i8) -> (r: Result<i8, NumberError>)
        ensures
            op_outcome(*old(self), *final(self), r, 0, n as int, false),
    {
        self.update(0, n, false)
    }

    pub fn add_and_get(&mut self, n: i8) -> (r: Result<i8, NumberError>)
        ensures
            op_outcome(*old(self), *final(self), r, 0, n as int, true),
    {
        self.update(0, n, true)
    }

    pub fn get_and_minus(&mut self, n: i8) -> (r: Result<i8, NumberError>)
        ensures
            op_outcome(*old(self), *final(self), r, 1, n as int, false),
    {
        self.update(1, n, false)
    }

    pub fn minus_and_get(&mut self, n: i8) -> (r: Result<i8, NumberError>)
        ensures
            op_outcome(*old(self), *final(self), r, 1, n as int, true),
    {
        self.update(1, n, true)
    }

    pub fn get_and_incr(&mut self) -> (r: Result<i8, NumberError>)
        ensures
            op_outcome(*old(self), *final(self), r, 0, 1, false),
    {
        self.update(0, 1, false)
    }

    pub fn incr_and_get(&mut self) -> (r: Result<i8, NumberError>)
        ensures
            op_outcome(*old(self), *final(self), r, 0, 1, true),
    {
        self.update(0, 1, true)
    }

    pub fn get_and_decr(&mut self) -> (r: Result<i8, NumberError>)
        ensures
            op_outcome(*old(self), *final(self), r, 1, 1, false),
    {
        self.update(1, 1, false)
    }

    pub fn decr_and_get(&mut self) -> (r: Result<i8, NumberError>)
        ensures
            op_outcome(*old(self), *final(self), r, 1, 1, true),
    {
        self.update(1, 1, true)
    }

    pub fn get_and_multiply(&mut self, n: i8) -> (r: Result<i8, NumberError>)
        ensures
            op_outcome(*old(self), *final(self), r, 2, n as int, false),
    {
        self.update(2, n, false)
    }

    pub fn multiply_and_get(&mut self, n: i8) -> (r: Result<i8, NumberError>)
        ensures
            op_outcome(*old(self), *final(self), r, 2, n as int, true),
    {
        self.update(2, n, true)
    }

    pub fn get_and_divide(&mut self, n: i8) -> (r: Result<i8, NumberError>)
        ensures
            op_outcome(*old(self), *final(self), r, 3, n as int, false),
    {
        self.update(3, n, false)
    }

    pub fn divide_and_get(&mut self, n: i8) -> (r: Result<i8, NumberError>)
        ensures
            op_outcome(*old(self), *final(self), r, 3, n as int, true),
    {
        self.update(3, n, true)
    }

    /// Installs `n` only where the current value is `original`; returns the
    /// value before the call either way.
    pub fn compare_and_swap(&mut self, original: i8, n: i8) -> (r: i8)
        ensures
            r == old(self).num,
            old(self).num == original ==> set_to(*old(self), *final(self), n as int),
            old(self).num != original ==> same(*old(self), *final(self)),
    {
        let on = self.num;
        if on == original {
            self.set(n);
        }
        on
    }

    pub fn swap(&mut self, n: i8) -> (r: i8)
        ensures
            r == old(self).num,
            set_to(*old(self), *final(self), n as int),
    {
        let on = self.num;
        self.set(n);
        on
    }

    /// Serializes the current value.
    pub fn snapshot(&self) -> (r: Option<Vec<u8>>)
        ensures
            r is Some,
            r->Some_0@ == snapshot_bytes(self.num),
    {
        Some(encode_i8(self.num))
    }

    /// Replaces the value by the one a snapshot holds; a malformed snapshot
    /// leaves the register untouched.
    pub fn recover(&mut self, data: &Vec<u8>) -> (r: Result<(), NumberError>)
        ensures
            match recovered(data@) {
                Some(v) => r is Ok && final(self).num == v && final(self).id == old(self).id
                    && final(self).changes@ == old(self).changes@,
                None => r == Err::<(), NumberError>(NumberError::Malformed) && same(*old(self), *final(self)),
            },
    {
        if data.len() != 1 {
            return Err(NumberError::Malformed);
        }
        match decode_i8_at(data, 0) {
            Some(v) => {
                self.num = v;
                Ok(())
            },
            None => Err(NumberError::Malformed),
        }
    }

    /// Runs a command addressed to this register.
    pub fn apply(&mut self, function_id: u64, payload: &Vec<u8>) -> (r: Result<Vec<u8>, NumberError>)
        ensures
            match command(old(self).num, function_id, payload@) {
                Ok((set, ret)) => r is Ok && r->Ok_0@ == reply_bytes(ret) && match set {
                    Some(v) => set_to(*old(self), *final(self), v),
                    None => same(*old(self), *final(self)),
                },
                Err(e) => r == Err::<Vec<u8>, NumberError>(e) && same(*old(self), *final(self)),
            },
    {
        let fid = function_id;
        let a = decode_i8_at(payload, 0);
        if fid == SET {
            match a {
                Some(n) => {
                    self.set(n);
                    Ok(Vec::new())
                },
                None => Err(NumberError::Malformed),
            }
        } else if GET_AND_ADD <= fid && fid <= DIVIDE_AND_GET {
            let n = if GET_AND_INCR <= fid && fid <= DECR_AND_GET { Some(1i8) } else { a };
            let op: u64 = if fid == GET_AND_ADD || fid == ADD_AND_GET || fid == GET_AND_INCR
                || fid == INCR_AND_GET {
                0
            } else if fid == GET_AND_MINUS || fid == MINUS_AND_GET || fid == GET_AND_DECR || fid
                == DECR_AND_GET {
                1
            } else if fid == GET_AND_MULTIPLY || fid == MULTIPLY_AND_GET {
                2
            } else {
                3
            };
            let ret_new = fid == ADD_AND_GET || fid == MINUS_AND_GET || fid == INCR_AND_GET || fid
                == DECR_AND_GET || fid == MULTIPLY_AND_GET || fid == DIVIDE_AND_GET;
            match n {
                Some(n) => match self.update(op, n, ret_new) {
                    Ok(x) => Ok(encode_i8(x)),
                    Err(e) => Err(e),
                },
                None => Err(NumberError::Malformed),
            }
        } else if fid == COMPARE_AND_SWAP {
            if payload.len() < 2 {
                return Err(NumberError::Malformed);
            }
            match (a, decode_i8_at(payload, 1)) {
                (Some(o), Some(n)) => Ok(encode_i8(self.compare_and_swap(o, n))),
                _ => Err(NumberError::Malformed),
            }
        } else if fid == SWAP {
            match a {
                Some(n) => Ok(encode_i8(self.swap(n))),
                None => Err(NumberError::Malformed),
            }
        } else {
            Err(NumberError::UnknownFunction)
        }
    }

    /// Answers a query locally; the register is not changed.
    pub fn query(&self, function_id: u64, payload: &Vec<u8>) -> (r: Result<Vec<u8>, NumberError>)
        ensures
            function_id == GET ==> r is Ok && r->Ok_0@ == seq![self.num as u8],
            function_id != GET ==> r == Err::<Vec<u8>, NumberError>(NumberError::UnknownFunction),
    {
        if function_id == GET {
            Ok(encode_i8(self.num))
        } else {
            Err(NumberError::UnknownFunction)
        }
    }

    /// Hands out and clears the pending `on_changed` notifications.
    pub fn take_changes(&mut self) -> (r: Vec<(i8, i8)>)
        ensures
            r@ == old(self).changes@,
            final(self).changes@ == Seq::<(i8, i8)>::empty(),
            final(self).num == old(self).num,
            final(self).id == old(self).id,
    {
        let mut out: Vec<(i8, i8)> = Vec::new();
        std::mem::swap(&mut out, &mut self.changes);
        out
    }
}

} // verus!
