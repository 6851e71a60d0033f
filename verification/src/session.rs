//! What the servers of two small sessions compute: a calculator that squares
//! a number or tells whether it is even, and a store of numbers under keys.
//! Sending and receiving is the caller's part.

use std::collections::HashMap;
use vstd::prelude::*;

verus! {

/// What a client of the calculator asks for.
#[derive(Clone, Copy, Debug, PartialEq, Eq, Structural)]
pub enum Op {
    /// The square of the number.
    Square,
    /// Whether the number is even.
    Even,
}

/// What the calculator answers.
#[derive(Clone, Copy, Debug, PartialEq, Eq, Structural)]
pub enum Answer {
    /// The square.
    Squared(u64),
    /// Whether the number was even.
    Parity(bool),
}

/// The answer of the calculator to `op` on `n`.
pub fn answer(n: u64, op: Op) -> (r: Answer)
    requires
        op == Op::Square ==> n * n <= u64::MAX,
    ensures
        r == match op {
            Op::Square => Answer::Squared((n * n) as u64),
            Op::Even => Answer::Parity(n % 2 == 0),
        },
{
    match op {
        Op::Square => Answer::Squared(n * n),
        Op::Even => {
            assert(n & 1 == n % 2) by (bit_vector);
            Answer::Parity(n & 1 == 0)
        },
    }
}

/// Tells whether the square of `n` fits in a `u64`.
pub fn can_square(n: u64) -> (r: bool)
    ensures
        r == (n * n <= u64::MAX),
{
    assert(n <= 0xffff_ffff ==> n * n <= u64::MAX) by (nonlinear_arith);
    assert(n > 0xffff_ffff ==> n * n > u64::MAX) by (nonlinear_arith);
    n <= 0xffff_ffff
}

/// What a client of the store asks for.
#[derive(Clone, Copy, Debug, PartialEq, Eq, Structural)]
pub enum Request {
    /// Keep this value under this key.
    Put(u64, u64),
    /// The value under this key.
    Get(u64),
    /// End the session.
    Quit,
}

/// What the store answers.
#[derive(Clone, Copy, Debug, PartialEq, Eq, Structural)]
pub enum Reply {
    /// The value is kept; nothing is sent back.
    Stored,
    /// The value under the key, if there is one.
    Found(Option<u64>),
    /// The session is over.
    Closed,
}

/// A store of numbers under keys, for one session.
pub struct Db {
    map: HashMap<u64, u64>,
}

impl View for Db {
    type V = Map<u64, u64>;

    closed spec fn view(&self) -> Map<u64, u64> {
        self.map@
    }
}

impl Db {
    /// An empty store.
    pub fn new() -> (db: Self)
        ensures
            db@ == Map::<u64, u64>::empty(),
    {
        Db { map: HashMap::new() }
    }

    /// Serves one request: keeps a value, looks one up, or ends the session.
    pub fn handle(&mut self, req: Request) -> (r: Reply)
        ensures
            match req {
                Request::Put(key, val) => r == Reply::Stored && final(self)@ == old(self)@.insert(
                    key,
                    val,
                ),
                Request::Get(key) => final(self)@ == old(self)@ && r == Reply::Found(
                    if old(self)@.contains_key(key) {
                        Some(old(self)@[key])
                    } else {
                        None
                    },
                ),
                Request::Quit => r == Reply::Closed && final(self)@ == old(self)@,
            },
    {
        match req {
            Request::Put(key, val) => {
                self.map.insert(key, val);
                Reply::Stored
            },
            Request::Get(key) => {
                match self.map.get(&key) {
                    Some(val) => Reply::Found(Some(*val)),
                    None => Reply::Found(None),
                }
            },
            Request::Quit => Reply::Closed,
        }
    }
}

} // verus!
