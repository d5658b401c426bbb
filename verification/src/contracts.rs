//! What the integration contracts compute between reading their arguments
//! and answering the host.
//!
//! The contracts themselves talk to the host and stand outside this library.
//! Arithmetic that does not fit gives `None`, where a contract built with
//! overflow checks would stop.

use vstd::prelude::*;

verus! {

/// The sum of the bytes.
pub open spec fn byte_sum(bytes: Seq<u8>) -> nat
    decreases bytes.len(),
{
    if bytes.len() == 0 {
        0
    } else {
        byte_sum(bytes.drop_last()) + bytes.last() as nat
    }
}

/// The code with which the contract of two arguments reverts: the sum of
/// the bytes of the account number, taken as one byte, plus the number, cut
/// to 16 bits; where the sum of the bytes fits into one byte and the total
/// into 32 bits.
pub open spec fn user_code(account: Seq<u8>, number: u32) -> Option<u16> {
    if byte_sum(account) <= u8::MAX && byte_sum(account) + number <= u32::MAX {
        Some(((byte_sum(account) + number) % 0x1_0000) as u16)
    } else {
        None
    }
}

/// The sum of the bytes of an account number, where it fits into one byte.
pub fn account_sum(account: &[u8; 32]) -> (sum: Option<u8>)
    ensures
        match sum {
            Some(s) => s == byte_sum(account@),
            None => byte_sum(account@) > u8::MAX,
        },
{
    let mut total: u16 = 0;
    let mut i: usize = 0;
    while i < 32
        invariant
            i <= 32,
            account@.len() == 32,
            total == byte_sum(account@.take(i as int)),
            total <= 255 * i,
        decreases 32 - i,
    {
        assert(account@.take(i + 1).drop_last() == account@.take(i as int));
        total = total + account[i] as u16;
        i += 1;
    }
    assert(account@.take(32) == account@);
    if total <= 255 {
        Some(total as u8)
    } else {
        None
    }
}

/// The code with which the contract of two arguments reverts.
pub fn revert_code(account: &[u8; 32], number: u32) -> (code: Option<u16>)
    ensures
        code == user_code(account@, number),
{
    match account_sum(account) {
        Some(sum) => match (sum as u32).checked_add(number) {
            Some(total) => Some((total % 0x1_0000) as u16),
            None => None,
        },
        None => None,
    }
}

/// A method of the counter contract.
#[derive(Clone, Copy, Debug, PartialEq, Eq, Structural)]
pub enum CounterMethod {
    /// Adds one to the counter.
    Inc,
    /// Returns the value of the counter.
    Get,
}

/// The name `inc`, as bytes.
pub open spec fn name_inc() -> Seq<u8> {
    seq![0x69u8, 0x6eu8, 0x63u8]
}

/// The name `get`, as bytes.
pub open spec fn name_get() -> Seq<u8> {
    seq![0x67u8, 0x65u8, 0x74u8]
}

/// The method that a name stands for: `inc` or `get`, and nothing else.
pub fn counter_method(name: &[u8]) -> (method: Option<CounterMethod>)
    ensures
        method == if name@ == name_inc() {
            Some(CounterMethod::Inc)
        } else if name@ == name_get() {
            Some(CounterMethod::Get)
        } else {
            None::<CounterMethod>
        },
{
    if name.len() != 3 {
        assert(name@ != name_inc() && name@ != name_get());
        return None;
    }
    if name[0] == 0x69 && name[1] == 0x6e && name[2] == 0x63 {
        assert(name@ =~= name_inc());
        Some(CounterMethod::Inc)
    } else if name[0] == 0x67 && name[1] == 0x65 && name[2] == 0x74 {
        assert(name@ =~= name_get());
        assert(name@ != name_inc()) by {
            assert(name_inc()[0] == 0x69u8);
        }
        Some(CounterMethod::Get)
    } else {
        assert(name@ != name_inc()) by {
            assert(name_inc()[0] == 0x69u8 && name_inc()[1] == 0x6eu8 && name_inc()[2] == 0x63u8);
        }
        assert(name@ != name_get()) by {
            assert(name_get()[0] == 0x67u8 && name_get()[1] == 0x65u8 && name_get()[2] == 0x74u8);
        }
        None
    }
}

/// Why the counter contract cannot return the value of the counter.
#[derive(Clone, Copy, Debug, PartialEq, Eq, Structural)]
pub enum CounterFailure {
    /// The store of the host has no value under the key of the counter.
    ValueNotFound,
    /// The host could not read the value.
    Read,
}

/// What the counter contract answers to `get`, given what the host read
/// under the key of the counter: the value, or the failure with which it
/// reverts.
pub fn counter_reply(read: Result<Option<i32>, ()>) -> (reply: Result<i32, CounterFailure>)
    ensures
        reply == match read {
            Ok(Some(value)) => Ok::<i32, CounterFailure>(value),
            Ok(None) => Err::<i32, CounterFailure>(CounterFailure::ValueNotFound),
            Err(_) => Err::<i32, CounterFailure>(CounterFailure::Read),
        },
{
    match read {
        Ok(Some(value)) => Ok(value),
        Ok(None) => Err(CounterFailure::ValueNotFound),
        Err(_) => Err(CounterFailure::Read),
    }
}

} // verus!
