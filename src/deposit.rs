//! Storage deposit accounting: how much balance a write must carry so that
//! the bytes it adds are paid for.
use vstd::prelude::*;
use vstd::utf8::encode_utf8;

use crate::error::DocError;

verus! {

/// The number of bytes a serialized value occupies: its UTF-8 encoding.
pub open spec fn size_of(text: Seq<char>) -> nat {
    encode_utf8(text).len()
}

/// The size of what is stored now: nothing when the key holds no value.
pub open spec fn existing_size(existing: Option<Seq<char>>) -> nat {
    match existing {
        Some(t) => size_of(t),
        None => 0,
    }
}

/// The bytes a write adds: the growth from the stored value to the new one,
/// and zero when the value shrinks or keeps its size.
pub open spec fn delta_bytes(existing: Option<Seq<char>>, new_value: Seq<char>) -> nat {
    if size_of(new_value) > existing_size(existing) {
        (size_of(new_value) - existing_size(existing)) as nat
    } else {
        0
    }
}

/// The price of `delta` bytes.
pub open spec fn required_amount(delta: nat, price_per_byte: nat) -> nat {
    delta * price_per_byte
}

/// What remains to attach once `reserved` is put against `required`: the
/// shortfall, never more, and nothing when the reserve covers it.
pub open spec fn shortfall(required: nat, reserved: nat) -> nat {
    if reserved >= required {
        0
    } else {
        (required - reserved) as nat
    }
}

/// A deposit sized for one write, with the byte growth it was derived from.
pub struct DepositQuote {
    pub delta_bytes: usize,
    pub amount: u128,
}

/// The optional stored value as character sequences.
pub open spec fn existing_view(existing: &Option<String>) -> Option<Seq<char>> {
    match existing {
        Some(t) => Some(t@),
        None => None,
    }
}

/// Prices the bytes that writing `new_value` over `existing` adds. Fails with
/// `DepositShortfall` exactly when that price exceeds `ceiling`.
pub fn quote_deposit(
    existing: &Option<String>,
    new_value: &String,
    price_per_byte: u128,
    ceiling: u128,
) -> (r: Result<DepositQuote, DocError>)
    ensures
        ({
            let delta = delta_bytes(existing_view(existing), new_value@);
            let amount = required_amount(delta, price_per_byte as nat);
            &&& amount <= ceiling ==> (r matches Ok(q) && q.delta_bytes == delta && q.amount
                == amount)
            &&& amount > ceiling ==> r == Err::<DepositQuote, DocError>(DocError::DepositShortfall)
        }),
{
    let new_size = new_value.as_str().as_bytes().len();
    let old_size: usize = match existing {
        Some(t) => t.as_str().as_bytes().len(),
        None => 0,
    };
    let delta: usize = if new_size > old_size {
        new_size - old_size
    } else {
        0
    };
    assert(delta == delta_bytes(existing_view(existing), new_value@));
    match (delta as u128).checked_mul(price_per_byte) {
        Some(amount) => {
            if amount > ceiling {
                Err(DocError::DepositShortfall)
            } else {
                Ok(DepositQuote { delta_bytes: delta, amount })
            }
        },
        None => Err(DocError::DepositShortfall),
    }
}

/// The deposit to attach at signing time, given the quoted requirement and
/// the balance the signer has in reserve now.
pub fn reconcile_deposit(required: u128, reserved: u128) -> (r: u128)
    ensures
        r == shortfall(required as nat, reserved as nat),
        r <= required,
{
    if reserved >= required {
        0
    } else {
        required - reserved
    }
}

/// A write that does not make the stored value larger needs no deposit.
pub proof fn lemma_no_growth_no_deposit(
    existing: Option<Seq<char>>,
    new_value: Seq<char>,
    price_per_byte: nat,
)
    requires
        size_of(new_value) <= existing_size(existing),
    ensures
        required_amount(delta_bytes(existing, new_value), price_per_byte) == 0,
{
    assert(0 * price_per_byte == 0) by (nonlinear_arith);
}

/// At a fixed price, more added bytes never call for a smaller deposit.
pub proof fn lemma_deposit_monotonic(d1: nat, d2: nat, price_per_byte: nat)
    requires
        d1 <= d2,
    ensures
        required_amount(d1, price_per_byte) <= required_amount(d2, price_per_byte),
{
    assert(d1 * price_per_byte <= d2 * price_per_byte) by (nonlinear_arith)
        requires
            d1 <= d2,
    ;
}

} // verus!
