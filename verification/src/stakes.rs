use vstd::prelude::*;
use crate::error::MarketError;
use crate::host::{
    bet_shapes, bets_push, bets_raw, pair_shape, val_as_bool, val_as_i128, val_as_vec, val_items,
    vals_get, vals_len, Shape,
};

verus! {

/// The stake that a stored value is, if it is one: a vector of exactly a
/// boolean and a number.
pub open spec fn as_stake(shape: Shape) -> Option<(bool, i128)> {
    match shape {
        Shape::List(fields) => if fields.len() == 2 {
            match (fields[0], fields[1]) {
                (Shape::Flag(side), Shape::Amount(amount)) => Some((side, amount)),
                _ => None,
            }
        } else {
            None
        },
        _ => None,
    }
}

/// Each stored value read as a stake.
pub open spec fn stakes_in(shapes: Seq<Shape>) -> Seq<Option<(bool, i128)>> {
    Seq::new(shapes.len(), |i: int| as_stake(shapes[i]))
}

/// What a stake history holds, position by position, read as stakes: `None`
/// stands for an item that is no `(side, amount)` pair.
pub open spec fn bet_items(bets: soroban_sdk::Vec<(bool, i128)>) -> Seq<Option<(bool, i128)>> {
    stakes_in(bet_shapes(bets))
}

/// A pair that is stored reads back as the same stake, behind the stakes
/// that were there.
pub proof fn lemma_stakes_in_push(shapes: Seq<Shape>, side: bool, amount: i128)
    ensures
        stakes_in(shapes.push(pair_shape(side, amount))) == stakes_in(shapes).push(
            Some((side, amount)),
        ),
{
    let fields = seq![Shape::Flag(side), Shape::Amount(amount)];
    assert(fields.len() == 2 && fields[0] == Shape::Flag(side) && fields[1] == Shape::Amount(
        amount,
    ));
    assert(as_stake(pair_shape(side, amount)) == Some((side, amount)));
    assert(stakes_in(shapes.push(pair_shape(side, amount))) =~= stakes_in(shapes).push(
        Some((side, amount)),
    ));
}

/// Every item is a pair, and every amount is positive.
pub open spec fn well_formed(items: Seq<Option<(bool, i128)>>) -> bool {
    forall|i: int| 0 <= i < items.len() ==> (#[trigger] items[i]) is Some && (items[i]->0).1 > 0
}

/// The stakes of a history, in the order in which they were placed.
pub open spec fn entries(items: Seq<Option<(bool, i128)>>) -> Seq<(bool, i128)> {
    Seq::new(items.len(), |i: int| items[i]->0)
}

/// Two well-formed histories with the same stakes hold the same items.
pub proof fn lemma_entries_determine_items(
    first: Seq<Option<(bool, i128)>>,
    second: Seq<Option<(bool, i128)>>,
)
    requires
        well_formed(first),
        well_formed(second),
        entries(first) == entries(second),
    ensures
        first == second,
{
    assert(first.len() == entries(first).len());
    assert(second.len() == entries(second).len());
    assert forall|i: int| 0 <= i < first.len() implies first[i] == second[i] by {
        assert(entries(first)[i] == first[i]->0);
        assert(entries(second)[i] == second[i]->0);
    }
    assert(first =~= second);
}

/// What one stake adds to the total of a side.
pub open spec fn on_side(entry: (bool, i128), side: bool) -> int {
    if entry.0 == side {
        entry.1 as int
    } else {
        0
    }
}

/// The sum of the amounts staked on one side.
pub open spec fn side_total(stakes: Seq<(bool, i128)>, side: bool) -> int
    decreases stakes.len(),
{
    if stakes.len() == 0 {
        0
    } else {
        side_total(stakes.drop_last(), side) + on_side(stakes.last(), side)
    }
}

/// The sum of all amounts staked, whatever the side.
pub open spec fn staked_total(stakes: Seq<(bool, i128)>) -> int
    decreases stakes.len(),
{
    if stakes.len() == 0 {
        0
    } else {
        staked_total(stakes.drop_last()) + stakes.last().1
    }
}

/// Every amount of the sequence is positive.
pub open spec fn all_positive(stakes: Seq<(bool, i128)>) -> bool {
    forall|i: int| 0 <= i < stakes.len() ==> (#[trigger] stakes[i]).1 > 0
}

/// A stake that is appended adds its amount to its own side and nothing to
/// the other.
pub proof fn lemma_side_total_push(stakes: Seq<(bool, i128)>, entry: (bool, i128), side: bool)
    ensures
        side_total(stakes.push(entry), side) == side_total(stakes, side) + on_side(entry, side),
{
    assert(stakes.push(entry).drop_last() =~= stakes);
}

/// The total of a side of positive stakes is not negative.
pub proof fn lemma_side_total_nonnegative(stakes: Seq<(bool, i128)>, side: bool)
    requires
        all_positive(stakes),
    ensures
        0 <= side_total(stakes, side),
    decreases stakes.len(),
{
    if stakes.len() > 0 {
        lemma_side_total_nonnegative(stakes.drop_last(), side);
    }
}

/// The two sides together are everything that was staked.
pub proof fn lemma_sides_make_total(stakes: Seq<(bool, i128)>)
    ensures
        side_total(stakes, true) + side_total(stakes, false) == staked_total(stakes),
    decreases stakes.len(),
{
    if stakes.len() > 0 {
        lemma_sides_make_total(stakes.drop_last());
    }
}

/// Reads the item at a position of a history as a stake. Each step looks at
/// one value: whether the item is a vector, whether that holds exactly two
/// values, whether the first is a boolean and the second a number. An item
/// that is anything else is no stake.
pub fn read_stake(vals: &soroban_sdk::Vec<soroban_sdk::Val>, i: u32) -> (r: Option<(bool, i128)>)
    ensures
        r == if i < val_items(*vals).len() {
            as_stake(val_items(*vals)[i as int])
        } else {
            None
        },
{
    let item: soroban_sdk::Val = match vals_get(vals, i) {
        Ok(Some(val)) => val,
        _ => {
            return None;
        },
    };
    let fields: soroban_sdk::Vec<soroban_sdk::Val> = match val_as_vec(vals, &item) {
        Ok(fields) => fields,
        Err(_) => {
            return None;
        },
    };
    if vals_len(&fields) != 2 {
        return None;
    }
    let first: soroban_sdk::Val = match vals_get(&fields, 0) {
        Ok(Some(val)) => val,
        _ => {
            return None;
        },
    };
    let second: soroban_sdk::Val = match vals_get(&fields, 1) {
        Ok(Some(val)) => val,
        _ => {
            return None;
        },
    };
    let side: bool = match val_as_bool(&fields, &first) {
        Ok(side) => side,
        Err(_) => {
            return None;
        },
    };
    match val_as_i128(&fields, &second) {
        Ok(amount) => Some((side, amount)),
        Err(_) => None,
    }
}

/// The sum of the amounts that a history holds on one side. A history with an
/// item that is no pair of a side and an amount, whatever else it is, or with
/// an amount that is not positive, is refused as malformed, wherever the item
/// stands; a sum beyond the largest amount is an overflow.
pub fn side_sum(bets: &soroban_sdk::Vec<(bool, i128)>, side: bool) -> (r: Result<
    i128,
    MarketError,
>)
    ensures
        match r {
            Ok(sum) => well_formed(bet_items(*bets)) && sum == side_total(
                entries(bet_items(*bets)),
                side,
            ),
            Err(e) => if well_formed(bet_items(*bets)) {
                e == MarketError::Overflow && side_total(entries(bet_items(*bets)), side)
                    > i128::MAX
            } else {
                e == MarketError::InvalidAmount
            },
        },
{
    let vals: soroban_sdk::Vec<soroban_sdk::Val> = bets_raw(bets);
    let n: u32 = vals_len(&vals);
    let ghost items = bet_items(*bets);
    let ghost stakes = entries(items);
    let mut sum: i128 = 0;
    let mut over: bool = false;
    let mut i: u32 = 0;
    while i < n
        invariant
            i <= n,
            n == items.len(),
            items == stakes_in(val_items(vals)),
            items == bet_items(*bets),
            stakes == entries(items),
            well_formed(items.take(i as int)),
            !over ==> 0 <= sum && sum == side_total(stakes.take(i as int), side),
            over ==> side_total(stakes.take(i as int), side) > i128::MAX,
        decreases n - i,
    {
        assert(items[i as int] == as_stake(val_items(vals)[i as int]));
        let (entry_side, amount): (bool, i128) = match read_stake(&vals, i) {
            Some(entry) => entry,
            None => {
                return Err(MarketError::InvalidAmount);
            },
        };
        if amount <= 0 {
            return Err(MarketError::InvalidAmount);
        }
        proof {
            assert(stakes.take(i + 1).drop_last() =~= stakes.take(i as int));
            assert(stakes.take(i + 1).last() == (entry_side, amount));
            assert forall|j: int| 0 <= j < i + 1 implies (#[trigger] items.take(i + 1)[j]) is Some
                && (items.take(i + 1)[j]->0).1 > 0 by {
                if j < i {
                    assert(items.take(i as int)[j] == items[j]);
                }
            }
        }
        if entry_side == side && !over {
            match sum.checked_add(amount) {
                Some(s) => {
                    sum = s;
                },
                None => {
                    over = true;
                },
            }
        }
        i = i + 1;
    }
    proof {
        assert(items.take(n as int) =~= items);
        assert(stakes.take(n as int) =~= stakes);
    }
    if over {
        Err(MarketError::Overflow)
    } else {
        Ok(sum)
    }
}

/// Appends one stake to a history and leaves the earlier stakes as they were.
/// An amount that is not positive is refused, and so is a stake for which the
/// history has no room left; a refusal leaves the history untouched.
pub fn append_bet(bets: &mut soroban_sdk::Vec<(bool, i128)>, side: bool, amount: i128) -> (r:
    Result<(), MarketError>)
    ensures
        match r {
            Ok(_) => amount > 0 && bet_items(*old(bets)).len() < u32::MAX && bet_items(
                *final(bets),
            ) == bet_items(*old(bets)).push(Some((side, amount))),
            Err(e) => *final(bets) == *old(bets) && if amount <= 0 {
                e == MarketError::InvalidAmount
            } else {
                e == MarketError::Overflow && bet_items(*old(bets)).len() >= u32::MAX
            },
        },
{
    if amount <= 0 {
        return Err(MarketError::InvalidAmount);
    }
    let vals: soroban_sdk::Vec<soroban_sdk::Val> = bets_raw(bets);
    if vals_len(&vals) == u32::MAX {
        return Err(MarketError::Overflow);
    }
    proof {
        lemma_stakes_in_push(bet_shapes(*bets), side, amount);
    }
    bets_push(bets, side, amount);
    Ok(())
}

} // verus!
