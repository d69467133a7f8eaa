use vstd::prelude::*;
use soroban_sdk::TryFromVal;

verus! {

/// The host environment in which stake histories live.
#[verifier::external_type_specification]
#[verifier::external_body]
pub struct ExEnv(soroban_sdk::Env);

/// The host-backed vector in which a stake history is kept.
#[verifier::external_type_specification]
#[verifier::external_body]
#[verifier::reject_recursive_types(T)]
pub struct ExVec<T>(soroban_sdk::Vec<T>);

/// A value of the host, of whatever type.
#[verifier::external_type_specification]
#[verifier::external_body]
pub struct ExVal(soroban_sdk::Val);

/// What the host reports for a value that is not of the type asked for.
#[verifier::external_type_specification]
#[verifier::external_body]
pub struct ExConversionError(soroban_sdk::ConversionError);

/// What the host reports where reading a number fails.
#[verifier::external_type_specification]
#[verifier::external_body]
pub struct ExError(soroban_sdk::Error);

/// The address type of the host, by which the currency and the operator are
/// designated. The ledger keeps such a value and hands it back; it never looks
/// inside.
#[verifier::external_type_specification]
#[verifier::external_body]
pub struct ExAddress(soroban_sdk::Address);

/// What a value of the host holds, as far as a stake history reads it: a
/// boolean, a 128-bit signed number, a vector of values, or anything else.
pub enum Shape {
    /// A boolean.
    Flag(bool),
    /// A 128-bit signed number.
    Amount(i128),
    /// A vector, with what its items hold.
    List(Seq<Shape>),
    /// A value of any other type.
    Other,
}

/// What a stake history holds, position by position. The host does not
/// promise that an item is a `(side, amount)` pair: it may be any value.
pub uninterp spec fn bet_shapes(bets: soroban_sdk::Vec<(bool, i128)>) -> Seq<Shape>;

/// What a vector of host values holds, position by position.
pub uninterp spec fn val_items(vals: soroban_sdk::Vec<soroban_sdk::Val>) -> Seq<Shape>;

/// What the value `val` holds in the host in which the vector `home` lives.
pub uninterp spec fn val_shape(
    home: soroban_sdk::Vec<soroban_sdk::Val>,
    val: soroban_sdk::Val,
) -> Shape;

/// The pair `(side, amount)` as the host stores it: a vector of the two.
pub open spec fn pair_shape(side: bool, amount: i128) -> Shape {
    Shape::List(seq![Shape::Flag(side), Shape::Amount(amount)])
}

/// `soroban_sdk::Vec::new`: a vector that holds nothing.
#[verifier::external_body]
pub(crate) fn new_bets(env: &soroban_sdk::Env) -> (bets: soroban_sdk::Vec<(bool, i128)>)
    ensures
        bet_shapes(bets) == Seq::<Shape>::empty(),
{
    soroban_sdk::Vec::new(env)
}

/// `soroban_sdk::Vec::push_back`: the pair, stored as a vector of the side and
/// the amount, becomes the last item, and the items before it stay. The host
/// cannot count more than `u32::MAX` items.
#[verifier::external_body]
pub(crate) fn bets_push(bets: &mut soroban_sdk::Vec<(bool, i128)>, side: bool, amount: i128)
    requires
        bet_shapes(*old(bets)).len() < u32::MAX,
    ensures
        bet_shapes(*final(bets)) == bet_shapes(*old(bets)).push(pair_shape(side, amount)),
{
    bets.push_back((side, amount))
}

/// `Clone::clone` of `soroban_sdk::Vec`: a second handle on the same items.
#[verifier::external_body]
pub(crate) fn bets_clone(bets: &soroban_sdk::Vec<(bool, i128)>) -> (copy: soroban_sdk::Vec<
    (bool, i128),
>)
    ensures
        bet_shapes(copy) == bet_shapes(*bets),
{
    bets.clone()
}

/// `soroban_sdk::Vec::to_vals`: the same vector, its items taken as values of
/// whatever type. Nothing is read or converted.
#[verifier::external_body]
pub(crate) fn bets_raw(bets: &soroban_sdk::Vec<(bool, i128)>) -> (vals: soroban_sdk::Vec<
    soroban_sdk::Val,
>)
    ensures
        val_items(vals) == bet_shapes(*bets),
{
    bets.to_vals()
}

/// `soroban_sdk::Vec::len`: the number of items, which the host counts in 32
/// bits.
#[verifier::external_body]
pub(crate) fn vals_len(vals: &soroban_sdk::Vec<soroban_sdk::Val>) -> (n: u32)
    ensures
        n == val_items(*vals).len(),
{
    vals.len()
}

/// `soroban_sdk::Vec::try_get` on a vector of values: the value at a position
/// within the vector, nothing beyond its end. A value is taken as it is, so
/// this never fails.
#[verifier::external_body]
pub(crate) fn vals_get(vals: &soroban_sdk::Vec<soroban_sdk::Val>, i: u32) -> (r: Result<
    Option<soroban_sdk::Val>,
    soroban_sdk::ConversionError,
>)
    ensures
        match r {
            Ok(Some(val)) => i < val_items(*vals).len() && val_shape(*vals, val) == val_items(
                *vals,
            )[i as int],
            Ok(None) => i >= val_items(*vals).len(),
            Err(_) => false,
        },
{
    vals.try_get(i)
}

/// `TryFromVal::try_from_val` for `soroban_sdk::Vec<Val>`: a value that is a
/// vector is handed back as one, with its items; any other value is a
/// conversion error. The call wants the host in which `val` lives: it is
/// that of `home`, from which `val` was read.
#[verifier::external_body]
pub(crate) fn val_as_vec(home: &soroban_sdk::Vec<soroban_sdk::Val>, val: &soroban_sdk::Val) -> (r:
    Result<soroban_sdk::Vec<soroban_sdk::Val>, soroban_sdk::ConversionError>)
    ensures
        match val_shape(*home, *val) {
            Shape::List(items) => r matches Ok(vals) && val_items(vals) == items,
            _ => r is Err,
        },
{
    soroban_sdk::Vec::<soroban_sdk::Val>::try_from_val(home.env(), val)
}

/// `TryFromVal::try_from_val` for `bool`: the boolean that the value is, or a
/// conversion error for a value of another type. `home` is the vector from
/// which `val` was read.
#[verifier::external_body]
pub(crate) fn val_as_bool(home: &soroban_sdk::Vec<soroban_sdk::Val>, val: &soroban_sdk::Val) -> (r:
    Result<bool, soroban_sdk::ConversionError>)
    ensures
        match val_shape(*home, *val) {
            Shape::Flag(flag) => r matches Ok(got) && got == flag,
            _ => r is Err,
        },
{
    bool::try_from_val(home.env(), val)
}

/// `TryFromVal::try_from_val` for `i128`: the number that the value is, or an
/// error for a value of another type. `home` is the vector from which `val`
/// was read.
#[verifier::external_body]
pub(crate) fn val_as_i128(home: &soroban_sdk::Vec<soroban_sdk::Val>, val: &soroban_sdk::Val) -> (r:
    Result<i128, soroban_sdk::Error>)
    ensures
        match val_shape(*home, *val) {
            Shape::Amount(amount) => r matches Ok(got) && got == amount,
            _ => r is Err,
        },
{
    i128::try_from_val(home.env(), val)
}

} // verus!
