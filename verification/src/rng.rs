use vstd::prelude::*;

verus! {

#[verifier::external_type_specification]
#[verifier::external_body]
pub struct ExXorshift128Plus(random::Xorshift128Plus);

/// Relies on random::default: it builds the xorshift generator from the given
/// seed. The two state words it derives from the seed are never both zero, so
/// construction always succeeds.
#[verifier::external_body]
pub fn new_source(seed: u64) -> random::Xorshift128Plus {
    random::default(seed)
}

/// Relies on random::Source::read_u64: one draw from the generator; every
/// value is possible, so nothing is promised of the result.
#[verifier::external_body]
pub fn read_u64(source: &mut random::Xorshift128Plus) -> u64 {
    random::Source::read_u64(source)
}

/// Two draws composed into one identifier-sized value.
pub fn read_u128(source: &mut random::Xorshift128Plus) -> u128 {
    let hi = read_u64(source);
    let lo = read_u64(source);
    ((hi as u128) << 64) | (lo as u128)
}

/// A draw reduced to an index below `n`.
pub fn pick_index(source: &mut random::Xorshift128Plus, n: usize) -> (r: usize)
    requires
        n >= 1,
    ensures
        r < n,
{
    let raw = read_u64(source);
    (raw % (n as u64)) as usize
}

} // verus!
