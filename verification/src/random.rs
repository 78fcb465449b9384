use vstd::prelude::*;

verus! {

/// `rand::thread_rng().gen::<i32>()`: a random `i32`; nothing is promised of its value.
#[verifier::external_body]
fn random_i32() -> (r: i32) {
    rand::Rng::gen::<i32>(&mut rand::thread_rng())
}

/// `rand::thread_rng().gen::<u32>()`: a random `u32`; nothing is promised of its value.
#[verifier::external_body]
pub(crate) fn random_u32() -> (r: u32) {
    rand::Rng::gen::<u32>(&mut rand::thread_rng())
}

/// `|x| % modulus` for a random `x`: a roll in `0..modulus`. At `x == i32::MIN`, where
/// `x.abs()` would overflow, the roll is `2^31 % modulus`.
pub fn roll(modulus: i32) -> (r: i32)
    requires
        modulus > 0,
    ensures
        0 <= r < modulus,
{
    let x = random_i32() as i64;
    let a = if x < 0 {
        -x
    } else {
        x
    };
    (a % (modulus as i64)) as i32
}

} // verus!
