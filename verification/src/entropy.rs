//! The random values the tool draws: checkpoint nonces, instance suffixes and
//! image repository names.
use rand::Rng;
use vstd::prelude::*;

verus! {

/// `rand::Rng::gen::<u64>` on `rand::thread_rng()`: a random 64-bit number.
/// Every value may come back; nothing is promised of it.
#[verifier::external_body]
pub(crate) fn random_u64() -> u64 {
    rand::thread_rng().gen::<u64>()
}

/// `rand::Rng::gen::<u32>` on `rand::thread_rng()`: a random 32-bit number.
/// Every value may come back; nothing is promised of it.
#[verifier::external_body]
pub(crate) fn random_u32() -> u32 {
    rand::thread_rng().gen::<u32>()
}

/// `gen_passphrase::generate(&[EFF_SHORT_2], words, None)`: `words` random
/// words of the EFF short word list (its second version), joined without a
/// delimiter. Which words come out is chance; the contract claims only what
/// the source shows of every outcome: no words give the empty string, and as
/// no word of that list is empty, one or more words give a non-empty string.
#[verifier::external_body]
pub(crate) fn random_passphrase(words: usize) -> (r: String)
    ensures
        words == 0 ==> r@.len() == 0,
        words > 0 ==> r@.len() > 0,
{
    gen_passphrase::generate(&[gen_passphrase::dictionary::EFF_SHORT_2], words, None)
}

} // verus!
