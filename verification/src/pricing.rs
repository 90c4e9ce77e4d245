//! Comparison of on-demand and preemptible instance prices: which products
//! offer both, and which of their prices are compared.
use vstd::prelude::*;

verus! {

/// How an instance is bought.
#[derive(Debug, Clone, Copy, PartialEq, Eq, Structural)]
pub enum InstanceType {
    OnDemand,
    Preemptible,
    Spot,
}

/// `kind` is among `options`.
pub open spec fn offers(options: Seq<InstanceType>, kind: InstanceType) -> bool {
    exists|i: int| 0 <= i < options.len() && options[i] == kind
}

/// `i` is the first position of `kind` in `options`.
pub open spec fn first_position(options: Seq<InstanceType>, kind: InstanceType, i: int) -> bool {
    &&& 0 <= i < options.len()
    &&& options[i] == kind
    &&& forall|j: int| 0 <= j < i ==> options[j] != kind
}

/// The first position of `kind` in `options`, if any.
pub fn position_of(options: &Vec<InstanceType>, kind: InstanceType) -> (r: Option<usize>)
    ensures
        r matches Some(i) ==> first_position(options@, kind, i as int),
        r is None <==> !offers(options@, kind),
{
    let n = options.len();
    let mut i: usize = 0;
    while i < n
        invariant
            n == options@.len(),
            i <= n,
            forall|j: int| 0 <= j < i ==> options@[j] != kind,
        decreases n - i,
    {
        if options[i] == kind {
            return Some(i);
        }
        i = i + 1;
    }
    None
}

/// Whether a product with prices of the given kinds is compared: it must
/// have both an on-demand and a preemptible price.
pub fn offers_on_demand_and_preemptible(options: &Vec<InstanceType>) -> (r: bool)
    ensures
        r == (offers(options@, InstanceType::OnDemand) && offers(
            options@,
            InstanceType::Preemptible,
        )),
{
    position_of(options, InstanceType::OnDemand).is_some() && position_of(
        options,
        InstanceType::Preemptible,
    ).is_some()
}

/// The positions of the prices that are compared: the first on-demand price
/// and the first preemptible price.
pub fn compared_prices(options: &Vec<InstanceType>) -> (r: (usize, usize))
    requires
        offers(options@, InstanceType::OnDemand),
        offers(options@, InstanceType::Preemptible),
    ensures
        first_position(options@, InstanceType::OnDemand, r.0 as int),
        first_position(options@, InstanceType::Preemptible, r.1 as int),
{
    let on_demand = match position_of(options, InstanceType::OnDemand) {
        Some(i) => i,
        None => 0,
    };
    let preemptible = match position_of(options, InstanceType::Preemptible) {
        Some(i) => i,
        None => 0,
    };
    (on_demand, preemptible)
}

} // verus!
