//! Work that is handed out item by item to a pool of threads. Each function
//! here is one call into the outside thread pool whose contract is believed,
//! not proved: that the pool applies the given step to every item, each
//! exactly once, and keeps the items in their order.

use vstd::prelude::*;
use rayon::iter::{IntoParallelRefIterator, IntoParallelRefMutIterator, ParallelIterator};
use crate::cell_types::CellType;
use crate::config::Config;
use crate::genome::Genome;
use crate::habitat::Habitat;
use crate::light::lit;
use crate::plant::Plant;
use crate::ratio::Ratio;

verus! {

/// Calls rayon's `par_iter().map(..).collect()` on the values of a genome,
/// with [`Genome::mutate`] as the step. For an indexed iterator such as
/// this one, rayon writes every result into the slot of its index, so a
/// collected `Vec` keeps the order of the items. The result therefore has
/// one value per input value, and each is what `mutate` returned for the
/// value in its place: the input value itself when the rate is zero.
#[verifier::external_body]
pub(crate) fn mutate_all(data: &Vec<u16>, mutation_rate: Ratio) -> (children: Vec<u16>)
    requires
        mutation_rate.wf(),
    ensures
        children@.len() == data@.len(),
        mutation_rate.is_zero() ==> children@ == data@,
{
    data.par_iter().map(|val| Genome::mutate(*val, mutation_rate)).collect()
}

/// Something that one phase of a tick advances by itself, independently of
/// everything else of its kind.
pub trait Stepped: Sized {
    /// Whether `post` is `pre` after its step.
    spec fn stepped(pre: Self, post: Self, config: Config) -> bool;

    /// Takes the step.
    fn step(&mut self, config: &Config)
        requires
            config.wf(),
        ensures
            Self::stepped(*old(self), *final(self), *config),
    ;
}

/// A plant steps by ageing one tick.
impl Stepped for Plant {
    open spec fn stepped(pre: Plant, post: Plant, config: Config) -> bool {
        post == pre.aged()
    }

    fn step(&mut self, config: &Config) {
        self.increase_age();
    }
}

/// A column steps by taking the sunlight pass.
impl Stepped for Vec<CellType> {
    open spec fn stepped(pre: Vec<CellType>, post: Vec<CellType>, config: Config) -> bool {
        post@ == lit(pre@, config)
    }

    fn step(&mut self, config: &Config) {
        Habitat::column_update(self, config);
    }
}

/// Calls rayon's `par_iter_mut().for_each(..)` on a list of items, with the
/// item's own [`Stepped::step`] as the step. `for_each` runs the step on
/// every item once, so afterwards every item is what its step makes of it,
/// and the number of items does not change.
#[verifier::external_body]
pub(crate) fn step_all<T: Stepped + Send>(items: &mut Vec<T>, config: &Config)
    requires
        config.wf(),
    ensures
        final(items)@.len() == old(items)@.len(),
        forall|i: int|
            0 <= i < old(items)@.len() ==> T::stepped(
                old(items)@[i],
                #[trigger] final(items)@[i],
                *config,
            ),
{
    items.par_iter_mut().for_each(|item| item.step(config));
}

} // verus!
