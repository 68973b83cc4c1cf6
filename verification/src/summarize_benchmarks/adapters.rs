//! Where benchmark results come from.

pub mod criterion;
pub mod stress;

use vstd::prelude::*;

use super::config::BenchSummaryConfig;

verus! {

/// A source of benchmark results.
#[derive(Debug, Clone, Copy, PartialEq, Eq, Structural)]
pub enum AdapterKind {
    Criterion,
    Stress,
}

impl AdapterKind {
    pub open spec fn word(self) -> Seq<char> {
        match self {
            AdapterKind::Criterion => "criterion"@,
            AdapterKind::Stress => "stress"@,
        }
    }

    /// The name under which records of this source are told.
    pub fn name(&self) -> (r: &'static str)
        ensures
            r@ == self.word(),
    {
        match self {
            AdapterKind::Criterion => "criterion",
            AdapterKind::Stress => "stress",
        }
    }
}

/// The sources that results are taken from, in order.
pub open spec fn enabled(config: &BenchSummaryConfig) -> Seq<AdapterKind> {
    (if config.adapters.criterion is Some {
        seq![AdapterKind::Criterion]
    } else {
        seq![]
    }) + (if config.adapters.stress is Some {
        seq![AdapterKind::Stress]
    } else {
        seq![]
    })
}

pub fn enabled_adapters(config: &BenchSummaryConfig) -> (r: Vec<AdapterKind>)
    ensures
        r@ == enabled(config),
{
    let mut adapters: Vec<AdapterKind> = Vec::new();
    if config.adapters.criterion.is_some() {
        adapters.push(AdapterKind::Criterion);
    }
    if config.adapters.stress.is_some() {
        adapters.push(AdapterKind::Stress);
    }
    assert(adapters@ =~= enabled(config));
    adapters
}

} // verus!
