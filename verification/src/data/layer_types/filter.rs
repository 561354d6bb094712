use vstd::prelude::*;

use crate::data::layer::LayerData;

verus! {

/// The content of a filter layer; filters carry no data of their own yet.
#[derive(Debug, Clone, Copy, PartialEq, Eq, Structural)]
pub struct FilterData {}

impl LayerData for FilterData {}

} // verus!
