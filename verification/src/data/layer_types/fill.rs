use vstd::prelude::*;

use crate::data::blend_modes::BlendMode;
use crate::data::layer::{LayerData, LayerParameter};

verus! {

/// What a fill layer paints with.
#[derive(Debug, Clone, Copy, PartialEq, Eq, Structural)]
pub enum FillLayerType {
    Solid,
    Gradient,
}

/// The content of a fill layer. A gradient stop is a position, kept as the bit
/// pattern of an IEEE-754 single, and a colour.
pub struct FillLayerData {
    pub fill_type: FillLayerType,
    pub color: Option<u8>,
    pub gradient: Option<Vec<(u32, u8)>>,
}

impl LayerData for FillLayerData {}

/// The switches of a fill layer. `opacity` is the bit pattern of an IEEE-754 single.
#[derive(Debug, Clone, Copy, PartialEq, Eq, Structural)]
pub struct FillLayerParameters {
    pub opacity: u32,
    pub visible: bool,
    pub lock: bool,
    pub alpha_clip: bool,
    pub alpha_lock: bool,
    pub blend_mode: BlendMode,
}

impl LayerParameter for FillLayerParameters {
    open spec fn spec_visible(&self) -> bool {
        self.visible
    }

    open spec fn spec_lock(&self) -> bool {
        self.lock
    }

    open spec fn with_visible(self, visible: bool) -> Self {
        FillLayerParameters { visible, ..self }
    }

    open spec fn with_lock(self, lock: bool) -> Self {
        FillLayerParameters { lock, ..self }
    }

    proof fn lemma_with_visible(self, visible: bool) {
    }

    proof fn lemma_with_lock(self, lock: bool) {
    }

    proof fn lemma_with_visible_twice(self, a: bool, b: bool) {
    }

    fn is_visible(&self) -> (r: bool) {
        self.visible
    }

    fn set_visible(&mut self, visible: bool) {
        self.visible = visible;
    }

    fn is_lock(&self) -> (r: bool) {
        self.lock
    }

    fn set_lock(&mut self, lock: bool) {
        self.lock = lock;
    }
}

} // verus!
