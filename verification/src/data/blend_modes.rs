use vstd::prelude::*;

verus! {

/// How a layer is mixed with what lies below it.
#[derive(Debug, Clone, Copy, PartialEq, Eq, Structural)]
pub enum BlendMode {
    Normal,
    HardLight,
    SoftLight,
}

/// The mode a layer starts with.
pub open spec fn default_blend_mode() -> BlendMode {
    BlendMode::Normal
}

/// Every blend mode, in the order in which they are offered to the user.
pub open spec fn all_blend_modes() -> Seq<BlendMode> {
    seq![BlendMode::Normal, BlendMode::HardLight, BlendMode::SoftLight]
}

/// The text shown for a blend mode.
pub open spec fn blend_mode_label(mode: BlendMode) -> Seq<char> {
    match mode {
        BlendMode::Normal => "Normal"@,
        BlendMode::HardLight => "Hard Light"@,
        BlendMode::SoftLight => "Soft Light"@,
    }
}

/// The name of the variant itself.
pub open spec fn blend_mode_variant_name(mode: BlendMode) -> Seq<char> {
    match mode {
        BlendMode::Normal => "Normal"@,
        BlendMode::HardLight => "HardLight"@,
        BlendMode::SoftLight => "SoftLight"@,
    }
}

impl Default for BlendMode {
    fn default() -> (r: Self)
        ensures
            r == default_blend_mode(),
    {
        BlendMode::Normal
    }
}

impl BlendMode {
    /// The label under which the mode is shown.
    pub fn label(&self) -> (r: &'static str)
        ensures
            r@ == blend_mode_label(*self),
    {
        match self {
            BlendMode::Normal => "Normal",
            BlendMode::HardLight => "Hard Light",
            BlendMode::SoftLight => "Soft Light",
        }
    }

    /// The name of the variant.
    pub fn variant_name(&self) -> (r: &'static str)
        ensures
            r@ == blend_mode_variant_name(*self),
    {
        match self {
            BlendMode::Normal => "Normal",
            BlendMode::HardLight => "HardLight",
            BlendMode::SoftLight => "SoftLight",
        }
    }

    /// Every mode, in order.
    pub fn all() -> (r: Vec<BlendMode>)
        ensures
            r@ == all_blend_modes(),
    {
        let mut v: Vec<BlendMode> = Vec::new();
        v.push(BlendMode::Normal);
        v.push(BlendMode::HardLight);
        v.push(BlendMode::SoftLight);
        v
    }

    /// The position of the mode in [`BlendMode::all`].
    pub fn index(&self) -> (r: usize)
        ensures
            r < all_blend_modes().len(),
            all_blend_modes()[r as int] == *self,
    {
        match self {
            BlendMode::Normal => 0,
            BlendMode::HardLight => 1,
            BlendMode::SoftLight => 2,
        }
    }

    /// The mode chosen at position `i` of [`BlendMode::all`]; a position past the end
    /// chooses the last mode.
    pub fn from_index(i: u32) -> (r: BlendMode)
        ensures
            r == all_blend_modes()[if i < all_blend_modes().len() {
                i as int
            } else {
                all_blend_modes().len() - 1
            }],
    {
        if i == 0 {
            BlendMode::Normal
        } else if i == 1 {
            BlendMode::HardLight
        } else {
            BlendMode::SoftLight
        }
    }
}

/// The modes on offer are all different and are shown under different labels, so a
/// mode's position and its label each name it alone.
pub proof fn law_blend_modes_distinct()
    ensures
        forall|i: int, j: int|
            0 <= i < j < all_blend_modes().len() ==> #[trigger] all_blend_modes()[i]
                != #[trigger] all_blend_modes()[j] && blend_mode_label(all_blend_modes()[i])
                != blend_mode_label(all_blend_modes()[j]),
{
    reveal_strlit("Normal");
    reveal_strlit("Hard Light");
    reveal_strlit("Soft Light");
    assert("Normal"@.len() != "Hard Light"@.len());
    assert("Normal"@.len() != "Soft Light"@.len());
    assert("Hard Light"@[0] != "Soft Light"@[0]);
}

} // verus!
