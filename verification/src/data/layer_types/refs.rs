use vstd::prelude::*;

verus! {

/// A reference image kept beside the document's layers: an identifier and its pixels,
/// four bytes per pixel.
pub struct RefLayer {
    pub id: u128,
    pub pixels: Vec<u8>,
}

/// The model of the reference images: each one's identifier and pixels.
pub open spec fn ref_views(refs: Seq<RefLayer>) -> Seq<(u128, Seq<u8>)> {
    Seq::new(refs.len(), |i: int| (refs[i].id, refs[i].pixels@))
}

impl RefLayer {
    pub fn new(id: u128, pixels: Vec<u8>) -> (r: Self)
        ensures
            r.id == id,
            r.pixels == pixels,
    {
        RefLayer { id, pixels }
    }

    pub fn id(&self) -> (r: u128)
        ensures
            r == self.id,
    {
        self.id
    }

    pub fn pixel_data(&self) -> (r: &[u8])
        ensures
            r@ == self.pixels@,
    {
        self.pixels.as_slice()
    }
}

} // verus!
