use vstd::prelude::*;

use crate::data::blend_modes::{default_blend_mode, BlendMode};
use crate::data::ids::{new_layer_id, uuid_variant, uuid_version};
use crate::data::layer_types::fill::{FillLayerData, FillLayerParameters, FillLayerType};
use crate::data::layer_types::filter::FilterData;
use crate::data::layer_types::group::{group_bounds, GroupData};
use crate::data::layer_types::pixel::{pixel_buffer_len, PixelData};

verus! {

/// The switches that every kind of layer has.
pub trait LayerParameter: Sized {
    spec fn spec_visible(&self) -> bool;

    spec fn spec_lock(&self) -> bool;

    /// The same switches with visibility set to `visible`.
    spec fn with_visible(self, visible: bool) -> Self;

    /// The same switches with the lock set to `lock`.
    spec fn with_lock(self, lock: bool) -> Self;

    proof fn lemma_with_visible(self, visible: bool)
        ensures
            self.with_visible(visible).spec_visible() == visible,
            self.with_visible(visible).spec_lock() == self.spec_lock(),
            self.with_visible(self.spec_visible()) == self,
    ;

    proof fn lemma_with_lock(self, lock: bool)
        ensures
            self.with_lock(lock).spec_lock() == lock,
            self.with_lock(lock).spec_visible() == self.spec_visible(),
            self.with_lock(self.spec_lock()) == self,
    ;

    /// Setting visibility twice is setting it to the second value.
    proof fn lemma_with_visible_twice(self, a: bool, b: bool)
        ensures
            self.with_visible(a).with_visible(b) == self.with_visible(b),
    ;

    fn is_visible(&self) -> (r: bool)
        ensures
            r == self.spec_visible(),
    ;

    fn set_visible(&mut self, visible: bool)
        ensures
            *final(self) == old(self).with_visible(visible),
    ;

    fn is_lock(&self) -> (r: bool)
        ensures
            r == self.spec_lock(),
    ;

    fn set_lock(&mut self, lock: bool)
        ensures
            *final(self) == old(self).with_lock(lock),
    ;
}

/// The content that a kind of layer holds.
pub trait LayerData {}

/// The bit pattern of the IEEE-754 single 1.0, a layer's opacity when it is fully opaque.
pub const FULL_OPACITY: u32 = 0x3F80_0000u32;

/// The switches of raster and group layers. `opacity` is the bit pattern of an IEEE-754
/// single between 0.0 and 1.0.
#[derive(Debug, Clone, Copy, PartialEq, Eq, Structural)]
pub struct NodeLayerParameters {
    pub opacity: u32,
    pub visible: bool,
    pub lock: bool,
    pub alpha_clip: bool,
    pub alpha_lock: bool,
    pub passthrough: bool,
    pub blend_mode: BlendMode,
}

/// The switches a new raster or group layer starts with.
pub open spec fn default_node_parameters() -> NodeLayerParameters {
    NodeLayerParameters {
        opacity: FULL_OPACITY,
        visible: true,
        lock: false,
        alpha_clip: false,
        alpha_lock: false,
        passthrough: false,
        blend_mode: default_blend_mode(),
    }
}

impl Default for NodeLayerParameters {
    fn default() -> (r: Self)
        ensures
            r == default_node_parameters(),
    {
        NodeLayerParameters {
            opacity: FULL_OPACITY,
            visible: true,
            lock: false,
            alpha_clip: false,
            alpha_lock: false,
            passthrough: false,
            blend_mode: BlendMode::Normal,
        }
    }
}

impl LayerParameter for NodeLayerParameters {
    open spec fn spec_visible(&self) -> bool {
        self.visible
    }

    open spec fn spec_lock(&self) -> bool {
        self.lock
    }

    open spec fn with_visible(self, visible: bool) -> Self {
        NodeLayerParameters { visible, ..self }
    }

    open spec fn with_lock(self, lock: bool) -> Self {
        NodeLayerParameters { lock, ..self }
    }

    proof fn lemma_with_visible(self, visible: bool) {
    }

    proof fn lemma_with_lock(self, lock: bool) {
    }

    proof fn lemma_with_visible_twice(self, a: bool, b: bool) {
    }

    fn is_visible(&self) -> (r: bool) {
        self.visible
    }

    fn set_visible(&mut self, visible: bool) {
        self.visible = visible;
    }

    fn is_lock(&self) -> (r: bool) {
        self.lock
    }

    fn set_lock(&mut self, lock: bool) {
        self.lock = lock;
    }
}

/// The switches of a filter layer.
#[derive(Debug, Clone, Copy, PartialEq, Eq, Structural)]
pub struct FilterLayerParameters {
    pub visible: bool,
    pub lock: bool,
}

impl LayerParameter for FilterLayerParameters {
    open spec fn spec_visible(&self) -> bool {
        self.visible
    }

    open spec fn spec_lock(&self) -> bool {
        self.lock
    }

    open spec fn with_visible(self, visible: bool) -> Self {
        FilterLayerParameters { visible, ..self }
    }

    open spec fn with_lock(self, lock: bool) -> Self {
        FilterLayerParameters { lock, ..self }
    }

    proof fn lemma_with_visible(self, visible: bool) {
    }

    proof fn lemma_with_lock(self, lock: bool) {
    }

    proof fn lemma_with_visible_twice(self, a: bool, b: bool) {
    }

    fn is_visible(&self) -> (r: bool) {
        self.visible
    }

    fn set_visible(&mut self, visible: bool) {
        self.visible = visible;
    }

    fn is_lock(&self) -> (r: bool) {
        self.lock
    }

    fn set_lock(&mut self, lock: bool) {
        self.lock = lock;
    }
}

/// A layer of some kind: an identifier, a name, the filters applied to it, its switches
/// and its content.
pub struct BrushLayer<T: LayerParameter, D: LayerData> {
    pub id: u128,
    pub name: String,
    pub filters: Vec<Layer>,
    pub parameters: T,
    pub data: D,
    pub is_dirty: bool,
}

impl<T: LayerParameter, D: LayerData> BrushLayer<T, D> {
    /// A new layer with a fresh identifier, no filters, and marked for redrawing.
    pub fn new(name: String, parameters: T, data: D) -> (r: Self)
        ensures
            r.name == name,
            r.parameters == parameters,
            r.data == data,
            r.filters@.len() == 0,
            r.is_dirty,
            uuid_version(r.id) == 4,
            uuid_variant(r.id) == 2,
    {
        BrushLayer { id: new_layer_id(), name, filters: Vec::new(), parameters, data, is_dirty: true }
    }

    /// Flips the visibility switch and leaves everything else as it was.
    pub fn toggle_visibility(&mut self)
        ensures
            final(self).parameters == toggled(old(self).parameters),
            final(self).id == old(self).id,
            final(self).name == old(self).name,
            final(self).filters == old(self).filters,
            final(self).data == old(self).data,
            final(self).is_dirty == old(self).is_dirty,
    {
        let v = self.parameters.is_visible();
        self.parameters.set_visible(!v);
    }
}

/// The switches after the visibility is flipped, as `toggle_visibility` flips it.
pub open spec fn toggled<T: LayerParameter>(p: T) -> T {
    p.with_visible(!p.spec_visible())
}

/// Flipping a layer's visibility twice gives back the switches it had.
pub proof fn law_toggle_visibility_twice<T: LayerParameter>(p: T)
    ensures
        toggled(toggled(p)) == p,
{
    p.lemma_with_visible(!p.spec_visible());
    p.lemma_with_visible_twice(!p.spec_visible(), p.spec_visible());
    p.lemma_with_visible(p.spec_visible());
}

/// A layer of the document: a group of layers, a raster layer, a fill or a filter.
pub enum Layer {
    Group(BrushLayer<NodeLayerParameters, GroupData>),
    Pixel(BrushLayer<NodeLayerParameters, PixelData>),
    Fill(BrushLayer<FillLayerParameters, FillLayerData>),
    Filter(BrushLayer<FilterLayerParameters, FilterData>),
}

/// What a layer holds besides its identity, name, filters and children.
#[verifier::ext_equal]
#[allow(inconsistent_fields)]
pub enum LayerAttrs {
    Group { params: NodeLayerParameters, x: i32, y: i32, width: u32, height: u32 },
    Pixel {
        params: NodeLayerParameters,
        pixels: Seq<u8>,
        color_space: Seq<char>,
        x: i32,
        y: i32,
        width: u32,
        height: u32,
    },
    Fill {
        params: FillLayerParameters,
        fill_type: FillLayerType,
        color: Option<u8>,
        gradient: Option<Seq<(u32, u8)>>,
    },
    Filter { params: FilterLayerParameters },
}

/// The mathematical model of a layer: the tree of layers below it is a tree of models.
/// Only a group has children.
#[verifier::ext_equal]
pub struct LayerView {
    pub id: u128,
    pub name: Seq<char>,
    pub dirty: bool,
    pub filters: Seq<LayerView>,
    pub attrs: LayerAttrs,
    pub children: Seq<LayerView>,
}

pub open spec fn gradient_view(g: Option<Vec<(u32, u8)>>) -> Option<Seq<(u32, u8)>> {
    match g {
        Some(v) => Some(v@),
        None => None,
    }
}

/// The model of a layer.
pub open spec fn layer_view(l: Layer) -> LayerView
    decreases l,
{
    match l {
        Layer::Group(b) => LayerView {
            id: b.id,
            name: b.name@,
            dirty: b.is_dirty,
            filters: views_of(b.filters@),
            attrs: LayerAttrs::Group {
                params: b.parameters,
                x: b.data.x,
                y: b.data.y,
                width: b.data.width,
                height: b.data.height,
            },
            children: views_of(b.data.layers@),
        },
        Layer::Pixel(b) => LayerView {
            id: b.id,
            name: b.name@,
            dirty: b.is_dirty,
            filters: views_of(b.filters@),
            attrs: LayerAttrs::Pixel {
                params: b.parameters,
                pixels: b.data.pixels@,
                color_space: b.data.color_space@,
                x: b.data.x,
                y: b.data.y,
                width: b.data.width,
                height: b.data.height,
            },
            children: Seq::empty(),
        },
        Layer::Fill(b) => LayerView {
            id: b.id,
            name: b.name@,
            dirty: b.is_dirty,
            filters: views_of(b.filters@),
            attrs: LayerAttrs::Fill {
                params: b.parameters,
                fill_type: b.data.fill_type,
                color: b.data.color,
                gradient: gradient_view(b.data.gradient),
            },
            children: Seq::empty(),
        },
        Layer::Filter(b) => LayerView {
            id: b.id,
            name: b.name@,
            dirty: b.is_dirty,
            filters: views_of(b.filters@),
            attrs: LayerAttrs::Filter { params: b.parameters },
            children: Seq::empty(),
        },
    }
}

/// The models of a sequence of layers.
pub open spec fn views_of(layers: Seq<Layer>) -> Seq<LayerView>
    decreases layers,
{
    if layers.len() == 0 {
        Seq::empty()
    } else {
        seq![layer_view(layers[0])] + views_of(layers.subrange(1, layers.len() as int))
    }
}

/// The model of a sequence of layers is the sequence of their models.
pub proof fn lemma_views_of(layers: Seq<Layer>)
    ensures
        views_of(layers).len() == layers.len(),
        forall|i: int| 0 <= i < layers.len() ==> #[trigger] views_of(layers)[i] == layer_view(layers[i]),
    decreases layers.len(),
{
    if layers.len() > 0 {
        let rest = layers.subrange(1, layers.len() as int);
        lemma_views_of(rest);
        assert forall|i: int| 0 <= i < layers.len() implies #[trigger] views_of(layers)[i] == layer_view(layers[i]) by {
            if i > 0 {
                assert(rest[i - 1] == layers[i]);
            }
        }
    }
}

/// Replacing one layer replaces its model.
pub proof fn lemma_views_of_update(layers: Seq<Layer>, i: int, l: Layer)
    requires
        0 <= i < layers.len(),
    ensures
        views_of(layers.update(i, l)) == views_of(layers).update(i, layer_view(l)),
{
    lemma_views_of(layers);
    lemma_views_of(layers.update(i, l));
    assert(views_of(layers.update(i, l)) =~= views_of(layers).update(i, layer_view(l)));
}

/// Inserting a layer inserts its model.
pub proof fn lemma_views_of_insert(layers: Seq<Layer>, i: int, l: Layer)
    requires
        0 <= i <= layers.len(),
    ensures
        views_of(layers.insert(i, l)) == views_of(layers).insert(i, layer_view(l)),
{
    lemma_views_of(layers);
    lemma_views_of(layers.insert(i, l));
    assert(views_of(layers.insert(i, l)) =~= views_of(layers).insert(i, layer_view(l)));
}

/// Removing a layer removes its model.
pub proof fn lemma_views_of_remove(layers: Seq<Layer>, i: int)
    requires
        0 <= i < layers.len(),
    ensures
        views_of(layers.remove(i)) == views_of(layers).remove(i),
{
    lemma_views_of(layers);
    lemma_views_of(layers.remove(i));
    assert(views_of(layers.remove(i)) =~= views_of(layers).remove(i));
}

/// Appending a layer appends its model.
pub proof fn lemma_views_of_push(layers: Seq<Layer>, l: Layer)
    ensures
        views_of(layers.push(l)) == views_of(layers).push(layer_view(l)),
{
    lemma_views_of(layers);
    lemma_views_of(layers.push(l));
    assert(views_of(layers.push(l)) =~= views_of(layers).push(layer_view(l)));
}

impl View for Layer {
    type V = LayerView;

    open spec fn view(&self) -> LayerView {
        layer_view(*self)
    }
}

impl LayerView {
    pub open spec fn is_group(self) -> bool {
        self.attrs is Group
    }

    pub open spec fn is_pixel(self) -> bool {
        self.attrs is Pixel
    }

    pub open spec fn is_fill(self) -> bool {
        self.attrs is Fill
    }

    pub open spec fn is_filter(self) -> bool {
        self.attrs is Filter
    }

    pub open spec fn visible(self) -> bool {
        match self.attrs {
            LayerAttrs::Group { params, .. } => params.visible,
            LayerAttrs::Pixel { params, .. } => params.visible,
            LayerAttrs::Fill { params, .. } => params.visible,
            LayerAttrs::Filter { params } => params.visible,
        }
    }

    pub open spec fn lock(self) -> bool {
        match self.attrs {
            LayerAttrs::Group { params, .. } => params.lock,
            LayerAttrs::Pixel { params, .. } => params.lock,
            LayerAttrs::Fill { params, .. } => params.lock,
            LayerAttrs::Filter { params } => params.lock,
        }
    }

    pub open spec fn alpha_clip(self) -> bool {
        match self.attrs {
            LayerAttrs::Group { params, .. } => params.alpha_clip,
            LayerAttrs::Pixel { params, .. } => params.alpha_clip,
            LayerAttrs::Fill { params, .. } => params.alpha_clip,
            LayerAttrs::Filter { .. } => false,
        }
    }

    pub open spec fn alpha_lock(self) -> bool {
        match self.attrs {
            LayerAttrs::Group { params, .. } => params.alpha_lock,
            LayerAttrs::Pixel { params, .. } => params.alpha_lock,
            LayerAttrs::Fill { params, .. } => params.alpha_lock,
            LayerAttrs::Filter { .. } => false,
        }
    }

    pub open spec fn passthrough(self) -> bool {
        match self.attrs {
            LayerAttrs::Group { params, .. } => params.passthrough,
            _ => false,
        }
    }

    pub open spec fn opacity(self) -> u32 {
        match self.attrs {
            LayerAttrs::Group { params, .. } => params.opacity,
            LayerAttrs::Pixel { params, .. } => params.opacity,
            LayerAttrs::Fill { params, .. } => params.opacity,
            LayerAttrs::Filter { .. } => FULL_OPACITY,
        }
    }

    pub open spec fn blend_mode(self) -> BlendMode {
        match self.attrs {
            LayerAttrs::Group { params, .. } => params.blend_mode,
            LayerAttrs::Pixel { params, .. } => params.blend_mode,
            LayerAttrs::Fill { params, .. } => params.blend_mode,
            LayerAttrs::Filter { .. } => default_blend_mode(),
        }
    }

    pub open spec fn x(self) -> i32 {
        match self.attrs {
            LayerAttrs::Group { x, .. } => x,
            LayerAttrs::Pixel { x, .. } => x,
            _ => 0,
        }
    }

    pub open spec fn y(self) -> i32 {
        match self.attrs {
            LayerAttrs::Group { y, .. } => y,
            LayerAttrs::Pixel { y, .. } => y,
            _ => 0,
        }
    }

    pub open spec fn width(self) -> u32 {
        match self.attrs {
            LayerAttrs::Group { width, .. } => width,
            LayerAttrs::Pixel { width, .. } => width,
            _ => 0,
        }
    }

    pub open spec fn height(self) -> u32 {
        match self.attrs {
            LayerAttrs::Group { height, .. } => height,
            LayerAttrs::Pixel { height, .. } => height,
            _ => 0,
        }
    }

    /// The pixels of a raster layer.
    pub open spec fn pixels(self) -> Option<Seq<u8>> {
        match self.attrs {
            LayerAttrs::Pixel { pixels, .. } => Some(pixels),
            _ => None,
        }
    }

    pub open spec fn with_visible(self, v: bool) -> LayerView {
        LayerView {
            attrs: match self.attrs {
                LayerAttrs::Group { params, x, y, width, height } => LayerAttrs::Group {
                    params: NodeLayerParameters { visible: v, ..params },
                    x,
                    y,
                    width,
                    height,
                },
                LayerAttrs::Pixel { params, pixels, color_space, x, y, width, height } =>
                    LayerAttrs::Pixel {
                    params: NodeLayerParameters { visible: v, ..params },
                    pixels,
                    color_space,
                    x,
                    y,
                    width,
                    height,
                },
                LayerAttrs::Fill { params, fill_type, color, gradient } => LayerAttrs::Fill {
                    params: FillLayerParameters { visible: v, ..params },
                    fill_type,
                    color,
                    gradient,
                },
                LayerAttrs::Filter { params } => LayerAttrs::Filter {
                    params: FilterLayerParameters { visible: v, ..params },
                },
            },
            ..self
        }
    }

    pub open spec fn with_lock(self, v: bool) -> LayerView {
        LayerView {
            attrs: match self.attrs {
                LayerAttrs::Group { params, x, y, width, height } => LayerAttrs::Group {
                    params: NodeLayerParameters { lock: v, ..params },
                    x,
                    y,
                    width,
                    height,
                },
                LayerAttrs::Pixel { params, pixels, color_space, x, y, width, height } =>
                    LayerAttrs::Pixel {
                    params: NodeLayerParameters { lock: v, ..params },
                    pixels,
                    color_space,
                    x,
                    y,
                    width,
                    height,
                },
                LayerAttrs::Fill { params, fill_type, color, gradient } => LayerAttrs::Fill {
                    params: FillLayerParameters { lock: v, ..params },
                    fill_type,
                    color,
                    gradient,
                },
                LayerAttrs::Filter { params } => LayerAttrs::Filter {
                    params: FilterLayerParameters { lock: v, ..params },
                },
            },
            ..self
        }
    }

    /// Filters have no alpha clip: on a filter the model stays as it is.
    pub open spec fn with_alpha_clip(self, v: bool) -> LayerView {
        LayerView {
            attrs: match self.attrs {
                LayerAttrs::Group { params, x, y, width, height } => LayerAttrs::Group {
                    params: NodeLayerParameters { alpha_clip: v, ..params },
                    x,
                    y,
                    width,
                    height,
                },
                LayerAttrs::Pixel { params, pixels, color_space, x, y, width, height } =>
                    LayerAttrs::Pixel {
                    params: NodeLayerParameters { alpha_clip: v, ..params },
                    pixels,
                    color_space,
                    x,
                    y,
                    width,
                    height,
                },
                LayerAttrs::Fill { params, fill_type, color, gradient } => LayerAttrs::Fill {
                    params: FillLayerParameters { alpha_clip: v, ..params },
                    fill_type,
                    color,
                    gradient,
                },
                LayerAttrs::Filter { params } => LayerAttrs::Filter { params },
            },
            ..self
        }
    }

    /// Filters have no alpha lock: on a filter the model stays as it is.
    pub open spec fn with_alpha_lock(self, v: bool) -> LayerView {
        LayerView {
            attrs: match self.attrs {
                LayerAttrs::Group { params, x, y, width, height } => LayerAttrs::Group {
                    params: NodeLayerParameters { alpha_lock: v, ..params },
                    x,
                    y,
                    width,
                    height,
                },
                LayerAttrs::Pixel { params, pixels, color_space, x, y, width, height } =>
                    LayerAttrs::Pixel {
                    params: NodeLayerParameters { alpha_lock: v, ..params },
                    pixels,
                    color_space,
                    x,
                    y,
                    width,
                    height,
                },
                LayerAttrs::Fill { params, fill_type, color, gradient } => LayerAttrs::Fill {
                    params: FillLayerParameters { alpha_lock: v, ..params },
                    fill_type,
                    color,
                    gradient,
                },
                LayerAttrs::Filter { params } => LayerAttrs::Filter { params },
            },
            ..self
        }
    }

    /// Only groups pass their children through: on other layers the model stays as it is.
    pub open spec fn with_passthrough(self, v: bool) -> LayerView {
        LayerView {
            attrs: match self.attrs {
                LayerAttrs::Group { params, x, y, width, height } => LayerAttrs::Group {
                    params: NodeLayerParameters { passthrough: v, ..params },
                    x,
                    y,
                    width,
                    height,
                },
                other => other,
            },
            ..self
        }
    }

    /// Filters have no opacity: on a filter the model stays as it is.
    pub open spec fn with_opacity(self, v: u32) -> LayerView {
        LayerView {
            attrs: match self.attrs {
                LayerAttrs::Group { params, x, y, width, height } => LayerAttrs::Group {
                    params: NodeLayerParameters { opacity: v, ..params },
                    x,
                    y,
                    width,
                    height,
                },
                LayerAttrs::Pixel { params, pixels, color_space, x, y, width, height } =>
                    LayerAttrs::Pixel {
                    params: NodeLayerParameters { opacity: v, ..params },
                    pixels,
                    color_space,
                    x,
                    y,
                    width,
                    height,
                },
                LayerAttrs::Fill { params, fill_type, color, gradient } => LayerAttrs::Fill {
                    params: FillLayerParameters { opacity: v, ..params },
                    fill_type,
                    color,
                    gradient,
                },
                LayerAttrs::Filter { params } => LayerAttrs::Filter { params },
            },
            ..self
        }
    }

    /// Filters have no blend mode: on a filter the model stays as it is.
    pub open spec fn with_blend_mode(self, v: BlendMode) -> LayerView {
        LayerView {
            attrs: match self.attrs {
                LayerAttrs::Group { params, x, y, width, height } => LayerAttrs::Group {
                    params: NodeLayerParameters { blend_mode: v, ..params },
                    x,
                    y,
                    width,
                    height,
                },
                LayerAttrs::Pixel { params, pixels, color_space, x, y, width, height } =>
                    LayerAttrs::Pixel {
                    params: NodeLayerParameters { blend_mode: v, ..params },
                    pixels,
                    color_space,
                    x,
                    y,
                    width,
                    height,
                },
                LayerAttrs::Fill { params, fill_type, color, gradient } => LayerAttrs::Fill {
                    params: FillLayerParameters { blend_mode: v, ..params },
                    fill_type,
                    color,
                    gradient,
                },
                LayerAttrs::Filter { params } => LayerAttrs::Filter { params },
            },
            ..self
        }
    }

    pub open spec fn with_dirty(self, v: bool) -> LayerView {
        LayerView { dirty: v, ..self }
    }

    pub open spec fn with_name(self, name: Seq<char>) -> LayerView {
        LayerView { name, ..self }
    }

    /// A raster layer with other pixels; other layers stay as they are.
    pub open spec fn with_pixels(self, pixels: Seq<u8>) -> LayerView {
        LayerView {
            attrs: match self.attrs {
                LayerAttrs::Pixel { params, color_space, x, y, width, height, .. } =>
                    LayerAttrs::Pixel { params, pixels, color_space, x, y, width, height },
                other => other,
            },
            ..self
        }
    }

    /// A raster layer with another size; other layers stay as they are.
    pub open spec fn with_pixel_size(self, w: u32, h: u32, pixels: Seq<u8>) -> LayerView {
        LayerView {
            attrs: match self.attrs {
                LayerAttrs::Pixel { params, color_space, x, y, .. } => LayerAttrs::Pixel {
                    params,
                    pixels,
                    color_space,
                    x,
                    y,
                    width: w,
                    height: h,
                },
                other => other,
            },
            ..self
        }
    }

    /// A group with the given bounds; other layers stay as they are.
    pub open spec fn with_bounds(self, x: i32, y: i32, width: u32, height: u32) -> LayerView {
        LayerView {
            attrs: match self.attrs {
                LayerAttrs::Group { params, .. } => LayerAttrs::Group { params, x, y, width, height },
                other => other,
            },
            ..self
        }
    }

    pub open spec fn with_children(self, children: Seq<LayerView>) -> LayerView {
        LayerView { children, ..self }
    }

    pub open spec fn with_filters(self, filters: Seq<LayerView>) -> LayerView {
        LayerView { filters, ..self }
    }
}


impl LayerView {
    /// A group with its rectangle recomputed from its children; other layers stay as they are.
    pub open spec fn regrouped(self) -> LayerView {
        if self.is_group() {
            let (x, y, w, h) = group_bounds(self.children);
            self.with_bounds(x, y, w, h)
        } else {
            self
        }
    }
}

/// The first position in `layers` of a layer with identifier `id`.
pub open spec fn first_index_of(layers: Seq<LayerView>, id: u128) -> Option<int>
    decreases layers.len(),
{
    if layers.len() == 0 {
        None
    } else if layers[0].id == id {
        Some(0)
    } else {
        match first_index_of(layers.subrange(1, layers.len() as int), id) {
            Some(i) => Some(i + 1),
            None => None,
        }
    }
}

/// Where `first_index_of` finds something, it is the first layer with that identifier.
pub proof fn lemma_first_index_of(layers: Seq<LayerView>, id: u128)
    ensures
        match first_index_of(layers, id) {
            Some(i) => 0 <= i < layers.len() && layers[i].id == id && forall|j: int|
                0 <= j < i ==> #[trigger] layers[j].id != id,
            None => forall|j: int| 0 <= j < layers.len() ==> #[trigger] layers[j].id != id,
        },
    decreases layers.len(),
{
    if layers.len() > 0 {
        let rest = layers.subrange(1, layers.len() as int);
        lemma_first_index_of(rest, id);
        if layers[0].id != id {
            match first_index_of(rest, id) {
                Some(i) => {
                    assert forall|j: int| 0 <= j < i + 1 implies #[trigger] layers[j].id != id by {
                        if j > 0 {
                            assert(layers[j] == rest[j - 1]);
                        }
                    }
                },
                None => {
                    assert forall|j: int| 0 <= j < layers.len() implies #[trigger] layers[j].id != id by {
                        if j > 0 {
                            assert(layers[j] == rest[j - 1]);
                        }
                    }
                },
            }
        }
    }
}

/// The first position in `layers` of a layer with identifier `id`.
pub fn position_of(layers: &Vec<Layer>, id: u128) -> (r: Option<usize>)
    ensures
        match r {
            Some(i) => first_index_of(views_of(layers@), id) == Some(i as int) && i < layers@.len(),
            None => first_index_of(views_of(layers@), id) is None,
        },
{
    proof {
        lemma_views_of(layers@);
        lemma_first_index_of(views_of(layers@), id);
    }
    let n = layers.len();
    let mut i: usize = 0;
    while i < n
        invariant
            n == layers@.len(),
            views_of(layers@).len() == n,
            forall|j: int| 0 <= j < n ==> #[trigger] views_of(layers@)[j] == layers@[j]@,
            0 <= i <= n,
            forall|j: int| 0 <= j < i ==> #[trigger] views_of(layers@)[j].id != id,
            match first_index_of(views_of(layers@), id) {
                Some(k) => 0 <= k < n && views_of(layers@)[k].id == id && forall|j: int|
                    0 <= j < k ==> #[trigger] views_of(layers@)[j].id != id,
                None => forall|j: int| 0 <= j < n ==> #[trigger] views_of(layers@)[j].id != id,
            },
        decreases n - i,
    {
        if layers[i].id() == id {
            proof {
                assert(views_of(layers@)[i as int].id == id);
                match first_index_of(views_of(layers@), id) {
                    Some(k) => {
                        if k < i {
                            assert(views_of(layers@)[k].id != id);
                        }
                        if k > i {
                            assert(views_of(layers@)[i as int].id != id);
                        }
                    },
                    None => {
                        assert(views_of(layers@)[i as int].id != id);
                    },
                }
            }
            return Some(i);
        }
        i = i + 1;
    }
    None
}

/// Drops the first layer with identifier `id` from `layers`, if there is one.
pub fn remove_first_with_id(layers: &mut Vec<Layer>, id: u128)
    ensures
        views_of(final(layers)@) == (match first_index_of(views_of(old(layers)@), id) {
            Some(i) => views_of(old(layers)@).remove(i),
            None => views_of(old(layers)@),
        }),
        first_index_of(views_of(old(layers)@), id) is None ==> *final(layers) == *old(layers),
{
    proof {
        lemma_first_index_of(views_of(layers@), id);
        lemma_views_of(layers@);
    }
    let ghost before = layers@;
    let found = position_of(layers, id);
    match found {
        Some(idx) => {
            assert(first_index_of(views_of(before), id) == Some(idx as int));
            proof {
                lemma_views_of_remove(layers@, idx as int);
            }
            layers.remove(idx);
            assert(layers@ == before.remove(idx as int));
            assert(views_of(layers@) == views_of(before).remove(idx as int));
        },
        None => {},
    }
}

/// The model of a layer that a group drops from its children or filters.
impl LayerView {
    /// The layer without the first filter (where `is_filter`) or the first child (where
    /// not) with identifier `id`. A group's rectangle is recomputed after a child goes.
    pub open spec fn without_child_id(self, id: u128, is_filter: bool) -> LayerView {
        if is_filter {
            match first_index_of(self.filters, id) {
                Some(i) => self.with_filters(self.filters.remove(i)),
                None => self,
            }
        } else if self.is_group() {
            match first_index_of(self.children, id) {
                Some(i) => self.with_children(self.children.remove(i)).regrouped(),
                None => self,
            }
        } else {
            self
        }
    }

    pub open spec fn without_child(self, child: LayerView) -> LayerView {
        self.without_child_id(child.id, child.is_filter())
    }
}

/// A buffer of `n` zero bytes.
pub fn zero_bytes(n: usize) -> (r: Vec<u8>)
    ensures
        r@ == Seq::new(n as nat, |i: int| 0u8),
{
    let mut v: Vec<u8> = Vec::with_capacity(n);
    let mut i: usize = 0;
    while i < n
        invariant
            0 <= i <= n,
            v@ == Seq::new(i as nat, |k: int| 0u8),
        decreases n - i,
    {
        v.push(0u8);
        i = i + 1;
        proof {
            assert(v@ =~= Seq::new(i as nat, |k: int| 0u8));
        }
    }
    v
}

/// A copy of a byte buffer.
pub fn copy_bytes(src: &Vec<u8>) -> (r: Vec<u8>)
    ensures
        r@ == src@,
{
    let mut v: Vec<u8> = Vec::with_capacity(src.len());
    let mut i: usize = 0;
    while i < src.len()
        invariant
            0 <= i <= src@.len(),
            v@ == src@.take(i as int),
        decreases src@.len() - i,
    {
        v.push(src[i]);
        i = i + 1;
        proof {
            assert(v@ =~= src@.take(i as int));
        }
    }
    proof {
        assert(src@.take(src@.len() as int) =~= src@);
    }
    v
}

fn copy_gradient(g: &Option<Vec<(u32, u8)>>) -> (r: Option<Vec<(u32, u8)>>)
    ensures
        gradient_view(r) == gradient_view(*g),
{
    match g {
        None => None,
        Some(src) => {
            let mut v: Vec<(u32, u8)> = Vec::with_capacity(src.len());
            let mut i: usize = 0;
            while i < src.len()
                invariant
                    0 <= i <= src@.len(),
                    v@ == src@.take(i as int),
                decreases src@.len() - i,
            {
                v.push(src[i]);
                i = i + 1;
                proof {
                    assert(v@ =~= src@.take(i as int));
                }
            }
            proof {
                assert(src@.take(src@.len() as int) =~= src@);
            }
            Some(v)
        },
    }
}

/// A copy of a sequence of layers, each copied in full.
pub fn duplicate_layers(layers: &Vec<Layer>) -> (r: Vec<Layer>)
    ensures
        views_of(r@) == views_of(layers@),
    decreases layers,
{
    proof {
        lemma_views_of(layers@);
    }
    let mut v: Vec<Layer> = Vec::with_capacity(layers.len());
    let mut i: usize = 0;
    while i < layers.len()
        invariant
            0 <= i <= layers@.len(),
            views_of(layers@).len() == layers@.len(),
            forall|j: int| 0 <= j < layers@.len() ==> #[trigger] views_of(layers@)[j] == layers@[j]@,
            views_of(v@) == views_of(layers@).take(i as int),
        decreases layers@.len() - i,
    {
        let l = layers[i].duplicate();
        proof {
            lemma_views_of_push(v@, l);
        }
        v.push(l);
        i = i + 1;
        proof {
            assert(views_of(v@) =~= views_of(layers@).take(i as int));
        }
    }
    proof {
        assert(views_of(layers@).take(layers@.len() as int) =~= views_of(layers@));
    }
    v
}

/// The model of a new raster layer: transparent, `width` by `height` pixels at the origin,
/// in the OkLab colour space, with the default switches, marked for redrawing.
pub open spec fn new_pixel_view(id: u128, name: Seq<char>, width: u32, height: u32) -> LayerView {
    LayerView {
        id,
        name,
        dirty: true,
        filters: Seq::empty(),
        attrs: LayerAttrs::Pixel {
            params: default_node_parameters(),
            pixels: Seq::new(pixel_buffer_len(width, height) as nat, |i: int| 0u8),
            color_space: "OkLab"@,
            x: 0,
            y: 0,
            width,
            height,
        },
        children: Seq::empty(),
    }
}

/// The model of a new, empty group at the origin with the default switches, marked for
/// redrawing.
pub open spec fn new_group_view(id: u128, name: Seq<char>) -> LayerView {
    LayerView {
        id,
        name,
        dirty: true,
        filters: Seq::empty(),
        attrs: LayerAttrs::Group { params: default_node_parameters(), x: 0, y: 0, width: 0, height: 0 },
        children: Seq::empty(),
    }
}

impl Layer {
    /// A copy of the layer and of every layer below it.
    pub fn duplicate(&self) -> (r: Layer)
        ensures
            r@ == self@,
        decreases self,
    {
        match self {
            Layer::Group(b) => Layer::Group(
                BrushLayer {
                    id: b.id,
                    name: b.name.clone(),
                    filters: duplicate_layers(&b.filters),
                    parameters: b.parameters,
                    data: GroupData {
                        layers: duplicate_layers(&b.data.layers),
                        x: b.data.x,
                        y: b.data.y,
                        width: b.data.width,
                        height: b.data.height,
                    },
                    is_dirty: b.is_dirty,
                },
            ),
            Layer::Pixel(b) => Layer::Pixel(
                BrushLayer {
                    id: b.id,
                    name: b.name.clone(),
                    filters: duplicate_layers(&b.filters),
                    parameters: b.parameters,
                    data: PixelData {
                        pixels: copy_bytes(&b.data.pixels),
                        color_space: b.data.color_space.clone(),
                        x: b.data.x,
                        y: b.data.y,
                        width: b.data.width,
                        height: b.data.height,
                    },
                    is_dirty: b.is_dirty,
                },
            ),
            Layer::Fill(b) => Layer::Fill(
                BrushLayer {
                    id: b.id,
                    name: b.name.clone(),
                    filters: duplicate_layers(&b.filters),
                    parameters: b.parameters,
                    data: FillLayerData {
                        fill_type: b.data.fill_type,
                        color: b.data.color,
                        gradient: copy_gradient(&b.data.gradient),
                    },
                    is_dirty: b.is_dirty,
                },
            ),
            Layer::Filter(b) => Layer::Filter(
                BrushLayer {
                    id: b.id,
                    name: b.name.clone(),
                    filters: duplicate_layers(&b.filters),
                    parameters: b.parameters,
                    data: FilterData {},
                    is_dirty: b.is_dirty,
                },
            ),
        }
    }

    /// A new, transparent raster layer of `width` by `height` pixels at the origin, in the
    /// OkLab colour space.
    pub fn new_pixel(name: String, width: u32, height: u32) -> (r: Self)
        requires
            pixel_buffer_len(width, height) <= u32::MAX,
        ensures
            uuid_version(r@.id) == 4,
            uuid_variant(r@.id) == 2,
            r@ == new_pixel_view(r@.id, name@, width, height),
    {
        assert(width * height <= u32::MAX) by (nonlinear_arith)
            requires width as int * height as int * 4 <= u32::MAX;
        let pixels = zero_bytes((width * height * 4) as usize);
        let params = NodeLayerParameters::default();
        let data = PixelData::new(pixels, "OkLab".to_owned(), width, height);
        let r = Layer::Pixel(BrushLayer::new(name, params, data));
        proof {
            assert(views_of(Seq::<Layer>::empty()) =~= Seq::<LayerView>::empty());
        }
        r
    }

    /// A new, empty group layer.
    pub fn new_group(name: String) -> (r: Self)
        ensures
            uuid_version(r@.id) == 4,
            uuid_variant(r@.id) == 2,
            r@ == new_group_view(r@.id, name@),
    {
        let params = NodeLayerParameters::default();
        let data = GroupData::new();
        let r = Layer::Group(BrushLayer::new(name, params, data));
        proof {
            assert(views_of(Seq::<Layer>::empty()) =~= Seq::<LayerView>::empty());
        }
        r
    }

    /// Puts `layer` among a group's children at position `index` and recomputes the
    /// group's rectangle. On any other layer, nothing happens.
    pub fn append(&mut self, index: usize, layer: Layer)
        requires
            old(self)@.is_group() ==> index <= old(self)@.children.len(),
        ensures
            final(self)@ == (if old(self)@.is_group() {
                old(self)@.with_children(old(self)@.children.insert(index as int, layer@)).regrouped()
            } else {
                old(self)@
            }),
    {
        match self {
            Layer::Group(inner) => {
                proof {
                    lemma_views_of(inner.data.layers@);
                    lemma_views_of_insert(inner.data.layers@, index as int, layer);
                }
                inner.data.layers.insert(index, layer);
                inner.data.calculate_group_bounds();
            },
            _ => {},
        }
    }

    pub fn id(&self) -> (r: u128)
        ensures
            r == self@.id,
    {
        match self {
            Layer::Pixel(inner) => inner.id,
            Layer::Group(inner) => inner.id,
            Layer::Fill(inner) => inner.id,
            Layer::Filter(inner) => inner.id,
        }
    }

    pub fn visible(&self) -> (r: bool)
        ensures
            r == self@.visible(),
    {
        match self {
            Layer::Pixel(inner) => inner.parameters.is_visible(),
            Layer::Group(inner) => inner.parameters.is_visible(),
            Layer::Fill(inner) => inner.parameters.is_visible(),
            Layer::Filter(inner) => inner.parameters.is_visible(),
        }
    }

    pub fn set_visible(&mut self, visible: bool)
        ensures
            final(self)@ == old(self)@.with_visible(visible),
    {
        match self {
            Layer::Pixel(inner) => inner.parameters.set_visible(visible),
            Layer::Group(inner) => inner.parameters.set_visible(visible),
            Layer::Fill(inner) => inner.parameters.set_visible(visible),
            Layer::Filter(inner) => inner.parameters.set_visible(visible),
        }
    }

    pub fn lock(&self) -> (r: bool)
        ensures
            r == self@.lock(),
    {
        match self {
            Layer::Pixel(inner) => inner.parameters.is_lock(),
            Layer::Group(inner) => inner.parameters.is_lock(),
            Layer::Fill(inner) => inner.parameters.is_lock(),
            Layer::Filter(inner) => inner.parameters.is_lock(),
        }
    }

    pub fn set_lock(&mut self, lock: bool)
        ensures
            final(self)@ == old(self)@.with_lock(lock),
    {
        match self {
            Layer::Pixel(inner) => inner.parameters.set_lock(lock),
            Layer::Group(inner) => inner.parameters.set_lock(lock),
            Layer::Fill(inner) => inner.parameters.set_lock(lock),
            Layer::Filter(inner) => inner.parameters.set_lock(lock),
        }
    }

    pub fn alpha_clip(&self) -> (r: bool)
        ensures
            r == self@.alpha_clip(),
    {
        match self {
            Layer::Pixel(inner) => inner.parameters.alpha_clip,
            Layer::Group(inner) => inner.parameters.alpha_clip,
            Layer::Fill(inner) => inner.parameters.alpha_clip,
            Layer::Filter(_) => false,
        }
    }

    pub fn set_alpha_clip(&mut self, lock: bool)
        ensures
            final(self)@ == old(self)@.with_alpha_clip(lock),
    {
        match self {
            Layer::Pixel(inner) => inner.parameters.alpha_clip = lock,
            Layer::Group(inner) => inner.parameters.alpha_clip = lock,
            Layer::Fill(inner) => inner.parameters.alpha_clip = lock,
            Layer::Filter(_) => {},
        }
    }

    pub fn alpha_lock(&self) -> (r: bool)
        ensures
            r == self@.alpha_lock(),
    {
        match self {
            Layer::Pixel(inner) => inner.parameters.alpha_lock,
            Layer::Group(inner) => inner.parameters.alpha_lock,
            Layer::Fill(inner) => inner.parameters.alpha_lock,
            Layer::Filter(_) => false,
        }
    }

    pub fn set_alpha_lock(&mut self, lock: bool)
        ensures
            final(self)@ == old(self)@.with_alpha_lock(lock),
    {
        match self {
            Layer::Pixel(inner) => inner.parameters.alpha_lock = lock,
            Layer::Group(inner) => inner.parameters.alpha_lock = lock,
            Layer::Fill(inner) => inner.parameters.alpha_lock = lock,
            Layer::Filter(_) => {},
        }
    }

    pub fn passthrough(&self) -> (r: bool)
        ensures
            r == self@.passthrough(),
    {
        if let Layer::Group(inner) = self {
            return inner.parameters.passthrough;
        }
        false
    }

    pub fn set_passthrough(&mut self, passthrough: bool)
        ensures
            final(self)@ == old(self)@.with_passthrough(passthrough),
    {
        if let Layer::Group(inner) = self {
            inner.parameters.passthrough = passthrough;
        }
    }

    /// The opacity, as the bit pattern of an IEEE-754 single.
    pub fn opacity(&self) -> (r: u32)
        ensures
            r == self@.opacity(),
    {
        match self {
            Layer::Pixel(inner) => inner.parameters.opacity,
            Layer::Group(inner) => inner.parameters.opacity,
            Layer::Fill(inner) => inner.parameters.opacity,
            _ => FULL_OPACITY,
        }
    }

    /// Sets the opacity, given as the bit pattern of an IEEE-754 single.
    pub fn set_opacity(&mut self, opacity: u32)
        ensures
            final(self)@ == old(self)@.with_opacity(opacity),
    {
        match self {
            Layer::Pixel(inner) => inner.parameters.opacity = opacity,
            Layer::Group(inner) => inner.parameters.opacity = opacity,
            Layer::Fill(inner) => inner.parameters.opacity = opacity,
            _ => {},
        }
    }

    pub fn blend_mode(&self) -> (r: BlendMode)
        ensures
            r == self@.blend_mode(),
    {
        match self {
            Layer::Pixel(inner) => inner.parameters.blend_mode,
            Layer::Group(inner) => inner.parameters.blend_mode,
            Layer::Fill(inner) => inner.parameters.blend_mode,
            _ => BlendMode::default(),
        }
    }

    pub fn set_blend_mode(&mut self, blend_mode: BlendMode)
        ensures
            final(self)@ == old(self)@.with_blend_mode(blend_mode),
    {
        match self {
            Layer::Pixel(inner) => inner.parameters.blend_mode = blend_mode,
            Layer::Group(inner) => inner.parameters.blend_mode = blend_mode,
            Layer::Fill(inner) => inner.parameters.blend_mode = blend_mode,
            _ => {},
        }
    }

    pub fn width(&self) -> (r: u32)
        ensures
            r == self@.width(),
    {
        match self {
            Layer::Pixel(inner) => inner.data.width,
            Layer::Group(inner) => inner.data.width,
            _ => 0,
        }
    }

    pub fn height(&self) -> (r: u32)
        ensures
            r == self@.height(),
    {
        match self {
            Layer::Pixel(inner) => inner.data.height,
            Layer::Group(inner) => inner.data.height,
            _ => 0,
        }
    }

    pub fn x(&self) -> (r: i32)
        ensures
            r == self@.x(),
    {
        match self {
            Layer::Pixel(inner) => inner.data.x,
            Layer::Group(inner) => inner.data.x,
            _ => 0,
        }
    }

    pub fn y(&self) -> (r: i32)
        ensures
            r == self@.y(),
    {
        match self {
            Layer::Pixel(inner) => inner.data.y,
            Layer::Group(inner) => inner.data.y,
            _ => 0,
        }
    }

    pub fn is_dirty(&self) -> (r: bool)
        ensures
            r == self@.dirty,
    {
        match self {
            Layer::Pixel(inner) => inner.is_dirty,
            Layer::Group(inner) => inner.is_dirty,
            Layer::Fill(inner) => inner.is_dirty,
            Layer::Filter(inner) => inner.is_dirty,
        }
    }

    pub fn set_dirty(&mut self, flag: bool)
        ensures
            final(self)@ == old(self)@.with_dirty(flag),
    {
        match self {
            Layer::Pixel(inner) => inner.is_dirty = flag,
            Layer::Group(inner) => inner.is_dirty = flag,
            Layer::Fill(inner) => inner.is_dirty = flag,
            Layer::Filter(inner) => inner.is_dirty = flag,
        }
    }

    /// The pixels of a raster layer.
    pub fn pixel_data(&self) -> (r: Option<&Vec<u8>>)
        ensures
            match r {
                Some(v) => self@.pixels() == Some(v@),
                None => self@.pixels() is None,
            },
    {
        if let Layer::Pixel(inner) = self {
            return Some(&inner.data.pixels);
        }
        None
    }

    /// The pixels of a raster layer, to change in place.
    pub fn pixel_data_mut(&mut self) -> (r: Option<&mut Vec<u8>>)
        ensures
            match r {
                Some(v) => old(self)@.pixels() == Some(v@) && final(self)@ == old(self)@.with_pixels(
                    final(v)@,
                ),
                None => old(self)@.pixels() is None && final(self)@ == old(self)@,
            },
    {
        match self {
            Layer::Pixel(inner) => Some(&mut inner.data.pixels),
            _ => None,
        }
    }

    /// The children of a group layer.
    pub fn children(&self) -> (r: Option<&Vec<Layer>>)
        ensures
            match r {
                Some(v) => self@.is_group() && views_of(v@) == self@.children,
                None => !self@.is_group(),
            },
            match *self {
                Layer::Group(b) => r == Some(&b.data.layers),
                _ => r is None,
            },
    {
        if let Layer::Group(inner) = self {
            return Some(&inner.data.layers);
        }
        None
    }

    /// The children of a group layer, to change in place. The group's rectangle is not
    /// recomputed.
    pub fn children_mut(&mut self) -> (r: Option<&mut Vec<Layer>>)
        ensures
            match r {
                Some(v) => old(self)@.is_group() && views_of(v@) == old(self)@.children
                    && final(self)@ == old(self)@.with_children(views_of(final(v)@)),
                None => !old(self)@.is_group() && final(self)@ == old(self)@,
            },
            match *old(self) {
                Layer::Group(b) => r matches Some(v) && *v == b.data.layers,
                _ => r is None,
            },
    {
        match self {
            Layer::Group(inner) => Some(&mut inner.data.layers),
            _ => None,
        }
    }

    /// Whether this is a filter layer.
    pub fn is_filter(&self) -> (r: bool)
        ensures
            r == self@.is_filter(),
    {
        match self {
            Layer::Filter(_) => true,
            _ => false,
        }
    }

    /// Drops `child` from this layer: a filter from the filters, any other layer from a
    /// group's children (the group's rectangle is then recomputed). Only the first layer
    /// with the child's identifier goes.
    pub fn remove_child(&mut self, child: &Layer)
        requires
            !(child@.is_filter() && old(self)@.is_filter()),
        ensures
            final(self)@ == old(self)@.without_child(child@),
    {
        let cid = child.id();
        let is_filter = child.is_filter();
        self.remove_child_with_id(cid, is_filter);
    }

    /// Drops from this layer the first filter (where `is_filter`) or the first child of a
    /// group (where not) with identifier `id`.
    pub fn remove_child_with_id(&mut self, id: u128, is_filter: bool)
        requires
            !(is_filter && old(self)@.is_filter()),
        ensures
            final(self)@ == old(self)@.without_child_id(id, is_filter),
    {
        let ghost o = self@;
        if is_filter {
            match self {
                Layer::Pixel(inner) => remove_first_with_id(&mut inner.filters, id),
                Layer::Group(inner) => remove_first_with_id(&mut inner.filters, id),
                Layer::Fill(inner) => remove_first_with_id(&mut inner.filters, id),
                Layer::Filter(_) => {},
            }
        } else {
            if let Layer::Group(inner) = self {
                inner.data.remove_layer_with_id(id);
            }
        }
        proof {
            lemma_first_index_of(o.children, id);
            lemma_first_index_of(o.filters, id);
            if is_filter {
                match first_index_of(o.filters, id) {
                    Some(i) => assert(self@ =~= o.with_filters(o.filters.remove(i))),
                    None => assert(self@ =~= o),
                }
            } else if o.is_group() {
                match first_index_of(o.children, id) {
                    Some(i) => assert(self@ =~= o.with_children(o.children.remove(i)).regrouped()),
                    None => assert(self@ =~= o),
                }
            } else {
                assert(self@ =~= o);
            }
        }
    }

    pub fn name(&self) -> (r: &str)
        ensures
            r@ == self@.name,
    {
        match self {
            Layer::Pixel(inner) => inner.name.as_str(),
            Layer::Group(inner) => inner.name.as_str(),
            Layer::Fill(inner) => inner.name.as_str(),
            Layer::Filter(inner) => inner.name.as_str(),
        }
    }

    /// The name, to change in place.
    pub fn name_mut(&mut self) -> (r: &mut String)
        ensures
            r@ == old(self)@.name,
            final(self)@ == old(self)@.with_name(final(r)@),
    {
        match self {
            Layer::Pixel(inner) => &mut inner.name,
            Layer::Group(inner) => &mut inner.name,
            Layer::Fill(inner) => &mut inner.name,
            Layer::Filter(inner) => &mut inner.name,
        }
    }

    /// Gives a raster layer a new size; its pixel buffer keeps what fits and is zero
    /// elsewhere. Other layers stay as they are.
    pub fn resize(&mut self, new_width: u32, new_height: u32)
        requires
            old(self)@.is_pixel() ==> pixel_buffer_len(new_width, new_height) <= u32::MAX,
        ensures
            final(self)@ == (match old(self)@.pixels() {
                Some(p) => old(self)@.with_pixel_size(
                    new_width,
                    new_height,
                    resized_bytes(p, pixel_buffer_len(new_width, new_height)),
                ),
                None => old(self)@,
            }),
    {
        if let Layer::Pixel(inner) = self {
            inner.data.width = new_width;
            inner.data.height = new_height;
            inner.data.resize(new_width, new_height);
            proof {
                assert(inner.data.pixels@ =~= resized_bytes(
                    old(self)@.pixels().unwrap(),
                    pixel_buffer_len(new_width, new_height),
                ));
            }
        }
    }

    /// Recomputes a group's rectangle from its children; other layers stay as they are.
    pub fn resize_group(&mut self)
        ensures
            final(self)@ == old(self)@.regrouped(),
    {
        if let Layer::Group(inner) = self {
            inner.data.calculate_group_bounds();
        }
    }
}

/// `bytes` cut or padded with zeros to length `n`.
pub open spec fn resized_bytes(bytes: Seq<u8>, n: int) -> Seq<u8> {
    Seq::new(n as nat, |i: int| if i < bytes.len() { bytes[i] } else { 0u8 })
}

} // verus!
