use brush::data::blend_modes::BlendMode;
use brush::data::layer::{
    copy_bytes, duplicate_layers, position_of, remove_first_with_id, zero_bytes, BrushLayer,
    FilterLayerParameters, Layer, NodeLayerParameters, FULL_OPACITY,
};
use brush::data::layer_types::filter::FilterData;
use brush::data::layer_types::group::GroupData;
use brush::data::layer_types::pixel::PixelData;

fn pixel(id: u128, x: i32, y: i32, w: u32, h: u32) -> Layer {
    Layer::Pixel(BrushLayer {
        id,
        name: format!("p{}", id),
        filters: Vec::new(),
        parameters: NodeLayerParameters::default(),
        data: PixelData {
            pixels: vec![0u8; (w * h * 4) as usize],
            color_space: "OkLab".to_owned(),
            x,
            y,
            width: w,
            height: h,
        },
        is_dirty: false,
    })
}

fn group(id: u128, children: Vec<Layer>) -> Layer {
    let mut data = GroupData::new();
    data.layers = children;
    data.calculate_group_bounds();
    Layer::Group(BrushLayer {
        id,
        name: format!("g{}", id),
        filters: Vec::new(),
        parameters: NodeLayerParameters::default(),
        data,
        is_dirty: false,
    })
}

fn filter(id: u128) -> Layer {
    Layer::Filter(BrushLayer {
        id,
        name: format!("f{}", id),
        filters: Vec::new(),
        parameters: FilterLayerParameters { visible: true, lock: false },
        data: FilterData {},
        is_dirty: false,
    })
}

fn ids(layers: &Vec<Layer>) -> Vec<u128> {
    layers.iter().map(|l| l.id()).collect()
}

#[test]
fn new_pixel_layer_is_transparent_and_opaque() {
    let l = Layer::new_pixel("Layer".to_owned(), 3, 2);
    assert_eq!(l.name(), "Layer");
    assert_eq!(l.width(), 3);
    assert_eq!(l.height(), 2);
    assert_eq!(l.x(), 0);
    assert_eq!(l.y(), 0);
    let p = l.pixel_data().unwrap();
    assert_eq!(p.len(), 24);
    assert!(p.iter().all(|b| *b == 0));
    assert!(l.visible());
    assert!(!l.lock());
    assert!(!l.alpha_clip());
    assert!(!l.alpha_lock());
    assert!(!l.passthrough());
    assert_eq!(l.opacity(), FULL_OPACITY);
    assert_eq!(f32::from_bits(l.opacity()), 1.0f32);
    assert_eq!(l.blend_mode(), BlendMode::Normal);
    assert!(l.is_dirty());
    assert!(l.children().is_none());
    assert!(!l.is_filter());
    match &l {
        Layer::Pixel(b) => assert_eq!(b.data.color_space, "OkLab"),
        _ => panic!("not a raster layer"),
    }
}

#[test]
fn new_group_is_empty_at_origin() {
    let g = Layer::new_group("Group".to_owned());
    assert_eq!(g.name(), "Group");
    assert_eq!(g.children().unwrap().len(), 0);
    assert_eq!((g.x(), g.y(), g.width(), g.height()), (0, 0, 0, 0));
    assert!(g.pixel_data().is_none());
    assert!(g.is_dirty());
    assert!(g.visible());
}

#[test]
fn new_layers_get_fresh_version_four_ids() {
    let a = Layer::new_group("a".to_owned());
    let b = Layer::new_group("b".to_owned());
    assert_ne!(a.id(), b.id());
    for id in [a.id(), b.id()] {
        assert_eq!((id >> 76) & 0xf, 4);
        assert_eq!((id >> 62) & 0x3, 2);
    }
}

#[test]
fn setters_change_one_switch_each() {
    let mut l = pixel(1, 0, 0, 1, 1);
    l.set_lock(true);
    assert!(l.lock());
    assert!(l.visible());
    l.set_visible(false);
    assert!(!l.visible());
    assert!(l.lock());
    l.set_alpha_clip(true);
    assert!(l.alpha_clip());
    l.set_alpha_lock(true);
    assert!(l.alpha_lock());
    l.set_opacity(0.5f32.to_bits());
    assert_eq!(f32::from_bits(l.opacity()), 0.5f32);
    l.set_blend_mode(BlendMode::HardLight);
    assert_eq!(l.blend_mode(), BlendMode::HardLight);
    l.set_dirty(true);
    assert!(l.is_dirty());
    l.set_passthrough(true);
    assert!(!l.passthrough());
}

#[test]
fn filter_layers_have_only_visibility_and_lock() {
    let mut f = filter(9);
    assert!(f.is_filter());
    f.set_alpha_clip(true);
    f.set_alpha_lock(true);
    f.set_opacity(0.25f32.to_bits());
    f.set_blend_mode(BlendMode::SoftLight);
    assert!(!f.alpha_clip());
    assert!(!f.alpha_lock());
    assert_eq!(f.opacity(), FULL_OPACITY);
    assert_eq!(f.blend_mode(), BlendMode::Normal);
    f.set_visible(false);
    f.set_lock(true);
    assert!(!f.visible());
    assert!(f.lock());
    assert_eq!((f.width(), f.height(), f.x(), f.y()), (0, 0, 0, 0));
}

#[test]
fn passthrough_is_a_group_switch() {
    let mut g = group(2, Vec::new());
    g.set_passthrough(true);
    assert!(g.passthrough());
    g.set_passthrough(false);
    assert!(!g.passthrough());
}

#[test]
fn toggling_visibility_twice_restores_the_switches() {
    let data = PixelData::new(vec![0u8; 4], "OkLab".to_owned(), 1, 1);
    let mut b = BrushLayer::new("a".to_owned(), NodeLayerParameters::default(), data);
    let before = b.parameters;
    b.toggle_visibility();
    assert!(!b.parameters.visible);
    assert_eq!(b.name, "a");
    b.toggle_visibility();
    assert_eq!(b.parameters, before);
    assert!(b.is_dirty);
    assert!(b.filters.is_empty());
}

#[test]
fn duplicate_copies_the_whole_tree() {
    let mut p = pixel(3, 1, 2, 1, 1);
    if let Some(px) = p.pixel_data_mut() {
        px[0] = 7;
    }
    let g = group(2, vec![p, pixel(4, 0, 0, 2, 2)]);
    let d = g.duplicate();
    assert_eq!(d.id(), 2);
    assert_eq!(d.name(), "g2");
    assert_eq!(ids(d.children().unwrap()), vec![3, 4]);
    assert_eq!(d.children().unwrap()[0].pixel_data().unwrap()[0], 7);
    assert_eq!((d.x(), d.y(), d.width(), d.height()), (g.x(), g.y(), g.width(), g.height()));
}

#[test]
fn append_into_group_recomputes_its_rectangle() {
    let mut g = group(10, Vec::new());
    g.append(0, pixel(1, 5, 7, 10, 20));
    assert_eq!((g.x(), g.y(), g.width(), g.height()), (5, 7, 10, 20));
    g.append(1, pixel(2, -5, 0, 5, 5));
    assert_eq!((g.x(), g.y(), g.width(), g.height()), (-5, 0, 20, 27));
    assert_eq!(ids(g.children().unwrap()), vec![1, 2]);
    g.append(0, pixel(3, 0, 0, 1, 1));
    assert_eq!(ids(g.children().unwrap()), vec![3, 1, 2]);
}

#[test]
fn group_rectangle_ignores_hidden_children() {
    let mut hidden = pixel(1, -100, -100, 10, 10);
    hidden.set_visible(false);
    let g = group(2, vec![hidden, pixel(3, 4, 6, 2, 3)]);
    assert_eq!((g.x(), g.y(), g.width(), g.height()), (4, 6, 2, 3));
    let mut only_hidden = pixel(4, 4, 6, 2, 3);
    only_hidden.set_visible(false);
    let g2 = group(5, vec![only_hidden]);
    assert_eq!((g2.x(), g2.y(), g2.width(), g2.height()), (0, 0, 0, 0));
}

#[test]
fn append_into_a_raster_layer_does_nothing() {
    let mut p = pixel(1, 0, 0, 1, 1);
    p.append(0, pixel(2, 0, 0, 1, 1));
    assert!(p.children().is_none());
    assert_eq!(p.width(), 1);
}

#[test]
fn removing_a_child_by_id_recomputes_the_rectangle() {
    let mut g = group(1, vec![pixel(2, 0, 0, 10, 10), pixel(3, 20, 20, 5, 5)]);
    assert_eq!((g.x(), g.y(), g.width(), g.height()), (0, 0, 25, 25));
    g.remove_child_with_id(2, false);
    assert_eq!(ids(g.children().unwrap()), vec![3]);
    assert_eq!((g.x(), g.y(), g.width(), g.height()), (20, 20, 5, 5));
    g.remove_child_with_id(99, false);
    assert_eq!(ids(g.children().unwrap()), vec![3]);
    let child = pixel(3, 0, 0, 1, 1);
    g.remove_child(&child);
    assert!(g.children().unwrap().is_empty());
    assert_eq!((g.x(), g.y(), g.width(), g.height()), (0, 0, 0, 0));
}

#[test]
fn removing_a_filter_takes_it_from_the_filters() {
    let mut g = group(1, vec![pixel(2, 0, 0, 1, 1)]);
    if let Layer::Group(b) = &mut g {
        b.filters.push(filter(5));
    }
    g.remove_child(&filter(5));
    match &g {
        Layer::Group(b) => {
            assert!(b.filters.is_empty());
            assert_eq!(ids(&b.data.layers), vec![2]);
        }
        _ => panic!("not a group"),
    }
}

#[test]
fn resizing_a_raster_layer_keeps_what_fits() {
    let mut p = pixel(1, 0, 0, 2, 1);
    if let Some(px) = p.pixel_data_mut() {
        for (i, b) in px.iter_mut().enumerate() {
            *b = i as u8 + 1;
        }
    }
    p.resize(1, 1);
    assert_eq!((p.width(), p.height()), (1, 1));
    assert_eq!(p.pixel_data().unwrap(), &vec![1, 2, 3, 4]);
    p.resize(3, 1);
    assert_eq!(p.width(), 3);
    assert_eq!(p.pixel_data().unwrap(), &vec![1, 2, 3, 4, 0, 0, 0, 0, 0, 0, 0, 0]);
    let mut g = group(2, Vec::new());
    g.resize(5, 5);
    assert_eq!(g.width(), 0);
}

#[test]
fn resize_group_follows_the_children() {
    let mut g = group(1, vec![pixel(2, 1, 1, 2, 2)]);
    if let Some(children) = g.children_mut() {
        children.push(pixel(3, 10, 10, 1, 1));
    }
    assert_eq!(g.width(), 2);
    g.resize_group();
    assert_eq!((g.x(), g.y(), g.width(), g.height()), (1, 1, 10, 10));
}

#[test]
fn name_mut_renames_the_layer() {
    let mut l = filter(1);
    *l.name_mut() = "blur".to_owned();
    assert_eq!(l.name(), "blur");
}

#[test]
fn sequence_helpers() {
    let mut layers = vec![pixel(1, 0, 0, 1, 1), pixel(2, 0, 0, 1, 1), pixel(1, 0, 0, 1, 1)];
    assert_eq!(position_of(&layers, 1), Some(0));
    assert_eq!(position_of(&layers, 2), Some(1));
    assert_eq!(position_of(&layers, 3), None);
    remove_first_with_id(&mut layers, 1);
    assert_eq!(ids(&layers), vec![2, 1]);
    remove_first_with_id(&mut layers, 7);
    assert_eq!(ids(&layers), vec![2, 1]);
    let copy = duplicate_layers(&layers);
    assert_eq!(ids(&copy), vec![2, 1]);
    assert_eq!(zero_bytes(3), vec![0, 0, 0]);
    assert_eq!(copy_bytes(&vec![4, 5]), vec![4, 5]);
}

#[test]
fn pixel_and_group_data() {
    let mut d = PixelData::new(vec![9u8; 8], "OkLab".to_owned(), 2, 1);
    assert_eq!((d.x, d.y, d.width, d.height), (0, 0, 2, 1));
    d.resize(1, 1);
    assert_eq!(d.pixels, vec![9, 9, 9, 9]);
    assert_eq!(d.width, 2);
    let mut g = GroupData::new();
    g.append(0, pixel(1, 3, 3, 1, 1));
    assert_eq!((g.x, g.y, g.width, g.height), (0, 0, 0, 0));
    g.calculate_group_bounds();
    assert_eq!((g.x, g.y, g.width, g.height), (3, 3, 1, 1));
    g.remove_layer_with_id(1);
    assert!(g.layers.is_empty());
    assert_eq!((g.x, g.y, g.width, g.height), (0, 0, 0, 0));
}
