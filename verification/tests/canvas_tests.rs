use brush::components::canvas::{
    move_down_fits, move_layer_down, move_layer_up, move_up_fits, new_group_layer, new_pixel_layer,
    plan_move_down, plan_move_up, push_layer, remove_layer, set_layer_blend, set_layer_opacity, toggle_alpha_clip,
    toggle_alpha_lock, toggle_lock, toggle_passthrough, toggle_visible,
};
use brush::data::blend_modes::BlendMode;
use brush::data::layer::{BrushLayer, Layer, NodeLayerParameters};
use brush::data::layer_types::group::GroupData;
use brush::data::layer_types::pixel::PixelData;
use brush::data::project::BrushProject;

fn pixel(id: u128) -> Layer {
    Layer::Pixel(BrushLayer {
        id,
        name: format!("p{}", id),
        filters: Vec::new(),
        parameters: NodeLayerParameters::default(),
        data: PixelData {
            pixels: vec![0u8; 4],
            color_space: "OkLab".to_owned(),
            x: 0,
            y: 0,
            width: 1,
            height: 1,
        },
        is_dirty: false,
    })
}

fn group(id: u128, children: Vec<Layer>) -> Layer {
    let mut data = GroupData::new();
    data.layers = children;
    data.calculate_group_bounds();
    Layer::Group(BrushLayer {
        id,
        name: format!("g{}", id),
        filters: Vec::new(),
        parameters: NodeLayerParameters::default(),
        data,
        is_dirty: false,
    })
}

/// 1, 2 [3, 4 [5]], 6
fn sample() -> BrushProject {
    BrushProject::new(
        1,
        0,
        64,
        32,
        vec![pixel(1), group(2, vec![pixel(3), group(4, vec![pixel(5)])]), pixel(6)],
        Vec::new(),
    )
}

fn ids(layers: &Vec<Layer>) -> Vec<u128> {
    layers.iter().map(|l| l.id()).collect()
}

fn children(p: &BrushProject, id: u128) -> Vec<u128> {
    ids(p.find_layer(id).unwrap().children().unwrap())
}

#[test]
fn without_an_active_layer_a_new_layer_goes_first() {
    let mut p = sample();
    push_layer(&mut p, None, pixel(7));
    assert_eq!(ids(&p.layers), vec![7, 1, 2, 6]);
    push_layer(&mut p, Some(99), pixel(8));
    assert_eq!(ids(&p.layers), vec![8, 7, 1, 2, 6]);
}

#[test]
fn a_new_layer_takes_the_active_top_layers_place() {
    let mut p = sample();
    push_layer(&mut p, Some(6), pixel(7));
    assert_eq!(ids(&p.layers), vec![1, 2, 7, 6]);
}

#[test]
fn a_new_layer_goes_into_an_active_group() {
    let mut p = sample();
    push_layer(&mut p, Some(2), pixel(7));
    assert_eq!(children(&p, 2), vec![7, 3, 4]);
}

#[test]
fn a_new_layer_goes_beside_an_active_child() {
    let mut p = sample();
    push_layer(&mut p, Some(5), pixel(7));
    assert_eq!(children(&p, 4), vec![7, 5]);
}

#[test]
fn removing_the_active_layer_activates_its_neighbour() {
    let mut p = sample();
    assert_eq!(remove_layer(&mut p, Some(3)), Some(4));
    assert_eq!(children(&p, 2), vec![4]);
    let mut p = sample();
    assert_eq!(remove_layer(&mut p, Some(6)), Some(2));
    assert_eq!(ids(&p.layers), vec![1, 2]);
    let mut p = sample();
    assert_eq!(remove_layer(&mut p, Some(1)), Some(2));
}

#[test]
fn removing_an_only_child_activates_its_group() {
    let mut p = sample();
    assert_eq!(remove_layer(&mut p, Some(5)), Some(4));
    assert!(children(&p, 4).is_empty());
}

#[test]
fn removing_the_last_layer_leaves_none_active() {
    let mut p = BrushProject::new(1, 0, 1, 1, vec![pixel(1)], Vec::new());
    assert_eq!(remove_layer(&mut p, Some(1)), None);
    assert!(p.layers.is_empty());
    let mut q = sample();
    assert_eq!(remove_layer(&mut q, None), None);
    assert_eq!(ids(&q.layers), vec![1, 2, 6]);
}

#[test]
fn moving_up_enters_the_group_above() {
    let mut p = sample();
    assert_eq!(plan_move_up(&p, 6), Some((2, None, Some(2))));
    assert!(move_up_fits(&p, Some(6)));
    move_layer_up(&mut p, Some(6));
    assert_eq!(ids(&p.layers), vec![1, 2]);
    assert_eq!(children(&p, 2), vec![3, 4, 6]);
}

#[test]
fn moving_up_the_first_child_leaves_the_group() {
    let mut p = sample();
    assert_eq!(plan_move_up(&p, 3), Some((1, Some(2), None)));
    move_layer_up(&mut p, Some(3));
    assert_eq!(ids(&p.layers), vec![1, 3, 2, 6]);
    assert_eq!(children(&p, 2), vec![4]);
}

#[test]
fn the_first_top_layer_does_not_move_up() {
    let mut p = sample();
    assert_eq!(plan_move_up(&p, 1), None);
    move_layer_up(&mut p, Some(1));
    assert_eq!(ids(&p.layers), vec![1, 2, 6]);
    assert!(move_up_fits(&p, None));
}

#[test]
fn moving_down_enters_the_group_below() {
    let mut p = sample();
    assert_eq!(plan_move_down(&p, 1), Some((0, None, Some(2))));
    assert!(move_down_fits(&p, Some(1)));
    move_layer_down(&mut p, Some(1));
    assert_eq!(ids(&p.layers), vec![2, 6]);
    assert_eq!(children(&p, 2), vec![1, 3, 4]);
}

#[test]
fn moving_down_a_child_enters_the_group_below_it() {
    let mut p = sample();
    assert_eq!(plan_move_down(&p, 3), Some((0, Some(2), Some(4))));
    move_layer_down(&mut p, Some(3));
    assert_eq!(children(&p, 2), vec![4]);
    assert_eq!(children(&p, 4), vec![3, 5]);
}

#[test]
fn moving_down_the_last_child_leaves_the_group() {
    let mut p = sample();
    assert_eq!(plan_move_down(&p, 5), Some((2, Some(4), Some(2))));
    assert!(move_down_fits(&p, Some(5)));
    move_layer_down(&mut p, Some(5));
    assert_eq!(children(&p, 2), vec![3, 4, 5]);
    assert!(children(&p, 4).is_empty());
}

#[test]
fn moving_down_the_last_child_of_a_top_group_goes_just_below_it() {
    let mut p = sample();
    assert_eq!(plan_move_down(&p, 4), Some((2, Some(2), None)));
    move_layer_down(&mut p, Some(4));
    assert_eq!(ids(&p.layers), vec![1, 2, 4, 6]);
    assert_eq!(children(&p, 2), vec![3]);
    assert_eq!(children(&p, 4), vec![5]);
}

#[test]
fn the_last_top_layer_does_not_move_down() {
    let mut p = sample();
    assert_eq!(plan_move_down(&p, 6), None);
    move_layer_down(&mut p, Some(6));
    assert_eq!(ids(&p.layers), vec![1, 2, 6]);
}

#[test]
fn switches_of_the_active_layer() {
    let mut p = sample();
    toggle_visible(&mut p, Some(3));
    assert!(!p.find_layer(3).unwrap().visible());
    toggle_visible(&mut p, Some(3));
    assert!(p.find_layer(3).unwrap().visible());
    toggle_lock(&mut p, Some(3));
    assert!(p.find_layer(3).unwrap().lock());
    toggle_alpha_clip(&mut p, Some(3));
    assert!(p.find_layer(3).unwrap().alpha_clip());
    toggle_alpha_lock(&mut p, Some(3));
    assert!(p.find_layer(3).unwrap().alpha_lock());
    toggle_passthrough(&mut p, Some(2));
    assert!(p.find_layer(2).unwrap().passthrough());
    set_layer_opacity(&mut p, Some(5), 0.5f32.to_bits());
    assert_eq!(f32::from_bits(p.find_layer(5).unwrap().opacity()), 0.5);
    set_layer_blend(&mut p, Some(5), BlendMode::SoftLight);
    assert_eq!(p.find_layer(5).unwrap().blend_mode(), BlendMode::SoftLight);
    toggle_visible(&mut p, None);
    toggle_visible(&mut p, Some(99));
    assert!(p.find_layer(1).unwrap().visible());
}

#[test]
fn a_new_raster_layer_covers_the_canvas() {
    let mut p = sample();
    let id = new_pixel_layer(&mut p, Some(6));
    assert_eq!(ids(&p.layers), vec![1, 2, id, 6]);
    let l = p.find_layer(id).unwrap();
    assert_eq!(l.name(), "New pixel layer");
    assert_eq!((l.width(), l.height()), (64, 32));
    assert_eq!(l.pixel_data().unwrap().len(), 64 * 32 * 4);
    assert_eq!((id >> 76) & 0xf, 4);
}

#[test]
fn a_new_group_goes_into_the_active_group() {
    let mut p = sample();
    let id = new_group_layer(&mut p, Some(4));
    assert_eq!(children(&p, 4), vec![id, 5]);
    let g = p.find_layer(id).unwrap();
    assert_eq!(g.name(), "New Group");
    assert!(g.children().unwrap().is_empty());
}
