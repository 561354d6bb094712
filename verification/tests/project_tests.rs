use brush::data::layer::{BrushLayer, Layer, NodeLayerParameters};
use brush::data::layer_types::group::GroupData;
use brush::data::layer_types::pixel::PixelData;
use brush::data::layer_types::refs::RefLayer;
use brush::data::project::BrushProject;

fn pixel(id: u128) -> Layer {
    Layer::Pixel(BrushLayer {
        id,
        name: format!("p{}", id),
        filters: Vec::new(),
        parameters: NodeLayerParameters::default(),
        data: PixelData {
            pixels: vec![0u8; 4],
            color_space: "OkLab".to_owned(),
            x: 0,
            y: 0,
            width: 1,
            height: 1,
        },
        is_dirty: false,
    })
}

fn group(id: u128, children: Vec<Layer>) -> Layer {
    let mut data = GroupData::new();
    data.layers = children;
    data.calculate_group_bounds();
    Layer::Group(BrushLayer {
        id,
        name: format!("g{}", id),
        filters: Vec::new(),
        parameters: NodeLayerParameters::default(),
        data,
        is_dirty: false,
    })
}

/// 1, 2 [3, 4 [5]], 6
fn sample() -> BrushProject {
    BrushProject::new(
        1,
        1_700_000_000,
        64,
        32,
        vec![pixel(1), group(2, vec![pixel(3), group(4, vec![pixel(5)])]), pixel(6)],
        Vec::new(),
    )
}

fn ids(layers: &Vec<Layer>) -> Vec<u128> {
    layers.iter().map(|l| l.id()).collect()
}

#[test]
fn a_blank_project_is_full_hd_and_empty() {
    let p = BrushProject::new_blank(42);
    assert_eq!(p.version, 1);
    assert_eq!(p.created, 42);
    assert_eq!((p.width, p.height), (1920, 1080));
    assert!(p.layers.is_empty());
    assert!(p.references.is_empty());
}

#[test]
fn layer_operations_keep_the_reference_images() {
    let mut p = sample();
    p.references.push(RefLayer::new(77, vec![1, 2, 3, 4]));
    p.rename_layer(5, "x".to_owned());
    p.remove_layer(3);
    let layer = p.find_layer(6).unwrap().duplicate();
    p.move_layer(&layer, 0, None, Some(2));
    assert_eq!(p.references.len(), 1);
    assert_eq!(p.references[0].id(), 77);
    assert_eq!(p.references[0].pixel_data(), &[1u8, 2, 3, 4][..]);
}

#[test]
fn new_keeps_its_arguments() {
    let p = sample();
    assert_eq!(p.version, 1);
    assert_eq!(p.created, 1_700_000_000);
    assert_eq!((p.width, p.height), (64, 32));
    assert_eq!(ids(&p.layers), vec![1, 2, 6]);
}

#[test]
fn find_layer_searches_the_whole_tree() {
    let p = sample();
    assert_eq!(p.find_layer(5).unwrap().name(), "p5");
    assert_eq!(p.find_layer(4).unwrap().name(), "g4");
    assert_eq!(p.find_layer(6).unwrap().name(), "p6");
    assert!(p.find_layer(99).is_none());
}

#[test]
fn find_layer_mut_changes_the_layer_in_place() {
    let mut p = sample();
    p.find_layer_mut(3).unwrap().set_visible(false);
    assert!(!p.find_layer(3).unwrap().visible());
    assert!(p.find_layer_mut(99).is_none());
}

#[test]
fn find_parent_gives_the_holding_group() {
    let mut p = sample();
    assert_eq!(p.find_parent(5).unwrap().id(), 4);
    assert_eq!(p.find_parent(3).unwrap().id(), 2);
    assert_eq!(p.find_parent(4).unwrap().id(), 2);
    assert!(p.find_parent(1).is_none());
    assert!(p.find_parent(99).is_none());
    assert_eq!(p.find_parent_mut(5).unwrap().id(), 4);
}

#[test]
fn a_renamed_layer_is_found_under_its_new_name() {
    let mut p = sample();
    p.rename_layer(5, "sky".to_owned());
    assert_eq!(p.find_layer(5).unwrap().name(), "sky");
    assert_eq!(p.find_layer(3).unwrap().name(), "p3");
    p.rename_layer(99, "nothing".to_owned());
    assert_eq!(ids(&p.layers), vec![1, 2, 6]);
}

#[test]
fn a_removed_layer_is_gone() {
    let mut p = sample();
    assert_eq!(p.remove_layer(5), Some(()));
    assert!(p.find_layer(5).is_none());
    assert!(p.find_layer(4).unwrap().children().unwrap().is_empty());
    assert_eq!(p.remove_layer(1), Some(()));
    assert_eq!(ids(&p.layers), vec![2, 6]);
    assert_eq!(p.remove_layer(99), None);
    assert_eq!(ids(&p.layers), vec![2, 6]);
}

#[test]
fn removing_a_group_removes_what_it_holds() {
    let mut p = sample();
    assert_eq!(p.remove_layer(2), Some(()));
    assert_eq!(ids(&p.layers), vec![1, 6]);
    assert!(p.find_layer(3).is_none());
    assert!(p.find_layer(5).is_none());
}

#[test]
fn move_layer_into_a_group() {
    let mut p = sample();
    let layer = p.find_layer(6).unwrap().duplicate();
    assert!(p.can_move_layer(&layer, 0, None, Some(2)));
    p.move_layer(&layer, 0, None, Some(2));
    assert_eq!(ids(&p.layers), vec![1, 2]);
    assert_eq!(ids(p.find_layer(2).unwrap().children().unwrap()), vec![6, 3, 4]);
    assert_eq!(p.find_parent(6).unwrap().id(), 2);
}

#[test]
fn move_layer_out_of_a_group() {
    let mut p = sample();
    let layer = p.find_layer(5).unwrap().duplicate();
    p.move_layer(&layer, 3, Some(4), None);
    assert_eq!(ids(&p.layers), vec![1, 2, 6, 5]);
    assert!(p.find_layer(4).unwrap().children().unwrap().is_empty());
    assert!(p.find_parent(5).is_none());
}

#[test]
fn a_layer_that_is_not_a_group_takes_nothing() {
    let mut p = sample();
    let layer = p.find_layer(6).unwrap().duplicate();
    p.move_layer(&layer, 0, None, Some(1));
    assert_eq!(ids(&p.layers), vec![1, 2]);
    assert!(p.find_layer(6).is_none());
}

#[test]
fn a_move_past_the_end_does_not_fit() {
    let p = sample();
    let layer = p.find_layer(1).unwrap().duplicate();
    assert!(!p.can_move_layer(&layer, 5, None, Some(4)));
    assert!(p.can_move_layer(&layer, 1, None, Some(4)));
    assert!(p.can_move_layer(&layer, 2, None, None));
    assert!(!p.can_move_layer(&layer, 3, None, None));
}
