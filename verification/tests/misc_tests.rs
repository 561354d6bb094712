use brush::components::utils::tools::BrushTool;
use brush::config::default_env;
use brush::data::blend_modes::BlendMode;
use brush::data::brush_dab::should_edit_pixel;
use brush::data::layer::{BrushLayer, Layer, NodeLayerParameters};
use brush::data::layer_types::pixel::PixelData;

fn pixel_at(x: i32, y: i32, w: u32, h: u32) -> Layer {
    Layer::Pixel(BrushLayer {
        id: 1,
        name: "p".to_owned(),
        filters: Vec::new(),
        parameters: NodeLayerParameters::default(),
        data: PixelData {
            pixels: vec![0u8; (w * h * 4) as usize],
            color_space: "OkLab".to_owned(),
            x,
            y,
            width: w,
            height: h,
        },
        is_dirty: false,
    })
}

#[test]
fn settings_fall_back_to_their_defaults() {
    assert_eq!(default_env(Some("/usr/share"), "/usr/local/share"), "/usr/share");
    assert_eq!(default_env(None, "/usr/local/share"), "/usr/local/share");
}

#[test]
fn tools_by_name() {
    assert_eq!(BrushTool::from_name("move"), Some(BrushTool::Move));
    assert_eq!(BrushTool::from_name("brush"), Some(BrushTool::Brush));
    assert_eq!(BrushTool::from_name("box"), Some(BrushTool::Box));
    assert_eq!(BrushTool::from_name("ellipse"), Some(BrushTool::Ellipse));
    assert_eq!(BrushTool::from_name("box_select"), Some(BrushTool::SelectBox));
    assert_eq!(BrushTool::from_name("lasso_select"), Some(BrushTool::SelectLasso));
    assert_eq!(BrushTool::from_name("wand_select"), Some(BrushTool::SelectWand));
    assert_eq!(BrushTool::from_name("eraser"), None);
    assert_eq!(BrushTool::from_name("Brush"), None);
}

#[test]
fn blend_modes_in_order() {
    assert_eq!(BlendMode::all(), vec![BlendMode::Normal, BlendMode::HardLight, BlendMode::SoftLight]);
    assert_eq!(BlendMode::default(), BlendMode::Normal);
    assert_eq!(BlendMode::HardLight.label(), "Hard Light");
    assert_eq!(BlendMode::SoftLight.label(), "Soft Light");
    assert_eq!(BlendMode::Normal.label(), "Normal");
    assert_eq!(BlendMode::HardLight.variant_name(), "HardLight");
    for m in BlendMode::all() {
        assert_eq!(BlendMode::from_index(m.index() as u32), m);
    }
    assert_eq!(BlendMode::from_index(3), BlendMode::SoftLight);
    assert_eq!(BlendMode::from_index(u32::MAX), BlendMode::SoftLight);
}

#[test]
fn a_pixel_is_edited_once_per_mask() {
    let mut mask = vec![0u8; 6];
    assert!(should_edit_pixel(&mut mask, 1, 1, 3));
    assert_eq!(mask, vec![0, 0, 0, 0, 1, 0]);
    assert!(!should_edit_pixel(&mut mask, 1, 1, 3));
    assert_eq!(mask, vec![0, 0, 0, 0, 1, 0]);
}

#[test]
fn a_dab_finds_the_pixels_under_it() {
    let layer = pixel_at(0, 0, 4, 4);
    let mut mask = vec![0u8; 16];
    assert_eq!(layer.dab_pixels((1, 1), 1, &mut mask), vec![4, 16, 20]);
    assert_eq!(mask.iter().filter(|b| **b == 1).count(), 3);
    assert_eq!(layer.dab_pixels((1, 1), 1, &mut mask), Vec::<usize>::new());
    assert_eq!(layer.dab_pixels((2, 1), 1, &mut mask), vec![8, 24]);
}

#[test]
fn a_dab_works_in_layer_coordinates() {
    let layer = pixel_at(10, 20, 4, 4);
    let mut mask = vec![0u8; 16];
    assert_eq!(layer.dab_pixels((11, 21), 1, &mut mask), vec![4, 16, 20]);
    let mut mask2 = vec![0u8; 16];
    assert_eq!(layer.dab_pixels((0, 0), 2, &mut mask2), Vec::<usize>::new());
}

#[test]
fn a_dab_is_clipped_to_the_layer() {
    let layer = pixel_at(0, 0, 2, 2);
    let mut mask = vec![0u8; 4];
    assert_eq!(layer.dab_pixels((0, 0), 2, &mut mask), vec![0, 4, 8, 12]);
    let mut mask0 = vec![0u8; 4];
    assert_eq!(layer.dab_pixels((0, 0), 0, &mut mask0), Vec::<usize>::new());
}

#[test]
fn a_dab_needs_only_the_mask_it_touches() {
    let layer = pixel_at(0, 0, 4, 4);
    assert!(layer.dab_fits((1, 1), 1, 6));
    assert!(!layer.dab_fits((1, 1), 1, 5));
    let mut mask = vec![0u8; 6];
    assert_eq!(layer.dab_pixels((1, 1), 1, &mut mask), vec![4, 16, 20]);
    assert!(layer.dab_fits((0, 0), 0, 0));
    assert!(!layer.dab_fits((0, 0), 32768, 16));
    assert!(!layer.dab_fits((0, 0), i32::MIN, 16));
    assert!(layer.dab_fits((100, 100), 2, 0));
    let far = pixel_at(i32::MIN, 0, 4, 4);
    assert!(!far.dab_fits((i32::MAX, 0), 1, 16));
}
