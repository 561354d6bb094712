use std::collections::{HashMap, HashSet};

use brush::components::utils::renderer::utils::collect_ids;
use brush::data::file::{
    entry_name, fill_layer_data, layer_id_text, parse_layer_id, ref_entries, flatten_tree, get_pixel_data, image_format, inflate_pixel_data,
    pixel_entries, pixels_present, ImageFormat, LAYER_FOLDER, META_ENTRY, MIMETYPE_CONTENT,
    MIMETYPE_ENTRY, PREVIEW_ENTRY, REFS_FOLDER,
};
use brush::data::layer::{BrushLayer, Layer, NodeLayerParameters};
use brush::data::layer_types::fill::{FillLayerData, FillLayerParameters, FillLayerType};
use brush::data::layer_types::group::GroupData;
use brush::data::layer_types::pixel::PixelData;
use brush::data::blend_modes::BlendMode;
use brush::data::layer_types::refs::RefLayer;

fn pixel(id: u128, fill: u8) -> Layer {
    Layer::Pixel(BrushLayer {
        id,
        name: format!("p{}", id),
        filters: Vec::new(),
        parameters: NodeLayerParameters::default(),
        data: PixelData {
            pixels: vec![fill; 16],
            color_space: "OkLab".to_owned(),
            x: 0,
            y: 0,
            width: 2,
            height: 2,
        },
        is_dirty: false,
    })
}

fn group(id: u128, children: Vec<Layer>) -> Layer {
    let mut data = GroupData::new();
    data.layers = children;
    data.calculate_group_bounds();
    Layer::Group(BrushLayer {
        id,
        name: format!("g{}", id),
        filters: Vec::new(),
        parameters: NodeLayerParameters::default(),
        data,
        is_dirty: false,
    })
}

fn fill(id: u128) -> Layer {
    Layer::Fill(BrushLayer {
        id,
        name: format!("f{}", id),
        filters: Vec::new(),
        parameters: FillLayerParameters {
            opacity: 1.0f32.to_bits(),
            visible: true,
            lock: false,
            alpha_clip: false,
            alpha_lock: false,
            blend_mode: BlendMode::Normal,
        },
        data: FillLayerData { fill_type: FillLayerType::Solid, color: Some(3), gradient: None },
        is_dirty: false,
    })
}

/// 1, 2 [3, fill 7, 4 [5]], 6
fn tree() -> Vec<Layer> {
    vec![pixel(1, 1), group(2, vec![pixel(3, 3), fill(7), group(4, vec![pixel(5, 5)])]), pixel(6, 6)]
}

#[test]
fn archive_names() {
    assert_eq!(MIMETYPE_ENTRY, "mimetype");
    assert_eq!(MIMETYPE_CONTENT, "application/x-brush\n");
    assert_eq!(META_ENTRY, "meta.json");
    assert_eq!(PREVIEW_ENTRY, "preview");
    assert_eq!(LAYER_FOLDER, "layers");
    assert_eq!(REFS_FOLDER, "refs");
}

#[test]
fn entry_names_use_the_hyphenated_identifier() {
    assert_eq!(
        entry_name("layers", 0x0123456789abcdef0123456789abcdef),
        "layers/01234567-89ab-cdef-0123-456789abcdef"
    );
    assert_eq!(entry_name("refs", 0), "refs/00000000-0000-0000-0000-000000000000");
    assert_ne!(entry_name("layers", 1), entry_name("layers", 2));
}

#[test]
fn stored_pixels_read_back() {
    let pixels: Vec<u8> = (0..4000u32).map(|i| (i % 7) as u8).collect();
    let stored = get_pixel_data(&pixels);
    assert!(stored.len() < pixels.len());
    assert_ne!(stored, pixels);
    assert_eq!(inflate_pixel_data(&stored), pixels);
}

#[test]
fn bytes_that_are_not_compressed_read_back_as_they_are() {
    let raw = vec![0xffu8, 0xff, 0x00];
    assert_eq!(inflate_pixel_data(&raw), raw);
}

#[test]
fn flatten_tree_lists_raster_layers_depth_first() {
    let layers = tree();
    let mut flat = vec![pixel(9, 0)];
    flatten_tree(&mut flat, &layers);
    let ids: Vec<u128> = flat.iter().map(|l| l.id()).collect();
    assert_eq!(ids, vec![9, 1, 3, 5, 6]);
}

#[test]
fn pixel_entries_name_and_store_each_raster_layer() {
    let layers = tree();
    let entries = pixel_entries(&layers);
    let names: Vec<String> = entries.iter().map(|e| e.0.clone()).collect();
    assert_eq!(
        names,
        vec![
            "layers/00000000-0000-0000-0000-000000000001".to_owned(),
            "layers/00000000-0000-0000-0000-000000000003".to_owned(),
            "layers/00000000-0000-0000-0000-000000000005".to_owned(),
            "layers/00000000-0000-0000-0000-000000000006".to_owned(),
        ]
    );
    assert_eq!(inflate_pixel_data(&entries[2].1), vec![5u8; 16]);
}

#[test]
fn filling_gives_each_raster_layer_its_stored_pixels() {
    let mut layers = tree();
    let mut map: HashMap<u128, Vec<u8>> = HashMap::new();
    for id in [1u128, 3, 5, 6] {
        map.insert(id, vec![id as u8 + 100; 16]);
    }
    assert!(pixels_present(&map, &layers));
    fill_layer_data(&map, &mut layers);
    assert_eq!(layers[0].pixel_data().unwrap(), &vec![101u8; 16]);
    let g = &layers[1];
    assert!(g.is_dirty());
    let inner = &g.children().unwrap()[2];
    assert!(inner.is_dirty());
    assert_eq!(inner.children().unwrap()[0].pixel_data().unwrap(), &vec![105u8; 16]);
    assert_eq!(layers[2].pixel_data().unwrap(), &vec![106u8; 16]);
}

#[test]
fn a_missing_raster_layer_is_noticed() {
    let layers = tree();
    let mut map: HashMap<u128, Vec<u8>> = HashMap::new();
    map.insert(1, Vec::new());
    map.insert(3, Vec::new());
    map.insert(6, Vec::new());
    assert!(!pixels_present(&map, &layers));
}

#[test]
fn export_formats_follow_the_extension() {
    assert_eq!(image_format("png"), ImageFormat::Png);
    assert_eq!(image_format("avif"), ImageFormat::Avif);
    assert_eq!(image_format("jpeg"), ImageFormat::Jpeg);
    assert_eq!(image_format("jpg"), ImageFormat::Jpeg);
    assert_eq!(image_format("bmp"), ImageFormat::Bmp);
    assert_eq!(image_format("exr"), ImageFormat::OpenExr);
    assert_eq!(image_format("webp"), ImageFormat::WebP);
    assert_eq!(image_format("gif"), ImageFormat::Gif);
    assert_eq!(image_format("jif"), ImageFormat::Gif);
    assert_eq!(image_format("tiff"), ImageFormat::Png);
    assert_eq!(image_format(""), ImageFormat::Png);
}

#[test]
fn collect_ids_gathers_the_whole_tree() {
    let layers = tree();
    let mut ids: HashSet<u128> = HashSet::new();
    ids.insert(42);
    collect_ids(&layers, &mut ids);
    let expected: HashSet<u128> = [42u128, 1, 2, 3, 4, 5, 6, 7].into_iter().collect();
    assert_eq!(ids, expected);
}

#[test]
fn stored_pixels_are_always_compressed() {
    let pixels = vec![9u8; 64];
    let stored = get_pixel_data(&pixels);
    assert_ne!(stored, pixels);
    assert_eq!(inflate_pixel_data(&stored), pixels);
    let empty: Vec<u8> = Vec::new();
    let stored_empty = get_pixel_data(&empty);
    assert!(!stored_empty.is_empty());
    assert_eq!(inflate_pixel_data(&stored_empty), empty);
}

#[test]
fn reference_images_are_stored_under_their_folder() {
    let refs = vec![RefLayer::new(0xab, vec![5u8; 32]), RefLayer::new(2, vec![])];
    let entries = ref_entries(&refs);
    assert_eq!(entries.len(), 2);
    assert_eq!(entries[0].0, "refs/00000000-0000-0000-0000-0000000000ab");
    assert_eq!(entries[1].0, "refs/00000000-0000-0000-0000-000000000002");
    assert_eq!(inflate_pixel_data(&entries[0].1), vec![5u8; 32]);
    assert_ne!(entries[0].1, vec![5u8; 32]);
}

#[test]
fn identifier_text_reads_back() {
    let id = 0x0123456789abcdef0123456789abcdefu128;
    let text = layer_id_text(id);
    assert_eq!(text, "01234567-89ab-cdef-0123-456789abcdef");
    assert_eq!(parse_layer_id(&text), Some(id));
    assert_eq!(parse_layer_id("0123456789abcdef0123456789abcdef"), Some(id));
    assert_eq!(parse_layer_id("not an id"), None);
    assert_eq!(parse_layer_id(""), None);
    for id in [0u128, 1, u128::MAX, 0xfedcba98765432100123456789abcdef] {
        assert_eq!(parse_layer_id(&layer_id_text(id)), Some(id));
    }
}
