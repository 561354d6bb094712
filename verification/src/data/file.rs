use vstd::prelude::*;

use std::collections::HashMap;
use std::io::Read;
use std::io::Write;

use crate::data::layer_types::refs::RefLayer;
use crate::data::layer::{copy_bytes, lemma_views_of, views_of, Layer, LayerAttrs, LayerView};

verus! {

/// The archive entry that names the file type.
pub const MIMETYPE_ENTRY: &'static str = "mimetype";

/// What the archive entry `mimetype` holds.
pub const MIMETYPE_CONTENT: &'static str = "application/x-brush\n";

/// The archive entry that holds the document's structure.
pub const META_ENTRY: &'static str = "meta.json";

/// The archive entry that holds the preview image.
pub const PREVIEW_ENTRY: &'static str = "preview";

/// The archive folder of raster layers' pixels.
pub const LAYER_FOLDER: &'static str = "layers";

/// The archive folder of reference images' pixels.
pub const REFS_FOLDER: &'static str = "refs";

// ---------------------------------------------------------------------------------------
// Identifiers as text

/// The lowercase hexadecimal digit for `n` (0 to 15).
pub open spec fn hex_digit(n: int) -> char {
    if n < 10 {
        (n + 48) as char
    } else {
        (n + 87) as char
    }
}

/// The `i`-th hexadecimal digit of `id`, most significant first (`i` from 0 to 31).
pub open spec fn nibble(id: u128, i: int) -> int {
    ((id >> ((124 - 4 * i) as u128)) & 0xfu128) as int
}

/// The hyphenated form of a 128-bit identifier: 32 lowercase hexadecimal digits, most
/// significant first, in groups of 8, 4, 4, 4 and 12 joined by hyphens.
pub open spec fn hyphenated(id: u128) -> Seq<char> {
    Seq::new(
        36,
        |i: int|
            if i == 8 || i == 13 || i == 18 || i == 23 {
                '-'
            } else {
                hex_digit(
                    nibble(
                        id,
                        i - (if i < 8 {
                            0int
                        } else if i < 13 {
                            1int
                        } else if i < 18 {
                            2int
                        } else if i < 23 {
                            3int
                        } else {
                            4int
                        }),
                    ),
                )
            },
    )
}

/// The text of an identifier, from `uuid::Uuid::from_u128` and its `Display`, which writes
/// the hyphenated lowercase form.
#[verifier::external_body]
fn uuid_text(id: u128) -> (r: String)
    ensures
        r@ == hyphenated(id),
{
    uuid::Uuid::from_u128(id).to_string()
}

/// What `uuid::Uuid::parse_str` reads from a text: the identifier's 128-bit value, or
/// `None` where the text is not an identifier in one of the forms it accepts.
pub uninterp spec fn parsed_id(text: Seq<char>) -> Option<u128>;

/// Reads an identifier with `uuid::Uuid::parse_str` and takes its 128-bit value
/// (`Uuid::as_u128`, most significant byte first). The result is the parse of the text;
/// the hyphenated lowercase form of an identifier, which its `Display` writes, reads back
/// as that identifier. Which other texts it accepts (upper case, simple, braced or URN
/// forms) is not stated.
#[verifier::external_body]
fn uuid_from_text(text: &str) -> (r: Option<u128>)
    ensures
        r == parsed_id(text@),
        forall|x: u128| text@ == hyphenated(x) ==> r == Some(x),
{
    match uuid::Uuid::parse_str(text) {
        Ok(u) => Some(u.as_u128()),
        Err(_) => None,
    }
}

/// The text under which a layer's identifier is stored: its hyphenated form.
pub fn layer_id_text(id: u128) -> (r: String)
    ensures
        r@ == hyphenated(id),
{
    uuid_text(id)
}

/// The identifier that a layer's stored identifier text names; `None` where the text is
/// not an identifier. A text that [`layer_id_text`] wrote reads back as its identifier.
pub fn parse_layer_id(text: &str) -> (r: Option<u128>)
    ensures
        r == parsed_id(text@),
        forall|x: u128| text@ == hyphenated(x) ==> r == Some(x),
{
    uuid_from_text(text)
}

/// The name of the archive entry of an identifier in `folder`: the folder, a slash, and
/// the identifier's hyphenated form.
pub fn entry_name(folder: &str, id: u128) -> (r: String)
    ensures
        r@ == folder@ + "/"@ + hyphenated(id),
{
    let mut s = folder.to_owned();
    s.append("/");
    let t = uuid_text(id);
    s.append(t.as_str());
    s
}

/// A hexadecimal digit is a number from 0 to 15.
proof fn lemma_nibble_range(id: u128, i: int)
    ensures
        0 <= nibble(id, i) < 16,
{
    let x = id >> ((124 - 4 * i) as u128);
    assert(x & 0xfu128 < 16) by (bit_vector);
}

/// Different numbers from 0 to 15 have different digits.
proof fn lemma_hex_digit_injective(m: int, n: int)
    requires
        0 <= m < 16,
        0 <= n < 16,
        hex_digit(m) == hex_digit(n),
    ensures
        m == n,
{
    assert(hex_digit(m) as int == if m < 10 { m + 48 } else { m + 87 });
    assert(hex_digit(n) as int == if n < 10 { n + 48 } else { n + 87 });
}

/// Shifting right by `s` keeps the bits above the lowest nibble of the shift by `s` and adds
/// that nibble.
proof fn lemma_shift_split(x: u128, s: u128, t: u128)
    by (bit_vector)
    requires
        s <= 120,
        t == s + 4,
    ensures
        x >> s == ((x >> t) << 4u128) | ((x >> s) & 0xfu128),
{
}

/// Identifiers whose first `j` hexadecimal digits agree agree in their top `4 * j` bits.
proof fn lemma_leading_nibbles(a: u128, b: u128, j: int)
    requires
        1 <= j <= 32,
        forall|k: int| 0 <= k < j ==> nibble(a, k) == nibble(b, k),
    ensures
        a >> ((128 - 4 * j) as u128) == b >> ((128 - 4 * j) as u128),
    decreases j,
{
    if j == 1 {
        assert(nibble(a, 0) == nibble(b, 0));
        assert((a >> 124u128) & 0xfu128 == a >> 124u128) by (bit_vector);
        assert((b >> 124u128) & 0xfu128 == b >> 124u128) by (bit_vector);
    } else {
        lemma_leading_nibbles(a, b, j - 1);
        let s = (128 - 4 * j) as u128;
        let t = (128 - 4 * (j - 1)) as u128;
        assert(nibble(a, j - 1) == nibble(b, j - 1));
        lemma_shift_split(a, s, t);
        lemma_shift_split(b, s, t);
    }
}

/// Two identifiers with the same hyphenated form are the same identifier.
pub proof fn lemma_hyphenated_injective(a: u128, b: u128)
    requires
        hyphenated(a) == hyphenated(b),
    ensures
        a == b,
{
    assert forall|k: int| 0 <= k < 32 implies nibble(a, k) == nibble(b, k) by {
        let pos = k + (if k < 8 {
            0int
        } else if k < 12 {
            1int
        } else if k < 16 {
            2int
        } else if k < 20 {
            3int
        } else {
            4int
        });
        assert(0 <= pos < 36 && pos != 8 && pos != 13 && pos != 18 && pos != 23);
        assert(hyphenated(a)[pos] == hex_digit(nibble(a, k)));
        assert(hyphenated(b)[pos] == hex_digit(nibble(b, k)));
        lemma_nibble_range(a, k);
        lemma_nibble_range(b, k);
        lemma_hex_digit_injective(nibble(a, k), nibble(b, k));
    }
    lemma_leading_nibbles(a, b, 32);
    assert(a >> 0u128 == a) by (bit_vector);
    assert(b >> 0u128 == b) by (bit_vector);
}

/// Layers with different identifiers get different archive entries in the same folder.
pub proof fn law_entry_names_distinct(folder: Seq<char>, a: u128, b: u128)
    requires
        a != b,
    ensures
        folder + "/"@ + hyphenated(a) != folder + "/"@ + hyphenated(b),
{
    let pre = folder + "/"@;
    if pre + hyphenated(a) == pre + hyphenated(b) {
        assert(hyphenated(a) =~= (pre + hyphenated(a)).subrange(pre.len() as int, pre.len() + 36int));
        assert(hyphenated(b) =~= (pre + hyphenated(b)).subrange(pre.len() as int, pre.len() + 36int));
        lemma_hyphenated_injective(a, b);
    }
}

// ---------------------------------------------------------------------------------------
// Pixel buffers in the archive

/// What DEFLATE compression at the fast level makes of `data`.
pub uninterp spec fn deflated(data: Seq<u8>) -> Seq<u8>;

/// What DEFLATE decompression makes of `data`; `None` where `data` is not a DEFLATE stream.
pub uninterp spec fn inflated(data: Seq<u8>) -> Option<Seq<u8>>;

/// Compresses `data` with `flate2::write::DeflateEncoder` at `Compression::fast()`
/// (`new`, `write_all`, `finish`) into a `Vec`. The result is the compressed stream, and
/// decompressing it gives `data` back, as DEFLATE is lossless. Neither step fails here: the
/// encoder reports only errors of the `Vec` it writes to, which has none, and of the
/// compression backend, which reports them only for null buffers or for input after the
/// end of the stream, neither of which the encoder hands it.
#[verifier::external_body]
fn deflate_fast(data: &[u8]) -> (r: Vec<u8>)
    ensures
        r@ == deflated(data@),
        inflated(r@) == Some(data@),
{
    let mut encoder = flate2::write::DeflateEncoder::new(Vec::new(), flate2::Compression::fast());
    encoder.write_all(data).unwrap();
    encoder.finish().unwrap()
}

/// Decompresses `data` with `flate2::read::DeflateDecoder` and `read_to_end`.
#[verifier::external_body]
fn inflate(data: &[u8]) -> (r: Option<Vec<u8>>)
    ensures
        match r {
            Some(v) => inflated(data@) == Some(v@),
            None => inflated(data@) is None,
        },
{
    let mut decoder = flate2::read::DeflateDecoder::new(data);
    let mut decoded: Vec<u8> = Vec::new();
    match decoder.read_to_end(&mut decoded) {
        Ok(_) => Some(decoded),
        Err(_) => None,
    }
}

/// What a stored pixel buffer reads back as: its decompressed form, or, where it is not a
/// compressed stream, the bytes themselves.
pub open spec fn unpacked(stored: Seq<u8>) -> Seq<u8> {
    match inflated(stored) {
        Some(s) => s,
        None => stored,
    }
}

/// The bytes stored for a pixel buffer: its compressed stream, which reads back as the
/// pixels.
pub fn get_pixel_data(pixels: &[u8]) -> (r: Vec<u8>)
    ensures
        r@ == deflated(pixels@),
        inflated(r@) == Some(pixels@),
        unpacked(r@) == pixels@,
{
    deflate_fast(pixels)
}

/// The pixels that a stored buffer holds.
pub fn inflate_pixel_data(buf: &[u8]) -> (r: Vec<u8>)
    ensures
        r@ == unpacked(buf@),
{
    match inflate(buf) {
        Some(v) => v,
        None => {
            let mut v: Vec<u8> = Vec::with_capacity(buf.len());
            let mut i: usize = 0;
            while i < buf.len()
                invariant
                    0 <= i <= buf@.len(),
                    v@ == buf@.take(i as int),
                decreases buf@.len() - i,
            {
                v.push(buf[i]);
                i = i + 1;
                proof {
                    assert(v@ =~= buf@.take(i as int));
                }
            }
            proof {
                assert(buf@.take(buf@.len() as int) =~= buf@);
            }
            v
        },
    }
}

/// Reading back the bytes that [`get_pixel_data`] stores gives the pixels that were saved.
pub proof fn law_pixels_read_back(pixels: Seq<u8>, stored: Seq<u8>)
    requires
        stored == deflated(pixels),
        inflated(stored) == Some(pixels),
    ensures
        unpacked(stored) == pixels,
{
}

// ---------------------------------------------------------------------------------------
// The raster layers of a tree

/// The raster layers of a tree, depth first: a group gives its children's raster layers,
/// a raster layer itself, any other layer nothing.
pub open spec fn pixel_layers(layers: Seq<LayerView>) -> Seq<LayerView>
    decreases layers,
{
    if layers.len() == 0 {
        Seq::empty()
    } else {
        let last = layers[layers.len() - 1];
        pixel_layers(layers.subrange(0, layers.len() - 1)) + match last.attrs {
            LayerAttrs::Group { .. } => pixel_layers(last.children),
            LayerAttrs::Pixel { .. } => seq![last],
            _ => Seq::empty(),
        }
    }
}

/// Appends to `dest` a copy of each raster layer of the tree `layers`, depth first.
pub fn flatten_tree(dest: &mut Vec<Layer>, layers: &Vec<Layer>)
    ensures
        views_of(final(dest)@) == views_of(old(dest)@) + pixel_layers(views_of(layers@)),
    decreases layers,
{
    proof {
        lemma_views_of(layers@);
    }
    let ghost views = views_of(layers@);
    let ghost start = views_of(dest@);
    let n = layers.len();
    let mut i: usize = 0;
    while i < n
        invariant
            n == layers@.len(),
            views == views_of(layers@),
            views.len() == n,
            forall|j: int| 0 <= j < n ==> #[trigger] views[j] == layers@[j]@,
            0 <= i <= n,
            views_of(dest@) == start + pixel_layers(views.take(i as int)),
        decreases n - i,
    {
        let layer = &layers[i];
        proof {
            assert(views.take(i + 1).subrange(0, i as int) =~= views.take(i as int));
            assert(views.take(i + 1)[i as int] == views[i as int]);
        }
        match layer {
            Layer::Group(_) => {
                if let Some(children) = layer.children() {
                    proof {
                        assert(decreases_to!(*layers => layers@[i as int]));
                    }
                    flatten_tree(dest, children);
                    proof {
                        assert(views_of(dest@) =~= start + pixel_layers(views.take(i + 1)));
                    }
                }
            },
            Layer::Pixel(_) => {
                let copy = layer.duplicate();
                proof {
                    crate::data::layer::lemma_views_of_push(dest@, copy);
                }
                dest.push(copy);
                proof {
                    assert(views_of(dest@) =~= start + pixel_layers(views.take(i + 1)));
                }
            },
            _ => {
                proof {
                    assert(views_of(dest@) =~= start + pixel_layers(views.take(i + 1)));
                }
            },
        }
        i = i + 1;
    }
    proof {
        assert(views.take(n as int) =~= views);
    }
}

/// The archive entries of the raster layers of a tree, depth first: the entry name in the
/// layer folder and the stored bytes of the layer's pixels.
pub fn pixel_entries(layers: &Vec<Layer>) -> (r: Vec<(String, Vec<u8>)>)
    ensures
        r@.len() == pixel_layers(views_of(layers@)).len(),
        forall|j: int|
            0 <= j < r@.len() ==> {
                let l = #[trigger] pixel_layers(views_of(layers@))[j];
                &&& r@[j].0@ == LAYER_FOLDER@ + "/"@ + hyphenated(l.id)
                &&& l.pixels() matches Some(p) && r@[j].1@ == deflated(p) && inflated(r@[j].1@)
                    == Some(p)
            },
{
    let mut flat: Vec<Layer> = Vec::new();
    flatten_tree(&mut flat, layers);
    proof {
        lemma_views_of(flat@);
        lemma_pixel_layers_are_pixels(views_of(layers@));
        assert(views_of(Seq::<Layer>::empty()) =~= Seq::<LayerView>::empty());
        assert(views_of(flat@) =~= pixel_layers(views_of(layers@)));
    }
    let ghost pl = pixel_layers(views_of(layers@));
    let mut out: Vec<(String, Vec<u8>)> = Vec::with_capacity(flat.len());
    let mut i: usize = 0;
    while i < flat.len()
        invariant
            0 <= i <= flat@.len(),
            pl == views_of(flat@),
            pl.len() == flat@.len(),
            forall|j: int| 0 <= j < flat@.len() ==> #[trigger] pl[j] == flat@[j]@,
            forall|j: int| 0 <= j < pl.len() ==> (#[trigger] pl[j]).is_pixel(),
            out@.len() == i,
            forall|j: int|
                0 <= j < i ==> {
                    let l = #[trigger] pl[j];
                    &&& out@[j].0@ == LAYER_FOLDER@ + "/"@ + hyphenated(l.id)
                    &&& l.pixels() matches Some(p) && out@[j].1@ == deflated(p) && inflated(
                        out@[j].1@,
                    ) == Some(p)
                },
        decreases flat@.len() - i,
    {
        let layer = &flat[i];
        let name = entry_name(LAYER_FOLDER, layer.id());
        let data = match layer.pixel_data() {
            Some(p) => get_pixel_data(p.as_slice()),
            None => Vec::new(),
        };
        out.push((name, data));
        i = i + 1;
    }
    out
}

/// The archive entries of the reference images, in order: the entry name in the
/// reference folder and the stored bytes of the image's pixels.
pub fn ref_entries(refs: &Vec<RefLayer>) -> (r: Vec<(String, Vec<u8>)>)
    ensures
        r@.len() == refs@.len(),
        forall|j: int|
            0 <= j < r@.len() ==> {
                let p = (#[trigger] refs@[j]).pixels@;
                &&& r@[j].0@ == REFS_FOLDER@ + "/"@ + hyphenated(refs@[j].id)
                &&& r@[j].1@ == deflated(p)
                &&& inflated(r@[j].1@) == Some(p)
            },
{
    let mut out: Vec<(String, Vec<u8>)> = Vec::with_capacity(refs.len());
    let mut i: usize = 0;
    while i < refs.len()
        invariant
            0 <= i <= refs@.len(),
            out@.len() == i,
            forall|j: int|
                0 <= j < i ==> {
                    let p = (#[trigger] refs@[j]).pixels@;
                    &&& out@[j].0@ == REFS_FOLDER@ + "/"@ + hyphenated(refs@[j].id)
                    &&& out@[j].1@ == deflated(p)
                    &&& inflated(out@[j].1@) == Some(p)
                },
        decreases refs@.len() - i,
    {
        let r = &refs[i];
        let name = entry_name(REFS_FOLDER, r.id());
        let data = get_pixel_data(r.pixel_data());
        out.push((name, data));
        i = i + 1;
    }
    out
}

/// Every layer that `pixel_layers` gives is a raster layer.
pub proof fn lemma_pixel_layers_are_pixels(layers: Seq<LayerView>)
    ensures
        forall|j: int|
            0 <= j < pixel_layers(layers).len() ==> (#[trigger] pixel_layers(layers)[j]).is_pixel(),
    decreases layers,
{
    if layers.len() > 0 {
        let last = layers[layers.len() - 1];
        let front = layers.subrange(0, layers.len() - 1);
        lemma_pixel_layers_are_pixels(front);
        if last.is_group() {
            lemma_pixel_layers_are_pixels(last.children);
        }
        let a = pixel_layers(front);
        let b = match last.attrs {
            LayerAttrs::Group { .. } => pixel_layers(last.children),
            LayerAttrs::Pixel { .. } => seq![last],
            _ => Seq::empty(),
        };
        assert forall|j: int| 0 <= j < pixel_layers(layers).len() implies (#[trigger] pixel_layers(layers)[j]).is_pixel() by {
            if j < a.len() {
                assert(pixel_layers(layers)[j] == a[j]);
            } else {
                assert(pixel_layers(layers)[j] == b[j - a.len()]);
            }
        }
    }
}

// ---------------------------------------------------------------------------------------
// Filling the raster layers after opening

/// A layer once the pixels have been read: a group is marked for redrawing and its
/// children are filled, a raster layer takes the pixels stored under its identifier, other
/// layers stay as they are.
pub open spec fn filled_layer(l: LayerView, data: Map<u128, Seq<u8>>) -> LayerView
    decreases l,
{
    match l.attrs {
        LayerAttrs::Group { .. } => l.with_dirty(true).with_children(filled(l.children, data)),
        LayerAttrs::Pixel { .. } => l.with_pixels(data[l.id]),
        _ => l,
    }
}

/// The layers once the pixels have been read.
pub open spec fn filled(layers: Seq<LayerView>, data: Map<u128, Seq<u8>>) -> Seq<LayerView>
    decreases layers,
{
    if layers.len() == 0 {
        Seq::empty()
    } else {
        filled(layers.subrange(0, layers.len() - 1), data).push(
            filled_layer(layers[layers.len() - 1], data),
        )
    }
}

/// `filled` works layer by layer.
pub proof fn lemma_filled(layers: Seq<LayerView>, data: Map<u128, Seq<u8>>)
    ensures
        filled(layers, data).len() == layers.len(),
        forall|j: int|
            0 <= j < layers.len() ==> #[trigger] filled(layers, data)[j] == filled_layer(
                layers[j],
                data,
            ),
    decreases layers.len(),
{
    if layers.len() > 0 {
        let front = layers.subrange(0, layers.len() - 1);
        lemma_filled(front, data);
        assert forall|j: int| 0 <= j < layers.len() implies #[trigger] filled(layers, data)[j]
            == filled_layer(layers[j], data) by {
            if j < layers.len() - 1 {
                assert(front[j] == layers[j]);
            }
        }
    }
}

/// Every raster layer of the tree has pixels in `data`.
pub open spec fn all_pixels_present(layers: Seq<LayerView>, data: Map<u128, Seq<u8>>) -> bool {
    forall|j: int|
        0 <= j < pixel_layers(layers).len() ==> data.contains_key(
            (#[trigger] pixel_layers(layers)[j]).id,
        )
}

/// The byte buffers of a map, as sequences.
pub open spec fn map_view(map: Map<u128, Vec<u8>>) -> Map<u128, Seq<u8>> {
    Map::new(|k: u128| map.contains_key(k), |k: u128| map[k]@)
}

proof fn lemma_pixel_layers_parts(layers: Seq<LayerView>, j: int)
    requires
        0 <= j < layers.len(),
    ensures
        layers[j].is_pixel() ==> pixel_layers(layers).contains(layers[j]),
        layers[j].is_group() ==> forall|x: LayerView|
            pixel_layers(layers[j].children).contains(x) ==> pixel_layers(layers).contains(x),
    decreases layers.len(),
{
    let last = layers[layers.len() - 1];
    let front = layers.subrange(0, layers.len() - 1);
    let a = pixel_layers(front);
    let b = match last.attrs {
        LayerAttrs::Group { .. } => pixel_layers(last.children),
        LayerAttrs::Pixel { .. } => seq![last],
        _ => Seq::empty(),
    };
    assert(pixel_layers(layers) == a + b);
    if j < layers.len() - 1 {
        lemma_pixel_layers_parts(front, j);
        assert(front[j] == layers[j]);
        if layers[j].is_pixel() {
            let k = choose|k: int| 0 <= k < a.len() && a[k] == layers[j];
            assert((a + b)[k] == layers[j]);
        }
        if layers[j].is_group() {
            assert forall|x: LayerView| pixel_layers(layers[j].children).contains(x) implies pixel_layers(layers).contains(x) by {
                assert(a.contains(x));
                let k = choose|k: int| 0 <= k < a.len() && a[k] == x;
                assert((a + b)[k] == x);
            }
        }
    } else {
        if layers[j].is_pixel() {
            assert((a + b)[a.len() as int] == layers[j]);
        }
        if layers[j].is_group() {
            assert forall|x: LayerView| pixel_layers(layers[j].children).contains(x) implies pixel_layers(layers).contains(x) by {
                let k = choose|k: int| 0 <= k < b.len() && b[k] == x;
                assert((a + b)[a.len() + k] == x);
            }
        }
    }
}

/// Gives each raster layer of the tree the pixels stored under its identifier in `map`,
/// and marks each group for redrawing.
pub fn fill_layer_data(map: &HashMap<u128, Vec<u8>>, layers: &mut Vec<Layer>)
    requires
        forall|x: LayerView|
            pixel_layers(views_of(old(layers)@)).contains(x) ==> map@.contains_key(x.id),
    ensures
        views_of(final(layers)@) == filled(views_of(old(layers)@), map_view(map@)),
    decreases *old(layers),
{
    broadcast use vstd::std_specs::hash::group_hash_axioms;

    let ghost old_views = views_of(layers@);
    let ghost data = map_view(map@);
    proof {
        lemma_views_of(layers@);
        lemma_filled(old_views, data);
    }
    let n = layers.len();
    let mut i: usize = 0;
    while i < n
        invariant
            n == layers@.len(),
            n == old(layers)@.len(),
            old_views.len() == n,
            old_views == views_of(old(layers)@),
            data == map_view(map@),
            filled(old_views, data).len() == n,
            forall|j: int|
                0 <= j < n ==> #[trigger] filled(old_views, data)[j] == filled_layer(
                    old_views[j],
                    data,
                ),
            forall|x: LayerView|
                pixel_layers(old_views).contains(x) ==> map@.contains_key(x.id),
            0 <= i <= n,
            forall|j: int| 0 <= j < i ==> #[trigger] layers@[j]@ == filled_layer(old_views[j], data),
            forall|j: int| i <= j < n ==> #[trigger] layers@[j] == old(layers)@[j],
            forall|j: int| 0 <= j < n ==> #[trigger] old_views[j] == old(layers)@[j]@,
        decreases n - i,
    {
        proof {
            lemma_pixel_layers_parts(old_views, i as int);
        }
        let ghost before = layers@;
        let layer = &mut layers[i];
        let ghost lv = layer@;
        let is_group = layer.children().is_some();
        if is_group {
            match layer.children_mut() {
                Some(children) => {
                    proof {
                        assert(decreases_to!(*old(layers) => old(layers)@[i as int]));
                        assert forall|x: LayerView| pixel_layers(views_of(children@)).contains(x) implies map@.contains_key(x.id) by {
                            assert(pixel_layers(old_views).contains(x));
                        }
                    }
                    fill_layer_data(map, children);
                },
                None => {},
            }
            layer.set_dirty(true);
        } else {
            let id = layer.id();
            match map.get(&id) {
                Some(stored) => {
                    match layer.pixel_data_mut() {
                        Some(p) => {
                            *p = copy_bytes(stored);
                        },
                        None => {},
                    }
                },
                None => {},
            }
        }
        proof {
            assert(layers@ == before.update(i as int, layers@[i as int]));
        }
        i = i + 1;
    }
    proof {
        lemma_views_of(layers@);
        assert forall|j: int| 0 <= j < n implies views_of(layers@)[j] == filled(old_views, data)[j] by {
            assert(layers@[j]@ == filled_layer(old_views[j], data));
        }
        assert(views_of(layers@) =~= filled(old_views, data));
    }
}

/// Whether `map` has pixels for every raster layer of the tree, as
/// [`fill_layer_data`] needs.
pub fn pixels_present(map: &HashMap<u128, Vec<u8>>, layers: &Vec<Layer>) -> (r: bool)
    ensures
        r == (forall|x: LayerView|
            pixel_layers(views_of(layers@)).contains(x) ==> map@.contains_key(x.id)),
{
    broadcast use vstd::std_specs::hash::group_hash_axioms;

    let mut flat: Vec<Layer> = Vec::new();
    flatten_tree(&mut flat, layers);
    proof {
        lemma_views_of(flat@);
        assert(views_of(Seq::<Layer>::empty()) =~= Seq::<LayerView>::empty());
        assert(views_of(flat@) =~= pixel_layers(views_of(layers@)));
    }
    let ghost pl = pixel_layers(views_of(layers@));
    let mut i: usize = 0;
    while i < flat.len()
        invariant
            0 <= i <= flat@.len(),
            pl == views_of(flat@),
            pl == pixel_layers(views_of(layers@)),
            pl.len() == flat@.len(),
            forall|j: int| 0 <= j < flat@.len() ==> #[trigger] pl[j] == flat@[j]@,
            forall|j: int| 0 <= j < i ==> map@.contains_key((#[trigger] pl[j]).id),
        decreases flat@.len() - i,
    {
        let id = flat[i].id();
        if map.get(&id).is_none() {
            proof {
                assert(!map@.contains_key(pl[i as int].id));
                assert(pl.contains(pl[i as int]));
            }
            return false;
        }
        i = i + 1;
    }
    proof {
        assert forall|x: LayerView| pl.contains(x) implies map@.contains_key(x.id) by {
            let j = choose|j: int| 0 <= j < pl.len() && pl[j] == x;
            assert(map@.contains_key(pl[j].id));
        }
    }
    true
}

// ---------------------------------------------------------------------------------------
// Exported images

/// The image file types the document can be exported to.
#[derive(Debug, Clone, Copy, PartialEq, Eq, Structural)]
pub enum ImageFormat {
    Png,
    Avif,
    Jpeg,
    Bmp,
    OpenExr,
    WebP,
    Gif,
}

/// The file type that a file name extension asks for; PNG for any other extension.
pub open spec fn format_for_extension(ext: Seq<char>) -> ImageFormat {
    if ext == "png"@ {
        ImageFormat::Png
    } else if ext == "avif"@ {
        ImageFormat::Avif
    } else if ext == "jpeg"@ || ext == "jpg"@ {
        ImageFormat::Jpeg
    } else if ext == "bmp"@ {
        ImageFormat::Bmp
    } else if ext == "exr"@ {
        ImageFormat::OpenExr
    } else if ext == "webp"@ {
        ImageFormat::WebP
    } else if ext == "gif"@ || ext == "jif"@ {
        ImageFormat::Gif
    } else {
        ImageFormat::Png
    }
}

/// Whether two texts are the same.
pub(crate) fn same_text(a: &str, b: &str) -> (r: bool)
    ensures
        r == (a@ == b@),
{
    a.to_owned() == b.to_owned()
}

/// The file type to export to, from the file name's extension.
pub fn image_format(ext: &str) -> (r: ImageFormat)
    ensures
        r == format_for_extension(ext@),
{
    if same_text(ext, "png") {
        ImageFormat::Png
    } else if same_text(ext, "avif") {
        ImageFormat::Avif
    } else if same_text(ext, "jpeg") || same_text(ext, "jpg") {
        ImageFormat::Jpeg
    } else if same_text(ext, "bmp") {
        ImageFormat::Bmp
    } else if same_text(ext, "exr") {
        ImageFormat::OpenExr
    } else if same_text(ext, "webp") {
        ImageFormat::WebP
    } else if same_text(ext, "gif") || same_text(ext, "jif") {
        ImageFormat::Gif
    } else {
        ImageFormat::Png
    }
}

} // verus!
