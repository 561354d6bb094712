# brush

The document model of a layered painting program, verified with Verus.

`src/` is the library. A document (`data::project::BrushProject`) holds a tree of
layers (`data::layer::Layer`): groups, raster layers, fills and filters. Every layer has a
mathematical model (`LayerView`), and the contracts speak of the tree of models:

- `data::layer_tree`: depth-first search for a layer and for the group that holds it,
  by paths into the tree;
- `data::project`: finding, renaming, removing and moving layers;
- `components::canvas`: where a new layer goes, which layer is active after a removal,
  how the active layer moves up and down, and its switches;
- `data::layer_types::group`: the rectangle a group takes from its visible children;
- `data::brush_dab`: which pixels a round dab reaches, each once per stroke;
- `data::file`: archive entry names, the stored form of pixel buffers, and filling the
  raster layers of an opened document.

Identifiers come from `uuid`, compression from `flate2`; each such call stands behind a
small trusted function whose contract says what the crate's source shows.

`app/` holds what stands around the library: the zip archive on disk and the JSON form of
a document, colour conversions and the mixing of colours in floating point, and the
editor's state.
