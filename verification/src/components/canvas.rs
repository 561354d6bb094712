use vstd::prelude::*;

use crate::data::layer::{
    first_index_of, lemma_first_index_of, lemma_views_of, lemma_views_of_insert,
    new_group_view, new_pixel_view, position_of, views_of, Layer, LayerView,
};
use crate::data::layer_tree::{
    find_path, find_view, lemma_find_from, lemma_occurrences_insert,
    lemma_deep_layer_has_parent, lemma_occurrences_replace_at,
    lemma_parent_from, lemma_reachable_is_found, lemma_unique_top_layer, lemma_node_counted, lemma_two_nodes, valid_path, lemma_node_at_replace, lemma_occurrences_remove, lemma_find_replace_found,
    lemma_replace_at_twice, lemma_views_wf, node_at,
    node_occurrences, occurrences, parent_path, parent_view, replace_at,
};
use crate::data::blend_modes::BlendMode;
use crate::data::ids::{uuid_variant, uuid_version};
use crate::data::layer_types::pixel::pixel_buffer_len;
use crate::data::project::{attached, can_attach, detached, removed_layers, BrushProject};

verus! {

/// The position of the first layer with identifier `id` in `layers`, or `default`.
pub open spec fn index_or(layers: Seq<LayerView>, id: u128, default: int) -> int {
    match first_index_of(layers, id) {
        Some(i) => i,
        None => default,
    }
}

/// Where a new layer goes, given the active layer: into the active layer where it is a
/// group (before the active layer's own position among its children, or first); beside the
/// active layer in the group that holds it, or among the top layers, taking the active
/// layer's position; first among the top layers where no layer is active or the active
/// layer is not found.
pub open spec fn pushed(layers: Seq<LayerView>, active: Option<u128>, layer: LayerView) -> Seq<
    LayerView,
> {
    match active {
        Some(a) => match find_path(layers, a) {
            Some(p) => {
                let al = node_at(layers, p);
                if al.is_group() {
                    replace_at(
                        layers,
                        p,
                        al.with_children(al.children.insert(index_or(al.children, a, 0), layer)).regrouped(),
                    )
                } else {
                    match parent_path(layers, a) {
                        Some(pp) => {
                            let par = node_at(layers, pp);
                            replace_at(
                                layers,
                                pp,
                                par.with_children(
                                    par.children.insert(index_or(par.children, a, 0), layer),
                                ).regrouped(),
                            )
                        },
                        None => layers.insert(index_or(layers, a, 0), layer),
                    }
                }
            },
            None => layers.insert(0, layer),
        },
        None => layers.insert(0, layer),
    }
}

/// Adding a layer adds exactly that layer and what it holds: for every identifier, the
/// count of layers that carry it grows by the count in the new layer's own tree.
pub proof fn law_push_adds_the_layer(layers: Seq<LayerView>, active: Option<u128>, layer: LayerView, id: u128)
    ensures
        occurrences(pushed(layers, active, layer), id) == occurrences(layers, id) + node_occurrences(
            layer,
            id,
        ),
{
    lemma_occurrences_insert(layers, 0, layer, id);
    if let Some(a) = active {
        lemma_find_from(layers, a, 0);
        lemma_parent_from(layers, a, 0);
        if let Some(p) = find_path(layers, a) {
            let al = node_at(layers, p);
            if al.is_group() {
                lemma_first_index_of(al.children, a);
                let k = index_or(al.children, a, 0);
                lemma_occurrences_insert(al.children, k, layer, id);
                let new = al.with_children(al.children.insert(k, layer)).regrouped();
                lemma_occurrences_replace_at(layers, p, new, id);
            } else {
                match parent_path(layers, a) {
                    Some(pp) => {
                        let par = node_at(layers, pp);
                        lemma_first_index_of(par.children, a);
                        let k = index_or(par.children, a, 0);
                        lemma_occurrences_insert(par.children, k, layer, id);
                        let new = par.with_children(par.children.insert(k, layer)).regrouped();
                        lemma_occurrences_replace_at(layers, pp, new, id);
                    },
                    None => {
                        lemma_first_index_of(layers, a);
                        lemma_occurrences_insert(layers, index_or(layers, a, 0), layer, id);
                    },
                }
            }
        }
    }
}

/// A new layer added while the `k`-th child of a group is active, that child not being a
/// group itself, goes into that group just before the active child: the group's children
/// are the old ones with the new layer put at the active child's former position, and no
/// other layer of the tree changes.
pub proof fn law_push_goes_just_before_the_active_child(
    layers: Seq<LayerView>,
    pp: Seq<int>,
    k: int,
    layer: LayerView,
)
    requires
        valid_path(layers, pp),
        0 <= k < node_at(layers, pp).children.len(),
        parent_path(layers, node_at(layers, pp).children[k].id) == Some(pp),
        forall|j: int|
            0 <= j < k ==> #[trigger] node_at(layers, pp).children[j].id != node_at(
                layers,
                pp,
            ).children[k].id,
        find_view(layers, node_at(layers, pp).children[k].id) matches Some(v) && !v.is_group(),
    ensures
        ({
            let par = node_at(layers, pp);
            let ch = par.children;
            let after = pushed(layers, Some(ch[k].id), layer);
            &&& valid_path(after, pp)
            &&& node_at(after, pp).id == par.id
            &&& node_at(after, pp).children == ch.subrange(0, k) + seq![layer] + ch.subrange(
                k,
                ch.len() as int,
            )
            &&& after == replace_at(layers, pp, node_at(after, pp))
        }),
{
    let par = node_at(layers, pp);
    let ch = par.children;
    let a = ch[k].id;
    lemma_first_index_of(ch, a);
    assert(first_index_of(ch, a) == Some(k)) by {
        match first_index_of(ch, a) {
            Some(m) => {
                if m > k {
                    assert(ch[k].id != a);
                }
            },
            None => {
                assert(ch[k].id != a);
            },
        }
    }
    let new = par.with_children(ch.insert(k, layer)).regrouped();
    lemma_node_at_replace(layers, pp, new);
    assert(ch.insert(k, layer) =~= ch.subrange(0, k) + seq![layer] + ch.subrange(k, ch.len() as int));
}

/// A new layer added while a top layer other than a group is active (its identifier
/// occurring once) goes among the top layers just before it, at its former position.
pub proof fn law_push_goes_just_before_the_active_top_layer(
    layers: Seq<LayerView>,
    i: int,
    layer: LayerView,
)
    requires
        0 <= i < layers.len(),
        occurrences(layers, layers[i].id) == 1,
        !layers[i].is_group(),
    ensures
        pushed(layers, Some(layers[i].id), layer) == layers.subrange(0, i) + seq![layer]
            + layers.subrange(i, layers.len() as int),
{
    lemma_unique_top_layer(layers, i);
    assert(layers.insert(i, layer) =~= layers.subrange(0, i) + seq![layer] + layers.subrange(
        i,
        layers.len() as int,
    ));
}

/// A new layer added while a top group is active (its identifier occurring once) becomes
/// that group's first child; nothing else changes.
pub proof fn law_push_into_the_active_top_group(layers: Seq<LayerView>, i: int, layer: LayerView)
    requires
        0 <= i < layers.len(),
        occurrences(layers, layers[i].id) == 1,
        layers[i].is_group(),
    ensures
        ({
            let after = pushed(layers, Some(layers[i].id), layer);
            &&& after.len() == layers.len()
            &&& forall|j: int| 0 <= j < layers.len() && j != i ==> #[trigger] after[j] == layers[j]
            &&& after[i].id == layers[i].id
            &&& after[i].children == seq![layer] + layers[i].children
        }),
{
    let a = layers[i].id;
    lemma_unique_top_layer(layers, i);
    lemma_occurrences_remove(layers, i, a);
    let ch = layers[i].children;
    assert(occurrences(ch, a) == 0);
    lemma_first_index_of(ch, a);
    if first_index_of(ch, a) is Some {
        lemma_occurrences_remove(ch, first_index_of(ch, a).unwrap(), a);
    }
    assert(ch.insert(0, layer) =~= seq![layer] + ch);
}

/// Adds `layer` to the document next to the active layer, as [`pushed`] says.
pub fn push_layer(project: &mut BrushProject, active: Option<u128>, layer: Layer)
    ensures
        final(project)@ == (crate::data::project::ProjectView {
            layers: pushed(old(project)@.layers, active, layer@),
            ..old(project)@
        }),
{
    let ghost views = project@.layers;
    proof {
        lemma_find_from(views, active->0, 0);
        lemma_parent_from(views, active->0, 0);
        lemma_first_index_of(views, active->0);
        lemma_views_of(project.layers@);
    }
    if let Some(active_id) = active {
        let (found, is_group) = match project.find_layer(active_id) {
            Some(l) => (true, l.children().is_some()),
            None => (false, false),
        };
        if found {
            if is_group {
                if let Some(active_layer) = project.find_layer_mut(active_id) {
                    let idx = match active_layer.children() {
                        Some(children) => {
                            proof {
                                lemma_first_index_of(views_of(children@), active_id);
                            }
                            match position_of(children, active_id) {
                                Some(i) => i,
                                None => 0,
                            }
                        },
                        None => 0,
                    };
                    active_layer.append(idx, layer);
                }
            } else {
                let has_parent = project.find_parent(active_id).is_some();
                if has_parent {
                    if let Some(parent) = project.find_parent_mut(active_id) {
                        let idx = match parent.children() {
                            Some(children) => {
                                proof {
                                    lemma_first_index_of(views_of(children@), active_id);
                                }
                                match position_of(children, active_id) {
                                    Some(i) => i,
                                    None => 0,
                                }
                            },
                            None => 0,
                        };
                        parent.append(idx, layer);
                    }
                } else {
                    let idx = match position_of(&project.layers, active_id) {
                        Some(i) => i,
                        None => 0,
                    };
                    proof {
                        lemma_views_of_insert(project.layers@, idx as int, layer);
                    }
                    project.layers.insert(idx, layer);
                }
            }
            return ;
        }
    }
    proof {
        lemma_views_of_insert(project.layers@, 0, layer);
    }
    project.layers.insert(0, layer);
}

/// The layers after `f` is applied to the active layer (the first layer with its
/// identifier); unchanged where no layer is active or it is not found.
pub open spec fn changed_active(
    layers: Seq<LayerView>,
    active: Option<u128>,
    f: spec_fn(LayerView) -> LayerView,
) -> Seq<LayerView> {
    match active {
        Some(a) => match find_path(layers, a) {
            Some(p) => replace_at(layers, p, f(node_at(layers, p))),
            None => layers,
        },
        None => layers,
    }
}

/// Sets the active layer's opacity (the bit pattern of an IEEE-754 single).
pub fn set_layer_opacity(project: &mut BrushProject, active: Option<u128>, opacity: u32)
    ensures
        final(project)@ == (crate::data::project::ProjectView {
            layers: changed_active(old(project)@.layers, active, |v: LayerView| v.with_opacity(opacity)),
            ..old(project)@
        }),
{
    if let Some(a) = active {
        if let Some(layer) = project.find_layer_mut(a) {
            layer.set_opacity(opacity);
        }
    }
}

/// Sets the active layer's blend mode.
pub fn set_layer_blend(project: &mut BrushProject, active: Option<u128>, blend_mode: BlendMode)
    ensures
        final(project)@ == (crate::data::project::ProjectView {
            layers: changed_active(old(project)@.layers, active, |v: LayerView| v.with_blend_mode(blend_mode)),
            ..old(project)@
        }),
{
    if let Some(a) = active {
        if let Some(layer) = project.find_layer_mut(a) {
            layer.set_blend_mode(blend_mode);
        }
    }
}

/// Flips the active layer's visibility.
pub fn toggle_visible(project: &mut BrushProject, active: Option<u128>)
    ensures
        final(project)@ == (crate::data::project::ProjectView {
            layers: changed_active(old(project)@.layers, active, |v: LayerView| v.with_visible(!v.visible())),
            ..old(project)@
        }),
{
    if let Some(a) = active {
        if let Some(layer) = project.find_layer_mut(a) {
            let v = layer.visible();
            layer.set_visible(!v);
        }
    }
}

/// Flips whether the active layer is clipped to the layer below.
pub fn toggle_alpha_clip(project: &mut BrushProject, active: Option<u128>)
    ensures
        final(project)@ == (crate::data::project::ProjectView {
            layers: changed_active(old(project)@.layers, active, |v: LayerView| v.with_alpha_clip(!v.alpha_clip())),
            ..old(project)@
        }),
{
    if let Some(a) = active {
        if let Some(layer) = project.find_layer_mut(a) {
            let v = layer.alpha_clip();
            layer.set_alpha_clip(!v);
        }
    }
}

/// Flips whether the active layer's transparent pixels stay transparent.
pub fn toggle_alpha_lock(project: &mut BrushProject, active: Option<u128>)
    ensures
        final(project)@ == (crate::data::project::ProjectView {
            layers: changed_active(old(project)@.layers, active, |v: LayerView| v.with_alpha_lock(!v.alpha_lock())),
            ..old(project)@
        }),
{
    if let Some(a) = active {
        if let Some(layer) = project.find_layer_mut(a) {
            let v = layer.alpha_lock();
            layer.set_alpha_lock(!v);
        }
    }
}

/// Flips whether the active group blends its children with the layers below.
pub fn toggle_passthrough(project: &mut BrushProject, active: Option<u128>)
    ensures
        final(project)@ == (crate::data::project::ProjectView {
            layers: changed_active(old(project)@.layers, active, |v: LayerView| v.with_passthrough(!v.passthrough())),
            ..old(project)@
        }),
{
    if let Some(a) = active {
        if let Some(layer) = project.find_layer_mut(a) {
            let v = layer.passthrough();
            layer.set_passthrough(!v);
        }
    }
}

/// Flips whether the active layer is locked against editing.
pub fn toggle_lock(project: &mut BrushProject, active: Option<u128>)
    ensures
        final(project)@ == (crate::data::project::ProjectView {
            layers: changed_active(old(project)@.layers, active, |v: LayerView| v.with_lock(!v.lock())),
            ..old(project)@
        }),
{
    if let Some(a) = active {
        if let Some(layer) = project.find_layer_mut(a) {
            let v = layer.lock();
            layer.set_lock(!v);
        }
    }
}

/// Adds a new transparent raster layer the size of the canvas, named "New pixel layer",
/// next to the active layer, and gives its identifier.
pub fn new_pixel_layer(project: &mut BrushProject, active: Option<u128>) -> (id: u128)
    requires
        pixel_buffer_len(old(project).width, old(project).height) <= u32::MAX,
    ensures
        uuid_version(id) == 4,
        uuid_variant(id) == 2,
        final(project)@ == (crate::data::project::ProjectView {
            layers: pushed(
                old(project)@.layers,
                active,
                new_pixel_view(id, "New pixel layer"@, old(project).width, old(project).height),
            ),
            ..old(project)@
        }),
{
    let layer = Layer::new_pixel("New pixel layer".to_owned(), project.width, project.height);
    let id = layer.id();
    push_layer(project, active, layer);
    id
}

/// Adds a new empty group, named "New Group", next to the active layer, and gives its
/// identifier.
pub fn new_group_layer(project: &mut BrushProject, active: Option<u128>) -> (id: u128)
    ensures
        uuid_version(id) == 4,
        uuid_variant(id) == 2,
        final(project)@ == (crate::data::project::ProjectView {
            layers: pushed(old(project)@.layers, active, new_group_view(id, "New Group"@)),
            ..old(project)@
        }),
{
    let layer = Layer::new_group("New Group".to_owned());
    let id = layer.id();
    push_layer(project, active, layer);
    id
}

/// The identifier of the layer next to `a` in `siblings`: the following one, or the one
/// before where `a` is last.
pub open spec fn neighbour(siblings: Seq<LayerView>, a: u128) -> Option<u128> {
    let idx = index_or(siblings, a, 0);
    let j = if siblings.len() == idx + 1 {
        idx - 1
    } else {
        idx + 1
    };
    if 0 <= j < siblings.len() {
        Some(siblings[j].id)
    } else {
        None
    }
}

/// The layer that is active once the active layer `a` is removed: its neighbour among its
/// siblings; the group that held it where it was the group's only child; `None` where it
/// was the only top layer.
pub open spec fn active_after_remove(layers: Seq<LayerView>, a: u128) -> Option<u128> {
    match parent_view(layers, a) {
        Some(par) => if par.children.len() != 1 {
            match neighbour(par.children, a) {
                Some(n) => Some(n),
                None => Some(a),
            }
        } else {
            Some(par.id)
        },
        None => if layers.len() != 1 {
            match neighbour(layers, a) {
                Some(n) => Some(n),
                None => Some(a),
            }
        } else {
            None
        },
    }
}

/// Removing a top layer (whose identifier occurs once) beside which there is another top
/// layer makes the layer after it active, or the one before it where it was last; that
/// layer is never the removed one.
pub proof fn law_remove_activates_the_next_top_layer(layers: Seq<LayerView>, i: int)
    requires
        0 <= i < layers.len(),
        layers.len() >= 2,
        occurrences(layers, layers[i].id) == 1,
    ensures
        active_after_remove(layers, layers[i].id) == Some(
            if i + 1 < layers.len() {
                layers[i + 1].id
            } else {
                layers[i - 1].id
            },
        ),
        active_after_remove(layers, layers[i].id) != Some(layers[i].id),
{
    lemma_unique_top_layer(layers, i);
    if i + 1 < layers.len() {
        assert(layers[i + 1].id != layers[i].id);
    } else {
        assert(layers[i - 1].id != layers[i].id);
    }
}

/// Removing the `k`-th child of a group that holds other children makes the child after
/// it active, or the one before it where it was last; where its identifier occurs once in
/// the tree, that child is never the removed one.
pub proof fn law_remove_activates_the_next_sibling(layers: Seq<LayerView>, pp: Seq<int>, k: int)
    requires
        valid_path(layers, pp),
        node_at(layers, pp).is_group(),
        node_at(layers, pp).children.len() >= 2,
        0 <= k < node_at(layers, pp).children.len(),
        parent_path(layers, node_at(layers, pp).children[k].id) == Some(pp),
        forall|j: int|
            0 <= j < k ==> #[trigger] node_at(layers, pp).children[j].id != node_at(
                layers,
                pp,
            ).children[k].id,
    ensures
        ({
            let ch = node_at(layers, pp).children;
            &&& active_after_remove(layers, ch[k].id) == Some(
                if k + 1 < ch.len() {
                    ch[k + 1].id
                } else {
                    ch[k - 1].id
                },
            )
            &&& occurrences(layers, ch[k].id) == 1 ==> active_after_remove(layers, ch[k].id)
                != Some(ch[k].id)
        }),
{
    let ch = node_at(layers, pp).children;
    let a = ch[k].id;
    lemma_first_index_of(ch, a);
    assert(first_index_of(ch, a) == Some(k)) by {
        match first_index_of(ch, a) {
            Some(m) => {
                if m > k {
                    assert(ch[k].id != a);
                }
            },
            None => {
                assert(ch[k].id != a);
            },
        }
    }
    if occurrences(layers, a) == 1 {
        lemma_node_counted(layers, pp, a);
        let j = if k + 1 < ch.len() {
            k + 1
        } else {
            k - 1
        };
        lemma_two_nodes(ch, k, j, a);
        assert(ch[j].id != a);
    }
}

fn neighbour_of(siblings: &Vec<Layer>, a: u128) -> (r: Option<u128>)
    requires
        siblings@.len() >= 2,
    ensures
        r == neighbour(views_of(siblings@), a),
{
    proof {
        lemma_views_of(siblings@);
        lemma_first_index_of(views_of(siblings@), a);
    }
    let idx = match position_of(siblings, a) {
        Some(i) => i,
        None => 0,
    };
    let j = if siblings.len() == idx + 1 {
        idx - 1
    } else {
        idx + 1
    };
    if j < siblings.len() {
        Some(siblings[j].id())
    } else {
        None
    }
}

/// Removes the active layer and says which layer is active afterwards; with no active
/// layer nothing changes.
pub fn remove_layer(project: &mut BrushProject, active: Option<u128>) -> (r: Option<u128>)
    requires
        active matches Some(a) ==> (parent_path(old(project)@.layers, a) is None
            ==> old(project)@.layers.len() >= 1),
    ensures
        match active {
            Some(a) => r == active_after_remove(old(project)@.layers, a) && final(project)@ == (
            match removed_layers(old(project)@.layers, a) {
                Some(l) => crate::data::project::ProjectView { layers: l, ..old(project)@ },
                None => old(project)@,
            }),
            None => r is None && *final(project) == *old(project),
        },
{
    match active {
        None => None,
        Some(a) => {
            let ghost views = project@.layers;
            proof {
                lemma_parent_from(views, a, 0);
                lemma_views_of(project.layers@);
            }
            let next = match project.find_parent(a) {
                Some(parent) => {
                    match parent.children() {
                        Some(children) => {
                            proof {
                                lemma_views_of(children@);
                                lemma_first_index_of(views_of(children@), a);
                            }
                            if children.len() - 1 != 0 {
                                match neighbour_of(children, a) {
                                    Some(n) => Some(n),
                                    None => Some(a),
                                }
                            } else {
                                Some(parent.id())
                            }
                        },
                        None => Some(a),
                    }
                },
                None => {
                    if project.layers.len() - 1 != 0 {
                        match neighbour_of(&project.layers, a) {
                            Some(n) => Some(n),
                            None => Some(a),
                        }
                    } else {
                        None
                    }
                },
            };
            project.remove_layer(a);
            next
        },
    }
}

/// What moving the active layer `a` up does: the position, the group it leaves (`None` for
/// the top layers) and the group it goes to (`None` for the top layers). Up means into
/// the group just above it (at its end), or one place up among its siblings, or, where it
/// is first in its group, out of the group to the group's own place.
pub open spec fn up_plan(layers: Seq<LayerView>, a: u128) -> Option<(int, Option<u128>, Option<u128>)> {
    match find_view(layers, a) {
        None => None,
        Some(_) => match parent_view(layers, a) {
            Some(par) => {
                let ch = par.children;
                let idx = index_or(ch, a, ch.len() as int);
                if idx != 0 {
                    if idx - 1 < ch.len() && ch[idx - 1].is_group() {
                        Some((ch[idx - 1].children.len() as int, Some(par.id), Some(ch[idx - 1].id)))
                    } else {
                        Some((idx - 1, Some(par.id), Some(par.id)))
                    }
                } else {
                    match parent_view(layers, par.id) {
                        Some(gp) => Some(
                            (
                                index_or(gp.children, par.id, gp.children.len() as int),
                                Some(par.id),
                                Some(gp.id),
                            ),
                        ),
                        None => Some(
                            (index_or(layers, par.id, ch.len() as int), Some(par.id), None),
                        ),
                    }
                }
            },
            None => {
                let idx = index_or(layers, a, layers.len() as int);
                if idx != 0 && idx - 1 < layers.len() {
                    if layers[idx - 1].is_group() {
                        Some((layers[idx - 1].children.len() as int, None, Some(layers[idx - 1].id)))
                    } else {
                        Some((idx - 1, None, None))
                    }
                } else {
                    None
                }
            },
        },
    }
}

/// What moving the active layer `a` down does, as for [`up_plan`]: into the group just
/// below it (first), or one place down among its siblings, or, where it is last in its
/// group, out of the group to just after the group, one level up. The last of the top
/// layers stays where it is.
pub open spec fn down_plan(layers: Seq<LayerView>, a: u128) -> Option<(int, Option<u128>, Option<u128>)> {
    match find_view(layers, a) {
        None => None,
        Some(_) => match parent_view(layers, a) {
            Some(par) => {
                let ch = par.children;
                let idx = index_or(ch, a, ch.len() as int);
                if idx + 1 < ch.len() {
                    if ch[idx + 1].is_group() {
                        Some((0, Some(par.id), Some(ch[idx + 1].id)))
                    } else {
                        Some((idx + 1, Some(par.id), Some(par.id)))
                    }
                } else {
                    match parent_view(layers, par.id) {
                        Some(gp) => Some(
                            (
                                index_or(gp.children, par.id, gp.children.len() as int) + 1,
                                Some(par.id),
                                Some(gp.id),
                            ),
                        ),
                        None => Some(
                            (index_or(layers, par.id, ch.len() as int) + 1, Some(par.id), None),
                        ),
                    }
                }
            },
            None => {
                let idx = index_or(layers, a, layers.len() as int);
                if idx != layers.len() && idx + 1 < layers.len() {
                    if layers[idx + 1].is_group() {
                        Some((0, None, Some(layers[idx + 1].id)))
                    } else {
                        Some((idx + 1, None, None))
                    }
                } else {
                    None
                }
            },
        },
    }
}

/// The layers after carrying out a plan on the layer `a`.
pub open spec fn planned(
    layers: Seq<LayerView>,
    a: u128,
    plan: Option<(int, Option<u128>, Option<u128>)>,
) -> Seq<LayerView> {
    match plan {
        Some((idx, op, np)) => {
            let l = find_view(layers, a).unwrap();
            attached(detached(layers, l, op), l, idx, np)
        },
        None => layers,
    }
}

/// Moving up a top layer (whose identifier occurs once) that has a layer other than a
/// group just above it exchanges the two: the moved layer takes the place above, the
/// other layer takes its place, and nothing else changes.
pub proof fn law_move_up_swaps_with_the_layer_above(layers: Seq<LayerView>, i: int)
    requires
        1 <= i < layers.len(),
        occurrences(layers, layers[i].id) == 1,
        !layers[i - 1].is_group(),
    ensures
        up_plan(layers, layers[i].id) is Some,
        planned(layers, layers[i].id, up_plan(layers, layers[i].id)) == layers.update(
            i - 1,
            layers[i],
        ).update(i, layers[i - 1]),
{
    let a = layers[i].id;
    lemma_unique_top_layer(layers, i);
    assert(find_view(layers, a) == Some(layers[i]));
    let d = layers.remove(i);
    assert(detached(layers, layers[i], None) == d);
    assert(d.insert(i - 1, layers[i]) =~= layers.update(i - 1, layers[i]).update(i, layers[i - 1]));
}

/// Moving down a top layer (whose identifier occurs once) that has a layer other than a
/// group just below it exchanges the two: the moved layer takes the place below, the
/// other layer takes its place, and nothing else changes.
pub proof fn law_move_down_swaps_with_the_layer_below(layers: Seq<LayerView>, i: int)
    requires
        0 <= i,
        i + 1 < layers.len(),
        occurrences(layers, layers[i].id) == 1,
        !layers[i + 1].is_group(),
    ensures
        down_plan(layers, layers[i].id) is Some,
        planned(layers, layers[i].id, down_plan(layers, layers[i].id)) == layers.update(
            i,
            layers[i + 1],
        ).update(i + 1, layers[i]),
{
    let a = layers[i].id;
    lemma_unique_top_layer(layers, i);
    assert(find_view(layers, a) == Some(layers[i]));
    let d = layers.remove(i);
    assert(detached(layers, layers[i], None) == d);
    assert(d.insert(i + 1, layers[i]) =~= layers.update(i, layers[i + 1]).update(i + 1, layers[i]));
}

/// Moving up the `k`-th child of a group, where the child just above it is not a group,
/// exchanges the two within the group; the rest of the tree stays as it was. (The group is
/// the one the searches find for the child and for the group's identifier.)
pub proof fn law_move_up_swaps_within_its_group(layers: Seq<LayerView>, pp: Seq<int>, k: int)
    requires
        valid_path(layers, pp),
        node_at(layers, pp).is_group(),
        1 <= k < node_at(layers, pp).children.len(),
        !node_at(layers, pp).children[k - 1].is_group(),
        !node_at(layers, pp).children[k].is_filter(),
        forall|j: int|
            0 <= j < k ==> #[trigger] node_at(layers, pp).children[j].id != node_at(
                layers,
                pp,
            ).children[k].id,
        find_view(layers, node_at(layers, pp).children[k].id) == Some(
            node_at(layers, pp).children[k],
        ),
        parent_path(layers, node_at(layers, pp).children[k].id) == Some(pp),
        find_path(layers, node_at(layers, pp).id) == Some(pp),
    ensures
        ({
            let par = node_at(layers, pp);
            let ch = par.children;
            let a = ch[k].id;
            &&& up_plan(layers, a) is Some
            &&& planned(layers, a, up_plan(layers, a)) == replace_at(
                layers,
                pp,
                par.with_children(ch.update(k - 1, ch[k]).update(k, ch[k - 1])).regrouped(),
            )
        }),
{
    let par = node_at(layers, pp);
    let ch = par.children;
    let a = ch[k].id;
    lemma_first_index_of(ch, a);
    assert(first_index_of(ch, a) == Some(k)) by {
        match first_index_of(ch, a) {
            Some(m) => {
                if m > k {
                    assert(ch[k].id != a);
                }
            },
            None => {
                assert(ch[k].id != a);
            },
        }
    }
    let l = ch[k];
    let new1 = par.with_children(ch.remove(k)).regrouped();
    assert(par.without_child(l) == new1);
    let d = replace_at(layers, pp, new1);
    assert(detached(layers, l, Some(par.id)) == d);
    lemma_find_replace_found(layers, pp, new1, par.id, 0);
    lemma_node_at_replace(layers, pp, new1);
    let moved = ch.remove(k).insert(k - 1, l);
    let y = new1.with_children(moved).regrouped();
    lemma_replace_at_twice(layers, pp, new1, y);
    assert(moved =~= ch.update(k - 1, ch[k]).update(k, ch[k - 1]));
    assert(y =~= par.with_children(moved).regrouped());
}

/// Moving down the `k`-th child of a group, where the child just below it is not a group,
/// exchanges the two within the group; the rest of the tree stays as it was. (The group is
/// the one the searches find for the child and for the group's identifier.)
pub proof fn law_move_down_swaps_within_its_group(layers: Seq<LayerView>, pp: Seq<int>, k: int)
    requires
        valid_path(layers, pp),
        node_at(layers, pp).is_group(),
        0 <= k && k + 1 < node_at(layers, pp).children.len(),
        !node_at(layers, pp).children[k + 1].is_group(),
        !node_at(layers, pp).children[k].is_filter(),
        forall|j: int|
            0 <= j < k ==> #[trigger] node_at(layers, pp).children[j].id != node_at(
                layers,
                pp,
            ).children[k].id,
        find_view(layers, node_at(layers, pp).children[k].id) == Some(
            node_at(layers, pp).children[k],
        ),
        parent_path(layers, node_at(layers, pp).children[k].id) == Some(pp),
        find_path(layers, node_at(layers, pp).id) == Some(pp),
    ensures
        ({
            let par = node_at(layers, pp);
            let ch = par.children;
            let a = ch[k].id;
            &&& down_plan(layers, a) is Some
            &&& planned(layers, a, down_plan(layers, a)) == replace_at(
                layers,
                pp,
                par.with_children(ch.update(k, ch[k + 1]).update(k + 1, ch[k])).regrouped(),
            )
        }),
{
    let par = node_at(layers, pp);
    let ch = par.children;
    let a = ch[k].id;
    lemma_first_index_of(ch, a);
    assert(first_index_of(ch, a) == Some(k)) by {
        match first_index_of(ch, a) {
            Some(m) => {
                if m > k {
                    assert(ch[k].id != a);
                }
            },
            None => {
                assert(ch[k].id != a);
            },
        }
    }
    let l = ch[k];
    let new1 = par.with_children(ch.remove(k)).regrouped();
    assert(par.without_child(l) == new1);
    let d = replace_at(layers, pp, new1);
    assert(detached(layers, l, Some(par.id)) == d);
    lemma_find_replace_found(layers, pp, new1, par.id, 0);
    lemma_node_at_replace(layers, pp, new1);
    let moved = ch.remove(k).insert(k + 1, l);
    let y = new1.with_children(moved).regrouped();
    lemma_replace_at_twice(layers, pp, new1, y);
    assert(moved =~= ch.update(k, ch[k + 1]).update(k + 1, ch[k]));
    assert(y =~= par.with_children(moved).regrouped());
}

/// A plan can be carried out: its target takes a layer at its position.
pub open spec fn plan_fits(
    layers: Seq<LayerView>,
    a: u128,
    plan: Option<(int, Option<u128>, Option<u128>)>,
) -> bool {
    match plan {
        Some((idx, op, np)) => can_attach(detached(layers, find_view(layers, a).unwrap(), op), idx, np),
        None => true,
    }
}

/// The position of `id` among `layers`, or `default`.
fn position_or(layers: &Vec<Layer>, id: u128, default: usize) -> (r: usize)
    ensures
        r as int == index_or(views_of(layers@), id, default as int),
{
    match position_of(layers, id) {
        Some(i) => i,
        None => default,
    }
}

/// The plan for moving the active layer `a` up.
pub fn plan_move_up(project: &BrushProject, a: u128) -> (r: Option<(usize, Option<u128>, Option<u128>)>)
    ensures
        match up_plan(project@.layers, a) {
            Some((i, op, np)) => r matches Some((j, op2, np2)) && j as int == i && op2 == op && np2
                == np,
            None => r is None,
        },
{
    let ghost views = project@.layers;
    proof {
        lemma_views_of(project.layers@);
        lemma_parent_from(views, a, 0);
    }
    if project.find_layer(a).is_none() {
        return None;
    }
    match project.find_parent(a) {
        Some(parent) => {
            let pid = parent.id();
            match parent.children() {
                Some(children) => {
                    proof {
                        lemma_views_of(children@);
                        lemma_parent_from(views, pid, 0);
                    }
                    let idx = position_or(children, a, children.len());
                    if idx != 0 {
                        if idx - 1 < children.len() && children[idx - 1].children().is_some() {
                            let prev = &children[idx - 1];
                            let n = match prev.children() {
                                Some(pc) => {
                                    proof {
                                        lemma_views_of(pc@);
                                    }
                                    pc.len()
                                },
                                None => 0,
                            };
                            Some((n, Some(pid), Some(prev.id())))
                        } else {
                            Some((idx - 1, Some(pid), Some(pid)))
                        }
                    } else {
                        match project.find_parent(pid) {
                            Some(gp) => {
                                let gi = match gp.children() {
                                    Some(gch) => {
                                        proof {
                                            lemma_views_of(gch@);
                                        }
                                        position_or(gch, pid, gch.len())
                                    },
                                    None => 0,
                                };
                                Some((gi, Some(pid), Some(gp.id())))
                            },
                            None => {
                                let ri = position_or(&project.layers, pid, children.len());
                                Some((ri, Some(pid), None))
                            },
                        }
                    }
                },
                None => None,
            }
        },
        None => {
            let n = project.layers.len();
            let idx = position_or(&project.layers, a, n);
            if idx != 0 && idx - 1 < n {
                let prev = &project.layers[idx - 1];
                match prev.children() {
                    Some(pc) => {
                        proof {
                            lemma_views_of(pc@);
                        }
                        Some((pc.len(), None, Some(prev.id())))
                    },
                    None => Some((idx - 1, None, None)),
                }
            } else {
                None
            }
        },
    }
}

/// The plan for moving the active layer `a` down.
pub fn plan_move_down(project: &BrushProject, a: u128) -> (r: Option<(usize, Option<u128>, Option<u128>)>)
    ensures
        match down_plan(project@.layers, a) {
            Some((i, op, np)) => r matches Some((j, op2, np2)) && j as int == i && op2 == op && np2
                == np,
            None => r is None,
        },
{
    let ghost views = project@.layers;
    proof {
        lemma_views_of(project.layers@);
        lemma_parent_from(views, a, 0);
    }
    if project.find_layer(a).is_none() {
        return None;
    }
    match project.find_parent(a) {
        Some(parent) => {
            let pid = parent.id();
            match parent.children() {
                Some(children) => {
                    proof {
                        lemma_views_of(children@);
                        lemma_first_index_of(views_of(children@), a);
                        lemma_parent_from(views, pid, 0);
                        lemma_first_index_of(views, pid);
                    }
                    let idx = position_or(children, a, children.len());
                    if idx + 1 < children.len() {
                        let next = &children[idx + 1];
                        if next.children().is_some() {
                            Some((0, Some(pid), Some(next.id())))
                        } else {
                            Some((idx + 1, Some(pid), Some(pid)))
                        }
                    } else {
                        match project.find_parent(pid) {
                            Some(gp) => {
                                let gi = match gp.children() {
                                    Some(gch) => {
                                        proof {
                                            lemma_views_of(gch@);
                                            lemma_first_index_of(views_of(gch@), pid);
                                        }
                                        position_or(gch, pid, gch.len())
                                    },
                                    None => 0,
                                };
                                Some((gi + 1, Some(pid), Some(gp.id())))
                            },
                            None => {
                                proof {
                                    let pp = parent_path(views, a).unwrap();
                                    lemma_reachable_is_found(views, pp, pid, 0);
                                    lemma_find_from(views, pid, 0);
                                    lemma_views_wf(project.layers@);
                                    let q = find_path(views, pid).unwrap();
                                    if q.len() > 1 {
                                        lemma_deep_layer_has_parent(views, pid, 0);
                                    }
                                    assert(views[q[0]].id == pid);
                                    lemma_first_index_of(views, pid);
                                }
                                let n = project.layers.len();
                                let ri = position_or(&project.layers, pid, children.len());
                                assert(ri < n);
                                Some((ri + 1, Some(pid), None))
                            },
                        }
                    }
                },
                None => None,
            }
        },
        None => {
            proof {
                lemma_first_index_of(views, a);
            }
            let n = project.layers.len();
            let idx = position_or(&project.layers, a, n);
            if idx != n && idx + 1 < n {
                let next = &project.layers[idx + 1];
                if next.children().is_some() {
                    Some((0, None, Some(next.id())))
                } else {
                    Some((idx + 1, None, None))
                }
            } else {
                None
            }
        },
    }
}

/// Carries out a move plan on the layer with identifier `a`.
fn carry_out(project: &mut BrushProject, a: u128, plan: Option<(usize, Option<u128>, Option<u128>)>)
    requires
        plan_fits(
            old(project)@.layers,
            a,
            match plan {
                Some((i, op, np)) => Some((i as int, op, np)),
                None => None,
            },
        ),
        plan is Some ==> find_view(old(project)@.layers, a) is Some,
    ensures
        final(project)@ == (crate::data::project::ProjectView {
            layers: planned(
                old(project)@.layers,
                a,
                match plan {
                    Some((i, op, np)) => Some((i as int, op, np)),
                    None => None,
                },
            ),
            ..old(project)@
        }),
{
    if let Some((idx, op, np)) = plan {
        let layer = match project.find_layer(a) {
            Some(l) => l.duplicate(),
            None => {
                return ;
            },
        };
        project.move_layer(&layer, idx, op, np);
    }
}

/// Whether a plan for the layer `a` can be carried out.
fn plan_can_be_carried_out(
    project: &BrushProject,
    a: u128,
    plan: Option<(usize, Option<u128>, Option<u128>)>,
) -> (r: bool)
    requires
        plan is Some ==> find_view(project@.layers, a) is Some,
    ensures
        r == plan_fits(
            project@.layers,
            a,
            match plan {
                Some((i, op, np)) => Some((i as int, op, np)),
                None => None,
            },
        ),
{
    match plan {
        Some((idx, op, np)) => match project.find_layer(a) {
            Some(l) => project.can_move_layer(l, idx, op, np),
            None => true,
        },
        None => true,
    }
}

/// Whether [`move_layer_up`] can move the active layer: its plan has a place for it.
pub fn move_up_fits(project: &BrushProject, active: Option<u128>) -> (r: bool)
    ensures
        r == (active matches Some(a) ==> plan_fits(project@.layers, a, up_plan(project@.layers, a))),
{
    match active {
        Some(a) => {
            let plan = plan_move_up(project, a);
            plan_can_be_carried_out(project, a, plan)
        },
        None => true,
    }
}

/// Whether [`move_layer_down`] can move the active layer: its plan has a place for it.
pub fn move_down_fits(project: &BrushProject, active: Option<u128>) -> (r: bool)
    ensures
        r == (active matches Some(a) ==> plan_fits(project@.layers, a, down_plan(project@.layers, a))),
{
    match active {
        Some(a) => {
            let plan = plan_move_down(project, a);
            plan_can_be_carried_out(project, a, plan)
        },
        None => true,
    }
}

/// Moves the active layer up, as [`up_plan`] says.
pub fn move_layer_up(project: &mut BrushProject, active: Option<u128>)
    requires
        active matches Some(a) ==> plan_fits(old(project)@.layers, a, up_plan(old(project)@.layers, a)),
    ensures
        final(project)@ == (crate::data::project::ProjectView {
            layers: match active {
                Some(a) => planned(old(project)@.layers, a, up_plan(old(project)@.layers, a)),
                None => old(project)@.layers,
            },
            ..old(project)@
        }),
{
    if let Some(a) = active {
        let plan = plan_move_up(project, a);
        carry_out(project, a, plan);
    }
}

/// Moves the active layer down, as [`down_plan`] says.
pub fn move_layer_down(project: &mut BrushProject, active: Option<u128>)
    requires
        active matches Some(a) ==> plan_fits(old(project)@.layers, a, down_plan(old(project)@.layers, a)),
    ensures
        final(project)@ == (crate::data::project::ProjectView {
            layers: match active {
                Some(a) => planned(old(project)@.layers, a, down_plan(old(project)@.layers, a)),
                None => old(project)@.layers,
            },
            ..old(project)@
        }),
{
    if let Some(a) = active {
        let plan = plan_move_down(project, a);
        carry_out(project, a, plan);
    }
}

} // verus!
