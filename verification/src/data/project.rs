use vstd::prelude::*;

use crate::data::layer::{
    first_index_of, lemma_first_index_of, lemma_views_of, lemma_views_of_insert,
    lemma_views_of_remove, position_of, views_of, duplicate_layers, Layer, LayerView,
};
use crate::data::layer_types::refs::{ref_views, RefLayer};
use crate::data::layer_tree::{
    contains_id, find_path, find_view, lemma_deep_layer_has_parent, lemma_find_from,
    lemma_found_is_counted, lemma_occurrences_insert, lemma_occurrences_remove,
    lemma_occurrences_replace_at, node_occurrences, occurrences,
    tree_wf, lemma_parent_from, node_at, parent_path, parent_view,
    lemma_find_from_replace, lemma_node_at_replace, lemma_replace_at_same, replace_at, search_parent_recursive, search_parent_recursive_mut, search_recursive,
    search_recursive_mut, valid_path,
};

verus! {

/// A document: its format version, when it was made (seconds since the UNIX epoch), the
/// canvas size, and the tree of layers, top first.
pub struct BrushProject {
    pub version: u32,
    pub created: u64,
    pub width: u32,
    pub height: u32,
    pub layers: Vec<Layer>,
    pub references: Vec<RefLayer>,
}

/// The model of a document.
#[verifier::ext_equal]
pub struct ProjectView {
    pub version: u32,
    pub created: u64,
    pub width: u32,
    pub height: u32,
    pub layers: Seq<LayerView>,
    pub references: Seq<(u128, Seq<u8>)>,
}

impl View for BrushProject {
    type V = ProjectView;

    open spec fn view(&self) -> ProjectView {
        ProjectView {
            version: self.version,
            created: self.created,
            width: self.width,
            height: self.height,
            layers: views_of(self.layers@),
            references: ref_views(self.references@),
        }
    }
}

/// The layers after the one with identifier `id` is removed, or `None` where there is no
/// such layer. The layer goes from the group that holds it (from its filters, if it is a
/// filter) or, where no group holds it, from the top layers.
pub open spec fn removed_layers(layers: Seq<LayerView>, id: u128) -> Option<Seq<LayerView>> {
    match find_view(layers, id) {
        None => None,
        Some(target) => Some(
            match parent_path(layers, id) {
                Some(pp) => replace_at(
                    layers,
                    pp,
                    node_at(layers, pp).without_child_id(id, target.is_filter()),
                ),
                None => match first_index_of(layers, id) {
                    Some(i) => layers.remove(i),
                    None => layers,
                },
            },
        ),
    }
}

/// Removing a layer whose identifier occurs once in the tree leaves no layer with that
/// identifier, unless the layer is a filter: a filter is taken from its parent's filters,
/// where a filter held among a group's children is not.
pub proof fn law_remove_leaves_no_trace(layers: Seq<LayerView>, id: u128)
    requires
        tree_wf(layers),
        occurrences(layers, id) == 1,
        find_view(layers, id) matches Some(t) && !t.is_filter(),
    ensures
        removed_layers(layers, id) matches Some(l) && !contains_id(l, id),
{
    lemma_find_from(layers, id, 0);
    lemma_parent_from(layers, id, 0);
    let p = find_path(layers, id).unwrap();
    let l = removed_layers(layers, id).unwrap();
    match parent_path(layers, id) {
        Some(pp) => {
            let par = node_at(layers, pp);
            let i = first_index_of(par.children, id).unwrap();
            lemma_first_index_of(par.children, id);
            let new = par.without_child_id(id, false);
            assert(new.children == par.children.remove(i));
            lemma_occurrences_remove(par.children, i, id);
            lemma_occurrences_replace_at(layers, pp, new, id);
            assert(occurrences(l, id) == 0);
        },
        None => {
            if p.len() > 1 {
                lemma_deep_layer_has_parent(layers, id, 0);
            }
            assert(layers[p[0]].id == id);
            lemma_first_index_of(layers, id);
            let i = first_index_of(layers, id).unwrap();
            lemma_occurrences_remove(layers, i, id);
            assert(occurrences(l, id) == 0);
        },
    }
    if contains_id(l, id) {
        lemma_found_is_counted(l, id, 0);
    }
}

/// The layers after the first layer with identifier `id` is given the name `name`.
pub open spec fn renamed(layers: Seq<LayerView>, id: u128, name: Seq<char>) -> Seq<LayerView> {
    match find_path(layers, id) {
        Some(p) => replace_at(layers, p, node_at(layers, p).with_name(name)),
        None => layers,
    }
}

/// A renamed layer is found under its identifier with its new name and nothing else
/// changed, and every search by identifier leads where it led before.
pub proof fn law_find_after_rename(layers: Seq<LayerView>, id: u128, name: Seq<char>)
    ensures
        find_view(renamed(layers, id, name), id) == match find_view(layers, id) {
            Some(v) => Some(v.with_name(name)),
            None => None::<LayerView>,
        },
        forall|other: u128| #[trigger] find_path(renamed(layers, id, name), other) == find_path(layers, other),
{
    lemma_find_from(layers, id, 0);
    if let Some(p) = find_path(layers, id) {
        let new = node_at(layers, p).with_name(name);
        assert forall|other: u128| #[trigger] find_path(renamed(layers, id, name), other) == find_path(layers, other) by {
            lemma_find_from_replace(layers, p, new, other, 0);
        }
        lemma_find_from_replace(layers, p, new, id, 0);
        lemma_node_at_replace(layers, p, new);
    }
}

/// The first step of a move: `layer` leaves `old_parent` (the top layers where `None`), if
/// it is there.
pub open spec fn detached(layers: Seq<LayerView>, layer: LayerView, old_parent: Option<u128>) -> Seq<
    LayerView,
> {
    match old_parent {
        Some(pid) => match find_path(layers, pid) {
            Some(p) => {
                let par = node_at(layers, p);
                if par.is_group() && first_index_of(par.children, layer.id) is Some {
                    replace_at(layers, p, par.without_child(layer))
                } else {
                    layers
                }
            },
            None => layers,
        },
        None => match first_index_of(layers, layer.id) {
            Some(i) => layers.remove(i),
            None => layers,
        },
    }
}

/// The second step of a move: `layer` is put at `index` in `new_parent` (the top layers
/// where `None`); a parent that is not a group takes nothing.
pub open spec fn attached(
    layers: Seq<LayerView>,
    layer: LayerView,
    index: int,
    new_parent: Option<u128>,
) -> Seq<LayerView> {
    match new_parent {
        Some(pid) => match find_path(layers, pid) {
            Some(p) => {
                let par = node_at(layers, p);
                replace_at(
                    layers,
                    p,
                    if par.is_group() {
                        par.with_children(par.children.insert(index, layer)).regrouped()
                    } else {
                        par
                    },
                )
            },
            None => layers,
        },
        None => layers.insert(index, layer),
    }
}

/// `index` is a place where the target of the second step of a move can take a layer.
pub open spec fn can_attach(layers: Seq<LayerView>, index: int, new_parent: Option<u128>) -> bool {
    match new_parent {
        Some(pid) => match find_path(layers, pid) {
            Some(p) => node_at(layers, p).is_group() ==> 0 <= index <= node_at(
                layers,
                p,
            ).children.len(),
            None => true,
        },
        None => 0 <= index <= layers.len(),
    }
}

/// The layer that the first step of a move takes out: the first child of `old_parent`
/// (the first top layer where `None`) with the moved layer's identifier.
pub open spec fn detached_child(layers: Seq<LayerView>, layer: LayerView, old_parent: Option<u128>) -> Option<
    LayerView,
> {
    match old_parent {
        Some(pid) => match find_path(layers, pid) {
            Some(p) => {
                let par = node_at(layers, p);
                if par.is_group() {
                    match first_index_of(par.children, layer.id) {
                        Some(i) => Some(par.children[i]),
                        None => None,
                    }
                } else {
                    None
                }
            },
            None => None,
        },
        None => match first_index_of(layers, layer.id) {
            Some(i) => Some(layers[i]),
            None => None,
        },
    }
}

/// The target of the second step of a move is a group, or the top layers.
pub open spec fn attach_takes(layers: Seq<LayerView>, new_parent: Option<u128>) -> bool {
    match new_parent {
        Some(pid) => find_path(layers, pid) matches Some(p) && node_at(layers, p).is_group(),
        None => true,
    }
}

/// Moving a layer that is taken from where it was and put into a group or among the top
/// layers loses no layer and makes none twice: every identifier is carried by as many
/// layers as before. (A filter is taken from its parent's filters, so it is left out.)
pub proof fn law_move_keeps_every_layer(
    layers: Seq<LayerView>,
    layer: LayerView,
    index: int,
    old_parent: Option<u128>,
    new_parent: Option<u128>,
    id: u128,
)
    requires
        !layer.is_filter(),
        detached_child(layers, layer, old_parent) == Some(layer),
        attach_takes(detached(layers, layer, old_parent), new_parent),
        can_attach(detached(layers, layer, old_parent), index, new_parent),
    ensures
        occurrences(attached(detached(layers, layer, old_parent), layer, index, new_parent), id)
            == occurrences(layers, id),
{
    let d = detached(layers, layer, old_parent);
    match old_parent {
        Some(pid) => {
            lemma_find_from(layers, pid, 0);
            let p = find_path(layers, pid).unwrap();
            let par = node_at(layers, p);
            let i = first_index_of(par.children, layer.id).unwrap();
            lemma_first_index_of(par.children, layer.id);
            lemma_occurrences_remove(par.children, i, id);
            lemma_occurrences_replace_at(layers, p, par.without_child(layer), id);
        },
        None => {
            lemma_first_index_of(layers, layer.id);
            lemma_occurrences_remove(layers, first_index_of(layers, layer.id).unwrap(), id);
        },
    }
    assert(occurrences(d, id) == occurrences(layers, id) - node_occurrences(layer, id));
    match new_parent {
        Some(pid) => {
            lemma_find_from(d, pid, 0);
            let p = find_path(d, pid).unwrap();
            let par = node_at(d, p);
            lemma_occurrences_insert(par.children, index, layer, id);
            lemma_occurrences_replace_at(
                d,
                p,
                par.with_children(par.children.insert(index, layer)).regrouped(),
                id,
            );
        },
        None => {
            lemma_occurrences_insert(d, index, layer, id);
        },
    }
}

impl BrushProject {
    pub fn new(
        version: u32,
        created: u64,
        width: u32,
        height: u32,
        layers: Vec<Layer>,
        references: Vec<RefLayer>,
    ) -> (r: Self)
        ensures
            r.version == version,
            r.created == created,
            r.width == width,
            r.height == height,
            r.layers == layers,
            r.references == references,
    {
        BrushProject { version, created, width, height, layers, references }
    }

    /// The document that a new canvas starts with: format 1, 1920 by 1080, no layers and no
    /// reference images.
    pub fn new_blank(created: u64) -> (r: Self)
        ensures
            r@ == (ProjectView {
                version: 1,
                created,
                width: 1920,
                height: 1080,
                layers: Seq::empty(),
                references: Seq::empty(),
            }),
    {
        let r = BrushProject {
            version: 1,
            created,
            width: 1920,
            height: 1080,
            layers: Vec::new(),
            references: Vec::new(),
        };
        proof {
            assert(views_of(r.layers@) =~= Seq::<LayerView>::empty());
            assert(ref_views(r.references@) =~= Seq::<(u128, Seq<u8>)>::empty());
        }
        r
    }

    /// The first layer with identifier `id`, searched depth first.
    pub fn find_layer(&self, id: u128) -> (r: Option<&Layer>)
        ensures
            match find_view(self@.layers, id) {
                Some(v) => r matches Some(l) && l@ == v,
                None => r is None,
            },
    {
        search_recursive(&self.layers, id)
    }

    /// The first layer with identifier `id`, searched depth first, to change in place.
    pub fn find_layer_mut(&mut self, id: u128) -> (r: Option<&mut Layer>)
        ensures
            final(self).version == old(self).version,
            final(self).created == old(self).created,
            final(self).width == old(self).width,
            final(self).height == old(self).height,
            final(self).references == old(self).references,
            match find_path(old(self)@.layers, id) {
                Some(p) => r matches Some(l) && l@ == node_at(old(self)@.layers, p)
                    && final(self)@.layers == replace_at(old(self)@.layers, p, final(l)@),
                None => r is None && *final(self) == *old(self),
            },
    {
        search_recursive_mut(&mut self.layers, id)
    }

    /// Gives the first layer with identifier `id` a new name; nothing happens where there is
    /// no such layer.
    pub fn rename_layer(&mut self, id: u128, new_name: String)
        ensures
            final(self)@ == (ProjectView { layers: renamed(old(self)@.layers, id, new_name@), ..old(self)@ }),
    {
        if let Some(layer) = self.find_layer_mut(id) {
            *layer.name_mut() = new_name;
        }
    }

    /// Removes the layer with identifier `id` from the group that holds it, or from the top
    /// layers; `None` where the document has no such layer.
    pub fn remove_layer(&mut self, id: u128) -> (r: Option<()>)
        ensures
            match removed_layers(old(self)@.layers, id) {
                Some(l) => r is Some && final(self)@ == (ProjectView { layers: l, ..old(self)@ }),
                None => r is None && *final(self) == *old(self),
            },
    {
        let ghost views = self@.layers;
        proof {
            lemma_find_from(views, id, 0);
            lemma_parent_from(views, id, 0);
            lemma_first_index_of(views, id);
            lemma_views_of(self.layers@);
        }
        let is_filter = match search_recursive(&self.layers, id) {
            Some(l) => l.is_filter(),
            None => {
                return None;
            },
        };
        if let Some(parent) = search_parent_recursive_mut(&mut self.layers, id) {
            parent.remove_child_with_id(id, is_filter);
        } else if let Some(idx) = position_of(&self.layers, id) {
            proof {
                lemma_views_of_remove(self.layers@, idx as int);
            }
            self.layers.remove(idx);
        }
        Some(())
    }

    /// Takes `layer` out of `old_parent` (the top layers where `None`), if it is there.
    fn detach_layer(&mut self, layer: &Layer, old_parent: Option<u128>)
        ensures
            final(self)@ == (ProjectView {
                layers: detached(old(self)@.layers, layer@, old_parent),
                ..old(self)@
            }),
    {
        let lid = layer.id();
        proof {
            lemma_views_of(self.layers@);
            lemma_first_index_of(self@.layers, lid);
        }
        match old_parent {
            Some(pid) => {
                if let Some(parent) = search_recursive_mut(&mut self.layers, pid) {
                    let holds = match parent.children() {
                        Some(c) => position_of(c, lid).is_some(),
                        None => false,
                    };
                    if holds {
                        parent.remove_child(layer);
                    }
                    proof {
                        let p = find_path(old(self)@.layers, pid).unwrap();
                        lemma_find_from(old(self)@.layers, pid, 0);
                        lemma_replace_at_same(old(self)@.layers, p);
                    }
                }
            },
            None => {
                if let Some(idx) = position_of(&self.layers, lid) {
                    proof {
                        lemma_views_of_remove(self.layers@, idx as int);
                    }
                    self.layers.remove(idx);
                }
            },
        }
    }

    /// Whether `new_parent` (the top layers where `None`) can take a layer at `index`.
    fn attach_fits(&self, index: usize, new_parent: Option<u128>) -> (r: bool)
        ensures
            r == can_attach(self@.layers, index as int, new_parent),
    {
        proof {
            lemma_views_of(self.layers@);
            lemma_find_from(self@.layers, new_parent->0, 0);
        }
        match new_parent {
            Some(pid) => match search_recursive(&self.layers, pid) {
                Some(parent) => match parent.children() {
                    Some(c) => {
                        proof {
                            lemma_views_of(c@);
                        }
                        index <= c.len()
                    },
                    None => true,
                },
                None => true,
            },
            None => index <= self.layers.len(),
        }
    }

    /// Whether [`BrushProject::move_layer`] can put `layer` at `index` in `new_parent` once
    /// it has left `old_parent`.
    pub fn can_move_layer(
        &self,
        layer: &Layer,
        index: usize,
        old_parent: Option<u128>,
        new_parent: Option<u128>,
    ) -> (r: bool)
        ensures
            r == can_attach(detached(self@.layers, layer@, old_parent), index as int, new_parent),
    {
        let mut scratch = BrushProject {
            version: self.version,
            created: self.created,
            width: self.width,
            height: self.height,
            layers: duplicate_layers(&self.layers),
            references: Vec::new(),
        };
        scratch.detach_layer(layer, old_parent);
        scratch.attach_fits(index, new_parent)
    }

    /// Moves `layer` out of `old_parent` (the top layers where `None`), if it is there, and
    /// puts a copy of it at `index` in `new_parent` (the top layers where `None`). A parent
    /// is the first layer with its identifier; one that is not found, or is not a group,
    /// takes nothing.
    pub fn move_layer(
        &mut self,
        layer: &Layer,
        index: usize,
        old_parent: Option<u128>,
        new_parent: Option<u128>,
    )
        requires
            can_attach(detached(old(self)@.layers, layer@, old_parent), index as int, new_parent),
        ensures
            final(self)@ == (ProjectView {
                layers: attached(
                    detached(old(self)@.layers, layer@, old_parent),
                    layer@,
                    index as int,
                    new_parent,
                ),
                ..old(self)@
            }),
    {
        self.detach_layer(layer, old_parent);
        let copy = layer.duplicate();
        match new_parent {
            Some(pid) => {
                if let Some(parent) = search_recursive_mut(&mut self.layers, pid) {
                    parent.append(index, copy);
                }
            },
            None => {
                proof {
                    lemma_views_of(self.layers@);
                    lemma_views_of_insert(self.layers@, index as int, copy);
                }
                self.layers.insert(index, copy);
            },
        }
    }

    /// The first group, in depth-first order, that holds a layer with identifier
    /// `target_id` among its own children; `None` for a top layer.
    pub fn find_parent(&self, target_id: u128) -> (r: Option<&Layer>)
        ensures
            match parent_view(self@.layers, target_id) {
                Some(v) => r matches Some(l) && l@ == v,
                None => r is None,
            },
    {
        search_parent_recursive(&self.layers, target_id)
    }

    /// As [`BrushProject::find_parent`], to change in place.
    pub fn find_parent_mut(&mut self, target_id: u128) -> (r: Option<&mut Layer>)
        ensures
            final(self).version == old(self).version,
            final(self).created == old(self).created,
            final(self).width == old(self).width,
            final(self).height == old(self).height,
            final(self).references == old(self).references,
            match parent_path(old(self)@.layers, target_id) {
                Some(p) => r matches Some(l) && l@ == node_at(old(self)@.layers, p)
                    && final(self)@.layers == replace_at(old(self)@.layers, p, final(l)@),
                None => r is None && *final(self) == *old(self),
            },
    {
        search_parent_recursive_mut(&mut self.layers, target_id)
    }
}

} // verus!
