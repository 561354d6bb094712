use vstd::prelude::*;

use crate::data::layer::{
    first_index_of, lemma_first_index_of, lemma_views_of, lemma_views_of_update, views_of, Layer,
    LayerView,
};

verus! {

// A layer of a tree is reached by a path: the position among the top layers, then the
// position among that layer's children, and so on.

/// `path` leads to a layer of `layers`.
pub open spec fn valid_path(layers: Seq<LayerView>, path: Seq<int>) -> bool
    decreases path.len(),
{
    &&& path.len() >= 1
    &&& 0 <= path[0] < layers.len()
    &&& (path.len() == 1 || valid_path(layers[path[0]].children, path.subrange(1, path.len() as int)))
}

/// The layer at the end of `path`.
pub open spec fn node_at(layers: Seq<LayerView>, path: Seq<int>) -> LayerView
    decreases path.len(),
{
    if path.len() <= 1 {
        layers[path[0]]
    } else {
        node_at(layers[path[0]].children, path.subrange(1, path.len() as int))
    }
}

/// `layers` with the layer at the end of `path` replaced by `new`.
pub open spec fn replace_at(layers: Seq<LayerView>, path: Seq<int>, new: LayerView) -> Seq<
    LayerView,
>
    decreases path.len(),
{
    if path.len() <= 1 {
        layers.update(path[0], new)
    } else {
        layers.update(
            path[0],
            layers[path[0]].with_children(
                replace_at(layers[path[0]].children, path.subrange(1, path.len() as int), new),
            ),
        )
    }
}

/// The path to the first layer with identifier `id`, searching depth first from position
/// `i` of `layers`: a layer comes before its children, its children before its later
/// siblings.
pub open spec fn find_from(layers: Seq<LayerView>, id: u128, i: int) -> Option<Seq<int>>
    decreases layers, layers.len() - i,
{
    if i < 0 || i >= layers.len() {
        None
    } else if layers[i].id == id {
        Some(seq![i])
    } else {
        match find_from(layers[i].children, id, 0) {
            Some(p) => Some(seq![i] + p),
            None => find_from(layers, id, i + 1),
        }
    }
}

/// The path to the first layer with identifier `id` in depth-first order.
pub open spec fn find_path(layers: Seq<LayerView>, id: u128) -> Option<Seq<int>> {
    find_from(layers, id, 0)
}

/// The first layer with identifier `id` in depth-first order.
pub open spec fn find_view(layers: Seq<LayerView>, id: u128) -> Option<LayerView> {
    match find_path(layers, id) {
        Some(p) => Some(node_at(layers, p)),
        None => None,
    }
}

/// Some layer of the tree has identifier `id`.
pub open spec fn contains_id(layers: Seq<LayerView>, id: u128) -> bool {
    find_path(layers, id) is Some
}

/// The path to the first group, in depth-first order from position `i`, that has among its
/// own children a layer with identifier `id`. A group is asked before the groups inside it.
pub open spec fn parent_from(layers: Seq<LayerView>, id: u128, i: int) -> Option<Seq<int>>
    decreases layers, layers.len() - i,
{
    if i < 0 || i >= layers.len() {
        None
    } else if layers[i].is_group() {
        if first_index_of(layers[i].children, id) is Some {
            Some(seq![i])
        } else {
            match parent_from(layers[i].children, id, 0) {
                Some(p) => Some(seq![i] + p),
                None => parent_from(layers, id, i + 1),
            }
        }
    } else {
        parent_from(layers, id, i + 1)
    }
}

/// The path to the group that holds the layer with identifier `id`, if the layer is not a
/// top layer.
pub open spec fn parent_path(layers: Seq<LayerView>, id: u128) -> Option<Seq<int>> {
    parent_from(layers, id, 0)
}

/// The group that holds the layer with identifier `id`.
pub open spec fn parent_view(layers: Seq<LayerView>, id: u128) -> Option<LayerView> {
    match parent_path(layers, id) {
        Some(p) => Some(node_at(layers, p)),
        None => None,
    }
}

/// A found path leads to a layer with the identifier that was searched for.
pub proof fn lemma_find_from(layers: Seq<LayerView>, id: u128, i: int)
    ensures
        find_from(layers, id, i) matches Some(p) ==> valid_path(layers, p) && node_at(layers, p).id
            == id && i <= p[0],
    decreases layers, layers.len() - i,
{
    if 0 <= i < layers.len() && layers[i].id != id {
        lemma_find_from(layers[i].children, id, 0);
        match find_from(layers[i].children, id, 0) {
            Some(p) => {
                let q = seq![i] + p;
                assert(q.subrange(1, q.len() as int) =~= p);
            },
            None => {
                lemma_find_from(layers, id, i + 1);
            },
        }
    }
}

/// A found parent path leads to a group that holds a layer with the identifier.
pub proof fn lemma_parent_from(layers: Seq<LayerView>, id: u128, i: int)
    ensures
        parent_from(layers, id, i) matches Some(p) ==> valid_path(layers, p) && node_at(
            layers,
            p,
        ).is_group() && first_index_of(node_at(layers, p).children, id) is Some && i <= p[0],
    decreases layers, layers.len() - i,
{
    if 0 <= i < layers.len() {
        if layers[i].is_group() {
            if first_index_of(layers[i].children, id) is None {
                lemma_parent_from(layers[i].children, id, 0);
                match parent_from(layers[i].children, id, 0) {
                    Some(p) => {
                        let q = seq![i] + p;
                        assert(q.subrange(1, q.len() as int) =~= p);
                    },
                    None => {
                        lemma_parent_from(layers, id, i + 1);
                    },
                }
            }
        } else {
            lemma_parent_from(layers, id, i + 1);
        }
    }
}

/// Putting back the layer that is at the end of a path changes nothing.
pub proof fn lemma_replace_at_same(layers: Seq<LayerView>, path: Seq<int>)
    requires
        valid_path(layers, path),
    ensures
        replace_at(layers, path, node_at(layers, path)) == layers,
    decreases path.len(),
{
    if path.len() > 1 {
        let rest = path.subrange(1, path.len() as int);
        lemma_replace_at_same(layers[path[0]].children, rest);
        assert(layers[path[0]].with_children(layers[path[0]].children) =~= layers[path[0]]);
    }
    assert(replace_at(layers, path, node_at(layers, path)) =~= layers);
}

/// Replacing along a path keeps the length of every level it passes.
pub proof fn lemma_replace_at_len(layers: Seq<LayerView>, path: Seq<int>, new: LayerView)
    requires
        valid_path(layers, path),
    ensures
        replace_at(layers, path, new).len() == layers.len(),
{
}

/// After a replacement along a path, the path leads to the new layer.
pub proof fn lemma_node_at_replace(layers: Seq<LayerView>, path: Seq<int>, new: LayerView)
    requires
        valid_path(layers, path),
    ensures
        valid_path(replace_at(layers, path, new), path),
        node_at(replace_at(layers, path, new), path) == new,
    decreases path.len(),
{
    if path.len() > 1 {
        let rest = path.subrange(1, path.len() as int);
        lemma_node_at_replace(layers[path[0]].children, rest, new);
    }
}

/// Replacing a layer by one with the same identifier and the same children leaves every
/// depth-first search as it was.
pub proof fn lemma_find_from_replace(
    layers: Seq<LayerView>,
    path: Seq<int>,
    new: LayerView,
    id: u128,
    i: int,
)
    requires
        valid_path(layers, path),
        new.id == node_at(layers, path).id,
        new.children == node_at(layers, path).children,
    ensures
        find_from(replace_at(layers, path, new), id, i) == find_from(layers, id, i),
    decreases path.len(), layers.len() - i,
{
    let r = replace_at(layers, path, new);
    lemma_replace_at_len(layers, path, new);
    if 0 <= i < layers.len() {
        if i == path[0] && path.len() > 1 {
            let rest = path.subrange(1, path.len() as int);
            lemma_find_from_replace(layers[i].children, rest, new, id, 0);
        }
        lemma_find_from_replace(layers, path, new, id, i + 1);
    }
}

/// Only groups have children, at every level of the tree.
pub open spec fn tree_wf(layers: Seq<LayerView>) -> bool
    decreases layers,
{
    forall|i: int|
        0 <= i < layers.len() ==> ((#[trigger] layers[i]).is_group() || layers[i].children.len()
            == 0) && tree_wf(layers[i].children)
}

/// The tree of models of actual layers has children only under groups.
pub proof fn lemma_views_wf(layers: Seq<Layer>)
    ensures
        tree_wf(views_of(layers)),
    decreases layers,
{
    lemma_views_of(layers);
    let v = views_of(layers);
    assert forall|i: int| 0 <= i < v.len() implies ((#[trigger] v[i]).is_group() || v[i].children.len()
        == 0) && tree_wf(v[i].children) by {
        match layers[i] {
            Layer::Group(b) => {
                assert(decreases_to!(layers => b.data.layers));
                lemma_views_wf(b.data.layers@);
            },
            _ => {
                assert(v[i].children =~= Seq::<LayerView>::empty());
            },
        }
    }
}

/// How many layers of the tree (children included, filters not) have identifier `id`.
pub open spec fn occurrences(layers: Seq<LayerView>, id: u128) -> nat
    decreases layers,
{
    if layers.len() == 0 {
        0
    } else {
        let last = layers[layers.len() - 1];
        occurrences(layers.subrange(0, layers.len() - 1), id) + (if last.id == id {
            1nat
        } else {
            0nat
        }) + occurrences(last.children, id)
    }
}

/// How many layers of the tree under and including `l` have identifier `id`.
pub open spec fn node_occurrences(l: LayerView, id: u128) -> nat {
    (if l.id == id {
        1nat
    } else {
        0nat
    }) + occurrences(l.children, id)
}

pub proof fn lemma_occurrences_concat(a: Seq<LayerView>, b: Seq<LayerView>, id: u128)
    ensures
        occurrences(a + b, id) == occurrences(a, id) + occurrences(b, id),
    decreases b.len(),
{
    if b.len() == 0 {
        assert(a + b =~= a);
    } else {
        let fb = b.subrange(0, b.len() - 1);
        lemma_occurrences_concat(a, fb, id);
        assert((a + b).subrange(0, (a + b).len() - 1) =~= a + fb);
        assert((a + b)[(a + b).len() - 1] == b[b.len() - 1]);
    }
}

pub proof fn lemma_occurrences_single(x: LayerView, id: u128)
    ensures
        occurrences(seq![x], id) == node_occurrences(x, id),
{
    let s = seq![x];
    assert(s.subrange(0, 0) =~= Seq::<LayerView>::empty());
    assert(occurrences(Seq::<LayerView>::empty(), id) == 0);
    assert(s[s.len() - 1] == x);
}

proof fn lemma_occurrences_split(s: Seq<LayerView>, i: int, id: u128)
    requires
        0 <= i < s.len(),
    ensures
        occurrences(s, id) == occurrences(s.subrange(0, i), id) + node_occurrences(s[i], id)
            + occurrences(s.subrange(i + 1, s.len() as int), id),
{
    let a = s.subrange(0, i);
    let c = s.subrange(i + 1, s.len() as int);
    assert(s =~= a + seq![s[i]] + c);
    lemma_occurrences_concat(a + seq![s[i]], c, id);
    lemma_occurrences_concat(a, seq![s[i]], id);
    lemma_occurrences_single(s[i], id);
}

/// Replacing one layer of a sequence changes the count by the difference of the two.
pub proof fn lemma_occurrences_update(s: Seq<LayerView>, i: int, x: LayerView, id: u128)
    requires
        0 <= i < s.len(),
    ensures
        occurrences(s.update(i, x), id) == occurrences(s, id) - node_occurrences(s[i], id)
            + node_occurrences(x, id),
{
    lemma_occurrences_split(s, i, id);
    lemma_occurrences_split(s.update(i, x), i, id);
    assert(s.update(i, x).subrange(0, i) =~= s.subrange(0, i));
    assert(s.update(i, x).subrange(i + 1, s.len() as int) =~= s.subrange(i + 1, s.len() as int));
}

/// Removing one layer of a sequence takes its count away.
pub proof fn lemma_occurrences_remove(s: Seq<LayerView>, i: int, id: u128)
    requires
        0 <= i < s.len(),
    ensures
        occurrences(s.remove(i), id) == occurrences(s, id) - node_occurrences(s[i], id),
{
    lemma_occurrences_split(s, i, id);
    assert(s.remove(i) =~= s.subrange(0, i) + s.subrange(i + 1, s.len() as int));
    lemma_occurrences_concat(s.subrange(0, i), s.subrange(i + 1, s.len() as int), id);
}

/// Inserting one layer into a sequence adds its count.
pub proof fn lemma_occurrences_insert(s: Seq<LayerView>, i: int, x: LayerView, id: u128)
    requires
        0 <= i <= s.len(),
    ensures
        occurrences(s.insert(i, x), id) == occurrences(s, id) + node_occurrences(x, id),
{
    let a = s.subrange(0, i);
    let c = s.subrange(i, s.len() as int);
    assert(s =~= a + c);
    assert(s.insert(i, x) =~= a + seq![x] + c);
    lemma_occurrences_concat(a, c, id);
    lemma_occurrences_concat(a + seq![x], c, id);
    lemma_occurrences_concat(a, seq![x], id);
    lemma_occurrences_single(x, id);
}

/// Replacing along a path changes the count by the difference of the two layers.
pub proof fn lemma_occurrences_replace_at(
    layers: Seq<LayerView>,
    path: Seq<int>,
    new: LayerView,
    id: u128,
)
    requires
        valid_path(layers, path),
    ensures
        occurrences(replace_at(layers, path, new), id) == occurrences(layers, id)
            - node_occurrences(node_at(layers, path), id) + node_occurrences(new, id),
    decreases path.len(),
{
    let i = path[0];
    if path.len() <= 1 {
        lemma_occurrences_update(layers, i, new, id);
    } else {
        let rest = path.subrange(1, path.len() as int);
        let ch = layers[i].children;
        lemma_occurrences_replace_at(ch, rest, new, id);
        let x = layers[i].with_children(replace_at(ch, rest, new));
        lemma_occurrences_update(layers, i, x, id);
    }
}

/// A layer that a search finds is counted.
pub proof fn lemma_found_is_counted(layers: Seq<LayerView>, id: u128, i: int)
    requires
        find_from(layers, id, i) is Some,
    ensures
        occurrences(layers, id) >= 1,
    decreases layers, layers.len() - i,
{
    if 0 <= i < layers.len() {
        lemma_occurrences_remove(layers, i, id);
        if layers[i].id != id {
            if find_from(layers[i].children, id, 0) is Some {
                lemma_found_is_counted(layers[i].children, id, 0);
            } else {
                lemma_found_is_counted(layers, id, i + 1);
            }
        }
    }
}

/// A layer reached by a path from position `i` on is found by the search from `i`.
pub proof fn lemma_reachable_is_found(layers: Seq<LayerView>, path: Seq<int>, id: u128, i: int)
    requires
        valid_path(layers, path),
        node_at(layers, path).id == id,
        0 <= i <= path[0],
    ensures
        find_from(layers, id, i) is Some,
    decreases layers, layers.len() - i,
{
    if layers[i].id != id {
        if i == path[0] {
            let rest = path.subrange(1, path.len() as int);
            lemma_reachable_is_found(layers[i].children, rest, id, 0);
        } else if find_from(layers[i].children, id, 0) is None {
            lemma_reachable_is_found(layers, path, id, i + 1);
        }
    }
}

/// A layer that a search finds below the top layers is held by a group.
pub proof fn lemma_deep_layer_has_parent(layers: Seq<LayerView>, id: u128, i: int)
    requires
        tree_wf(layers),
        find_from(layers, id, i) matches Some(p) && p.len() > 1,
    ensures
        parent_from(layers, id, i) is Some,
    decreases layers, layers.len() - i,
{
    if 0 <= i < layers.len() {
        let ch = layers[i].children;
        assert(tree_wf(ch));
        match find_from(ch, id, 0) {
            Some(q) => {
                lemma_find_from(ch, id, 0);
                assert(layers[i].is_group());
                lemma_first_index_of(ch, id);
                if first_index_of(ch, id) is None {
                    if q.len() == 1 {
                        assert(ch[q[0]].id == id);
                    }
                    lemma_deep_layer_has_parent(ch, id, 0);
                }
            },
            None => {
                lemma_deep_layer_has_parent(layers, id, i + 1);
            },
        }
    }
}

/// Two different positions of a sequence are counted apart.
pub proof fn lemma_two_nodes(s: Seq<LayerView>, i: int, j: int, id: u128)
    requires
        0 <= i < s.len(),
        0 <= j < s.len(),
        i != j,
    ensures
        occurrences(s, id) >= node_occurrences(s[i], id) + node_occurrences(s[j], id),
{
    lemma_occurrences_remove(s, i, id);
    let r = s.remove(i);
    let jj = if j < i {
        j
    } else {
        j - 1
    };
    assert(r[jj] == s[j]);
    lemma_occurrences_remove(r, jj, id);
}

/// Every layer of the tree is counted.
pub proof fn lemma_node_counted(layers: Seq<LayerView>, path: Seq<int>, id: u128)
    requires
        valid_path(layers, path),
    ensures
        occurrences(layers, id) >= node_occurrences(node_at(layers, path), id),
{
    let n = node_at(layers, path);
    let other: u128 = if id == 0 {
        1
    } else {
        0
    };
    let z = LayerView { id: other, children: Seq::empty(), ..n };
    assert(occurrences(Seq::<LayerView>::empty(), id) == 0);
    assert(node_occurrences(z, id) == 0);
    lemma_occurrences_replace_at(layers, path, z, id);
}

/// A parent search that finds something passes a layer whose children carry the
/// identifier.
pub proof fn lemma_parent_from_counted(layers: Seq<LayerView>, id: u128, i: int)
    requires
        parent_from(layers, id, i) is Some,
    ensures
        exists|j: int| i <= j < layers.len() && occurrences(#[trigger] layers[j].children, id) >= 1,
    decreases layers, layers.len() - i,
{
    if 0 <= i < layers.len() {
        let ch = layers[i].children;
        if layers[i].is_group() {
            if first_index_of(ch, id) is Some {
                lemma_first_index_of(ch, id);
                lemma_occurrences_remove(ch, first_index_of(ch, id).unwrap(), id);
                assert(occurrences(layers[i].children, id) >= 1);
            } else if parent_from(ch, id, 0) is Some {
                lemma_parent_from_counted(ch, id, 0);
                let j = choose|j: int| 0 <= j < ch.len() && occurrences(#[trigger] ch[j].children, id) >= 1;
                lemma_occurrences_remove(ch, j, id);
                assert(occurrences(layers[i].children, id) >= 1);
            } else {
                lemma_parent_from_counted(layers, id, i + 1);
            }
        } else {
            lemma_parent_from_counted(layers, id, i + 1);
        }
    }
}

/// A top layer whose identifier occurs once in the tree: the search finds it at its
/// place, it is the first top layer with that identifier, and no group holds it.
pub proof fn lemma_unique_top_layer(layers: Seq<LayerView>, i: int)
    requires
        0 <= i < layers.len(),
        occurrences(layers, layers[i].id) == 1,
    ensures
        find_path(layers, layers[i].id) == Some(seq![i]),
        first_index_of(layers, layers[i].id) == Some(i),
        parent_path(layers, layers[i].id) is None,
        forall|j: int| 0 <= j < layers.len() && j != i ==> #[trigger] layers[j].id != layers[i].id,
{
    let a = layers[i].id;
    assert forall|j: int| 0 <= j < layers.len() && j != i implies #[trigger] layers[j].id != a by {
        lemma_two_nodes(layers, i, j, a);
    }
    lemma_occurrences_remove(layers, i, a);
    assert(occurrences(layers[i].children, a) == 0);
    assert forall|j: int| 0 <= j < layers.len() implies occurrences(#[trigger] layers[j].children, a)
        == 0 by {
        if j != i {
            lemma_two_nodes(layers, i, j, a);
        }
    }
    lemma_unique_top_found(layers, i, 0);
    lemma_first_index_of(layers, a);
    if parent_path(layers, a) is Some {
        lemma_parent_from_counted(layers, a, 0);
        let j = choose|j: int| 0 <= j < layers.len() && occurrences(#[trigger] layers[j].children, a) >= 1;
        assert(occurrences(layers[j].children, a) == 0);
    }
}

proof fn lemma_unique_top_found(layers: Seq<LayerView>, i: int, j: int)
    requires
        0 <= j <= i < layers.len(),
        forall|m: int| 0 <= m < layers.len() && m != i ==> #[trigger] layers[m].id != layers[i].id,
        forall|m: int| 0 <= m < layers.len() ==> occurrences(#[trigger] layers[m].children, layers[i].id) == 0,
    ensures
        find_from(layers, layers[i].id, j) == Some(seq![i]),
    decreases i - j,
{
    if j < i {
        let ch = layers[j].children;
        if find_from(ch, layers[i].id, 0) is Some {
            lemma_found_is_counted(ch, layers[i].id, 0);
        }
        lemma_unique_top_found(layers, i, j + 1);
    }
}

/// Replacing the layer that a search finds by one with the same identifier leaves the
/// search finding the same place.
pub proof fn lemma_find_replace_found(
    layers: Seq<LayerView>,
    path: Seq<int>,
    new: LayerView,
    id: u128,
    i: int,
)
    requires
        valid_path(layers, path),
        find_from(layers, id, i) == Some(path),
        new.id == id,
    ensures
        find_from(replace_at(layers, path, new), id, i) == Some(path),
    decreases path.len(), layers.len() - i,
{
    let r = replace_at(layers, path, new);
    lemma_replace_at_len(layers, path, new);
    if 0 <= i < layers.len() {
        if i == path[0] {
            if path.len() > 1 {
                let rest = path.subrange(1, path.len() as int);
                let ch = layers[i].children;
                lemma_find_from(layers, id, i + 1);
                assert(layers[i].id != id);
                assert(find_from(ch, id, 0) is Some);
                let q = find_from(ch, id, 0).unwrap();
                assert(path == seq![i] + q);
                assert(q =~= rest);
                lemma_find_replace_found(ch, rest, new, id, 0);
            }
        } else {
            lemma_find_from(layers, id, i);
            let ch = layers[i].children;
            if find_from(ch, id, 0) is Some {
                let q = find_from(ch, id, 0).unwrap();
                assert((seq![i] + q)[0] == i);
            }
            lemma_find_replace_found(layers, path, new, id, i + 1);
        }
    }
}

/// Replacing twice along the same path is replacing once with the second layer.
pub proof fn lemma_replace_at_twice(layers: Seq<LayerView>, path: Seq<int>, x: LayerView, y: LayerView)
    requires
        valid_path(layers, path),
    ensures
        replace_at(replace_at(layers, path, x), path, y) == replace_at(layers, path, y),
    decreases path.len(),
{
    if path.len() > 1 {
        let rest = path.subrange(1, path.len() as int);
        lemma_replace_at_twice(layers[path[0]].children, rest, x, y);
        assert(replace_at(replace_at(layers, path, x), path, y) =~= replace_at(layers, path, y));
    } else {
        assert(replace_at(replace_at(layers, path, x), path, y) =~= replace_at(layers, path, y));
    }
}

/// The first layer with identifier `id` among `layers`, searched depth first.
pub fn search_recursive(layers: &Vec<Layer>, id: u128) -> (r: Option<&Layer>)
    ensures
        match find_path(views_of(layers@), id) {
            Some(p) => r matches Some(l) && l@ == node_at(views_of(layers@), p),
            None => r is None,
        },
    decreases layers,
{
    let ghost views = views_of(layers@);
    proof {
        lemma_views_of(layers@);
    }
    let n = layers.len();
    let mut i: usize = 0;
    while i < n
        invariant
            n == layers@.len(),
            views == views_of(layers@),
            views.len() == n,
            forall|j: int| 0 <= j < n ==> #[trigger] views[j] == layers@[j]@,
            0 <= i <= n,
            find_from(views, id, 0) == find_from(views, id, i as int),
        decreases n - i,
    {
        let layer = &layers[i];
        if layer.id() == id {
            return Some(layer);
        }
        if let Some(children) = layer.children() {
            proof {
                assert(decreases_to!(*layers => layers@[i as int]));
                lemma_find_from(views_of(children@), id, 0);
            }
            if let Some(found) = search_recursive(children, id) {
                proof {
                    let p = find_path(views_of(children@), id).unwrap();
                    let q = seq![i as int] + p;
                    assert(q.subrange(1, q.len() as int) =~= p);
                    assert(find_from(views, id, i as int) == Some(q));
                }
                return Some(found);
            }
        }
        i = i + 1;
    }
    None
}

/// The first layer with identifier `id` among `layers`, searched depth first, to change in
/// place.
pub fn search_recursive_mut(layers: &mut Vec<Layer>, id: u128) -> (r: Option<&mut Layer>)
    ensures
        match find_path(views_of(old(layers)@), id) {
            Some(p) => r matches Some(l) && l@ == node_at(views_of(old(layers)@), p) && views_of(
                final(layers)@,
            ) == replace_at(views_of(old(layers)@), p, final(l)@),
            None => r is None && *final(layers) == *old(layers),
        },
    decreases *old(layers),
{
    let ghost views = views_of(layers@);
    proof {
        lemma_views_of(layers@);
    }
    let n = layers.len();
    let mut i: usize = 0;
    while i < n
        invariant
            n == layers@.len(),
            *layers == *old(layers),
            views == views_of(layers@),
            views.len() == n,
            forall|j: int| 0 <= j < n ==> #[trigger] views[j] == layers@[j]@,
            0 <= i <= n,
            find_from(views, id, 0) == find_from(views, id, i as int),
        decreases n - i,
    {
        if layers[i].id() == id {
            let ghost before = layers@;
            let l = &mut layers[i];
            proof {
                lemma_views_of_update(before, i as int, *final(l));
            }
            return Some(l);
        }
        let found_below = match layers[i].children() {
            Some(children) => search_recursive(children, id).is_some(),
            None => false,
        };
        if found_below {
            let ghost before = layers@;
            let l = &mut layers[i];
            let ghost fl = *final(l);
            return match l.children_mut() {
                Some(children) => {
                    proof {
                        assert(decreases_to!(*old(layers) => before[i as int]));
                    }
                    let ghost cv = children@;
                    proof {
                        lemma_find_from(views_of(cv), id, 0);
                        lemma_parent_from(views_of(cv), id, 0);
                    }
                    let r = search_recursive_mut(children, id);
                    proof {
                        let p = find_path(views_of(cv), id).unwrap();
                        let q = seq![i as int] + p;
                        assert(q.subrange(1, q.len() as int) =~= p);
                        assert(find_from(views, id, i as int) == Some(q));
                        lemma_views_of_update(before, i as int, fl);
                    }
                    r
                },
                None => None,
            };
        }
        i = i + 1;
    }
    None
}

/// The first group, in depth-first order, that holds a layer with identifier `id` among
/// its own children.
pub fn search_parent_recursive(layers: &Vec<Layer>, id: u128) -> (r: Option<&Layer>)
    ensures
        match parent_path(views_of(layers@), id) {
            Some(p) => r matches Some(l) && l@ == node_at(views_of(layers@), p),
            None => r is None,
        },
    decreases layers,
{
    let ghost views = views_of(layers@);
    proof {
        lemma_views_of(layers@);
    }
    let n = layers.len();
    let mut i: usize = 0;
    while i < n
        invariant
            n == layers@.len(),
            views == views_of(layers@),
            views.len() == n,
            forall|j: int| 0 <= j < n ==> #[trigger] views[j] == layers@[j]@,
            0 <= i <= n,
            parent_from(views, id, 0) == parent_from(views, id, i as int),
        decreases n - i,
    {
        let layer = &layers[i];
        if let Some(children) = layer.children() {
            if crate::data::layer::position_of(children, id).is_some() {
                return Some(layer);
            } else if let Some(found) = {
                proof {
                    assert(decreases_to!(*layers => layers@[i as int]));
                    lemma_parent_from(views_of(children@), id, 0);
                }
                search_parent_recursive(children, id)
            } {
                proof {
                    let p = parent_path(views_of(children@), id).unwrap();
                    let q = seq![i as int] + p;
                    assert(q.subrange(1, q.len() as int) =~= p);
                    assert(parent_from(views, id, i as int) == Some(q));
                }
                return Some(found);
            }
        }
        i = i + 1;
    }
    None
}

/// The first group, in depth-first order, that holds a layer with identifier `id` among
/// its own children, to change in place.
pub fn search_parent_recursive_mut(layers: &mut Vec<Layer>, id: u128) -> (r: Option<&mut Layer>)
    ensures
        match parent_path(views_of(old(layers)@), id) {
            Some(p) => r matches Some(l) && l@ == node_at(views_of(old(layers)@), p) && views_of(
                final(layers)@,
            ) == replace_at(views_of(old(layers)@), p, final(l)@),
            None => r is None && *final(layers) == *old(layers),
        },
    decreases *old(layers),
{
    let ghost views = views_of(layers@);
    proof {
        lemma_views_of(layers@);
    }
    let n = layers.len();
    let mut i: usize = 0;
    while i < n
        invariant
            n == layers@.len(),
            *layers == *old(layers),
            views == views_of(layers@),
            views.len() == n,
            forall|j: int| 0 <= j < n ==> #[trigger] views[j] == layers@[j]@,
            0 <= i <= n,
            parent_from(views, id, 0) == parent_from(views, id, i as int),
        decreases n - i,
    {
        let (holds, below) = match layers[i].children() {
            Some(children) => (
                crate::data::layer::position_of(children, id).is_some(),
                search_parent_recursive(children, id).is_some(),
            ),
            None => (false, false),
        };
        if holds {
            let ghost before = layers@;
            let l = &mut layers[i];
            proof {
                lemma_views_of_update(before, i as int, *final(l));
            }
            return Some(l);
        }
        if below {
            let ghost before = layers@;
            let l = &mut layers[i];
            let ghost fl = *final(l);
            return match l.children_mut() {
                Some(children) => {
                    proof {
                        assert(decreases_to!(*old(layers) => before[i as int]));
                    }
                    let ghost cv = children@;
                    proof {
                        lemma_find_from(views_of(cv), id, 0);
                        lemma_parent_from(views_of(cv), id, 0);
                    }
                    let r = search_parent_recursive_mut(children, id);
                    proof {
                        let p = parent_path(views_of(cv), id).unwrap();
                        let q = seq![i as int] + p;
                        assert(q.subrange(1, q.len() as int) =~= p);
                        assert(parent_from(views, id, i as int) == Some(q));
                        lemma_views_of_update(before, i as int, fl);
                    }
                    r
                },
                None => None,
            };
        }
        i = i + 1;
    }
    None
}

} // verus!
