use vstd::prelude::*;

use std::collections::HashSet;

use crate::data::layer::{lemma_views_of, views_of, Layer, LayerView};

verus! {

/// The identifiers of every layer of the tree, children included (filters not).
pub open spec fn tree_ids(layers: Seq<LayerView>) -> Set<u128>
    decreases layers,
{
    if layers.len() == 0 {
        Set::empty()
    } else {
        let last = layers[layers.len() - 1];
        tree_ids(layers.subrange(0, layers.len() - 1)).insert(last.id).union(tree_ids(last.children))
    }
}

/// Adds to `ids` the identifier of every layer of the tree.
pub fn collect_ids(layers: &Vec<Layer>, ids: &mut HashSet<u128>)
    ensures
        final(ids)@ == old(ids)@.union(tree_ids(views_of(layers@))),
    decreases layers,
{
    broadcast use vstd::std_specs::hash::group_hash_axioms;

    let ghost views = views_of(layers@);
    let ghost start = ids@;
    proof {
        lemma_views_of(layers@);
        assert(views.take(0) =~= Seq::<LayerView>::empty());
        assert(start.union(Set::<u128>::empty()) =~= start);
    }
    let n = layers.len();
    let mut i: usize = 0;
    while i < n
        invariant
            n == layers@.len(),
            views == views_of(layers@),
            views.len() == n,
            forall|j: int| 0 <= j < n ==> #[trigger] views[j] == layers@[j]@,
            0 <= i <= n,
            ids@ == start.union(tree_ids(views.take(i as int))),
        decreases n - i,
    {
        let layer = &layers[i];
        proof {
            assert(views.take(i + 1).subrange(0, i as int) =~= views.take(i as int));
            assert(views.take(i + 1)[i as int] == views[i as int]);
        }
        let ghost before = ids@;
        ids.insert(layer.id());
        match layer.children() {
            Some(children) => {
                proof {
                    assert(decreases_to!(*layers => layers@[i as int]));
                }
                collect_ids(children, ids);
            },
            None => {
                proof {
                    assert(layer@.children =~= Seq::<LayerView>::empty());
                    assert(tree_ids(Seq::<LayerView>::empty()) == Set::<u128>::empty());
                    assert(ids@.union(Set::<u128>::empty()) =~= ids@);
                }
            },
        }
        proof {
            let t = views.take(i + 1);
            assert(tree_ids(t) == tree_ids(views.take(i as int)).insert(views[i as int].id).union(
                tree_ids(views[i as int].children),
            ));
            assert(ids@ =~= start.union(tree_ids(t)));
        }
        i = i + 1;
    }
    proof {
        assert(views.take(n as int) =~= views);
    }
}

} // verus!
