use vstd::prelude::*;

use crate::data::layer::{
    first_index_of, lemma_first_index_of, lemma_views_of, lemma_views_of_insert, position_of, remove_first_with_id, views_of,
    Layer, LayerData, LayerView,
};

verus! {

/// The children of a group layer, and the rectangle that covers its visible children.
pub struct GroupData {
    pub layers: Vec<Layer>,
    pub x: i32,
    pub y: i32,
    pub width: u32,
    pub height: u32,
}

impl LayerData for GroupData {}

/// The smallest and largest corners of the visible layers of `children`:
/// `(min x, min y, max right edge, max bottom edge)`, where a layer's right edge is its x
/// plus its width read as a 32-bit signed number. Before any layer it is
/// `(i32::MAX, i32::MAX, i32::MIN, i32::MIN)`.
pub open spec fn bounds_acc(children: Seq<LayerView>) -> (int, int, int, int)
    decreases children.len(),
{
    if children.len() == 0 {
        (i32::MAX as int, i32::MAX as int, i32::MIN as int, i32::MIN as int)
    } else {
        let (a, b, c, d) = bounds_acc(children.drop_last());
        let l = children.last();
        if !l.visible() {
            (a, b, c, d)
        } else {
            (
                if l.x() < a { l.x() as int } else { a },
                if l.y() < b { l.y() as int } else { b },
                if l.x() + (l.width() as i32) > c { l.x() + (l.width() as i32) } else { c },
                if l.y() + (l.height() as i32) > d { l.y() + (l.height() as i32) } else { d },
            )
        }
    }
}

/// The rectangle `(x, y, width, height)` that a group takes: the one that covers its
/// visible children, or the empty one at the origin where none is found.
pub open spec fn group_bounds(children: Seq<LayerView>) -> (i32, i32, u32, u32) {
    let (a, b, c, d) = bounds_acc(children);
    if a == i32::MAX {
        (0, 0, 0, 0)
    } else {
        (a as i32, b as i32, (c - a) as u32, (d - b) as u32)
    }
}

proof fn lemma_bounds_acc_range(children: Seq<LayerView>)
    ensures
        i32::MIN <= bounds_acc(children).0 <= i32::MAX,
        i32::MIN <= bounds_acc(children).1 <= i32::MAX,
        i32::MIN <= bounds_acc(children).2 <= i32::MAX as int + i32::MAX as int,
        i32::MIN <= bounds_acc(children).3 <= i32::MAX as int + i32::MAX as int,
        i32::MIN as int + i32::MIN as int <= bounds_acc(children).2,
    decreases children.len(),
{
    if children.len() > 0 {
        lemma_bounds_acc_range(children.drop_last());
    }
}

/// A layer whose rectangle lies inside the range of 32-bit signed coordinates, with its
/// left and top edges below the largest one.
pub open spec fn fits_in_i32(l: LayerView) -> bool {
    &&& l.x() < i32::MAX
    &&& l.y() < i32::MAX
    &&& l.width() <= i32::MAX
    &&& l.height() <= i32::MAX
    &&& l.x() + l.width() <= i32::MAX
    &&& l.y() + l.height() <= i32::MAX
}

/// The rectangle `(x, y, width, height)` covers the layer's rectangle.
pub open spec fn covers(rect: (i32, i32, u32, u32), l: LayerView) -> bool {
    &&& rect.0 <= l.x()
    &&& rect.1 <= l.y()
    &&& l.x() + l.width() <= rect.0 + rect.2
    &&& l.y() + l.height() <= rect.1 + rect.3
}

proof fn lemma_bounds_acc_covers(children: Seq<LayerView>)
    requires
        forall|j: int|
            0 <= j < children.len() && (#[trigger] children[j]).visible() ==> fits_in_i32(
                children[j],
            ),
    ensures
        ({
            let (a, b, c, d) = bounds_acc(children);
            &&& i32::MIN <= a && i32::MIN <= b
            &&& c <= i32::MAX && d <= i32::MAX
            &&& forall|j: int|
                0 <= j < children.len() && (#[trigger] children[j]).visible() ==> {
                    &&& a <= children[j].x() && b <= children[j].y()
                    &&& children[j].x() + children[j].width() <= c
                    &&& children[j].y() + children[j].height() <= d
                }
        }),
    decreases children.len(),
{
    lemma_bounds_acc_range(children);
    if children.len() > 0 {
        let front = children.drop_last();
        assert forall|j: int|
            0 <= j < front.len() && (#[trigger] front[j]).visible() implies fits_in_i32(
            front[j],
        ) by {
            assert(front[j] == children[j]);
        }
        lemma_bounds_acc_covers(front);
        let l = children.last();
        if l.visible() {
            assert((l.width() as i32) as int == l.width() as int);
            assert((l.height() as i32) as int == l.height() as int);
        }
        let (a, b, c, d) = bounds_acc(children);
        assert forall|j: int| 0 <= j < children.len() && (#[trigger] children[j]).visible() implies {
            &&& a <= children[j].x() && b <= children[j].y()
            &&& children[j].x() + children[j].width() <= c
            &&& children[j].y() + children[j].height() <= d
        } by {
            if j < children.len() - 1 {
                assert(front[j] == children[j]);
            }
        }
    }
}

/// The rectangle a group takes covers each of its visible children, where their
/// rectangles fit the coordinate range.
pub proof fn law_group_covers_visible_children(children: Seq<LayerView>)
    requires
        forall|j: int|
            0 <= j < children.len() && (#[trigger] children[j]).visible() ==> fits_in_i32(
                children[j],
            ),
    ensures
        forall|j: int|
            0 <= j < children.len() && (#[trigger] children[j]).visible() ==> covers(
                group_bounds(children),
                children[j],
            ),
{
    lemma_bounds_acc_covers(children);
    let (a, b, c, d) = bounds_acc(children);
    assert forall|j: int| 0 <= j < children.len() && (#[trigger] children[j]).visible() implies covers(
        group_bounds(children),
        children[j],
    ) by {
        assert(a < i32::MAX);
        assert(0 <= c - a <= u32::MAX);
        assert(0 <= d - b <= u32::MAX);
        assert(((c - a) as u32) as int == c - a);
        assert(((d - b) as u32) as int == d - b);
    }
}

impl GroupData {
    /// An empty group at the origin.
    pub fn new() -> (r: Self)
        ensures
            r.layers@.len() == 0,
            r.x == 0,
            r.y == 0,
            r.width == 0,
            r.height == 0,
    {
        GroupData { layers: Vec::new(), x: 0, y: 0, width: 0, height: 0 }
    }

    /// Puts `layer` among the children at position `index`; the rectangle is left as it is.
    pub fn append(&mut self, index: usize, layer: Layer)
        requires
            index <= old(self).layers@.len(),
        ensures
            views_of(final(self).layers@) == views_of(old(self).layers@).insert(index as int, layer@),
            final(self).x == old(self).x,
            final(self).y == old(self).y,
            final(self).width == old(self).width,
            final(self).height == old(self).height,
    {
        proof {
            lemma_views_of_insert(self.layers@, index as int, layer);
        }
        self.layers.insert(index, layer);
    }

    /// Drops the first child with identifier `id`, if there is one, and then recomputes the
    /// rectangle; where there is none, nothing changes.
    pub fn remove_layer_with_id(&mut self, id: u128)
        ensures
            match first_index_of(views_of(old(self).layers@), id) {
                Some(i) => {
                    &&& views_of(final(self).layers@) == views_of(old(self).layers@).remove(i)
                    &&& (final(self).x, final(self).y, final(self).width, final(self).height)
                        == group_bounds(views_of(final(self).layers@))
                },
                None => *final(self) == *old(self),
            },
    {
        if position_of(&self.layers, id).is_some() {
            remove_first_with_id(&mut self.layers, id);
            self.calculate_group_bounds();
        }
    }

    /// Sets the group's rectangle to the one that covers its visible children.
    pub fn calculate_group_bounds(&mut self)
        ensures
            final(self).layers == old(self).layers,
            (final(self).x, final(self).y, final(self).width, final(self).height) == group_bounds(
                views_of(old(self).layers@),
            ),
    {
        let mut min_x: i64 = i32::MAX as i64;
        let mut min_y: i64 = i32::MAX as i64;
        let mut max_x: i64 = i32::MIN as i64;
        let mut max_y: i64 = i32::MIN as i64;
        let ghost views = views_of(self.layers@);
        proof {
            lemma_views_of(self.layers@);
        }
        let n = self.layers.len();
        let mut i: usize = 0;
        while i < n
            invariant
                n == self.layers@.len(),
                views == views_of(self.layers@),
                views.len() == n,
                forall|j: int| 0 <= j < n ==> #[trigger] views[j] == self.layers@[j]@,
                0 <= i <= n,
                (min_x as int, min_y as int, max_x as int, max_y as int) == bounds_acc(
                    views.take(i as int),
                ),
            decreases n - i,
        {
            let child = &self.layers[i];
            proof {
                assert(views.take(i + 1).drop_last() =~= views.take(i as int));
                assert(views.take(i + 1).last() == views[i as int]);
                lemma_bounds_acc_range(views.take(i as int));
            }
            if child.visible() {
                let cx = child.x() as i64;
                let cy = child.y() as i64;
                let cw = child.width() as i32 as i64;
                let ch = child.height() as i32 as i64;
                if cx < min_x {
                    min_x = cx;
                }
                if cy < min_y {
                    min_y = cy;
                }
                if cx + cw > max_x {
                    max_x = cx + cw;
                }
                if cy + ch > max_y {
                    max_y = cy + ch;
                }
            }
            i = i + 1;
        }
        proof {
            assert(views.take(n as int) =~= views);
            lemma_bounds_acc_range(views);
        }
        if min_x == i32::MAX as i64 {
            self.x = 0;
            self.y = 0;
            self.width = 0;
            self.height = 0;
        } else {
            self.x = min_x as i32;
            self.y = min_y as i32;
            self.width = (max_x - min_x) as u32;
            self.height = (max_y - min_y) as u32;
        }
    }
}

} // verus!
