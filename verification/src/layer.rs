use std::collections::HashMap;
use vstd::prelude::*;
use vstd::std_specs::iter::IteratorSpec;

use crate::frame::{Frame, FrameSettings};
use crate::interface::ProcessInterface;
use crate::interface::{json_array, json_array_of};
use crate::item::{is_order_of, item_entry, item_processed, item_template, listed, Item};

verus! {

broadcast use vstd::std_specs::hash::group_hash_axioms;

/// The entry under `k`, to change in place (`HashMap::get_mut`): the map
/// then holds whatever the entry holds when the borrow ends.
#[verifier::external_body]
pub(crate) fn hash_map_get_mut<'a, V>(m: &'a mut HashMap<u128, V>, k: &u128) -> (r: Option<&'a mut V>)
    ensures
        match r {
            Some(v) => old(m)@.contains_key(*k) && *v == old(m)@[*k] && final(m)@ == old(m)@.insert(
                *k,
                *final(v),
            ),
            None => !old(m)@.contains_key(*k) && final(m)@ == old(m)@,
        },
{
    m.get_mut(k)
}

/// Whether the closed frame ranges `lr1` and `lr2` share a frame.
pub open spec fn collides(lr1: (usize, usize), lr2: (usize, usize)) -> bool {
    !(lr1.1 < lr2.0 || lr2.1 < lr1.0)
}

/// Whether the range `lr` shows frame `frame_num` (from `lr.0` up to, not
/// including, `lr.1`).
pub open spec fn shows(lr: (usize, usize), frame_num: usize) -> bool {
    lr.0 <= frame_num && frame_num < lr.1
}

/// An item placed on a layer over the frame range `lr`.
pub struct LayerItem<P> {
    pub item: Item<P>,
    pub lr: (usize, usize),
}

/// One track of the timeline: items keyed by their identifiers.
pub struct Layer<P> {
    pub id: u128,
    pub name: String,
    pub map_item: HashMap<u128, LayerItem<P>>,
}

impl<P> Layer<P> {
    /// Whether no item of the map collides with the range `lr`.
    pub open spec fn is_free(m: Map<u128, LayerItem<P>>, lr: (usize, usize)) -> bool {
        forall|k: u128| #[trigger] m.contains_key(k) ==> !collides(lr, m[k].lr)
    }

    /// Whether the closed ranges `lr1` and `lr2` overlap.
    pub fn is_collid(lr1: (usize, usize), lr2: (usize, usize)) -> (r: bool)
        ensures
            r == collides(lr1, lr2),
    {
        !((lr1.1 < lr2.0) || (lr2.1 < lr1.0))
    }

    /// The identifier of an item shown at `frame_num`, if there is one.
    pub fn get_item_by_num(&self, frame_num: usize) -> (r: Option<u128>)
        ensures
            match r {
                Some(id) => self.map_item@.contains_key(id) && shows(
                    self.map_item@[id].lr,
                    frame_num,
                ),
                None => forall|k: u128| #[trigger]
                    self.map_item@.contains_key(k) ==> !shows(self.map_item@[k].lr, frame_num),
            },
    {
        let ghost m = self.map_item@;
        let ghost v = vstd::std_specs::hash::spec_hash_map_iter(&self.map_item).remaining();
        for (id, item) in it: self.map_item.iter()
            invariant
                m == self.map_item@,
                it.seq() == v,
                forall|j: int|
                    0 <= j < it.index() ==> !shows(#[trigger] v[j].1.lr, frame_num),
        {
            if item.lr.0 <= frame_num && item.lr.1 > frame_num {
                return Some(*id);
            }
        }
        proof {
            assert forall|k: u128| #[trigger] m.contains_key(k) implies !shows(m[k].lr, frame_num) by {
                assert(v.contains((&k, &m[k])));
                let j = choose|j: int| 0 <= j < v.len() && v[j] == (&k, &m[k]);
                assert(!shows(v[j].1.lr, frame_num));
            }
        }
        None
    }

    /// Places `layer_item` on the layer under its item's identifier, which
    /// it hands back.
    pub fn add(&mut self, layer_item: LayerItem<P>) -> (r: u128)
        ensures
            r == layer_item.item.id,
            final(self).map_item@ == old(self).map_item@.insert(r, layer_item),
            final(self).id == old(self).id,
            final(self).name == old(self).name,
    {
        let id = layer_item.item.id;
        self.map_item.insert(id, layer_item);
        id
    }

    /// Takes the item with identifier `id` off the layer, if it is there.
    pub fn del(&mut self, id: &u128)
        ensures
            final(self).map_item@ == old(self).map_item@.remove(*id),
            final(self).id == old(self).id,
            final(self).name == old(self).name,
    {
        self.map_item.remove(id);
    }

    /// The item with identifier `id`, if it is on the layer.
    pub fn get(&self, id: &u128) -> (r: Option<&LayerItem<P>>)
        ensures
            match r {
                Some(li) => self.map_item@.contains_key(*id) && *li == self.map_item@[*id],
                None => !self.map_item@.contains_key(*id),
            },
    {
        self.map_item.get(id)
    }

    /// The item with identifier `id`, if it is on the layer, to change in
    /// place.
    pub fn get_mut(&mut self, id: &u128) -> (r: Option<&mut LayerItem<P>>)
        ensures
            final(self).id == old(self).id,
            final(self).name == old(self).name,
            match r {
                Some(li) => old(self).map_item@.contains_key(*id) && *li == old(self).map_item@[*id]
                    && final(self).map_item@ == old(self).map_item@.insert(*id, *final(li)),
                None => !old(self).map_item@.contains_key(*id) && final(self).map_item@ == old(
                    self,
                ).map_item@,
            },
    {
        hash_map_get_mut(&mut self.map_item, id)
    }

    /// Moves the item `id` to the range `lr` when no item of the layer (the
    /// moved one included) collides with `lr`; reports whether it moved.
    pub fn mov(&mut self, id: &u128, lr: (usize, usize)) -> (r: bool)
        requires
            Self::is_free(old(self).map_item@, lr) ==> old(self).map_item@.contains_key(*id),
        ensures
            r == Self::is_free(old(self).map_item@, lr),
            r ==> final(self).map_item@ == old(self).map_item@.insert(
                *id,
                LayerItem { item: old(self).map_item@[*id].item, lr },
            ),
            !r ==> final(self).map_item@ == old(self).map_item@,
            final(self).id == old(self).id,
            final(self).name == old(self).name,
    {
        let ghost m = self.map_item@;
        let ghost v = vstd::std_specs::hash::spec_hash_map_iter(&self.map_item).remaining();
        let mut non_collid = true;
        for (_k, item) in it: self.map_item.iter()
            invariant
                m == self.map_item@,
                it.seq() == v,
                non_collid == forall|j: int|
                    0 <= j < it.index() ==> !collides(lr, #[trigger] v[j].1.lr),
        {
            if Self::is_collid(lr, item.lr) {
                non_collid = false;
            }
        }
        proof {
            if non_collid {
                assert forall|k: u128| #[trigger] m.contains_key(k) implies !collides(lr, m[k].lr) by {
                    assert(v.contains((&k, &m[k])));
                    let j = choose|j: int| 0 <= j < v.len() && v[j] == (&k, &m[k]);
                    assert(!collides(lr, v[j].1.lr));
                }
            } else {
                let j = choose|j: int| 0 <= j < v.len() && collides(lr, #[trigger] v[j].1.lr);
                assert(m.contains_key(*v[j].0));
            }
        }
        if non_collid {
            let old_item = self.map_item.remove(id);
            match old_item {
                Some(li) => {
                    self.map_item.insert(*id, LayerItem { item: li.item, lr });
                },
                None => {},
            }
        }
        non_collid
    }
}

impl<P: ProcessInterface<Frame, FrameSettings>> Layer<P> {
    /// The template of the layer: the JSON array with one entry per item,
    /// in the map's order; the first error an item's template gives stops
    /// it.
    pub fn get_json_template(&self) -> (r: Result<serde_json::Value, anyhow::Error>)
        ensures
            layer_template(*self, r),
    {
        let ghost m = self.map_item@;
        let ghost v = vstd::std_specs::hash::spec_hash_map_iter(&self.map_item).remaining();
        let mut entries: Vec<serde_json::Value> = Vec::new();
        for (id, li) in it: self.map_item.iter()
            invariant
                m == self.map_item@,
                it.seq() == v,
                v.no_duplicates(),
                entries.len() == it.index(),
                forall|i: int|
                    0 <= i < it.index() ==> #[trigger] item_entry(
                        m[*v[i].0].item,
                        *v[i].0,
                        entries@[i],
                    ),
        {
            let ghost k = *v[it.index()].0;
            assert(m.contains_key(k) && m[k] == *li);
            match li.item.entry(*id) {
                Ok(e) => {
                    let ghost before = entries@;
                    entries.push(e);
                    proof {
                        assert forall|i: int| 0 <= i < it.index() + 1 implies #[trigger] item_entry(
                            m[*v[i].0].item,
                            *v[i].0,
                            entries@[i],
                        ) by {
                            if i < it.index() {
                                assert(entries@[i] == before[i]);
                            }
                        }
                    }
                },
                Err(err) => {
                    proof {
                        assert(self.map_item@.contains_key(k));
                    }
                    return Err(err);
                },
            }
        }
        proof {
            let order = v.map_values(|kv: (&u128, &LayerItem<P>)| *kv.0);
            assert forall|a: int, b: int|
                0 <= a < order.len() && 0 <= b < order.len() && a != b implies order[a] != order[b] by {
                if order[a] == order[b] {
                    assert(m[*v[a].0] == *v[a].1);
                    assert(m[*v[b].0] == *v[b].1);
                    assert(v[a] == v[b]);
                }
            }
            assert forall|i: int| 0 <= i < order.len() implies m.contains_key(#[trigger] order[i]) by {
                assert(m.contains_key(*v[i].0));
            }
            assert forall|k: u128| #[trigger] m.contains_key(k) implies order.contains(k) by {
                assert(v.contains((&k, &m[k])));
                let i = choose|i: int| 0 <= i < v.len() && v[i] == (&k, &m[k]);
                assert(order[i] == k);
            }
            assert forall|i: int|
                #![trigger order[i]]
                0 <= i < order.len() && m.contains_key(order[i]) implies item_entry(
                    m[order[i]].item,
                    order[i],
                    entries@[i],
                ) by {
                assert(order[i] == *v[i].0);
            }
            assert(order.len() == v.len());
            assert(layer_entries_match(*self, order, entries@));
            assert(listed(order, self.map_item@, entries@));
        }
        Ok(json_array(entries))
    }

    /// The identifier of the layer.
    pub fn get_ulid(&self) -> (r: u128)
        ensures
            r == self.id,
    {
        self.id
    }

    /// Lets the item shown at `settings.frame_num` work on the frame and
    /// hands back what it reports; `false` when no item is shown there.
    pub fn process(&self, f: &mut Frame, settings: &FrameSettings, json: serde_json::Value) -> (r:
        Result<bool, anyhow::Error>)
        ensures
            r matches Ok(b) && (b ==> exists|k: u128|
                #[trigger] self.map_item@.contains_key(k) && shows(
                    self.map_item@[k].lr,
                    settings.frame_num,
                ) && !self.map_item@[k].item.map_child@.is_empty()) && (!b ==> (forall|k: u128|
                #[trigger] self.map_item@.contains_key(k) ==> !shows(
                    self.map_item@[k].lr,
                    settings.frame_num,
                )) || exists|k: u128|
                #[trigger] self.map_item@.contains_key(k) && shows(
                    self.map_item@[k].lr,
                    settings.frame_num,
                ) && self.map_item@[k].item.map_child@.is_empty()),
            (forall|k: u128| #[trigger]
                self.map_item@.contains_key(k) ==> !shows(self.map_item@[k].lr, settings.frame_num))
                ==> *final(f) == *old(f),
            layer_processed(*self, *old(f), *settings, json, *final(f), r),
    {
        match self.get_item_by_num(settings.frame_num) {
            Some(s) => match self.map_item.get(&s) {
                Some(li) => {
                    let r = li.item.process(f, settings, json);
                    proof {
                        assert(self.map_item@.contains_key(s) && shows(
                            self.map_item@[s].lr,
                            settings.frame_num,
                        ));
                    }
                    r
                },
                None => Ok(false),
            },
            None => Ok(false),
        }
    }
}

/// What processing `layer` does: the item shown at the frame is processed,
/// or, where none is shown, the frame stays as it is and `false` comes back.
pub open spec fn layer_processed<P: ProcessInterface<Frame, FrameSettings>>(
    layer: Layer<P>,
    before: Frame,
    settings: FrameSettings,
    json: serde_json::Value,
    after: Frame,
    r: Result<bool, anyhow::Error>,
) -> bool {
    ||| exists|k: u128|
        #[trigger] layer.map_item@.contains_key(k) && shows(
            layer.map_item@[k].lr,
            settings.frame_num,
        ) && item_processed(layer.map_item@[k].item, before, settings, json, after, r)
    ||| (forall|k: u128| #[trigger]
        layer.map_item@.contains_key(k) ==> !shows(layer.map_item@[k].lr, settings.frame_num))
        && r == Ok::<bool, anyhow::Error>(false) && after == before
}

/// Whether `entries`, taken with the keys in `order`, are the template
/// entries of the items of `layer`.
pub open spec fn layer_entries_match<P: ProcessInterface<Frame, FrameSettings>>(
    layer: Layer<P>,
    order: Seq<u128>,
    entries: Seq<serde_json::Value>,
) -> bool {
    forall|i: int|
        #![trigger order[i]]
        0 <= i < order.len() && layer.map_item@.contains_key(order[i]) ==> item_entry(
            layer.map_item@[order[i]].item,
            order[i],
            entries[i],
        )
}

/// What the template of `layer` may be: the JSON array with one entry per
/// item, in some order, or the error that making an item's template gave.
pub open spec fn layer_template<P: ProcessInterface<Frame, FrameSettings>>(
    layer: Layer<P>,
    r: Result<serde_json::Value, anyhow::Error>,
) -> bool {
    match r {
        Ok(v) => exists|order: Seq<u128>, entries: Seq<serde_json::Value>|
            #[trigger] listed(order, layer.map_item@, entries) && layer_entries_match(
                layer,
                order,
                entries,
            ) && v == json_array_of(entries),
        Err(err) => exists|k: u128|
            #[trigger] layer.map_item@.contains_key(k) && item_template(
                layer.map_item@[k].item,
                Err(err),
            ),
    }
}

/// Whether no two distinct items of the map collide.
pub open spec fn pairwise_free<P>(m: Map<u128, LayerItem<P>>) -> bool {
    forall|k1: u128, k2: u128|
        #![trigger m.contains_key(k1), m.contains_key(k2)]
        m.contains_key(k1) && m.contains_key(k2) && k1 != k2 ==> !collides(m[k1].lr, m[k2].lr)
}

/// The layer's map after the item `id` moved to `lr`.
pub open spec fn moved<P>(m: Map<u128, LayerItem<P>>, id: u128, lr: (usize, usize)) -> Map<
    u128,
    LayerItem<P>,
> {
    m.insert(id, LayerItem { item: m[id].item, lr })
}

/// Collision is symmetric: `a` collides with `b` exactly when `b` collides
/// with `a`.
pub proof fn law_collides_symmetric(a: (usize, usize), b: (usize, usize))
    ensures
        collides(a, b) == collides(b, a),
{
}

/// Placing an item on a layer and then looking up its identifier gives
/// back that item.
pub proof fn law_add_then_get<P>(m: Map<u128, LayerItem<P>>, li: LayerItem<P>)
    ensures
        m.insert(li.item.id, li).contains_key(li.item.id),
        m.insert(li.item.id, li)[li.item.id] == li,
{
}

/// After an item is taken off a layer, looking it up finds nothing, and
/// every other item stays as it was.
pub proof fn law_del_then_get<P>(m: Map<u128, LayerItem<P>>, id: u128, other: u128)
    requires
        other != id,
    ensures
        !m.remove(id).contains_key(id),
        m.remove(id).contains_key(other) == m.contains_key(other),
        m.contains_key(other) ==> m.remove(id)[other] == m[other],
{
}

/// Taking off an item that was just placed on a layer where its identifier
/// was free gives back the layer as it was.
pub proof fn law_del_undoes_add<P>(m: Map<u128, LayerItem<P>>, li: LayerItem<P>)
    requires
        !m.contains_key(li.item.id),
    ensures
        m.insert(li.item.id, li).remove(li.item.id) == m,
{
    assert(m.insert(li.item.id, li).remove(li.item.id) =~= m);
}

/// A successful move puts the item at the new range, and the new range then
/// collides with no other item of the layer.
pub proof fn law_mov_lands_free<P>(m: Map<u128, LayerItem<P>>, id: u128, lr: (usize, usize))
    requires
        Layer::<P>::is_free(m, lr),
        m.contains_key(id),
    ensures
        moved(m, id, lr)[id].lr == lr,
        moved(m, id, lr)[id].item == m[id].item,
        forall|k: u128| #[trigger]
            moved(m, id, lr).contains_key(k) && k != id ==> !collides(lr, moved(m, id, lr)[k].lr),
{
    assert forall|k: u128| #[trigger]
        moved(m, id, lr).contains_key(k) && k != id implies !collides(lr, moved(m, id, lr)[k].lr) by {
        assert(m.contains_key(k));
    }
}

/// Moving keeps a layer free of overlaps: if no two items collided before a
/// successful move, none collide after it.
pub proof fn law_mov_keeps_pairwise_free<P>(m: Map<u128, LayerItem<P>>, id: u128, lr: (usize, usize))
    requires
        pairwise_free(m),
        Layer::<P>::is_free(m, lr),
        m.contains_key(id),
    ensures
        pairwise_free(moved(m, id, lr)),
{
    let m2 = moved(m, id, lr);
    assert forall|k1: u128, k2: u128|
        m2.contains_key(k1) && m2.contains_key(k2) && k1 != k2 implies !collides(
        m2[k1].lr,
        m2[k2].lr,
    ) by {
        assert(m.contains_key(k1) && m.contains_key(k2));
        if k1 == id {
            assert(!collides(lr, m[k2].lr));
        } else if k2 == id {
            assert(!collides(lr, m[k1].lr));
        } else {
            assert(m.contains_key(k1) && m.contains_key(k2));
        }
    }
}

/// Taking an item off keeps a layer free of overlaps.
pub proof fn law_del_keeps_pairwise_free<P>(m: Map<u128, LayerItem<P>>, id: u128)
    requires
        pairwise_free(m),
    ensures
        pairwise_free(m.remove(id)),
{
    let m2 = m.remove(id);
    assert forall|k1: u128, k2: u128|
        m2.contains_key(k1) && m2.contains_key(k2) && k1 != k2 implies !collides(
        m2[k1].lr,
        m2[k2].lr,
    ) by {
        assert(m.contains_key(k1) && m.contains_key(k2));
    }
}

/// In a layer free of overlaps at most one item shows any given frame, so
/// the item found for a frame is the only one there.
pub proof fn law_pairwise_free_shows_one<P>(
    m: Map<u128, LayerItem<P>>,
    frame_num: usize,
    k1: u128,
    k2: u128,
)
    requires
        pairwise_free(m),
        m.contains_key(k1),
        m.contains_key(k2),
        shows(m[k1].lr, frame_num),
        shows(m[k2].lr, frame_num),
    ensures
        k1 == k2,
{
    if k1 != k2 {
        assert(!collides(m[k1].lr, m[k2].lr));
    }
}

} // verus!
