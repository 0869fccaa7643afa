use std::collections::HashMap;
use vstd::prelude::*;
use vstd::std_specs::iter::IteratorSpec;

use crate::item::{is_order_of, new_ulid};
use crate::layer::{collides, hash_map_get_mut};

verus! {

broadcast use vstd::std_specs::hash::group_hash_axioms;

/// An RGBA picture of `w` by `h` pixels.
#[derive(Debug)]
pub struct Frame {
    pub w: u32,
    pub h: u32,
    pub pix_vec: Vec<u8>,
}

/// The settings a frame is processed with (none so far).
pub struct Settings {}

/// Something that works on a frame, with its settings as a JSON text.
pub trait FrameInterface {
    /// Whether `get_settings` has settings to hand out; processors have them
    /// unless they say otherwise.
    open spec fn has_settings(&self) -> bool {
        true
    }

    /// The settings, as a JSON text.
    fn get_settings(&self) -> String
        requires
            self.has_settings(),
    ;

    /// What `get_ulid` may hand back; processors that say nothing allow
    /// anything.
    open spec fn ulid_result(&self, r: u128) -> bool {
        true
    }

    /// The identifier of this processor.
    fn get_ulid(&self) -> (r: u128)
        ensures
            self.ulid_result(r),
    ;

    /// What `process` may do: working on `before` with the settings `json`,
    /// it may leave `after` and report `r`. Processors that say nothing
    /// allow anything.
    open spec fn process_result(&self, before: Frame, json: Seq<char>, after: Frame, r: bool) -> bool {
        true
    }

    /// Works on `f` with the JSON settings `json`; reports whether anything
    /// was done.
    fn process(&self, f: &mut Frame, json: &str) -> (r: bool)
        ensures
            self.process_result(*old(f), json@, *final(f), r),
    ;
}

/// What a timeline item holds: a processor or another item.
pub enum ItemChild<F> {
    FI(F),
    Item(Box<Item<F>>),
}

/// An item placed on the timeline: on layer `layer`, over the frame range
/// `lr`, with its children keyed by their identifiers.
pub struct Item<F> {
    pub id: u128,
    pub map_child: HashMap<u128, ItemChild<F>>,
    pub layer: usize,
    pub lr: (usize, usize),
}

impl<F> Default for Item<F> {
    /// An item with a fresh identifier and no children, on layer 0 over the
    /// range `(0, 0)`.
    fn default() -> (r: Self)
        ensures
            r.map_child@ == Map::<u128, ItemChild<F>>::empty(),
            r.layer == 0,
            r.lr == (0usize, 0usize),
    {
        Item { id: new_ulid(), map_child: HashMap::new(), layer: 0, lr: (0, 0) }
    }
}

/// Whether `order` lists the keys of `m`, each once, and `frames` holds one
/// frame more than `order`, going from `before` to `after`.
pub open spec fn chain_of<V>(
    order: Seq<u128>,
    m: Map<u128, V>,
    frames: Seq<Frame>,
    before: Frame,
    after: Frame,
) -> bool {
    &&& is_order_of(order, m)
    &&& frames.len() == order.len() + 1
    &&& frames[0] == before
    &&& frames[order.len() as int] == after
}

/// Whether running the child `c` on `before` may leave `after`: a processor
/// does what its own `process_result` allows, an item runs its children.
pub open spec fn child_ran<F: FrameInterface>(
    c: ItemChild<F>,
    before: Frame,
    json: Seq<char>,
    after: Frame,
) -> bool
    decreases c, 0nat,
{
    match c {
        ItemChild::FI(fi) => exists|r: bool| #[trigger] fi.process_result(before, json, after, r),
        ItemChild::Item(item) => children_ran(*item, before, json, after),
    }
}

/// Whether the children of `item`, taken in the order `order`, lead through
/// the frames `frames`: each child takes the frame the one before left.
pub open spec fn runs_in_order<F: FrameInterface>(
    item: Item<F>,
    order: Seq<u128>,
    frames: Seq<Frame>,
    json: Seq<char>,
) -> bool
    decreases item, 1nat,
{
    &&& frames.len() == order.len() + 1
    &&& forall|i: int|
        0 <= i < order.len() && item.map_child@.contains_key(order[i]) ==> #[trigger] child_ran(
            item.map_child@[order[i]],
            frames[i],
            json,
            frames[i + 1],
        )
}

/// Whether running every child of `item` once, in some order, each on the
/// frame the one before left, may take `before` to `after`.
pub open spec fn children_ran<F: FrameInterface>(
    item: Item<F>,
    before: Frame,
    json: Seq<char>,
    after: Frame,
) -> bool
    decreases item, 2nat,
{
    exists|order: Seq<u128>, frames: Seq<Frame>|
        #[trigger] chain_of(order, item.map_child@, frames, before, after) && runs_in_order(
            item,
            order,
            frames,
            json,
        )
}

impl<F: FrameInterface> ItemChild<F> {
    /// The identifier of the child.
    fn child_id(&self) -> (r: u128)
        ensures
            match self {
                ItemChild::FI(fi) => fi.ulid_result(r),
                ItemChild::Item(item) => r == item.id,
            },
    {
        match self {
            ItemChild::FI(fi) => fi.get_ulid(),
            ItemChild::Item(item) => item.id,
        }
    }

    /// Lets the child work on the frame.
    fn run(&self, f: &mut Frame, json: &str)
        ensures
            child_ran(*self, *old(f), json@, *final(f)),
        decreases self, 0nat,
    {
        match self {
            ItemChild::FI(fi) => {
                fi.process(f, json);
            },
            ItemChild::Item(item) => {
                item.run_children(f, json);
            },
        }
    }
}

impl<F: FrameInterface> Item<F> {
    /// Lets every child work on the frame, once each, in the map's order.
    fn run_children(&self, f: &mut Frame, json: &str)
        ensures
            children_ran(*self, *old(f), json@, *final(f)),
        decreases self, 1nat,
    {
        let ghost m = self.map_child@;
        let ghost v = vstd::std_specs::hash::spec_hash_map_iter(&self.map_child).remaining();
        let ghost mut frames: Seq<Frame> = seq![*f];
        for (_id, child) in it: self.map_child.iter()
            invariant
                m == self.map_child@,
                it.seq() == v,
                v.no_duplicates(),
                frames.len() == it.index() + 1,
                frames[0] == *old(f),
                frames[it.index()] == *f,
                forall|i: int|
                    0 <= i < it.index() ==> #[trigger] child_ran(
                        m[*v[i].0],
                        frames[i],
                        json@,
                        frames[i + 1],
                    ),
        {
            let ghost k = *v[it.index()].0;
            assert(m.contains_key(k));
            assert(decreases_to!(self => self.map_child@[k]));
            let ghost before = frames;
            child.run(f, json);
            proof {
                frames = frames.push(*f);
                assert forall|i: int| 0 <= i < it.index() + 1 implies #[trigger] child_ran(
                    m[*v[i].0],
                    frames[i],
                    json@,
                    frames[i + 1],
                ) by {
                    if i < it.index() {
                        assert(frames[i] == before[i] && frames[i + 1] == before[i + 1]);
                    }
                }
            }
        }
        proof {
            let order = v.map_values(|kv: (&u128, &ItemChild<F>)| *kv.0);
            assert forall|a: int, b: int|
                0 <= a < order.len() && 0 <= b < order.len() && a != b implies order[a] != order[b] by {
                if order[a] == order[b] {
                    assert(m[*v[a].0] == *v[a].1);
                    assert(m[*v[b].0] == *v[b].1);
                    assert(v[a] == v[b]);
                }
            }
            assert forall|i: int| 0 <= i < order.len() implies m.contains_key(#[trigger] order[i]) by {
                assert(m.contains_key(*v[i].0));
            }
            assert forall|k: u128| #[trigger] m.contains_key(k) implies order.contains(k) by {
                assert(v.contains((&k, &m[k])));
                let i = choose|i: int| 0 <= i < v.len() && v[i] == (&k, &m[k]);
                assert(order[i] == k);
            }
            assert forall|i: int|
                #![trigger order[i]]
                0 <= i < order.len() && m.contains_key(order[i]) implies child_ran(
                    m[order[i]],
                    frames[i],
                    json@,
                    frames[i + 1],
                ) by {
                assert(order[i] == *v[i].0);
            }
            assert(order.len() == v.len());
            assert(runs_in_order(*self, order, frames, json@));
            assert(chain_of(order, self.map_child@, frames, *old(f), *f));
        }
    }
}

impl<F: FrameInterface> Item<F> {
    /// The identifier of the item.
    pub fn get_ulid(&self) -> (r: u128)
        ensures
            r == self.id,
    {
        self.id
    }

    /// Lets every child work on the frame; `false`, and nothing done, when
    /// the item has no children.
    pub fn process(&self, f: &mut Frame, json: &str) -> (r: bool)
        ensures
            r == !self.map_child@.is_empty(),
            !r ==> *final(f) == *old(f),
            children_ran(*self, *old(f), json@, *final(f)),
    {
        if self.map_child.is_empty() {
            proof {
                let order = Seq::<u128>::empty();
                let frames = seq![*f];
                assert(runs_in_order(*self, order, frames, json@));
                assert forall|k: u128| #[trigger] self.map_child@.contains_key(k) implies order.contains(k) by {
                    assert(self.map_child@.dom().contains(k));
                }
                assert(chain_of(order, self.map_child@, frames, *f, *f));
            }
            return false;
        }
        self.run_children(f, json);
        true
    }
}

/// Whether no item of the map on layer `layer` collides with the range `lr`.
pub open spec fn slot_free<F>(m: Map<u128, Item<F>>, layer: usize, lr: (usize, usize)) -> bool {
    forall|k: u128| #[trigger] m.contains_key(k) ==> !(m[k].layer == layer && collides(lr, m[k].lr))
}

/// Whether no two distinct items on the same layer collide.
pub open spec fn layers_free<F>(m: Map<u128, Item<F>>) -> bool {
    forall|k1: u128, k2: u128|
        #![trigger m.contains_key(k1), m.contains_key(k2)]
        m.contains_key(k1) && m.contains_key(k2) && k1 != k2 && m[k1].layer == m[k2].layer
            ==> !collides(m[k1].lr, m[k2].lr)
}

/// The map after item `id` moved to layer `layer` over `lr`.
pub open spec fn placed<F>(m: Map<u128, Item<F>>, id: u128, layer: usize, lr: (usize, usize)) -> Map<
    u128,
    Item<F>,
> {
    m.insert(id, Item { id: m[id].id, map_child: m[id].map_child, layer, lr })
}

/// The items of the timeline, keyed by their identifiers.
pub struct ItemManager<F> {
    pub id: u128,
    pub map: HashMap<u128, Item<F>>,
}

impl<F: FrameInterface> ItemManager<F> {
    /// Adds `item` under its identifier, which it hands back.
    pub fn add(&mut self, item: Item<F>) -> (r: u128)
        ensures
            r == item.id,
            final(self).map@ == old(self).map@.insert(r, item),
            final(self).id == old(self).id,
    {
        let id = item.id;
        self.map.insert(id, item);
        id
    }

    /// Removes the item `id`, if it is there.
    pub fn del(&mut self, id: &u128)
        ensures
            final(self).map@ == old(self).map@.remove(*id),
            final(self).id == old(self).id,
    {
        self.map.remove(id);
    }

    /// Adds `child` to `parent` under the child's identifier, which it hands
    /// back.
    pub fn add_child(&mut self, parent: &mut Item<F>, child: ItemChild<F>) -> (r: u128)
        ensures
            final(parent).map_child@ == old(parent).map_child@.insert(r, child),
            final(parent).id == old(parent).id,
            final(parent).layer == old(parent).layer,
            final(parent).lr == old(parent).lr,
            child is Item ==> r == child->Item_0.id,
            child is FI ==> child->FI_0.ulid_result(r),
            *final(self) == *old(self),
    {
        let c_id = child.child_id();
        parent.map_child.insert(c_id, child);
        c_id
    }

    /// Removes the child `child_id` from `parent`, if it is there.
    pub fn del_child(&mut self, parent: &mut Item<F>, child_id: &u128)
        ensures
            final(parent).map_child@ == old(parent).map_child@.remove(*child_id),
            final(parent).id == old(parent).id,
            final(parent).layer == old(parent).layer,
            final(parent).lr == old(parent).lr,
            *final(self) == *old(self),
    {
        parent.map_child.remove(child_id);
    }

    /// The item `id`, if it is there.
    pub fn get(&self, id: &u128) -> (r: Option<&Item<F>>)
        ensures
            match r {
                Some(item) => self.map@.contains_key(*id) && *item == self.map@[*id],
                None => !self.map@.contains_key(*id),
            },
    {
        self.map.get(id)
    }

    /// The item `id`, if it is there, to change in place.
    pub fn get_mut(&mut self, id: &u128) -> (r: Option<&mut Item<F>>)
        ensures
            final(self).id == old(self).id,
            match r {
                Some(item) => old(self).map@.contains_key(*id) && *item == old(self).map@[*id]
                    && final(self).map@ == old(self).map@.insert(*id, *final(item)),
                None => !old(self).map@.contains_key(*id) && final(self).map@ == old(self).map@,
            },
    {
        hash_map_get_mut(&mut self.map, id)
    }

    /// Whether the closed ranges `lr1` and `lr2` overlap.
    pub fn is_collid(lr1: (usize, usize), lr2: (usize, usize)) -> (r: bool)
        ensures
            r == collides(lr1, lr2),
    {
        !((lr1.1 < lr2.0) || (lr2.1 < lr1.0))
    }

    /// Moves item `id` to layer `layer` over `lr` when no item on that layer
    /// (the moved one included) collides with `lr`; reports whether it moved.
    pub fn mov(&mut self, id: &u128, layer: usize, lr: (usize, usize)) -> (r: bool)
        requires
            slot_free(old(self).map@, layer, lr) ==> old(self).map@.contains_key(*id),
        ensures
            r == slot_free(old(self).map@, layer, lr),
            r ==> final(self).map@ == placed(old(self).map@, *id, layer, lr),
            !r ==> final(self).map@ == old(self).map@,
            final(self).id == old(self).id,
    {
        let ghost m = self.map@;
        let ghost v = vstd::std_specs::hash::spec_hash_map_iter(&self.map).remaining();
        let mut collid = false;
        for (_k, item) in it: self.map.iter()
            invariant
                m == self.map@,
                it.seq() == v,
                collid == exists|j: int|
                    0 <= j < it.index() && #[trigger] v[j].1.layer == layer && collides(lr, v[j].1.lr),
        {
            if item.layer == layer && Self::is_collid(lr, item.lr) {
                collid = true;
            }
        }
        proof {
            if !collid {
                assert forall|k: u128| #[trigger] m.contains_key(k) implies !(m[k].layer == layer
                    && collides(lr, m[k].lr)) by {
                    assert(v.contains((&k, &m[k])));
                    let j = choose|j: int| 0 <= j < v.len() && v[j] == (&k, &m[k]);
                    assert(!(v[j].1.layer == layer && collides(lr, v[j].1.lr)));
                }
            } else {
                let j = choose|j: int|
                    0 <= j < v.len() && #[trigger] v[j].1.layer == layer && collides(lr, v[j].1.lr);
                assert(m.contains_key(*v[j].0));
            }
        }
        if collid {
            false
        } else {
            match self.map.remove(id) {
                Some(item) => {
                    self.map.insert(
                        *id,
                        Item { id: item.id, map_child: item.map_child, layer, lr },
                    );
                },
                None => {},
            }
            true
        }
    }
}

/// Whether the items of `manager`, taken in the order `order`, lead through
/// the frames `frames`: the children of each item run on the frame the item
/// before left.
pub open spec fn items_run_in_order<F: FrameInterface>(
    manager: ItemManager<F>,
    order: Seq<u128>,
    frames: Seq<Frame>,
    json: Seq<char>,
) -> bool {
    forall|i: int|
        #![trigger order[i]]
        0 <= i < order.len() && manager.map@.contains_key(order[i]) ==> children_ran(
            manager.map@[order[i]],
            frames[i],
            json,
            frames[i + 1],
        )
}

/// Whether processing every item of `manager` once, in some order, each on
/// the frame the one before left, may take `before` to `after`.
pub open spec fn items_ran<F: FrameInterface>(
    manager: ItemManager<F>,
    before: Frame,
    json: Seq<char>,
    after: Frame,
) -> bool {
    exists|order: Seq<u128>, frames: Seq<Frame>|
        #[trigger] chain_of(order, manager.map@, frames, before, after) && items_run_in_order(
            manager,
            order,
            frames,
            json,
        )
}

impl<F: FrameInterface> FrameInterface for ItemManager<F> {
    /// The timeline has settings to hand out only while it has no items (the
    /// settings of an item are not written yet).
    open spec fn has_settings(&self) -> bool {
        self.map@.is_empty()
    }

    /// The settings of the timeline are the JSON array with one entry per
    /// item; an empty timeline's are the text `[]` of the empty array.
    fn get_settings(&self) -> (r: String)
        ensures
            r@ == "[]"@,
    {
        "[]".to_owned()
    }

    /// The timeline's identifier is its `id`.
    open spec fn ulid_result(&self, r: u128) -> bool {
        r == self.id
    }

    fn get_ulid(&self) -> (r: u128)
        ensures
            r == self.id,
    {
        self.id
    }

    /// The timeline runs the children of each of its items once, and
    /// reports `true`.
    open spec fn process_result(&self, before: Frame, json: Seq<char>, after: Frame, r: bool) -> bool {
        r && items_ran(*self, before, json, after)
    }

    /// Lets every item work on the frame, once each, in the map's order;
    /// always `true`.
    fn process(&self, f: &mut Frame, json: &str) -> (r: bool)
        ensures
            r,
            self.map@.is_empty() ==> *final(f) == *old(f),
    {
        let ghost f0 = *f;
        let ghost m = self.map@;
        let ghost v = vstd::std_specs::hash::spec_hash_map_iter(&self.map).remaining();
        let ghost mut frames: Seq<Frame> = seq![*f];
        for (_id, item) in it: self.map.iter()
            invariant
                self.map@.is_empty() ==> *f == f0,
                m == self.map@,
                it.seq() == v,
                v.no_duplicates(),
                frames.len() == it.index() + 1,
                frames[0] == f0,
                frames[it.index()] == *f,
                forall|i: int|
                    0 <= i < it.index() ==> #[trigger] children_ran(
                        m[*v[i].0],
                        frames[i],
                        json@,
                        frames[i + 1],
                    ),
        {
            let ghost k = *v[it.index()].0;
            let ghost before = frames;
            let ghost fb = *f;
            assert(m.contains_key(k) && m[k] == *item);
            item.process(f, json);
            proof {
                frames = frames.push(*f);
                assert forall|i: int| 0 <= i < it.index() + 1 implies #[trigger] children_ran(
                    m[*v[i].0],
                    frames[i],
                    json@,
                    frames[i + 1],
                ) by {
                    if i < it.index() {
                        assert(frames[i] == before[i] && frames[i + 1] == before[i + 1]);
                    } else {
                        assert(frames[i] == fb && frames[i + 1] == *f);
                    }
                }
            }
        }
        proof {
            let order = v.map_values(|kv: (&u128, &Item<F>)| *kv.0);
            assert forall|a: int, b: int|
                0 <= a < order.len() && 0 <= b < order.len() && a != b implies order[a] != order[b] by {
                if order[a] == order[b] {
                    assert(m[*v[a].0] == *v[a].1);
                    assert(m[*v[b].0] == *v[b].1);
                    assert(v[a] == v[b]);
                }
            }
            assert forall|i: int| 0 <= i < order.len() implies m.contains_key(#[trigger] order[i]) by {
                assert(m.contains_key(*v[i].0));
            }
            assert forall|k: u128| #[trigger] m.contains_key(k) implies order.contains(k) by {
                assert(v.contains((&k, &m[k])));
                let i = choose|i: int| 0 <= i < v.len() && v[i] == (&k, &m[k]);
                assert(order[i] == k);
            }
            assert forall|i: int|
                #![trigger order[i]]
                0 <= i < order.len() && m.contains_key(order[i]) implies children_ran(
                    m[order[i]],
                    frames[i],
                    json@,
                    frames[i + 1],
                ) by {
                assert(order[i] == *v[i].0);
            }
            assert(order.len() == v.len());
            assert(items_run_in_order(*self, order, frames, json@));
            assert(chain_of(order, self.map@, frames, f0, *f));
        }
        true
    }
}

/// A successful move keeps the timeline free of overlaps: if no two items
/// on one layer collided before, none do after.
pub proof fn law_mov_keeps_layers_free<F>(
    m: Map<u128, Item<F>>,
    id: u128,
    layer: usize,
    lr: (usize, usize),
)
    requires
        layers_free(m),
        slot_free(m, layer, lr),
        m.contains_key(id),
    ensures
        layers_free(placed(m, id, layer, lr)),
        placed(m, id, layer, lr)[id].layer == layer,
        placed(m, id, layer, lr)[id].lr == lr,
{
    let m2 = placed(m, id, layer, lr);
    assert forall|k1: u128, k2: u128|
        m2.contains_key(k1) && m2.contains_key(k2) && k1 != k2 && m2[k1].layer == m2[k2].layer
            implies !collides(m2[k1].lr, m2[k2].lr) by {
        assert(m.contains_key(k1) && m.contains_key(k2));
        if k1 == id {
            assert(!(m[k2].layer == layer && collides(lr, m[k2].lr)));
        } else if k2 == id {
            assert(!(m[k1].layer == layer && collides(lr, m[k1].lr)));
            assert(collides(lr, m[k1].lr) == collides(m[k1].lr, lr));
        }
    }
}

} // verus!
