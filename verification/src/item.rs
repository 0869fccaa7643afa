use std::collections::HashMap;
use vstd::prelude::*;
use vstd::std_specs::iter::IteratorSpec;

use crate::frame::{Frame, FrameSettings};
use crate::interface::{
    json_array, json_array_of, json_object1, json_object1_of, json_object3, json_object3_of,
    json_string, json_string_of, ProcessInterface,
};

verus! {

broadcast use vstd::std_specs::hash::group_hash_axioms;

/// Draws a fresh identifier (`ulid::Ulid::generate`). It depends on the
/// clock and on a random source, so nothing is claimed of it.
#[verifier::external_body]
pub(crate) fn new_ulid() -> u128 {
    ulid::Ulid::generate().0
}

/// Names the text of the identifier `id` (`ulid::Ulid`'s `to_string`: 26
/// characters of Crockford's base 32).
pub uninterp spec fn ulid_text_of(id: u128) -> Seq<char>;

/// Writes the identifier `id` as text (`ulid::Ulid::to_string`). The
/// contract claims only that equal identifiers give equal texts, through
/// the name `ulid_text_of`.
#[verifier::external_body]
pub(crate) fn ulid_text(id: u128) -> (s: String)
    ensures
        s@ == ulid_text_of(id),
{
    ulid::Ulid(id).to_string()
}

/// What an item holds: a processor of some kind, or another item.
pub enum ItemChild<P> {
    FI(P),
    Item(Box<Item<P>>),
}

/// A clip on the timeline: a set of children keyed by their identifiers,
/// all of which work on the frame in turn.
pub struct Item<P> {
    pub id: u128,
    pub map_child: HashMap<u128, ItemChild<P>>,
}

impl<P> Default for Item<P> {
    /// An item with a fresh identifier and no children.
    fn default() -> (r: Self)
        ensures
            r.map_child@ == Map::<u128, ItemChild<P>>::empty(),
    {
        Item { id: new_ulid(), map_child: HashMap::new() }
    }
}

/// Whether `order` lists the keys of `m`, each once.
pub open spec fn is_order_of<V>(order: Seq<u128>, m: Map<u128, V>) -> bool {
    &&& order.no_duplicates()
    &&& forall|i: int| 0 <= i < order.len() ==> m.contains_key(#[trigger] order[i])
    &&& forall|k: u128| #[trigger] m.contains_key(k) ==> order.contains(k)
}

/// Whether `order` lists the keys of `m`, each once, and `frames` holds one
/// frame more than `order`, going from `before` to `after`.
pub open spec fn chain_of<V>(
    order: Seq<u128>,
    m: Map<u128, V>,
    frames: Seq<Frame>,
    before: Frame,
    after: Frame,
) -> bool {
    &&& is_order_of(order, m)
    &&& frames.len() == order.len() + 1
    &&& frames[0] == before
    &&& frames[order.len() as int] == after
}

/// Whether running the child `c` on `before` may leave `after`: a processor
/// does what its own `process_result` allows, an item runs its children.
pub open spec fn child_ran<P: ProcessInterface<Frame, FrameSettings>>(
    c: ItemChild<P>,
    before: Frame,
    settings: FrameSettings,
    json: serde_json::Value,
    after: Frame,
) -> bool
    decreases c, 0nat,
{
    match c {
        ItemChild::FI(fi) => exists|r: Result<bool, anyhow::Error>|
            #[trigger] fi.process_result(before, settings, json, after, r),
        ItemChild::Item(item) => children_ran(*item, before, settings, json, after),
    }
}

/// Whether the children of `item`, taken in the order `order`, lead through
/// the frames `frames`: each child takes the frame the one before left.
pub open spec fn runs_in_order<P: ProcessInterface<Frame, FrameSettings>>(
    item: Item<P>,
    order: Seq<u128>,
    frames: Seq<Frame>,
    settings: FrameSettings,
    json: serde_json::Value,
) -> bool
    decreases item, 1nat,
{
    &&& frames.len() == order.len() + 1
    &&& forall|i: int|
        0 <= i < order.len() && item.map_child@.contains_key(order[i]) ==> #[trigger] child_ran(
            item.map_child@[order[i]],
            frames[i],
            settings,
            json,
            frames[i + 1],
        )
}

/// Whether running every child of `item` once, in some order, each on the
/// frame the one before left, may take `before` to `after`.
pub open spec fn children_ran<P: ProcessInterface<Frame, FrameSettings>>(
    item: Item<P>,
    before: Frame,
    settings: FrameSettings,
    json: serde_json::Value,
    after: Frame,
) -> bool
    decreases item, 2nat,
{
    exists|order: Seq<u128>, frames: Seq<Frame>|
        #[trigger] chain_of(order, item.map_child@, frames, before, after) && runs_in_order(
            item,
            order,
            frames,
            settings,
            json,
        )
}

/// What processing an item does: it reports whether it has children, and
/// its children run once each.
pub open spec fn item_processed<P: ProcessInterface<Frame, FrameSettings>>(
    item: Item<P>,
    before: Frame,
    settings: FrameSettings,
    json: serde_json::Value,
    after: Frame,
    r: Result<bool, anyhow::Error>,
) -> bool {
    &&& r == Ok::<bool, anyhow::Error>(!item.map_child@.is_empty())
    &&& children_ran(item, before, settings, json, after)
}

/// The empty JSON array.
pub open spec fn empty_array() -> serde_json::Value {
    json_array_of(Seq::<serde_json::Value>::empty())
}

/// The template entry `{kind: {"ulid": …, "settings": …, "child": …}}` of a
/// child with identifier `id`; `kind` is `"f"` for a processor and `"i"` for
/// an item.
pub open spec fn template_entry(
    kind: Seq<char>,
    id: u128,
    settings: serde_json::Value,
    child: serde_json::Value,
) -> serde_json::Value {
    json_object1_of(
        kind,
        json_object3_of(
            "ulid"@,
            json_string_of(ulid_text_of(id)),
            "settings"@,
            settings,
            "child"@,
            child,
        ),
    )
}

/// Whether `order` lists the keys of `m`, each once, and `entries` holds one
/// value per key.
pub open spec fn listed<V>(order: Seq<u128>, m: Map<u128, V>, entries: Seq<serde_json::Value>) -> bool {
    is_order_of(order, m) && entries.len() == order.len()
}

/// Whether `e` may be the template entry of the child `c` kept under `id`:
/// a processor's entry holds the processor's template as its settings and
/// no children; an item's holds no settings and the item's template as its
/// children.
pub open spec fn child_entry<P: ProcessInterface<Frame, FrameSettings>>(
    c: ItemChild<P>,
    id: u128,
    e: serde_json::Value,
) -> bool
    decreases c, 0nat,
{
    match c {
        ItemChild::FI(fi) => exists|t: serde_json::Value|
            #[trigger] template_entry("f"@, id, t, empty_array()) == e
                && fi.json_template_result(Ok(t)),
        ItemChild::Item(item) => exists|t: serde_json::Value|
            #[trigger] template_entry("i"@, id, empty_array(), t) == e && item_template(
                *item,
                Ok(t),
            ),
    }
}

/// Whether making the template of the child `c` may fail with `err`.
pub open spec fn child_fails<P: ProcessInterface<Frame, FrameSettings>>(
    c: ItemChild<P>,
    err: anyhow::Error,
) -> bool
    decreases c, 0nat,
{
    match c {
        ItemChild::FI(fi) => fi.json_template_result(Err(err)),
        ItemChild::Item(item) => item_template(*item, Err(err)),
    }
}

/// Whether `entries`, taken with the keys in `order`, are the template
/// entries of the children of `item`.
pub open spec fn entries_match<P: ProcessInterface<Frame, FrameSettings>>(
    item: Item<P>,
    order: Seq<u128>,
    entries: Seq<serde_json::Value>,
) -> bool
    decreases item, 1nat,
{
    forall|i: int|
        #![trigger order[i]]
        0 <= i < order.len() && item.map_child@.contains_key(order[i]) ==> child_entry(
            item.map_child@[order[i]],
            order[i],
            entries[i],
        )
}

/// What the template of `item` may be: the JSON array with one entry per
/// child, in some order, or the error that making a child's template gave.
pub open spec fn item_template<P: ProcessInterface<Frame, FrameSettings>>(
    item: Item<P>,
    r: Result<serde_json::Value, anyhow::Error>,
) -> bool
    decreases item, 2nat,
{
    match r {
        Ok(v) => exists|order: Seq<u128>, entries: Seq<serde_json::Value>|
            #[trigger] listed(order, item.map_child@, entries) && entries_match(item, order, entries)
                && v == json_array_of(entries),
        Err(err) => exists|k: u128|
            #[trigger] item.map_child@.contains_key(k) && child_fails(item.map_child@[k], err),
    }
}

/// Whether `e` may be the template entry of `item` kept under `id`: no
/// settings, and the item's template as its children.
pub open spec fn item_entry<P: ProcessInterface<Frame, FrameSettings>>(
    item: Item<P>,
    id: u128,
    e: serde_json::Value,
) -> bool {
    exists|t: serde_json::Value|
        #[trigger] template_entry("i"@, id, empty_array(), t) == e && item_template(item, Ok(t))
}

/// Makes the template entry of a child with identifier `id`.
fn make_entry(kind: &str, id: u128, settings: serde_json::Value, child: serde_json::Value) -> (e:
    serde_json::Value)
    ensures
        e == template_entry(kind@, id, settings, child),
{
    let inner = json_object3(
        "ulid",
        json_string(ulid_text(id)),
        "settings",
        settings,
        "child",
        child,
    );
    json_object1(kind, inner)
}

impl<P: ProcessInterface<Frame, FrameSettings>> ItemChild<P> {
    /// The template entry of this child, kept under `id`.
    fn entry(&self, id: u128) -> (r: Result<serde_json::Value, anyhow::Error>)
        ensures
            match r {
                Ok(e) => child_entry(*self, id, e),
                Err(err) => child_fails(*self, err),
            },
        decreases self, 0nat,
    {
        match self {
            ItemChild::FI(fi) => match fi.get_json_template() {
                Ok(t) => {
                    let none = json_array(Vec::new());
                    assert(none == empty_array());
                    let e = make_entry("f", id, t, none);
                    Ok(e)
                },
                Err(err) => Err(err),
            },
            ItemChild::Item(item) => {
                let r = item.entry(id);
                proof {
                    if r is Ok {
                        let e = r->Ok_0;
                        let t = choose|t: serde_json::Value|
                            #[trigger] template_entry("i"@, id, empty_array(), t) == e
                                && item_template(**item, Ok(t));
                        assert(template_entry("i"@, id, empty_array(), t) == e);
                    }
                }
                r
            },
        }
    }
}

impl<P: ProcessInterface<Frame, FrameSettings>> Item<P> {
    /// The template entry of this item, kept under `id`.
    pub(crate) fn entry(&self, id: u128) -> (r: Result<serde_json::Value, anyhow::Error>)
        ensures
            match r {
                Ok(e) => item_entry(*self, id, e),
                Err(err) => item_template(*self, Err(err)),
            },
        decreases self, 2nat,
    {
        match self.template() {
            Ok(t) => {
                let none = json_array(Vec::new());
                assert(none == empty_array());
                let e = make_entry("i", id, none, t);
                Ok(e)
            },
            Err(err) => Err(err),
        }
    }

    /// The template of this item: the JSON array with one entry per child,
    /// in the map's order; the first error a child's template gives stops it.
    fn template(&self) -> (r: Result<serde_json::Value, anyhow::Error>)
        ensures
            item_template(*self, r),
        decreases self, 1nat,
    {
        let ghost m = self.map_child@;
        let ghost v = vstd::std_specs::hash::spec_hash_map_iter(&self.map_child).remaining();
        let mut entries: Vec<serde_json::Value> = Vec::new();
        for (id, child) in it: self.map_child.iter()
            invariant
                m == self.map_child@,
                it.seq() == v,
                v.no_duplicates(),
                entries.len() == it.index(),
                forall|i: int|
                    0 <= i < it.index() ==> #[trigger] child_entry(
                        m[*v[i].0],
                        *v[i].0,
                        entries@[i],
                    ),
        {
            let ghost k = *v[it.index()].0;
            assert(m.contains_key(k) && m[k] == *child);
            assert(decreases_to!(self => self.map_child@[k]));
            match child.entry(*id) {
                Ok(e) => {
                    let ghost before = entries@;
                    entries.push(e);
                    proof {
                        assert forall|i: int| 0 <= i < it.index() + 1 implies #[trigger] child_entry(
                            m[*v[i].0],
                            *v[i].0,
                            entries@[i],
                        ) by {
                            if i < it.index() {
                                assert(entries@[i] == before[i]);
                            }
                        }
                    }
                },
                Err(err) => {
                    proof {
                        assert(self.map_child@.contains_key(k));
                    }
                    return Err(err);
                },
            }
        }
        proof {
            let order = v.map_values(|kv: (&u128, &ItemChild<P>)| *kv.0);
            assert forall|a: int, b: int|
                0 <= a < order.len() && 0 <= b < order.len() && a != b implies order[a] != order[b] by {
                if order[a] == order[b] {
                    assert(m[*v[a].0] == *v[a].1);
                    assert(m[*v[b].0] == *v[b].1);
                    assert(v[a] == v[b]);
                }
            }
            assert forall|i: int| 0 <= i < order.len() implies m.contains_key(#[trigger] order[i]) by {
                assert(m.contains_key(*v[i].0));
            }
            assert forall|k: u128| #[trigger] m.contains_key(k) implies order.contains(k) by {
                assert(v.contains((&k, &m[k])));
                let i = choose|i: int| 0 <= i < v.len() && v[i] == (&k, &m[k]);
                assert(order[i] == k);
            }
            assert forall|i: int|
                #![trigger order[i]]
                0 <= i < order.len() && m.contains_key(order[i]) implies child_entry(
                    m[order[i]],
                    order[i],
                    entries@[i],
                ) by {
                assert(order[i] == *v[i].0);
            }
            assert(order.len() == v.len());
            assert(entries_match(*self, order, entries@));
            assert(listed(order, self.map_child@, entries@));
        }
        Ok(json_array(entries))
    }
}

impl<P: ProcessInterface<Frame, FrameSettings>> ItemChild<P> {
    /// Lets the child work on the frame; what it reports is dropped.
    fn run(&self, f: &mut Frame, settings: &FrameSettings, json: &serde_json::Value)
        ensures
            child_ran(*self, *old(f), *settings, *json, *final(f)),
        decreases self, 0nat,
    {
        match self {
            ItemChild::FI(fi) => {
                let _ = fi.process(f, settings, json.clone());
            },
            ItemChild::Item(item) => {
                item.run_children(f, settings, json);
            },
        }
    }
}

impl<P: ProcessInterface<Frame, FrameSettings>> Item<P> {
    /// Lets every child work on the frame, once each, in the map's order.
    fn run_children(&self, f: &mut Frame, settings: &FrameSettings, json: &serde_json::Value)
        ensures
            children_ran(*self, *old(f), *settings, *json, *final(f)),
        decreases self, 1nat,
    {
        let ghost m = self.map_child@;
        let ghost v = vstd::std_specs::hash::spec_hash_map_iter(&self.map_child).remaining();
        let ghost mut frames: Seq<Frame> = seq![*f];
        for (_id, child) in it: self.map_child.iter()
            invariant
                m == self.map_child@,
                it.seq() == v,
                v.no_duplicates(),
                frames.len() == it.index() + 1,
                frames[0] == *old(f),
                frames[it.index()] == *f,
                forall|i: int|
                    0 <= i < it.index() ==> #[trigger] child_ran(
                        m[*v[i].0],
                        frames[i],
                        *settings,
                        *json,
                        frames[i + 1],
                    ),
        {
            let ghost k = *v[it.index()].0;
            assert(m.contains_key(k));
            assert(decreases_to!(self => self.map_child@[k]));
            let ghost before = frames;
            child.run(f, settings, json);
            proof {
                frames = frames.push(*f);
                assert forall|i: int| 0 <= i < it.index() + 1 implies #[trigger] child_ran(
                    m[*v[i].0],
                    frames[i],
                    *settings,
                    *json,
                    frames[i + 1],
                ) by {
                    if i < it.index() {
                        assert(frames[i] == before[i] && frames[i + 1] == before[i + 1]);
                    }
                }
            }
        }
        proof {
            let order = v.map_values(|kv: (&u128, &ItemChild<P>)| *kv.0);
            assert forall|a: int, b: int|
                0 <= a < order.len() && 0 <= b < order.len() && a != b implies order[a] != order[b] by {
                if order[a] == order[b] {
                    assert(m[*v[a].0] == *v[a].1);
                    assert(m[*v[b].0] == *v[b].1);
                    assert(v[a] == v[b]);
                }
            }
            assert forall|i: int| 0 <= i < order.len() implies m.contains_key(#[trigger] order[i]) by {
                assert(m.contains_key(*v[i].0));
            }
            assert forall|k: u128| #[trigger] m.contains_key(k) implies order.contains(k) by {
                assert(v.contains((&k, &m[k])));
                let i = choose|i: int| 0 <= i < v.len() && v[i] == (&k, &m[k]);
                assert(order[i] == k);
            }
            assert forall|i: int|
                #![trigger order[i]]
                0 <= i < order.len() && m.contains_key(order[i]) implies child_ran(
                    m[order[i]],
                    frames[i],
                    *settings,
                    *json,
                    frames[i + 1],
                ) by {
                assert(order[i] == *v[i].0);
            }
            assert(order.len() == v.len());
            assert(runs_in_order(*self, order, frames, *settings, *json));
            assert(chain_of(order, self.map_child@, frames, *old(f), *f));
        }
    }
}

impl<P: ProcessInterface<Frame, FrameSettings>> Item<P> {
    /// Adds `child` under its own identifier, replacing any child that had
    /// that identifier, and hands the identifier back.
    pub fn add_child(&mut self, child: ItemChild<P>) -> (r: Result<u128, anyhow::Error>)
        ensures
            final(self).id == old(self).id,
            r matches Ok(c_id) && final(self).map_child@ == old(self).map_child@.insert(c_id, child)
                && child.ulid_result(c_id) && (child is Item ==> c_id == child->Item_0.id),
    {
        let c_id = child.get_ulid();
        self.map_child.insert(c_id, child);
        Ok(c_id)
    }

    /// Removes the child with identifier `child_id`, if there is one.
    pub fn del_child(&mut self, child_id: &u128) -> (r: Result<(), anyhow::Error>)
        ensures
            final(self).id == old(self).id,
            final(self).map_child@ == old(self).map_child@.remove(*child_id),
            r is Ok,
    {
        self.map_child.remove(child_id);
        Ok(())
    }
}

impl<P: ProcessInterface<Frame, FrameSettings>> ProcessInterface<Frame, FrameSettings> for Item<P> {
    /// The template of an item is the JSON array with one entry per child.
    open spec fn json_template_result(&self, r: Result<serde_json::Value, anyhow::Error>) -> bool {
        item_template(*self, r)
    }

    fn get_json_template(&self) -> (r: Result<serde_json::Value, anyhow::Error>) {
        self.template()
    }

    /// An item's identifier is its `id`.
    open spec fn ulid_result(&self, r: u128) -> bool {
        r == self.id
    }

    fn get_ulid(&self) -> (r: u128)
        ensures
            r == self.id,
    {
        self.id
    }

    /// An item reports whether it has children, and its children run once
    /// each.
    open spec fn process_result(
        &self,
        before: Frame,
        settings: FrameSettings,
        json: serde_json::Value,
        after: Frame,
        r: Result<bool, anyhow::Error>,
    ) -> bool {
        item_processed(*self, before, settings, json, after, r)
    }

    /// Lets every child work on the frame, once each. Reports `false`, and
    /// does nothing, when the item has no children, and `true` otherwise.
    fn process(&self, f: &mut Frame, settings: &FrameSettings, json: serde_json::Value) -> (r:
        Result<bool, anyhow::Error>)
        ensures
            r == Ok::<bool, anyhow::Error>(!self.map_child@.is_empty()),
            self.map_child@.is_empty() ==> *final(f) == *old(f),
    {
        if self.map_child.is_empty() {
            proof {
                let order = Seq::<u128>::empty();
                let frames = seq![*f];
                assert(runs_in_order(*self, order, frames, *settings, json));
                assert forall|k: u128| #[trigger] self.map_child@.contains_key(k) implies order.contains(k) by {
                    assert(self.map_child@.dom().contains(k));
                }
                assert(chain_of(order, self.map_child@, frames, *f, *f));
                assert(children_ran(*self, *f, *settings, json, *f));
            }
            return Ok(false);
        }
        self.run_children(f, settings, &json);
        Ok(true)
    }
}

impl<P: ProcessInterface<Frame, FrameSettings>> ProcessInterface<Frame, FrameSettings> for ItemChild<
    P,
> {
    open spec fn json_template_result(&self, r: Result<serde_json::Value, anyhow::Error>) -> bool {
        match self {
            ItemChild::FI(fi) => fi.json_template_result(r),
            ItemChild::Item(item) => item.json_template_result(r),
        }
    }

    fn get_json_template(&self) -> (r: Result<serde_json::Value, anyhow::Error>) {
        match self {
            ItemChild::FI(fi) => fi.get_json_template(),
            ItemChild::Item(item) => item.template(),
        }
    }

    /// A processor child's identifier is what the processor allows; an item
    /// child's is the item's `id`.
    open spec fn ulid_result(&self, r: u128) -> bool {
        match self {
            ItemChild::FI(fi) => fi.ulid_result(r),
            ItemChild::Item(item) => r == item.id,
        }
    }

    fn get_ulid(&self) -> (r: u128)
        ensures
            self is Item ==> r == self->Item_0.id,
    {
        match self {
            ItemChild::FI(fi) => fi.get_ulid(),
            ItemChild::Item(item) => item.get_ulid(),
        }
    }

    /// A processor child does what it allows itself; an item child is
    /// processed as an item.
    open spec fn process_result(
        &self,
        before: Frame,
        settings: FrameSettings,
        json: serde_json::Value,
        after: Frame,
        r: Result<bool, anyhow::Error>,
    ) -> bool {
        match self {
            ItemChild::FI(fi) => fi.process_result(before, settings, json, after, r),
            ItemChild::Item(item) => item_processed(**item, before, settings, json, after, r),
        }
    }

    fn process(&self, f: &mut Frame, settings: &FrameSettings, json: serde_json::Value) -> (r:
        Result<bool, anyhow::Error>)
        ensures
            self is Item ==> r == Ok::<bool, anyhow::Error>(!self->Item_0.map_child@.is_empty()),
    {
        match self {
            ItemChild::FI(fi) => fi.process(f, settings, json),
            ItemChild::Item(item) => item.process(f, settings, json),
        }
    }
}

/// Removing a child that was just added under a free identifier gives back
/// the children as they were; a child added under an identifier is found
/// there.
pub proof fn law_del_child_undoes_add_child<P>(m: Map<u128, ItemChild<P>>, c_id: u128, child: ItemChild<P>)
    ensures
        m.insert(c_id, child).contains_key(c_id),
        m.insert(c_id, child)[c_id] == child,
        !m.contains_key(c_id) ==> m.insert(c_id, child).remove(c_id) == m,
{
    if !m.contains_key(c_id) {
        assert(m.insert(c_id, child).remove(c_id) =~= m);
    }
}

} // verus!
