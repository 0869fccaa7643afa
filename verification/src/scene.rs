use std::collections::HashMap;
use vstd::prelude::*;
use vstd::std_specs::iter::IteratorSpec;

use crate::frame::{Frame, FrameSettings};
use crate::interface::{json_array, json_array_of, json_object1, json_object1_of, ProcessInterface};
use crate::item::{chain_of, is_order_of, listed, ulid_text, ulid_text_of};
use crate::layer::{layer_processed, layer_template, Layer};

verus! {

broadcast use vstd::std_specs::hash::group_hash_axioms;

/// A scene: layers keyed by their identifiers, all drawn onto the frame.
pub struct Scene<P> {
    pub id: u128,
    pub map: HashMap<u128, Layer<P>>,
}

/// Whether processing `layer` on `before` may leave `after`, whatever it
/// reports.
pub open spec fn layer_step<P: ProcessInterface<Frame, FrameSettings>>(
    layer: Layer<P>,
    before: Frame,
    settings: FrameSettings,
    json: serde_json::Value,
    after: Frame,
) -> bool {
    exists|r: Result<bool, anyhow::Error>| #[trigger]
        layer_processed(layer, before, settings, json, after, r)
}

/// Whether the layers of `scene`, taken in the order `order`, lead through
/// the frames `frames`: each layer is processed on the frame the one before
/// left.
pub open spec fn layers_run_in_order<P: ProcessInterface<Frame, FrameSettings>>(
    scene: Scene<P>,
    order: Seq<u128>,
    frames: Seq<Frame>,
    settings: FrameSettings,
    json: serde_json::Value,
) -> bool {
    forall|i: int|
        #![trigger order[i]]
        0 <= i < order.len() && scene.map@.contains_key(order[i]) ==> layer_step(
            scene.map@[order[i]],
            frames[i],
            settings,
            json,
            frames[i + 1],
        )
}

/// Whether processing every layer of `scene` once, in some order, each on
/// the frame the one before left, may take `before` to `after`.
pub open spec fn layers_ran<P: ProcessInterface<Frame, FrameSettings>>(
    scene: Scene<P>,
    before: Frame,
    settings: FrameSettings,
    json: serde_json::Value,
    after: Frame,
) -> bool {
    exists|order: Seq<u128>, frames: Seq<Frame>|
        #[trigger] chain_of(order, scene.map@, frames, before, after) && layers_run_in_order(
            scene,
            order,
            frames,
            settings,
            json,
        )
}

/// Whether `e` may be the template entry of `layer` kept under `id`: the
/// JSON object whose one key is the text of `id`, holding the layer's
/// template.
pub open spec fn layer_entry<P: ProcessInterface<Frame, FrameSettings>>(
    layer: Layer<P>,
    id: u128,
    e: serde_json::Value,
) -> bool {
    exists|t: serde_json::Value|
        #[trigger] json_object1_of(ulid_text_of(id), t) == e && layer_template(layer, Ok(t))
}

/// Whether `entries`, taken with the keys in `order`, are the template
/// entries of the layers of `scene`.
pub open spec fn scene_entries_match<P: ProcessInterface<Frame, FrameSettings>>(
    scene: Scene<P>,
    order: Seq<u128>,
    entries: Seq<serde_json::Value>,
) -> bool {
    forall|i: int|
        #![trigger order[i]]
        0 <= i < order.len() && scene.map@.contains_key(order[i]) ==> layer_entry(
            scene.map@[order[i]],
            order[i],
            entries[i],
        )
}

/// What the template of `scene` may be: the JSON array with one entry per
/// layer, in some order, or the error that making a layer's template gave.
pub open spec fn scene_template<P: ProcessInterface<Frame, FrameSettings>>(
    scene: Scene<P>,
    r: Result<serde_json::Value, anyhow::Error>,
) -> bool {
    match r {
        Ok(v) => exists|order: Seq<u128>, entries: Seq<serde_json::Value>|
            #[trigger] listed(order, scene.map@, entries) && scene_entries_match(
                scene,
                order,
                entries,
            ) && v == json_array_of(entries),
        Err(err) => exists|k: u128|
            #[trigger] scene.map@.contains_key(k) && layer_template(scene.map@[k], Err(err)),
    }
}

impl<P: ProcessInterface<Frame, FrameSettings>> ProcessInterface<Frame, FrameSettings> for Scene<P> {
    /// The template of a scene is the JSON array with one entry per layer.
    open spec fn json_template_result(&self, r: Result<serde_json::Value, anyhow::Error>) -> bool {
        scene_template(*self, r)
    }

    /// Makes the template in the map's order; the first error a layer's
    /// template gives stops it.
    fn get_json_template(&self) -> (r: Result<serde_json::Value, anyhow::Error>) {
        let ghost m = self.map@;
        let ghost v = vstd::std_specs::hash::spec_hash_map_iter(&self.map).remaining();
        let mut entries: Vec<serde_json::Value> = Vec::new();
        for (id, layer) in it: self.map.iter()
            invariant
                m == self.map@,
                it.seq() == v,
                v.no_duplicates(),
                entries.len() == it.index(),
                forall|i: int|
                    0 <= i < it.index() ==> #[trigger] layer_entry(m[*v[i].0], *v[i].0, entries@[i]),
        {
            let ghost k = *v[it.index()].0;
            assert(m.contains_key(k) && m[k] == *layer);
            match layer.get_json_template() {
                Ok(t) => {
                    let key = ulid_text(*id);
                    let e = json_object1(key.as_str(), t);
                    let ghost before = entries@;
                    entries.push(e);
                    proof {
                        assert forall|i: int| 0 <= i < it.index() + 1 implies #[trigger] layer_entry(
                            m[*v[i].0],
                            *v[i].0,
                            entries@[i],
                        ) by {
                            if i < it.index() {
                                assert(entries@[i] == before[i]);
                            } else {
                                assert(json_object1_of(ulid_text_of(k), t) == entries@[i]);
                            }
                        }
                    }
                },
                Err(err) => {
                    proof {
                        assert(self.map@.contains_key(k));
                    }
                    return Err(err);
                },
            }
        }
        proof {
            let order = v.map_values(|kv: (&u128, &Layer<P>)| *kv.0);
            assert forall|a: int, b: int|
                0 <= a < order.len() && 0 <= b < order.len() && a != b implies order[a] != order[b] by {
                if order[a] == order[b] {
                    assert(m[*v[a].0] == *v[a].1);
                    assert(m[*v[b].0] == *v[b].1);
                    assert(v[a] == v[b]);
                }
            }
            assert forall|i: int| 0 <= i < order.len() implies m.contains_key(#[trigger] order[i]) by {
                assert(m.contains_key(*v[i].0));
            }
            assert forall|k: u128| #[trigger] m.contains_key(k) implies order.contains(k) by {
                assert(v.contains((&k, &m[k])));
                let i = choose|i: int| 0 <= i < v.len() && v[i] == (&k, &m[k]);
                assert(order[i] == k);
            }
            assert forall|i: int|
                #![trigger order[i]]
                0 <= i < order.len() && m.contains_key(order[i]) implies layer_entry(
                    m[order[i]],
                    order[i],
                    entries@[i],
                ) by {
                assert(order[i] == *v[i].0);
            }
            assert(order.len() == v.len());
            assert(scene_entries_match(*self, order, entries@));
            assert(listed(order, self.map@, entries@));
        }
        Ok(json_array(entries))
    }

    /// A scene's identifier is its `id`.
    open spec fn ulid_result(&self, r: u128) -> bool {
        r == self.id
    }

    fn get_ulid(&self) -> (r: u128)
        ensures
            r == self.id,
    {
        self.id
    }

    /// A scene processes each of its layers once and reports `true`.
    open spec fn process_result(
        &self,
        before: Frame,
        settings: FrameSettings,
        json: serde_json::Value,
        after: Frame,
        r: Result<bool, anyhow::Error>,
    ) -> bool {
        r == Ok::<bool, anyhow::Error>(true) && layers_ran(*self, before, settings, json, after)
    }

    /// Lets every layer work on the frame, once each, in the map's order;
    /// always reports `true`.
    fn process(&self, f: &mut Frame, settings: &FrameSettings, json: serde_json::Value) -> (r:
        Result<bool, anyhow::Error>)
        ensures
            r == Ok::<bool, anyhow::Error>(true),
            self.map@.is_empty() ==> *final(f) == *old(f),
    {
        let ghost f0 = *f;
        let ghost m = self.map@;
        let ghost v = vstd::std_specs::hash::spec_hash_map_iter(&self.map).remaining();
        let ghost mut frames: Seq<Frame> = seq![*f];
        for (_id, layer) in it: self.map.iter()
            invariant
                self.map@.is_empty() ==> *f == f0,
                m == self.map@,
                it.seq() == v,
                v.no_duplicates(),
                frames.len() == it.index() + 1,
                frames[0] == f0,
                frames[it.index()] == *f,
                forall|i: int|
                    0 <= i < it.index() ==> #[trigger] layer_step(
                        m[*v[i].0],
                        frames[i],
                        *settings,
                        json,
                        frames[i + 1],
                    ),
        {
            let ghost k = *v[it.index()].0;
            let ghost before = frames;
            assert(m.contains_key(k) && m[k] == *layer);
            let ghost fb = *f;
            let res = layer.process(f, settings, json.clone());
            proof {
                frames = frames.push(*f);
                assert forall|i: int| 0 <= i < it.index() + 1 implies #[trigger] layer_step(
                    m[*v[i].0],
                    frames[i],
                    *settings,
                    json,
                    frames[i + 1],
                ) by {
                    if i < it.index() {
                        assert(frames[i] == before[i] && frames[i + 1] == before[i + 1]);
                    } else {
                        assert(frames[i] == fb && frames[i + 1] == *f);
                        assert(layer_processed(m[k], fb, *settings, json, *f, res));
                    }
                }
            }
        }
        proof {
            let order = v.map_values(|kv: (&u128, &Layer<P>)| *kv.0);
            assert forall|a: int, b: int|
                0 <= a < order.len() && 0 <= b < order.len() && a != b implies order[a] != order[b] by {
                if order[a] == order[b] {
                    assert(m[*v[a].0] == *v[a].1);
                    assert(m[*v[b].0] == *v[b].1);
                    assert(v[a] == v[b]);
                }
            }
            assert forall|i: int| 0 <= i < order.len() implies m.contains_key(#[trigger] order[i]) by {
                assert(m.contains_key(*v[i].0));
            }
            assert forall|k: u128| #[trigger] m.contains_key(k) implies order.contains(k) by {
                assert(v.contains((&k, &m[k])));
                let i = choose|i: int| 0 <= i < v.len() && v[i] == (&k, &m[k]);
                assert(order[i] == k);
            }
            assert forall|i: int|
                #![trigger order[i]]
                0 <= i < order.len() && m.contains_key(order[i]) implies layer_step(
                    m[order[i]],
                    frames[i],
                    *settings,
                    json,
                    frames[i + 1],
                ) by {
                assert(order[i] == *v[i].0);
            }
            assert(order.len() == v.len());
            assert(layers_run_in_order(*self, order, frames, *settings, json));
            assert(chain_of(order, self.map@, frames, f0, *f));
        }
        Ok(true)
    }
}

} // verus!
