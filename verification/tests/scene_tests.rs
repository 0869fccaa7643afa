use std::collections::HashMap;

use core_video_editor::frame::{Frame, FrameSettings};
use core_video_editor::interface::ProcessInterface;
use core_video_editor::item::{Item, ItemChild};
use core_video_editor::layer::{Layer, LayerItem};
use core_video_editor::scene::Scene;

struct Put(u8);

impl ProcessInterface<Frame, FrameSettings> for Put {
    fn get_json_template(&self) -> Result<serde_json::Value, anyhow::Error> {
        Ok(serde_json::Value::Null)
    }

    fn get_ulid(&self) -> u128 {
        self.0 as u128
    }

    fn process(
        &self,
        f: &mut Frame,
        _settings: &FrameSettings,
        _json: serde_json::Value,
    ) -> Result<bool, anyhow::Error> {
        f.vec_rgba.push(self.0);
        Ok(true)
    }
}

fn layer_with(id: u128, byte: u8, lr: (usize, usize)) -> Layer<Put> {
    let mut it = Item { id: id * 10, map_child: HashMap::new() };
    it.add_child(ItemChild::FI(Put(byte))).unwrap();
    let mut l = Layer { id, name: String::new(), map_item: HashMap::new() };
    l.add(LayerItem { item: it, lr });
    l
}

#[test]
fn scene_runs_every_layer_and_reports_true() {
    let mut map = HashMap::new();
    map.insert(1, layer_with(1, 7, (0, 10)));
    map.insert(2, layer_with(2, 8, (5, 15)));
    let scene = Scene { id: 3, map };
    let mut f = Frame::init(1, 1);
    let mut s = FrameSettings::default();
    s.frame_num = 6;
    assert_eq!(scene.process(&mut f, &s, serde_json::Value::Null).unwrap(), true);
    let mut got = f.vec_rgba.clone();
    got.sort();
    assert_eq!(got, vec![7, 8]);
    s.frame_num = 12;
    let mut g = Frame::init(1, 1);
    assert_eq!(scene.process(&mut g, &s, serde_json::Value::Null).unwrap(), true);
    assert_eq!(g.vec_rgba, vec![8]);
    assert_eq!(scene.get_ulid(), 3);
}

#[test]
fn empty_scene_leaves_the_frame_and_has_the_empty_array_template() {
    let scene: Scene<Put> = Scene { id: 4, map: HashMap::new() };
    let mut f = Frame::init(1, 1);
    f.vec_rgba.push(1);
    assert_eq!(scene.process(&mut f, &FrameSettings::default(), serde_json::Value::Null).unwrap(), true);
    assert_eq!(f.vec_rgba, vec![1]);
    let t = scene.get_json_template().unwrap();
    assert!(t.is_array());
    assert_eq!(t, serde_json::Value::Array(Vec::new()));
}

#[test]
fn default_settings_are_for_frame_zero() {
    let s = FrameSettings::default();
    assert_eq!(s.frame_num, 0);
    assert!(s.child.is_empty());
    assert_eq!(s.metadata, serde_json::Value::Null);
}

fn entry(kind: &str, id: u128, settings: serde_json::Value, child: serde_json::Value) -> serde_json::Value {
    let mut inner = serde_json::Map::new();
    inner.insert("ulid".to_string(), serde_json::Value::String(ulid::Ulid(id).to_string()));
    inner.insert("settings".to_string(), settings);
    inner.insert("child".to_string(), child);
    let mut outer = serde_json::Map::new();
    outer.insert(kind.to_string(), serde_json::Value::Object(inner));
    serde_json::Value::Object(outer)
}

fn layer_template_of(item_id: u128, byte: u8) -> serde_json::Value {
    let none = serde_json::Value::Array(Vec::new());
    serde_json::Value::Array(vec![entry(
        "i",
        item_id,
        none.clone(),
        serde_json::Value::Array(vec![entry("f", byte as u128, serde_json::Value::Null, none)]),
    )])
}

#[test]
fn scene_template_has_one_entry_per_layer_keyed_by_its_ulid() {
    let mut map = HashMap::new();
    map.insert(1, layer_with(1, 7, (0, 10)));
    map.insert(2, layer_with(2, 8, (5, 15)));
    let scene = Scene { id: 3, map };
    assert_eq!(scene.map[&1].get_json_template().unwrap(), layer_template_of(10, 7));
    let t = scene.get_json_template().unwrap();
    let arr = t.as_array().unwrap();
    assert_eq!(arr.len(), 2);
    for (layer, item_id, byte) in [(1u128, 10u128, 7u8), (2, 20, 8)] {
        let mut m = serde_json::Map::new();
        m.insert(ulid::Ulid(layer).to_string(), layer_template_of(item_id, byte));
        assert!(arr.contains(&serde_json::Value::Object(m)));
    }
}
