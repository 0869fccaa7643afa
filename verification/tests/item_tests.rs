use std::cell::Cell;
use std::collections::HashMap;

use core_video_editor::frame::{Frame, FrameSettings};
use core_video_editor::interface::ProcessInterface;
use core_video_editor::item::{Item, ItemChild};

/// A processor that counts its calls and stamps one byte into the frame.
struct Stamp {
    id: u128,
    calls: Cell<u32>,
}

impl ProcessInterface<Frame, FrameSettings> for Stamp {
    fn get_json_template(&self) -> Result<serde_json::Value, anyhow::Error> {
        Ok(serde_json::Value::Null)
    }

    fn get_ulid(&self) -> u128 {
        self.id
    }

    fn process(
        &self,
        f: &mut Frame,
        _settings: &FrameSettings,
        _json: serde_json::Value,
    ) -> Result<bool, anyhow::Error> {
        self.calls.set(self.calls.get() + 1);
        f.vec_rgba.push(self.id as u8);
        Ok(true)
    }
}

fn stamp(id: u128) -> Stamp {
    Stamp { id, calls: Cell::new(0) }
}

#[test]
fn empty_item_processes_nothing() {
    let item: Item<Stamp> = Item { id: 1, map_child: HashMap::new() };
    let mut f = Frame::init(2, 2);
    let r = item.process(&mut f, &FrameSettings::default(), serde_json::Value::Null);
    assert_eq!(r.unwrap(), false);
    assert!(f.vec_rgba.is_empty());
}

#[test]
fn item_runs_every_child() {
    let mut item: Item<Stamp> = Item { id: 1, map_child: HashMap::new() };
    let a = item.add_child(ItemChild::FI(stamp(10))).unwrap();
    let b = item.add_child(ItemChild::FI(stamp(20))).unwrap();
    assert_eq!((a, b), (10, 20));
    let mut f = Frame::init(2, 2);
    let r = item.process(&mut f, &FrameSettings::default(), serde_json::Value::Null);
    assert_eq!(r.unwrap(), true);
    let mut got = f.vec_rgba.clone();
    got.sort();
    assert_eq!(got, vec![10, 20]);
    for child in item.map_child.values() {
        match child {
            ItemChild::FI(s) => assert_eq!(s.calls.get(), 1),
            ItemChild::Item(_) => panic!("no nested item was added"),
        }
    }
}

#[test]
fn nested_item_is_keyed_by_its_id_and_runs() {
    let mut inner: Item<Stamp> = Item { id: 77, map_child: HashMap::new() };
    inner.add_child(ItemChild::FI(stamp(5))).unwrap();
    let mut outer: Item<Stamp> = Item { id: 1, map_child: HashMap::new() };
    let id = outer.add_child(ItemChild::Item(Box::new(inner))).unwrap();
    assert_eq!(id, 77);
    assert!(outer.map_child.contains_key(&77));
    let mut f = Frame::init(1, 1);
    assert_eq!(outer.process(&mut f, &FrameSettings::default(), serde_json::Value::Null).unwrap(), true);
    assert_eq!(f.vec_rgba, vec![5]);
}

#[test]
fn add_child_replaces_same_id_and_del_child_removes() {
    let mut item: Item<Stamp> = Item { id: 1, map_child: HashMap::new() };
    item.add_child(ItemChild::FI(stamp(3))).unwrap();
    item.add_child(ItemChild::FI(stamp(3))).unwrap();
    assert_eq!(item.map_child.len(), 1);
    item.del_child(&3).unwrap();
    assert!(item.map_child.is_empty());
    item.del_child(&3).unwrap();
    assert!(item.map_child.is_empty());
    assert_eq!(item.id, 1);
}

#[test]
fn del_child_undoes_add_child() {
    let mut item: Item<Stamp> = Item { id: 1, map_child: HashMap::new() };
    item.add_child(ItemChild::FI(stamp(4))).unwrap();
    let id = item.add_child(ItemChild::FI(stamp(9))).unwrap();
    item.del_child(&id).unwrap();
    let keys: Vec<u128> = item.map_child.keys().copied().collect();
    assert_eq!(keys, vec![4]);
}

#[test]
fn childless_item_template_is_the_empty_array() {
    let item: Item<Stamp> = Item { id: 1, map_child: HashMap::new() };
    let t = item.get_json_template().unwrap();
    assert!(t.is_array());
    assert_eq!(t, serde_json::Value::Array(Vec::new()));
    assert_eq!(item.get_ulid(), 1);
}

#[test]
fn default_items_are_empty_with_fresh_ids() {
    let a: Item<Stamp> = Item::default();
    let b: Item<Stamp> = Item::default();
    assert!(a.map_child.is_empty());
    assert_ne!(a.id, b.id);
}

#[test]
fn child_dispatch_reports_through_the_enum() {
    let child: ItemChild<Stamp> = ItemChild::Item(Box::new(Item { id: 8, map_child: HashMap::new() }));
    assert_eq!(child.get_ulid(), 8);
    let mut f = Frame::init(1, 1);
    assert_eq!(child.process(&mut f, &FrameSettings::default(), serde_json::Value::Null).unwrap(), false);
    let fi: ItemChild<Stamp> = ItemChild::FI(stamp(12));
    assert_eq!(fi.get_ulid(), 12);
    assert_eq!(fi.process(&mut f, &FrameSettings::default(), serde_json::Value::Null).unwrap(), true);
    assert_eq!(f.vec_rgba, vec![12]);
}

/// A processor whose template is the number it holds, or an error.
struct Tmpl {
    id: u128,
    fails: bool,
}

impl ProcessInterface<Frame, FrameSettings> for Tmpl {
    fn get_json_template(&self) -> Result<serde_json::Value, anyhow::Error> {
        if self.fails {
            Err(anyhow::Error::msg("no template"))
        } else {
            Ok(serde_json::Value::from(self.id as u64))
        }
    }

    fn get_ulid(&self) -> u128 {
        self.id
    }

    fn process(
        &self,
        _f: &mut Frame,
        _settings: &FrameSettings,
        _json: serde_json::Value,
    ) -> Result<bool, anyhow::Error> {
        Ok(false)
    }
}

fn entry(kind: &str, id: u128, settings: serde_json::Value, child: serde_json::Value) -> serde_json::Value {
    let mut inner = serde_json::Map::new();
    inner.insert("ulid".to_string(), serde_json::Value::String(ulid::Ulid(id).to_string()));
    inner.insert("settings".to_string(), settings);
    inner.insert("child".to_string(), child);
    let mut outer = serde_json::Map::new();
    outer.insert(kind.to_string(), serde_json::Value::Object(inner));
    serde_json::Value::Object(outer)
}

#[test]
fn item_template_has_one_entry_per_child() {
    let mut inner: Item<Tmpl> = Item { id: 8, map_child: HashMap::new() };
    inner.add_child(ItemChild::FI(Tmpl { id: 9, fails: false })).unwrap();
    let mut item: Item<Tmpl> = Item { id: 1, map_child: HashMap::new() };
    item.add_child(ItemChild::FI(Tmpl { id: 4, fails: false })).unwrap();
    item.add_child(ItemChild::Item(Box::new(inner))).unwrap();
    let t = item.get_json_template().unwrap();
    let arr = t.as_array().unwrap();
    assert_eq!(arr.len(), 2);
    let processor = entry("f", 4, serde_json::Value::from(4u64), serde_json::Value::Array(Vec::new()));
    let nested = entry(
        "i",
        8,
        serde_json::Value::Array(Vec::new()),
        serde_json::Value::Array(vec![entry(
            "f",
            9,
            serde_json::Value::from(9u64),
            serde_json::Value::Array(Vec::new()),
        )]),
    );
    assert!(arr.contains(&processor));
    assert!(arr.contains(&nested));
}

#[test]
fn item_template_fails_when_a_child_template_fails() {
    let mut item: Item<Tmpl> = Item { id: 1, map_child: HashMap::new() };
    item.add_child(ItemChild::FI(Tmpl { id: 4, fails: true })).unwrap();
    assert!(item.get_json_template().is_err());
    let child = ItemChild::Item(Box::new(item));
    assert!(child.get_json_template().is_err());
}
