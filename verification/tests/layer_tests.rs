use std::cell::Cell;
use std::collections::HashMap;

use core_video_editor::frame::{Frame, FrameSettings};
use core_video_editor::interface::ProcessInterface;
use core_video_editor::item::{Item, ItemChild};
use core_video_editor::layer::{Layer, LayerItem};

struct Mark {
    id: u128,
    calls: Cell<u32>,
}

impl ProcessInterface<Frame, FrameSettings> for Mark {
    fn get_json_template(&self) -> Result<serde_json::Value, anyhow::Error> {
        Ok(serde_json::Value::Null)
    }

    fn get_ulid(&self) -> u128 {
        self.id
    }

    fn process(
        &self,
        f: &mut Frame,
        _settings: &FrameSettings,
        _json: serde_json::Value,
    ) -> Result<bool, anyhow::Error> {
        self.calls.set(self.calls.get() + 1);
        f.vec_rgba.push(self.id as u8);
        Ok(true)
    }
}

fn item(id: u128, with_child: bool) -> Item<Mark> {
    let mut it = Item { id, map_child: HashMap::new() };
    if with_child {
        it.add_child(ItemChild::FI(Mark { id: id + 100, calls: Cell::new(0) })).unwrap();
    }
    it
}

fn layer() -> Layer<Mark> {
    Layer { id: 9, name: "video 1".to_string(), map_item: HashMap::new() }
}

fn settings(frame_num: usize) -> FrameSettings {
    let mut s = FrameSettings::default();
    s.frame_num = frame_num;
    s
}

#[test]
fn frame_init_is_empty() {
    let f = Frame::init(1920, 1080);
    assert_eq!(f.w, 1920);
    assert_eq!(f.h, 1080);
    assert!(f.vec_rgba.is_empty());
    assert!(f.vec_rgba.capacity() >= 1920 * 1080 * 4);
}

#[test]
fn ranges_touching_at_an_end_collide() {
    assert!(Layer::<Mark>::is_collid((0, 5), (5, 9)));
    assert!(Layer::<Mark>::is_collid((5, 9), (0, 5)));
    assert!(!Layer::<Mark>::is_collid((0, 4), (5, 9)));
    assert!(!Layer::<Mark>::is_collid((5, 9), (0, 4)));
    assert!(Layer::<Mark>::is_collid((2, 3), (0, 10)));
}

#[test]
fn collision_is_symmetric() {
    let ranges = [(0usize, 0usize), (0, 3), (2, 5), (4, 4), (6, 9), (9, 12)];
    for a in ranges {
        for b in ranges {
            assert_eq!(Layer::<Mark>::is_collid(a, b), Layer::<Mark>::is_collid(b, a));
        }
    }
}

#[test]
fn add_then_get_gives_the_item_and_del_removes_it() {
    let mut l = layer();
    let id = l.add(LayerItem { item: item(1, false), lr: (0, 10) });
    assert_eq!(id, 1);
    assert_eq!(l.get(&1).unwrap().lr, (0, 10));
    l.add(LayerItem { item: item(2, false), lr: (20, 30) });
    l.del(&1);
    assert!(l.get(&1).is_none());
    assert_eq!(l.get(&2).unwrap().lr, (20, 30));
    assert_eq!(l.get_ulid(), 9);
    assert_eq!(l.name, "video 1");
}

#[test]
fn item_shown_at_a_frame_is_found_over_a_half_open_range() {
    let mut l = layer();
    l.add(LayerItem { item: item(1, false), lr: (0, 10) });
    l.add(LayerItem { item: item(2, false), lr: (12, 20) });
    assert_eq!(l.get_item_by_num(0), Some(1));
    assert_eq!(l.get_item_by_num(9), Some(1));
    assert_eq!(l.get_item_by_num(10), None);
    assert_eq!(l.get_item_by_num(12), Some(2));
    assert_eq!(l.get_item_by_num(19), Some(2));
    assert_eq!(l.get_item_by_num(20), None);
    assert_eq!(layer().get_item_by_num(0), None);
}

#[test]
fn move_to_a_free_range_succeeds() {
    let mut l = layer();
    l.add(LayerItem { item: item(1, false), lr: (0, 10) });
    l.add(LayerItem { item: item(2, false), lr: (20, 30) });
    assert!(l.mov(&1, (40, 50)));
    assert_eq!(l.get(&1).unwrap().lr, (40, 50));
    assert_eq!(l.get(&1).unwrap().item.id, 1);
    assert_eq!(l.get(&2).unwrap().lr, (20, 30));
}

#[test]
fn move_onto_another_item_or_itself_is_refused() {
    let mut l = layer();
    l.add(LayerItem { item: item(1, false), lr: (0, 10) });
    l.add(LayerItem { item: item(2, false), lr: (20, 30) });
    assert!(!l.mov(&1, (25, 35)));
    assert_eq!(l.get(&1).unwrap().lr, (0, 10));
    // The moved item's own range counts too.
    assert!(!l.mov(&1, (5, 15)));
    assert_eq!(l.get(&1).unwrap().lr, (0, 10));
    // A refused move of an absent item does not panic.
    assert!(!l.mov(&7, (0, 1)));
}

#[test]
fn moves_keep_a_layer_free_of_overlaps() {
    let mut l = layer();
    l.add(LayerItem { item: item(1, false), lr: (0, 10) });
    l.add(LayerItem { item: item(2, false), lr: (20, 30) });
    l.add(LayerItem { item: item(3, false), lr: (40, 50) });
    let moves = [(1u128, (11usize, 19usize)), (2, (60, 70)), (3, (15, 25)), (3, (31, 39)), (1, (51, 59))];
    for (id, lr) in moves {
        l.mov(&id, lr);
        let all: Vec<(usize, usize)> = l.map_item.values().map(|li| li.lr).collect();
        for (i, a) in all.iter().enumerate() {
            for (j, b) in all.iter().enumerate() {
                if i != j {
                    assert!(!Layer::<Mark>::is_collid(*a, *b));
                }
            }
        }
    }
    // With no overlaps, the item found for a frame is the only one there.
    for n in 0..80 {
        let shown: Vec<u128> = l
            .map_item
            .iter()
            .filter(|(_, li)| li.lr.0 <= n && n < li.lr.1)
            .map(|(k, _)| *k)
            .collect();
        assert!(shown.len() <= 1);
        assert_eq!(l.get_item_by_num(n), shown.first().copied());
    }
}

#[test]
fn process_runs_the_item_shown_at_the_frame() {
    let mut l = layer();
    l.add(LayerItem { item: item(1, true), lr: (0, 10) });
    l.add(LayerItem { item: item(2, false), lr: (10, 20) });
    let mut f = Frame::init(1, 1);
    assert_eq!(l.process(&mut f, &settings(3), serde_json::Value::Null).unwrap(), true);
    assert_eq!(f.vec_rgba, vec![101]);
    // An item without children reports false.
    assert_eq!(l.process(&mut f, &settings(15), serde_json::Value::Null).unwrap(), false);
    // No item at the frame: false and the frame is left alone.
    assert_eq!(l.process(&mut f, &settings(25), serde_json::Value::Null).unwrap(), false);
    assert_eq!(f.vec_rgba, vec![101]);
}

#[test]
fn get_mut_changes_the_item_in_place() {
    let mut l = layer();
    l.add(LayerItem { item: item(1, false), lr: (0, 10) });
    l.get_mut(&1).unwrap().lr = (3, 4);
    assert_eq!(l.get(&1).unwrap().lr, (3, 4));
    assert!(l.get_mut(&2).is_none());
}

#[test]
fn del_undoes_add_on_a_free_id() {
    let mut l = layer();
    l.add(LayerItem { item: item(1, false), lr: (0, 10) });
    l.add(LayerItem { item: item(2, false), lr: (11, 12) });
    l.del(&2);
    let keys: Vec<u128> = l.map_item.keys().copied().collect();
    assert_eq!(keys, vec![1]);
    assert_eq!(l.get(&1).unwrap().lr, (0, 10));
}
