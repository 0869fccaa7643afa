use std::cell::Cell;

use core_video_editor::cache::Cached;
use core_video_editor::frame::{Frame, FrameSettings};
use core_video_editor::interface::ProcessInterface;
use core_video_editor::item::Item;

/// A processor that paints the frame with the frame number it was asked for.
struct Painter {
    calls: Cell<u32>,
}

impl ProcessInterface<Frame, FrameSettings> for Painter {
    fn get_json_template(&self) -> Result<serde_json::Value, anyhow::Error> {
        Ok(serde_json::Value::String("painter".to_string()))
    }

    fn get_ulid(&self) -> u128 {
        5
    }

    fn process(
        &self,
        f: &mut Frame,
        settings: &FrameSettings,
        _json: serde_json::Value,
    ) -> Result<bool, anyhow::Error> {
        self.calls.set(self.calls.get() + 1);
        f.vec_rgba = vec![settings.frame_num as u8; f.w * f.h * 4];
        Ok(true)
    }
}

fn cached(cache_size: usize, cap: usize) -> Cached<Painter> {
    Cached::new(cache_size, cap, Painter { calls: Cell::new(0) }, 42)
}

fn at(n: usize) -> FrameSettings {
    let mut s = FrameSettings::default();
    s.frame_num = n;
    s
}

fn painted(w: usize, h: usize, byte: u8) -> Frame {
    Frame { w, h, vec_rgba: vec![byte; w * h * 4] }
}

#[test]
fn a_miss_computes_the_frame_and_sets_up_the_next_ones() {
    let mut c = cached(4, 10);
    let mut f = Frame::init(2, 1);
    let pending = c.process(&mut f, &at(7), serde_json::Value::Null);
    assert_eq!(c.interface.calls.get(), 1);
    assert_eq!(f.w, 2);
    assert_eq!(f.vec_rgba, vec![7u8; 8]);
    assert_eq!(pending, vec![8, 9, 10]);
    // The frame handed out has left the cache; the look-ahead slots are blank.
    assert!(!c.cache_data.contains(&7));
    for n in [8usize, 9, 10] {
        let slot = c.cache_data.peek(&n).unwrap();
        assert_eq!((slot.w, slot.h), (2, 1));
        assert!(slot.vec_rgba.is_empty());
    }
    assert_eq!(c.cache_data.len(), 3);
}

#[test]
fn a_hit_hands_out_the_filled_frame_without_computing() {
    let mut c = cached(3, 10);
    let mut f = Frame::init(2, 1);
    let pending = c.process(&mut f, &at(0), serde_json::Value::Null);
    assert_eq!(pending, vec![1, 2]);
    assert!(c.fill(1, painted(2, 1, 99)));
    let mut g = Frame::init(2, 1);
    let pending = c.process(&mut g, &at(1), serde_json::Value::Null);
    assert_eq!(c.interface.calls.get(), 1);
    assert_eq!(g.vec_rgba, vec![99u8; 8]);
    // 2 is still cached, so only 3 is new.
    assert_eq!(pending, vec![3]);
    assert!(!c.cache_data.contains(&1));
}

#[test]
fn fill_of_a_frame_no_longer_cached_is_dropped() {
    let mut c = cached(1, 4);
    assert!(!c.fill(3, painted(1, 1, 3)));
    assert!(c.cache_data.is_empty());
}

#[test]
fn fill_does_not_make_an_entry_more_recent() {
    // Capacity 2: frames 1 and 2 are set up after handing out frame 0.
    let mut c = cached(3, 2);
    let mut f = Frame::init(1, 1);
    assert_eq!(c.process(&mut f, &at(0), serde_json::Value::Null), vec![1, 2]);
    assert!(c.fill(1, painted(1, 1, 11)));
    // 1 was pushed before 2, so it is the least recently used one.
    assert_eq!(*c.cache_data.peek_lru().unwrap().0, 1);
}

#[test]
fn a_miss_on_a_full_cache_drops_the_least_recent_entry() {
    let mut c = cached(2, 2);
    let mut f = Frame::init(1, 1);
    assert_eq!(c.process(&mut f, &at(10), serde_json::Value::Null), vec![11]);
    assert_eq!(c.process(&mut f, &at(20), serde_json::Value::Null), vec![21]);
    // Cache now holds 21 (most recent) and 11; asking for 30 pushes 30 out
    // 11, takes 30 out again, then sets up 31.
    assert_eq!(c.process(&mut f, &at(30), serde_json::Value::Null), vec![31]);
    assert!(!c.cache_data.contains(&11));
    assert!(c.cache_data.contains(&21));
    assert!(c.cache_data.contains(&31));
    assert_eq!(f.vec_rgba, vec![30u8; 4]);
}

#[test]
fn look_ahead_of_one_sets_up_nothing() {
    let mut c = cached(1, 3);
    let mut f = Frame::init(1, 1);
    assert!(c.process(&mut f, &at(5), serde_json::Value::Null).is_empty());
    assert!(c.cache_data.is_empty());
    assert_eq!(c.get_ulid(), 42);
    assert_eq!(
        c.get_json_template().unwrap(),
        serde_json::Value::String("painter".to_string())
    );
}

#[test]
fn look_ahead_frames_come_in_order_within_the_window() {
    let mut c = cached(6, 3);
    let mut f = Frame::init(1, 1);
    let pending = c.process(&mut f, &at(100), serde_json::Value::Null);
    // With room for three, later pushes push earlier blanks out, and each
    // frame number is listed once, in increasing order.
    assert_eq!(pending, vec![101, 102, 103, 104, 105]);
    assert!(!c.cache_data.contains(&100));
    assert_eq!(c.cache_data.len(), 3);
}

#[test]
fn a_miss_through_a_processor_that_does_nothing_hands_out_a_blank_frame() {
    let item: Item<Painter> = Item { id: 3, map_child: std::collections::HashMap::new() };
    let mut c = Cached::new(3, 8, item, 0);
    let mut f = Frame { w: 2, h: 1, vec_rgba: vec![7u8; 8] };
    let pending = c.process(&mut f, &at(0), serde_json::Value::Null);
    assert_eq!((f.w, f.h), (2, 1));
    assert!(f.vec_rgba.is_empty());
    assert_eq!(pending, vec![1, 2]);
    assert!(!c.cache_data.contains(&0));
    let mut keys: Vec<usize> = c.cache_data.iter().map(|(k, _)| *k).collect();
    keys.sort();
    assert_eq!(keys, vec![1, 2]);
    for n in [1usize, 2] {
        let slot = c.cache_data.peek(&n).unwrap();
        assert_eq!((slot.w, slot.h), (2, 1));
    }
}
