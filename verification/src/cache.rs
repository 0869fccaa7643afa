use vstd::prelude::*;

use crate::frame::{Frame, FrameSettings};
use crate::interface::ProcessInterface;

verus! {

/// A frame as the cache model sees it: width, height and bytes.
pub type FrameModel = (usize, usize, Seq<u8>);

/// The LRU cache of the `lru` crate.
#[verifier::external_type_specification]
#[verifier::external_body]
#[verifier::reject_recursive_types(K)]
#[verifier::reject_recursive_types(V)]
#[verifier::reject_recursive_types(S)]
pub struct ExLruCache<K, V, S>(lru::LruCache<K, V, S>);

/// The hasher the `lru` crate builds by default.
#[verifier::external_type_specification]
#[verifier::external_body]
pub struct ExLruDefaultHasher(lru::DefaultHasher);

/// The entries of an LRU cache of frames, most recently used first, each
/// frame taken by its view.
pub uninterp spec fn lru_entries(c: lru::LruCache<usize, Frame>) -> Seq<(usize, FrameModel)>;

/// The capacity an LRU cache of frames was made with.
pub uninterp spec fn lru_capacity(c: lru::LruCache<usize, Frame>) -> nat;

/// Whether some entry has key `k`.
pub open spec fn has_key(s: Seq<(usize, FrameModel)>, k: usize) -> bool {
    exists|i: int| 0 <= i < s.len() && #[trigger] s[i].0 == k
}

/// The position of the entry with key `k`.
pub open spec fn key_index(s: Seq<(usize, FrameModel)>, k: usize) -> int {
    choose|i: int| 0 <= i < s.len() && #[trigger] s[i].0 == k
}

/// The frame stored under key `k`.
pub open spec fn lru_value(s: Seq<(usize, FrameModel)>, k: usize) -> FrameModel {
    s[key_index(s, k)].1
}

/// What every LRU cache keeps: a positive capacity, no more entries than
/// that, and no key twice.
pub open spec fn lru_ok(s: Seq<(usize, FrameModel)>, cap: nat) -> bool {
    &&& 0 < cap
    &&& s.len() <= cap
    &&& forall|i: int, j: int|
        0 <= i < s.len() && 0 <= j < s.len() && i != j ==> #[trigger] s[i].0 != #[trigger] s[j].0
}

/// The entries after the entry with key `k` is taken out.
pub open spec fn lru_without(s: Seq<(usize, FrameModel)>, k: usize) -> Seq<(usize, FrameModel)> {
    if has_key(s, k) {
        s.remove(key_index(s, k))
    } else {
        s
    }
}

/// The entries after `(k, v)` is pushed: it goes first, replacing an entry
/// with the same key, or else pushing out the least recently used entry when
/// the cache is full.
pub open spec fn lru_pushed(s: Seq<(usize, FrameModel)>, cap: nat, k: usize, v: FrameModel) -> Seq<
    (usize, FrameModel),
> {
    if has_key(s, k) {
        seq![(k, v)] + s.remove(key_index(s, k))
    } else if s.len() >= cap {
        seq![(k, v)] + s.drop_last()
    } else {
        seq![(k, v)] + s
    }
}

/// What a push hands back: the entry it replaced or pushed out, if any.
pub open spec fn lru_push_result(s: Seq<(usize, FrameModel)>, cap: nat, k: usize) -> Option<
    (usize, FrameModel),
> {
    if has_key(s, k) {
        Some((k, lru_value(s, k)))
    } else if s.len() >= cap && s.len() > 0 {
        Some(s.last())
    } else {
        None
    }
}

/// Makes an empty LRU cache that holds at most `cap` frames
/// (`lru::LruCache::new`).
#[verifier::external_body]
fn lru_new(cap: usize) -> (c: lru::LruCache<usize, Frame>)
    requires
        cap > 0,
    ensures
        lru_entries(c) == Seq::<(usize, FrameModel)>::empty(),
        lru_capacity(c) == cap,
{
    lru::LruCache::new(std::num::NonZeroUsize::new(cap).unwrap())
}

/// Whether the cache holds key `k` (`lru::LruCache::contains`); the order of
/// the entries is left as it is.
#[verifier::external_body]
fn lru_contains(c: &lru::LruCache<usize, Frame>, k: usize) -> (r: bool)
    ensures
        r == has_key(lru_entries(*c), k),
{
    c.contains(&k)
}

/// Pushes `(k, v)` (`lru::LruCache::push`): the entry goes first; an entry
/// with the same key is replaced and handed back; otherwise, when the cache
/// is full, the least recently used entry is pushed out and handed back.
#[verifier::external_body]
fn lru_push(c: &mut lru::LruCache<usize, Frame>, k: usize, v: Frame) -> (r: Option<(usize, Frame)>)
    ensures
        lru_entries(*final(c)) == lru_pushed(lru_entries(*old(c)), lru_capacity(*old(c)), k, v@),
        lru_capacity(*final(c)) == lru_capacity(*old(c)),
        lru_ok(lru_entries(*final(c)), lru_capacity(*final(c))),
        match r {
            Some(e) => lru_push_result(lru_entries(*old(c)), lru_capacity(*old(c)), k) == Some(
                (e.0, e.1@),
            ),
            None => lru_push_result(lru_entries(*old(c)), lru_capacity(*old(c)), k) is None,
        },
{
    c.push(k, v)
}

/// Takes the entry with key `k` out of the cache (`lru::LruCache::pop`) and
/// hands back its frame; the other entries keep their order.
#[verifier::external_body]
fn lru_pop(c: &mut lru::LruCache<usize, Frame>, k: usize) -> (r: Option<Frame>)
    ensures
        lru_entries(*final(c)) == lru_without(lru_entries(*old(c)), k),
        lru_capacity(*final(c)) == lru_capacity(*old(c)),
        lru_ok(lru_entries(*final(c)), lru_capacity(*final(c))),
        match r {
            Some(fr) => has_key(lru_entries(*old(c)), k) && fr@ == lru_value(
                lru_entries(*old(c)),
                k,
            ),
            None => !has_key(lru_entries(*old(c)), k),
        },
{
    c.pop(&k)
}

/// The frame stored under key `k`, to write in place
/// (`lru::LruCache::peek_mut`); the order of the entries is left as it is.
#[verifier::external_body]
fn lru_peek_mut(c: &mut lru::LruCache<usize, Frame>, k: usize) -> (r: Option<&mut Frame>)
    ensures
        lru_capacity(*final(c)) == lru_capacity(*old(c)),
        lru_ok(lru_entries(*final(c)), lru_capacity(*final(c))),
        match r {
            Some(slot) => has_key(lru_entries(*old(c)), k) && (*slot)@ == lru_value(
                lru_entries(*old(c)),
                k,
            ) && lru_entries(*final(c)) == lru_entries(*old(c)).update(
                key_index(lru_entries(*old(c)), k),
                (k, (*final(slot))@),
            ),
            None => !has_key(lru_entries(*old(c)), k) && lru_entries(*final(c)) == lru_entries(
                *old(c),
            ),
        },
{
    c.peek_mut(&k)
}

/// The view of a frame of the given size that holds no bytes yet.
pub open spec fn blank_model(w: usize, h: usize) -> FrameModel {
    (w, h, Seq::<u8>::empty())
}

/// A frame of the given size that holds no bytes yet.
fn blank(w: usize, h: usize) -> (r: Frame)
    ensures
        r@ == blank_model(w, h),
{
    Frame { w, h, vec_rgba: Vec::new() }
}

/// Entries and list of frame numbers after the look-ahead steps `i` up to
/// `end` past frame `base`: each frame number not yet cached gets a blank
/// frame of size `w` by `h` pushed for it and is listed for computing.
pub open spec fn prefetch_steps(
    s: Seq<(usize, FrameModel)>,
    cap: nat,
    base: nat,
    i: nat,
    end: nat,
    w: usize,
    h: usize,
) -> (Seq<(usize, FrameModel)>, Seq<usize>)
    decreases end - i,
{
    if i >= end {
        (s, Seq::<usize>::empty())
    } else {
        let k = (base + i) as usize;
        if has_key(s, k) {
            prefetch_steps(s, cap, base, i + 1, end, w, h)
        } else {
            let r = prefetch_steps(lru_pushed(s, cap, k, blank_model(w, h)), cap, base, i + 1, end, w, h);
            (r.0, seq![k] + r.1)
        }
    }
}

/// The entries left after a frame that was not cached has been computed,
/// pushed and taken out again: a full cache has lost its least recently
/// used entry, any other keeps all of them.
pub open spec fn after_miss(s: Seq<(usize, FrameModel)>, cap: nat) -> Seq<(usize, FrameModel)> {
    if s.len() >= cap {
        s.drop_last()
    } else {
        s
    }
}

/// The entries left once the frame `n` has been handed out.
pub open spec fn after_take(s: Seq<(usize, FrameModel)>, cap: nat, n: usize) -> Seq<(usize, FrameModel)> {
    if has_key(s, n) {
        lru_without(s, n)
    } else {
        after_miss(s, cap)
    }
}

/// Pushing then taking out a key the cache did not hold leaves what
/// `after_miss` says.
proof fn lemma_push_then_pop_new(s: Seq<(usize, FrameModel)>, cap: nat, k: usize, v: FrameModel)
    requires
        lru_ok(s, cap),
        !has_key(s, k),
        lru_ok(lru_pushed(s, cap, k, v), cap),
    ensures
        has_key(lru_pushed(s, cap, k, v), k),
        lru_without(lru_pushed(s, cap, k, v), k) == after_miss(s, cap),
{
    let p = lru_pushed(s, cap, k, v);
    assert(p[0].0 == k);
    let i = key_index(p, k);
    if i != 0 {
        assert(p[i].0 == p[0].0);
    }
    assert(p.remove(0) =~= after_miss(s, cap));
}

/// A key found after a push is the pushed key or was there before.
proof fn lemma_pushed_keys(s: Seq<(usize, FrameModel)>, cap: nat, k: usize, v: FrameModel, x: usize)
    requires
        0 < cap,
        has_key(lru_pushed(s, cap, k, v), x),
    ensures
        x == k || has_key(s, x),
{
    let p = lru_pushed(s, cap, k, v);
    let j = choose|j: int| 0 <= j < p.len() && #[trigger] p[j].0 == x;
    if j > 0 && x != k {
        let rest = if has_key(s, k) {
            s.remove(key_index(s, k))
        } else if s.len() >= cap {
            s.drop_last()
        } else {
            s
        };
        assert(p == seq![(k, v)] + rest);
        assert(p[j] == rest[j - 1]);
        if has_key(s, k) {
            let i = key_index(s, k);
            if j - 1 < i {
                assert(rest[j - 1] == s[j - 1]);
                assert(s[j - 1].0 == x);
            } else {
                assert(rest[j - 1] == s[j]);
                assert(s[j].0 == x);
            }
        } else {
            assert(rest[j - 1] == s[j - 1]);
            assert(s[j - 1].0 == x);
        }
    }
}

/// Pushing `(k, v)` stores `v` under `k`.
pub proof fn law_push_then_value(s: Seq<(usize, FrameModel)>, cap: nat, k: usize, v: FrameModel)
    requires
        lru_ok(lru_pushed(s, cap, k, v), cap),
    ensures
        has_key(lru_pushed(s, cap, k, v), k),
        lru_value(lru_pushed(s, cap, k, v), k) == v,
{
    let p = lru_pushed(s, cap, k, v);
    assert(p[0].0 == k);
    let i = key_index(p, k);
    if i != 0 {
        assert(p[i].0 == p[0].0);
    }
}

/// Writing a frame into an entry (as `Cached::fill` does) and then reading
/// that entry gives back the frame written.
pub proof fn law_fill_then_value(s: Seq<(usize, FrameModel)>, cap: nat, k: usize, v: FrameModel)
    requires
        lru_ok(s, cap),
        has_key(s, k),
    ensures
        has_key(s.update(key_index(s, k), (k, v)), k),
        lru_value(s.update(key_index(s, k), (k, v)), k) == v,
        lru_ok(s.update(key_index(s, k), (k, v)), cap),
{
    let i = key_index(s, k);
    let u = s.update(i, (k, v));
    assert(u[i].0 == k);
    assert forall|a: int, b: int|
        0 <= a < u.len() && 0 <= b < u.len() && a != b implies #[trigger] u[a].0 != #[trigger] u[b].0 by {
        assert(u[a].0 == s[a].0 && u[b].0 == s[b].0);
    }
    let j = key_index(u, k);
    if j != i {
        assert(u[j].0 == u[i].0);
    }
}

/// Once handed out, a frame is no longer cached: the look-ahead only pushes
/// frame numbers after it.
pub proof fn law_handed_out_leaves_cache(
    s: Seq<(usize, FrameModel)>,
    cap: nat,
    n: usize,
    i: nat,
    end: nat,
    w: usize,
    h: usize,
)
    requires
        0 < cap,
        !has_key(s, n),
        1 <= i,
        n + end <= usize::MAX + 1,
    ensures
        !has_key(prefetch_steps(s, cap, n as nat, i, end, w, h).0, n),
    decreases end - i,
{
    if i < end {
        let k = (n + i) as usize;
        if has_key(s, k) {
            law_handed_out_leaves_cache(s, cap, n, i + 1, end, w, h);
        } else {
            let p = lru_pushed(s, cap, k, blank_model(w, h));
            if has_key(p, n) {
                lemma_pushed_keys(s, cap, k, blank_model(w, h), n);
            }
            law_handed_out_leaves_cache(p, cap, n, i + 1, end, w, h);
        }
    }
}

/// Under the cache's invariant, the value stored under the key at position
/// `i` is the one at that position.
proof fn lemma_value_at(s: Seq<(usize, FrameModel)>, cap: nat, i: int)
    requires
        lru_ok(s, cap),
        0 <= i < s.len(),
    ensures
        has_key(s, s[i].0),
        lru_value(s, s[i].0) == s[i].1,
{
    assert(s[i].0 == s[i].0);
    let j = key_index(s, s[i].0);
    if j != i {
        assert(s[j].0 == s[i].0);
    }
}

/// Handing out frame `n` leaves every other cached frame where it was,
/// when the cache had room for `n`.
proof fn lemma_take_keeps_others(s: Seq<(usize, FrameModel)>, cap: nat, n: usize, x: usize)
    requires
        lru_ok(s, cap),
        s.len() < cap,
        has_key(s, x),
        x != n,
    ensures
        has_key(after_take(s, cap, n), x),
        lru_value(after_take(s, cap, n), x) == lru_value(s, x),
        lru_ok(after_take(s, cap, n), cap),
        after_take(s, cap, n).len() <= s.len(),
{
    let j = key_index(s, x);
    assert(s[j].0 == x);
    lemma_value_at(s, cap, j);
    if has_key(s, n) {
        let m = key_index(s, n);
        assert(s[m].0 == n);
        let t = s.remove(m);
        assert(after_take(s, cap, n) == t);
        assert forall|a: int, b: int|
            0 <= a < t.len() && 0 <= b < t.len() && a != b implies #[trigger] t[a].0
            != #[trigger] t[b].0 by {
            let sa = if a < m { a } else { a + 1 };
            let sb = if b < m { b } else { b + 1 };
            assert(t[a] == s[sa] && t[b] == s[sb]);
        }
        assert(lru_ok(t, cap));
        let jt = if j < m { j } else { j - 1 };
        assert(j != m);
        assert(t[jt] == s[j]);
        lemma_value_at(t, cap, jt);
    } else {
        assert(after_take(s, cap, n) == s);
    }
}

/// The look-ahead leaves every frame already cached as it is: when the
/// cache has room for a blank frame for each frame number of the window,
/// every key it held before is still there afterwards with the same frame
/// (only frame numbers not yet cached get a blank frame).
pub proof fn law_prefetch_keeps_cached_frames(
    s: Seq<(usize, FrameModel)>,
    cap: nat,
    n: usize,
    i: nat,
    end: nat,
    w: usize,
    h: usize,
    x: usize,
)
    requires
        lru_ok(s, cap),
        s.len() + end - i <= cap,
        has_key(s, x),
    ensures
        has_key(prefetch_steps(s, cap, n as nat, i, end, w, h).0, x),
        lru_value(prefetch_steps(s, cap, n as nat, i, end, w, h).0, x) == lru_value(s, x),
        lru_ok(prefetch_steps(s, cap, n as nat, i, end, w, h).0, cap),
    decreases end - i,
{
    if i < end {
        let k = (n + i) as usize;
        if has_key(s, k) {
            law_prefetch_keeps_cached_frames(s, cap, n, i + 1, end, w, h, x);
        } else {
            let v = blank_model(w, h);
            let p = lru_pushed(s, cap, k, v);
            assert(p == seq![(k, v)] + s);
            let j = key_index(s, x);
            assert(s[j].0 == x);
            lemma_value_at(s, cap, j);
            assert forall|a: int, b: int|
                0 <= a < p.len() && 0 <= b < p.len() && a != b implies #[trigger] p[a].0
                != #[trigger] p[b].0 by {
                if a == 0 && b > 0 {
                    assert(p[b] == s[b - 1]);
                } else if b == 0 && a > 0 {
                    assert(p[a] == s[a - 1]);
                } else if a > 0 && b > 0 {
                    assert(p[a] == s[a - 1] && p[b] == s[b - 1]);
                }
            }
            assert(lru_ok(p, cap));
            assert(p[j + 1] == s[j]);
            lemma_value_at(p, cap, j + 1);
            assert(has_key(p, x) && lru_value(p, x) == lru_value(s, x));
            law_prefetch_keeps_cached_frames(p, cap, n, i + 1, end, w, h, x);
        }
    }
}

/// Whether `l` is increasing and lies in `lo..hi`.
pub open spec fn increasing_within(l: Seq<usize>, lo: int, hi: int) -> bool {
    &&& forall|a: int, b: int| 0 <= a < b < l.len() ==> #[trigger] l[a] < #[trigger] l[b]
    &&& forall|a: int| 0 <= a < l.len() ==> lo <= #[trigger] l[a] < hi
}

/// The frame numbers set up for computing ahead come in increasing order
/// (so none twice) and lie in the look-ahead window after the requested
/// frame.
pub proof fn law_prefetch_list_ordered(
    s: Seq<(usize, FrameModel)>,
    cap: nat,
    n: usize,
    i: nat,
    end: nat,
    w: usize,
    h: usize,
)
    requires
        n + end <= usize::MAX + 1,
    ensures
        increasing_within(prefetch_steps(s, cap, n as nat, i, end, w, h).1, n + i, n + end),
    decreases end - i,
{
    if i < end {
        let k = (n + i) as usize;
        if has_key(s, k) {
            law_prefetch_list_ordered(s, cap, n, i + 1, end, w, h);
        } else {
            let p = lru_pushed(s, cap, k, blank_model(w, h));
            law_prefetch_list_ordered(p, cap, n, i + 1, end, w, h);
            let rest = prefetch_steps(p, cap, n as nat, i + 1, end, w, h).1;
            let l = seq![k] + rest;
            assert(prefetch_steps(s, cap, n as nat, i, end, w, h).1 == l);
            assert forall|a: int, b: int| 0 <= a < b < l.len() implies #[trigger] l[a] < #[trigger] l[b] by {
                assert(l[b] == rest[b - 1]);
                if a > 0 {
                    assert(l[a] == rest[a - 1]);
                }
            }
            assert forall|a: int| 0 <= a < l.len() implies n + i <= #[trigger] l[a] < n + end by {
                if a > 0 {
                    assert(l[a] == rest[a - 1]);
                }
            }
        }
    }
}

/// A processor whose frames are kept in an LRU cache: frames already cached
/// are handed out at once, and the frames just after the requested one are
/// set up to be computed ahead.
pub struct Cached<P> {
    pub cache_size: usize,
    pub interface: P,
    pub cache_data: lru::LruCache<usize, Frame>,
    pub ulid: u128,
}

impl<P: ProcessInterface<Frame, FrameSettings>> Cached<P> {
    /// The cache's entries, most recently used first.
    pub open spec fn entries(&self) -> Seq<(usize, FrameModel)> {
        lru_entries(self.cache_data)
    }

    /// The most frames the cache holds.
    pub open spec fn capacity(&self) -> nat {
        lru_capacity(self.cache_data)
    }

    /// Whether the cache is in the state every LRU cache keeps.
    pub open spec fn wf(&self) -> bool {
        lru_ok(self.entries(), self.capacity())
    }

    /// A cache of at most `cap` frames in front of `interface`, looking
    /// `cache_size - 1` frames ahead.
    pub fn new(cache_size: usize, cap: usize, interface: P, ulid: u128) -> (r: Self)
        requires
            cap > 0,
        ensures
            r.wf(),
            r.entries() == Seq::<(usize, FrameModel)>::empty(),
            r.capacity() == cap,
            r.cache_size == cache_size,
            r.interface == interface,
            r.ulid == ulid,
    {
        Cached { cache_size, interface, cache_data: lru_new(cap), ulid }
    }

    /// The identifier of the cache.
    pub fn get_ulid(&self) -> (r: u128)
        ensures
            r == self.ulid,
    {
        self.ulid
    }

    /// The JSON template of the processor behind the cache, as the
    /// processor hands it out.
    pub fn get_json_template(&self) -> (r: Result<serde_json::Value, anyhow::Error>)
        ensures
            self.interface.json_template_result(r),
    {
        self.interface.get_json_template()
    }

    /// Hands the frame `settings.frame_num` out into `f`: taken out of the
    /// cache when it is there, computed by the processor into a blank frame
    /// of `f`'s size otherwise. Then each of the next `cache_size - 1` frame
    /// numbers that is not cached gets a blank frame of the handed-out
    /// frame's size pushed for it; those frame numbers come back, in order,
    /// for the frames to be computed and filled in.
    pub fn process(&mut self, f: &mut Frame, settings: &FrameSettings, json: serde_json::Value) -> (r:
        Vec<usize>)
        requires
            old(self).wf(),
            old(self).cache_size <= 1 || settings.frame_num + old(self).cache_size - 1 <= usize::MAX,
        ensures
            final(self).wf(),
            final(self).capacity() == old(self).capacity(),
            final(self).cache_size == old(self).cache_size,
            final(self).interface == old(self).interface,
            final(self).ulid == old(self).ulid,
            has_key(old(self).entries(), settings.frame_num) ==> (*final(f))@ == lru_value(
                old(self).entries(),
                settings.frame_num,
            ),
            !has_key(old(self).entries(), settings.frame_num) ==> exists|
                b: Frame,
                a: Frame,
                res: Result<bool, anyhow::Error>,
            |
                #[trigger] old(self).interface.process_result(b, *settings, json, a, res) && b@
                    == blank_model(old(f).w, old(f).h) && a@ == (*final(f))@,
            ({
                let steps = prefetch_steps(
                    after_take(old(self).entries(), old(self).capacity(), settings.frame_num),
                    old(self).capacity(),
                    settings.frame_num as nat,
                    1,
                    old(self).cache_size as nat,
                    final(f).w,
                    final(f).h,
                );
                final(self).entries() == steps.0 && r@ == steps.1
            }),
            old(self).entries().len() + old(self).cache_size < old(self).capacity() ==> forall|
                x: usize,
            | #[trigger]
                has_key(old(self).entries(), x) && x != settings.frame_num ==> has_key(
                    final(self).entries(),
                    x,
                ) && lru_value(final(self).entries(), x) == lru_value(old(self).entries(), x),
    {
        let n = settings.frame_num;
        let ghost s0 = self.entries();
        let ghost cap = self.capacity();
        let ghost mut computed: Frame = *f;
        if !lru_contains(&self.cache_data, n) {
            let mut frame = blank(f.w, f.h);
            let ghost fb = frame;
            let res = self.interface.process(&mut frame, settings, json.clone());
            proof {
                computed = frame;
                assert(self.interface.process_result(fb, *settings, json, computed, res));
            }
            lru_push(&mut self.cache_data, n, frame);
            proof {
                lemma_push_then_pop_new(s0, cap, n, computed@);
                law_push_then_value(s0, cap, n, computed@);
            }
        }
        match lru_pop(&mut self.cache_data, n) {
            Some(fr) => {
                *f = fr;
            },
            None => {},
        }
        assert(!has_key(s0, n) ==> (*f)@ == computed@);
        assert(self.entries() == after_take(s0, cap, n));
        let w = f.w;
        let h = f.h;
        let ghost target = prefetch_steps(self.entries(), cap, n as nat, 1, self.cache_size as nat, w, h);
        let mut pending: Vec<usize> = Vec::new();
        let mut i: usize = 1;
        while i < self.cache_size
            invariant
                1 <= i,
                i <= self.cache_size || self.cache_size <= 1,
                self.cache_size <= 1 || n + self.cache_size - 1 <= usize::MAX,
                self.capacity() == cap,
                self.cache_size == old(self).cache_size,
                self.interface == old(self).interface,
                self.ulid == old(self).ulid,
                self.wf(),
                ({
                    let rest = prefetch_steps(self.entries(), cap, n as nat, i as nat, self.cache_size as nat, w, h);
                    rest.0 == target.0 && pending@ + rest.1 == target.1
                }),
            decreases self.cache_size - i,
        {
            let k = n + i;
            let ghost before = self.entries();
            let ghost pend = pending@;
            if !lru_contains(&self.cache_data, k) {
                lru_push(&mut self.cache_data, k, blank(w, h));
                pending.push(k);
                proof {
                    let rest = prefetch_steps(self.entries(), cap, n as nat, (i + 1) as nat, self.cache_size as nat, w, h);
                    assert(pend + (seq![k] + rest.1) =~= pending@ + rest.1);
                }
            }
            i = i + 1;
        }
        proof {
            let rest = prefetch_steps(self.entries(), cap, n as nat, i as nat, self.cache_size as nat, w, h);
            assert(pending@ + rest.1 =~= pending@);
            if s0.len() + self.cache_size < cap {
                let t = after_take(s0, cap, n);
                assert forall|x: usize| #[trigger]
                    has_key(s0, x) && x != n implies has_key(self.entries(), x) && lru_value(
                        self.entries(),
                        x,
                    ) == lru_value(s0, x) by {
                    lemma_take_keeps_others(s0, cap, n, x);
                    law_prefetch_keeps_cached_frames(t, cap, n, 1, self.cache_size as nat, w, h, x);
                }
            }
        }
        pending
    }

    /// Writes a computed frame into the cache entry of frame `frame_num`
    /// when the cache still holds it, without making it more recently used;
    /// reports whether it was written.
    pub fn fill(&mut self, frame_num: usize, frame: Frame) -> (r: bool)
        requires
            old(self).wf(),
        ensures
            final(self).wf(),
            final(self).capacity() == old(self).capacity(),
            final(self).cache_size == old(self).cache_size,
            final(self).interface == old(self).interface,
            final(self).ulid == old(self).ulid,
            r == has_key(old(self).entries(), frame_num),
            r ==> final(self).entries() == old(self).entries().update(
                key_index(old(self).entries(), frame_num),
                (frame_num, frame@),
            ),
            !r ==> final(self).entries() == old(self).entries(),
    {
        match lru_peek_mut(&mut self.cache_data, frame_num) {
            Some(slot) => {
                *slot = frame;
                true
            },
            None => false,
        }
    }
}

} // verus!
