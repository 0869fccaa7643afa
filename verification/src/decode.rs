use std::collections::BTreeMap;
use vstd::prelude::*;
use vstd::std_specs::iter::IteratorSpec;

verus! {

broadcast use {vstd::std_specs::btree::group_btree_axioms, vstd::laws_cmp::group_laws_cmp};

/// How a decoded timestamp stands to the one asked for.
#[derive(Debug, Clone, Copy, PartialEq, Eq, Structural)]
pub enum PtsOrder {
    Less,
    Equal,
    Greater,
}

/// How `pts` stands to `target`.
pub open spec fn order_of(pts: i64, target: i64) -> PtsOrder {
    if pts < target {
        PtsOrder::Less
    } else if pts == target {
        PtsOrder::Equal
    } else {
        PtsOrder::Greater
    }
}

/// How the timestamp `pts` of a decoded frame stands to `target`.
pub fn compare_pts(pts: i64, target: i64) -> (r: PtsOrder)
    ensures
        r == order_of(pts, target),
{
    if pts < target {
        PtsOrder::Less
    } else if pts == target {
        PtsOrder::Equal
    } else {
        PtsOrder::Greater
    }
}

/// Whether the decoder has to be flushed and the input seeked back before
/// reading towards `target`: it has already read at or past it.
pub fn needs_seek(last_pts: i64, target: i64) -> (r: bool)
    ensures
        r == (last_pts >= target),
{
    last_pts >= target
}

/// Whether `s` lists the entries of `m` by increasing timestamp.
pub open spec fn lists_in_order(m: Map<i64, PtsOrder>, s: Seq<(i64, PtsOrder)>) -> bool {
    &&& forall|i: int, j: int| 0 <= i < j < s.len() ==> #[trigger] s[i].0 < #[trigger] s[j].0
    &&& forall|i: int| 0 <= i < s.len() ==> m.contains_key(#[trigger] s[i].0) && m[s[i].0] == s[i].1
    &&& forall|k: i64| #[trigger] m.contains_key(k) ==> exists|i: int| 0 <= i < s.len() && s[i].0 == k
}

/// The bookkeeping of one read towards the timestamp `target`: every frame
/// looked at, cached or decoded, is recorded with how its timestamp stands
/// to the target; `is_ge` tells whether the current packet gave a frame at
/// or past the target.
pub struct DecodeScan {
    pub target: i64,
    pub records: BTreeMap<i64, PtsOrder>,
    pub is_ge: bool,
}

impl DecodeScan {
    /// A read towards `target` with nothing recorded yet.
    pub fn new(target: i64) -> (r: Self)
        ensures
            r.target == target,
            r.records@ == Map::<i64, PtsOrder>::empty(),
            !r.is_ge,
    {
        DecodeScan { target, records: BTreeMap::new(), is_ge: false }
    }

    /// Looks at a cached frame kept under `key` whose timestamp is `pts`:
    /// records it, and tells whether the scan of the cache stops here (the
    /// frame is at or past the target).
    pub fn scan_cached(&mut self, key: i64, pts: i64) -> (stop: bool)
        ensures
            final(self).target == old(self).target,
            final(self).is_ge == old(self).is_ge,
            final(self).records@ == old(self).records@.insert(key, order_of(pts, old(self).target)),
            stop == (pts >= old(self).target),
    {
        let o = compare_pts(pts, self.target);
        self.records.insert(key, o);
        match o {
            PtsOrder::Less => false,
            _ => true,
        }
    }

    /// A new packet of the stream goes to the decoder.
    pub fn start_packet(&mut self)
        ensures
            final(self).target == old(self).target,
            final(self).records@ == old(self).records@,
            !final(self).is_ge,
    {
        self.is_ge = false;
    }

    /// The decoder gave a frame with timestamp `pts`: it is recorded, and the
    /// packet is marked as having reached the target when it has.
    pub fn on_frame(&mut self, pts: i64)
        ensures
            final(self).target == old(self).target,
            final(self).records@ == old(self).records@.insert(pts, order_of(pts, old(self).target)),
            final(self).is_ge == (old(self).is_ge || pts >= old(self).target),
    {
        let o = compare_pts(pts, self.target);
        self.records.insert(pts, o);
        match o {
            PtsOrder::Less => {},
            _ => {
                self.is_ge = true;
            },
        }
    }

    /// The records by increasing timestamp, as the map hands them out.
    pub fn in_order(&self) -> (r: Vec<(i64, PtsOrder)>)
        ensures
            lists_in_order(self.records@, r@),
    {
        let ghost m = self.records@;
        let ghost v = vstd::std_specs::btree::spec_btree_map_iter(&self.records).remaining();
        let mut r: Vec<(i64, PtsOrder)> = Vec::new();
        for (k, o) in it: self.records.iter()
            invariant
                m == self.records@,
                it.seq() == v,
                vstd::std_specs::btree::increasing_seq(v.map_values(|kv: (&i64, &PtsOrder)| *kv.0)),
                r@.len() == it.index(),
                forall|j: int| 0 <= j < it.index() ==> #[trigger] r@[j] == (*v[j].0, *v[j].1),
        {
            r.push((*k, *o));
        }
        proof {
            let keys = v.map_values(|kv: (&i64, &PtsOrder)| *kv.0);
            assert(vstd::laws_cmp::obeys_cmp::<i64>());
            assert(vstd::std_specs::btree::increasing_seq(keys));
            assert forall|i: int, j: int| 0 <= i < j < r@.len() implies #[trigger] r@[i].0 < #[trigger] r@[j].0 by {
                assert(keys[i] == r@[i].0 && keys[j] == r@[j].0);
                assert(vstd::std_specs::cmp::OrdSpec::cmp_spec(&keys[i], &keys[j]) is Less);
            }
            assert forall|i: int| 0 <= i < r@.len() implies m.contains_key(#[trigger] r@[i].0) && m[r@[i].0] == r@[i].1 by {
                assert(m.contains_key(*v[i].0));
            }
            assert forall|k: i64| #[trigger] m.contains_key(k) implies exists|i: int| 0 <= i < r@.len() && r@[i].0 == k by {
                assert(v.contains((&k, &m[k])));
                let i = choose|i: int| 0 <= i < v.len() && v[i] == (&k, &m[k]);
                assert(r@[i].0 == k);
            }
        }
        r
    }

    /// The decoder has no more frames for the current packet: the read is
    /// over when the packet reached the target, else the next packet follows.
    pub fn on_no_frame(&self) -> (done: bool)
        ensures
            done == self.is_ge,
    {
        self.is_ge
    }
}

/// Which cached video frame a read hands out.
#[derive(Debug, Clone, Copy, PartialEq, Eq, Structural)]
pub enum VideoPick {
    /// The frame cached under this key is the one asked for.
    Exact(i64),
    /// The last frame before the target, cached under this key if the cache
    /// still has it (else the input has to be seeked).
    Previous(i64),
    /// No frame was found: an empty frame stands in.
    Empty,
}

/// The keys to drop from the cache and the pick, for the records from
/// position `i` on, `last` being the key of the last frame before the
/// target seen so far.
pub open spec fn video_pick_from(s: Seq<(i64, PtsOrder)>, i: int, last: i64) -> (Seq<i64>, VideoPick)
    decreases s.len() - i,
{
    if i < 0 || i >= s.len() {
        (Seq::<i64>::empty(), VideoPick::Empty)
    } else {
        match s[i].1 {
            PtsOrder::Less => {
                let r = video_pick_from(s, i + 1, s[i].0);
                (seq![last] + r.0, r.1)
            },
            PtsOrder::Equal => (Seq::<i64>::empty(), VideoPick::Exact(s[i].0)),
            PtsOrder::Greater => (Seq::<i64>::empty(), VideoPick::Previous(last)),
        }
    }
}

/// Picks the video frame to hand out from a read's records (by increasing
/// timestamp): walking the frames before the target, each one drops the
/// one before it from the cache (the first drops key -1); the first frame at
/// the target is handed out, or, at the first frame past it, the last one
/// before it.
pub fn pick_video(records: &Vec<(i64, PtsOrder)>) -> (r: (Vec<i64>, VideoPick))
    ensures
        (r.0@, r.1) == video_pick_from(records@, 0, -1i64),
{
    let mut evict: Vec<i64> = Vec::new();
    let mut last_pts: i64 = -1;
    let mut i: usize = 0;
    while i < records.len()
        invariant
            0 <= i <= records@.len(),
            ({
                let t = video_pick_from(records@, 0, -1i64);
                let rest = video_pick_from(records@, i as int, last_pts);
                evict@ + rest.0 == t.0 && rest.1 == t.1
            }),
        decreases records@.len() - i,
    {
        let (key, o) = records[i];
        match o {
            PtsOrder::Less => {
                let ghost before = evict@;
                evict.push(last_pts);
                proof {
                    let rest = video_pick_from(records@, i + 1, key);
                    assert(before + (seq![last_pts] + rest.0) =~= evict@ + rest.0);
                }
                last_pts = key;
            },
            PtsOrder::Equal => {
                proof {
                    assert(evict@ + Seq::<i64>::empty() =~= evict@);
                }
                return (evict, VideoPick::Exact(key));
            },
            PtsOrder::Greater => {
                proof {
                    assert(evict@ + Seq::<i64>::empty() =~= evict@);
                }
                return (evict, VideoPick::Previous(last_pts));
            },
        }
        i = i + 1;
    }
    proof {
        assert(evict@ + Seq::<i64>::empty() =~= evict@);
    }
    (evict, VideoPick::Empty)
}

/// Whether every record's order is how its timestamp stands to `target`.
pub open spec fn records_match_target(s: Seq<(i64, PtsOrder)>, target: i64) -> bool {
    forall|j: int| 0 <= j < s.len() ==> #[trigger] s[j].1 == order_of(s[j].0, target)
}

/// Whether the records come by increasing timestamp.
pub open spec fn records_increasing(s: Seq<(i64, PtsOrder)>) -> bool {
    forall|a: int, b: int| 0 <= a < b < s.len() ==> #[trigger] s[a].0 < #[trigger] s[b].0
}

/// Recording a frame as a scan does keeps every record's order true to the
/// target.
pub proof fn law_scan_records_match_target(m: Map<i64, PtsOrder>, target: i64, pts: i64)
    requires
        forall|k: i64| #[trigger] m.contains_key(k) ==> m[k] == order_of(k, target),
    ensures
        forall|k: i64| #[trigger]
            m.insert(pts, order_of(pts, target)).contains_key(k) ==> m.insert(
                pts,
                order_of(pts, target),
            )[k] == order_of(k, target),
{
}

/// A read hands out a frame as the exact one only when it is at the target,
/// and does so whenever a frame at the target was recorded.
pub proof fn law_pick_video_finds_target(s: Seq<(i64, PtsOrder)>, target: i64, i: int, last: i64)
    requires
        records_match_target(s, target),
        records_increasing(s),
        0 <= i <= s.len(),
    ensures
        (exists|j: int| i <= j < s.len() && #[trigger] s[j].0 == target) <==> video_pick_from(
            s,
            i,
            last,
        ).1 == VideoPick::Exact(target),
        video_pick_from(s, i, last).1 matches VideoPick::Exact(k) ==> k == target,
    decreases s.len() - i,
{
    if i < s.len() {
        assert(s[i].1 == order_of(s[i].0, target));
        if s[i].0 < target {
            law_pick_video_finds_target(s, target, i + 1, s[i].0);
            if exists|j: int| i <= j < s.len() && #[trigger] s[j].0 == target {
                let j = choose|j: int| i <= j < s.len() && #[trigger] s[j].0 == target;
                assert(j != i);
                assert(i + 1 <= j < s.len() && s[j].0 == target);
            }
        } else if s[i].0 > target {
            if exists|j: int| i <= j < s.len() && #[trigger] s[j].0 == target {
                let j = choose|j: int| i <= j < s.len() && #[trigger] s[j].0 == target;
                if j > i {
                    assert(s[i].0 < s[j].0);
                }
            }
        } else {
            assert(s[i].0 == target);
        }
    }
}

/// One step of collecting the audio frames that cover a span.
#[derive(Debug, Clone, Copy, PartialEq, Eq, Structural)]
pub enum AudioStep {
    /// Drop the frame cached under this key.
    Evict(i64),
    /// Take a copy of the frame cached under this key, if the cache has it.
    CollectIfPresent(i64),
    /// Take a copy of the frame cached under this key, which must be there.
    Collect(i64),
}

/// The steps for the records from position `i` on, `last` being the key of
/// the frame before, and `pts` the timestamp where the span starts.
pub open spec fn audio_steps_from(s: Seq<(i64, PtsOrder)>, i: int, last: i64, pts: i64) -> Seq<AudioStep>
    decreases s.len() - i,
{
    if i < 0 || i >= s.len() {
        Seq::<AudioStep>::empty()
    } else {
        match s[i].1 {
            PtsOrder::Less => if pts >= s[i].0 {
                seq![AudioStep::Evict(last)] + audio_steps_from(s, i + 1, s[i].0, pts)
            } else {
                seq![AudioStep::CollectIfPresent(last)] + audio_steps_from(s, i + 1, s[i].0, pts)
            },
            PtsOrder::Equal => seq![AudioStep::Collect(last)],
            PtsOrder::Greater => seq![AudioStep::CollectIfPresent(last), AudioStep::Collect(s[i].0)],
        }
    }
}

/// Plans which cached audio frames cover the span that starts at `pts`,
/// from the records (by increasing timestamp) of a read towards the span's
/// end: frames wholly before the start drop their predecessor from the
/// cache, later ones collect it; reaching the end collects the frame before
/// it, and, past the end, the frame there too.
pub fn pick_audio(records: &Vec<(i64, PtsOrder)>, pts: i64) -> (r: Vec<AudioStep>)
    ensures
        r@ == audio_steps_from(records@, 0, -1i64, pts),
{
    let mut steps: Vec<AudioStep> = Vec::new();
    let mut last_pts: i64 = -1;
    let mut i: usize = 0;
    while i < records.len()
        invariant
            0 <= i <= records@.len(),
            steps@ + audio_steps_from(records@, i as int, last_pts, pts) == audio_steps_from(
                records@,
                0,
                -1i64,
                pts,
            ),
        decreases records@.len() - i,
    {
        let (key, o) = records[i];
        let ghost before = steps@;
        match o {
            PtsOrder::Less => {
                if pts >= key {
                    steps.push(AudioStep::Evict(last_pts));
                } else {
                    steps.push(AudioStep::CollectIfPresent(last_pts));
                }
                proof {
                    let rest = audio_steps_from(records@, i + 1, key, pts);
                    assert(before + (seq![steps@.last()] + rest) =~= steps@ + rest);
                }
                last_pts = key;
            },
            PtsOrder::Equal => {
                steps.push(AudioStep::Collect(last_pts));
                proof {
                    assert(before + seq![AudioStep::Collect(last_pts)] =~= steps@);
                }
                return steps;
            },
            PtsOrder::Greater => {
                steps.push(AudioStep::CollectIfPresent(last_pts));
                steps.push(AudioStep::Collect(key));
                proof {
                    assert(before + seq![AudioStep::CollectIfPresent(last_pts), AudioStep::Collect(key)]
                        =~= steps@);
                }
                return steps;
            },
        }
        i = i + 1;
    }
    proof {
        assert(steps@ + Seq::<AudioStep>::empty() =~= steps@);
    }
    steps
}

/// The key of the frame before record `i` when the steps start at record
/// `start` with `last` as the frame before it.
pub open spec fn key_before(s: Seq<(i64, PtsOrder)>, i: int, start: int, last: i64) -> i64 {
    if i == start {
        last
    } else {
        s[i - 1].0
    }
}

proof fn lemma_evict_sources(s: Seq<(i64, PtsOrder)>, i: int, last: i64, pts: i64)
    requires
        0 <= i,
    ensures
        forall|j: int|
            0 <= j < audio_steps_from(s, i, last, pts).len() && (#[trigger] audio_steps_from(
                s,
                i,
                last,
                pts,
            )[j]) is Evict ==> exists|i2: int|
                i <= i2 < s.len() && (#[trigger] s[i2]).1 == PtsOrder::Less && s[i2].0 <= pts
                    && audio_steps_from(s, i, last, pts)[j]->Evict_0 == key_before(s, i2, i, last),
    decreases s.len() - i,
{
    if i < s.len() {
        let r = audio_steps_from(s, i, last, pts);
        match s[i].1 {
            PtsOrder::Less => {
                lemma_evict_sources(s, i + 1, s[i].0, pts);
                let rest = audio_steps_from(s, i + 1, s[i].0, pts);
                assert forall|j: int| 0 <= j < r.len() && (#[trigger] r[j]) is Evict implies exists|
                    i2: int,
                |
                    i <= i2 < s.len() && (#[trigger] s[i2]).1 == PtsOrder::Less && s[i2].0 <= pts
                        && r[j]->Evict_0 == key_before(s, i2, i, last) by {
                    if j == 0 {
                        assert(s[i].1 == PtsOrder::Less);
                    } else {
                        assert(r[j] == rest[j - 1]);
                        let i2 = choose|i2: int|
                            i + 1 <= i2 < s.len() && (#[trigger] s[i2]).1 == PtsOrder::Less
                                && s[i2].0 <= pts && rest[j - 1]->Evict_0 == key_before(
                                s,
                                i2,
                                i + 1,
                                s[i].0,
                            );
                        assert(key_before(s, i2, i, last) == key_before(s, i2, i + 1, s[i].0));
                    }
                }
            },
            _ => {},
        }
    }
}

/// A cached audio frame is dropped only when it lies wholly before the
/// span: every `Evict(k)` step comes from a record of a frame that starts
/// no later than the span start and whose predecessor is `k` (the first
/// record's predecessor being -1). So the frame that holds the span start,
/// and every frame after it, is collected, never dropped.
pub proof fn law_pick_audio_evicts_only_frames_before_span(s: Seq<(i64, PtsOrder)>, pts: i64)
    ensures
        forall|j: int|
            0 <= j < audio_steps_from(s, 0, -1i64, pts).len() && (#[trigger] audio_steps_from(
                s,
                0,
                -1i64,
                pts,
            )[j]) is Evict ==> exists|i: int|
                0 <= i < s.len() && (#[trigger] s[i]).1 == PtsOrder::Less && s[i].0 <= pts
                    && audio_steps_from(s, 0, -1i64, pts)[j]->Evict_0 == (if i == 0 {
                    -1i64
                } else {
                    s[i - 1].0
                }),
{
    lemma_evict_sources(s, 0, -1i64, pts);
}

/// The sample positions `(start, end)` to keep of the samples decoded for
/// a span from `pts` to `pts2`: the decoded frames start at `first_pts`,
/// and the last of them starts at `last_frame_pts` and holds
/// `last_samples` samples; every position holds `channels` values.
pub open spec fn trim_bounds(
    len: int,
    first_pts: int,
    last_frame_pts: int,
    last_samples: int,
    pts: int,
    pts2: int,
    channels: int,
) -> (int, int) {
    let last_pts = last_frame_pts + last_samples - 1;
    ((pts - first_pts) * channels, len - (last_pts - pts2) * channels)
}

/// Whether trimming is defined: all the arithmetic stays within `i64` and
/// the two bounds cut a slice out of the samples.
pub open spec fn trim_defined(
    len: int,
    first_pts: int,
    last_frame_pts: int,
    last_samples: int,
    pts: int,
    pts2: int,
    channels: int,
) -> bool {
    let last_pts = last_frame_pts + last_samples - 1;
    let a = (pts - first_pts) * channels;
    let b = (last_pts - pts2) * channels;
    &&& i64::MIN <= pts - first_pts <= i64::MAX
    &&& last_samples <= i64::MAX
    &&& i64::MIN <= last_frame_pts + last_samples <= i64::MAX
    &&& i64::MIN <= last_pts <= i64::MAX
    &&& i64::MIN <= last_pts - pts2 <= i64::MAX
    &&& i64::MIN <= a <= i64::MAX
    &&& i64::MIN <= b <= i64::MAX
    &&& 0 <= a
    &&& 0 <= b <= len
    &&& a <= len - b
}

/// Where to cut the decoded samples of an audio span: the samples before
/// `pts` and after `pts2` go, `channels` values per sample position.
pub fn trim_range(
    len: usize,
    first_pts: i64,
    last_frame_pts: i64,
    last_samples: usize,
    pts: i64,
    pts2: i64,
    channels: u16,
) -> (r: (usize, usize))
    requires
        trim_defined(
            len as int,
            first_pts as int,
            last_frame_pts as int,
            last_samples as int,
            pts as int,
            pts2 as int,
            channels as int,
        ),
    ensures
        (r.0 as int, r.1 as int) == trim_bounds(
            len as int,
            first_pts as int,
            last_frame_pts as int,
            last_samples as int,
            pts as int,
            pts2 as int,
            channels as int,
        ),
{
    let samples: i64 = last_samples as i64;
    let last_pts: i64 = last_frame_pts + samples - 1;
    let first_diff: i64 = pts - first_pts;
    let last_diff: i64 = last_pts - pts2;
    let ch: i64 = channels as i64;
    let a: i64 = first_diff * ch;
    let b: i64 = last_diff * ch;
    (a as usize, len - b as usize)
}

proof fn lemma_scaled_order(a: int, b: int, ch: int, c: int)
    requires
        ch > 0,
        0 <= c < ch,
    ensures
        (a * ch + c < b * ch) <==> (a < b),
{
    if a < b {
        assert(a * ch + c < b * ch) by (nonlinear_arith)
            requires
                a < b,
                ch > 0,
                0 <= c < ch,
        ;
    } else {
        assert(a * ch + c >= b * ch) by (nonlinear_arith)
            requires
                a >= b,
                ch > 0,
                0 <= c,
        ;
    }
}

/// Trimming keeps exactly the span: when the decoded values run without a
/// gap from `first_pts` to the end of the last frame, `channels` values per
/// sample position, the value of channel `c` at sample position `p` is kept
/// (lies in `start..end`) exactly when `pts <= p <= pts2`.
pub proof fn law_trim_keeps_exactly_the_span(
    len: int,
    first_pts: int,
    last_frame_pts: int,
    last_samples: int,
    pts: int,
    pts2: int,
    channels: int,
    p: int,
    c: int,
)
    requires
        trim_defined(len, first_pts, last_frame_pts, last_samples, pts, pts2, channels),
        channels > 0,
        len == (last_frame_pts + last_samples - first_pts) * channels,
        first_pts <= p < last_frame_pts + last_samples,
        0 <= c < channels,
    ensures
        ({
            let r = trim_bounds(len, first_pts, last_frame_pts, last_samples, pts, pts2, channels);
            let v = (p - first_pts) * channels + c;
            (r.0 <= v && v < r.1) <==> (pts <= p && p <= pts2)
        }),
{
    let r = trim_bounds(len, first_pts, last_frame_pts, last_samples, pts, pts2, channels);
    let last_pts = last_frame_pts + last_samples - 1;
    assert(r.1 == (pts2 + 1 - first_pts) * channels) by (nonlinear_arith)
        requires
            r.1 == len - (last_pts - pts2) * channels,
            len == (last_frame_pts + last_samples - first_pts) * channels,
            last_pts == last_frame_pts + last_samples - 1,
    ;
    lemma_scaled_order(p - first_pts, pts - first_pts, channels, c);
    lemma_scaled_order(p - first_pts, pts2 + 1 - first_pts, channels, c);
}

/// The check of the external `ffmpeg` command line; it has nothing to run
/// yet and always succeeds.
pub fn test_ffmpeg_cmd() -> (r: Result<(), anyhow::Error>)
    ensures
        r is Ok,
{
    Ok(())
}

/// What a stream of the input carries.
#[derive(Debug, Clone, Copy, PartialEq, Eq, Structural)]
pub enum MediaKind {
    Video,
    Audio,
    Other,
}

/// The streams that get a decoder: the video and audio ones, in order.
pub open spec fn decoded_streams(s: Seq<(MediaKind, usize)>) -> Seq<(MediaKind, usize)>
    decreases s.len(),
{
    if s.len() == 0 {
        Seq::<(MediaKind, usize)>::empty()
    } else if s.last().0 == MediaKind::Other {
        decoded_streams(s.drop_last())
    } else {
        decoded_streams(s.drop_last()).push(s.last())
    }
}

/// Which of the input's streams (what each carries, and its stream index)
/// get a decoder, in the order they come.
pub fn plan_streams(streams: &Vec<(MediaKind, usize)>) -> (r: Vec<(MediaKind, usize)>)
    ensures
        r@ == decoded_streams(streams@),
{
    let mut r: Vec<(MediaKind, usize)> = Vec::new();
    let mut i: usize = 0;
    while i < streams.len()
        invariant
            0 <= i <= streams@.len(),
            r@ == decoded_streams(streams@.take(i as int)),
        decreases streams@.len() - i,
    {
        let (kind, index) = streams[i];
        assert(streams@.take(i + 1).drop_last() =~= streams@.take(i as int));
        match kind {
            MediaKind::Other => {},
            _ => {
                r.push((kind, index));
            },
        }
        i = i + 1;
    }
    assert(streams@.take(streams@.len() as int) =~= streams@);
    r
}

/// Whether a stream of this kind gets a decoder.
pub open spec fn is_decoded_kind(x: (MediaKind, usize)) -> bool {
    x.0 != MediaKind::Other
}

/// Every video and audio stream gets a decoder, and nothing else does: the
/// planned streams are exactly the video and audio streams of the input,
/// in the input's order (the input filtered by kind), so each of them is
/// there and every planned stream is one of them.
pub proof fn law_plan_streams_keeps_every_video_and_audio_stream(s: Seq<(MediaKind, usize)>)
    ensures
        decoded_streams(s) == s.filter(|x: (MediaKind, usize)| is_decoded_kind(x)),
        forall|i: int|
            0 <= i < s.len() && s[i].0 != MediaKind::Other ==> decoded_streams(s).contains(
                #[trigger] s[i],
            ),
        forall|x: (MediaKind, usize)| #[trigger]
            decoded_streams(s).contains(x) ==> s.contains(x) && x.0 != MediaKind::Other,
    decreases s.len(),
{
    let pred = |x: (MediaKind, usize)| is_decoded_kind(x);
    reveal(Seq::filter);
    if s.len() > 0 {
        law_plan_streams_keeps_every_video_and_audio_stream(s.drop_last());
    }
    assert(decoded_streams(s) == s.filter(pred));
    assert forall|i: int| 0 <= i < s.len() && s[i].0 != MediaKind::Other implies decoded_streams(
        s,
    ).contains(#[trigger] s[i]) by {
        s.lemma_filter_contains(pred, i);
    }
    assert forall|x: (MediaKind, usize)| #[trigger]
        decoded_streams(s).contains(x) implies s.contains(x) && x.0 != MediaKind::Other by {
        s.lemma_filter_contains_rev(pred, x);
        let k = choose|k: int| 0 <= k < s.filter(pred).len() && s.filter(pred)[k] == x;
        s.lemma_filter_pred(pred, k);
    }
}

/// The last position in `s` of a decoder of `kind` for stream `index`, or
/// -1 if there is none.
pub open spec fn last_position(s: Seq<(MediaKind, usize)>, kind: MediaKind, index: usize) -> int
    decreases s.len(),
{
    if s.len() == 0 {
        -1
    } else if s.last() == (kind, index) {
        s.len() - 1
    } else {
        last_position(s.drop_last(), kind, index)
    }
}

/// The position to use for a decoder: its last position, or 0 if there is none.
pub open spec fn position_or_first(s: Seq<(MediaKind, usize)>, kind: MediaKind, index: usize) -> int {
    if last_position(s, kind, index) >= 0 {
        last_position(s, kind, index)
    } else {
        0
    }
}

/// The positions among the decoders of the input's best video stream
/// (stream index `vb`) and best audio stream (stream index `ab`).
pub fn best_va(children: &Vec<(MediaKind, usize)>, vb: usize, ab: usize) -> (r: (usize, usize))
    ensures
        r.0 as int == position_or_first(children@, MediaKind::Video, vb),
        r.1 as int == position_or_first(children@, MediaKind::Audio, ab),
{
    let mut i_vb: usize = 0;
    let mut i_ab: usize = 0;
    let mut i: usize = 0;
    while i < children.len()
        invariant
            0 <= i <= children@.len(),
            i_vb as int == position_or_first(children@.take(i as int), MediaKind::Video, vb),
            i_ab as int == position_or_first(children@.take(i as int), MediaKind::Audio, ab),
        decreases children@.len() - i,
    {
        let (kind, index) = children[i];
        assert(children@.take(i + 1).drop_last() =~= children@.take(i as int));
        match kind {
            MediaKind::Video => {
                if index == vb {
                    i_vb = i;
                }
            },
            MediaKind::Audio => {
                if index == ab {
                    i_ab = i;
                }
            },
            MediaKind::Other => {},
        }
        i = i + 1;
    }
    assert(children@.take(children@.len() as int) =~= children@);
    (i_vb, i_ab)
}

/// What to do with a packet when reading one stream.
#[derive(Debug, Clone, Copy, PartialEq, Eq, Structural)]
pub enum PacketStep {
    /// A packet of an earlier stream: pass it by.
    Skip,
    /// A packet of the stream read: decode it.
    Decode,
    /// A packet of a later stream: the read ends without a frame.
    Stop,
}

/// What to do with a packet of stream `packet_stream` when reading stream
/// `stream`.
pub fn packet_step(packet_stream: usize, stream: usize) -> (r: PacketStep)
    ensures
        packet_stream < stream ==> r == PacketStep::Skip,
        packet_stream == stream ==> r == PacketStep::Decode,
        packet_stream > stream ==> r == PacketStep::Stop,
{
    if packet_stream < stream {
        PacketStep::Skip
    } else if packet_stream == stream {
        PacketStep::Decode
    } else {
        PacketStep::Stop
    }
}

/// A rational number, as a numerator and a denominator.
#[derive(Debug, Clone, Copy, PartialEq, Eq, Structural)]
pub struct NRRational(pub i32, pub i32);

impl From<(i32, i32)> for NRRational {
    fn from(val: (i32, i32)) -> (r: Self) {
        NRRational(val.0, val.1)
    }
}

impl vstd::std_specs::convert::FromSpecImpl<(i32, i32)> for NRRational {
    open spec fn obeys_from_spec() -> bool {
        true
    }

    open spec fn from_spec(val: (i32, i32)) -> Self {
        NRRational(val.0, val.1)
    }
}

} // verus!
