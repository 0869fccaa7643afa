use vstd::prelude::*;

use crate::frame::Frame;

verus! {

/// Rows of the pictures the video writer takes.
pub const FRAME_ROWS: usize = 1080;

/// Bytes kept per row of the pictures the video writer takes.
pub const FRAME_COLS: usize = 1920;

/// Whether `r` holds the pixels of the BGR bytes `b` as RGBA bytes with an
/// opaque alpha.
pub open spec fn is_rgba_of_bgr(b: Seq<u8>, r: Seq<u8>) -> bool {
    &&& r.len() == b.len() / 3 * 4
    &&& forall|p: int|
        0 <= p < b.len() / 3 ==> {
            &&& #[trigger] r[4 * p] == b[3 * p + 2]
            &&& r[4 * p + 1] == b[3 * p + 1]
            &&& r[4 * p + 2] == b[3 * p]
            &&& r[4 * p + 3] == 255
        }
}

/// Whether `r` holds the pixels of the RGBA bytes `a` as BGR bytes, the
/// alpha left out.
pub open spec fn is_bgr_of_rgba(a: Seq<u8>, r: Seq<u8>) -> bool {
    &&& r.len() == a.len() / 4 * 3
    &&& forall|p: int|
        0 <= p < a.len() / 4 ==> {
            &&& #[trigger] r[3 * p] == a[4 * p + 2]
            &&& r[3 * p + 1] == a[4 * p + 1]
            &&& r[3 * p + 2] == a[4 * p]
        }
}

/// Converting BGR pixels to RGBA and back gives the same bytes.
pub proof fn law_bgr_round_trip(b: Seq<u8>, r: Seq<u8>, back: Seq<u8>)
    requires
        b.len() % 3 == 0,
        is_rgba_of_bgr(b, r),
        is_bgr_of_rgba(r, back),
    ensures
        back == b,
{
    assert(r.len() / 4 == b.len() / 3);
    assert(back.len() == b.len());
    assert forall|i: int| 0 <= i < b.len() implies back[i] == b[i] by {
        let p = i / 3;
        let c = i % 3;
        assert(i == 3 * p + c);
        assert(0 <= p < b.len() / 3);
        assert(r[4 * p] == b[3 * p + 2]);
        assert(back[3 * p] == r[4 * p + 2]);
    }
    assert(back =~= b);
}

/// Turns packed BGR pixels (as a video capture hands them out) into RGBA
/// pixels with an opaque alpha.
pub fn bgr_to_rgba(bgr: &[u8]) -> (r: Vec<u8>)
    requires
        bgr@.len() % 3 == 0,
    ensures
        is_rgba_of_bgr(bgr@, r@),
{
    let n: usize = bgr.len() / 3;
    assert(bgr@.len() == 3 * n);
    let mut r: Vec<u8> = Vec::new();
    let mut p: usize = 0;
    while p < n
        invariant
            n == bgr@.len() / 3,
            bgr@.len() == 3 * n,
            bgr@.len() <= usize::MAX,
            0 <= p <= n,
            r@.len() == 4 * p,
            forall|q: int|
                0 <= q < p ==> {
                    &&& #[trigger] r@[4 * q] == bgr@[3 * q + 2]
                    &&& r@[4 * q + 1] == bgr@[3 * q + 1]
                    &&& r@[4 * q + 2] == bgr@[3 * q]
                    &&& r@[4 * q + 3] == 255
                },
        decreases n - p,
    {
        let i: usize = 3 * p;
        let ghost before = r@;
        r.push(bgr[i + 2]);
        r.push(bgr[i + 1]);
        r.push(bgr[i]);
        r.push(255);
        proof {
            assert forall|q: int| 0 <= q < p + 1 implies {
                &&& #[trigger] r@[4 * q] == bgr@[3 * q + 2]
                &&& r@[4 * q + 1] == bgr@[3 * q + 1]
                &&& r@[4 * q + 2] == bgr@[3 * q]
                &&& r@[4 * q + 3] == 255
            } by {
                if q < p {
                    assert(before[4 * q] == bgr@[3 * q + 2]);
                    assert(r@[4 * q] == before[4 * q]);
                }
            }
        }
        p = p + 1;
    }
    r
}

/// Turns RGBA pixels into packed BGR pixels, the alpha left out.
pub fn rgba_to_bgr(rgba: &[u8]) -> (r: Vec<u8>)
    requires
        rgba@.len() % 4 == 0,
    ensures
        is_bgr_of_rgba(rgba@, r@),
{
    let n: usize = rgba.len() / 4;
    assert(rgba@.len() == 4 * n);
    let mut r: Vec<u8> = Vec::new();
    let mut p: usize = 0;
    while p < n
        invariant
            n == rgba@.len() / 4,
            rgba@.len() == 4 * n,
            rgba@.len() <= usize::MAX,
            0 <= p <= n,
            r@.len() == 3 * p,
            forall|q: int|
                0 <= q < p ==> {
                    &&& #[trigger] r@[3 * q] == rgba@[4 * q + 2]
                    &&& r@[3 * q + 1] == rgba@[4 * q + 1]
                    &&& r@[3 * q + 2] == rgba@[4 * q]
                },
        decreases n - p,
    {
        let i: usize = 4 * p;
        let ghost before = r@;
        r.push(rgba[i + 2]);
        r.push(rgba[i + 1]);
        r.push(rgba[i]);
        proof {
            assert forall|q: int| 0 <= q < p + 1 implies {
                &&& #[trigger] r@[3 * q] == rgba@[4 * q + 2]
                &&& r@[3 * q + 1] == rgba@[4 * q + 1]
                &&& r@[3 * q + 2] == rgba@[4 * q]
            } by {
                if q < p {
                    assert(before[3 * q] == rgba@[4 * q + 2]);
                    assert(r@[3 * q] == before[3 * q]);
                }
            }
        }
        p = p + 1;
    }
    r
}

/// Cuts the first `FRAME_ROWS` rows of `FRAME_COLS` bytes each out of `v`,
/// row after row.
pub fn split_rows(v: &Vec<u8>) -> (r: Vec<Vec<u8>>)
    requires
        v@.len() >= FRAME_ROWS * FRAME_COLS,
    ensures
        r@.len() == FRAME_ROWS,
        forall|i: int| 0 <= i < FRAME_ROWS ==> (#[trigger] r@[i])@.len() == FRAME_COLS,
        forall|i: int, j: int|
            0 <= i < FRAME_ROWS && 0 <= j < FRAME_COLS ==> #[trigger] r@[i]@[j] == v@[i
                * 1920 + j],
{
    let mut r: Vec<Vec<u8>> = Vec::new();
    let mut ele: usize = 0;
    while ele < FRAME_ROWS
        invariant
            v@.len() >= FRAME_ROWS * FRAME_COLS,
            0 <= ele <= FRAME_ROWS,
            r@.len() == ele,
            forall|i: int| 0 <= i < ele ==> (#[trigger] r@[i])@.len() == FRAME_COLS,
            forall|i: int, j: int|
                0 <= i < ele && 0 <= j < FRAME_COLS ==> #[trigger] r@[i]@[j] == v@[i * 1920 + j],
        decreases FRAME_ROWS - ele,
    {
        let mut row: Vec<u8> = Vec::new();
        let mut elee: usize = 0;
        while elee < FRAME_COLS
            invariant
                v@.len() >= FRAME_ROWS * FRAME_COLS,
                0 <= ele < FRAME_ROWS,
                0 <= elee <= FRAME_COLS,
                row@.len() == elee,
                forall|j: int| 0 <= j < elee ==> #[trigger] row@[j] == v@[ele * 1920 + j],
            decreases FRAME_COLS - elee,
        {
            row.push(v[ele * 1920 + elee]);
            elee = elee + 1;
        }
        r.push(row);
        ele = ele + 1;
    }
    r
}

/// Fills `f` from a picture a video capture handed out as packed BGR
/// bytes; an empty picture (past the end of the video) leaves `f` as it was
/// and reports `false`.
pub fn load_bgr(f: &mut Frame, bgr: &[u8]) -> (r: bool)
    requires
        bgr@.len() % 3 == 0,
    ensures
        r == (bgr@.len() > 0),
        !r ==> *final(f) == *old(f),
        r ==> is_rgba_of_bgr(bgr@, final(f).vec_rgba@) && final(f).w == old(f).w && final(f).h
            == old(f).h,
{
    if bgr.len() == 0 {
        return false;
    }
    f.vec_rgba = bgr_to_rgba(bgr);
    true
}

/// The rows of BGR bytes that go to the video writer for a frame: its
/// pixels without alpha, cut into `FRAME_ROWS` rows of `FRAME_COLS` bytes.
pub fn writer_rows(f: &Frame) -> (r: Vec<Vec<u8>>)
    requires
        f.vec_rgba@.len() % 4 == 0,
        f.vec_rgba@.len() / 4 * 3 >= FRAME_ROWS * FRAME_COLS,
    ensures
        r@.len() == FRAME_ROWS,
        forall|i: int| 0 <= i < FRAME_ROWS ==> (#[trigger] r@[i])@.len() == FRAME_COLS,
        exists|bgr: Seq<u8>|
            is_bgr_of_rgba(f.vec_rgba@, bgr) && forall|i: int, j: int|
                0 <= i < FRAME_ROWS && 0 <= j < FRAME_COLS ==> #[trigger] r@[i]@[j] == bgr[i
                    * 1920 + j],
{
    let v = rgba_to_bgr(f.vec_rgba.as_slice());
    split_rows(&v)
}

} // verus!
