use std::rc::Rc;
use vstd::prelude::*;

verus! {

/// An RGBA picture of `w` by `h` pixels, four bytes per pixel.
#[derive(Debug, Clone)]
pub struct Frame {
    pub w: usize,
    pub h: usize,
    pub vec_rgba: Vec<u8>,
}

impl View for Frame {
    /// Width, height and the bytes of the picture.
    type V = (usize, usize, Seq<u8>);

    open spec fn view(&self) -> (usize, usize, Seq<u8>) {
        (self.w, self.h, self.vec_rgba@)
    }
}

impl Frame {
    /// An empty frame of the given size whose buffer has room for the
    /// whole picture.
    pub fn init(w: usize, h: usize) -> (r: Self)
        requires
            w * h * 4 <= usize::MAX,
        ensures
            r.w == w,
            r.h == h,
            r.vec_rgba@ == Seq::<u8>::empty(),
    {
        assert(0 <= w * h) by (nonlinear_arith);
        let cap: usize = w * h * 4;
        Self { w, h, vec_rgba: Vec::with_capacity(cap) }
    }
}

/// The settings one frame is processed with: its number, the settings of
/// nested processors, and free-form metadata.
#[derive(Clone)]
pub struct FrameSettings {
    pub frame_num: usize,
    pub child: Vec<Rc<FrameSettings>>,
    pub metadata: serde_json::Value,
}

/// The JSON `null` value (`serde_json::Value::Null`); nothing is claimed of it.
#[verifier::external_body]
fn json_null() -> serde_json::Value {
    serde_json::Value::Null
}

impl Default for FrameSettings {
    /// Settings for frame 0 with no nested settings and `null` metadata.
    fn default() -> (r: Self)
        ensures
            r.frame_num == 0,
            r.child@ == Seq::<Rc<FrameSettings>>::empty(),
    {
        FrameSettings { frame_num: 0, child: Vec::new(), metadata: json_null() }
    }
}

} // verus!
