use vstd::prelude::*;

verus! {

/// What a plugin provides: an input, an output or a filter.
pub enum FiChild<I, O, F> {
    Input(I),
    Output(O),
    Filter(F),
}

/// A plugin's registration: its description and what it provides.
pub struct FiInfo<I, O, F> {
    pub name: String,
    pub authors: Box<[String]>,
    pub url: Box<[String]>,
    pub version: String,
    pub tag: Box<[String]>,
    pub fi: FiChild<I, O, F>,
}

/// The registered plugins, in the order they came.
pub struct FiManager<I, O, F> {
    pub vec_info: Vec<FiInfo<I, O, F>>,
}

/// Keeping plugins.
pub trait FiManage<I, O, F> {
    /// Registers a plugin.
    fn register(&mut self, info: FiInfo<I, O, F>);
}

impl<I, O, F> FiManage<I, O, F> for FiManager<I, O, F> {
    /// Appends the plugin after those registered before.
    fn register(&mut self, info: FiInfo<I, O, F>)
        ensures
            final(self).vec_info@ == old(self).vec_info@.push(info),
    {
        self.vec_info.push(info);
    }
}

} // verus!
