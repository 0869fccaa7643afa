use vstd::prelude::*;

use crate::interface::ProcessInterface;

verus! {

/// A source that opens a file as a processor that reads from it.
pub trait InputInterface<TData, TSettings> {
    /// The processor an opened file becomes.
    type Process: ProcessInterface<TData, TSettings>;

    /// Opens `file`; `None` when it cannot be opened.
    fn in_open_file(&self, file: &str) -> Option<Self::Process>;
}

/// A sink that opens a file as a processor that writes to it.
pub trait OutputInterface<TData, TSettings> {
    /// The processor an opened file becomes.
    type Process: ProcessInterface<TData, TSettings>;

    /// Opens `file`; `None` when it cannot be opened.
    fn out_open_file(&self, file: &str) -> Option<Self::Process>;
}

/// A maker of filters.
pub trait FilterInterface<TData, TSettings> {
    /// The processor a filter is.
    type Process: ProcessInterface<TData, TSettings>;

    /// A new filter.
    fn get_fi(&self) -> Self::Process;
}

} // verus!
