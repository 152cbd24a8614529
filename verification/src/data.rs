//! The top-level container a file is written from and read into.

use vstd::prelude::*;

verus! {

/// A domain (mesh plus spans) together with the point data living on it.
#[derive(Debug, Clone, PartialEq)]
pub struct VtkData<DOMAIN, D> {
    pub domain: DOMAIN,
    pub data: D,
}

impl<DOMAIN, D> VtkData<DOMAIN, D> {
    /// Construct a container for writing to a file.
    pub fn new(domain: DOMAIN, data: D) -> (r: VtkData<DOMAIN, D>)
        ensures
            r.domain == domain,
            r.data == data,
    {
        VtkData { domain, data }
    }

    /// Change the data stored in this container, keeping the domain.
    pub fn new_data<T>(self, new_data: T) -> (r: VtkData<DOMAIN, T>)
        ensures
            r.domain == self.domain,
            r.data == new_data,
    {
        VtkData { domain: self.domain, data: new_data }
    }
}

} // verus!
