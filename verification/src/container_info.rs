use vstd::prelude::*;

verus! {

/// An entry of a bundle's container table: a named asset and the objects
/// that are loaded ahead of it.
#[derive(Clone, Debug)]
pub struct ContainerInfo {
    pub name: String,
    pub preload_index: u32,
    pub preload_size: u32,
    pub file_id: u32,
    pub path_id: u32,
}

} // verus!
