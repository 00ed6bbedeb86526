use vstd::prelude::*;

pub mod u32;

verus! {

/// Whether to allow or disallow arithmetic overflow.
#[derive(Debug, Clone, Copy)]
pub enum Flags {
    Checked,
    Unchecked,
}

} // verus!
