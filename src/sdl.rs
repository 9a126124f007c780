use vstd::prelude::*;

verus! {

/// A token that nothing outside this crate can make.
pub struct Opaque {
    _private: (),
}

/// SDL's read/write stream. Nothing outside this crate can make one: the
/// device layer only ever holds it behind the pointers that SDL hands out.
#[allow(non_camel_case_types)]
pub enum SDL_RWops {
    Stream(Opaque),
}

} // verus!
