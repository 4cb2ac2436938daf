use vstd::prelude::*;

verus! {

/// Error taxonomy of the engine.
///
/// `Base` covers failures propagated from collaborating layers (including a
/// full transaction queue), `Codec` a value that does not decode, `Store` a
/// persistent-backend failure, `Io` a generic input/output failure, and
/// `Missing` a lookup that returned no value where one was expected.
#[derive(Clone, Copy, Debug, PartialEq, Eq, Structural)]
pub enum Error {
    Base,
    Codec,
    Store,
    Io,
    Missing,
}

pub type Result<T> = core::result::Result<T, Error>;

} // verus!
