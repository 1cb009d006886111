//! The closed error taxonomy every device implementation maps its native
//! errors onto, so that generic code can reason about failures without
//! knowing the concrete device error type.

use vstd::prelude::*;

verus! {

/// NOR flash error kinds.
///
/// NOR flash implementations must map their errors to these generic kinds
/// through the [`NorFlashError`] trait.
#[derive(Debug, Copy, Clone, Eq, PartialEq, Ord, PartialOrd, Hash, Structural)]
pub enum NorFlashErrorKind {
    /// The arguments are not properly aligned.
    NotAligned,
    /// The arguments are out of bounds.
    OutOfBounds,
    /// The cell already was written or cannot be written properly with the
    /// provided value.
    DirtyWrite,
    /// Error specific to the implementation.
    Other,
}

/// NOR flash errors.
///
/// NOR flash implementations must use an error type implementing this trait.
/// This permits generic code to extract a generic error kind.
pub trait NorFlashError: Sized {
    /// The generic kind this error maps onto.
    spec fn kind_spec(&self) -> NorFlashErrorKind;

    /// Convert a specific NOR flash error into a generic error kind.
    fn kind(&self) -> (r: NorFlashErrorKind)
        ensures
            r == self.kind_spec(),
    ;
}

impl NorFlashError for core::convert::Infallible {
    open spec fn kind_spec(&self) -> NorFlashErrorKind {
        NorFlashErrorKind::Other
    }

    fn kind(&self) -> (r: NorFlashErrorKind) {
        // No value of `Infallible` exists, so this body is never reached.
        NorFlashErrorKind::Other
    }
}

impl NorFlashError for NorFlashErrorKind {
    open spec fn kind_spec(&self) -> NorFlashErrorKind {
        *self
    }

    fn kind(&self) -> (r: NorFlashErrorKind) {
        *self
    }
}

impl NorFlashErrorKind {
    /// A human-readable description of the error kind.
    pub fn message(&self) -> (r: &'static str)
        ensures
            *self is NotAligned ==> r@ == "Arguments are not properly aligned"@,
            *self is OutOfBounds ==> r@ == "Arguments are out of bounds"@,
            *self is DirtyWrite ==> r@ == "Dirty write operation"@,
            *self is Other ==> r@ == "An implementation specific error occurred"@,
    {
        match self {
            NorFlashErrorKind::NotAligned => "Arguments are not properly aligned",
            NorFlashErrorKind::OutOfBounds => "Arguments are out of bounds",
            NorFlashErrorKind::DirtyWrite => "Dirty write operation",
            NorFlashErrorKind::Other => "An implementation specific error occurred",
        }
    }
}

/// A trait that NorFlash implementations can use to share an error type.
pub trait ErrorType {
    /// Errors returned by this NOR flash.
    type Error: NorFlashError;
}

impl<T: ErrorType> ErrorType for &mut T {
    type Error = T::Error;
}

} // verus!
