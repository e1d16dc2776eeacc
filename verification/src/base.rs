//! Base types: the error taxonomy and index conversions.

use vstd::prelude::*;

verus! {

/// Error type covering every failure the library can report.
#[derive(Debug, Clone, PartialEq, Eq)]
pub enum OzzError {
    /// A cross-thread shared buffer's lock was poisoned by a failed holder.
    LockPoison,
    /// A caller-supplied job failed validation.
    InvalidJob,
    /// An index into a buffer or hierarchy was out of bounds.
    InvalidIndex,
    /// Underlying byte-stream failure (for the in-memory decoder: the data
    /// ended before a read could complete), carrying a description.
    IO(String),
    /// A decoded name was not valid UTF-8, carrying a description.
    Utf8(String),
    /// An archive's leading type tag did not match the expected resource tag.
    InvalidTag,
    /// An archive's version field did not match the supported version.
    InvalidVersion,
    /// Escape hatch for caller-defined failures; never produced internally.
    Custom(String),
}

impl OzzError {
    /// True iff this error is `LockPoison`.
    pub fn is_lock_poison(&self) -> (r: bool)
        ensures
            r == (self is LockPoison),
    {
        match self {
            OzzError::LockPoison => true,
            _ => false,
        }
    }

    /// True iff this error is `InvalidJob`.
    pub fn is_invalid_job(&self) -> (r: bool)
        ensures
            r == (self is InvalidJob),
    {
        match self {
            OzzError::InvalidJob => true,
            _ => false,
        }
    }

    /// True iff this error is `IO`.
    pub fn is_io(&self) -> (r: bool)
        ensures
            r == (self is IO),
    {
        match self {
            OzzError::IO(_) => true,
            _ => false,
        }
    }

    /// True iff this error is `Utf8`.
    pub fn is_utf8(&self) -> (r: bool)
        ensures
            r == (self is Utf8),
    {
        match self {
            OzzError::Utf8(_) => true,
            _ => false,
        }
    }

    /// True iff this error is `InvalidTag`.
    pub fn is_invalid_tag(&self) -> (r: bool)
        ensures
            r == (self is InvalidTag),
    {
        match self {
            OzzError::InvalidTag => true,
            _ => false,
        }
    }

    /// True iff this error is `InvalidVersion`.
    pub fn is_invalid_version(&self) -> (r: bool)
        ensures
            r == (self is InvalidVersion),
    {
        match self {
            OzzError::InvalidVersion => true,
            _ => false,
        }
    }

    /// True iff this error is `Custom`.
    pub fn is_custom(&self) -> (r: bool)
        ensures
            r == (self is Custom),
    {
        match self {
            OzzError::Custom(_) => true,
            _ => false,
        }
    }
}

/// Maximum number of joints a skeleton may hold. Keeping the count small
/// bounds the number of bits needed to store a joint index.
pub const SKELETON_MAX_JOINTS: i32 = 1024;

/// Maximum number of SoA elements required to store the maximum number of
/// joints.
pub const SKELETON_MAX_SOA_JOINTS: i32 = 256;

/// Parent index stored for the root joint, which has no parent in fact.
pub const SKELETON_NO_PARENT: i32 = -1;

/// A hasher builder that creates `DefaultHasher` with default keys, so that
/// name-keyed maps produce the same layout on every run and platform.
#[derive(Debug, Default, Clone, Copy, PartialEq, Eq, Structural)]
pub struct DeterministicState;

impl DeterministicState {
    /// Creates a new `DeterministicState` that builds `DefaultHasher` with
    /// default keys.
    pub fn new() -> (res: DeterministicState)
        ensures
            res == DeterministicState,
    {
        DeterministicState
    }
}

impl std::hash::BuildHasher for DeterministicState {
    type Hasher = std::collections::hash_map::DefaultHasher;

    fn build_hasher(&self) -> std::collections::hash_map::DefaultHasher {
        std::collections::hash_map::DefaultHasher::new()
    }
}

/// Allows usize/i32/i16 to be used as a joint index.
pub trait OzzIndex {
    /// The mathematical value of the index.
    spec fn spec_index(&self) -> int;

    /// The index as a usize; only meaningful for non-negative values.
    fn usize(&self) -> (res: usize)
        requires
            0 <= self.spec_index() <= usize::MAX,
        ensures
            res == self.spec_index(),
    ;

    /// The index as an i32.
    fn i32(&self) -> (res: i32)
        requires
            i32::MIN <= self.spec_index() <= i32::MAX,
        ensures
            res == self.spec_index(),
    ;
}

impl OzzIndex for usize {
    open spec fn spec_index(&self) -> int {
        *self as int
    }

    #[inline(always)]
    fn usize(&self) -> usize {
        *self
    }

    #[inline(always)]
    fn i32(&self) -> i32 {
        *self as i32
    }
}

impl OzzIndex for i32 {
    open spec fn spec_index(&self) -> int {
        *self as int
    }

    #[inline(always)]
    fn usize(&self) -> usize {
        *self as usize
    }

    #[inline(always)]
    fn i32(&self) -> i32 {
        *self
    }
}

impl OzzIndex for i16 {
    open spec fn spec_index(&self) -> int {
        *self as int
    }

    #[inline(always)]
    fn usize(&self) -> usize {
        *self as usize
    }

    #[inline(always)]
    fn i32(&self) -> i32 {
        *self as i32
    }
}

/// A reference to a resource object such as a `Skeleton`.
///
/// Lets the same algorithm accept `T`, `&T`, `Rc<T>` and `Arc<T>`, or a
/// caller's own reference type.
pub trait OzzObj<T> {
    /// The referenced object's value.
    spec fn spec_obj(&self) -> T;

    /// Borrows the referenced object.
    fn obj(&self) -> (res: &T)
        ensures
            *res == self.spec_obj(),
    ;
}

impl<T> OzzObj<T> for T {
    open spec fn spec_obj(&self) -> T {
        *self
    }

    #[inline(always)]
    fn obj(&self) -> &T {
        self
    }
}

impl<'t, T> OzzObj<T> for &'t T {
    open spec fn spec_obj(&self) -> T {
        **self
    }

    #[inline(always)]
    fn obj(&self) -> &T {
        self
    }
}

impl<T> OzzObj<T> for std::rc::Rc<T> {
    open spec fn spec_obj(&self) -> T {
        **self
    }

    #[inline(always)]
    fn obj(&self) -> &T {
        &**self
    }
}

impl<T> OzzObj<T> for std::sync::Arc<T> {
    open spec fn spec_obj(&self) -> T {
        **self
    }

    #[inline(always)]
    fn obj(&self) -> &T {
        &**self
    }
}

} // verus!
