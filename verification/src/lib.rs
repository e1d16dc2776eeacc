//! Runtime data layer for a skeletal-animation engine: an immutable joint
//! hierarchy decoded from a versioned binary archive, together with a
//! uniform access abstraction over pose buffers regardless of how those
//! buffers are owned.

pub mod archive;
pub mod base;
pub mod buf;
pub mod joint_map;
pub mod math;
pub mod skeleton;

pub use base::{DeterministicState, OzzError, OzzIndex, OzzObj};
pub use buf::{
    ObCellRef, ObCellRefMut, ObRwLockReadGuard, ObRwLockWriteGuard, ObSliceRef, ObSliceRefMut,
    OzzBuf, OzzMutBuf, OzzMutView, OzzView,
};
pub use joint_map::JointHashMap;
pub use math::{SoaFloat4, SoaQuat, SoaTransform, SoaVec3};
pub use skeleton::{Skeleton, SkeletonMeta};
