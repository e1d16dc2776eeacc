//! Buffer access abstraction.
//!
//! Two capability traits, [`OzzBuf`] (read) and [`OzzMutBuf`] (read-write),
//! let the same algorithm run over a pose buffer no matter how the buffer is
//! owned: a borrowed slice, an owned vector, a single-thread shared mutable
//! cell (`Rc<RefCell<Vec<T>>>`), or a cross-thread shared lock
//! (`Arc<RwLock<Vec<T>>>`). Each strategy hands out a scoped view object;
//! views over the shared strategies hold the cell borrow or the lock guard
//! for as long as they live, so no data is copied.

use vstd::prelude::*;
use crate::base::OzzError;

verus! {

broadcast use vstd::std_specs::vec::group_vec_axioms;

/// Declares `core::cell::RefCell` so it can appear in signatures; its
/// behaviour enters only through the trusted view constructors below.
#[verifier::external_type_specification]
#[verifier::external_body]
#[verifier::reject_recursive_types(T)]
pub struct ExRefCell<T: ?Sized>(core::cell::RefCell<T>);

/// Declares `core::cell::Ref`, the scoped read borrow of a `RefCell`.
#[verifier::external_type_specification]
#[verifier::external_body]
#[verifier::reject_recursive_types(T)]
pub struct ExRef<'b, T: ?Sized>(core::cell::Ref<'b, T>);

/// Declares `core::cell::RefMut`, the scoped write borrow of a `RefCell`.
#[verifier::external_type_specification]
#[verifier::external_body]
#[verifier::reject_recursive_types(T)]
pub struct ExRefMut<'b, T: ?Sized + 'b>(core::cell::RefMut<'b, T>);

/// Declares `std::sync::RwLock`; its behaviour enters only through the
/// trusted view constructors below.
#[verifier::external_type_specification]
#[verifier::external_body]
#[verifier::reject_recursive_types(T)]
pub struct ExRwLock<T: ?Sized>(std::sync::RwLock<T>);

/// Declares `std::sync::RwLockReadGuard`, the scoped shared acquisition of
/// a `RwLock`.
#[verifier::external_type_specification]
#[verifier::external_body]
#[verifier::reject_recursive_types(T)]
pub struct ExRwLockReadGuard<'a, T: ?Sized>(std::sync::RwLockReadGuard<'a, T>);

/// Declares `std::sync::RwLockWriteGuard`, the scoped exclusive acquisition
/// of a `RwLock`.
#[verifier::external_type_specification]
#[verifier::external_body]
#[verifier::reject_recursive_types(T)]
pub struct ExRwLockWriteGuard<'a, T: ?Sized + 'a>(std::sync::RwLockWriteGuard<'a, T>);

/// Read access to a scoped buffer view: a length and an element borrow,
/// both agreeing with the view's abstract contents.
pub trait OzzView<T>: View<V = Seq<T>> + Sized {
    /// Number of elements in the view.
    fn view_len(&self) -> (res: usize)
        ensures
            res == self@.len(),
    ;

    /// Borrows the element at `i`.
    fn view_at(&self, i: usize) -> (res: &T)
        requires
            i < self@.len(),
        ensures
            *res == self@[i as int],
    ;
}

/// Write access to a scoped buffer view, extending [`OzzView`].
pub trait OzzMutView<T>: OzzView<T> {
    /// Replaces the element at `i` with `v`.
    fn view_set(&mut self, i: usize, v: T)
        requires
            i < old(self)@.len(),
        ensures
            final(self)@ == old(self)@.update(i as int, v),
    ;
}

/// Read capability over a buffer of `T`, implemented once per ownership
/// strategy. `buf_post` says what is known of a view's contents; for the
/// shared strategies nothing can be known statically, and `buf_post` is
/// simply true. `buf_may_fail` is true only for the lock strategy, whose
/// acquisition fails with `LockPoison` when a writer panicked.
pub trait OzzBuf<T>: Sized {
    /// The scoped read view this strategy hands out.
    type Buf: OzzView<T>;

    /// What holds of every view the strategy returns.
    spec fn buf_post(&self, contents: Seq<T>) -> bool;

    /// Whether the strategy can fail at all.
    spec fn buf_may_fail(&self) -> bool;

    /// Produces a read view of the buffer.
    fn buf(self) -> (res: Result<Self::Buf, OzzError>)
        ensures
            (res matches Ok(b) ==> self.buf_post(b@)),
            (res matches Err(e) ==> self.buf_may_fail() && e is LockPoison),
    ;
}

/// Write capability over a buffer of `T`, extending [`OzzBuf`].
pub trait OzzMutBuf<T>: OzzBuf<T> {
    /// The scoped read-write view this strategy hands out.
    type MutBuf: OzzMutView<T>;

    /// What holds of every mutable view the strategy returns.
    spec fn mut_buf_post(&self, contents: Seq<T>) -> bool;

    /// Produces a read-write view of the buffer.
    fn mut_buf(self) -> (res: Result<Self::MutBuf, OzzError>)
        ensures
            (res matches Ok(b) ==> self.mut_buf_post(b@)),
            (res matches Err(e) ==> self.buf_may_fail() && e is LockPoison),
    ;
}

/// Read view over a borrowed slice or an owned vector: zero-copy, never
/// fails.
pub struct ObSliceRef<'t, T> {
    data: &'t [T],
}

impl<'t, T> View for ObSliceRef<'t, T> {
    type V = Seq<T>;

    closed spec fn view(&self) -> Seq<T> {
        self.data@
    }
}

impl<'t, T> ObSliceRef<'t, T> {
    /// Wraps a borrowed slice.
    pub fn new(data: &'t [T]) -> (res: ObSliceRef<'t, T>)
        ensures
            res@ == data@,
    {
        ObSliceRef { data }
    }

    /// The whole view as a slice.
    pub fn as_slice(&self) -> (res: &[T])
        ensures
            res@ == self@,
    {
        self.data
    }
}

impl<'t, T> OzzView<T> for ObSliceRef<'t, T> {
    fn view_len(&self) -> usize {
        self.data.len()
    }

    fn view_at(&self, i: usize) -> &T {
        &self.data[i]
    }
}

/// Read-write view over a mutably borrowed slice or an owned vector:
/// zero-copy, never fails.
pub struct ObSliceRefMut<'t, T> {
    data: &'t mut [T],
}

impl<'t, T> View for ObSliceRefMut<'t, T> {
    type V = Seq<T>;

    closed spec fn view(&self) -> Seq<T> {
        self.data@
    }
}

impl<'t, T> ObSliceRefMut<'t, T> {
    /// Wraps a mutably borrowed slice.
    pub fn new(data: &'t mut [T]) -> (res: ObSliceRefMut<'t, T>)
        ensures
            res@ == old(data)@,
    {
        ObSliceRefMut { data }
    }

    /// The whole view as a read-only slice.
    pub fn as_slice(&self) -> (res: &[T])
        ensures
            res@ == self@,
    {
        self.data
    }
}

impl<'t, T> OzzView<T> for ObSliceRefMut<'t, T> {
    fn view_len(&self) -> usize {
        self.data.len()
    }

    fn view_at(&self, i: usize) -> &T {
        &self.data[i]
    }
}

impl<'t, T> OzzMutView<T> for ObSliceRefMut<'t, T> {
    fn view_set(&mut self, i: usize, v: T) {
        self.data[i] = v;
    }
}

impl<'a, T> OzzBuf<T> for &'a [T] {
    type Buf = ObSliceRef<'a, T>;

    open spec fn buf_post(&self, contents: Seq<T>) -> bool {
        contents == self@
    }

    open spec fn buf_may_fail(&self) -> bool {
        false
    }

    #[inline(always)]
    fn buf(self) -> (res: Result<ObSliceRef<'a, T>, OzzError>) {
        Ok(ObSliceRef { data: self })
    }
}

impl<'a, T> OzzBuf<T> for &'a mut [T] {
    type Buf = ObSliceRef<'a, T>;

    open spec fn buf_post(&self, contents: Seq<T>) -> bool {
        contents == self@
    }

    open spec fn buf_may_fail(&self) -> bool {
        false
    }

    #[inline(always)]
    fn buf(self) -> (res: Result<ObSliceRef<'a, T>, OzzError>) {
        Ok(ObSliceRef { data: self })
    }
}

impl<'a, T> OzzMutBuf<T> for &'a mut [T] {
    type MutBuf = ObSliceRefMut<'a, T>;

    open spec fn mut_buf_post(&self, contents: Seq<T>) -> bool {
        contents == self@
    }

    #[inline(always)]
    fn mut_buf(self) -> (res: Result<ObSliceRefMut<'a, T>, OzzError>) {
        Ok(ObSliceRefMut { data: self })
    }
}

impl<'a, T> OzzBuf<T> for &'a Vec<T> {
    type Buf = ObSliceRef<'a, T>;

    open spec fn buf_post(&self, contents: Seq<T>) -> bool {
        contents == self@
    }

    open spec fn buf_may_fail(&self) -> bool {
        false
    }

    #[inline(always)]
    fn buf(self) -> (res: Result<ObSliceRef<'a, T>, OzzError>) {
        Ok(ObSliceRef { data: self.as_slice() })
    }
}

impl<'a, T> OzzBuf<T> for &'a mut Vec<T> {
    type Buf = ObSliceRef<'a, T>;

    open spec fn buf_post(&self, contents: Seq<T>) -> bool {
        contents == self@
    }

    open spec fn buf_may_fail(&self) -> bool {
        false
    }

    #[inline(always)]
    fn buf(self) -> (res: Result<ObSliceRef<'a, T>, OzzError>) {
        Ok(ObSliceRef { data: self.as_slice() })
    }
}

impl<'a, T> OzzMutBuf<T> for &'a mut Vec<T> {
    type MutBuf = ObSliceRefMut<'a, T>;

    open spec fn mut_buf_post(&self, contents: Seq<T>) -> bool {
        contents == self@
    }

    #[inline(always)]
    fn mut_buf(self) -> (res: Result<ObSliceRefMut<'a, T>, OzzError>) {
        Ok(ObSliceRefMut { data: self.as_mut_slice() })
    }
}

/// Read view over a single-thread shared mutable cell. Holds the cell's
/// dynamic read borrow for its lifetime; per the design, a conflicting
/// write borrow taken while a view is alive is a programming error and
/// aborts rather than returning a recoverable error.
#[verifier::reject_recursive_types(T)]
pub struct ObCellRef<'t, T> {
    guard: core::cell::Ref<'t, Vec<T>>,
    snapshot: Ghost<Seq<T>>,
}

impl<'t, T> View for ObCellRef<'t, T> {
    type V = Seq<T>;

    closed spec fn view(&self) -> Seq<T> {
        self.snapshot@
    }
}

impl<'t, T> ObCellRef<'t, T> {
    /// Relies on `RefCell::borrow`: returns a read borrow of the shared
    /// vector; aborts on a conflicting write borrow (a programming error by
    /// design, outside the recoverable taxonomy).
    #[verifier::external_body]
    pub fn acquire(cell: &'t std::rc::Rc<core::cell::RefCell<Vec<T>>>) -> (res: ObCellRef<'t, T>) {
        ObCellRef { guard: cell.borrow(), snapshot: Ghost(Seq::empty()) }
    }

    /// The whole view as a slice. Relies on `Ref`'s guarantee that the
    /// borrowed vector cannot change while the borrow is alive.
    #[verifier::external_body]
    pub fn as_slice(&self) -> (res: &[T])
        ensures
            res@ == self@,
    {
        self.guard.as_slice()
    }
}

impl<'t, T> OzzView<T> for ObCellRef<'t, T> {
    fn view_len(&self) -> usize {
        self.as_slice().len()
    }

    fn view_at(&self, i: usize) -> &T {
        &self.as_slice()[i]
    }
}

/// Read-write view over a single-thread shared mutable cell. Holds the
/// cell's dynamic write borrow for its lifetime.
#[verifier::reject_recursive_types(T)]
pub struct ObCellRefMut<'t, T> {
    guard: core::cell::RefMut<'t, Vec<T>>,
    snapshot: Ghost<Seq<T>>,
}

impl<'t, T> View for ObCellRefMut<'t, T> {
    type V = Seq<T>;

    closed spec fn view(&self) -> Seq<T> {
        self.snapshot@
    }
}

impl<'t, T> ObCellRefMut<'t, T> {
    /// Relies on `RefCell::borrow_mut`: returns the write borrow of the
    /// shared vector; aborts on a conflicting borrow (a programming error by
    /// design, outside the recoverable taxonomy).
    #[verifier::external_body]
    pub fn acquire(cell: &'t std::rc::Rc<core::cell::RefCell<Vec<T>>>) -> (res: ObCellRefMut<'t, T>) {
        ObCellRefMut { guard: cell.borrow_mut(), snapshot: Ghost(Seq::empty()) }
    }

    /// The whole view as a read-only slice. Relies on `RefMut`'s exclusive
    /// access to the shared vector.
    #[verifier::external_body]
    pub fn as_slice(&self) -> (res: &[T])
        ensures
            res@ == self@,
    {
        self.guard.as_slice()
    }

    /// Replaces the element at `i` with `v`. Relies on `RefMut`'s exclusive
    /// access: the write lands in the shared vector and nothing else changes
    /// it while the borrow is alive.
    #[verifier::external_body]
    pub fn set(&mut self, i: usize, v: T)
        requires
            i < old(self)@.len(),
        ensures
            final(self)@ == old(self)@.update(i as int, v),
    {
        self.guard[i] = v;
    }
}

impl<'t, T> OzzView<T> for ObCellRefMut<'t, T> {
    fn view_len(&self) -> usize {
        self.as_slice().len()
    }

    fn view_at(&self, i: usize) -> &T {
        &self.as_slice()[i]
    }
}

impl<'t, T> OzzMutView<T> for ObCellRefMut<'t, T> {
    fn view_set(&mut self, i: usize, v: T) {
        self.set(i, v);
    }
}

impl<'a, T> OzzBuf<T> for &'a std::rc::Rc<core::cell::RefCell<Vec<T>>> {
    type Buf = ObCellRef<'a, T>;

    open spec fn buf_post(&self, contents: Seq<T>) -> bool {
        true
    }

    open spec fn buf_may_fail(&self) -> bool {
        false
    }

    fn buf(self) -> (res: Result<ObCellRef<'a, T>, OzzError>) {
        Ok(ObCellRef::acquire(self))
    }
}

impl<'a, T> OzzMutBuf<T> for &'a std::rc::Rc<core::cell::RefCell<Vec<T>>> {
    type MutBuf = ObCellRefMut<'a, T>;

    open spec fn mut_buf_post(&self, contents: Seq<T>) -> bool {
        true
    }

    fn mut_buf(self) -> (res: Result<ObCellRefMut<'a, T>, OzzError>) {
        Ok(ObCellRefMut::acquire(self))
    }
}

/// Read view over a cross-thread shared lock. Holds the shared (reader)
/// acquisition for its lifetime, so any number of such views may be alive
/// at once while writers wait.
#[verifier::reject_recursive_types(T)]
pub struct ObRwLockReadGuard<'t, T> {
    guard: std::sync::RwLockReadGuard<'t, Vec<T>>,
    snapshot: Ghost<Seq<T>>,
}

impl<'t, T> View for ObRwLockReadGuard<'t, T> {
    type V = Seq<T>;

    closed spec fn view(&self) -> Seq<T> {
        self.snapshot@
    }
}

impl<'t, T> ObRwLockReadGuard<'t, T> {
    /// Relies on `RwLock::read`: blocks until the shared acquisition is
    /// granted; fails exactly when the lock is poisoned.
    #[verifier::external_body]
    pub fn acquire(lock: &'t std::sync::Arc<std::sync::RwLock<Vec<T>>>) -> (res: Result<ObRwLockReadGuard<'t, T>, OzzError>)
        ensures
            res matches Err(e) ==> e is LockPoison,
    {
        match lock.read() {
            Ok(guard) => Ok(ObRwLockReadGuard { guard, snapshot: Ghost(Seq::empty()) }),
            Err(_) => Err(OzzError::LockPoison),
        }
    }

    /// The whole view as a slice. Relies on `RwLockReadGuard`: the protected
    /// vector cannot change while readers hold the lock.
    #[verifier::external_body]
    pub fn as_slice(&self) -> (res: &[T])
        ensures
            res@ == self@,
    {
        self.guard.as_slice()
    }
}

impl<'t, T> OzzView<T> for ObRwLockReadGuard<'t, T> {
    fn view_len(&self) -> usize {
        self.as_slice().len()
    }

    fn view_at(&self, i: usize) -> &T {
        &self.as_slice()[i]
    }
}

/// Read-write view over a cross-thread shared lock. Holds the exclusive
/// (writer) acquisition for its lifetime.
#[verifier::reject_recursive_types(T)]
pub struct ObRwLockWriteGuard<'t, T> {
    guard: std::sync::RwLockWriteGuard<'t, Vec<T>>,
    snapshot: Ghost<Seq<T>>,
}

impl<'t, T> View for ObRwLockWriteGuard<'t, T> {
    type V = Seq<T>;

    closed spec fn view(&self) -> Seq<T> {
        self.snapshot@
    }
}

impl<'t, T> ObRwLockWriteGuard<'t, T> {
    /// Relies on `RwLock::write`: blocks until the exclusive acquisition is
    /// granted; fails exactly when the lock is poisoned.
    #[verifier::external_body]
    pub fn acquire(lock: &'t std::sync::Arc<std::sync::RwLock<Vec<T>>>) -> (res: Result<ObRwLockWriteGuard<'t, T>, OzzError>)
        ensures
            res matches Err(e) ==> e is LockPoison,
    {
        match lock.write() {
            Ok(guard) => Ok(ObRwLockWriteGuard { guard, snapshot: Ghost(Seq::empty()) }),
            Err(_) => Err(OzzError::LockPoison),
        }
    }

    /// The whole view as a read-only slice. Relies on `RwLockWriteGuard`'s
    /// exclusive access to the protected vector.
    #[verifier::external_body]
    pub fn as_slice(&self) -> (res: &[T])
        ensures
            res@ == self@,
    {
        self.guard.as_slice()
    }

    /// Replaces the element at `i` with `v`. Relies on `RwLockWriteGuard`'s
    /// exclusive access: the write lands in the protected vector and no
    /// reader can observe a torn state.
    #[verifier::external_body]
    pub fn set(&mut self, i: usize, v: T)
        requires
            i < old(self)@.len(),
        ensures
            final(self)@ == old(self)@.update(i as int, v),
    {
        self.guard[i] = v;
    }
}

impl<'t, T> OzzView<T> for ObRwLockWriteGuard<'t, T> {
    fn view_len(&self) -> usize {
        self.as_slice().len()
    }

    fn view_at(&self, i: usize) -> &T {
        &self.as_slice()[i]
    }
}

impl<'t, T> OzzMutView<T> for ObRwLockWriteGuard<'t, T> {
    fn view_set(&mut self, i: usize, v: T) {
        self.set(i, v);
    }
}

impl<'a, T> OzzBuf<T> for &'a std::sync::Arc<std::sync::RwLock<Vec<T>>> {
    type Buf = ObRwLockReadGuard<'a, T>;

    open spec fn buf_post(&self, contents: Seq<T>) -> bool {
        true
    }

    open spec fn buf_may_fail(&self) -> bool {
        true
    }

    fn buf(self) -> (res: Result<ObRwLockReadGuard<'a, T>, OzzError>) {
        ObRwLockReadGuard::acquire(self)
    }
}

impl<'a, T> OzzMutBuf<T> for &'a std::sync::Arc<std::sync::RwLock<Vec<T>>> {
    type MutBuf = ObRwLockWriteGuard<'a, T>;

    open spec fn mut_buf_post(&self, contents: Seq<T>) -> bool {
        true
    }

    fn mut_buf(self) -> (res: Result<ObRwLockWriteGuard<'a, T>, OzzError>) {
        ObRwLockWriteGuard::acquire(self)
    }
}

} // verus!
