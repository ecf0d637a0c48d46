//! Holders of state that is shared across the kernel.
//!
//! The kernel runs on one core. Its locks are critical sections with
//! interrupts masked, so a value behind one is reached by exactly one piece
//! of code at a time: here, by whoever holds the exclusive reference.

use vstd::prelude::*;

verus! {

/// A cell that is set at most once.
pub struct OnceCell<T> {
    data: Option<T>,
}

impl<T> OnceCell<T> {
    /// The value of the cell, once it is set.
    pub closed spec fn view(&self) -> Option<T> {
        self.data
    }

    /// An empty cell.
    pub fn new() -> (r: Self)
        ensures
            r@ is None,
    {
        Self { data: None }
    }

    /// Sets the cell, which must be empty.
    pub fn set(&mut self, value: T)
        requires
            old(self)@ is None,
        ensures
            final(self)@ == Some(value),
    {
        self.data = Some(value);
    }

    /// The value of the cell, if it is set.
    pub fn get(&self) -> (r: Option<&T>)
        ensures
            r.is_some() == self@.is_some(),
            r.is_some() ==> *r.unwrap() == self@.unwrap(),
    {
        self.data.as_ref()
    }

    /// Whether the cell is set.
    pub fn is_set(&self) -> (r: bool)
        ensures
            r == self@.is_some(),
    {
        self.data.is_some()
    }
}

/// A holder that gives exclusive access to its value.
pub trait Mutex {
    /// The type of the value.
    type Data;

    /// The value that is held.
    spec fn held(&self) -> Self::Data;

    /// Exclusive access to the value, for as long as the reference lives.
    fn lock(&mut self) -> (r: &mut Self::Data)
        ensures
            *r == old(self).held(),
            final(self).held() == *final(r),
    ;
}

/// A holder whose value can be read at any time and written while the
/// holder allows it.
pub trait ReadWriteEx {
    /// The type of the value.
    type Data;

    /// The value that is held.
    spec fn stored(&self) -> Self::Data;

    /// Whether the value may still be written.
    spec fn writable(&self) -> bool;

    /// Exclusive access to the value. The holder must still allow writes.
    fn write(&mut self) -> (r: &mut Self::Data)
        requires
            old(self).writable(),
        ensures
            *r == old(self).stored(),
            final(self).stored() == *final(r),
            final(self).writable(),
    ;

    /// Shared access to the value.
    fn read(&self) -> (r: &Self::Data)
        ensures
            *r == self.stored(),
    ;
}

/// A lock for a single core without interrupts in play: taking it does
/// nothing but hand out the value.
pub struct NullLock<T> {
    data: T,
}

impl<T> NullLock<T> {
    /// The value behind the lock.
    pub closed spec fn view(&self) -> T {
        self.data
    }

    /// A lock around `data`.
    pub fn new(data: T) -> (r: Self)
        ensures
            r@ == data,
    {
        Self { data }
    }

    /// The value, taken out of the lock.
    pub fn into_inner(self) -> (r: T)
        ensures
            r == self@,
    {
        self.data
    }
}

impl<T> Mutex for NullLock<T> {
    type Data = T;

    open spec fn held(&self) -> T {
        self@
    }

    fn lock(&mut self) -> (r: &mut T) {
        &mut self.data
    }
}

impl<T> ReadWriteEx for NullLock<T> {
    type Data = T;

    open spec fn stored(&self) -> T {
        self@
    }

    open spec fn writable(&self) -> bool {
        true
    }

    fn write(&mut self) -> (r: &mut T) {
        &mut self.data
    }

    fn read(&self) -> (r: &T) {
        &self.data
    }
}

/// A lock for a single core: a critical section with interrupts masked.
/// The masking is the caller's part; the lock hands out the value.
pub struct IRQSafeNullLock<T> {
    data: T,
}

impl<T> IRQSafeNullLock<T> {
    /// The value behind the lock.
    pub closed spec fn view(&self) -> T {
        self.data
    }

    /// A lock around `data`.
    pub fn new(data: T) -> (r: Self)
        ensures
            r@ == data,
    {
        Self { data }
    }

    /// The value, taken out of the lock.
    pub fn into_inner(self) -> (r: T)
        ensures
            r == self@,
    {
        self.data
    }
}

impl<T> Mutex for IRQSafeNullLock<T> {
    type Data = T;

    open spec fn held(&self) -> T {
        self@
    }

    fn lock(&mut self) -> (r: &mut T) {
        &mut self.data
    }
}

impl<T> ReadWriteEx for IRQSafeNullLock<T> {
    type Data = T;

    open spec fn stored(&self) -> T {
        self@
    }

    open spec fn writable(&self) -> bool {
        true
    }

    fn write(&mut self) -> (r: &mut T) {
        &mut self.data
    }

    fn read(&self) -> (r: &T) {
        &self.data
    }
}

/// A holder for state that is written during early boot and only read
/// afterwards: once it is sealed, it allows no write.
pub struct InitStateLock<T> {
    data: T,
    sealed: bool,
}

impl<T> InitStateLock<T> {
    /// The value behind the lock.
    pub closed spec fn view(&self) -> T {
        self.data
    }

    /// Whether early boot is over for this holder.
    pub closed spec fn spec_sealed(&self) -> bool {
        self.sealed
    }

    /// An unsealed holder of `data`.
    pub fn new(data: T) -> (r: Self)
        ensures
            r@ == data,
            !r.spec_sealed(),
    {
        Self { data, sealed: false }
    }

    /// Whether early boot is over for this holder.
    pub fn is_sealed(&self) -> (r: bool)
        ensures
            r == self.spec_sealed(),
    {
        self.sealed
    }

    /// Ends early boot for this holder: from now on it allows no write.
    pub fn seal(&mut self)
        ensures
            final(self).spec_sealed(),
            final(self)@ == old(self)@,
    {
        self.sealed = true;
    }
}

impl<T> ReadWriteEx for InitStateLock<T> {
    type Data = T;

    open spec fn stored(&self) -> T {
        self@
    }

    open spec fn writable(&self) -> bool {
        !self.spec_sealed()
    }

    fn write(&mut self) -> (r: &mut T) {
        &mut self.data
    }

    fn read(&self) -> (r: &T) {
        &self.data
    }
}

} // verus!
