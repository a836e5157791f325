//! A set-once cell for handles that are initialized at startup and read
//! everywhere after.

use std::sync::OnceLock;
use vstd::prelude::*;

verus! {

#[verifier::external_type_specification]
#[verifier::external_body]
#[verifier::reject_recursive_types(T)]
pub struct ExOnceLock<T>(OnceLock<T>);

/// Relies on `std::sync::OnceLock::new`: an empty cell.
pub assume_specification<T>[ OnceLock::<T>::new ]() -> OnceLock<T>;

/// Relies on `std::sync::OnceLock::set`: stores the value if the cell was
/// empty; hands the value back in `Err` when the cell already held one.
pub assume_specification<T>[ OnceLock::<T>::set ](lock: &OnceLock<T>, value: T) -> (r: Result<
    (),
    T,
>)
    ensures
        r matches Err(v) ==> v == value,
;

/// Relies on `std::sync::OnceLock::get`: the stored value, or `None` while
/// the cell is empty.
pub assume_specification<'a, T>[ OnceLock::<T>::get ](lock: &'a OnceLock<T>) -> Option<&'a T>;

/// A set-once cell: initialized exactly once, then shared. The cell keeps
/// the first value; later `init` calls are ignored.
#[verifier::reject_recursive_types(T)]
pub struct UnwrapOnceLock<T> {
    cell: OnceLock<T>,
}

impl<T> UnwrapOnceLock<T> {
    /// An empty cell.
    pub fn new() -> UnwrapOnceLock<T> {
        UnwrapOnceLock { cell: OnceLock::new() }
    }

    /// Stores the value on the first call; later calls leave the first
    /// value in place.
    pub fn init(&self, val: T) {
        let r = self.cell.set(val);
        match r {
            Ok(_) => {},
            Err(_) => {},
        }
    }

    /// The stored value, or `None` while uninitialized.
    pub fn get(&self) -> Option<&T> {
        self.cell.get()
    }
}

} // verus!
