//! Values that must not show up in output.
use vstd::prelude::*;

verus! {

/// A wrapper around a secret. However the wrapper is shown, the secret is not.
pub struct Sensitive<T>(T);

impl<T> Sensitive<T> {
    /// The secret.
    pub closed spec fn secret(self) -> T {
        self.0
    }

    /// Wraps a secret.
    pub fn new(inner: T) -> (r: Self)
        ensures
            r.secret() == inner,
    {
        Sensitive(inner)
    }

    /// The secret, by reference.
    pub fn inner(&self) -> (r: &T)
        ensures
            *r == self.secret(),
    {
        &self.0
    }

    /// The secret, by value.
    pub fn into_inner(self) -> (r: T)
        ensures
            r == self.secret(),
    {
        self.0
    }

    /// How the wrapper is shown to users and written to files: the same
    /// whatever it holds.
    pub fn display(&self) -> (r: String)
        ensures
            r@ == "***"@,
    {
        "***".to_owned()
    }

    /// How the wrapper is shown to developers: the same whatever it holds.
    pub fn debug(&self) -> (r: String)
        ensures
            r@ == "Sensitive(***)"@,
    {
        "Sensitive(***)".to_owned()
    }
}

impl<T: Clone> Clone for Sensitive<T> {
    fn clone(&self) -> (r: Self)
        ensures
            cloned(self.secret(), r.secret()),
    {
        Sensitive(self.0.clone())
    }
}

impl<T: Default> Default for Sensitive<T> {
    fn default() -> (r: Self)
        ensures
            call_ensures(T::default, (), r.secret()),
    {
        Sensitive(T::default())
    }
}

} // verus!
