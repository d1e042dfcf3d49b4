use vstd::prelude::*;

verus! {

/// A cell that is filled at most once, on first need.
pub struct LazyCell<T> {
    inner: Option<T>,
}

impl<T> View for LazyCell<T> {
    type V = Option<T>;

    closed spec fn view(&self) -> Option<T> {
        self.inner
    }
}

impl<T> LazyCell<T> {
    pub fn new() -> (r: LazyCell<T>)
        ensures
            r@ == None::<T>,
    {
        LazyCell { inner: None }
    }

    /// Fills an empty cell; hands the value back when the cell is full.
    pub fn fill(&mut self, value: T) -> (r: Result<(), T>)
        ensures
            old(self)@ is None ==> r is Ok && final(self)@ == Some(value),
            old(self)@ is Some ==> r == Err::<(), T>(value) && final(self)@ == old(self)@,
    {
        if self.inner.is_some() {
            return Err(value);
        }
        self.inner = Some(value);
        Ok(())
    }

    /// Puts `value` in the cell and hands back what it held.
    pub fn replace(&mut self, value: T) -> (r: Option<T>)
        ensures
            r == old(self)@,
            final(self)@ == Some(value),
    {
        let mut v = Some(value);
        std::mem::swap(&mut self.inner, &mut v);
        v
    }

    pub fn borrow(&self) -> (r: Option<&T>)
        ensures
            match self@ {
                Some(v) => r == Some(&v),
                None => r is None,
            },
    {
        self.inner.as_ref()
    }

    pub fn filled(&self) -> (r: bool)
        ensures
            r == (self@ is Some),
    {
        self.borrow().is_some()
    }

    pub fn borrow_mut(&mut self) -> (r: Option<&mut T>)
        ensures
            old(self)@ is Some <==> r is Some,
            r matches Some(v) ==> *v == old(self)@->Some_0,
            r matches Some(v) ==> final(self)@ == Some(*final(v)),
            r is None ==> final(self)@ == old(self)@,
    {
        self.inner.as_mut()
    }

    /// The value, filling the cell with `f()` first if it is empty.
    pub fn borrow_with<F: FnOnce() -> T>(&mut self, f: F) -> (r: &T)
        requires
            old(self)@ is None ==> f.requires(()),
        ensures
            old(self)@ is Some ==> final(self)@ == old(self)@ && *r == old(self)@->Some_0,
            old(self)@ is None ==> f.ensures((), *r) && final(self)@ == Some(*r),
    {
        if self.inner.is_none() {
            let value = f();
            let _ = self.fill(value);
        }
        self.inner.as_ref().unwrap()
    }

    /// The value, mutably, filling the cell with `f()` first if it is empty.
    pub fn borrow_mut_with<F: FnOnce() -> T>(&mut self, f: F) -> (r: &mut T)
        requires
            old(self)@ is None ==> f.requires(()),
        ensures
            old(self)@ is Some ==> *r == old(self)@->Some_0,
            old(self)@ is None ==> f.ensures((), *r),
            final(self)@ == Some(*final(r)),
    {
        if !self.filled() {
            let value = f();
            let _ = self.fill(value);
        }
        self.inner.as_mut().unwrap()
    }

    /// The value, filling the cell with what `f()` yields first if it is
    /// empty; an error of `f` leaves the cell empty and is handed back.
    pub fn try_borrow_with<E, F: FnOnce() -> Result<T, E>>(&mut self, f: F) -> (r: Result<&T, E>)
        requires
            old(self)@ is None ==> f.requires(()),
        ensures
            old(self)@ is Some ==> final(self)@ == old(self)@ && r is Ok && *r->Ok_0 == old(self)@->Some_0,
            old(self)@ is None ==> match r {
                Ok(v) => f.ensures((), Ok::<T, E>(*v)) && final(self)@ == Some(*v),
                Err(e) => f.ensures((), Err::<T, E>(e)) && final(self)@ is None,
            },
    {
        if self.inner.is_some() {
            return Ok(self.inner.as_ref().unwrap());
        }
        let value = match f() {
            Ok(v) => v,
            Err(e) => return Err(e),
        };
        let _ = self.fill(value);
        Ok(self.inner.as_ref().unwrap())
    }

    /// Like `try_borrow_with`, handing out the value mutably.
    pub fn try_borrow_mut_with<E, F: FnOnce() -> Result<T, E>>(&mut self, f: F) -> (r: Result<&mut T, E>)
        requires
            old(self)@ is None ==> f.requires(()),
        ensures
            old(self)@ is Some ==> r is Ok && *r->Ok_0 == old(self)@->Some_0 && final(self)@ == Some(*final(r->Ok_0)),
            old(self)@ is None ==> match r {
                Ok(v) => f.ensures((), Ok::<T, E>(*v)) && final(self)@ == Some(*final(v)),
                Err(e) => f.ensures((), Err::<T, E>(e)) && final(self)@ is None,
            },
    {
        if self.filled() {
            return Ok(self.inner.as_mut().unwrap());
        }
        let value = match f() {
            Ok(v) => v,
            Err(e) => return Err(e),
        };
        let _ = self.fill(value);
        Ok(self.inner.as_mut().unwrap())
    }

    pub fn into_inner(self) -> (r: Option<T>)
        ensures
            r == self@,
    {
        self.inner
    }
}

impl<T: Copy> LazyCell<T> {
    pub fn get(&self) -> (r: Option<T>)
        ensures
            r == self@,
    {
        self.inner
    }
}

pub const NONE: usize = 0;
pub const LOCK: usize = 1;
pub const SOME: usize = 2;

/// A lazily filled cell that records its fill state in a word: empty,
/// being filled, or full.
pub struct AtomicLazyCell<T> {
    inner: Option<T>,
    state: usize,
}

impl<T> View for AtomicLazyCell<T> {
    type V = Option<T>;

    closed spec fn view(&self) -> Option<T> {
        self.inner
    }
}

impl<T> AtomicLazyCell<T> {
    /// The fill state matches the contents.
    #[verifier::type_invariant]
    closed spec fn state_matches(self) -> bool {
        &&& self.state == NONE || self.state == SOME
        &&& (self.state == SOME) == (self.inner is Some)
    }

    pub fn new() -> (r: AtomicLazyCell<T>)
        ensures
            r@ == None::<T>,
    {
        AtomicLazyCell { inner: None, state: NONE }
    }

    /// Fills an empty cell; hands the value back when the cell is full.
    pub fn fill(&mut self, t: T) -> (r: Result<(), T>)
        ensures
            old(self)@ is None ==> r is Ok && final(self)@ == Some(t),
            old(self)@ is Some ==> r == Err::<(), T>(t) && final(self)@ == old(self)@,
    {
        proof {
            use_type_invariant(&*self);
        }
        if self.state != NONE {
            return Err(t);
        }
        *self = AtomicLazyCell { inner: Some(t), state: SOME };
        Ok(())
    }

    /// Puts `value` in the cell and hands back what it held.
    pub fn replace(&mut self, value: T) -> (r: Option<T>)
        ensures
            r == old(self)@,
            final(self)@ == Some(value),
    {
        proof {
            use_type_invariant(&*self);
        }
        let mut full = AtomicLazyCell { inner: Some(value), state: SOME };
        std::mem::swap(self, &mut full);
        full.inner
    }

    pub fn filled(&self) -> (r: bool)
        ensures
            r == (self@ is Some),
    {
        proof {
            use_type_invariant(self);
        }
        self.state == SOME
    }

    pub fn borrow(&self) -> (r: Option<&T>)
        ensures
            match self@ {
                Some(v) => r == Some(&v),
                None => r is None,
            },
    {
        proof {
            use_type_invariant(self);
        }
        if self.state == SOME {
            self.inner.as_ref()
        } else {
            None
        }
    }

    pub fn into_inner(self) -> (r: Option<T>)
        ensures
            r == self@,
    {
        self.inner
    }
}

impl<T: Copy> AtomicLazyCell<T> {
    pub fn get(&self) -> (r: Option<T>)
        ensures
            r == self@,
    {
        proof {
            use_type_invariant(self);
        }
        if self.state == SOME {
            self.inner
        } else {
            None
        }
    }
}

/// Filling an empty cell and then reading it gives back the value; a second
/// fill is refused and changes nothing.
pub proof fn law_fill_once<T>(c0: Option<T>, c1: Option<T>, c2: Option<T>, v: T, w: T, r1: Result<(), T>, r2: Result<(), T>)
    requires
        c0 is None,
        c0 is None ==> r1 is Ok && c1 == Some(v),
        c1 is Some ==> r2 == Err::<(), T>(w) && c2 == c1,
    ensures
        c2 == Some(v),
        r2 == Err::<(), T>(w),
{
}

} // verus!
