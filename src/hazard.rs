//! A hazard slot: a single address cell whose reads run as critical code, so
//! that an address read from it cannot be released while the reader uses it.
use crate::reclaim::Quiescence;
use vstd::prelude::*;

verus! {

/// An address slot. It owns nothing: what the address refers to belongs to
/// the structure built on the slot, which unlinks an address (by `swap` or a
/// compare-exchange) before handing it to `later_drop`. Each operation takes
/// the memory orderings of its atomic counterpart; here every operation is
/// exclusive, which is at least as strong as any of them.
pub struct HazardPtr {
    ptr: usize,
}

impl View for HazardPtr {
    type V = usize;

    closed spec fn view(&self) -> usize {
        self.ptr
    }
}

/// The outcome of a compare-exchange that found `stored` and expected
/// `curr`: `Ok` of the address found on a match, `Err` of it otherwise.
pub open spec fn exchange_outcome(stored: usize, curr: usize) -> Result<usize, usize> {
    if stored == curr {
        Ok(stored)
    } else {
        Err(stored)
    }
}

/// Whether `o` is a permitted outcome of a weak compare-exchange that found
/// `stored`, expected `curr` and offered `new`, leaving `after` in the slot:
/// on a match it may succeed or fail spuriously; on a mismatch it fails.
/// Either way the outcome carries the address found.
pub open spec fn weak_outcome(
    stored: usize,
    curr: usize,
    new: usize,
    o: Result<usize, usize>,
    after: usize,
) -> bool {
    match o {
        Ok(v) => v == stored && stored == curr && after == new,
        Err(v) => v == stored && after == stored,
    }
}

impl HazardPtr {
    /// A slot holding `ptr`.
    pub fn new(ptr: usize) -> (r: HazardPtr)
        ensures
            r@ == ptr,
    {
        HazardPtr { ptr }
    }

    /// Reads the address and hands it to `exec` as critical code: `exec` also
    /// sees the counter, raised by one for its duration, so nothing scheduled
    /// meanwhile is released before it returns.
    pub fn load<F, A>(&self, q: &mut Quiescence, _ord: std::sync::atomic::Ordering, exec: F) -> (r: A)
        where
            F: FnOnce(usize, &Quiescence) -> A,
        requires
            old(q)@ < usize::MAX,
            forall|g: Quiescence| g@ == old(q)@ + 1 ==> exec.requires((self@, &g)),
        ensures
            exists|g: Quiescence| g@ == old(q)@ + 1 && #[trigger] exec.ensures((self@, &g), r),
            final(q)@ == old(q)@,
    {
        q.enter();
        proof {
            assert(exec.requires((self@, &*q)));
        }
        let r = exec(self.ptr, &*q);
        q.leave();
        r
    }

    /// Writes `ptr` into the slot. Nothing is read, so nothing is guarded.
    pub fn store(&mut self, ptr: usize, _ord: std::sync::atomic::Ordering)
        ensures
            final(self)@ == ptr,
    {
        self.ptr = ptr;
    }

    /// Replaces the address by `ptr` and hands the one it held to `exec` as
    /// critical code.
    pub fn swap<F, A>(
        &mut self,
        q: &mut Quiescence,
        ptr: usize,
        _ord: std::sync::atomic::Ordering,
        exec: F,
    ) -> (r: A)
        where
            F: FnOnce(usize, &Quiescence) -> A,
        requires
            old(q)@ < usize::MAX,
            forall|g: Quiescence| g@ == old(q)@ + 1 ==> exec.requires((old(self)@, &g)),
        ensures
            exists|g: Quiescence|
                g@ == old(q)@ + 1 && #[trigger] exec.ensures((old(self)@, &g), r),
            final(self)@ == ptr,
            final(q)@ == old(q)@,
    {
        q.enter();
        let prev = self.ptr;
        self.ptr = ptr;
        let ghost g = *q;
        proof {
            assert(exec.requires((old(self)@, &g)));
        }
        let r = exec(prev, &*q);
        proof {
            assert(exec.ensures((old(self)@, &g), r));
        }
        q.leave();
        r
    }

    /// Replaces the address by `new` if it equals `curr`, and hands the
    /// address found to `exec` as critical code.
    pub fn compare_and_swap<F, A>(
        &mut self,
        q: &mut Quiescence,
        curr: usize,
        new: usize,
        _ord: std::sync::atomic::Ordering,
        exec: F,
    ) -> (r: A)
        where
            F: FnOnce(usize, &Quiescence) -> A,
        requires
            old(q)@ < usize::MAX,
            forall|g: Quiescence| g@ == old(q)@ + 1 ==> exec.requires((old(self)@, &g)),
        ensures
            exists|g: Quiescence|
                g@ == old(q)@ + 1 && #[trigger] exec.ensures((old(self)@, &g), r),
            final(self)@ == if old(self)@ == curr { new } else { old(self)@ },
            final(q)@ == old(q)@,
    {
        q.enter();
        let prev = self.ptr;
        if prev == curr {
            self.ptr = new;
        }
        let ghost g = *q;
        proof {
            assert(exec.requires((old(self)@, &g)));
        }
        let r = exec(prev, &*q);
        proof {
            assert(exec.ensures((old(self)@, &g), r));
        }
        q.leave();
        r
    }

    /// Replaces the address by `new` if it equals `curr`, and hands `exec`,
    /// as critical code, `Ok` of the address found on success or `Err` of it
    /// on failure.
    pub fn compare_exchange<F, A>(
        &mut self,
        q: &mut Quiescence,
        curr: usize,
        new: usize,
        _succ_ord: std::sync::atomic::Ordering,
        _fail_ord: std::sync::atomic::Ordering,
        exec: F,
    ) -> (r: A)
        where
            F: FnOnce(Result<usize, usize>, &Quiescence) -> A,
        requires
            old(q)@ < usize::MAX,
            forall|g: Quiescence|
                g@ == old(q)@ + 1 ==> exec.requires((Ok(old(self)@), &g)) && exec.requires(
                    (Err(old(self)@), &g),
                ),
        ensures
            final(self)@ == if old(self)@ == curr { new } else { old(self)@ },
            exists|g: Quiescence|
                g@ == old(q)@ + 1 && #[trigger] exec.ensures(
                    (exchange_outcome(old(self)@, curr), &g),
                    r,
                ),
            final(q)@ == old(q)@,
    {
        q.enter();
        let prev = self.ptr;
        let res = if prev == curr {
            self.ptr = new;
            Ok(prev)
        } else {
            Err(prev)
        };
        let ghost g = *q;
        proof {
            assert(exec.requires((Ok(old(self)@), &g)) && exec.requires((Err(old(self)@), &g)));
        }
        let r = exec(res, &*q);
        proof {
            assert(exec.ensures((res, &g), r));
        }
        q.leave();
        r
    }

    /// As `compare_exchange`, except that it may report failure, leaving
    /// the slot unchanged, even where the address found equals `curr`.
    /// Callers that need a definite outcome retry.
    pub fn compare_exchange_weak<F, A>(
        &mut self,
        q: &mut Quiescence,
        curr: usize,
        new: usize,
        _succ_ord: std::sync::atomic::Ordering,
        _fail_ord: std::sync::atomic::Ordering,
        exec: F,
    ) -> (r: A)
        where
            F: FnOnce(Result<usize, usize>, &Quiescence) -> A,
        requires
            old(q)@ < usize::MAX,
            forall|g: Quiescence|
                g@ == old(q)@ + 1 ==> exec.requires((Ok(old(self)@), &g)) && exec.requires(
                    (Err(old(self)@), &g),
                ),
        ensures
            exists|o: Result<usize, usize>, g: Quiescence|
                weak_outcome(old(self)@, curr, new, o, final(self)@) && g@ == old(q)@ + 1
                    && #[trigger] exec.ensures((o, &g), r),
            final(q)@ == old(q)@,
    {
        q.enter();
        let prev = self.ptr;
        let res = if prev == curr {
            self.ptr = new;
            Ok(prev)
        } else {
            Err(prev)
        };
        let ghost g = *q;
        proof {
            assert(exec.requires((Ok(old(self)@), &g)) && exec.requires((Err(old(self)@), &g)));
        }
        let r = exec(res, &*q);
        proof {
            assert(exec.ensures((res, &g), r));
        }
        q.leave();
        r
    }
}

} // verus!
