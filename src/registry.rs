//! An arena of long-lived values addressed by opaque non-zero handles, so
//! that a host across a foreign boundary can refer to a context cheaply
//! without holding a pointer. Handle 0 never names a value.
use vstd::prelude::*;

verus! {

/// What `h` names among `slots`: slot `h - 1`, if there is one.
pub open spec fn lookup<T>(slots: Seq<Option<T>>, h: u64) -> Option<T> {
    if 1 <= h && h <= slots.len() {
        slots[h - 1]
    } else {
        None
    }
}

/// Slots holding values; a value's handle is its slot number plus one.
pub struct ContextRegistry<T> {
    slots: Vec<Option<T>>,
}

impl<T> ContextRegistry<T> {
    pub closed spec fn slots(&self) -> Seq<Option<T>> {
        self.slots@
    }

    /// An empty registry.
    pub fn new() -> (r: Self)
        ensures
            forall|h: u64| lookup(r.slots(), h) is None,
    {
        ContextRegistry { slots: Vec::new() }
    }

    /// Stores `value` under a handle that named nothing, and returns that
    /// handle. Every other handle keeps what it named.
    pub fn insert(&mut self, value: T) -> (h: u64)
        ensures
            h != 0,
            lookup(old(self).slots(), h) is None,
            lookup(final(self).slots(), h) == Some(value),
            forall|k: u64| k != h ==> lookup(final(self).slots(), k) == lookup(old(self).slots(), k),
    {
        let mut i: usize = 0;
        while i < self.slots.len()
            invariant
                i <= self.slots@.len(),
                self.slots@ == old(self).slots@,
                forall|j: int| 0 <= j < i ==> self.slots@[j] is Some,
            decreases self.slots@.len() - i,
        {
            if self.slots[i].is_none() {
                self.slots.remove(i);
                self.slots.insert(i, Some(value));
                assert(self.slots@ =~= old(self).slots@.update(i as int, Some(value)));
                return (i as u64) + 1;
            }
            i = i + 1;
        }
        self.slots.push(Some(value));
        let n = self.slots.len();
        assert(i < n);
        (i as u64) + 1
    }

    /// Takes out the value that `h` names, if any; afterwards `h` names
    /// nothing, and every other handle keeps what it named.
    pub fn remove(&mut self, h: u64) -> (r: Option<T>)
        ensures
            r == lookup(old(self).slots(), h),
            lookup(final(self).slots(), h) is None,
            forall|k: u64| k != h ==> lookup(final(self).slots(), k) == lookup(old(self).slots(), k),
    {
        if h == 0 || h > self.slots.len() as u64 {
            return None;
        }
        let i = (h - 1) as usize;
        let r = self.slots.remove(i);
        self.slots.insert(i, None);
        assert(self.slots@ =~= old(self).slots@.update(i as int, None));
        r
    }

    /// Puts `value` back under `h`, which must have been handed out and
    /// name nothing now; otherwise `value` is handed back and nothing
    /// changes.
    pub fn restore(&mut self, h: u64, value: T) -> (r: Result<(), T>)
        ensures
            (1 <= h <= old(self).slots().len() && lookup(old(self).slots(), h) is None) ==> (r is Ok
                && lookup(final(self).slots(), h) == Some(value) && forall|k: u64|
                k != h ==> lookup(final(self).slots(), k) == lookup(old(self).slots(), k)),
            !(1 <= h <= old(self).slots().len() && lookup(old(self).slots(), h) is None) ==> (r
                == Err::<(), T>(value) && final(self).slots() == old(self).slots()),
    {
        if h == 0 || h > self.slots.len() as u64 {
            return Err(value);
        }
        let i = (h - 1) as usize;
        if self.slots[i].is_some() {
            return Err(value);
        }
        self.slots.remove(i);
        self.slots.insert(i, Some(value));
        assert(self.slots@ =~= old(self).slots@.update(i as int, Some(value)));
        Ok(())
    }
}

} // verus!
