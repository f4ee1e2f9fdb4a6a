//! A table of byte buffers addressed by handles, shared between the library and its host.
//!
//! The table records the size of every live buffer, so a release with a wrong size or of a
//! buffer that is not live is refused and leaves every buffer as it was.
use vstd::prelude::*;

verus! {

/// The buffers handed out to a host, by handle; a released slot stays empty for good.
pub struct Arena {
    slots: Vec<Option<Vec<u8>>>,
}

/// A buffer of `n` zero bytes.
pub open spec fn zeros(n: nat) -> Seq<u8> {
    Seq::new(n, |i: int| 0u8)
}

/// The table after a buffer of `n` bytes is allocated.
pub open spec fn allocated(a: Seq<Option<Seq<u8>>>, n: nat) -> Seq<Option<Seq<u8>>> {
    a.push(Some(zeros(n)))
}

/// Whether handle `h` names a live buffer of exactly `n` bytes.
pub open spec fn releasable(a: Seq<Option<Seq<u8>>>, h: int, n: nat) -> bool {
    &&& 0 <= h < a.len()
    &&& a[h] is Some
    &&& a[h]->Some_0.len() == n
}

/// The table after a release of handle `h` with size `n`: refused releases change nothing.
pub open spec fn released(a: Seq<Option<Seq<u8>>>, h: int, n: nat) -> Seq<Option<Seq<u8>>> {
    if releasable(a, h, n) {
        a.update(h, None)
    } else {
        a
    }
}

/// The live buffer behind a handle, if there is one.
pub open spec fn live(a: Seq<Option<Seq<u8>>>, h: int) -> Option<Seq<u8>> {
    if 0 <= h < a.len() {
        a[h]
    } else {
        None
    }
}

/// A buffer with `b` written over it from `off` on.
pub open spec fn overwritten(buf: Seq<u8>, off: int, b: Seq<u8>) -> Seq<u8> {
    Seq::new(buf.len(), |j: int| if off <= j < off + b.len() { b[j - off] } else { buf[j] })
}

/// Whether `b` fits into the live buffer `h` from `off` on.
pub open spec fn writable(a: Seq<Option<Seq<u8>>>, h: int, off: nat, b: Seq<u8>) -> bool {
    live(a, h) is Some && off + b.len() <= live(a, h)->Some_0.len()
}

/// The first `n` bytes of the live buffer `h`, when it has at least `n` bytes.
pub open spec fn prefix(a: Seq<Option<Seq<u8>>>, h: int, n: nat) -> Option<Seq<u8>> {
    if live(a, h) is Some && n <= live(a, h)->Some_0.len() {
        Some(live(a, h)->Some_0.take(n as int))
    } else {
        None
    }
}

impl View for Arena {
    type V = Seq<Option<Seq<u8>>>;

    closed spec fn view(&self) -> Seq<Option<Seq<u8>>> {
        Seq::new(
            self.slots@.len(),
            |i: int|
                match self.slots@[i] {
                    Some(v) => Some(v@),
                    None => None,
                },
        )
    }
}

impl Arena {
    /// A table with no buffers.
    pub fn new() -> (r: Arena)
        ensures
            r@ == Seq::<Option<Seq<u8>>>::empty(),
    {
        let r = Arena { slots: Vec::new() };
        assert(r@ =~= Seq::<Option<Seq<u8>>>::empty());
        r
    }

    /// Allocates a zeroed buffer of `size` bytes and returns its handle.
    pub fn allocate(&mut self, size: usize) -> (r: usize)
        requires
            old(self)@.len() < usize::MAX,
        ensures
            r == old(self)@.len(),
            final(self)@ == allocated(old(self)@, size as nat),
    {
        let ghost before = self@;
        let buf: Vec<u8> = vec![0u8; size];
        assert(buf@ =~= zeros(size as nat));
        let h = self.slots.len();
        self.slots.push(Some(buf));
        assert(self@ =~= allocated(before, size as nat));
        h
    }

    /// Takes ownership of a finished buffer and returns its handle.
    pub fn adopt(&mut self, bytes: Vec<u8>) -> (r: usize)
        requires
            old(self)@.len() < usize::MAX,
        ensures
            r == old(self)@.len(),
            final(self)@ == old(self)@.push(Some(bytes@)),
    {
        let ghost before = self@;
        let ghost b = bytes@;
        let h = self.slots.len();
        self.slots.push(Some(bytes));
        assert(self@ =~= before.push(Some(b)));
        h
    }

    /// Number of handles given out so far.
    pub fn handle_count(&self) -> (r: usize)
        ensures
            r == self@.len(),
    {
        self.slots.len()
    }

    /// Releases the buffer `handle` when it is live and exactly `size` bytes long; otherwise
    /// refuses, and changes nothing.
    pub fn release(&mut self, handle: usize, size: usize) -> (r: bool)
        ensures
            r == releasable(old(self)@, handle as int, size as nat),
            final(self)@ == released(old(self)@, handle as int, size as nat),
    {
        let ghost before = self@;
        if handle >= self.slots.len() {
            return false;
        }
        let ok = match &self.slots[handle] {
            Some(v) => v.len() == size,
            None => false,
        };
        if ok {
            self.slots.set(handle, None);
            assert(self@ =~= before.update(handle as int, None));
        }
        ok
    }

    /// The live buffer behind `handle`, if any.
    pub fn contents(&self, handle: usize) -> (r: Option<&Vec<u8>>)
        ensures
            match r {
                Some(v) => live(self@, handle as int) == Some(v@),
                None => live(self@, handle as int) is None,
            },
    {
        if handle >= self.slots.len() {
            return None;
        }
        match &self.slots[handle] {
            Some(v) => Some(v),
            None => None,
        }
    }

    /// A copy of the first `n` bytes of the live buffer `handle`, if it has that many.
    pub fn read_prefix(&self, handle: usize, n: usize) -> (r: Option<Vec<u8>>)
        ensures
            match r {
                Some(v) => prefix(self@, handle as int, n as nat) == Some(v@),
                None => prefix(self@, handle as int, n as nat) is None,
            },
    {
        match self.contents(handle) {
            Some(v) => {
                if n > v.len() {
                    return None;
                }
                let mut r: Vec<u8> = Vec::new();
                let mut i: usize = 0;
                while i < n
                    invariant
                        i <= n <= v@.len(),
                        r@ == v@.take(i as int),
                    decreases n - i,
                {
                    r.push(v[i]);
                    assert(r@ =~= v@.take(i as int + 1));
                    i = i + 1;
                }
                Some(r)
            },
            None => None,
        }
    }

    /// Copies `bytes` into the live buffer `handle` from `offset` on, when they fit;
    /// otherwise refuses, and changes nothing.
    pub fn write(&mut self, handle: usize, offset: usize, bytes: &[u8]) -> (r: bool)
        ensures
            r == writable(old(self)@, handle as int, offset as nat, bytes@),
            r ==> final(self)@ == old(self)@.update(
                handle as int,
                Some(overwritten(live(old(self)@, handle as int)->Some_0, offset as int, bytes@)),
            ),
            !r ==> final(self)@ == old(self)@,
    {
        let ghost before = self@;
        let fresh = match self.contents(handle) {
            Some(v) => {
                if offset > v.len() || bytes.len() > v.len() - offset {
                    return false;
                }
                let mut r: Vec<u8> = Vec::new();
                let mut j: usize = 0;
                while j < v.len()
                    invariant
                        j <= v@.len(),
                        offset + bytes@.len() <= v@.len(),
                        r@ =~= overwritten(v@, offset as int, bytes@).take(j as int),
                    decreases v.len() - j,
                {
                    if offset <= j && j < offset + bytes.len() {
                        r.push(bytes[j - offset]);
                    } else {
                        r.push(v[j]);
                    }
                    assert(r@ =~= overwritten(v@, offset as int, bytes@).take(j as int + 1));
                    j = j + 1;
                }
                assert(r@ =~= overwritten(v@, offset as int, bytes@));
                r
            },
            None => {
                return false;
            },
        };
        self.slots.set(handle, Some(fresh));
        assert(self@ =~= before.update(
            handle as int,
            Some(overwritten(live(before, handle as int)->Some_0, offset as int, bytes@)),
        ));
        true
    }
}

/// Releasing a freshly allocated buffer with its own size succeeds, empties its slot and
/// leaves every other buffer as it was; a release with any other size, or a second
/// release, is refused and changes nothing.
pub proof fn lemma_release_after_allocate(a: Seq<Option<Seq<u8>>>, n: nat, m: nat)
    ensures
        releasable(allocated(a, n), a.len() as int, n),
        released(allocated(a, n), a.len() as int, n) == a.push(None),
        forall|i: int|
            0 <= i < a.len() ==> #[trigger] released(allocated(a, n), a.len() as int, n)[i]
                == a[i],
        m != n ==> released(allocated(a, n), a.len() as int, m) == allocated(a, n),
        released(released(allocated(a, n), a.len() as int, n), a.len() as int, n) == a.push(
            None,
        ),
{
    let b = allocated(a, n);
    assert(b[a.len() as int] == Some(zeros(n)));
    assert(b.update(a.len() as int, None) =~= a.push(None));
}

} // verus!
