use vstd::prelude::*;

verus! {

/// The width that a link's nonce window has unless it is given another.
pub const DEFAULT_WINDOW_WIDTH: usize = 65536;

/// No two entries of `s` that lie less than `width` places apart are equal.
pub open spec fn distinct_within(s: Seq<u128>, width: nat) -> bool {
    forall|i: int, j: int| 0 <= i < j < s.len() && j - i < width ==> s[i] != s[j]
}

/// The last `width` entries of `s`, or all of `s` where it has fewer.
pub open spec fn last_of(s: Seq<u128>, width: nat) -> Seq<u128> {
    if s.len() <= width {
        s
    } else {
        s.skip(s.len() - width)
    }
}

/// The replay filter of one neighbour: it remembers the nonces that it
/// admitted last, as many as it is wide, and refuses those.
pub struct NonceWindow {
    width: usize,
    recent: Vec<u128>,
    history: Ghost<Seq<u128>>,
}

impl NonceWindow {
    #[verifier::type_invariant]
    spec fn well_formed(&self) -> bool {
        &&& self.recent@ == last_of(self.history@, self.width as nat)
        &&& distinct_within(self.history@, self.width as nat)
    }

    /// How many nonces the window remembers.
    pub closed spec fn width(&self) -> nat {
        self.width as nat
    }

    /// Every nonce that was admitted, oldest first.
    pub closed spec fn admitted(&self) -> Seq<u128> {
        self.history@
    }

    /// The nonces that the window remembers, oldest first.
    pub open spec fn window(&self) -> Seq<u128> {
        last_of(self.admitted(), self.width())
    }

    /// An empty window of the given width.
    pub fn new(width: usize) -> (window: NonceWindow)
        ensures
            window.width() == width,
            window.admitted() == Seq::<u128>::empty(),
    {
        NonceWindow { width, recent: Vec::new(), history: Ghost(Seq::empty()) }
    }

    /// How many nonces the window remembers at most. Within that width no
    /// nonce has been admitted twice.
    pub fn capacity(&self) -> (width: usize)
        ensures
            width == self.width(),
            distinct_within(self.admitted(), self.width()),
    {
        proof {
            use_type_invariant(self);
        }
        self.width
    }

    /// How many nonces the window remembers now.
    pub fn len(&self) -> (n: usize)
        ensures
            n == self.window().len(),
            n <= self.width(),
    {
        proof {
            use_type_invariant(self);
        }
        self.recent.len()
    }

    /// Whether the window remembers `nonce`, so that `offer` would refuse it.
    pub fn has_seen(&self, nonce: u128) -> (seen: bool)
        ensures
            seen == self.window().contains(nonce),
    {
        proof {
            use_type_invariant(self);
        }
        let mut i: usize = 0;
        while i < self.recent.len()
            invariant
                i <= self.recent@.len(),
                self.recent@ == self.window(),
                forall|k: int| 0 <= k < i ==> self.recent@[k] != nonce,
            decreases self.recent@.len() - i,
        {
            if self.recent[i] == nonce {
                assert(self.recent@[i as int] == nonce);
                return true;
            }
            i += 1;
        }
        false
    }

    /// Offers a nonce to the window. It is admitted unless the window
    /// remembers it; an admitted nonce is remembered in place of the oldest.
    /// Whatever was offered, no nonce has been admitted twice within the
    /// width of the window.
    pub fn offer(&mut self, nonce: u128) -> (fresh: bool)
        ensures
            final(self).width() == old(self).width(),
            fresh == !old(self).window().contains(nonce),
            final(self).admitted() == if fresh {
                old(self).admitted().push(nonce)
            } else {
                old(self).admitted()
            },
            distinct_within(final(self).admitted(), final(self).width()),
    {
        proof {
            use_type_invariant(&*self);
        }
        let n = self.recent.len();
        let full = n >= self.width;
        let mut next: Vec<u128> = Vec::new();
        let mut i: usize = 0;
        while i < n
            invariant
                i <= n,
                n == self.recent@.len(),
                full == (n >= self.width),
                self.recent@ == last_of(self.history@, self.width as nat),
                distinct_within(self.history@, self.width as nat),
                *self == *old(self),
                forall|k: int| 0 <= k < i ==> self.recent@[k] != nonce,
                next@ == if full {
                    self.recent@.subrange(if i == 0 { 0int } else { 1int }, i as int)
                } else {
                    self.recent@.subrange(0, i as int)
                },
            decreases n - i,
        {
            if self.recent[i] == nonce {
                assert(self.recent@[i as int] == nonce);
                return false;
            }
            if !(full && i == 0) {
                next.push(self.recent[i]);
            }
            i += 1;
        }
        if self.width > 0 {
            next.push(nonce);
        }
        let ghost before = self.history@;
        let ghost after = before.push(nonce);
        proof {
            assert(next@ =~= last_of(after, self.width as nat));
            assert forall|a: int, b: int|
                0 <= a < b < after.len() && b - a < self.width implies after[a] != after[b] by {
                if b == before.len() {
                    let k = a - (before.len() - self.recent@.len());
                    assert(self.recent@[k] == before[a]);
                }
            }
        }
        *self = NonceWindow { width: self.width, recent: next, history: Ghost(after) };
        true
    }
}

} // verus!
