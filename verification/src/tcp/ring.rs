//! A byte queue of fixed capacity in a circular array.
use vstd::prelude::*;

verus! {

/// How many bytes a ring holds at most.
pub const RING_SIZE: usize = 65536;

pub struct Ring {
    buf: Vec<u8>,
    head: usize,
    len: usize,
}

impl View for Ring {
    type V = Seq<u8>;

    /// The bytes in the ring, oldest first.
    closed spec fn view(&self) -> Seq<u8> {
        Seq::new(self.len as nat, |i: int| self.buf@[(self.head + i) % (RING_SIZE as int)])
    }
}

/// How many of `offered` more bytes fit behind `held` bytes.
pub open spec fn accepted(held: nat, offered: nat) -> int {
    if held + offered <= RING_SIZE {
        offered as int
    } else {
        RING_SIZE - held
    }
}

impl Ring {
    #[verifier::type_invariant]
    spec fn valid(self) -> bool {
        &&& self.buf@.len() == RING_SIZE
        &&& self.head < RING_SIZE
        &&& self.len <= RING_SIZE
    }

    pub fn new() -> (r: Self)
        ensures
            r@ == Seq::<u8>::empty(),
    {
        let r = Ring { buf: vec![0; RING_SIZE], head: 0, len: 0 };
        assert(r@ =~= Seq::<u8>::empty());
        r
    }

    pub fn len(&self) -> (r: usize)
        ensures
            r == self@.len(),
            r <= RING_SIZE,
    {
        proof {
            use_type_invariant(self);
        }
        self.len
    }

    /// The `i`th oldest byte.
    pub fn get(&self, i: usize) -> (r: u8)
        requires
            i < self@.len(),
        ensures
            r == self@[i as int],
    {
        proof {
            use_type_invariant(self);
        }
        self.buf[(self.head + i) % RING_SIZE]
    }

    /// Appends as many of the first bytes of `data` as fit, and says how many.
    pub fn write(&mut self, data: &[u8]) -> (n: usize)
        ensures
            n == accepted(old(self)@.len(), data@.len()),
            0 <= n <= data@.len(),
            final(self)@ == old(self)@ + data@.take(n as int),
            final(self)@.len() <= RING_SIZE,
    {
        proof {
            use_type_invariant(&*self);
        }
        let space: usize = RING_SIZE - self.len;
        let n: usize = if data.len() < space { data.len() } else { space };
        let mut i: usize = 0;
        assert(data@.take(0) =~= Seq::<u8>::empty());
        assert(self@ =~= old(self)@ + data@.take(0));
        while i < n
            invariant
                i <= n,
                n <= data@.len(),
                n == accepted(old(self)@.len(), data@.len()),
                self@ == old(self)@ + data@.take(i as int),
            decreases n - i,
        {
            self.push(data[i]);
            i = i + 1;
            assert(self@ =~= old(self)@ + data@.take(i as int));
        }
        proof {
            use_type_invariant(&*self);
        }
        n
    }

    fn push(&mut self, b: u8)
        requires
            old(self)@.len() < RING_SIZE,
        ensures
            final(self)@ == old(self)@.push(b),
    {
        proof {
            use_type_invariant(&*self);
        }
        let tail: usize = (self.head + self.len) % RING_SIZE;
        self.buf[tail] = b;
        self.len = self.len + 1;
        assert(self@ =~= old(self)@.push(b));
    }

    /// A copy of `n` bytes, the first of them the `from`th oldest.
    pub fn copy_range(&self, from: usize, n: usize) -> (r: Vec<u8>)
        requires
            from + n <= self@.len(),
        ensures
            r@ == self@.subrange(from as int, from + n),
    {
        let mut out: Vec<u8> = Vec::new();
        let mut i: usize = 0;
        while i < n
            invariant
                i <= n,
                from + n <= self@.len(),
                self@.len() <= usize::MAX,
                out@ == self@.subrange(from as int, from + i),
            decreases n - i,
        {
            out.push(self.get(from + i));
            i = i + 1;
            assert(out@ =~= self@.subrange(from as int, from + i));
        }
        out
    }

    /// Removes the `n` oldest bytes.
    pub fn discard(&mut self, n: usize)
        requires
            n <= old(self)@.len(),
        ensures
            final(self)@ == old(self)@.skip(n as int),
    {
        proof {
            use_type_invariant(&*self);
        }
        self.head = (self.head + n) % RING_SIZE;
        self.len = self.len - n;
        assert(self@ =~= old(self)@.skip(n as int));
    }
}

/// A buffer takes all that is offered as long as it fits, and otherwise as much as there is room for.
pub proof fn buffers_take_what_fits(held: nat, offered: nat)
    requires
        held <= 65536,
    ensures
        accepted(held, offered) <= offered,
        held + accepted(held, offered) <= 65536,
        accepted(held, offered) == offered || held + accepted(held, offered) == 65536,
{
}


} // verus!
