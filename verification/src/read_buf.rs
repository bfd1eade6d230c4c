use vstd::prelude::*;

verus! {

/// `s` with every byte at a position at or past `k` replaced by zero.
pub open spec fn zero_from(s: Seq<u8>, k: int) -> Seq<u8> {
    Seq::new(s.len(), |i: int| if i < k { s[i] } else { 0u8 })
}

/// `s` with every byte at a position in `[init, len)` replaced by zero:
/// the effect of raising the initialization cursor from `init` to `len`.
pub open spec fn fill_to(s: Seq<u8>, init: int, len: int) -> Seq<u8> {
    Seq::new(s.len(), |i: int| if init <= i < len { 0u8 } else { s[i] })
}

/// `s` with the bytes of `p` written at offset `at`.
pub open spec fn write_at(s: Seq<u8>, at: int, p: Seq<u8>) -> Seq<u8> {
    Seq::new(s.len(), |i: int| if at <= i < at + p.len() { p[i - at] } else { s[i] })
}

/// Raising the cursor is idempotent: after `as_init_to` has zero-filled the
/// region up to `len1` and raised the cursor accordingly, a second call with
/// the same or a smaller `len2` leaves the region exactly as it was — no byte
/// is re-zeroed and the cursor does not move.
pub proof fn lemma_as_init_to_idempotent(s: Seq<u8>, init: int, len1: int, len2: int)
    requires
        0 <= init <= s.len(),
        0 <= len2 <= len1 <= s.len(),
    ensures
        ({
            let once = fill_to(s, init, len1);
            let cursor = if len1 > init { len1 } else { init };
            &&& fill_to(once, cursor, len2) == once
            &&& (if len2 > cursor { len2 } else { cursor }) == cursor
        }),
{
    let once = fill_to(s, init, len1);
    let cursor = if len1 > init { len1 } else { init };
    assert(fill_to(once, cursor, len2) =~= once);
}

/// Round trip: writing a pattern at the start of the region through the raw
/// view and then declaring that many bytes initialized yields the pattern
/// back, exactly, as the leading part of the initialized prefix.
pub proof fn lemma_write_round_trip(s: Seq<u8>, p: Seq<u8>, init: int)
    requires
        0 <= init <= s.len(),
        p.len() <= s.len(),
    ensures
        ({
            let after = write_at(s, 0, p);
            let cursor = if p.len() as int > init { p.len() as int } else { init };
            &&& p.len() <= cursor <= after.len()
            &&& after.subrange(0, cursor).subrange(0, p.len() as int) == p
        }),
{
    let after = write_at(s, 0, p);
    let cursor = if p.len() as int > init { p.len() as int } else { init };
    assert(after.subrange(0, cursor).subrange(0, p.len() as int) =~= p);
}

/// A wrapper over a region of incrementally-initialized bytes.
///
/// The region holds `len()` bytes; the first `init()` of them are known to be
/// initialized. Bytes past the cursor are present in the model but carry no
/// meaning until the cursor is raised over them, either by an explicit
/// declaration (`assume_initialized`) or by zero-filling (`as_init_to`).
pub struct ReadBuf {
    buf: Vec<u8>,
    initialized: usize,
}

impl ReadBuf {
    /// The bytes of the whole region.
    pub closed spec fn bytes(&self) -> Seq<u8> {
        self.buf@
    }

    /// How many leading bytes are known to be initialized.
    pub closed spec fn init(&self) -> int {
        self.initialized as int
    }

    /// The cursor never runs past the end of the region.
    pub open spec fn wf(&self) -> bool {
        0 <= self.init() <= self.bytes().len()
    }

    /// Creates a new `ReadBuf` from a fully initialized region.
    pub fn new(buf: Vec<u8>) -> (r: ReadBuf)
        ensures
            r.wf(),
            r.bytes() == buf@,
            r.init() == buf@.len(),
    {
        let n = buf.len();
        ReadBuf { buf, initialized: n }
    }

    /// Creates a new `ReadBuf` from a fully uninitialized region.
    ///
    /// Use `assume_initialized` if part of the region is known to be already
    /// initialized.
    pub fn new_uninit(buf: Vec<u8>) -> (r: ReadBuf)
        ensures
            r.wf(),
            r.bytes() == buf@,
            r.init() == 0,
    {
        ReadBuf { buf, initialized: 0 }
    }

    /// Returns the size of the region.
    pub fn len(&self) -> (r: usize)
        ensures
            r == self.bytes().len(),
    {
        self.buf.len()
    }

    /// Returns the number of bytes at the beginning of the region that are
    /// known to be initialized.
    pub fn initialized(&self) -> (r: usize)
        ensures
            r == self.init(),
    {
        self.initialized
    }

    /// Declares that the first `n` bytes of the region are initialized.
    ///
    /// Bytes are never "de-initialized": this does nothing when called with
    /// fewer bytes than are already known to be initialized, so the cursor
    /// never decreases.
    pub fn assume_initialized(&mut self, n: usize)
        requires
            old(self).wf(),
            n <= old(self).bytes().len(),
        ensures
            final(self).wf(),
            final(self).bytes() == old(self).bytes(),
            final(self).init() == if n as int > old(self).init() {
                n as int
            } else {
                old(self).init()
            },
            final(self).init() >= old(self).init(),
    {
        if n > self.initialized {
            self.initialized = n;
        }
    }

    /// Returns a copy of the entire region, initialized bytes and not.
    ///
    /// This is the raw view of the region: bytes at positions at or past
    /// `init()` carry no meaning until the cursor is raised over them.
    pub fn as_uninit(&self) -> (r: Vec<u8>)
        ensures
            r@ == self.bytes(),
    {
        let mut r: Vec<u8> = Vec::new();
        let n = self.buf.len();
        let mut i: usize = 0;
        while i < n
            invariant
                i <= n,
                n == self.buf@.len(),
                r@ == self.buf@.subrange(0, i as int),
            decreases n - i,
        {
            r.push(self.buf[i]);
            i = i + 1;
        }
        proof {
            assert(r@ =~= self.bytes());
        }
        r
    }

    /// Writes `src` into the region at offset `at`, through the raw view.
    ///
    /// The cursor does not move: writing bytes does not by itself declare
    /// them initialized.
    pub fn write_uninit(&mut self, at: usize, src: &Vec<u8>)
        requires
            old(self).wf(),
            at + src@.len() <= old(self).bytes().len(),
        ensures
            final(self).wf(),
            final(self).bytes() == write_at(old(self).bytes(), at as int, src@),
            final(self).init() == old(self).init(),
    {
        let n = src.len();
        let total = self.buf.len();
        let mut j: usize = 0;
        while j < n
            invariant
                j <= n,
                n == src@.len(),
                at + n <= total,
                total == self.buf@.len(),
                self.initialized == old(self).initialized,
                self.buf@.len() == old(self).buf@.len(),
                forall|i: int|
                    0 <= i < self.buf@.len() ==> self.buf@[i] == (if at <= i < at + j {
                        src@[i - at]
                    } else {
                        old(self).buf@[i]
                    }),
            decreases n - j,
        {
            self.buf.set(at + j, src[j]);
            j = j + 1;
        }
        proof {
            assert(self.bytes() =~= write_at(old(self).bytes(), at as int, src@));
        }
    }

    /// Returns a copy of the initialized prefix together with the number of
    /// remaining possibly-uninitialized bytes.
    ///
    /// The two parts cover the entire region and are directly contiguous.
    pub fn as_slices(&self) -> (r: (Vec<u8>, usize))
        requires
            self.wf(),
        ensures
            r.0@ == self.bytes().subrange(0, self.init()),
            r.1 == self.bytes().len() - self.init(),
    {
        let mut head: Vec<u8> = Vec::new();
        let n = self.initialized;
        let mut i: usize = 0;
        while i < n
            invariant
                i <= n,
                n as int <= self.buf@.len(),
                head@ == self.buf@.subrange(0, i as int),
            decreases n - i,
        {
            head.push(self.buf[i]);
            i = i + 1;
        }
        let tail_len = self.buf.len() - self.initialized;
        proof {
            assert(head@ =~= self.bytes().subrange(0, self.init()));
        }
        (head, tail_len)
    }

    /// Returns a copy of the entire region, zero-filling the part past the
    /// cursor and raising the cursor to the full length.
    pub fn as_init(&mut self) -> (r: Vec<u8>)
        requires
            old(self).wf(),
        ensures
            final(self).wf(),
            final(self).bytes() == fill_to(
                old(self).bytes(),
                old(self).init(),
                old(self).bytes().len() as int,
            ),
            final(self).init() == final(self).bytes().len(),
            r@ == final(self).bytes(),
    {
        let n = self.buf.len();
        let r = self.as_init_to(n);
        proof {
            assert(r@ =~= self.bytes());
        }
        r
    }

    /// Returns a copy of the first `len` bytes of the region, zero-filling
    /// the bytes between the cursor and `len` and raising the cursor to `len`
    /// if it is below it.
    pub fn as_init_to(&mut self, len: usize) -> (r: Vec<u8>)
        requires
            old(self).wf(),
            len <= old(self).bytes().len(),
        ensures
            final(self).wf(),
            final(self).bytes() == fill_to(old(self).bytes(), old(self).init(), len as int),
            final(self).init() == if len as int > old(self).init() {
                len as int
            } else {
                old(self).init()
            },
            r@ == final(self).bytes().subrange(0, len as int),
    {
        if len > self.initialized {
            let mut j: usize = self.initialized;
            while j < len
                invariant
                    old(self).initialized <= j <= len,
                    len <= self.buf@.len(),
                    self.buf@.len() == old(self).buf@.len(),
                    self.initialized == old(self).initialized,
                    forall|i: int|
                        0 <= i < self.buf@.len() ==> self.buf@[i] == (
                        if old(self).init() <= i < j as int {
                            0u8
                        } else {
                            old(self).buf@[i]
                        }),
                decreases len - j,
            {
                self.buf.set(j, 0);
                j = j + 1;
            }
            self.initialized = len;
        }
        proof {
            assert(self.bytes() =~= fill_to(old(self).bytes(), old(self).init(), len as int));
        }
        let mut r: Vec<u8> = Vec::new();
        let mut i: usize = 0;
        while i < len
            invariant
                i <= len,
                len as int <= self.buf@.len(),
                r@ == self.buf@.subrange(0, i as int),
            decreases len - i,
        {
            r.push(self.buf[i]);
            i = i + 1;
        }
        proof {
            assert(r@ =~= self.bytes().subrange(0, len as int));
        }
        r
    }

    /// Returns the sub-view of the region that starts at offset `base`: its
    /// bytes are the tail of this region, and its cursor is this region's
    /// cursor re-based to the tail.
    pub fn tail_from(&self, base: usize) -> (r: ReadBuf)
        requires
            self.wf(),
            base as int <= self.init(),
        ensures
            r.wf(),
            r.bytes() == self.bytes().subrange(base as int, self.bytes().len() as int),
            r.init() == self.init() - base,
    {
        let mut data: Vec<u8> = Vec::new();
        let n = self.buf.len();
        let mut i: usize = base;
        while i < n
            invariant
                base <= i <= n,
                n == self.buf@.len(),
                data@ == self.buf@.subrange(base as int, i as int),
            decreases n - i,
        {
            data.push(self.buf[i]);
            i = i + 1;
        }
        proof {
            assert(data@ =~= self.bytes().subrange(base as int, self.bytes().len() as int));
        }
        let init = self.initialized - base;
        let mut r = ReadBuf::new_uninit(data);
        r.assume_initialized(init);
        r
    }
}

} // verus!

