use vstd::prelude::*;
use vstd::slice::slice_index_get;
use crate::read_buf::zero_from;

verus! {

/// Total length in bytes of the first `k` regions of `s`.
pub open spec fn sum_first(s: Seq<Seq<u8>>, k: int) -> int
    decreases k,
{
    if k <= 0 {
        0
    } else {
        sum_first(s, k - 1) + s[k - 1].len()
    }
}

/// Cumulative lengths only grow as more regions are counted.
pub proof fn lemma_sum_first_monotone(s: Seq<Seq<u8>>, k1: int, k2: int)
    requires
        k1 <= k2,
    ensures
        sum_first(s, k1) <= sum_first(s, k2),
    decreases k2,
{
    if k1 < k2 && k2 > 0 {
        lemma_sum_first_monotone(s, k1, k2 - 1);
    }
}

/// The cumulative length of the first `k` regions depends only on the
/// lengths of those regions, not on their contents.
pub proof fn lemma_sum_first_congruent(s1: Seq<Seq<u8>>, s2: Seq<Seq<u8>>, k: int)
    requires
        forall|i: int| 0 <= i < k ==> s1[i].len() == s2[i].len(),
    ensures
        sum_first(s1, k) == sum_first(s2, k),
    decreases k,
{
    if k > 0 {
        lemma_sum_first_congruent(s1, s2, k - 1);
    }
}

/// A single possibly-uninitialized region, the element type of `ReadBufs`.
///
/// It stands for a vectored-read descriptor that permits uninitialized
/// contents; here it carries the region's bytes.
pub struct MaybeUninitIoSliceMut {
    data: Vec<u8>,
}

impl MaybeUninitIoSliceMut {
    /// The bytes of the region.
    pub closed spec fn bytes(&self) -> Seq<u8> {
        self.data@
    }

    /// Creates a new `MaybeUninitIoSliceMut` over a region of
    /// possibly-uninitialized bytes.
    pub fn new(buf: Vec<u8>) -> (r: MaybeUninitIoSliceMut)
        ensures
            r.bytes() == buf@,
    {
        MaybeUninitIoSliceMut { data: buf }
    }

    /// Returns the size of the region.
    pub fn len(&self) -> (r: usize)
        ensures
            r == self.bytes().len(),
    {
        self.data.len()
    }

    /// Returns the byte at position `i` of the region.
    pub fn data_at(&self, i: usize) -> (r: u8)
        requires
            i < self.bytes().len(),
        ensures
            r == self.bytes()[i as int],
    {
        self.data[i]
    }

    /// Returns a copy of the region's bytes.
    pub fn to_vec(&self) -> (r: Vec<u8>)
        ensures
            r@ == self.bytes(),
    {
        self.zeroed_from(self.data.len())
    }

    /// Returns a copy of the region's bytes with every byte at or past
    /// position `k` replaced by zero.
    fn zeroed_from(&self, k: usize) -> (r: Vec<u8>)
        requires
            k <= self.bytes().len(),
        ensures
            r@ == zero_from(self.bytes(), k as int),
    {
        let n = self.data.len();
        let mut r: Vec<u8> = Vec::new();
        let mut i: usize = 0;
        while i < n
            invariant
                i <= n,
                n == self.data@.len(),
                k <= n,
                r@.len() == i as int,
                forall|j: int|
                    0 <= j < i as int ==> r@[j] == (if j < k as int {
                        self.data@[j]
                    } else {
                        0u8
                    }),
            decreases n - i,
        {
            if i < k {
                r.push(self.data[i]);
            } else {
                r.push(0);
            }
            i = i + 1;
        }
        proof {
            assert(r@ =~= zero_from(self.bytes(), k as int));
        }
        r
    }
}

/// A wrapper over an ordered set of incrementally-initialized byte regions.
///
/// One cursor counts the cumulative leading bytes, walking the regions in
/// order, that are known to be initialized.
pub struct ReadBufs {
    bufs: Vec<MaybeUninitIoSliceMut>,
    initialized: usize,
}

impl ReadBufs {
    /// The regions' bytes, in order.
    pub closed spec fn slices(&self) -> Seq<Seq<u8>> {
        self.bufs@.map_values(|b: MaybeUninitIoSliceMut| b.bytes())
    }

    /// How many cumulative leading bytes are known to be initialized.
    pub closed spec fn init(&self) -> int {
        self.initialized as int
    }

    /// Total length of all regions.
    pub open spec fn total(&self) -> int {
        sum_first(self.slices(), self.slices().len() as int)
    }

    /// The cursor never runs past the total length, and the total length is
    /// addressable.
    pub open spec fn wf(&self) -> bool {
        0 <= self.init() <= self.total() && self.total() <= usize::MAX
    }

    /// Creates a new `ReadBufs` from a set of fully initialized regions.
    pub fn new(bufs: Vec<MaybeUninitIoSliceMut>) -> (r: ReadBufs)
        requires
            sum_first(
                bufs@.map_values(|b: MaybeUninitIoSliceMut| b.bytes()),
                bufs@.len() as int,
            ) <= usize::MAX,
        ensures
            r.wf(),
            r.slices() == bufs@.map_values(|b: MaybeUninitIoSliceMut| b.bytes()),
            r.init() == r.total(),
    {
        let total = Self::sum_of_lens(&bufs);
        ReadBufs { bufs, initialized: total }
    }

    /// Creates a new `ReadBufs` from a set of fully uninitialized regions.
    ///
    /// Use `assume_initialized` if part of the regions are known to be
    /// already initialized.
    pub fn new_uninit(bufs: Vec<MaybeUninitIoSliceMut>) -> (r: ReadBufs)
        requires
            sum_first(
                bufs@.map_values(|b: MaybeUninitIoSliceMut| b.bytes()),
                bufs@.len() as int,
            ) <= usize::MAX,
        ensures
            r.wf(),
            r.slices() == bufs@.map_values(|b: MaybeUninitIoSliceMut| b.bytes()),
            r.init() == 0,
    {
        proof {
            lemma_sum_first_monotone(
                bufs@.map_values(|b: MaybeUninitIoSliceMut| b.bytes()),
                0,
                bufs@.len() as int,
            );
        }
        ReadBufs { bufs, initialized: 0 }
    }

    /// Sums the lengths of the given regions.
    fn sum_of_lens(bufs: &Vec<MaybeUninitIoSliceMut>) -> (r: usize)
        requires
            sum_first(
                bufs@.map_values(|b: MaybeUninitIoSliceMut| b.bytes()),
                bufs@.len() as int,
            ) <= usize::MAX,
        ensures
            r == sum_first(
                bufs@.map_values(|b: MaybeUninitIoSliceMut| b.bytes()),
                bufs@.len() as int,
            ),
    {
        let ghost m = bufs@.map_values(|b: MaybeUninitIoSliceMut| b.bytes());
        let n = bufs.len();
        let mut total: usize = 0;
        let mut i: usize = 0;
        while i < n
            invariant
                i <= n,
                n == bufs@.len(),
                m == bufs@.map_values(|b: MaybeUninitIoSliceMut| b.bytes()),
                sum_first(m, n as int) <= usize::MAX,
                total == sum_first(m, i as int),
            decreases n - i,
        {
            let b = slice_index_get(bufs.as_slice(), i);
            proof {
                lemma_sum_first_monotone(m, i as int + 1, n as int);
            }
            total = total + b.len();
            i = i + 1;
        }
        total
    }

    /// Returns the number of cumulative leading bytes that are known to be
    /// initialized.
    pub fn initialized(&self) -> (r: usize)
        ensures
            r == self.init(),
    {
        self.initialized
    }

    /// Declares that the first `n` cumulative bytes of the regions are
    /// initialized.
    ///
    /// Bytes are never "de-initialized": this does nothing when called with
    /// fewer bytes than are already known to be initialized, so the cursor
    /// never decreases.
    pub fn assume_initialized(&mut self, n: usize)
        requires
            old(self).wf(),
            n as int <= old(self).total(),
        ensures
            final(self).wf(),
            final(self).slices() == old(self).slices(),
            final(self).init() == if n as int > old(self).init() {
                n as int
            } else {
                old(self).init()
            },
            final(self).init() >= old(self).init(),
    {
        if n > self.initialized {
            self.initialized = n;
        }
    }

    /// Returns a copy of every region, initialized bytes and not.
    ///
    /// This is the raw view of the regions: bytes past the cumulative cursor
    /// carry no meaning until the cursor is raised over them.
    pub fn as_uninit(&self) -> (r: Vec<Vec<u8>>)
        ensures
            r@.len() == self.slices().len(),
            forall|i: int| 0 <= i < r@.len() ==> r@[i]@ == self.slices()[i],
    {
        let n = self.bufs.len();
        let mut r: Vec<Vec<u8>> = Vec::new();
        let mut i: usize = 0;
        while i < n
            invariant
                i <= n,
                n == self.bufs@.len(),
                r@.len() == i as int,
                forall|j: int| 0 <= j < i as int ==> r@[j]@ == self.slices()[j],
            decreases n - i,
        {
            let b = slice_index_get(self.bufs.as_slice(), i);
            r.push(b.to_vec());
            i = i + 1;
        }
        r
    }

    /// Writes `src` into region `i` at offset `at`, through the raw view.
    ///
    /// The cursor does not move: writing bytes does not by itself declare
    /// them initialized.
    pub fn write_uninit(&mut self, i: usize, at: usize, src: &Vec<u8>)
        requires
            old(self).wf(),
            i < old(self).slices().len(),
            at + src@.len() <= old(self).slices()[i as int].len(),
        ensures
            final(self).wf(),
            final(self).init() == old(self).init(),
            final(self).slices().len() == old(self).slices().len(),
            final(self).slices()[i as int] == crate::read_buf::write_at(
                old(self).slices()[i as int],
                at as int,
                src@,
            ),
            forall|j: int|
                0 <= j < old(self).slices().len() && j != i as int ==> final(self).slices()[j]
                    == old(self).slices()[j],
    {
        let b = slice_index_get(self.bufs.as_slice(), i);
        let n = b.len();
        let m = src.len();
        let mut nd: Vec<u8> = Vec::new();
        let mut j: usize = 0;
        while j < n
            invariant
                j <= n,
                n == b.bytes().len(),
                at + m <= n,
                m == src@.len(),
                nd@.len() == j as int,
                forall|p: int|
                    0 <= p < j as int ==> nd@[p] == (if at as int <= p < at as int + m as int {
                        src@[p - at as int]
                    } else {
                        b.bytes()[p]
                    }),
            decreases n - j,
        {
            if at <= j && j < at + m {
                nd.push(src[j - at]);
            } else {
                nd.push(b.data_at(j));
            }
            j = j + 1;
        }
        proof {
            assert(nd@ =~= crate::read_buf::write_at(b.bytes(), at as int, src@));
        }
        let nb = MaybeUninitIoSliceMut::new(nd);
        self.bufs.set(i, nb);
        proof {
            assert(self.slices() =~= old(self).slices().update(
                i as int,
                crate::read_buf::write_at(old(self).slices()[i as int], at as int, src@),
            ));
            lemma_sum_first_congruent(
                self.slices(),
                old(self).slices(),
                self.slices().len() as int,
            );
        }
    }

    /// Returns copies of the fully initialized leading regions together with
    /// the number of remaining regions.
    ///
    /// A region is never split: if the cumulative cursor lands strictly
    /// inside a region, that region is counted with the remaining half, and
    /// every returned region is returned at its full declared length.
    pub fn as_slices(&self) -> (r: (Vec<Vec<u8>>, usize))
        requires
            self.wf(),
        ensures
            ({
                let split = r.0@.len() as int;
                &&& 0 <= split <= self.slices().len()
                &&& sum_first(self.slices(), split) <= self.init()
                &&& (split == self.slices().len() || sum_first(self.slices(), split + 1)
                    > self.init())
                &&& forall|i: int| 0 <= i < split ==> r.0@[i]@ == self.slices()[i]
                &&& r.1 == self.slices().len() - split
            }),
    {
        let ghost m = self.slices();
        let n = self.bufs.len();
        let mut split: usize = 0;
        let mut seen: usize = 0;
        while split < n
            invariant
                split <= n,
                n == m.len(),
                m == self.slices(),
                self.wf(),
                seen == sum_first(m, split as int),
                seen <= self.initialized,
            ensures
                split <= n,
                seen == sum_first(m, split as int),
                seen <= self.initialized,
                split == n || sum_first(m, split as int + 1) > self.init(),
            decreases n - split,
        {
            let b = slice_index_get(self.bufs.as_slice(), split);
            let bl = b.len();
            proof {
                lemma_sum_first_monotone(m, split as int + 1, n as int);
            }
            if seen + bl > self.initialized {
                break ;
            }
            seen = seen + bl;
            split = split + 1;
        }
        let mut head: Vec<Vec<u8>> = Vec::new();
        let mut i: usize = 0;
        while i < split
            invariant
                i <= split,
                split <= n,
                n == self.bufs@.len(),
                n == self.slices().len(),
                head@.len() == i as int,
                forall|j: int| 0 <= j < i as int ==> head@[j]@ == self.slices()[j],
            decreases split - i,
        {
            let b = slice_index_get(self.bufs.as_slice(), i);
            head.push(b.to_vec());
            i = i + 1;
        }
        (head, n - split)
    }

    /// Returns copies of the leading regions that together hold the first
    /// `len` cumulative bytes, zero-filling each of them past the cursor and
    /// raising the cursor over everything returned.
    ///
    /// The returned set is rounded up to a whole-region boundary: it is the
    /// shortest prefix of regions whose cumulative end reaches or exceeds
    /// `len`, so it may cover more bytes than `len`, never fewer, and always
    /// holds at least one region.
    pub fn as_init_to(&mut self, len: usize) -> (r: Vec<Vec<u8>>)
        requires
            old(self).wf(),
            old(self).slices().len() > 0,
            len as int <= old(self).total(),
        ensures
            final(self).wf(),
            final(self).init() >= old(self).init(),
            final(self).slices().len() == old(self).slices().len(),
            ({
                let m = old(self).slices();
                let k = r@.len() as int - 1;
                let covered = sum_first(m, k + 1);
                &&& 1 <= r@.len() <= m.len()
                &&& covered >= len as int
                &&& forall|i: int| 1 <= i <= k ==> #[trigger] sum_first(m, i) < len as int
                &&& final(self).init() == (if covered > old(self).init() {
                    covered
                } else {
                    old(self).init()
                })
                &&& forall|i: int|
                    0 <= i <= k ==> final(self).slices()[i] == zero_from(
                        m[i],
                        old(self).init() - sum_first(m, i),
                    )
                &&& forall|i: int| k < i < m.len() ==> final(self).slices()[i] == m[i]
                &&& forall|i: int| 0 <= i <= k ==> r@[i]@ == final(self).slices()[i]
            }),
    {
        let ghost m = old(self).slices();
        let init = self.initialized;
        let n = self.bufs.len();
        let mut seen: usize = 0;
        let mut i: usize = 0;
        let mut out: Vec<Vec<u8>> = Vec::new();
        loop
            invariant_except_break
                seen == sum_first(m, i as int),
                out@.len() == i as int,
                forall|j: int| i as int <= j < n ==> self.slices()[j] == m[j],
            invariant
                i < n,
                n == m.len(),
                n == self.bufs@.len(),
                self.initialized == init,
                init as int <= sum_first(m, n as int),
                len as int <= sum_first(m, n as int),
                sum_first(m, n as int) <= usize::MAX,
                forall|j: int| 1 <= j <= i as int ==> #[trigger] sum_first(m, j) < len as int,
                forall|j: int|
                    0 <= j < i as int ==> self.slices()[j] == zero_from(
                        m[j],
                        init as int - sum_first(m, j),
                    ),
                forall|j: int| 0 <= j < i as int ==> out@[j]@ == self.slices()[j],
            ensures
                i < n,
                n == m.len(),
                n == self.bufs@.len(),
                self.initialized == init,
                out@.len() == i as int + 1,
                seen == sum_first(m, i as int + 1),
                seen >= len,
                forall|j: int| 1 <= j <= i as int ==> #[trigger] sum_first(m, j) < len as int,
                forall|j: int|
                    0 <= j <= i as int ==> self.slices()[j] == zero_from(
                        m[j],
                        init as int - sum_first(m, j),
                    ),
                forall|j: int| (i as int) < j < n ==> self.slices()[j] == m[j],
                forall|j: int| 0 <= j <= i as int ==> out@[j]@ == self.slices()[j],
            decreases n - i,
        {
            let b = slice_index_get(self.bufs.as_slice(), i);
            let bl = b.len();
            let start = if init > seen {
                let d = init - seen;
                if d < bl {
                    d
                } else {
                    bl
                }
            } else {
                0
            };
            let nd = b.zeroed_from(start);
            let nd2 = b.zeroed_from(start);
            let nb = MaybeUninitIoSliceMut::new(nd);
            let ghost before = self.slices();
            self.bufs.set(i, nb);
            out.push(nd2);
            proof {
                assert(self.slices() =~= before.update(
                    i as int,
                    zero_from(m[i as int], start as int),
                ));
                assert(self.slices()[i as int] =~= zero_from(
                    m[i as int],
                    init as int - sum_first(m, i as int),
                ));
                lemma_sum_first_monotone(m, i as int + 1, n as int);
            }
            seen = seen + bl;
            if seen >= len {
                break ;
            }
            i = i + 1;
        }
        proof {
            lemma_sum_first_congruent(self.slices(), m, n as int);
            lemma_sum_first_monotone(m, i as int + 1, n as int);
        }
        if seen > self.initialized {
            self.initialized = seen;
        }
        out
    }

    /// Returns copies of all regions, zero-filling each of them past the
    /// cursor and raising the cursor to the total length.
    ///
    /// Trailing zero-length regions beyond the last byte may be left out of
    /// the returned set, as `as_init_to` rounds up only to the first region
    /// boundary that covers the request.
    pub fn as_init(&mut self) -> (r: Vec<Vec<u8>>)
        requires
            old(self).wf(),
            old(self).slices().len() > 0,
        ensures
            final(self).wf(),
            final(self).init() == old(self).total(),
            final(self).slices().len() == old(self).slices().len(),
            ({
                let m = old(self).slices();
                let k = r@.len() as int - 1;
                let covered = sum_first(m, k + 1);
                &&& 1 <= r@.len() <= m.len()
                &&& covered == old(self).total()
                &&& forall|i: int| 1 <= i <= k ==> #[trigger] sum_first(m, i) < old(self).total()
                &&& forall|i: int|
                    0 <= i <= k ==> final(self).slices()[i] == zero_from(
                        m[i],
                        old(self).init() - sum_first(m, i),
                    )
                &&& forall|i: int| k < i < m.len() ==> final(self).slices()[i] == m[i]
                &&& forall|i: int| 0 <= i <= k ==> r@[i]@ == final(self).slices()[i]
            }),
    {
        let t = Self::sum_of_lens(&self.bufs);
        let r = self.as_init_to(t);
        proof {
            let m = old(self).slices();
            let k = r@.len() as int - 1;
            lemma_sum_first_monotone(m, k + 1, m.len() as int);
        }
        r
    }
}

} // verus!


