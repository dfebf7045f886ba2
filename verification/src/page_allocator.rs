//! First-fit physical page allocator.
//!
//! The allocator owns a fixed region of physical memory, split into
//! 4 KiB pages. A descriptor per page records whether the page is free,
//! taken, and whether it is the last page of its allocation run. The
//! backing bytes themselves are hardware memory and are not modelled here;
//! the descriptors and the addresses handed out are.

use crate::KernelError;
use vstd::assert_seqs_equal;
use vstd::prelude::*;

verus! {

/// Size of one physical page in bytes.
pub const PAGE_SIZE: usize = 4096;

/// Flag bit: the page is part of an allocation run.
pub const TAKEN_FLAG: u8 = 0x1;
/// Flag bit: the page is the last page of its allocation run.
pub const LAST_FLAG: u8 = 0x2;

/// Descriptor state of a completely free page.
pub const EMPTY_PAGE: u8 = 0x0;

/// One descriptor per physical page of the managed region.
#[derive(Clone, Copy, PartialEq, Eq, Structural, Debug)]
pub struct Page {
    pub flags: u8,
}

impl Page {
    /// The raw flag byte.
    pub open spec fn spec_flags(self) -> u8 {
        self.flags
    }

    /// A free page carries no flags at all.
    pub open spec fn spec_free(self) -> bool {
        self.flags == EMPTY_PAGE
    }

    /// The page belongs to some allocation run.
    pub open spec fn spec_taken(self) -> bool {
        self.flags & TAKEN_FLAG != 0
    }

    /// The page ends its allocation run.
    pub open spec fn spec_last(self) -> bool {
        self.flags & LAST_FLAG != 0
    }

    /// A descriptor is well formed when it is free, taken, or taken and
    /// last: a free page is never flagged last, and no other bits are used.
    pub open spec fn wf(self) -> bool {
        self.flags == 0x0 || self.flags == 0x1 || self.flags == 0x3
    }

    pub fn free(&self) -> (r: bool)
        ensures
            r == self.spec_free(),
    {
        self.flags == EMPTY_PAGE
    }

    pub fn taken(&self) -> (r: bool)
        ensures
            r == self.spec_taken(),
    {
        self.flags & TAKEN_FLAG != 0
    }

    pub fn last(&self) -> (r: bool)
        ensures
            r == self.spec_last(),
    {
        self.flags & LAST_FLAG != 0
    }

    pub fn set_flag(&mut self, flags: u8)
        ensures
            final(self).flags == old(self).flags | flags,
    {
        self.flags = self.flags | flags
    }

    pub fn clear_flag(&mut self, flags: u8)
        ensures
            final(self).flags == old(self).flags & !flags,
    {
        self.flags = self.flags & !flags
    }

    pub fn clear_all_flags(&mut self)
        ensures
            final(self).flags == EMPTY_PAGE,
            final(self).spec_free(),
    {
        self.flags = 0x0;
    }
}

/// The descriptor of a page in the middle of an allocation run.
pub open spec fn taken_page() -> Page {
    Page { flags: TAKEN_FLAG }
}

/// The descriptor of the final page of an allocation run.
pub open spec fn last_page() -> Page {
    Page { flags: 0x3 }
}

/// The descriptor of a free page.
pub open spec fn free_page() -> Page {
    Page { flags: EMPTY_PAGE }
}

/// Concrete facts about the three well-formed flag bytes, which the
/// default solver does not compute on its own.
pub proof fn lemma_flag_facts()
    by (bit_vector)
    ensures
        0u8 & 0x1u8 == 0 && 0u8 & 0x2u8 == 0,
        0x1u8 & 0x1u8 != 0 && 0x1u8 & 0x2u8 == 0,
        0x3u8 & 0x1u8 != 0 && 0x3u8 & 0x2u8 != 0,
        0u8 | 0x1u8 == 0x1u8,
        0x1u8 | 0x2u8 == 0x3u8,
{
}

/// `val` rounded up to the next multiple of the page size.
pub open spec fn spec_page_align_up(val: int) -> int {
    ((val + (PAGE_SIZE - 1)) / (PAGE_SIZE as int)) * (PAGE_SIZE as int)
}

/// `val` rounded down to a multiple of the page size.
pub open spec fn spec_page_align_down(val: int) -> int {
    (val / (PAGE_SIZE as int)) * (PAGE_SIZE as int)
}

/// Round an address up to the next page boundary.
pub fn page_align_round_up(val: usize) -> (r: usize)
    requires
        val + (PAGE_SIZE - 1) <= usize::MAX,
    ensures
        r == spec_page_align_up(val as int),
        r % PAGE_SIZE == 0,
        val <= r < val + PAGE_SIZE,
{
    let o: usize = PAGE_SIZE - 1;
    let s: usize = val + o;
    let r = s & !o;
    proof {
        assert((s & !4095usize) == (s / 4096) * 4096 && s - 4095 <= (s & !4095usize) <= s && (s
            & !4095usize) % 4096 == 0) by (bit_vector)
            requires
                s >= 4095,
        ;
    }
    r
}

/// Pages `i .. i + n` all lie outside any allocation run.
pub open spec fn free_run(s: Seq<Page>, i: int, n: int) -> bool {
    forall|j: int| i <= j < i + n ==> !(#[trigger] s[j]).spec_taken()
}

/// A run of `n` free pages fits at index `i`.
pub open spec fn fits_at(s: Seq<Page>, i: int, n: int) -> bool {
    0 <= i && i + n <= s.len() && free_run(s, i, n)
}

/// Somewhere in the region a run of `n` contiguous free pages exists.
pub open spec fn has_fit(s: Seq<Page>, n: int) -> bool {
    exists|i: int| fits_at(s, i, n)
}

/// `i` is the lowest index where a run of `n` free pages fits: the
/// first-fit choice.
pub open spec fn is_first_fit(s: Seq<Page>, i: int, n: int) -> bool {
    fits_at(s, i, n) && forall|k: int| 0 <= k < i ==> !fits_at(s, k, n)
}

/// The first-fit index for a run of `n` pages, when one exists.
pub open spec fn first_fit_index(s: Seq<Page>, n: int) -> int {
    choose|i: int| is_first_fit(s, i, n)
}

/// Descriptor state after allocating the run `i .. i + n`: every page of
/// the run taken, the final one flagged last, everything else unchanged.
pub open spec fn mark_allocated(s: Seq<Page>, i: int, n: int) -> Seq<Page> {
    Seq::new(
        s.len(),
        |j: int|
            if i <= j < i + n - 1 {
                taken_page()
            } else if j == i + n - 1 {
                last_page()
            } else {
                s[j]
            },
    )
}

/// Descriptor state after clearing pages `i ..= j` back to free.
pub open spec fn clear_run(s: Seq<Page>, i: int, j: int) -> Seq<Page> {
    Seq::new(s.len(), |k: int| if i <= k <= j { free_page() } else { s[k] })
}

/// The forward walk that `dealloc` makes from `i` ends at `j`: every page
/// before `j` is taken and not last, and page `j` itself is the first that
/// is either not taken or flagged last.
pub open spec fn is_walk_end(s: Seq<Page>, i: int, j: int) -> bool {
    &&& 0 <= i <= j < s.len()
    &&& forall|k: int| i <= k < j ==> (#[trigger] s[k]).spec_taken() && !s[k].spec_last()
    &&& !(s[j].spec_taken() && !s[j].spec_last())
}

/// Where the forward walk from `i` ends, when it ends at all.
pub open spec fn walk_end_index(s: Seq<Page>, i: int) -> int {
    choose|j: int| is_walk_end(s, i, j)
}

/// Whether the forward walk from `i` ends somewhere in the region.
pub open spec fn has_walk_end(s: Seq<Page>, i: int) -> bool {
    exists|j: int| is_walk_end(s, i, j)
}

/// Owner of a fixed physical memory region, handing out contiguous runs
/// of pages first-fit. The view of the allocator is the sequence of its
/// page descriptors.
pub struct PageAllocator {
    descriptors: Vec<Page>,
    region_base: usize,
    alloc_start: usize,
}

impl View for PageAllocator {
    type V = Seq<Page>;

    closed spec fn view(&self) -> Seq<Page> {
        self.descriptors@
    }
}

impl PageAllocator {
    /// Base address of the managed region. The descriptor array sits at
    /// its front.
    pub closed spec fn spec_region_base(&self) -> int {
        self.region_base as int
    }

    /// Address of the first allocatable page: the region base plus the
    /// descriptor array, rounded up to a page boundary.
    pub closed spec fn spec_alloc_start(&self) -> int {
        self.alloc_start as int
    }

    /// The address a successful allocation of the run starting at
    /// descriptor `i` returns.
    pub open spec fn page_addr(&self, i: int) -> int {
        self.spec_alloc_start() + i * (PAGE_SIZE as int)
    }

    /// Well-formedness: every descriptor is free, taken, or taken-and-last;
    /// the allocatable area is page-aligned, sits behind the region base,
    /// and fits in the address space.
    pub open spec fn wf(&self) -> bool {
        &&& forall|j: int| 0 <= j < self@.len() ==> (#[trigger] self@[j]).wf()
        &&& self.spec_alloc_start() % (PAGE_SIZE as int) == 0
        &&& self.spec_alloc_start() + self@.len() * (PAGE_SIZE as int) <= usize::MAX
        &&& self@.len() > 0 ==> self.spec_alloc_start() > self.spec_region_base()
    }

    /// How many pages the allocator manages.
    pub fn number_pages(&self) -> (r: usize)
        ensures
            r == self@.len(),
    {
        self.descriptors.len()
    }

    /// The address of the first allocatable page.
    pub fn alloc_start_address(&self) -> (r: usize)
        ensures
            r == self.spec_alloc_start(),
    {
        self.alloc_start
    }

    /// Partition `region_size` bytes at `region_base` into pages, reserve
    /// room for one descriptor byte per page at the front of the region,
    /// and clear every descriptor to free.
    ///
    /// Must be called exactly once, before any allocation.
    pub fn init_allocator(region_base: usize, region_size: usize) -> (r: PageAllocator)
        requires
            region_base + region_size as int / PAGE_SIZE as int + PAGE_SIZE + region_size
                <= usize::MAX,
        ensures
            r.wf(),
            r@.len() == region_size as int / PAGE_SIZE as int,
            forall|j: int| 0 <= j < r@.len() ==> (#[trigger] r@[j]).spec_free(),
            r.spec_region_base() == region_base,
            r.spec_alloc_start() == spec_page_align_up(
                region_base + region_size as int / PAGE_SIZE as int,
            ),
    {
        let number_pages: usize = region_size / PAGE_SIZE;
        let mut descriptors: Vec<Page> = Vec::new();
        let mut i: usize = 0;
        while i < number_pages
            invariant
                i <= number_pages,
                descriptors@.len() == i,
                forall|j: int| 0 <= j < i ==> (#[trigger] descriptors@[j]).spec_free(),
            decreases number_pages - i,
        {
            descriptors.push(Page { flags: EMPTY_PAGE });
            i += 1;
        }
        proof {
            assert((region_size as int / PAGE_SIZE as int) * PAGE_SIZE as int <= region_size as int
                && number_pages as int <= region_size as int) by (nonlinear_arith)
                requires
                    number_pages == region_size as int / PAGE_SIZE as int,
                    region_size >= 0,
                    PAGE_SIZE == 4096,
            ;
        }
        // One descriptor byte per page is reserved at the front of the
        // region before the first allocatable page.
        let alloc_start = page_align_round_up(region_base + number_pages);
        PageAllocator { descriptors, region_base, alloc_start }
    }

    /// Whether no page of the run `i .. i + pages` is taken.
    fn run_is_free(&self, i: usize, pages: usize) -> (b: bool)
        requires
            i + pages <= self@.len(),
        ensures
            b == free_run(self@, i as int, pages as int),
    {
        let n = self.descriptors.len();
        let mut j: usize = i;
        while j < i + pages
            invariant
                i <= j <= i + pages <= n == self@.len(),
                forall|k: int| i <= k < j ==> !(#[trigger] self@[k]).spec_taken(),
            decreases i + pages - j,
        {
            if self.descriptors[j].taken() {
                return false;
            }
            j += 1;
        }
        true
    }

    /// Scan the descriptors for the first run of `pages` contiguous free
    /// pages. On success, mark every page of the run taken, flag the final
    /// page as last-of-allocation, and return the address of the run's
    /// first byte. Return `None` exactly when no sufficiently long free
    /// run exists anywhere in the region.
    ///
    /// The run's backing bytes are raw hardware memory outside this
    /// model; the hardware-facing layer zeroes them before the run is
    /// used, as hygiene demands.
    pub fn alloc_pages(&mut self, pages: usize) -> (r: Option<usize>)
        requires
            old(self).wf(),
            pages > 0,
        ensures
            final(self).wf(),
            final(self).spec_region_base() == old(self).spec_region_base(),
            final(self).spec_alloc_start() == old(self).spec_alloc_start(),
            final(self)@.len() == old(self)@.len(),
            match r {
                Some(addr) => ({
                    let i = first_fit_index(old(self)@, pages as int);
                    &&& is_first_fit(old(self)@, i, pages as int)
                    &&& addr == old(self).page_addr(i)
                    &&& addr as int % (PAGE_SIZE as int) == 0
                    &&& final(self)@ == mark_allocated(old(self)@, i, pages as int)
                }),
                None => {
                    &&& !has_fit(old(self)@, pages as int)
                    &&& final(self)@ == old(self)@
                },
            },
    {
        let number_pages: usize = self.descriptors.len();
        let mut i: usize = 0;
        while i < number_pages
            invariant
                self == old(self),
                self.wf(),
                pages > 0,
                i <= number_pages,
                number_pages == self@.len(),
                forall|k: int| 0 <= k < i ==> !fits_at(self@, k, pages as int),
            decreases number_pages - i,
        {
            // The candidate run must lie within the region and contain no
            // taken page.
            let good = self.descriptors[i].free() && pages <= number_pages - i
                && self.run_is_free(i, pages);
            if good {
                proof {
                    assert(is_first_fit(self@, i as int, pages as int));
                    lemma_first_fit_index_agrees(self@, i as int, pages as int);
                    lemma_flag_facts();
                }
                let ghost s0 = self@;
                // Mark every page of the run taken.
                let mut k: usize = i;
                while k < i + pages
                    invariant
                        i <= k <= i + pages,
                        i + pages <= self@.len(),
                        i + pages <= usize::MAX,
                        self@.len() == s0.len(),
                        self.spec_region_base() == old(self).spec_region_base(),
                        self.spec_alloc_start() == old(self).spec_alloc_start(),
                        forall|m: int| i <= m < k ==> #[trigger] self@[m] == taken_page(),
                        forall|m: int|
                            0 <= m < s0.len() && !(i <= m < k) ==> #[trigger] self@[m] == s0[m],
                        forall|m: int| i <= m < i + pages ==> !(#[trigger] s0[m]).spec_taken(),
                        forall|m: int| 0 <= m < s0.len() ==> (#[trigger] s0[m]).wf(),
                    decreases i + pages - k,
                {
                    proof {
                        lemma_flag_facts();
                        // A well-formed page that is not taken is exactly
                        // free, so setting the taken bit gives exactly 1.
                        assert(self@[k as int].spec_flags() == EMPTY_PAGE);
                    }
                    let mut p = self.descriptors[k];
                    p.set_flag(TAKEN_FLAG);
                    self.descriptors[k] = p;
                    k += 1;
                }
                // Flag the final page of the run as last.
                let last_index = i + pages - 1;
                let mut p = self.descriptors[last_index];
                p.set_flag(LAST_FLAG);
                self.descriptors[last_index] = p;
                proof {
                    assert_seqs_equal!(self@, mark_allocated(s0, i as int, pages as int));
                    assert(i as int * PAGE_SIZE + PAGE_SIZE <= self@.len() * PAGE_SIZE)
                        by (nonlinear_arith)
                        requires
                            i as int + 1 <= self@.len(),
                            PAGE_SIZE == 4096,
                    ;
                }
                let addr = self.alloc_start + PAGE_SIZE * i;
                proof {
                    assert(addr as int % (PAGE_SIZE as int) == 0) by (nonlinear_arith)
                        requires
                            addr == self.spec_alloc_start() + PAGE_SIZE as int * i,
                            self.spec_alloc_start() % (PAGE_SIZE as int) == 0,
                            PAGE_SIZE == 4096,
                    ;
                }
                return Some(addr);
            } else {
                proof {
                    lemma_flag_facts();
                    // Either the page is already taken, the run would leave
                    // the region, or some page inside the run is taken.
                    assert(!fits_at(self@, i as int, pages as int));
                }
            }
            i += 1;
        }
        None
    }

    /// Free the allocation run that starts at the page `pointer` points
    /// into: walk forward from that page clearing taken pages until the
    /// page flagged last-of-allocation is found and cleared too.
    ///
    /// A pointer outside the allocatable area is reported as
    /// `InvalidPointer`; reaching a free page, or the end of the region,
    /// before any last-flagged page is the double-free / invalid-pointer
    /// condition and is reported as `DoubleFree`. Both are fatal to the
    /// kernel; nothing is silently ignored.
    pub fn dealloc(&mut self, pointer: usize) -> (r: Result<(), KernelError>)
        requires
            old(self).wf(),
        ensures
            final(self).wf(),
            final(self).spec_region_base() == old(self).spec_region_base(),
            final(self).spec_alloc_start() == old(self).spec_alloc_start(),
            final(self)@.len() == old(self)@.len(),
            ({
                let i = (pointer - old(self).spec_alloc_start()) / (PAGE_SIZE as int);
                let j = walk_end_index(old(self)@, i);
                match r {
                    Ok(()) => {
                        &&& old(self).spec_alloc_start() <= pointer
                        &&& 0 <= i < old(self)@.len()
                        &&& is_walk_end(old(self)@, i, j)
                        &&& old(self)@[j].spec_taken()
                        &&& old(self)@[j].spec_last()
                        &&& final(self)@ == clear_run(old(self)@, i, j)
                    },
                    Err(KernelError::InvalidPointer) => {
                        &&& (pointer < old(self).spec_alloc_start() || i >= old(self)@.len())
                        &&& final(self)@ == old(self)@
                    },
                    Err(KernelError::DoubleFree) => {
                        &&& old(self).spec_alloc_start() <= pointer
                        &&& 0 <= i < old(self)@.len()
                        &&& (has_walk_end(old(self)@, i) ==> {
                            &&& is_walk_end(old(self)@, i, j)
                            &&& !old(self)@[j].spec_taken()
                            &&& final(self)@ == clear_run(old(self)@, i, j - 1)
                        })
                        &&& (!has_walk_end(old(self)@, i) ==> {
                            &&& no_walk_end(old(self)@, i)
                            &&& final(self)@ == clear_run(old(self)@, i, old(self)@.len() - 1)
                        })
                    },
                    Err(_) => false,
                }
            }),
    {
        let number_pages: usize = self.descriptors.len();
        if pointer < self.alloc_start {
            return Err(KernelError::InvalidPointer);
        }
        let index = (pointer - self.alloc_start) / PAGE_SIZE;
        if index >= number_pages {
            return Err(KernelError::InvalidPointer);
        }
        let ghost s0 = self@;
        let mut j: usize = index;
        while j < number_pages && self.descriptors[j].taken() && !self.descriptors[j].last()
            invariant
                index <= j <= number_pages,
                number_pages == self@.len() == s0.len(),
                self.wf(),
                self.spec_region_base() == old(self).spec_region_base(),
                self.spec_alloc_start() == old(self).spec_alloc_start(),
                forall|k: int|
                    index <= k < j ==> (#[trigger] s0[k]).spec_taken() && !s0[k].spec_last(),
                forall|m: int|
                    0 <= m < s0.len() && !(index <= m < j) ==> #[trigger] self@[m] == s0[m],
                forall|m: int| index <= m < j ==> #[trigger] self@[m] == free_page(),
            decreases number_pages - j,
        {
            // Clear this page of the run and move to the next one.
            let mut p = self.descriptors[j];
            p.clear_all_flags();
            self.descriptors[j] = p;
            j += 1;
        }
        if j >= number_pages {
            // The walk ran off the end of the region without meeting a
            // last-flagged page.
            proof {
                assert(no_walk_end(s0, index as int));
                assert(!has_walk_end(s0, index as int)) by {
                    if has_walk_end(s0, index as int) {
                        let w = choose|k: int| is_walk_end(s0, index as int, k);
                        assert(s0[w].spec_taken() && !s0[w].spec_last());
                    }
                }
                assert_seqs_equal!(self@, clear_run(s0, index as int, s0.len() - 1));
            }
            return Err(KernelError::DoubleFree);
        }
        if !self.descriptors[j].last() {
            // A free page before any last-flagged page: a double free or a
            // pointer that allocation never produced.
            proof {
                lemma_flag_facts();
                assert(is_walk_end(s0, index as int, j as int));
                lemma_walk_end_index_agrees(s0, index as int, j as int);
                assert(!s0[j as int].spec_taken());
                assert_seqs_equal!(self@, clear_run(s0, index as int, j - 1));
            }
            return Err(KernelError::DoubleFree);
        }
        // Clear the last page of the run.
        proof {
            lemma_flag_facts();
            assert(is_walk_end(s0, index as int, j as int));
            lemma_walk_end_index_agrees(s0, index as int, j as int);
            assert(s0[j as int].spec_taken() && s0[j as int].spec_last());
        }
        let mut p = self.descriptors[j];
        p.clear_all_flags();
        self.descriptors[j] = p;
        proof {
            assert_seqs_equal!(self@, clear_run(s0, index as int, j as int));
        }
        Ok(())
    }

    /// Boot-time self check, run right after initialization on a fresh
    /// allocator: the first allocation returns an address strictly above
    /// the region base, a freed run is handed out again at the very same
    /// address (first-fit reuse), and a long run is carved out behind it.
    ///
    /// Returns true on a freshly initialized allocator of at least `0x101`
    /// pages whose region lies at or above `0x8000_0000`; one single-page
    /// run is left allocated at the front of the region.
    pub fn init_sanity_check(&mut self) -> (ok: bool)
        requires
            old(self).wf(),
            old(self)@.len() >= 0x101,
            forall|j: int| 0 <= j < old(self)@.len() ==> (#[trigger] old(self)@[j]).spec_free(),
            old(self).spec_region_base() >= 0x8000_0000,
        ensures
            ok,
            final(self).wf(),
            final(self)@ == mark_allocated(old(self)@, 0, 1),
    {
        let ghost s0 = self@;
        proof {
            lemma_flag_facts();
            assert(is_first_fit(s0, 0, 1));
            lemma_first_fit_index_agrees(s0, 0, 1);
        }
        // Check we allocate in the correct zone.
        let first_alloc = match self.alloc_pages(1) {
            Some(p) => p,
            None => {
                return false;
            },
        };
        if first_alloc <= 0x8000_0000 {
            return false;
        }
        let ghost s1 = self@;
        proof {
            assert(s1 == mark_allocated(s0, 0, 1));
            lemma_first_fit_reuse(s0, 0, 1);
            lemma_walk_end_index_agrees(s1, 0, 0);
        }
        // Check if we deallocate correctly.
        if self.dealloc(first_alloc).is_err() {
            return false;
        }
        let ghost s2 = self@;
        proof {
            assert(s2 == clear_run(s1, 0, 0));
            assert(s2 == s0);
            lemma_first_fit_index_agrees(s2, 0, 1);
        }
        // Assert first allocation is equal second allocation.
        let second_alloc = match self.alloc_pages(1) {
            Some(p) => p,
            None => {
                return false;
            },
        };
        if second_alloc != first_alloc {
            return false;
        }
        let ghost s3 = self@;
        proof {
            assert(s3 == mark_allocated(s2, 0, 1));
            assert(s3[0] == last_page());
            assert(forall|m: int| 1 <= m < s3.len() ==> #[trigger] s3[m] == s2[m]);
            assert(fits_at(s3, 1, 0x100));
            assert(!fits_at(s3, 0, 0x100));
            assert(is_first_fit(s3, 1, 0x100));
            lemma_first_fit_index_agrees(s3, 1, 0x100);
        }
        // Test bigger allocation.
        let third_alloc = match self.alloc_pages(0x100) {
            Some(p) => p,
            None => {
                return false;
            },
        };
        let ghost s4 = self@;
        proof {
            assert(s4 == mark_allocated(s3, 1, 0x100));
            assert(s4[0] == last_page());
            assert(is_walk_end(s4, 0, 0));
            lemma_walk_end_index_agrees(s4, 0, 0);
        }
        // Make sure we allocate first page again.
        if self.dealloc(second_alloc).is_err() {
            return false;
        }
        let ghost s5 = self@;
        proof {
            assert(s5 == clear_run(s4, 0, 0));
            assert(s5[0] == free_page());
            assert(is_first_fit(s5, 0, 1));
            lemma_first_fit_index_agrees(s5, 0, 1);
        }
        let last_alloc = match self.alloc_pages(1) {
            Some(p) => p,
            None => {
                return false;
            },
        };
        if last_alloc != first_alloc {
            return false;
        }
        let ghost s6 = self@;
        proof {
            assert(s6 == mark_allocated(s5, 0, 1));
            assert(forall|m: int|
                1 <= m < 0x100 ==> #[trigger] s6[m] == taken_page());
            assert(s6[0x100] == last_page());
            assert(is_walk_end(s6, 1, 0x100));
            lemma_walk_end_index_agrees(s6, 1, 0x100);
            assert(third_alloc == self.spec_alloc_start() + 4096);
        }
        // Free the memory of the bigger allocation for the operating
        // system; the run that `last_alloc` names stays allocated.
        if self.dealloc(third_alloc).is_err() {
            return false;
        }
        proof {
            assert(self@ == clear_run(s6, 1, 0x100));
            assert_seqs_equal!(self@, mark_allocated(s0, 0, 1), m => {
                if 1 <= m < 0x101 {
                    assert(s0[m].spec_free());
                    assert(s0[m] == free_page());
                }
            });
        }
        true
    }
}

/// The walk from `i` meets no page that would stop it: every page from `i`
/// to the end of the region is taken and not last.
pub open spec fn no_walk_end(s: Seq<Page>, i: int) -> bool {
    forall|k: int| i <= k < s.len() ==> (#[trigger] s[k]).spec_taken() && !s[k].spec_last()
}

/// How many pages of the region are free.
pub open spec fn count_free(s: Seq<Page>) -> int
    decreases s.len(),
{
    if s.len() == 0 {
        0
    } else {
        count_free(s.drop_last()) + if s.last().spec_taken() {
            0int
        } else {
            1int
        }
    }
}

/// A single free page somewhere is exactly a run of one free page
/// somewhere: `alloc` of one page succeeds precisely on regions with a
/// nonzero free count.
pub proof fn lemma_count_free_positive(s: Seq<Page>)
    ensures
        has_fit(s, 1) <==> count_free(s) > 0,
        count_free(s) >= 0,
    decreases s.len(),
{
    if s.len() == 0 {
    } else {
        let pre = s.drop_last();
        lemma_count_free_positive(pre);
        if !s.last().spec_taken() {
            assert(fits_at(s, s.len() - 1, 1));
        } else {
            if has_fit(pre, 1) {
                let i = choose|i: int| fits_at(pre, i, 1);
                assert(pre[i] == s[i]);
                assert(!s[i].spec_taken());
                assert(fits_at(s, i, 1));
            }
            if has_fit(s, 1) {
                let i = choose|i: int| fits_at(s, i, 1);
                if i < s.len() - 1 {
                    assert(fits_at(pre, i, 1));
                }
            }
        }
    }
}

/// Taking one free page lowers the free count by exactly one.
pub proof fn lemma_count_free_take_one(s: Seq<Page>, i: int, p: Page)
    requires
        0 <= i < s.len(),
        !s[i].spec_taken(),
        p.spec_taken(),
    ensures
        count_free(s.update(i, p)) == count_free(s) - 1,
    decreases s.len(),
{
    let s2 = s.update(i, p);
    if i == s.len() - 1 {
        assert(s2.drop_last() =~= s.drop_last());
    } else {
        assert(s2.drop_last() =~= s.drop_last().update(i, p));
        lemma_count_free_take_one(s.drop_last(), i, p);
    }
}

/// Allocating a single page is taking that one page.
pub proof fn lemma_count_free_alloc_one(s: Seq<Page>, i: int)
    requires
        0 <= i < s.len(),
        !s[i].spec_taken(),
    ensures
        count_free(mark_allocated(s, i, 1)) == count_free(s) - 1,
{
    lemma_flag_facts();
    assert(mark_allocated(s, i, 1) =~= s.update(i, last_page()));
    lemma_count_free_take_one(s, i, last_page());
}

/// At most one index is the first fit for a run of `n` pages.
pub proof fn lemma_first_fit_unique(s: Seq<Page>, i1: int, i2: int, n: int)
    requires
        is_first_fit(s, i1, n),
        is_first_fit(s, i2, n),
    ensures
        i1 == i2,
{
}

/// A witness for the first fit pins down `first_fit_index`.
pub proof fn lemma_first_fit_index_agrees(s: Seq<Page>, i: int, n: int)
    requires
        is_first_fit(s, i, n),
    ensures
        first_fit_index(s, n) == i,
        has_fit(s, n),
{
    let c = first_fit_index(s, n);
    assert(exists|k: int| is_first_fit(s, k, n));
    assert(is_first_fit(s, c, n));
    lemma_first_fit_unique(s, c, i, n);
    assert(fits_at(s, i, n));
}

/// A witness for the walk end pins down `walk_end_index`.
pub proof fn lemma_walk_end_index_agrees(s: Seq<Page>, i: int, j: int)
    requires
        is_walk_end(s, i, j),
    ensures
        walk_end_index(s, i) == j,
        has_walk_end(s, i),
{
    let c = walk_end_index(s, i);
    assert(exists|k: int| is_walk_end(s, i, k));
    assert(is_walk_end(s, i, c));
    lemma_walk_end_unique(s, i, c, j);
}

/// The forward walk from `i` has at most one end.
pub proof fn lemma_walk_end_unique(s: Seq<Page>, i: int, j1: int, j2: int)
    requires
        is_walk_end(s, i, j1),
        is_walk_end(s, i, j2),
    ensures
        j1 == j2,
{
}

/// Marking a run taken can only remove fits: a run of free pages after
/// an allocation was free before it.
pub proof fn lemma_fits_after_mark(s: Seq<Page>, i: int, n: int, k: int, m: int)
    requires
        fits_at(mark_allocated(s, i, n), k, m),
    ensures
        fits_at(s, k, m),
{
    lemma_flag_facts();
    assert forall|j: int| k <= j < k + m implies !(#[trigger] s[j]).spec_taken() by {
        assert(!mark_allocated(s, i, n)[j].spec_taken());
    }
}

/// The pages of a taken run are exclusively owned: for as long as they
/// stay taken — that is, until `dealloc` clears that very run — every
/// fit of free pages, and so every run a later allocation can hand out,
/// is disjoint from them.
pub proof fn lemma_taken_run_exclusive(s: Seq<Page>, i: int, n: int, i2: int, n2: int)
    requires
        n > 0,
        n2 > 0,
        forall|j: int| i <= j < i + n ==> (#[trigger] s[j]).spec_taken(),
        fits_at(s, i2, n2),
    ensures
        i2 + n2 <= i || i + n <= i2,
{
    if i2 < i + n && i < i2 + n2 {
        let m = if i <= i2 { i2 } else { i };
        assert(i <= m < i + n && i2 <= m < i2 + n2);
        assert(s[m].spec_taken());
        assert(false);
    }
}

/// The run a fresh allocation marked taken is exclusively owned: no run
/// that the allocator would hand out afterwards can overlap it.
pub proof fn lemma_allocated_run_exclusive(s: Seq<Page>, i1: int, n1: int, i2: int, n2: int)
    requires
        n1 > 0,
        n2 > 0,
        0 <= i1 && i1 + n1 <= s.len(),
        fits_at(mark_allocated(s, i1, n1), i2, n2),
    ensures
        i2 + n2 <= i1 || i1 + n1 <= i2,
{
    lemma_flag_facts();
    let s1 = mark_allocated(s, i1, n1);
    assert forall|j: int| i1 <= j < i1 + n1 implies (#[trigger] s1[j]).spec_taken() by {}
    lemma_taken_run_exclusive(s1, i1, n1, i2, n2);
}

/// Freeing an allocated run restores the descriptors exactly as they were
/// before the allocation, and the forward walk of `dealloc` over the run
/// ends at its last page. So after `dealloc(p)` with no intervening
/// allocations, the very same run is the first fit again and `alloc` of
/// the same length returns `p` once more.
pub proof fn lemma_first_fit_reuse(s: Seq<Page>, i: int, n: int)
    requires
        n > 0,
        forall|m: int| 0 <= m < s.len() ==> (#[trigger] s[m]).wf(),
        is_first_fit(s, i, n),
    ensures
        is_walk_end(mark_allocated(s, i, n), i, i + n - 1),
        mark_allocated(s, i, n)[i + n - 1].spec_taken(),
        mark_allocated(s, i, n)[i + n - 1].spec_last(),
        clear_run(mark_allocated(s, i, n), i, i + n - 1) == s,
        is_first_fit(clear_run(mark_allocated(s, i, n), i, i + n - 1), i, n),
{
    lemma_flag_facts();
    let s1 = mark_allocated(s, i, n);
    let s2 = clear_run(s1, i, i + n - 1);
    assert forall|m: int| 0 <= m < s.len() implies s2[m] == s[m] by {
        if i <= m <= i + n - 1 {
            // Inside the run the pages were free before the allocation,
            // and a well-formed free page carries no flags at all.
            assert(!s[m].spec_taken());
            assert(s[m].spec_flags() == EMPTY_PAGE);
            assert(s[m] == free_page());
        }
    }
    assert_seqs_equal!(s2, s);
}

/// A second `dealloc` of a pointer whose run was already freed stops at
/// once: the first page of the old run is free again, so the walk ends
/// there and the double free is detected.
pub proof fn lemma_double_free_detected(s: Seq<Page>, i: int, j: int)
    requires
        0 <= i <= j < s.len(),
    ensures
        is_walk_end(clear_run(s, i, j), i, i),
        !clear_run(s, i, j)[i].spec_taken(),
{
    lemma_flag_facts();
}

} // verus!
