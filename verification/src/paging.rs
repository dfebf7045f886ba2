//! Three-level radix page table.
//!
//! A virtual address splits into three 9-bit level indices (bits 30-38,
//! 21-29, 12-20) and a 12-bit in-page offset: a 39-bit virtual address
//! space over 4 KiB pages. Page tables live in an arena owned by the
//! translator: a branch entry's frame number is the arena index of the
//! next-level table, while every table is backed by one physical page
//! taken from the page allocator, exactly as the hardware layout expects.

use crate::page_allocator::{
    count_free, first_fit_index, lemma_count_free_alloc_one, lemma_count_free_positive,
    page_align_round_up, spec_page_align_down, spec_page_align_up, PageAllocator, PAGE_SIZE,
};
use vstd::prelude::*;

verus! {

/// Permission and status bits of a page-table entry.
#[derive(Clone, Copy, PartialEq, Eq, Structural, Debug)]
pub enum EntryBits {
    Empty,
    Valid,
    Read,
    Write,
    Execute,
    User,
    Global,
    Access,
    Dirty,
    ReadWrite,
    ReadExecute,
    ReadWriteExecute,
    UserReadWrite,
    UserReadExecute,
    UserReadWriteExecute,
}

impl EntryBits {
    /// The numeric value of this bit pattern.
    pub open spec fn spec_val(self) -> i64 {
        match self {
            EntryBits::Empty => 0x0,
            EntryBits::Valid => 0x1,
            EntryBits::Read => 0x2,
            EntryBits::Write => 0x4,
            EntryBits::Execute => 0x8,
            EntryBits::User => 0x10,
            EntryBits::Global => 0x20,
            EntryBits::Access => 0x40,
            EntryBits::Dirty => 0x80,
            EntryBits::ReadWrite => 0x6,
            EntryBits::ReadExecute => 0xa,
            EntryBits::ReadWriteExecute => 0xe,
            EntryBits::UserReadWrite => 0x16,
            EntryBits::UserReadExecute => 0x1a,
            EntryBits::UserReadWriteExecute => 0x1e,
        }
    }

    #[verifier::when_used_as_spec(spec_val)]
    pub fn val(self) -> (r: i64)
        ensures
            r == self.spec_val(),
    {
        match self {
            EntryBits::Empty => 0x0,
            EntryBits::Valid => 0x1,
            EntryBits::Read => 0x2,
            EntryBits::Write => 0x4,
            EntryBits::Execute => 0x8,
            EntryBits::User => 0x10,
            EntryBits::Global => 0x20,
            EntryBits::Access => 0x40,
            EntryBits::Dirty => 0x80,
            EntryBits::ReadWrite => 0x6,
            EntryBits::ReadExecute => 0xa,
            EntryBits::ReadWriteExecute => 0xe,
            EntryBits::UserReadWrite => 0x16,
            EntryBits::UserReadExecute => 0x1a,
            EntryBits::UserReadWriteExecute => 0x1e,
        }
    }
}

/// An entry is valid when its low bit is set.
pub open spec fn spec_entry_valid(e: int) -> bool {
    e % 2 == 1
}

/// A branch entry carries none of the read / write / execute bits; a
/// valid branch points at the next translation level.
pub open spec fn spec_entry_branch(e: int) -> bool {
    (e / 2) % 8 == 0
}

/// The frame number stored in an entry: its bits from bit 10 upward.
pub open spec fn spec_entry_ppn(e: int) -> int {
    e / 1024
}

/// The physical address an entry points at: the frame number shifted to
/// a page boundary.
pub open spec fn spec_entry_address(e: int) -> int {
    (e / 1024) * (PAGE_SIZE as int)
}

/// Every entry this translator writes fits well below this bound, which
/// keeps all entry arithmetic inside `i64`.
pub const ENTRY_BOUND: i64 = 0x80_0000_0000_0000;

/// One slot of a page table: either a branch to the next level or a leaf
/// holding the final frame number and permissions.
#[derive(Clone, Copy, PartialEq, Eq, Structural, Debug)]
pub struct PageTableEntry {
    pub entry: i64,
}

impl PageTableEntry {
    pub fn is_valid(&self) -> (r: bool)
        requires
            0 <= self.entry,
        ensures
            r == spec_entry_valid(self.entry as int),
    {
        let r = self.get_entry() & EntryBits::Valid.val() != 0;
        proof {
            let e = self.entry;
            assert((e & 1i64 != 0) == (e % 2 == 1)) by (bit_vector)
                requires
                    e >= 0,
            ;
        }
        r
    }

    pub fn is_invalid(&self) -> (r: bool)
        requires
            0 <= self.entry,
        ensures
            r == !spec_entry_valid(self.entry as int),
    {
        !self.is_valid()
    }

    pub fn is_branch(&self) -> (r: bool)
        requires
            0 <= self.entry,
        ensures
            r == spec_entry_branch(self.entry as int),
    {
        let r = self.get_entry() & 0xe == 0;
        proof {
            let e = self.entry;
            assert((e & 0xei64 == 0) == ((e / 2) % 8 == 0)) by (bit_vector)
                requires
                    e >= 0,
            ;
        }
        r
    }

    pub fn is_leaf(&self) -> (r: bool)
        requires
            0 <= self.entry,
        ensures
            r == !spec_entry_branch(self.entry as int),
    {
        !self.is_branch()
    }

    pub fn set_entry(&mut self, entry: i64)
        ensures
            final(self).entry == entry,
    {
        self.entry = entry
    }

    pub fn get_entry(&self) -> (r: i64)
        ensures
            r == self.entry,
    {
        self.entry
    }
}

/// A fixed array of 512 entries: one translation level.
#[derive(Clone, PartialEq, Eq, Debug)]
pub struct PageTable {
    pub entries: Vec<PageTableEntry>,
}

impl PageTable {
    /// The number of entries of every page table.
    pub fn len() -> (r: usize)
        ensures
            r == 512,
    {
        512
    }
}

/// The physical address stored in an entry, frame number shifted to a
/// page boundary.
pub fn get_address_from_entry(entry: &PageTableEntry) -> (r: i64)
    requires
        0 <= entry.entry < ENTRY_BOUND,
    ensures
        r == spec_entry_address(entry.entry as int),
{
    let r = (entry.get_entry() >> 10) << 12;
    proof {
        let e = entry.entry;
        assert(((e >> 10) << 12) == (e / 1024) * 4096) by (bit_vector)
            requires
                0 <= e < 0x80_0000_0000_0000i64,
        ;
    }
    r
}

/// The level index of `va` at translation level `l`: nine bits starting
/// at bit 30, 21 or 12.
pub open spec fn spec_va_index(va: int, l: int) -> int {
    if l == 0 {
        (va / 0x4000_0000) % 512
    } else if l == 1 {
        (va / 0x20_0000) % 512
    } else {
        (va / 0x1000) % 512
    }
}

/// Split a virtual address into its three 9-bit level indices.
pub fn get_virtual_offsets(virtual_address: usize) -> (r: [usize; 3])
    ensures
        r[0] == spec_va_index(virtual_address as int, 0),
        r[1] == spec_va_index(virtual_address as int, 1),
        r[2] == spec_va_index(virtual_address as int, 2),
        r[0] < 512 && r[1] < 512 && r[2] < 512,
{
    let r = [
        (virtual_address >> 30) & 0x1ff,
        (virtual_address >> 21) & 0x1ff,
        (virtual_address >> 12) & 0x1ff,
    ];
    proof {
        let va = virtual_address;
        assert(((va >> 30) & 0x1ff) == (va / 0x4000_0000) % 512 && ((va >> 21) & 0x1ff) == (va
            / 0x20_0000) % 512 && ((va >> 12) & 0x1ff) == (va / 0x1000) % 512 && ((va >> 30)
            & 0x1ff) < 512 && ((va >> 21) & 0x1ff) < 512 && ((va >> 12) & 0x1ff) < 512)
            by (bit_vector);
    }
    r
}

/// Round an address down to its page boundary.
pub fn page_align_round_down(val: usize) -> (r: usize)
    ensures
        r == crate::page_allocator::spec_page_align_down(val as int),
        r % PAGE_SIZE == 0,
        r <= val < r + PAGE_SIZE,
{
    let o: usize = PAGE_SIZE - 1;
    let r = val & !o;
    proof {
        assert((val & !4095usize) == (val / 4096) * 4096 && (val & !4095usize) % 4096 == 0 && (val
            & !4095usize) <= val < (val & !4095usize) + 4096) by (bit_vector);
    }
    r
}

/// The resolution granularity of a leaf found at level `l`: a leaf
/// high up in the tree is a coarser mapping, so the root level resolves
/// with 1 GiB granularity, the middle level with 2 MiB, and the leaf
/// level with 4 KiB.
pub open spec fn spec_level_span(l: int) -> int {
    if l == 0 {
        0x4000_0000
    } else if l == 1 {
        0x20_0000
    } else {
        0x1000
    }
}

/// The physical address a leaf entry found at level `l` resolves `va`
/// to: the entry's frame bits above the level's granularity, combined
/// with the low-order bits of the virtual address sized to that level.
pub open spec fn spec_leaf_resolve(e: int, va: int, l: int) -> int {
    let m = spec_level_span(l);
    (spec_entry_address(e) / m) * m + va % m
}

/// The translator: a three-level radix page table over an arena of
/// tables. Table index 0 is the root, allocated at initialization and
/// owned for the kernel's lifetime; a branch entry's frame number is the
/// arena index of the table it points at. Each table is backed by one
/// page of physical memory taken from the page allocator.
pub struct PagingState {
    tables: Vec<PageTable>,
    table_addrs: Vec<usize>,
    levels: Ghost<Seq<int>>,
}

impl PagingState {
    /// How many tables the arena holds.
    pub closed spec fn num_tables(&self) -> int {
        self.tables@.len() as int
    }

    /// The raw entry stored in slot `idx` of table `t`.
    pub closed spec fn entry_at(&self, t: int, idx: int) -> int {
        self.tables@[t].entries@[idx].entry as int
    }

    /// The translation level of table `t`: 0 for the root down to 2 for
    /// the tables whose entries are leaves.
    pub closed spec fn level_of(&self, t: int) -> int {
        self.levels@[t]
    }

    /// The physical address backing table `t`.
    pub closed spec fn table_address(&self, t: int) -> int {
        self.table_addrs@[t] as int
    }

    /// The physical address of the root table, as the translation-root
    /// register wants it.
    pub closed spec fn root_address(&self) -> int {
        self.table_addrs@[0] as int
    }

    /// One table is well formed: 512 entries, every entry inside the
    /// bound that keeps entry arithmetic exact, valid entries above the
    /// leaf level are branches to a next-level table, and valid entries
    /// at the leaf level are leaves.
    pub closed spec fn table_wf(&self, t: int) -> bool {
        &&& self.tables@[t].entries@.len() == 512
        &&& forall|i: int| 0 <= i < 512 ==> 0 <= #[trigger] self.entry_at(t, i) < ENTRY_BOUND as int
        &&& 0 <= self.level_of(t) <= 2
        &&& (self.level_of(t) < 2 ==> forall|i: int|
            0 <= i < 512 && spec_entry_valid(#[trigger] self.entry_at(t, i)) ==> {
                &&& spec_entry_branch(self.entry_at(t, i))
                &&& 0 <= spec_entry_ppn(self.entry_at(t, i)) < self.num_tables()
                &&& self.level_of(spec_entry_ppn(self.entry_at(t, i))) == self.level_of(t) + 1
            })
        &&& (self.level_of(t) == 2 ==> forall|i: int|
            0 <= i < 512 && spec_entry_valid(#[trigger] self.entry_at(t, i))
                ==> !spec_entry_branch(self.entry_at(t, i)))
    }

    /// Table `t` points at table `c` through slot `i`.
    pub closed spec fn edge(&self, t: int, i: int, c: int) -> bool {
        &&& 0 <= t < self.num_tables()
        &&& 0 <= i < 512
        &&& self.level_of(t) < 2
        &&& spec_entry_valid(self.entry_at(t, i))
        &&& spec_entry_ppn(self.entry_at(t, i)) == c
    }

    /// No table is pointed at by two different branch entries: the table
    /// graph is a tree under the root.
    pub closed spec fn parents_unique(&self) -> bool {
        forall|t1: int, i1: int, t2: int, i2: int, c: int|
            #[trigger] self.edge(t1, i1, c) && #[trigger] self.edge(t2, i2, c) ==> t1 == t2 && i1
                == i2
    }

    /// Well-formedness of the whole translator.
    pub closed spec fn wf(&self) -> bool {
        &&& 1 <= self.num_tables()
        &&& self.levels@.len() == self.num_tables()
        &&& self.table_addrs@.len() == self.num_tables()
        &&& self.level_of(0) == 0
        &&& forall|t: int| 0 <= t < self.num_tables() ==> self.table_wf(t)
        &&& self.parents_unique()
        &&& forall|t: int|
            0 <= t < self.num_tables() ==> #[trigger] self.table_address(t) % (PAGE_SIZE as int)
                == 0
    }

    /// The walk the hardware makes for `va`: descend from the root,
    /// returning nothing as soon as an invalid entry is met, resolving at
    /// a leaf with the granularity of the level it was found at: a leaf
    /// above the deepest level is a coarser 1 GiB or 2 MiB mapping.
    /// The walk supports such leaves as the hardware does, though this
    /// translator's `map` deliberately installs 4 KiB leaves only, so
    /// under `wf` every valid entry above the leaf level is a branch.
    pub open spec fn spec_walk(&self, va: int) -> Option<int> {
        let e0 = self.entry_at(0, spec_va_index(va, 0));
        if !spec_entry_valid(e0) {
            Option::None
        } else if !spec_entry_branch(e0) {
            Option::Some(spec_leaf_resolve(e0, va, 0))
        } else {
            let t1 = spec_entry_ppn(e0);
            if !(0 <= t1 < self.num_tables()) {
                Option::None
            } else {
                let e1 = self.entry_at(t1, spec_va_index(va, 1));
                if !spec_entry_valid(e1) {
                    Option::None
                } else if !spec_entry_branch(e1) {
                    Option::Some(spec_leaf_resolve(e1, va, 1))
                } else {
                    let t2 = spec_entry_ppn(e1);
                    if !(0 <= t2 < self.num_tables()) {
                        Option::None
                    } else {
                        let e2 = self.entry_at(t2, spec_va_index(va, 2));
                        if !spec_entry_valid(e2) {
                            Option::None
                        } else if !spec_entry_branch(e2) {
                            Option::Some(spec_leaf_resolve(e2, va, 2))
                        } else {
                            Option::None
                        }
                    }
                }
            }
        }
    }

    /// The raw leaf entry the walk for `va` resolves at, when it
    /// resolves at all: the same descent as `spec_walk`, returning the
    /// entry itself, permission bits included, instead of the resolved
    /// address.
    pub open spec fn spec_walk_leaf(&self, va: int) -> Option<int> {
        let e0 = self.entry_at(0, spec_va_index(va, 0));
        if !spec_entry_valid(e0) {
            Option::None
        } else if !spec_entry_branch(e0) {
            Option::Some(e0)
        } else {
            let t1 = spec_entry_ppn(e0);
            if !(0 <= t1 < self.num_tables()) {
                Option::None
            } else {
                let e1 = self.entry_at(t1, spec_va_index(va, 1));
                if !spec_entry_valid(e1) {
                    Option::None
                } else if !spec_entry_branch(e1) {
                    Option::Some(e1)
                } else {
                    let t2 = spec_entry_ppn(e1);
                    if !(0 <= t2 < self.num_tables()) {
                        Option::None
                    } else {
                        let e2 = self.entry_at(t2, spec_va_index(va, 2));
                        if !spec_entry_valid(e2) {
                            Option::None
                        } else if !spec_entry_branch(e2) {
                            Option::Some(e2)
                        } else {
                            Option::None
                        }
                    }
                }
            }
        }
    }

    /// Install a 4 KiB mapping from the page of `virtual_address` to the
    /// page of `physical_address`, with permission bits `bits`, which
    /// must name at least one of read, write and execute. Intermediate
    /// tables that are missing along the walk are materialized from the
    /// page allocator; failure of that allocation is the only failure,
    /// and it leaves every translation as it was. The walk of every page
    /// other than the mapped one is left exactly as it was.
    #[verifier::rlimit(100)]
    pub fn map(
        &mut self,
        allocator: &mut PageAllocator,
        virtual_address: usize,
        physical_address: usize,
        bits: i64,
    ) -> (r: Result<(), crate::KernelError>)
        requires
            old(self).wf(),
            old(allocator).wf(),
            bits & 0xe != 0,
            0 <= bits < 1024,
        ensures
            final(self).wf(),
            final(allocator).wf(),
            final(allocator)@.len() == old(allocator)@.len(),
            final(allocator).spec_region_base() == old(allocator).spec_region_base(),
            final(allocator).spec_alloc_start() == old(allocator).spec_alloc_start(),
            final(self).root_address() == old(self).root_address(),
            count_free(final(allocator)@) >= count_free(old(allocator)@) - 2,
            final(self).num_tables() >= old(self).num_tables(),
            r is Ok <==> (count_free(old(allocator)@) >= old(self).spec_tables_needed(
                virtual_address as int,
            ) && old(self).num_tables() + 2 <= MAX_TABLES),
            match r {
                Ok(()) => {
                    &&& forall|va2: int|
                        spec_same_page(va2, virtual_address as int)
                            ==> #[trigger] final(self).spec_walk(va2) == Option::Some(
                            spec_mapped_address(physical_address as int, va2),
                        )
                    &&& forall|va2: int|
                        spec_same_page(va2, virtual_address as int)
                            ==> #[trigger] final(self).spec_walk_leaf(va2) == Option::Some(
                            spec_leaf_entry(physical_address as u64, bits as u64) as int,
                        )
                    &&& forall|va2: int|
                        !spec_same_page(va2, virtual_address as int)
                            ==> #[trigger] final(self).spec_walk(va2) == old(self).spec_walk(va2)
                    &&& forall|va2: int|
                        !spec_same_page(va2, virtual_address as int)
                            ==> #[trigger] final(self).spec_walk_leaf(va2) == old(
                            self,
                        ).spec_walk_leaf(va2)
                    &&& final(self).num_tables() == old(self).num_tables() + old(
                        self,
                    ).spec_tables_needed(virtual_address as int)
                    &&& count_free(final(allocator)@) == count_free(old(allocator)@) - old(
                        self,
                    ).spec_tables_needed(virtual_address as int)
                },
                Err(crate::KernelError::OutOfMemory) => {
                    &&& forall|va2: int|
                        #[trigger] final(self).spec_walk(va2) == old(self).spec_walk(va2)
                    &&& forall|va2: int|
                        #[trigger] final(self).spec_walk_leaf(va2) == old(self).spec_walk_leaf(va2)
                },
                Err(_) => false,
            },
    {
        let ghost va = virtual_address as int;
        if self.tables.len() > MAX_TABLES - 2 {
            return Err(crate::KernelError::OutOfMemory);
        }
        let vo = get_virtual_offsets(virtual_address);
        let ghost i0 = spec_va_index(va, 0);
        let ghost i1 = spec_va_index(va, 1);
        let ghost i2 = spec_va_index(va, 2);
        proof {
            assert(self.table_wf(0));
        }
        let e0 = self.tables[0].entries[vo[0]];
        proof {
            assert(e0.entry as int == self.entry_at(0, i0));
        }
        let ghost created1 = !spec_entry_valid(old(self).entry_at(0, i0));
        let t1: usize;
        if e0.is_invalid() {
            // Materialize the mid-level table and bind it into the root.
            t1 = match self.new_table(allocator, Ghost(1int)) {
                Some(tt) => tt,
                None => {
                    return Err(crate::KernelError::OutOfMemory);
                },
            };
            let ghost sa = *self;
            proof {
                lemma_branch_entry_facts(t1 as u64);
                assert(self.table_wf(0));
            }
            let branch0: u64 = ((t1 as u64) << 10) | 1;
            self.set_table_entry(0, vo[0], branch0 as i64);
            proof {
                assert(self.entry_at(0, i0) == spec_branch_entry(t1 as u64) as int);
                assert forall|x: int, y: int| !sa.edge(x, y, t1 as int) by {
                    if sa.edge(x, y, t1 as int) {
                        if x < old(self).num_tables() {
                            assert(sa.entry_at(x, y) == old(self).entry_at(x, y));
                            assert(old(self).table_wf(x));
                        } else {
                            assert(sa.entry_at(x, y) == 0);
                        }
                    }
                }
                lemma_wf_after_branch_bind(sa, *self, 0, i0, t1 as int);
                assert(t1 as int == old(self).num_tables());
                assert(self.num_tables() == old(self).num_tables() + 1);
                assert forall|x: int, y: int|
                    0 <= x < old(self).num_tables() && 0 <= y < 512 && !(x == 0 && y == i0)
                        implies #[trigger] self.entry_at(x, y) == old(self).entry_at(x, y) by {
                    assert(sa.entry_at(x, y) == old(self).entry_at(x, y));
                }
                assert forall|y: int| 0 <= y < 512 implies #[trigger] self.entry_at(t1 as int, y)
                    == 0 by {
                    assert(sa.entry_at(t1 as int, y) == 0);
                }
                assert forall|x: int| 0 <= x < old(self).num_tables() implies #[trigger] self.level_of(
                    x,
                ) == old(self).level_of(x) by {
                    assert(sa.level_of(x) == old(self).level_of(x));
                }
                assert(self.root_address() == old(self).root_address());
            }
        } else {
            t1 = (get_address_from_entry(&e0) / (PAGE_SIZE as i64)) as usize;
            proof {
                assert(t1 == spec_entry_ppn(self.entry_at(0, i0)));
            }
        }
        let ghost s1 = *self;
        proof {
            assert(s1.wf());
            assert(t1 < s1.num_tables());
            assert(s1.level_of(t1 as int) == 1);
            assert(spec_entry_valid(s1.entry_at(0, i0)) && spec_entry_branch(s1.entry_at(0, i0))
                && spec_entry_ppn(s1.entry_at(0, i0)) == t1);
            assert(self.table_wf(t1 as int));
        }
        let e1 = self.tables[t1].entries[vo[1]];
        proof {
            assert(e1.entry as int == s1.entry_at(t1 as int, i1));
        }
        let ghost created2 = !spec_entry_valid(s1.entry_at(t1 as int, i1));
        let t2: usize;
        if e1.is_invalid() {
            // Materialize the leaf-level table and bind it at the middle.
            t2 = match self.new_table(allocator, Ghost(2int)) {
                Some(tt) => tt,
                None => {
                    proof {
                        if created1 {
                            lemma_walks_unchanged_after_bind(*old(self), *self, i0);
                        }
                    }
                    return Err(crate::KernelError::OutOfMemory);
                },
            };
            let ghost sb = *self;
            proof {
                lemma_branch_entry_facts(t2 as u64);
                assert(self.table_wf(t1 as int));
            }
            let branch1: u64 = ((t2 as u64) << 10) | 1;
            self.set_table_entry(t1, vo[1], branch1 as i64);
            proof {
                assert(self.entry_at(t1 as int, i1) == spec_branch_entry(t2 as u64) as int);
                assert forall|x: int, y: int| !sb.edge(x, y, t2 as int) by {
                    if sb.edge(x, y, t2 as int) {
                        if x < s1.num_tables() {
                            assert(sb.entry_at(x, y) == s1.entry_at(x, y));
                            assert(s1.table_wf(x));
                        } else {
                            assert(sb.entry_at(x, y) == 0);
                        }
                    }
                }
                lemma_wf_after_branch_bind(sb, *self, t1 as int, i1, t2 as int);
                assert(t2 as int == s1.num_tables());
                assert(self.num_tables() == s1.num_tables() + 1);
                assert forall|x: int, y: int|
                    0 <= x < s1.num_tables() && 0 <= y < 512 && !(x == t1 as int && y == i1)
                        implies #[trigger] self.entry_at(x, y) == s1.entry_at(x, y) by {
                    assert(sb.entry_at(x, y) == s1.entry_at(x, y));
                }
                assert forall|y: int| 0 <= y < 512 implies #[trigger] self.entry_at(t2 as int, y)
                    == 0 by {
                    assert(sb.entry_at(t2 as int, y) == 0);
                }
                assert forall|x: int| 0 <= x < s1.num_tables() implies #[trigger] self.level_of(x)
                    == s1.level_of(x) by {
                    assert(sb.level_of(x) == s1.level_of(x));
                }
                assert(self.root_address() == s1.root_address());
            }
        } else {
            t2 = (get_address_from_entry(&e1) / (PAGE_SIZE as i64)) as usize;
            proof {
                assert(t2 == spec_entry_ppn(s1.entry_at(t1 as int, i1)));
            }
        }
        let ghost s2 = *self;
        proof {
            assert(s2.wf());
            assert(t2 < s2.num_tables());
            assert(s2.level_of(t2 as int) == 2);
            assert(spec_entry_valid(s2.entry_at(t1 as int, i1)) && spec_entry_branch(
                s2.entry_at(t1 as int, i1),
            ) && spec_entry_ppn(s2.entry_at(t1 as int, i1)) == t2);
            assert(self.table_wf(t2 as int));
        }
        // Write the leaf entry.
        let pa64 = physical_address as u64;
        let leaf: u64 = (((pa64 >> 30) & 0x3ff_ffff) << 28) | (((pa64 >> 21) & 0x1ff) << 19) | ((
        (pa64 >> 12) & 0x1ff) << 10) | (bits as u64) | 1;
        proof {
            assert((bits as u64) < 1024u64 && (bits as u64) & 0xeu64 != 0u64) by (bit_vector)
                requires
                    0 <= bits < 1024i64,
                    bits & 0xei64 != 0i64,
            ;
            lemma_leaf_entry_facts(pa64, bits as u64);
            assert(leaf == spec_leaf_entry(pa64, bits as u64));
        }
        self.set_table_entry(t2, vo[2], leaf as i64);
        proof {
            assert(self.entry_at(t2 as int, i2) == spec_leaf_entry(pa64, bits as u64) as int);
            lemma_wf_after_leaf_write(s2, *self, t2 as int, i2);
            lemma_map_walks(
                *old(self),
                s1,
                s2,
                *self,
                va,
                t1 as int,
                t2 as int,
                created1,
                created2,
                spec_leaf_entry(pa64, bits as u64) as int,
            );
            let ppa = physical_address as int;
            assert forall|va2: int| spec_same_page(va2, va) implies self.spec_walk(va2)
                == Option::Some(spec_mapped_address(ppa, va2)) by {
                assert(self.spec_walk(va2) == Option::Some(
                    spec_leaf_resolve(spec_leaf_entry(pa64, bits as u64) as int, va2, 2),
                ));
            }
            // Success accounting: what was needed was paid for.
            if created1 {
                assert(created2);
                assert(old(self).spec_tables_needed(va) == 2);
                assert(count_free(old(allocator)@) >= 2);
            } else {
                assert(s1 == *old(self));
                if created2 {
                    assert(old(self).spec_tables_needed(va) == 1);
                    assert(count_free(old(allocator)@) >= 1);
                } else {
                    assert(old(self).spec_tables_needed(va) == 0);
                    lemma_count_free_positive(old(allocator)@);
                }
            }
            assert(count_free(old(allocator)@) >= old(self).spec_tables_needed(va));
            assert(old(self).num_tables() + 2 <= MAX_TABLES);
        }
        Ok(())
    }

    /// Identity-map the single page at `addr`, read-write-execute.
    fn map_identity_page(&mut self, allocator: &mut PageAllocator, addr: usize, bits: i64) -> (r:
        Result<(), crate::KernelError>)
        requires
            old(self).wf(),
            old(allocator).wf(),
            addr % PAGE_SIZE == 0,
            addr as int + 0x1000 <= 0x80_0000_0000,
            bits & 0xe != 0,
            0 <= bits < 1024,
        ensures
            final(self).wf(),
            final(allocator).wf(),
            final(allocator)@.len() == old(allocator)@.len(),
            final(allocator).spec_region_base() == old(allocator).spec_region_base(),
            final(allocator).spec_alloc_start() == old(allocator).spec_alloc_start(),
            final(self).root_address() == old(self).root_address(),
            r is Ok <==> (count_free(old(allocator)@) >= old(self).spec_tables_needed(addr as int)
                && old(self).num_tables() + 2 <= MAX_TABLES),
            old(self).spec_tables_needed(addr as int) <= 2,
            r is Ok ==> forall|va2: int|
                addr <= va2 < addr + 0x1000 ==> #[trigger] final(self).spec_walk(va2)
                    == Option::Some(va2),
            r is Ok ==> forall|va2: int|
                addr <= va2 < addr + 0x1000 ==> #[trigger] final(self).spec_walk_leaf(va2)
                    == Option::Some(spec_leaf_entry(addr as u64, bits as u64) as int),
            count_free(final(allocator)@) >= count_free(old(allocator)@) - 2,
            old(self).num_tables() <= final(self).num_tables(),
            r is Ok ==> final(self).num_tables() <= old(self).num_tables() + 2,
            forall|va2: int|
                !spec_same_page(va2, addr as int) ==> #[trigger] final(self).spec_walk(va2) == old(
                    self,
                ).spec_walk(va2),
            forall|va2: int|
                !spec_same_page(va2, addr as int) ==> #[trigger] final(self).spec_walk_leaf(va2)
                    == old(self).spec_walk_leaf(va2),
            r is Err ==> (forall|va2: int|
                #[trigger] final(self).spec_walk(va2) == old(self).spec_walk(va2)) && (forall|
                va2: int,
            |
                #[trigger] final(self).spec_walk_leaf(va2) == old(self).spec_walk_leaf(va2)) && r
                == Err::<(), crate::KernelError>(crate::KernelError::OutOfMemory),
    {
        let r = self.map(allocator, addr, addr, bits);
        proof {
            match r {
                Ok(()) => {
                    assert forall|va2: int|
                        addr <= va2 < addr + 0x1000 implies #[trigger] self.spec_walk(va2)
                        == Option::Some(va2) by {
                        assert(va2 / 0x1000 == addr as int / 0x1000) by (nonlinear_arith)
                            requires
                                addr as int % 0x1000 == 0,
                                addr as int <= va2 < addr as int + 0x1000,
                        ;
                        lemma_same_block_same_page(va2, addr as int);
                        lemma_identity_resolve(addr as u64, va2 as u64);
                    }
                    assert forall|va2: int|
                        addr <= va2 < addr + 0x1000 implies #[trigger] self.spec_walk_leaf(va2)
                        == Option::Some(spec_leaf_entry(addr as u64, bits as u64) as int) by {
                        assert(va2 / 0x1000 == addr as int / 0x1000) by (nonlinear_arith)
                            requires
                                addr as int % 0x1000 == 0,
                                addr as int <= va2 < addr as int + 0x1000,
                        ;
                        lemma_same_block_same_page(va2, addr as int);
                    }
                },
                Err(_) => {},
            }
        }
        r
    }

    /// Identity-map every page that touches `[start, end)`, with full
    /// read-write-execute permission: the range is page-aligned outward
    /// and `map` is called for every page with virtual equal to physical.
    /// Every other page's translation is left exactly as it was, and a
    /// translation that already was the identity stays the identity.
    #[verifier::rlimit(100)]
    pub fn identity_map_range(
        &mut self,
        allocator: &mut PageAllocator,
        start: usize,
        end: usize,
        bits: i64,
    ) -> (r: Result<(), crate::KernelError>)
        requires
            old(self).wf(),
            old(allocator).wf(),
            start <= end,
            end as int <= 0x7f_ffff_f000,
            end + PAGE_SIZE <= usize::MAX,
            bits & 0xe != 0,
            0 <= bits < 1024,
        ensures
            final(self).wf(),
            final(allocator).wf(),
            final(allocator)@.len() == old(allocator)@.len(),
            final(allocator).spec_region_base() == old(allocator).spec_region_base(),
            final(allocator).spec_alloc_start() == old(allocator).spec_alloc_start(),
            final(self).root_address() == old(self).root_address(),
            r is Ok ==> forall|va2: int|
                spec_page_align_down(start as int) <= va2 < spec_page_align_up(end as int)
                    ==> #[trigger] final(self).spec_walk(va2) == Option::Some(va2),
            r is Ok ==> forall|va2: int|
                spec_page_align_down(start as int) <= va2 < spec_page_align_up(end as int)
                    ==> #[trigger] final(self).spec_walk_leaf(va2) == Option::Some(
                    spec_leaf_entry(spec_page_align_down(va2) as u64, bits as u64) as int,
                ),
            forall|va2: int|
                (forall|b: int|
                    spec_page_align_down(start as int) <= b < spec_page_align_up(end as int)
                        ==> !(#[trigger] spec_same_page(va2, b)))
                    ==> #[trigger] final(self).spec_walk(va2) == old(self).spec_walk(va2),
            forall|va2: int|
                0 <= va2 < 0x80_0000_0000 && old(self).spec_walk(va2) == Option::Some(va2)
                    ==> #[trigger] final(self).spec_walk(va2) == Option::Some(va2),
            count_free(old(allocator)@) >= 2 * spec_range_pages(start as int, end as int) && old(
                self,
            ).num_tables() + 2 * spec_range_pages(start as int, end as int) <= MAX_TABLES ==> r
                is Ok,
            count_free(final(allocator)@) >= count_free(old(allocator)@) - 2 * spec_range_pages(
                start as int,
                end as int,
            ),
            final(self).num_tables() >= old(self).num_tables(),
            r is Ok ==> final(self).num_tables() <= old(self).num_tables() + 2 * spec_range_pages(
                start as int,
                end as int,
            ),
            r is Err ==> r == Err::<(), crate::KernelError>(crate::KernelError::OutOfMemory),
    {
        let ghost pre = *self;
        let ghost prealloc = *allocator;
        let current_address_start = page_align_round_down(start);
        let current_address_end = page_align_round_up(end);
        let number_pages = (current_address_end - current_address_start) / PAGE_SIZE;
        let ghost n = number_pages as int;
        let ghost s0 = current_address_start as int;
        let ghost e0 = current_address_end as int;
        let ghost budget = count_free(prealloc@) >= 2 * n && pre.num_tables() + 2 * n
            <= MAX_TABLES;
        proof {
            assert(e0 - s0 == n * 0x1000) by (nonlinear_arith)
                requires
                    s0 % 0x1000 == 0,
                    e0 % 0x1000 == 0,
                    0 <= s0 <= e0,
                    n == (e0 - s0) / 0x1000,
            ;
            assert(n == spec_range_pages(start as int, end as int));
        }
        let mut k: usize = 0;
        while k < number_pages
            invariant
                self.wf(),
                allocator.wf(),
                pre == *old(self),
                prealloc == *old(allocator),
                k <= number_pages,
                number_pages as int == n,
                current_address_start as int == s0,
                s0 % 0x1000 == 0,
                0 <= s0,
                s0 + n * 0x1000 == e0 <= 0x80_0000_0000,
                current_address_end as int == e0,
                s0 == spec_page_align_down(start as int),
                e0 == spec_page_align_up(end as int),
                n == spec_range_pages(start as int, end as int),
                allocator@.len() == prealloc@.len(),
                allocator.spec_region_base() == prealloc.spec_region_base(),
                allocator.spec_alloc_start() == prealloc.spec_alloc_start(),
                self.root_address() == pre.root_address(),
                pre.wf(),
                budget == (count_free(prealloc@) >= 2 * n && pre.num_tables() + 2 * n
                    <= MAX_TABLES),
                bits & 0xe != 0,
                0 <= bits < 1024,
                budget ==> count_free(allocator@) >= 2 * (n - k) && self.num_tables() + 2 * (n - k)
                    <= MAX_TABLES,
                count_free(allocator@) >= count_free(prealloc@) - 2 * k,
                pre.num_tables() <= self.num_tables() <= pre.num_tables() + 2 * k,
                forall|va2: int|
                    s0 <= va2 < s0 + 0x1000 * k ==> #[trigger] self.spec_walk(va2) == Option::Some(
                        va2,
                    ),
                forall|va2: int|
                    s0 <= va2 < s0 + 0x1000 * k ==> #[trigger] self.spec_walk_leaf(va2)
                        == Option::Some(
                        spec_leaf_entry(spec_page_align_down(va2) as u64, bits as u64) as int,
                    ),
                forall|va2: int|
                    (forall|p: int|
                        0 <= p < k ==> !(#[trigger] spec_same_page(va2, spec_range_page(s0, p))))
                        ==> #[trigger] self.spec_walk(va2) == pre.spec_walk(va2),
            decreases number_pages - k,
        {
            let addr = current_address_start + PAGE_SIZE * k;
            proof {
                assert(0xei64 & 0xei64 != 0i64) by (bit_vector);
                assert(addr as int == s0 + 0x1000 * k && addr as int + 0x1000 <= e0)
                    by (nonlinear_arith)
                    requires
                        addr == s0 + 0x1000 * k,
                        0 <= k < n,
                        s0 + n * 0x1000 == e0,
                ;
                assert(addr as int % 0x1000 == 0) by (nonlinear_arith)
                    requires
                        addr == s0 + 0x1000 * k,
                        s0 % 0x1000 == 0,
                        0 <= k,
                ;
            }
            let ghost scur = *self;
            match self.map_identity_page(allocator, addr, bits) {
                Ok(()) => {},
                Err(e) => {
                    proof {
                        if budget {
                            assert(false);
                        }
                        lemma_range_abort(pre, scur, *self, s0, e0, k as int, n);
                    }
                    return Err(e);
                },
            }
            proof {
                lemma_range_step(pre, scur, *self, s0, k as int, addr as int, bits as u64);
            }
            k += 1;
        }
        proof {
            lemma_range_frame_compose(pre, *self, s0, e0, n, n);
        }
        Ok(())
    }

    /// Walk the table for `virtual_address` and hand back the raw leaf
    /// entry it resolves at, permission bits included, or nothing when
    /// any level along the walk is invalid.
    pub fn walk_leaf_entry(&self, virtual_address: usize) -> (r: Option<i64>)
        requires
            self.wf(),
        ensures
            match r {
                Some(e) => self.spec_walk_leaf(virtual_address as int) == Option::Some(e as int),
                None => self.spec_walk_leaf(virtual_address as int) is None,
            },
    {
        let ghost va = virtual_address as int;
        let vo = get_virtual_offsets(virtual_address);
        let num = self.tables.len();
        // Level 0: the root table.
        proof {
            assert(self.table_wf(0));
        }
        let e0 = self.tables[0].entries[vo[0]];
        proof {
            assert(e0.entry as int == self.entry_at(0, spec_va_index(va, 0)));
        }
        if e0.is_invalid() {
            return None;
        }
        if e0.is_leaf() {
            return Some(e0.get_entry());
        }
        let t1 = (get_address_from_entry(&e0) / (PAGE_SIZE as i64)) as usize;
        proof {
            assert(t1 == spec_entry_ppn(self.entry_at(0, spec_va_index(va, 0))));
            assert(self.table_wf(t1 as int));
        }
        // Level 1.
        let e1 = self.tables[t1].entries[vo[1]];
        proof {
            assert(e1.entry as int == self.entry_at(t1 as int, spec_va_index(va, 1)));
        }
        if e1.is_invalid() {
            return None;
        }
        if e1.is_leaf() {
            return Some(e1.get_entry());
        }
        let t2 = (get_address_from_entry(&e1) / (PAGE_SIZE as i64)) as usize;
        proof {
            assert(t2 == spec_entry_ppn(self.entry_at(t1 as int, spec_va_index(va, 1))));
            assert(self.table_wf(t2 as int));
        }
        // Level 2: only a leaf can stand here.
        let e2 = self.tables[t2].entries[vo[2]];
        proof {
            assert(e2.entry as int == self.entry_at(t2 as int, spec_va_index(va, 2)));
        }
        if e2.is_invalid() {
            return None;
        }
        if e2.is_leaf() {
            return Some(e2.get_entry());
        }
        None
    }

    /// The physical address of the root table, as the translation-root
    /// register install path needs it.
    pub fn get_root_address(&self) -> (r: usize)
        requires
            self.wf(),
        ensures
            r == self.root_address(),
            r % PAGE_SIZE == 0,
    {
        proof {
            assert(self.table_address(0) % (PAGE_SIZE as int) == 0);
        }
        self.table_addrs[0]
    }

    /// Walk the table for `virtual_address`: the physical address it
    /// translates to, or nothing when any level along the walk is
    /// invalid.
    pub fn virtual_to_physical(&self, virtual_address: usize) -> (r: Option<u64>)
        requires
            self.wf(),
        ensures
            match r {
                Some(pa) => self.spec_walk(virtual_address as int) == Option::Some(pa as int),
                None => self.spec_walk(virtual_address as int) is None,
            },
    {
        let ghost va = virtual_address as int;
        let vo = get_virtual_offsets(virtual_address);
        let num = self.tables.len();
        // Level 0: the root table.
        proof {
            assert(self.table_wf(0));
        }
        let e0 = self.tables[0].entries[vo[0]];
        proof {
            assert(e0.entry as int == self.entry_at(0, spec_va_index(va, 0)));
        }
        if e0.is_invalid() {
            return None;
        }
        if e0.is_leaf() {
            return Some(leaf_resolve(&e0, virtual_address, 0));
        }
        let t1 = (get_address_from_entry(&e0) / (PAGE_SIZE as i64)) as usize;
        proof {
            assert(t1 == spec_entry_ppn(self.entry_at(0, spec_va_index(va, 0))));
            assert(self.table_wf(t1 as int));
        }
        // Level 1.
        let e1 = self.tables[t1].entries[vo[1]];
        proof {
            assert(e1.entry as int == self.entry_at(t1 as int, spec_va_index(va, 1)));
        }
        if e1.is_invalid() {
            return None;
        }
        if e1.is_leaf() {
            return Some(leaf_resolve(&e1, virtual_address, 1));
        }
        let t2 = (get_address_from_entry(&e1) / (PAGE_SIZE as i64)) as usize;
        proof {
            assert(t2 == spec_entry_ppn(self.entry_at(t1 as int, spec_va_index(va, 1))));
            assert(self.table_wf(t2 as int));
        }
        // Level 2: only a leaf can stand here.
        let e2 = self.tables[t2].entries[vo[2]];
        proof {
            assert(e2.entry as int == self.entry_at(t2 as int, spec_va_index(va, 2)));
        }
        if e2.is_invalid() {
            return None;
        }
        if e2.is_leaf() {
            return Some(leaf_resolve(&e2, virtual_address, 2));
        }
        None
    }
}

/// Hard cap on the number of tables the arena will hold. Far beyond any
/// physical memory this kernel can manage, and low enough that a table
/// index always fits the frame-number field of a branch entry.
pub const MAX_TABLES: usize = 0x1000_0000;

/// Two addresses that fall into the same 4 KiB translation slot: all
/// three of their level indices agree.
pub open spec fn spec_same_page(va1: int, va2: int) -> bool {
    &&& spec_va_index(va1, 0) == spec_va_index(va2, 0)
    &&& spec_va_index(va1, 1) == spec_va_index(va2, 1)
    &&& spec_va_index(va1, 2) == spec_va_index(va2, 2)
}

/// The physical address that a fresh leaf for `pa` resolves `va` to:
/// the page frame of `pa` (its 44-bit frame number), combined with the
/// in-page offset of `va`.
pub open spec fn spec_mapped_address(pa: int, va: int) -> int {
    ((pa / 0x1000) % 0x1000_0000_0000) * 0x1000 + va % 0x1000
}

impl PagingState {
    /// How many new tables a `map` of `va` has to materialize: two when
    /// the root slot is invalid, one when only the mid-level slot is,
    /// none when both levels already stand.
    pub open spec fn spec_tables_needed(&self, va: int) -> int {
        let e0 = self.entry_at(0, spec_va_index(va, 0));
        if !spec_entry_valid(e0) {
            2
        } else {
            let e1 = self.entry_at(spec_entry_ppn(e0), spec_va_index(va, 1));
            if !spec_entry_valid(e1) {
                1
            } else {
                0
            }
        }
    }

    /// Write one slot of one table, leaving everything else unchanged.
    fn set_table_entry(&mut self, t: usize, idx: usize, value: i64)
        requires
            t < old(self).num_tables(),
            idx < 512,
            old(self).tables@[t as int].entries@.len() == 512,
        ensures
            final(self).num_tables() == old(self).num_tables(),
            final(self).levels@ == old(self).levels@,
            final(self).table_addrs@ == old(self).table_addrs@,
            final(self).entry_at(t as int, idx as int) == value,
            final(self).tables@[t as int].entries@.len() == 512,
            forall|t2: int, i2: int|
                0 <= t2 < old(self).num_tables() && 0 <= i2 < 512 && !(t2 == t && i2 == idx)
                    ==> #[trigger] final(self).entry_at(t2, i2) == old(self).entry_at(t2, i2),
            forall|t2: int|
                0 <= t2 < old(self).num_tables() && t2 != t
                    ==> #[trigger] final(self).tables@[t2] == old(self).tables@[t2],
    {
        self.tables[t].entries[idx] = PageTableEntry { entry: value };
    }

    /// Take one page from the allocator and install a fresh, all-invalid
    /// table of the given level on it. Returns the new table's arena
    /// index, or nothing when the allocator is exhausted.
    fn new_table(&mut self, allocator: &mut PageAllocator, Ghost(level): Ghost<int>) -> (r: Option<
        usize,
    >)
        requires
            old(self).wf(),
            old(allocator).wf(),
            1 <= level <= 2,
            old(self).num_tables() < MAX_TABLES,
        ensures
            final(allocator).wf(),
            final(allocator)@.len() == old(allocator)@.len(),
            final(allocator).spec_region_base() == old(allocator).spec_region_base(),
            final(allocator).spec_alloc_start() == old(allocator).spec_alloc_start(),
            match r {
                Some(t) => {
                    &&& t == old(self).num_tables()
                    &&& final(self).wf()
                    &&& final(self).num_tables() == old(self).num_tables() + 1
                    &&& final(self).level_of(t as int) == level
                    &&& forall|i: int| 0 <= i < 512 ==> #[trigger] final(self).entry_at(t as int, i) == 0
                    &&& forall|t2: int, i2: int|
                        0 <= t2 < old(self).num_tables() && 0 <= i2 < 512
                            ==> #[trigger] final(self).entry_at(t2, i2) == old(self).entry_at(
                            t2,
                            i2,
                        )
                    &&& forall|t2: int|
                        0 <= t2 < old(self).num_tables() ==> #[trigger] final(self).level_of(t2)
                            == old(self).level_of(t2) && final(self).table_address(t2) == old(
                            self,
                        ).table_address(t2)
                    &&& count_free(final(allocator)@) == count_free(old(allocator)@) - 1
                    &&& count_free(old(allocator)@) > 0
                },
                None => {
                    &&& count_free(old(allocator)@) == 0
                    &&& *final(self) == *old(self)
                    &&& final(allocator)@ == old(allocator)@
                },
            },
    {
        proof {
            lemma_count_free_positive(allocator@);
        }
        let page = match allocator.alloc_pages(1) {
            Some(addr) => addr,
            None => {
                return None;
            },
        };
        proof {
            let s0 = old(allocator)@;
            let i = first_fit_index(s0, 1);
            assert(!s0[i].spec_taken());
            lemma_count_free_alloc_one(s0, i);
        }
        // Build the fresh table: 512 invalid entries.
        let mut entries: Vec<PageTableEntry> = Vec::new();
        let mut i: usize = 0;
        while i < 512
            invariant
                i <= 512,
                entries@.len() == i,
                forall|j: int| 0 <= j < i ==> (#[trigger] entries@[j]).entry == 0,
            decreases 512 - i,
        {
            entries.push(PageTableEntry { entry: 0 });
            i += 1;
        }
        let t = self.tables.len();
        self.tables.push(PageTable { entries });
        self.table_addrs.push(page);
        self.levels = Ghost(self.levels@.push(level));
        proof {
            assert forall|t2: int| 0 <= t2 < self.num_tables() implies self.table_wf(t2) by {
                assert(old(self).wf());
                if t2 < t {
                    assert(old(self).table_wf(t2));
                    assert(self.tables@[t2] == old(self).tables@[t2]);
                    assert(self.level_of(t2) == old(self).level_of(t2));
                    assert forall|i: int| 0 <= i < 512 implies #[trigger] self.entry_at(t2, i)
                        == old(self).entry_at(t2, i) by {}
                } else {
                    assert forall|i: int| 0 <= i < 512 implies #[trigger] self.entry_at(t2, i)
                        == 0 by {}
                }
            }
            assert forall|t2: int| 0 <= t2 < self.num_tables() implies #[trigger] self.table_address(
                t2,
            ) % (PAGE_SIZE as int) == 0 by {
                if t2 < t {
                    assert(self.table_addrs@[t2] == old(self).table_addrs@[t2]);
                    assert(old(self).table_address(t2) % (PAGE_SIZE as int) == 0);
                } else {
                    assert(self.table_addrs@[t2] == page);
                }
            }
            assert(self.parents_unique()) by {
                assert forall|t1: int, i1: int, t2: int, i2: int, c: int|
                    #[trigger] self.edge(t1, i1, c) && #[trigger] self.edge(t2, i2, c) implies t1
                    == t2 && i1 == i2 by {
                    assert(old(self).edge(t1, i1, c));
                    assert(old(self).edge(t2, i2, c));
                }
            }
        }
        Some(t)
    }
}

/// Binding a fresh branch into an invalid slot of a well-formed arena
/// keeps it well formed, provided nothing else pointed at the child yet.
proof fn lemma_wf_after_branch_bind(pre: PagingState, post: PagingState, parent: int, slot: int, child: int)
    requires
        pre.wf(),
        0 <= parent < pre.num_tables(),
        0 <= slot < 512,
        0 <= child < pre.num_tables(),
        pre.level_of(parent) < 2,
        pre.level_of(child) == pre.level_of(parent) + 1,
        !spec_entry_valid(pre.entry_at(parent, slot)),
        forall|x: int, y: int| !pre.edge(x, y, child),
        post.num_tables() == pre.num_tables(),
        post.levels@ == pre.levels@,
        post.table_addrs@ == pre.table_addrs@,
        forall|x: int|
            0 <= x < pre.num_tables() && x != parent ==> #[trigger] post.tables@[x]
                == pre.tables@[x],
        forall|y: int|
            0 <= y < 512 && y != slot ==> #[trigger] post.entry_at(parent, y) == pre.entry_at(
                parent,
                y,
            ),
        post.tables@[parent].entries@.len() == 512,
        spec_entry_valid(post.entry_at(parent, slot)),
        spec_entry_branch(post.entry_at(parent, slot)),
        spec_entry_ppn(post.entry_at(parent, slot)) == child,
        0 <= post.entry_at(parent, slot) < ENTRY_BOUND,
    ensures
        post.wf(),
{
    assert forall|t: int| 0 <= t < post.num_tables() implies post.table_wf(t) by {
        assert(pre.table_wf(t));
        assert(post.level_of(t) == pre.level_of(t));
        if t != parent {
            assert(post.tables@[t] == pre.tables@[t]);
            assert forall|i: int| 0 <= i < 512 implies #[trigger] post.entry_at(t, i)
                == pre.entry_at(t, i) by {}
        } else {
            assert(pre.table_wf(child));
        }
    }
    assert forall|t1: int, i1: int, t2: int, i2: int, c: int|
        #[trigger] post.edge(t1, i1, c) && #[trigger] post.edge(t2, i2, c) implies t1 == t2 && i1
        == i2 by {
        assert(pre.table_wf(t1));
        assert(pre.table_wf(t2));
        if t1 != parent || i1 != slot {
            if t1 != parent {
                assert(post.tables@[t1] == pre.tables@[t1]);
                assert(post.entry_at(t1, i1) == pre.entry_at(t1, i1));
            }
            assert(pre.edge(t1, i1, c));
        }
        if t2 != parent || i2 != slot {
            if t2 != parent {
                assert(post.tables@[t2] == pre.tables@[t2]);
                assert(post.entry_at(t2, i2) == pre.entry_at(t2, i2));
            }
            assert(pre.edge(t2, i2, c));
        }
    }
    assert forall|t: int| 0 <= t < post.num_tables() implies #[trigger] post.table_address(t) % (
    PAGE_SIZE as int) == 0 by {
        assert(pre.table_address(t) % (PAGE_SIZE as int) == 0);
    }
}

/// Writing a leaf into a leaf-level table of a well-formed arena keeps
/// it well formed.
proof fn lemma_wf_after_leaf_write(pre: PagingState, post: PagingState, t: int, slot: int)
    requires
        pre.wf(),
        0 <= t < pre.num_tables(),
        0 <= slot < 512,
        pre.level_of(t) == 2,
        post.num_tables() == pre.num_tables(),
        post.levels@ == pre.levels@,
        post.table_addrs@ == pre.table_addrs@,
        forall|x: int|
            0 <= x < pre.num_tables() && x != t ==> #[trigger] post.tables@[x] == pre.tables@[x],
        forall|y: int|
            0 <= y < 512 && y != slot ==> #[trigger] post.entry_at(t, y) == pre.entry_at(t, y),
        post.tables@[t].entries@.len() == 512,
        spec_entry_valid(post.entry_at(t, slot)),
        !spec_entry_branch(post.entry_at(t, slot)),
        0 <= post.entry_at(t, slot) < ENTRY_BOUND,
    ensures
        post.wf(),
{
    assert forall|x: int| 0 <= x < post.num_tables() implies post.table_wf(x) by {
        assert(pre.table_wf(x));
        assert(post.level_of(x) == pre.level_of(x));
        if x != t {
            assert(post.tables@[x] == pre.tables@[x]);
            assert forall|i: int| 0 <= i < 512 implies #[trigger] post.entry_at(x, i)
                == pre.entry_at(x, i) by {}
        }
    }
    assert forall|t1: int, i1: int, t2: int, i2: int, c: int|
        #[trigger] post.edge(t1, i1, c) && #[trigger] post.edge(t2, i2, c) implies t1 == t2 && i1
        == i2 by {
        assert(pre.table_wf(t1));
        assert(pre.table_wf(t2));
        if t1 != t {
            assert(post.tables@[t1] == pre.tables@[t1]);
            assert(post.entry_at(t1, i1) == pre.entry_at(t1, i1));
        }
        if t2 != t {
            assert(post.tables@[t2] == pre.tables@[t2]);
            assert(post.entry_at(t2, i2) == pre.entry_at(t2, i2));
        }
        assert(pre.edge(t1, i1, c));
        assert(pre.edge(t2, i2, c));
    }
    assert forall|x: int| 0 <= x < post.num_tables() implies #[trigger] post.table_address(x) % (
    PAGE_SIZE as int) == 0 by {
        assert(pre.table_address(x) % (PAGE_SIZE as int) == 0);
    }
}

/// Binding a fresh, still-empty table into an invalid slot changes no
/// translation: every walk that reaches it dies at the empty table just
/// as it died at the invalid slot before.
proof fn lemma_walks_unchanged_after_bind(pre: PagingState, post: PagingState, slot: int)
    requires
        pre.wf(),
        post.wf(),
        0 <= slot < 512,
        post.num_tables() == pre.num_tables() + 1,
        !spec_entry_valid(pre.entry_at(0, slot)),
        spec_entry_valid(post.entry_at(0, slot)),
        spec_entry_branch(post.entry_at(0, slot)),
        spec_entry_ppn(post.entry_at(0, slot)) == pre.num_tables(),
        forall|y: int| 0 <= y < 512 ==> #[trigger] post.entry_at(pre.num_tables(), y) == 0,
        forall|x: int, y: int|
            0 <= x < pre.num_tables() && 0 <= y < 512 && !(x == 0 && y == slot)
                ==> #[trigger] post.entry_at(x, y) == pre.entry_at(x, y),
        forall|x: int|
            0 <= x < pre.num_tables() ==> #[trigger] post.level_of(x) == pre.level_of(x),
    ensures
        forall|va2: int| #[trigger] post.spec_walk(va2) == pre.spec_walk(va2),
{
    let nt = pre.num_tables();
    assert forall|va2: int| #[trigger] post.spec_walk(va2) == pre.spec_walk(va2) by {
        let j0 = spec_va_index(va2, 0);
        assert(pre.table_wf(0));
        assert(post.table_wf(0));
        if j0 == slot {
            // Dead before at the invalid slot, dead now inside the empty
            // fresh table.
            assert(post.entry_at(nt, spec_va_index(va2, 1)) == 0);
        } else {
            assert(post.entry_at(0, j0) == pre.entry_at(0, j0));
            let e0 = pre.entry_at(0, j0);
            if spec_entry_valid(e0) {
                let p1 = spec_entry_ppn(e0);
                assert(spec_entry_branch(e0) && 0 <= p1 < nt && pre.level_of(p1) == 1);
                let j1 = spec_va_index(va2, 1);
                assert(pre.table_wf(p1));
                assert(p1 != 0);
                assert(post.entry_at(p1, j1) == pre.entry_at(p1, j1));
                let e1 = pre.entry_at(p1, j1);
                if spec_entry_valid(e1) {
                    let p2 = spec_entry_ppn(e1);
                    assert(spec_entry_branch(e1) && 0 <= p2 < nt && pre.level_of(p2) == 2);
                    let j2 = spec_va_index(va2, 2);
                    assert(pre.table_wf(p2));
                    assert(p2 != 0);
                    assert(post.entry_at(p2, j2) == pre.entry_at(p2, j2));
                }
            }
        }
    }
}


/// When the walk of every page is still what it was before the failed
/// call, the per-page loop invariants of `identity_map_range` yield its
/// range-level guarantees for the state left behind.
proof fn lemma_range_abort(
    pre: PagingState,
    scur: PagingState,
    fin: PagingState,
    s0: int,
    e0: int,
    k: int,
    n: int,
)
    requires
        0 <= k <= n,
        0 <= s0,
        s0 % 0x1000 == 0,
        s0 + n * 0x1000 == e0 <= 0x80_0000_0000,
        forall|va2: int|
            s0 <= va2 < s0 + 0x1000 * k ==> #[trigger] scur.spec_walk(va2) == Option::Some(va2),
        forall|va2: int|
            (forall|p: int|
                0 <= p < k ==> !(#[trigger] spec_same_page(va2, spec_range_page(s0, p))))
                ==> #[trigger] scur.spec_walk(va2) == pre.spec_walk(va2),
        forall|va2: int| #[trigger] fin.spec_walk(va2) == scur.spec_walk(va2),
    ensures
        forall|va2: int|
            (forall|b: int| s0 <= b < e0 ==> !(#[trigger] spec_same_page(va2, b)))
                ==> #[trigger] fin.spec_walk(va2) == pre.spec_walk(va2),
        forall|va2: int|
            0 <= va2 < 0x80_0000_0000 && pre.spec_walk(va2) == Option::Some(va2)
                ==> #[trigger] fin.spec_walk(va2) == Option::Some(va2),
{
    assert forall|va2: int|
        s0 <= va2 < s0 + 0x1000 * k implies #[trigger] fin.spec_walk(va2) == Option::Some(
        va2,
    ) by {
        assert(fin.spec_walk(va2) == scur.spec_walk(va2));
    }
    assert forall|va2: int|
        (forall|p: int| 0 <= p < k ==> !(#[trigger] spec_same_page(va2, spec_range_page(s0, p))))
        implies #[trigger] fin.spec_walk(va2) == pre.spec_walk(va2) by {
        assert(fin.spec_walk(va2) == scur.spec_walk(va2));
    }
    lemma_range_frame_compose(pre, fin, s0, e0, k, n);
}

/// The per-page loop invariants of `identity_map_range`, stepped over
/// one more successfully mapped page.
proof fn lemma_range_step(
    pre: PagingState,
    scur: PagingState,
    snew: PagingState,
    s0: int,
    k: int,
    addr: int,
    leaf_bits: u64,
)
    requires
        0 <= s0,
        s0 % 0x1000 == 0,
        0 <= k,
        addr == spec_range_page(s0, k),
        addr + 0x1000 <= 0x80_0000_0000,
        forall|va2: int|
            s0 <= va2 < s0 + 0x1000 * k ==> #[trigger] scur.spec_walk(va2) == Option::Some(va2),
        forall|va2: int|
            s0 <= va2 < s0 + 0x1000 * k ==> #[trigger] scur.spec_walk_leaf(va2) == Option::Some(
                spec_leaf_entry(spec_page_align_down(va2) as u64, leaf_bits) as int,
            ),
        forall|va2: int|
            (forall|p: int|
                0 <= p < k ==> !(#[trigger] spec_same_page(va2, spec_range_page(s0, p))))
                ==> #[trigger] scur.spec_walk(va2) == pre.spec_walk(va2),
        forall|va2: int|
            addr <= va2 < addr + 0x1000 ==> #[trigger] snew.spec_walk(va2) == Option::Some(va2),
        forall|va2: int|
            addr <= va2 < addr + 0x1000 ==> #[trigger] snew.spec_walk_leaf(va2) == Option::Some(
                spec_leaf_entry(addr as u64, leaf_bits) as int,
            ),
        forall|va2: int|
            !spec_same_page(va2, addr) ==> #[trigger] snew.spec_walk(va2) == scur.spec_walk(va2),
        forall|va2: int|
            !spec_same_page(va2, addr) ==> #[trigger] snew.spec_walk_leaf(va2)
                == scur.spec_walk_leaf(va2),
    ensures
        forall|va2: int|
            s0 <= va2 < s0 + 0x1000 * (k + 1) ==> #[trigger] snew.spec_walk(va2) == Option::Some(
                va2,
            ),
        forall|va2: int|
            s0 <= va2 < s0 + 0x1000 * (k + 1) ==> #[trigger] snew.spec_walk_leaf(va2)
                == Option::Some(
                spec_leaf_entry(spec_page_align_down(va2) as u64, leaf_bits) as int,
            ),
        forall|va2: int|
            (forall|p: int|
                0 <= p < k + 1 ==> !(#[trigger] spec_same_page(va2, spec_range_page(s0, p))))
                ==> #[trigger] snew.spec_walk(va2) == pre.spec_walk(va2),
{
    assert(addr % 0x1000 == 0) by (nonlinear_arith)
        requires
            addr == s0 + 0x1000 * k,
            s0 % 0x1000 == 0,
            0 <= k,
    ;
    // The freshly mapped page joins the identity prefix.
    assert forall|va2: int| s0 <= va2 < s0 + 0x1000 * (k + 1) implies #[trigger] snew.spec_walk(
        va2,
    ) == Option::Some(va2) by {
        if va2 < s0 + 0x1000 * k {
            if spec_same_page(va2, addr) {
                lemma_same_page_same_block(va2 as u64, addr as u64);
                assert(false);
            }
            assert(scur.spec_walk(va2) == Option::Some(va2));
        }
    }
    // Its leaf carries the page's frame and the requested permissions.
    assert forall|va2: int|
        s0 <= va2 < s0 + 0x1000 * (k + 1) implies #[trigger] snew.spec_walk_leaf(va2)
        == Option::Some(spec_leaf_entry(spec_page_align_down(va2) as u64, leaf_bits) as int) by {
        if va2 < s0 + 0x1000 * k {
            if spec_same_page(va2, addr) {
                lemma_same_page_same_block(va2 as u64, addr as u64);
                assert(false);
            }
            assert(snew.spec_walk_leaf(va2) == scur.spec_walk_leaf(va2));
        } else {
            assert(va2 / 0x1000 == addr / 0x1000) by (nonlinear_arith)
                requires
                    addr % 0x1000 == 0,
                    addr <= va2 < addr + 0x1000,
            ;
            assert(spec_page_align_down(va2) == addr);
        }
    }
    // Pages outside the extended prefix keep their old walk.
    assert forall|va2: int|
        (forall|p: int|
            0 <= p < k + 1 ==> !(#[trigger] spec_same_page(va2, spec_range_page(s0, p))))
        implies #[trigger] snew.spec_walk(va2) == pre.spec_walk(va2) by {
        assert(!spec_same_page(va2, spec_range_page(s0, k)));
        assert(scur.spec_walk(va2) == pre.spec_walk(va2));
    }
}

/// From the per-page loop invariants of `identity_map_range`, the
/// range-level guarantees: untouched pages walk as before, and identity
/// translations stay the identity.
proof fn lemma_range_frame_compose(
    pre: PagingState,
    cur: PagingState,
    s0: int,
    e0: int,
    k: int,
    n: int,
)
    requires
        0 <= k <= n,
        0 <= s0,
        s0 % 0x1000 == 0,
        s0 + n * 0x1000 == e0 <= 0x80_0000_0000,
        forall|va2: int|
            s0 <= va2 < s0 + 0x1000 * k ==> #[trigger] cur.spec_walk(va2) == Option::Some(va2),
        forall|va2: int|
            (forall|p: int|
                0 <= p < k ==> !(#[trigger] spec_same_page(va2, spec_range_page(s0, p))))
                ==> #[trigger] cur.spec_walk(va2) == pre.spec_walk(va2),
    ensures
        forall|va2: int|
            (forall|b: int| s0 <= b < e0 ==> !(#[trigger] spec_same_page(va2, b)))
                ==> #[trigger] cur.spec_walk(va2) == pre.spec_walk(va2),
        forall|va2: int|
            0 <= va2 < 0x80_0000_0000 && pre.spec_walk(va2) == Option::Some(va2)
                ==> #[trigger] cur.spec_walk(va2) == Option::Some(va2),
{
    assert forall|va2: int|
        (forall|b: int| s0 <= b < e0 ==> !(#[trigger] spec_same_page(va2, b)))
        implies #[trigger] cur.spec_walk(va2) == pre.spec_walk(va2) by {
        assert forall|p: int| 0 <= p < k implies !(#[trigger] spec_same_page(
            va2,
            spec_range_page(s0, p),
        )) by {
            assert(s0 <= spec_range_page(s0, p) < e0) by (nonlinear_arith)
                requires
                    spec_range_page(s0, p) == s0 + 0x1000 * p,
                    0 <= p < k <= n,
                    s0 + n * 0x1000 == e0,
            ;
        }
    }
    assert forall|va2: int|
        0 <= va2 < 0x80_0000_0000 && pre.spec_walk(va2) == Option::Some(va2)
        implies #[trigger] cur.spec_walk(va2) == Option::Some(va2) by {
        if exists|p: int| 0 <= p < k && #[trigger] spec_same_page(va2, spec_range_page(s0, p)) {
            let p = choose|p: int|
                0 <= p < k && #[trigger] spec_same_page(va2, spec_range_page(s0, p));
            assert(spec_range_page(s0, p) % 0x1000 == 0 && 0 <= spec_range_page(s0, p)
                < 0x80_0000_0000) by (nonlinear_arith)
                requires
                    spec_range_page(s0, p) == s0 + 0x1000 * p,
                    0 <= p < k <= n,
                    s0 % 0x1000 == 0,
                    0 <= s0,
                    s0 + n * 0x1000 <= 0x80_0000_0000,
            ;
            lemma_same_page_same_block(va2 as u64, spec_range_page(s0, p) as u64);
            assert(s0 <= va2 < s0 + 0x1000 * k) by (nonlinear_arith)
                requires
                    va2 / 0x1000 == spec_range_page(s0, p) / 0x1000,
                    spec_range_page(s0, p) == s0 + 0x1000 * p,
                    s0 % 0x1000 == 0,
                    0 <= p < k,
                    0 <= va2,
                    0 <= s0,
            ;
            assert(cur.spec_walk(va2) == Option::Some(va2));
        } else {
            assert(cur.spec_walk(va2) == pre.spec_walk(va2));
        }
    }
}

/// How many pages the outward-aligned range `[start, end)` spans.
pub open spec fn spec_range_pages(start: int, end: int) -> int {
    (spec_page_align_up(end) - spec_page_align_down(start)) / 0x1000
}

/// The base address of the `p`-th page of a range whose aligned start
/// is `s0`.
pub open spec fn spec_range_page(s0: int, p: int) -> int {
    s0 + 0x1000 * p
}

/// Two addresses of one 4 KiB block fall into the same translation
/// slot.
pub proof fn lemma_same_block_same_page(v1: int, v2: int)
    requires
        0 <= v1,
        0 <= v2,
        v1 / 0x1000 == v2 / 0x1000,
    ensures
        spec_same_page(v1, v2),
{
    vstd::arithmetic::div_mod::lemma_div_denominator(v1, 0x1000, 512);
    vstd::arithmetic::div_mod::lemma_div_denominator(v2, 0x1000, 512);
    vstd::arithmetic::div_mod::lemma_div_denominator(v1, 0x20_0000, 512);
    vstd::arithmetic::div_mod::lemma_div_denominator(v2, 0x20_0000, 512);
    vstd::arithmetic::div_mod::lemma_div_denominator(v1, 0x1000, 0x40000);
    vstd::arithmetic::div_mod::lemma_div_denominator(v2, 0x1000, 0x40000);
    assert(v1 / 0x20_0000 == (v1 / 0x1000) / 512);
    assert(v2 / 0x20_0000 == (v2 / 0x1000) / 512);
    assert(v1 / 0x4000_0000 == (v1 / 0x1000) / 0x40000);
    assert(v2 / 0x4000_0000 == (v2 / 0x1000) / 0x40000);
}

/// Two addresses below the 39-bit horizon that share all three level
/// indices lie in the same 4 KiB block.
pub proof fn lemma_same_page_same_block(v1: u64, v2: u64)
    requires
        v1 < 0x80_0000_0000,
        v2 < 0x80_0000_0000,
        spec_same_page(v1 as int, v2 as int),
    ensures
        v1 as int / 0x1000 == v2 as int / 0x1000,
{
    assert(((v1 / 0x4000_0000) % 512 == (v2 / 0x4000_0000) % 512 && (v1 / 0x20_0000) % 512 == (v2
        / 0x20_0000) % 512 && (v1 / 0x1000) % 512 == (v2 / 0x1000) % 512) ==> v1 / 0x1000 == v2
        / 0x1000) by (bit_vector)
        requires
            v1 < 0x80_0000_0000u64,
            v2 < 0x80_0000_0000u64,
    ;
}

/// An identity leaf resolves every address of its page to itself.
pub proof fn lemma_identity_resolve(b: u64, v: u64)
    requires
        b % 4096 == 0,
        b < 0x80_0000_0000,
        b <= v < b + 4096,
    ensures
        spec_mapped_address(b as int, v as int) == v as int,
{
    assert(((b / 0x1000) % 0x1000_0000_0000) * 0x1000 + v % 0x1000 == v) by (bit_vector)
        requires
            b % 4096 == 0u64,
            b < 0x80_0000_0000u64,
            b <= v < b + 4096,
    ;
}

/// The relation between the four states one `map` call passes through:
/// `pre` before the call, `s1` after the root level was resolved, `s2`
/// after the mid level was resolved, `fin` after the leaf write, with
/// `created1` / `created2` recording whether the mid- and leaf-level
/// tables were freshly materialized.
spec fn spec_map_step(
    pre: PagingState,
    s1: PagingState,
    s2: PagingState,
    fin: PagingState,
    va: int,
    t1: int,
    t2: int,
    created1: bool,
    created2: bool,
    leafe: int,
) -> bool {
    let i0 = spec_va_index(va, 0);
    let i1 = spec_va_index(va, 1);
    let i2 = spec_va_index(va, 2);
    &&& pre.wf()
    &&& s1.wf()
    &&& s2.wf()
    &&& fin.wf()
    &&& 0 <= t1 < s1.num_tables()
    &&& s1.level_of(t1) == 1
    &&& spec_entry_valid(s1.entry_at(0, i0))
    &&& spec_entry_branch(s1.entry_at(0, i0))
    &&& spec_entry_ppn(s1.entry_at(0, i0)) == t1
    &&& created1 == !spec_entry_valid(pre.entry_at(0, i0))
    &&& created1 ==> {
        &&& t1 == pre.num_tables()
        &&& s1.num_tables() == pre.num_tables() + 1
        &&& forall|x: int, y: int|
            0 <= x < pre.num_tables() && 0 <= y < 512 && !(x == 0 && y == i0)
                ==> #[trigger] s1.entry_at(x, y) == pre.entry_at(x, y)
        &&& forall|y: int| 0 <= y < 512 ==> #[trigger] s1.entry_at(t1, y) == 0
        &&& forall|x: int|
            0 <= x < pre.num_tables() ==> #[trigger] s1.level_of(x) == pre.level_of(x)
    }
    &&& !created1 ==> s1 == pre
    &&& 0 <= t2 < s2.num_tables()
    &&& s2.level_of(t2) == 2
    &&& spec_entry_valid(s2.entry_at(t1, i1))
    &&& spec_entry_branch(s2.entry_at(t1, i1))
    &&& spec_entry_ppn(s2.entry_at(t1, i1)) == t2
    &&& created2 == !spec_entry_valid(s1.entry_at(t1, i1))
    &&& created2 ==> {
        &&& t2 == s1.num_tables()
        &&& s2.num_tables() == s1.num_tables() + 1
        &&& forall|x: int, y: int|
            0 <= x < s1.num_tables() && 0 <= y < 512 && !(x == t1 && y == i1)
                ==> #[trigger] s2.entry_at(x, y) == s1.entry_at(x, y)
        &&& forall|y: int| 0 <= y < 512 ==> #[trigger] s2.entry_at(t2, y) == 0
        &&& forall|x: int|
            0 <= x < s1.num_tables() ==> #[trigger] s2.level_of(x) == s1.level_of(x)
    }
    &&& !created2 ==> s2 == s1
    &&& fin.num_tables() == s2.num_tables()
    &&& forall|x: int, y: int|
        0 <= x < s2.num_tables() && 0 <= y < 512 && !(x == t2 && y == i2)
            ==> #[trigger] fin.entry_at(x, y) == s2.entry_at(x, y)
    &&& forall|x: int| 0 <= x < s2.num_tables() ==> #[trigger] fin.level_of(x) == s2.level_of(x)
    &&& fin.entry_at(t2, i2) == leafe
    &&& spec_entry_valid(leafe)
    &&& !spec_entry_branch(leafe)
}

/// After one `map` step, the mapped page's walk descends root -> t1 ->
/// t2 and resolves at the freshly written leaf.
proof fn lemma_map_mapped_one(
    pre: PagingState,
    s1: PagingState,
    s2: PagingState,
    fin: PagingState,
    va: int,
    t1: int,
    t2: int,
    created1: bool,
    created2: bool,
    leafe: int,
    va2: int,
)
    requires
        spec_map_step(pre, s1, s2, fin, va, t1, t2, created1, created2, leafe),
        spec_same_page(va2, va),
    ensures
        fin.spec_walk(va2) == Option::Some(spec_leaf_resolve(leafe, va2, 2)),
        fin.spec_walk_leaf(va2) == Option::Some(leafe),
{
    let i0 = spec_va_index(va, 0);
    let i1 = spec_va_index(va, 1);
    let i2 = spec_va_index(va, 2);
    assert(s1.level_of(0) == 0 && s2.level_of(0) == 0);
    assert(t1 != 0 && t2 != 0 && t1 != t2);
    assert(fin.entry_at(0, i0) == s2.entry_at(0, i0));
    assert(s2.entry_at(0, i0) == s1.entry_at(0, i0));
    assert(spec_entry_ppn(fin.entry_at(0, i0)) == t1);
    assert(fin.entry_at(t1, i1) == s2.entry_at(t1, i1));
    assert(spec_entry_ppn(fin.entry_at(t1, i1)) == t2);
}

/// After one `map` step, a page in any other translation slot walks to
/// the very leaf, and the very address, it walked to before.
proof fn lemma_map_frame_one(
    pre: PagingState,
    s1: PagingState,
    s2: PagingState,
    fin: PagingState,
    va: int,
    t1: int,
    t2: int,
    created1: bool,
    created2: bool,
    leafe: int,
    va2: int,
)
    requires
        spec_map_step(pre, s1, s2, fin, va, t1, t2, created1, created2, leafe),
        !spec_same_page(va2, va),
    ensures
        fin.spec_walk(va2) == pre.spec_walk(va2),
        fin.spec_walk_leaf(va2) == pre.spec_walk_leaf(va2),
{
    let i0 = spec_va_index(va, 0);
    let i1 = spec_va_index(va, 1);
    let i2 = spec_va_index(va, 2);
    let onum = pre.num_tables();
    assert(s1.level_of(0) == 0 && s2.level_of(0) == 0);
    assert(t1 != 0 && t2 != 0 && t1 != t2);
    let j0 = spec_va_index(va2, 0);
    let j1 = spec_va_index(va2, 1);
    let j2 = spec_va_index(va2, 2);
    assert(pre.table_wf(0));
    if j0 != i0 {
        assert(fin.entry_at(0, j0) == s2.entry_at(0, j0));
        assert(s2.entry_at(0, j0) == s1.entry_at(0, j0));
        assert(s1.entry_at(0, j0) == pre.entry_at(0, j0));
        let e = pre.entry_at(0, j0);
        if spec_entry_valid(e) {
            let p1 = spec_entry_ppn(e);
            assert(spec_entry_branch(e) && 0 <= p1 < onum && pre.level_of(p1) == 1);
            assert(pre.table_wf(p1));
            if !created1 && p1 == t1 {
                assert(pre.edge(0, j0, p1));
                assert(pre.edge(0, i0, t1));
            }
            assert(p1 != t1);
            assert(p1 != t2);
            assert(fin.entry_at(p1, j1) == s2.entry_at(p1, j1));
            assert(s2.entry_at(p1, j1) == s1.entry_at(p1, j1));
            assert(s1.entry_at(p1, j1) == pre.entry_at(p1, j1));
            let f = pre.entry_at(p1, j1);
            if spec_entry_valid(f) {
                let p2 = spec_entry_ppn(f);
                assert(spec_entry_branch(f) && 0 <= p2 < onum && pre.level_of(p2) == 2);
                assert(pre.table_wf(p2));
                assert(p2 != t1);
                if !created2 && p2 == t2 {
                    assert(!created1);
                    assert(pre.edge(p1, j1, p2));
                    assert(pre.edge(t1, i1, t2));
                }
                assert(p2 != t2);
                assert(fin.entry_at(p2, j2) == s2.entry_at(p2, j2));
                assert(s2.entry_at(p2, j2) == s1.entry_at(p2, j2));
                assert(s1.entry_at(p2, j2) == pre.entry_at(p2, j2));
            }
        }
    } else if j1 != i1 {
        // Same root slot: the walk passes through the mid-level table
        // but leaves it at another slot.
        if created1 {
            assert(fin.entry_at(t1, j1) == s2.entry_at(t1, j1));
            assert(s2.entry_at(t1, j1) == s1.entry_at(t1, j1));
            assert(s1.entry_at(t1, j1) == 0);
        } else {
            assert(fin.entry_at(0, j0) == pre.entry_at(0, j0));
            assert(fin.entry_at(t1, j1) == s2.entry_at(t1, j1));
            assert(s2.entry_at(t1, j1) == s1.entry_at(t1, j1));
            assert(s1.entry_at(t1, j1) == pre.entry_at(t1, j1));
            let f = pre.entry_at(t1, j1);
            assert(pre.table_wf(t1));
            if spec_entry_valid(f) {
                let p2 = spec_entry_ppn(f);
                assert(spec_entry_branch(f) && 0 <= p2 < onum && pre.level_of(p2) == 2);
                assert(pre.table_wf(p2));
                assert(p2 != t1);
                if !created2 && p2 == t2 {
                    assert(pre.edge(t1, j1, p2));
                    assert(pre.edge(t1, i1, t2));
                }
                assert(p2 != t2);
                assert(fin.entry_at(p2, j2) == s2.entry_at(p2, j2));
                assert(s2.entry_at(p2, j2) == s1.entry_at(p2, j2));
                assert(s1.entry_at(p2, j2) == pre.entry_at(p2, j2));
            }
        }
    } else {
        // Same root and mid slots: the walk reaches the leaf table, at
        // a slot other than the one written.
        if created2 {
            assert(fin.entry_at(t2, j2) == s2.entry_at(t2, j2));
            assert(s2.entry_at(t2, j2) == 0);
        } else {
            assert(!created1);
            assert(fin.entry_at(0, j0) == pre.entry_at(0, j0));
            assert(fin.entry_at(t1, j1) == pre.entry_at(t1, j1));
            assert(fin.entry_at(t2, j2) == s2.entry_at(t2, j2));
            assert(s2.entry_at(t2, j2) == pre.entry_at(t2, j2));
            assert(pre.table_wf(t2));
        }
    }
}

/// One `map` call changes the walk of the mapped page to its new leaf
/// and leaves the walk, and the resolved leaf entry, of every other
/// page untouched.
proof fn lemma_map_walks(
    pre: PagingState,
    s1: PagingState,
    s2: PagingState,
    fin: PagingState,
    va: int,
    t1: int,
    t2: int,
    created1: bool,
    created2: bool,
    leafe: int,
)
    requires
        spec_map_step(pre, s1, s2, fin, va, t1, t2, created1, created2, leafe),
    ensures
        forall|va2: int|
            spec_same_page(va2, va) ==> #[trigger] fin.spec_walk(va2) == Option::Some(
                spec_leaf_resolve(leafe, va2, 2),
            ),
        forall|va2: int|
            spec_same_page(va2, va) ==> #[trigger] fin.spec_walk_leaf(va2) == Option::Some(leafe),
        forall|va2: int|
            !spec_same_page(va2, va) ==> #[trigger] fin.spec_walk(va2) == pre.spec_walk(va2),
        forall|va2: int|
            !spec_same_page(va2, va) ==> #[trigger] fin.spec_walk_leaf(va2)
                == pre.spec_walk_leaf(va2),
{
    assert forall|va2: int| spec_same_page(va2, va) implies #[trigger] fin.spec_walk(va2)
        == Option::Some(spec_leaf_resolve(leafe, va2, 2)) by {
        lemma_map_mapped_one(pre, s1, s2, fin, va, t1, t2, created1, created2, leafe, va2);
    }
    assert forall|va2: int| spec_same_page(va2, va) implies #[trigger] fin.spec_walk_leaf(va2)
        == Option::Some(leafe) by {
        lemma_map_mapped_one(pre, s1, s2, fin, va, t1, t2, created1, created2, leafe, va2);
    }
    assert forall|va2: int| !spec_same_page(va2, va) implies #[trigger] fin.spec_walk(va2)
        == pre.spec_walk(va2) by {
        lemma_map_frame_one(pre, s1, s2, fin, va, t1, t2, created1, created2, leafe, va2);
    }
    assert forall|va2: int| !spec_same_page(va2, va) implies #[trigger] fin.spec_walk_leaf(va2)
        == pre.spec_walk_leaf(va2) by {
        lemma_map_frame_one(pre, s1, s2, fin, va, t1, t2, created1, created2, leafe, va2);
    }
}

/// The branch entry binding table index `t` into its parent slot.
pub open spec fn spec_branch_entry(t: u64) -> u64 {
    (t << 10) | 1
}

/// The leaf entry mapping a page to physical address `pa` with
/// permission bits `b`: the three frame-number fields of `pa`, the
/// permissions, and the validity bit.
pub open spec fn spec_leaf_entry(pa: u64, b: u64) -> u64 {
    (((pa >> 30) & 0x3ff_ffff) << 28) | (((pa >> 21) & 0x1ff) << 19) | (((pa >> 12) & 0x1ff) << 10)
        | b | 1
}

/// A branch entry is valid, carries no permission bits, and stores
/// exactly the table index it was built from.
proof fn lemma_branch_entry_facts(t: u64)
    requires
        t < 0x1000_0000,
    ensures
        spec_entry_valid(spec_branch_entry(t) as int),
        spec_entry_branch(spec_branch_entry(t) as int),
        spec_entry_ppn(spec_branch_entry(t) as int) == t as int,
        spec_branch_entry(t) < 0x80_0000_0000_0000u64,
{
    let b = spec_branch_entry(t);
    assert(b == ((t << 10) | 1));
    assert(((t << 10) | 1) as int % 2 == 1 && (((t << 10) | 1) as int / 2) % 8 == 0 && ((t << 10)
        | 1) as int / 1024 == t as int && ((t << 10) | 1) < 0x80_0000_0000_0000u64) by (bit_vector)
        requires
            t < 0x1000_0000u64,
    ;
}

/// A leaf entry is valid, carries permission bits, stays inside the
/// entry bound, and resolves every address of its page to the mapped
/// physical frame.
proof fn lemma_leaf_entry_facts(pa: u64, b: u64)
    requires
        b < 1024,
        b & 0xe != 0,
    ensures
        spec_entry_valid(spec_leaf_entry(pa, b) as int),
        !spec_entry_branch(spec_leaf_entry(pa, b) as int),
        spec_leaf_entry(pa, b) < 0x80_0000_0000_0000u64,
        forall|v: int| #[trigger] spec_leaf_resolve(spec_leaf_entry(pa, b) as int, v, 2)
            == spec_mapped_address(pa as int, v),
{
    let e = spec_leaf_entry(pa, b);
    assert(e == ((((pa >> 30) & 0x3ff_ffff) << 28) | (((pa >> 21) & 0x1ff) << 19) | (((pa >> 12)
        & 0x1ff) << 10) | b | 1));
    assert({
        let x = (((pa >> 30) & 0x3ff_ffff) << 28) | (((pa >> 21) & 0x1ff) << 19) | (((pa >> 12)
            & 0x1ff) << 10) | b | 1;
        x as int % 2 == 1 && (x as int / 2) % 8 != 0 && x < 0x80_0000_0000_0000u64 && ((x as int
            / 1024) * 4096 / 0x1000) * 0x1000 == ((pa as int / 0x1000) % 0x1000_0000_0000)
            * 0x1000
    }) by (bit_vector)
        requires
            b < 1024u64,
            b & 0xe != 0u64,
    ;
    assert forall|v: int| #[trigger] spec_leaf_resolve(e as int, v, 2) == spec_mapped_address(
        pa as int,
        v,
    ) by {
        assert(spec_entry_address(e as int) / 0x1000 * 0x1000 == ((pa as int / 0x1000)
            % 0x1000_0000_0000) * 0x1000);
    }
}

/// The boot-provided memory layout: section boundaries and the console
/// window, handed over by the environment before translation starts.
#[derive(Clone, Copy, PartialEq, Eq, Structural, Debug)]
pub struct MemoryLayout {
    pub text_start: usize,
    pub text_end: usize,
    pub stack_start: usize,
    pub stack_end: usize,
    pub data_start: usize,
    pub data_end: usize,
    pub rodata_start: usize,
    pub rodata_end: usize,
    pub bss_start: usize,
    pub bss_end: usize,
    pub heap_start: usize,
    pub heap_end: usize,
    pub uart_base: usize,
}

impl MemoryLayout {
    /// Each region is a proper range that stays inside the 39-bit
    /// virtual address space.
    pub open spec fn wf(&self) -> bool {
        &&& self.text_start <= self.text_end
        &&& self.stack_start <= self.stack_end
        &&& self.data_start <= self.data_end
        &&& self.rodata_start <= self.rodata_end
        &&& self.bss_start <= self.bss_end
        &&& self.heap_start <= self.heap_end
        &&& self.text_end as int <= 0x7f_ffff_f000
        &&& self.stack_end as int <= 0x7f_ffff_f000
        &&& self.data_end as int <= 0x7f_ffff_f000
        &&& self.rodata_end as int <= 0x7f_ffff_f000
        &&& self.bss_end as int <= 0x7f_ffff_f000
        &&& self.heap_end as int <= 0x7f_ffff_f000
        &&& self.uart_base as int + PAGE_SIZE as int <= 0x7f_ffff_f000
        &&& self.text_end + PAGE_SIZE <= usize::MAX
        &&& self.stack_end + PAGE_SIZE <= usize::MAX
        &&& self.data_end + PAGE_SIZE <= usize::MAX
        &&& self.rodata_end + PAGE_SIZE <= usize::MAX
        &&& self.bss_end + PAGE_SIZE <= usize::MAX
        &&& self.heap_end + PAGE_SIZE <= usize::MAX
        &&& self.uart_base + PAGE_SIZE + PAGE_SIZE <= usize::MAX
    }

    /// An address inside one of the identity-mapped regions, each
    /// aligned outward to page boundaries.
    pub open spec fn spec_covers(&self, va: int) -> bool {
        ||| spec_page_align_down(self.text_start as int) <= va < spec_page_align_up(
            self.text_end as int,
        )
        ||| spec_page_align_down(self.stack_start as int) <= va < spec_page_align_up(
            self.stack_end as int,
        )
        ||| spec_page_align_down(self.data_start as int) <= va < spec_page_align_up(
            self.data_end as int,
        )
        ||| spec_page_align_down(self.rodata_start as int) <= va < spec_page_align_up(
            self.rodata_end as int,
        )
        ||| spec_page_align_down(self.bss_start as int) <= va < spec_page_align_up(
            self.bss_end as int,
        )
        ||| spec_page_align_down(self.heap_start as int) <= va < spec_page_align_up(
            self.heap_end as int,
        )
        ||| spec_page_align_down(self.uart_base as int) <= va < spec_page_align_up(
            self.uart_base as int + PAGE_SIZE as int,
        )
    }

    /// The pages of all seven identity-mapped regions together.
    pub open spec fn spec_total_pages(&self) -> int {
        spec_range_pages(self.text_start as int, self.text_end as int) + spec_range_pages(
            self.stack_start as int,
            self.stack_end as int,
        ) + spec_range_pages(self.data_start as int, self.data_end as int) + spec_range_pages(
            self.rodata_start as int,
            self.rodata_end as int,
        ) + spec_range_pages(self.bss_start as int, self.bss_end as int) + spec_range_pages(
            self.heap_start as int,
            self.heap_end as int,
        ) + spec_range_pages(
            self.uart_base as int,
            self.uart_base as int + PAGE_SIZE as int,
        )
    }
}

impl PagingState {
    /// Build the translation state at boot: allocate the root table,
    /// then identity-map the kernel's code, stack, data, read-only data,
    /// zero-initialized data, the allocator's descriptor area, and the
    /// console window.
    pub fn init(allocator: &mut PageAllocator, layout: &MemoryLayout) -> (r: Result<
        PagingState,
        crate::KernelError,
    >)
        requires
            old(allocator).wf(),
            layout.wf(),
        ensures
            final(allocator).wf(),
            final(allocator)@.len() == old(allocator)@.len(),
            final(allocator).spec_region_base() == old(allocator).spec_region_base(),
            final(allocator).spec_alloc_start() == old(allocator).spec_alloc_start(),
            match r {
                Ok(st) => {
                    &&& st.wf()
                    &&& st.root_address() % (PAGE_SIZE as int) == 0
                    &&& st.num_tables() <= 1 + 2 * layout.spec_total_pages()
                    &&& forall|va: int|
                        layout.spec_covers(va) ==> #[trigger] st.spec_walk(va) == Option::Some(va)
                },
                Err(e) => e == crate::KernelError::OutOfMemory,
            },
            count_free(old(allocator)@) >= 1 + 2 * layout.spec_total_pages() && 1 + 2
                * layout.spec_total_pages() <= MAX_TABLES ==> r is Ok,
            count_free(final(allocator)@) >= count_free(old(allocator)@) - 1 - 2
                * layout.spec_total_pages(),
    {
        proof {
            lemma_count_free_positive(allocator@);
        }
        // The root table, owned for the kernel's lifetime.
        let root_page = match allocator.alloc_pages(1) {
            Some(p) => p,
            None => {
                return Err(crate::KernelError::OutOfMemory);
            },
        };
        proof {
            let s0 = old(allocator)@;
            let i = first_fit_index(s0, 1);
            assert(!s0[i].spec_taken());
            lemma_count_free_alloc_one(s0, i);
        }
        let mut entries: Vec<PageTableEntry> = Vec::new();
        let mut i: usize = 0;
        while i < 512
            invariant
                i <= 512,
                entries@.len() == i,
                forall|j: int| 0 <= j < i ==> (#[trigger] entries@[j]).entry == 0,
            decreases 512 - i,
        {
            entries.push(PageTableEntry { entry: 0 });
            i += 1;
        }
        let mut tables: Vec<PageTable> = Vec::new();
        tables.push(PageTable { entries });
        let mut table_addrs: Vec<usize> = Vec::new();
        table_addrs.push(root_page);
        let mut st = PagingState { tables, table_addrs, levels: Ghost(Seq::empty().push(0)) };
        proof {
            assert forall|t: int| 0 <= t < st.num_tables() implies st.table_wf(t) by {
                assert forall|y: int| 0 <= y < 512 implies #[trigger] st.entry_at(0, y) == 0 by {}
            }
            assert(st.wf());
        }
        proof {
            assert(0xei64 & 0xei64 != 0i64) by (bit_vector);
        }
        match st.identity_map_range(allocator, layout.text_start, layout.text_end, EntryBits::ReadWriteExecute.val()) {
            Ok(()) => {},
            Err(e) => {
                return Err(e);
            },
        }
        match st.identity_map_range(allocator, layout.stack_start, layout.stack_end, EntryBits::ReadWriteExecute.val()) {
            Ok(()) => {},
            Err(e) => {
                return Err(e);
            },
        }
        match st.identity_map_range(allocator, layout.data_start, layout.data_end, EntryBits::ReadWriteExecute.val()) {
            Ok(()) => {},
            Err(e) => {
                return Err(e);
            },
        }
        match st.identity_map_range(allocator, layout.rodata_start, layout.rodata_end, EntryBits::ReadWriteExecute.val()) {
            Ok(()) => {},
            Err(e) => {
                return Err(e);
            },
        }
        match st.identity_map_range(allocator, layout.bss_start, layout.bss_end, EntryBits::ReadWriteExecute.val()) {
            Ok(()) => {},
            Err(e) => {
                return Err(e);
            },
        }
        match st.identity_map_range(allocator, layout.heap_start, layout.heap_end, EntryBits::ReadWriteExecute.val()) {
            Ok(()) => {},
            Err(e) => {
                return Err(e);
            },
        }
        match st.identity_map_range(allocator, layout.uart_base, layout.uart_base + PAGE_SIZE, EntryBits::ReadWriteExecute.val()) {
            Ok(()) => {},
            Err(e) => {
                return Err(e);
            },
        }
        proof {
            assert forall|va: int| layout.spec_covers(va) implies #[trigger] st.spec_walk(va)
                == Option::Some(va) by {}
        }
        Ok(st)
    }

    /// Boot-time self check: every region start of the layout must
    /// translate to itself through the freshly built table.
    pub fn init_sanity_check(&self, layout: &MemoryLayout) -> (r: bool)
        requires
            self.wf(),
        ensures
            r <==> {
                &&& self.spec_walk(layout.text_start as int) == Option::Some(
                    layout.text_start as int,
                )
                &&& self.spec_walk(layout.stack_start as int) == Option::Some(
                    layout.stack_start as int,
                )
                &&& self.spec_walk(layout.data_start as int) == Option::Some(
                    layout.data_start as int,
                )
                &&& self.spec_walk(layout.rodata_start as int) == Option::Some(
                    layout.rodata_start as int,
                )
                &&& self.spec_walk(layout.bss_start as int) == Option::Some(
                    layout.bss_start as int,
                )
                &&& self.spec_walk(layout.heap_start as int) == Option::Some(
                    layout.heap_start as int,
                )
                &&& self.spec_walk(layout.uart_base as int) == Option::Some(
                    layout.uart_base as int,
                )
            },
    {
        let ok_text = match self.virtual_to_physical(layout.text_start) {
            Some(pa) => pa == layout.text_start as u64,
            None => false,
        };
        let ok_stack = match self.virtual_to_physical(layout.stack_start) {
            Some(pa) => pa == layout.stack_start as u64,
            None => false,
        };
        let ok_data = match self.virtual_to_physical(layout.data_start) {
            Some(pa) => pa == layout.data_start as u64,
            None => false,
        };
        let ok_rodata = match self.virtual_to_physical(layout.rodata_start) {
            Some(pa) => pa == layout.rodata_start as u64,
            None => false,
        };
        let ok_bss = match self.virtual_to_physical(layout.bss_start) {
            Some(pa) => pa == layout.bss_start as u64,
            None => false,
        };
        let ok_heap = match self.virtual_to_physical(layout.heap_start) {
            Some(pa) => pa == layout.heap_start as u64,
            None => false,
        };
        let ok_uart = match self.virtual_to_physical(layout.uart_base) {
            Some(pa) => pa == layout.uart_base as u64,
            None => false,
        };
        ok_text && ok_stack && ok_data && ok_rodata && ok_bss && ok_heap && ok_uart
    }
}

/// Resolve a leaf entry found at level `level` against `virtual_address`:
/// the entry's frame bits above the level's granularity combined with the
/// in-page offset of that granularity.
fn leaf_resolve(entry: &PageTableEntry, virtual_address: usize, level: usize) -> (r: u64)
    requires
        0 <= entry.entry < ENTRY_BOUND,
        level <= 2,
    ensures
        r == spec_leaf_resolve(entry.entry as int, virtual_address as int, level as int),
{
    let shift: u64 = 12 + (2 - level as u64) * 9;
    proof {
        let sh = shift;
        assert(1u64 << sh >= 1) by (bit_vector)
            requires
                sh <= 30,
        ;
    }
    let offset_mask: u64 = (1u64 << shift) - 1;
    let address = get_address_from_entry(entry) as u64;
    let r = (address & !offset_mask) | (offset_mask & (virtual_address as u64));
    proof {
        let a = address;
        let v = virtual_address as u64;
        if level == 0 {
            assert((1u64 << 30u64) - 1 == 0x3fff_ffffu64) by (bit_vector);
            assert(((a & !0x3fff_ffffu64) | (0x3fff_ffffu64 & v)) == (a / 0x4000_0000) * 0x4000_0000
                + v % 0x4000_0000) by (bit_vector)
                requires
                    a < 0x200_0000_0000_0000u64,
            ;
        } else if level == 1 {
            assert((1u64 << 21u64) - 1 == 0x1f_ffffu64) by (bit_vector);
            assert(((a & !0x1f_ffffu64) | (0x1f_ffffu64 & v)) == (a / 0x20_0000) * 0x20_0000 + v
                % 0x20_0000) by (bit_vector)
                requires
                    a < 0x200_0000_0000_0000u64,
            ;
        } else {
            assert((1u64 << 12u64) - 1 == 0xfffu64) by (bit_vector);
            assert(((a & !0xfffu64) | (0xfffu64 & v)) == (a / 0x1000) * 0x1000 + v % 0x1000)
                by (bit_vector)
                requires
                    a < 0x200_0000_0000_0000u64,
            ;
        }
    }
    r
}

/// The value the hardware expects in its translation-root register:
/// a mode selector in the top bits, a 16-bit address-space identifier,
/// and the root table's frame number.
pub open spec fn spec_satp_value(mode: u64, asid: u64, addr: u64) -> u64 {
    (mode << 60) | ((asid & 0xffff) << 44) | ((addr >> 12) & 0xff_ffff_ffff)
}

/// Build the translation-root register value from the mode, the
/// address-space identifier and the root table's physical address, which
/// must be page-aligned.
pub fn craft_satp(mode: usize, asid: usize, addr: usize) -> (r: usize)
    requires
        addr % 4096 == 0,
    ensures
        r == spec_satp_value(mode as u64, asid as u64, addr as u64) as usize,
{
    let r = ((mode as u64) << 60) | (((asid as u64) & 0xffff) << 44) | (((addr as u64) >> 12)
        & 0xff_ffff_ffff);
    r as usize
}

} // verus!
