//! Fixed-arena allocator: a bump allocator with first-fit reuse of freed
//! records and stack-like reclaim of the topmost record.
//!
//! The allocator keeps books on addresses only; it never touches the memory
//! that the addresses stand for.

use vstd::prelude::*;

verus! {

/// The largest number of records the allocation table holds.
pub const MAX_ALLOCATIONS: usize = 128;

/// Every record's size is a multiple of this many bytes.
pub const ALIGNMENT: u64 = 8;

/// One record of the allocation table.
#[derive(Debug, Copy, Clone, PartialEq, Eq, Structural)]
pub struct Allocation {
    pub address: usize,
    /// Size in bytes, rounded up to a multiple of [`ALIGNMENT`].
    pub size: usize,
    pub free: bool,
}

/// `size` rounded up to the next multiple of eight.
pub open spec fn align_up(size: nat) -> nat {
    if size % 8 != 0 {
        (size + (8 - size % 8)) as nat
    } else {
        size
    }
}

/// A free record that is large enough for `need` bytes.
pub open spec fn fits(a: Allocation, need: nat) -> bool {
    a.free && need <= a.size
}

/// Record `i` is the first one in table order that fits `need` bytes.
pub open spec fn is_first_fit(records: Seq<Allocation>, need: nat, i: int) -> bool {
    &&& 0 <= i < records.len()
    &&& fits(records[i], need)
    &&& forall|j: int| 0 <= j < i ==> !fits(#[trigger] records[j], need)
}

/// No record fits `need` bytes.
pub open spec fn no_fit(records: Seq<Allocation>, need: nat) -> bool {
    forall|j: int| 0 <= j < records.len() ==> !fits(#[trigger] records[j], need)
}

/// A record in use that starts at `address`.
pub open spec fn is_live_at(a: Allocation, address: nat) -> bool {
    !a.free && a.address == address
}

/// Record `i` is the first one in table order that is in use and starts at
/// `address`.
pub open spec fn is_first_live(records: Seq<Allocation>, address: nat, i: int) -> bool {
    &&& 0 <= i < records.len()
    &&& is_live_at(records[i], address)
    &&& forall|j: int| 0 <= j < i ==> !is_live_at(#[trigger] records[j], address)
}

/// Some record in use starts at `address`.
pub open spec fn has_live(records: Seq<Allocation>, address: nat) -> bool {
    exists|i: int| 0 <= i < records.len() && is_live_at(#[trigger] records[i], address)
}

/// The address just past the highest record: where the next new record goes.
pub open spec fn top_of(records: Seq<Allocation>, base: nat) -> nat {
    if records.len() == 0 {
        base
    } else {
        (records.last().address + records.last().size) as nat
    }
}

/// The records tile the arena from its base upwards without gaps, and stay
/// below its limit. Every record's size is a multiple of eight.
pub open spec fn well_laid_out(records: Seq<Allocation>, base: nat, limit: nat) -> bool {
    &&& 0 < base <= limit
    &&& forall|i: int| 0 <= i < records.len() ==> (#[trigger] records[i]).size % 8 == 0
    &&& records.len() <= MAX_ALLOCATIONS
    &&& top_of(records, base) <= limit
    &&& records.len() > 0 ==> records[0].address == base
    &&& forall|i: int|
        0 <= i < records.len() - 1 ==> (#[trigger] records[i + 1]).address == records[i].address
            + records[i].size
}

/// The byte ranges `[a, a + n)` and `[b, b + m)` share no byte.
pub open spec fn disjoint(a: nat, n: nat, b: nat, m: nat) -> bool {
    a + n <= b || b + m <= a || n == 0 || m == 0
}

/// The same record, marked in use.
pub open spec fn taken(a: Allocation) -> Allocation {
    Allocation { free: false, ..a }
}

/// The same record, marked free.
pub open spec fn released(a: Allocation) -> Allocation {
    Allocation { free: true, ..a }
}

/// What an allocation of `need` bytes does to the table and which address
/// it returns: the first free record that is large enough is taken again as
/// it is; if there is none, a new record of `need` bytes is placed on top.
pub open spec fn malloc_outcome(
    before: Seq<Allocation>,
    base: nat,
    need: nat,
    after: Seq<Allocation>,
    address: nat,
) -> bool {
    &&& forall|i: int|
        is_first_fit(before, need, i) ==> address == before[i].address && after
            == before.update(i, taken(before[i]))
    &&& no_fit(before, need) ==> address == top_of(before, base) && after == before.push(
        Allocation { address: address as usize, size: need as usize, free: false },
    )
}

/// What freeing `address` does to the table: nothing for the null address;
/// otherwise the first record in use at that address is removed if it is the
/// topmost record, and marked free if it is not.
pub open spec fn free_outcome(before: Seq<Allocation>, address: nat, after: Seq<Allocation>) -> bool {
    &&& address == 0 ==> after == before
    &&& address != 0 ==> forall|i: int|
        is_first_live(before, address, i) ==> after == if i == before.len() - 1 {
            before.drop_last()
        } else {
            before.update(i, released(before[i]))
        }
}

/// Whether an allocation of `need` bytes can be served: by a free record, or
/// by a new record for which both the table and the arena have room.
pub open spec fn can_serve(records: Seq<Allocation>, base: nat, limit: nat, need: nat) -> bool {
    ||| !no_fit(records, need)
    ||| records.len() < MAX_ALLOCATIONS && top_of(records, base) + need <= limit
}

/// The allocation table of one arena.
pub struct Allocator {
    base: usize,
    limit: usize,
    allocations: Vec<Allocation>,
}

/// `size` rounded up to the next multiple of eight.
pub fn aligned_size(size: u32) -> (need: u64)
    ensures
        need == align_up(size as nat),
        need % 8 == 0,
        size <= need < size + 8,
{
    let size: u64 = size as u64;
    if size % 8 != 0 {
        size + (8 - size % 8)
    } else {
        size
    }
}

impl Allocator {
    /// The records of the table, from the arena's base upwards.
    pub closed spec fn view(&self) -> Seq<Allocation> {
        self.allocations@
    }

    /// Address of the arena's first byte.
    pub closed spec fn arena_base(&self) -> nat {
        self.base as nat
    }

    /// Address just past the arena's last byte.
    pub closed spec fn arena_limit(&self) -> nat {
        self.limit as nat
    }

    /// The representation invariant: the table is well laid out in its arena.
    pub open spec fn wf(&self) -> bool {
        well_laid_out(self@, self.arena_base(), self.arena_limit())
    }

    /// An empty table for the arena of `size` bytes that starts at `base`.
    /// Address zero is the null address and cannot be an arena's base.
    pub fn new(base: usize, size: usize) -> (a: Self)
        requires
            base > 0,
            base + size <= usize::MAX,
        ensures
            a.wf(),
            a@ == Seq::<Allocation>::empty(),
            a.arena_base() == base,
            a.arena_limit() == base + size,
    {
        Allocator { base, limit: base + size, allocations: Vec::new() }
    }

    /// Number of records in the table.
    pub fn len(&self) -> (len: usize)
        ensures
            len == self@.len(),
    {
        self.allocations.len()
    }

    /// Record `i` of the table.
    pub fn get(&self, i: usize) -> (record: Allocation)
        requires
            i < self@.len(),
        ensures
            record == self@[i as int],
    {
        self.allocations[i]
    }

    /// The address just past the highest record.
    pub fn top(&self) -> (t: usize)
        requires
            self.wf(),
        ensures
            t == top_of(self@, self.arena_base()),
    {
        let n = self.allocations.len();
        if n == 0 {
            self.base
        } else {
            self.allocations[n - 1].address + self.allocations[n - 1].size
        }
    }

    /// Index of the first free record that holds `need` bytes.
    pub fn find_fit(&self, need: u64) -> (found: Option<usize>)
        requires
            self.wf(),
        ensures
            match found {
                Some(i) => is_first_fit(self@, need as nat, i as int),
                None => no_fit(self@, need as nat),
            },
    {
        let mut i: usize = 0;
        while i < self.allocations.len()
            invariant
                i <= self.allocations.len(),
                forall|j: int| 0 <= j < i ==> !fits(#[trigger] self@[j], need as nat),
            decreases self.allocations.len() - i,
        {
            let a = self.allocations[i];
            if a.free && need <= a.size as u64 {
                return Some(i);
            }
            i = i + 1;
        }
        None
    }

    /// Index of the first record in use that starts at `address`.
    pub fn find_live(&self, address: usize) -> (found: Option<usize>)
        requires
            self.wf(),
        ensures
            match found {
                Some(i) => is_first_live(self@, address as nat, i as int),
                None => !has_live(self@, address as nat),
            },
    {
        let mut i: usize = 0;
        while i < self.allocations.len()
            invariant
                i <= self.allocations.len(),
                forall|j: int| 0 <= j < i ==> !is_live_at(#[trigger] self@[j], address as nat),
            decreases self.allocations.len() - i,
        {
            let a = self.allocations[i];
            if !a.free && a.address == address {
                return Some(i);
            }
            i = i + 1;
        }
        None
    }

    /// Whether [`malloc`] can serve `size` bytes.
    pub fn can_malloc(&self, size: u32) -> (ok: bool)
        requires
            self.wf(),
        ensures
            ok == can_serve(self@, self.arena_base(), self.arena_limit(), align_up(size as nat)),
    {
        let need = aligned_size(size);
        match self.find_fit(need) {
            Some(i) => {
                assert(fits(self@[i as int], need as nat));
                true
            },
            None => {
                self.allocations.len() < MAX_ALLOCATIONS && need <= (self.limit - self.top()) as u64
            },
        }
    }
}

/// Allocates `size` bytes, rounded up to a multiple of eight, and
/// returns the block's address.
///
/// The first free record that is large enough is used again. Otherwise a
/// new record is placed right after the highest one. Running out of
/// table entries or of arena is fatal, so callers rule it out.
///
/// The block returned lies inside the arena and shares no byte with any
/// block that was in use before the call.
pub fn malloc(allocator: &mut Allocator, size: u32) -> (address: usize)
    requires
        old(allocator).wf(),
        can_serve(
            old(allocator)@,
            old(allocator).arena_base(),
            old(allocator).arena_limit(),
            align_up(size as nat),
        ),
    ensures
        final(allocator).wf(),
        final(allocator).arena_base() == old(allocator).arena_base(),
        final(allocator).arena_limit() == old(allocator).arena_limit(),
        malloc_outcome(
            old(allocator)@,
            old(allocator).arena_base(),
            align_up(size as nat),
            final(allocator)@,
            address as nat,
        ),
        address != 0,
        (address - old(allocator).arena_base()) % 8 == 0,
        old(allocator).arena_base() <= address,
        address + align_up(size as nat) <= old(allocator).arena_limit(),
        has_live(final(allocator)@, address as nat),
        forall|j: int|
            0 <= j < old(allocator)@.len() && !(#[trigger] old(allocator)@[j]).free ==> disjoint(
                address as nat,
                align_up(size as nat),
                old(allocator)@[j].address as nat,
                old(allocator)@[j].size as nat,
            ),
{
    let need = aligned_size(size);
    let ghost before = allocator@;
    let ghost base = allocator.arena_base();
    let ghost limit = allocator.arena_limit();
    match allocator.find_fit(need) {
        Some(i) => {
            let a = allocator.allocations[i];
            allocator.allocations.set(i, Allocation { address: a.address, size: a.size, free: false });
            proof {
                lemma_offsets_aligned(before, base, limit, i as int);
                assert(allocator@ =~= before.update(i as int, taken(before[i as int])));
                lemma_layout_survives_marking(before, base, limit, i as int, false);
                lemma_record_in_arena(before, base, limit, i as int);
                assert forall|k: int| is_first_fit(before, need as nat, k) implies k == i by {
                    if k < i {
                        assert(!fits(before[k], need as nat));
                    } else if i < k {
                        assert(!fits(before[i as int], need as nat));
                    }
                }
                assert(is_live_at(allocator@[i as int], a.address as nat));
                assert forall|j: int|
                    0 <= j < before.len() && !(#[trigger] before[j]).free implies disjoint(
                    a.address as nat,
                    need as nat,
                    before[j].address as nat,
                    before[j].size as nat,
                ) by {
                    lemma_records_disjoint(before, base, limit, i as int, j);
                }
            }
            a.address
        },
        None => {
            let address = allocator.top();
            allocator.allocations.push(Allocation { address, size: need as usize, free: false });
            proof {
                if before.len() > 0 {
                    lemma_offsets_aligned(before, base, limit, before.len() - 1);
                }
                assert(allocator@.last().address == address);
                assert forall|k: int| 0 <= k < allocator@.len() - 1 implies (
                #[trigger] allocator@[k + 1]).address == allocator@[k].address + allocator@[k].size by {
                    if k + 1 < before.len() {
                        assert(allocator@[k + 1] == before[k + 1]);
                    }
                }
                assert(before.len() > 0 ==> allocator@[0] == before[0]);
                assert forall|k: int| !is_first_fit(before, need as nat, k) by {
                    if 0 <= k < before.len() {
                        assert(!fits(before[k], need as nat));
                    }
                }
                lemma_top_in_arena(before, base, limit);
                assert(is_live_at(allocator@[before.len() as int], address as nat));
                assert forall|j: int|
                    0 <= j < before.len() && !(#[trigger] before[j]).free implies disjoint(
                    address as nat,
                    need as nat,
                    before[j].address as nat,
                    before[j].size as nat,
                ) by {
                    lemma_record_below_top(before, base, limit, j);
                }
            }
            address
        },
    }
}

/// Releases the block at `address`. The null address is ignored.
///
/// The record is the first one in use that starts at `address`. If it is
/// the topmost record, it leaves the table and its space returns to the
/// arena; otherwise it is marked free and waits for a request that it
/// can hold. Freeing an address that no record in use starts at, an
/// unknown address or one freed before, is fatal, so callers rule it out.
pub fn free(allocator: &mut Allocator, address: usize)
    requires
        old(allocator).wf(),
        address == 0 || has_live(old(allocator)@, address as nat),
    ensures
        final(allocator).wf(),
        final(allocator).arena_base() == old(allocator).arena_base(),
        final(allocator).arena_limit() == old(allocator).arena_limit(),
        free_outcome(old(allocator)@, address as nat, final(allocator)@),
{
    if address == 0 {
        return ;
    }
    let ghost before = allocator@;
    let ghost base = allocator.arena_base();
    let ghost limit = allocator.arena_limit();
    match allocator.find_live(address) {
        Some(i) => {
            proof {
                assert forall|k: int| is_first_live(before, address as nat, k) implies k
                    == i by {
                    if k < i {
                        assert(!is_live_at(before[k], address as nat));
                    } else if i < k {
                        assert(!is_live_at(before[i as int], address as nat));
                    }
                }
            }
            if i + 1 == allocator.allocations.len() {
                allocator.allocations.pop();
                proof {
                    assert(allocator@ =~= before.drop_last());
                    lemma_layout_survives_pop(before, base, limit);
                }
            } else {
                let a = allocator.allocations[i];
                allocator.allocations.set(
                    i,
                    Allocation { address: a.address, size: a.size, free: true },
                );
                proof {
                    assert(allocator@ =~= before.update(i as int, released(before[i as int])));
                    lemma_layout_survives_marking(before, base, limit, i as int, true);
                }
            }
        },
        None => {},
    }
}

/// Changing a record's free mark leaves the layout as it is.
proof fn lemma_layout_survives_marking(
    records: Seq<Allocation>,
    base: nat,
    limit: nat,
    i: int,
    free: bool,
)
    requires
        well_laid_out(records, base, limit),
        0 <= i < records.len(),
    ensures
        well_laid_out(records.update(i, Allocation { free, ..records[i] }), base, limit),
{
    let after = records.update(i, Allocation { free, ..records[i] });
    assert forall|k: int| 0 <= k < after.len() - 1 implies (#[trigger] after[k + 1]).address
        == after[k].address + after[k].size by {
        assert(records[k + 1].address == records[k].address + records[k].size);
    }
}

/// Removing the topmost record leaves a well laid out table.
proof fn lemma_layout_survives_pop(records: Seq<Allocation>, base: nat, limit: nat)
    requires
        well_laid_out(records, base, limit),
        records.len() > 0,
    ensures
        well_laid_out(records.drop_last(), base, limit),
{
    let after = records.drop_last();
    lemma_addresses_ascend(records, base, limit, 0, records.len() - 1);
    if after.len() > 0 {
        assert(records[after.len() - 1 + 1].address == records[after.len() - 1].address
            + records[after.len() - 1].size);
    }
    assert forall|k: int| 0 <= k < after.len() - 1 implies (#[trigger] after[k + 1]).address
        == after[k].address + after[k].size by {
        assert(records[k + 1].address == records[k].address + records[k].size);
    }
}

/// A record ends where a later record starts, or before.
proof fn lemma_addresses_ascend(records: Seq<Allocation>, base: nat, limit: nat, i: int, j: int)
    requires
        well_laid_out(records, base, limit),
        0 <= i <= j < records.len(),
    ensures
        i < j ==> records[i].address + records[i].size <= records[j].address,
        records[i].address <= records[j].address,
        base <= records[i].address,
    decreases j, i,
{
    if i < j {
        lemma_addresses_ascend(records, base, limit, i, j - 1);
        assert(records[j - 1 + 1].address == records[j - 1].address + records[j - 1].size);
    } else if i > 0 {
        lemma_addresses_ascend(records, base, limit, 0, i);
    }
}

/// Every record starts a multiple of eight bytes above the arena's base.
pub proof fn lemma_offsets_aligned(records: Seq<Allocation>, base: nat, limit: nat, i: int)
    requires
        well_laid_out(records, base, limit),
        0 <= i < records.len(),
    ensures
        (records[i].address - base) % 8 == 0,
        (records[i].address + records[i].size - base) % 8 == 0,
    decreases i,
{
    assert(records[i].size % 8 == 0);
    if i > 0 {
        lemma_offsets_aligned(records, base, limit, i - 1);
        assert(records[i - 1 + 1].address == records[i - 1].address + records[i - 1].size);
    }
}

/// Every record ends at or below the top of the table.
proof fn lemma_record_below_top(records: Seq<Allocation>, base: nat, limit: nat, i: int)
    requires
        well_laid_out(records, base, limit),
        0 <= i < records.len(),
    ensures
        base <= records[i].address,
        records[i].address + records[i].size <= top_of(records, base),
{
    lemma_addresses_ascend(records, base, limit, i, records.len() - 1);
}

/// Every record lies inside the arena.
proof fn lemma_record_in_arena(records: Seq<Allocation>, base: nat, limit: nat, i: int)
    requires
        well_laid_out(records, base, limit),
        0 <= i < records.len(),
    ensures
        base <= records[i].address,
        records[i].address + records[i].size <= limit,
{
    lemma_record_below_top(records, base, limit, i);
}

/// The top of the table lies inside the arena.
proof fn lemma_top_in_arena(records: Seq<Allocation>, base: nat, limit: nat)
    requires
        well_laid_out(records, base, limit),
    ensures
        base <= top_of(records, base) <= limit,
{
    if records.len() > 0 {
        lemma_record_below_top(records, base, limit, records.len() - 1);
    }
}

/// A part of one record shares no byte with another record.
proof fn lemma_records_disjoint(records: Seq<Allocation>, base: nat, limit: nat, i: int, j: int)
    requires
        well_laid_out(records, base, limit),
        0 <= i < records.len(),
        0 <= j < records.len(),
    ensures
        i != j ==> forall|n: nat|
            n <= records[i].size ==> #[trigger] disjoint(
                records[i].address as nat,
                n,
                records[j].address as nat,
                records[j].size as nat,
            ),
{
    if i < j {
        lemma_addresses_ascend(records, base, limit, i, j);
    } else if j < i {
        lemma_addresses_ascend(records, base, limit, j, i);
    }
}

/// No two blocks overlap: in a well laid out table, which is what every
/// allocator keeps through every `malloc` and `free`, two different records
/// share no byte, whether they are in use or free.
pub proof fn lemma_blocks_never_overlap(
    records: Seq<Allocation>,
    base: nat,
    limit: nat,
    i: int,
    j: int,
)
    requires
        well_laid_out(records, base, limit),
        0 <= i < records.len(),
        0 <= j < records.len(),
        i != j,
    ensures
        disjoint(
            records[i].address as nat,
            records[i].size as nat,
            records[j].address as nat,
            records[j].size as nat,
        ),
        base <= records[i].address,
        records[i].address + records[i].size <= limit,
{
    lemma_records_disjoint(records, base, limit, i, j);
    lemma_record_in_arena(records, base, limit, i);
    assert(disjoint(
        records[i].address as nat,
        records[i].size as nat,
        records[j].address as nat,
        records[j].size as nat,
    ));
}

/// An allocation of `need` bytes, a multiple of eight as every request is
/// once it is rounded up, that can be served keeps the table well laid out,
/// and the block it returns lies inside the arena and shares no byte with
/// any block that was in use before. So over any sequence of allocations and releases
/// that fit the arena, no two blocks in use overlap.
pub proof fn lemma_malloc_returns_fresh_block(
    before: Seq<Allocation>,
    base: nat,
    limit: nat,
    need: nat,
    after: Seq<Allocation>,
    address: nat,
)
    requires
        well_laid_out(before, base, limit),
        limit <= usize::MAX,
        need % 8 == 0,
        can_serve(before, base, limit, need),
        malloc_outcome(before, base, need, after, address),
    ensures
        well_laid_out(after, base, limit),
        base <= address,
        address + need <= limit,
        forall|j: int|
            0 <= j < before.len() && !(#[trigger] before[j]).free ==> disjoint(
                address,
                need,
                before[j].address as nat,
                before[j].size as nat,
            ),
{
    if no_fit(before, need) {
        lemma_top_in_arena(before, base, limit);
        assert(after.last().address == address);
        assert forall|k: int| 0 <= k < after.len() - 1 implies (#[trigger] after[k + 1]).address
            == after[k].address + after[k].size by {
            if k + 1 < before.len() {
                assert(after[k + 1] == before[k + 1]);
            }
        }
        assert(before.len() > 0 ==> after[0] == before[0]);
        assert forall|j: int| 0 <= j < before.len() && !(#[trigger] before[j]).free implies disjoint(
            address,
            need,
            before[j].address as nat,
            before[j].size as nat,
        ) by {
            lemma_record_below_top(before, base, limit, j);
        }
    } else {
        let i = lemma_first_fit_exists(before, need);
        lemma_layout_survives_marking(before, base, limit, i, false);
        lemma_record_in_arena(before, base, limit, i);
        assert forall|j: int| 0 <= j < before.len() && !(#[trigger] before[j]).free implies disjoint(
            address,
            need,
            before[j].address as nat,
            before[j].size as nat,
        ) by {
            lemma_records_disjoint(before, base, limit, i, j);
        }
    }
}

/// Where some record fits, one of them is the first.
proof fn lemma_first_fit_exists(records: Seq<Allocation>, need: nat) -> (i: int)
    requires
        !no_fit(records, need),
    ensures
        is_first_fit(records, need, i),
{
    let k = choose|k: int| 0 <= k < records.len() && fits(#[trigger] records[k], need);
    lemma_first_fit_before(records, need, k)
}

proof fn lemma_first_fit_before(records: Seq<Allocation>, need: nat, k: int) -> (i: int)
    requires
        0 <= k < records.len(),
        fits(records[k], need),
    ensures
        is_first_fit(records, need, i),
        i <= k,
    decreases k,
{
    if exists|j: int| 0 <= j < k && fits(#[trigger] records[j], need) {
        let j = choose|j: int| 0 <= j < k && fits(#[trigger] records[j], need);
        lemma_first_fit_before(records, need, j)
    } else {
        k
    }
}

/// A release that the table allows keeps it well laid out.
pub proof fn lemma_free_keeps_layout(
    before: Seq<Allocation>,
    base: nat,
    limit: nat,
    address: nat,
    after: Seq<Allocation>,
)
    requires
        well_laid_out(before, base, limit),
        address == 0 || has_live(before, address),
        free_outcome(before, address, after),
    ensures
        well_laid_out(after, base, limit),
{
    if address != 0 {
        let i = lemma_first_live_exists(before, address);
        if i == before.len() - 1 {
            lemma_layout_survives_pop(before, base, limit);
        } else {
            lemma_layout_survives_marking(before, base, limit, i, true);
        }
    }
}

/// Where some record in use starts at `address`, one of them is the first.
proof fn lemma_first_live_exists(records: Seq<Allocation>, address: nat) -> (i: int)
    requires
        has_live(records, address),
    ensures
        is_first_live(records, address, i),
{
    let k = choose|k: int| 0 <= k < records.len() && is_live_at(#[trigger] records[k], address);
    lemma_first_live_before(records, address, k)
}

proof fn lemma_first_live_before(records: Seq<Allocation>, address: nat, k: int) -> (i: int)
    requires
        0 <= k < records.len(),
        is_live_at(records[k], address),
    ensures
        is_first_live(records, address, i),
        i <= k,
    decreases k,
{
    if exists|j: int| 0 <= j < k && is_live_at(#[trigger] records[j], address) {
        let j = choose|j: int| 0 <= j < k && is_live_at(#[trigger] records[j], address);
        lemma_first_live_before(records, address, j)
    } else {
        k
    }
}

/// Water-mark reclaim: when the topmost record is released and the next
/// request, of `need` bytes once rounded up, is for no more bytes than that
/// record held, the request gets the released address back, provided that no free record lower in the table
/// is large enough for it (first fit would take that one instead).
///
/// `released_top` is the table before the release, whose topmost record is
/// the one that the release finds; `reclaimed` is the table after it.
pub proof fn lemma_watermark_reclaim(
    released_top: Seq<Allocation>,
    base: nat,
    limit: nat,
    reclaimed: Seq<Allocation>,
    need: nat,
    after: Seq<Allocation>,
    address: nat,
)
    requires
        well_laid_out(released_top, base, limit),
        released_top.len() > 0,
        is_first_live(
            released_top,
            released_top.last().address as nat,
            released_top.len() - 1,
        ),
        free_outcome(released_top, released_top.last().address as nat, reclaimed),
        need % 8 == 0,
        need <= released_top.last().size,
        no_fit(reclaimed, need),
        malloc_outcome(reclaimed, base, need, after, address),
    ensures
        reclaimed == released_top.drop_last(),
        address == released_top.last().address,
        after == reclaimed.push(
            Allocation { address: address as usize, size: need as usize, free: false },
        ),
        well_laid_out(after, base, limit),
{
    let n = released_top.len() as int;
    lemma_record_in_arena(released_top, base, limit, n - 1);
    lemma_layout_survives_pop(released_top, base, limit);
    if n > 1 {
        assert(released_top[n - 2 + 1].address == released_top[n - 2].address + released_top[n
            - 2].size);
    }
    assert(after.last().address == address);
    assert forall|k: int| 0 <= k < after.len() - 1 implies (#[trigger] after[k + 1]).address
        == after[k].address + after[k].size by {
        if k + 1 < reclaimed.len() {
            assert(after[k + 1] == released_top[k + 1]);
        }
    }
    assert(reclaimed.len() > 0 ==> after[0] == released_top[0]);
}

/// One call in a history of calls on an allocator, with what it returned.
pub enum ArenaOp {
    /// An allocation of `need` bytes, already rounded up, that returned
    /// `address`.
    Malloc { need: nat, address: nat },
    /// A release of `address`.
    Free { address: nat },
}

/// The call `op` was allowed on the table `before` and turned it into the
/// table `after`.
pub open spec fn is_step(
    before: Seq<Allocation>,
    op: ArenaOp,
    after: Seq<Allocation>,
    base: nat,
    limit: nat,
) -> bool {
    match op {
        ArenaOp::Malloc { need, address } => {
            &&& need % 8 == 0
            &&& can_serve(before, base, limit, need)
            &&& malloc_outcome(before, base, need, after, address)
        },
        ArenaOp::Free { address } => {
            &&& address == 0 || has_live(before, address)
            &&& free_outcome(before, address, after)
        },
    }
}

/// `tables` are the tables that an allocator went through, from the empty
/// table on, under the calls `ops`, all of which fit the arena.
pub open spec fn is_history(
    tables: Seq<Seq<Allocation>>,
    ops: Seq<ArenaOp>,
    base: nat,
    limit: nat,
) -> bool {
    &&& tables.len() == ops.len() + 1
    &&& tables[0] == Seq::<Allocation>::empty()
    &&& forall|i: int|
        0 <= i < ops.len() ==> is_step(#[trigger] tables[i], ops[i], tables[i + 1], base, limit)
}

/// The block that the call returned, if it was an allocation, shares no
/// byte with any block that was in use in `before`.
pub open spec fn returns_fresh_block(before: Seq<Allocation>, op: ArenaOp) -> bool {
    op matches ArenaOp::Malloc { need, address } ==> forall|j: int|
        0 <= j < before.len() && !(#[trigger] before[j]).free ==> disjoint(
            address,
            need,
            before[j].address as nat,
            before[j].size as nat,
        )
}

/// Whatever the sequence of allocations and releases that fit the arena:
/// every table on the way is well laid out, so that no two of its records
/// overlap, and no allocation returns a block that overlaps a block in use.
pub proof fn lemma_history_never_overlaps(
    tables: Seq<Seq<Allocation>>,
    ops: Seq<ArenaOp>,
    base: nat,
    limit: nat,
)
    requires
        0 < base <= limit <= usize::MAX,
        is_history(tables, ops, base, limit),
    ensures
        forall|i: int| 0 <= i < tables.len() ==> well_laid_out(#[trigger] tables[i], base, limit),
        forall|i: int| 0 <= i < ops.len() ==> returns_fresh_block(#[trigger] tables[i], ops[i]),
{
    lemma_history_well_laid_out(tables, ops, base, limit, ops.len() as int);
    assert forall|i: int| 0 <= i < ops.len() implies returns_fresh_block(
        #[trigger] tables[i],
        ops[i],
    ) by {
        assert(is_step(tables[i], ops[i], tables[i + 1], base, limit));
        match ops[i] {
            ArenaOp::Malloc { need, address } => {
                lemma_malloc_returns_fresh_block(
                    tables[i],
                    base,
                    limit,
                    need,
                    tables[i + 1],
                    address,
                );
            },
            ArenaOp::Free { address } => {},
        }
    }
}

proof fn lemma_history_well_laid_out(
    tables: Seq<Seq<Allocation>>,
    ops: Seq<ArenaOp>,
    base: nat,
    limit: nat,
    upto: int,
)
    requires
        0 < base <= limit <= usize::MAX,
        is_history(tables, ops, base, limit),
        0 <= upto <= ops.len(),
    ensures
        forall|i: int| 0 <= i <= upto ==> well_laid_out(#[trigger] tables[i], base, limit),
    decreases upto,
{
    if upto > 0 {
        lemma_history_well_laid_out(tables, ops, base, limit, upto - 1);
        let before = tables[upto - 1];
        assert(is_step(before, ops[upto - 1], tables[upto - 1 + 1], base, limit));
        match ops[upto - 1] {
            ArenaOp::Malloc { need, address } => {
                lemma_malloc_returns_fresh_block(before, base, limit, need, tables[upto], address);
            },
            ArenaOp::Free { address } => {
                lemma_free_keeps_layout(before, base, limit, address, tables[upto]);
            },
        }
    }
}

} // verus!
