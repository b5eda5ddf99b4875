//! First-fit heap allocator over a list of free regions, kept in ascending
//! address order and merged whenever two of them touch.

use vstd::prelude::*;

verus! {

/// First address of the kernel heap.
pub const HEAP_START: u64 = 0x_4444_4444_0000;

/// Bytes in the kernel heap.
pub const HEAP_SIZE: u64 = 4 * 1024 * 1024;

/// Bytes of the header that every free region carries at its start. No free
/// region is smaller, and no request is served with less.
pub const NODE_SIZE: u64 = 16;

/// Alignment of that header.
pub const NODE_ALIGN: u64 = 8;

/// The lowest multiple of `align` that is not below `addr`.
pub open spec fn align_up_spec(addr: int, align: int) -> int {
    if addr % align == 0 {
        addr
    } else {
        addr - addr % align + align
    }
}

/// Rounds `addr` up to a multiple of `align`.
pub fn align_up(addr: u64, align: u64) -> (r: u64)
    requires
        align > 0,
        align_up_spec(addr as int, align as int) <= u64::MAX,
    ensures
        r == align_up_spec(addr as int, align as int),
{
    let rem = addr % align;
    assert(rem <= addr) by (nonlinear_arith)
        requires
            rem == addr % align,
            align > 0,
    ;
    if rem == 0 {
        addr
    } else {
        addr - rem + align
    }
}

/// One free region: `size` bytes from address `start` on.
#[derive(Clone, Copy, Debug, PartialEq, Eq, Structural)]
pub struct ListNode {
    pub start: u64,
    pub size: u64,
}

impl ListNode {
    /// One past the last byte of the region.
    pub open spec fn end(self) -> int {
        self.start + self.size
    }

    /// Where a request of `size` bytes aligned to `align` would lie in this
    /// region: from the first aligned address on, if the region reaches that
    /// far.
    pub open spec fn region(self, size: int, align: int) -> Option<(int, int)> {
        let alloc_start = align_up_spec(self.start as int, align);
        if alloc_start + size <= self.end() {
            Some((alloc_start, alloc_start + size))
        } else {
            None
        }
    }

    pub fn new(start: u64, size: u64) -> (r: Self)
        ensures
            r == (ListNode { start, size }),
    {
        ListNode { start, size }
    }

    pub fn start_addr(&self) -> (r: u64)
        ensures
            r == self.start,
    {
        self.start
    }

    pub fn end_addr(&self) -> (r: u64)
        requires
            self.end() <= u64::MAX,
        ensures
            r == self.end(),
    {
        self.start + self.size
    }

    /// The part of this region that a request of `size` bytes aligned to
    /// `align` would take, as start and end address; `None` if it does not fit.
    pub fn find_region(&self, size: u64, align: u64) -> (r: Option<(u64, u64)>)
        requires
            align > 0,
            self.end() <= u64::MAX,
        ensures
            match r {
                Some((alloc_start, alloc_end)) => self.region(size as int, align as int) == Some(
                    (alloc_start as int, alloc_end as int),
                ),
                None => self.region(size as int, align as int) is None,
            },
    {
        let rem = self.start % align;
        if rem != 0 && align - rem > u64::MAX - self.start {
            return None;
        }
        let alloc_start = align_up(self.start_addr(), align);
        let alloc_end = match alloc_start.checked_add(size) {
            Some(e) => e,
            None => {
                return None;
            },
        };
        if alloc_end > self.end_addr() {
            None
        } else {
            Some((alloc_start, alloc_end))
        }
    }

    /// Whether what lies between `alloc_end` and the end of this region can
    /// stand as a free region of its own.
    pub fn can_split(&self, alloc_end: u64) -> (r: bool)
        requires
            alloc_end <= self.end() <= u64::MAX,
        ensures
            r == (self.end() - alloc_end >= NODE_SIZE),
    {
        let size = self.end_addr() - alloc_end;
        size >= NODE_SIZE
    }
}

/// The free-list invariant: every region can hold a header and ends within
/// the address space, and the regions lie in ascending address order with a
/// gap between any two, so that none overlap and none are left unmerged.
pub open spec fn list_wf(s: Seq<ListNode>) -> bool {
    &&& forall|i: int|
        0 <= i < s.len() ==> (#[trigger] s[i]).size >= NODE_SIZE && s[i].end() <= u64::MAX
    &&& forall|i: int, j: int|
        0 <= i < j < s.len() ==> (#[trigger] s[i]).end() < (#[trigger] s[j]).start
}

/// Index of the first region from `k` on in which the request fits, or the
/// length of the list.
pub open spec fn first_fit_from(s: Seq<ListNode>, k: int, size: int, align: int) -> int
    decreases s.len() - k,
{
    if k < 0 || k >= s.len() {
        s.len() as int
    } else if s[k].region(size, align) is Some {
        k
    } else {
        first_fit_from(s, k + 1, size, align)
    }
}

/// First-fit allocation on the list: the address handed out, and the list
/// afterwards. The first region in which the request fits is cut down to what
/// lies behind the request if that can hold a header, and leaves the list
/// otherwise.
pub open spec fn alloc_model(s: Seq<ListNode>, size: int, align: int) -> (Option<int>, Seq<ListNode>) {
    let k = first_fit_from(s, 0, size, align);
    if k >= s.len() {
        (None, s)
    } else {
        let alloc_start = align_up_spec(s[k].start as int, align);
        let alloc_end = alloc_start + size;
        let rest = s[k].end() - alloc_end;
        if rest >= NODE_SIZE {
            (Some(alloc_start), s.update(k, ListNode { start: alloc_end as u64, size: rest as u64 }))
        } else {
            (Some(alloc_start), s.remove(k))
        }
    }
}

/// Index of the first region from `k` on that starts above `addr`, or the
/// length of the list.
pub open spec fn insert_pos_from(s: Seq<ListNode>, k: int, addr: int) -> int
    decreases s.len() - k,
{
    if k < 0 || k >= s.len() {
        s.len() as int
    } else if addr < s[k].start {
        k
    } else {
        insert_pos_from(s, k + 1, addr)
    }
}

/// The block `[addr, addr + size)` shares no byte with a free region.
pub open spec fn block_is_allocated(s: Seq<ListNode>, addr: int, size: int) -> bool {
    forall|i: int| 0 <= i < s.len() ==> addr + size <= (#[trigger] s[i]).start || s[i].end() <= addr
}

/// The list after the block `[addr, addr + size)` came back: it stands at
/// its place in address order, merged with the region that ends where it
/// starts and with the region that starts where it ends.
pub open spec fn dealloc_model(s: Seq<ListNode>, addr: int, size: int) -> Seq<ListNode> {
    let p = insert_pos_from(s, 0, addr);
    let joins_prev = p > 0 && s[p - 1].end() == addr;
    let joins_next = p < s.len() && addr + size == s[p].start;
    if joins_prev && joins_next {
        s.update(
            p - 1,
            ListNode { start: s[p - 1].start, size: (s[p - 1].size + size + s[p].size) as u64 },
        ).remove(p)
    } else if joins_prev {
        s.update(p - 1, ListNode { start: s[p - 1].start, size: (s[p - 1].size + size) as u64 })
    } else if joins_next {
        s.update(p, ListNode { start: addr as u64, size: (size + s[p].size) as u64 })
    } else {
        s.insert(p, ListNode { start: addr as u64, size: size as u64 })
    }
}

/// Bytes held by the free regions of `s`.
pub open spec fn free_bytes(s: Seq<ListNode>) -> int
    decreases s.len(),
{
    if s.len() == 0 {
        0
    } else {
        free_bytes(s.drop_last()) + s.last().size
    }
}

proof fn lemma_first_fit_from(s: Seq<ListNode>, k: int, size: int, align: int)
    requires
        0 <= k <= s.len(),
    ensures
        k <= first_fit_from(s, k, size, align) <= s.len(),
        forall|i: int|
            k <= i < first_fit_from(s, k, size, align) ==> (#[trigger] s[i]).region(size, align)
                is None,
        first_fit_from(s, k, size, align) < s.len() ==> s[first_fit_from(s, k, size, align)].region(
            size,
            align,
        ) is Some,
    decreases s.len() - k,
{
    if k < s.len() && s[k].region(size, align) is None {
        lemma_first_fit_from(s, k + 1, size, align);
    }
}

proof fn lemma_insert_pos_from(s: Seq<ListNode>, k: int, addr: int)
    requires
        0 <= k <= s.len(),
    ensures
        k <= insert_pos_from(s, k, addr) <= s.len(),
        forall|i: int| k <= i < insert_pos_from(s, k, addr) ==> (#[trigger] s[i]).start <= addr,
        insert_pos_from(s, k, addr) < s.len() ==> addr < s[insert_pos_from(s, k, addr)].start,
    decreases s.len() - k,
{
    if k < s.len() && addr >= s[k].start {
        lemma_insert_pos_from(s, k + 1, addr);
    }
}

/// Allocation keeps the free list sorted, disjoint and merged, and leaves no
/// region in it that is too small to hold a header: what remains of the
/// region that served the request either has room for one or is dropped.
pub proof fn lemma_alloc_keeps_wf(s: Seq<ListNode>, size: int, align: int)
    requires
        list_wf(s),
        align > 0,
        size >= 0,
    ensures
        list_wf(alloc_model(s, size, align).1),
        alloc_model(s, size, align).1.len() <= s.len(),
{
    let k = first_fit_from(s, 0, size, align);
    lemma_first_fit_from(s, 0, size, align);
    if k < s.len() {
        let alloc_start = align_up_spec(s[k].start as int, align);
        let alloc_end = alloc_start + size;
        let rest = s[k].end() - alloc_end;
        assert(alloc_start >= s[k].start) by {
            lemma_align_up_spec(s[k].start as int, align);
        }
        let t = alloc_model(s, size, align).1;
        if rest >= NODE_SIZE {
            assert forall|i: int, j: int| 0 <= i < j < t.len() implies (#[trigger] t[i]).end() < (
            #[trigger] t[j]).start by {
                assert(s[i].end() < s[j].start);
            }
        } else {
            assert forall|i: int, j: int| 0 <= i < j < t.len() implies (#[trigger] t[i]).end() < (
            #[trigger] t[j]).start by {
                let si = if i < k { i } else { i + 1 };
                let sj = if j < k { j } else { j + 1 };
                assert(s[si].end() < s[sj].start);
            }
            assert forall|i: int| 0 <= i < t.len() implies (#[trigger] t[i]).size >= NODE_SIZE
                && t[i].end() <= u64::MAX by {
                let si = if i < k { i } else { i + 1 };
                assert(s[si].size >= NODE_SIZE);
            }
        }
    }
}

/// Rounding up never goes below the address, stays within one alignment step
/// of it, and lands on a multiple of the alignment.
pub proof fn lemma_align_up_spec(addr: int, align: int)
    requires
        addr >= 0,
        align > 0,
    ensures
        addr <= align_up_spec(addr, align) < addr + align,
        align_up_spec(addr, align) % align == 0,
{
    let r = addr % align;
    assert(0 <= r < align);
    if r != 0 {
        assert((addr - r + align) % align == 0) by (nonlinear_arith)
            requires
                r == addr % align,
                align > 0,
        ;
    }
}

/// Where an allocated block stands among the free regions: every region
/// before its place ends at or below it, every region from its place on
/// starts at or above its end.
proof fn lemma_dealloc_place(s: Seq<ListNode>, addr: int, size: int)
    requires
        list_wf(s),
        size >= NODE_SIZE,
        block_is_allocated(s, addr, size),
    ensures
        block_stands_at(s, insert_pos_from(s, 0, addr), addr, size),
{
    let p = insert_pos_from(s, 0, addr);
    lemma_insert_pos_from(s, 0, addr);
    assert forall|i: int| 0 <= i < p implies (#[trigger] s[i]).end() <= addr by {
        assert(s[i].start <= addr);
    }
    assert forall|i: int| p <= i < s.len() implies addr + size <= (#[trigger] s[i]).start by {
        if i > p {
            assert(s[p].end() < s[i].start);
        }
    }
}

spec fn block_stands_at(s: Seq<ListNode>, p: int, addr: int, size: int) -> bool {
    &&& 0 <= p <= s.len()
    &&& forall|i: int| 0 <= i < p ==> (#[trigger] s[i]).end() <= addr
    &&& forall|i: int| p <= i < s.len() ==> addr + size <= (#[trigger] s[i]).start
}

proof fn lemma_dealloc_insert(s: Seq<ListNode>, p: int, n: ListNode)
    requires
        list_wf(s),
        n.size >= NODE_SIZE,
        n.end() <= u64::MAX,
        block_stands_at(s, p, n.start as int, n.size as int),
        p > 0 ==> s[p - 1].end() != n.start,
        p < s.len() ==> n.end() != s[p].start,
    ensures
        list_wf(s.insert(p, n)),
{
    let t = s.insert(p, n);
    assert forall|i: int, j: int| 0 <= i < j < t.len() implies (#[trigger] t[i]).end() < (
    #[trigger] t[j]).start by {
        let si = if i < p { i } else { i - 1 };
        let sj = if j < p { j } else { j - 1 };
        if i != p && j != p {
            assert(s[si].end() < s[sj].start);
        } else if i == p {
            assert(n.end() <= s[sj].start);
            if sj > p {
                assert(s[p].end() < s[sj].start);
            }
        } else {
            assert(s[si].end() <= n.start);
            if si < p - 1 {
                assert(s[si].end() < s[p - 1].start);
            }
        }
    }
    assert forall|i: int| 0 <= i < t.len() implies (#[trigger] t[i]).size >= NODE_SIZE
        && t[i].end() <= u64::MAX by {
        if i != p {
            let si = if i < p { i } else { i - 1 };
            assert(s[si].size >= NODE_SIZE);
        }
    }
}

proof fn lemma_dealloc_join_next(s: Seq<ListNode>, p: int, n: ListNode)
    requires
        list_wf(s),
        0 <= p < s.len(),
        n.end() == s[p].end(),
        n.start < s[p].start,
        forall|i: int| 0 <= i < p ==> (#[trigger] s[i]).end() < n.start,
    ensures
        list_wf(s.update(p, n)),
{
    let t = s.update(p, n);
    assert forall|i: int, j: int| 0 <= i < j < t.len() implies (#[trigger] t[i]).end() < (
    #[trigger] t[j]).start by {
        assert(s[i].end() < s[j].start);
    }
    assert forall|i: int| 0 <= i < t.len() implies (#[trigger] t[i]).size >= NODE_SIZE
        && t[i].end() <= u64::MAX by {
        assert(s[i].size >= NODE_SIZE);
    }
}

proof fn lemma_dealloc_join_prev(s: Seq<ListNode>, q: int, n: ListNode)
    requires
        list_wf(s),
        0 <= q < s.len(),
        n.start == s[q].start,
        s[q].end() < n.end() <= u64::MAX,
        forall|i: int| q < i < s.len() ==> n.end() < (#[trigger] s[i]).start,
    ensures
        list_wf(s.update(q, n)),
{
    let t = s.update(q, n);
    assert forall|i: int, j: int| 0 <= i < j < t.len() implies (#[trigger] t[i]).end() < (
    #[trigger] t[j]).start by {
        assert(s[i].end() < s[j].start);
    }
    assert forall|i: int| 0 <= i < t.len() implies (#[trigger] t[i]).size >= NODE_SIZE
        && t[i].end() <= u64::MAX by {
        assert(s[i].size >= NODE_SIZE);
    }
}

proof fn lemma_dealloc_join_both(s: Seq<ListNode>, q: int, n: ListNode)
    requires
        list_wf(s),
        0 <= q < s.len() - 1,
        n.start == s[q].start,
        n.end() == s[q + 1].end(),
    ensures
        list_wf(s.update(q, n).remove(q + 1)),
{
    let t = s.update(q, n).remove(q + 1);
    assert(s[q].end() < s[q + 1].start);
    assert forall|i: int, j: int| 0 <= i < j < t.len() implies (#[trigger] t[i]).end() < (
    #[trigger] t[j]).start by {
        let si = if i <= q { i } else { i + 1 };
        let sj = if j <= q { j } else { j + 1 };
        assert(s[si].end() < s[sj].start);
        if i == q {
            assert(s[q + 1].end() < s[sj].start);
        }
    }
    assert forall|i: int| 0 <= i < t.len() implies (#[trigger] t[i]).size >= NODE_SIZE
        && t[i].end() <= u64::MAX by {
        let si = if i <= q { i } else { i + 1 };
        assert(s[si].size >= NODE_SIZE);
        assert(s[q + 1].end() <= u64::MAX);
    }
}

/// Giving back an allocated block keeps the free list sorted, disjoint and
/// merged.
pub proof fn lemma_dealloc_keeps_wf(s: Seq<ListNode>, addr: int, size: int)
    requires
        list_wf(s),
        size >= NODE_SIZE,
        0 <= addr,
        addr + size <= u64::MAX,
        block_is_allocated(s, addr, size),
    ensures
        list_wf(dealloc_model(s, addr, size)),
{
    let p = insert_pos_from(s, 0, addr);
    lemma_dealloc_place(s, addr, size);
    let joins_prev = p > 0 && s[p - 1].end() == addr;
    let joins_next = p < s.len() && addr + size == s[p].start;
    if joins_prev && joins_next {
        lemma_dealloc_join_both(
            s,
            p - 1,
            ListNode { start: s[p - 1].start, size: (s[p - 1].size + size + s[p].size) as u64 },
        );
    } else if joins_prev {
        let n = ListNode { start: s[p - 1].start, size: (s[p - 1].size + size) as u64 };
        assert forall|i: int| p - 1 < i < s.len() implies n.end() < (#[trigger] s[i]).start by {
            if i > p {
                assert(s[p].end() < s[i].start);
            }
        }
        lemma_dealloc_join_prev(s, p - 1, n);
    } else if joins_next {
        let n = ListNode { start: addr as u64, size: (size + s[p].size) as u64 };
        assert forall|i: int| 0 <= i < p implies (#[trigger] s[i]).end() < n.start by {
            if i < p - 1 {
                assert(s[i].end() < s[p - 1].start);
            }
        }
        lemma_dealloc_join_next(s, p, n);
    } else {
        lemma_dealloc_insert(s, p, ListNode { start: addr as u64, size: size as u64 });
    }
}

/// Giving back a block adds exactly its bytes to the free bytes.
pub proof fn lemma_dealloc_frees(s: Seq<ListNode>, addr: int, size: int)
    requires
        list_wf(s),
        size >= NODE_SIZE,
        0 <= addr,
        addr + size <= u64::MAX,
        block_is_allocated(s, addr, size),
    ensures
        free_bytes(dealloc_model(s, addr, size)) == free_bytes(s) + size,
{
    let p = insert_pos_from(s, 0, addr);
    lemma_dealloc_place(s, addr, size);
    let t = dealloc_model(s, addr, size);
    let joins_prev = p > 0 && s[p - 1].end() == addr;
    let joins_next = p < s.len() && addr + size == s[p].start;
    if joins_prev && joins_next {
        let u = s.update(
            p - 1,
            ListNode { start: s[p - 1].start, size: (s[p - 1].size + size + s[p].size) as u64 },
        );
        assert(s[p].end() <= u64::MAX);
        lemma_free_bytes_update(s, p - 1, u[p - 1]);
        lemma_free_bytes_remove(u, p);
    } else if joins_prev {
        lemma_free_bytes_update(s, p - 1, t[p - 1]);
    } else if joins_next {
        assert(s[p].end() <= u64::MAX);
        lemma_free_bytes_update(s, p, t[p]);
    } else {
        lemma_free_bytes_insert(s, p, t[p]);
    }
}

proof fn lemma_free_bytes_update(s: Seq<ListNode>, i: int, n: ListNode)
    requires
        0 <= i < s.len(),
    ensures
        free_bytes(s.update(i, n)) == free_bytes(s) - s[i].size + n.size,
    decreases s.len(),
{
    let t = s.update(i, n);
    if i == s.len() - 1 {
        assert(t.drop_last() =~= s.drop_last());
    } else {
        assert(t.drop_last() =~= s.drop_last().update(i, n));
        lemma_free_bytes_update(s.drop_last(), i, n);
    }
}

proof fn lemma_free_bytes_remove(s: Seq<ListNode>, i: int)
    requires
        0 <= i < s.len(),
    ensures
        free_bytes(s.remove(i)) == free_bytes(s) - s[i].size,
    decreases s.len(),
{
    let t = s.remove(i);
    if i == s.len() - 1 {
        assert(t =~= s.drop_last());
    } else {
        assert(t.drop_last() =~= s.drop_last().remove(i));
        assert(t.last() == s.last());
        lemma_free_bytes_remove(s.drop_last(), i);
    }
}

proof fn lemma_free_bytes_insert(s: Seq<ListNode>, i: int, n: ListNode)
    requires
        0 <= i <= s.len(),
    ensures
        free_bytes(s.insert(i, n)) == free_bytes(s) + n.size,
    decreases s.len(),
{
    let t = s.insert(i, n);
    if i == s.len() {
        assert(t.drop_last() =~= s);
    } else {
        assert(t.drop_last() =~= s.drop_last().insert(i, n));
        assert(t.last() == s.last());
        lemma_free_bytes_insert(s.drop_last(), i, n);
    }
}

/// The heap allocator: its free regions, the lowest first.
pub struct LinkedListAllocator {
    nodes: Vec<ListNode>,
}

impl View for LinkedListAllocator {
    type V = Seq<ListNode>;

    closed spec fn view(&self) -> Seq<ListNode> {
        self.nodes@
    }
}

impl LinkedListAllocator {
    /// The free list is sorted, disjoint, merged and free of splinters.
    pub open spec fn wf(&self) -> bool {
        list_wf(self@)
    }

    /// An allocator with no memory to hand out.
    pub fn new() -> (r: Self)
        ensures
            r@ == Seq::<ListNode>::empty(),
            r.wf(),
    {
        LinkedListAllocator { nodes: Vec::new() }
    }

    /// Makes `[heap_start, heap_start + heap_size)` the whole free list, as
    /// one region.
    pub fn init(&mut self, heap_start: u64, heap_size: u64)
        requires
            heap_start % NODE_ALIGN == 0,
            heap_size >= NODE_SIZE,
            heap_start + heap_size <= u64::MAX,
        ensures
            final(self)@ == seq![ListNode { start: heap_start, size: heap_size }],
            final(self).wf(),
    {
        let initial_node = ListNode::new(heap_start, heap_size);
        self.nodes.clear();
        self.nodes.push(initial_node);
        assert(self@ =~= seq![initial_node]);
    }

    /// The free regions, the lowest first.
    pub fn free_regions(&self) -> (r: &Vec<ListNode>)
        ensures
            r@ == self@,
    {
        &self.nodes
    }

    /// Whether the block `[addr, addr + size)` ends within the address space
    /// and shares no byte with a free region, as a block does that was
    /// handed out and has not come back.
    pub fn is_allocated(&self, addr: u64, size: u64) -> (r: bool)
        ensures
            r == (addr + size <= u64::MAX && block_is_allocated(self@, addr as int, size as int)),
    {
        if size > u64::MAX - addr {
            return false;
        }
        let end = addr + size;
        let mut i: usize = 0;
        while i < self.nodes.len()
            invariant
                0 <= i <= self@.len(),
                end == addr + size,
                forall|k: int|
                    0 <= k < i ==> end <= (#[trigger] self@[k]).start || self@[k].end() <= addr,
            decreases self@.len() - i,
        {
            let node = self.nodes[i];
            let apart = end <= node.start || (node.size <= u64::MAX - node.start && node.start
                + node.size <= addr);
            if !apart {
                return false;
            }
            i += 1;
        }
        true
    }

    /// Serves a request of `size` bytes aligned to `align` from the first
    /// free region in which it fits, and returns where the block starts.
    /// `None` means that it fits in no region; the list is then unchanged.
    pub fn alloc_from_list(&mut self, size: u64, align: u64) -> (r: Option<u64>)
        requires
            old(self).wf(),
            align > 0,
        ensures
            final(self).wf(),
            final(self)@ == alloc_model(old(self)@, size as int, align as int).1,
            match r {
                Some(a) => alloc_model(old(self)@, size as int, align as int).0 == Some(a as int),
                None => alloc_model(old(self)@, size as int, align as int).0 is None,
            },
    {
        proof {
            lemma_alloc_keeps_wf(self@, size as int, align as int);
        }
        let mut i: usize = 0;
        while i < self.nodes.len()
            invariant
                self@ == old(self)@,
                self.wf(),
                align > 0,
                0 <= i <= self@.len(),
                first_fit_from(self@, i as int, size as int, align as int) == first_fit_from(
                    self@,
                    0,
                    size as int,
                    align as int,
                ),
            decreases self@.len() - i,
        {
            let node = self.nodes[i];
            match node.find_region(size, align) {
                Some((alloc_start, alloc_end)) => {
                    if node.can_split(alloc_end) {
                        let remainder_size = node.end_addr() - alloc_end;
                        let remainder_node = ListNode::new(alloc_end, remainder_size);
                        self.nodes[i] = remainder_node;
                    } else {
                        self.nodes.remove(i);
                    }
                    return Some(alloc_start);
                },
                None => {},
            }
            i += 1;
        }
        None
    }

    /// Takes the block `[addr, addr + size)` back into the free list, merging
    /// it with the free regions that touch it on either side.
    pub fn dealloc_to_list(&mut self, addr: u64, size: u64)
        requires
            old(self).wf(),
            size >= NODE_SIZE,
            addr + size <= u64::MAX,
            block_is_allocated(old(self)@, addr as int, size as int),
        ensures
            final(self).wf(),
            final(self)@ == dealloc_model(old(self)@, addr as int, size as int),
            free_bytes(final(self)@) == free_bytes(old(self)@) + size,
    {
        proof {
            lemma_dealloc_keeps_wf(self@, addr as int, size as int);
            lemma_dealloc_frees(self@, addr as int, size as int);
        }
        let mut i: usize = 0;
        while i < self.nodes.len()
            invariant
                self@ == old(self)@,
                self.wf(),
                size >= NODE_SIZE,
                addr + size <= u64::MAX,
                0 <= i <= self@.len(),
                insert_pos_from(self@, i as int, addr as int) == insert_pos_from(
                    self@,
                    0,
                    addr as int,
                ),
                forall|k: int| 0 <= k < i ==> (#[trigger] self@[k]).end() != addr,
                list_wf(dealloc_model(old(self)@, addr as int, size as int)),
                free_bytes(dealloc_model(old(self)@, addr as int, size as int)) == free_bytes(
                    old(self)@,
                ) + size,
            decreases self@.len() - i,
        {
            let node = self.nodes[i];
            let node_addr = node.start_addr();
            let node_end = node.end_addr();
            if addr < node_addr {
                if addr + size == node_addr {
                    self.nodes[i] = ListNode::new(addr, size + node.size);
                } else {
                    self.nodes.insert(i, ListNode::new(addr, size));
                }
                return ;
            } else if node_end == addr {
                let grown = node.size + size;
                proof {
                    assert(insert_pos_from(self@, i as int, addr as int) == insert_pos_from(
                        self@,
                        i + 1,
                        addr as int,
                    ));
                    if i + 1 < self@.len() {
                        assert(self@[i as int].end() < self@[i + 1].start);
                    }
                    assert(insert_pos_from(self@, i + 1, addr as int) == i + 1);
                }
                if i + 1 < self.nodes.len() && addr + size == self.nodes[i + 1].start_addr() {
                    let next_node = self.nodes[i + 1];
                    assert(next_node.end() <= u64::MAX);
                    self.nodes[i] = ListNode::new(node_addr, grown + next_node.size);
                    self.nodes.remove(i + 1);
                } else {
                    self.nodes[i] = ListNode::new(node_addr, grown);
                }
                return ;
            }
            i += 1;
        }
        self.nodes.push(ListNode::new(addr, size));
        assert(self@ =~= old(self)@.insert(old(self)@.len() as int, ListNode { start: addr, size }));
    }

    /// Serves a request of `size` bytes aligned to `align`. The request is
    /// raised to the size of a header, so that the block can come back as a
    /// free region.
    pub fn allocate(&mut self, size: u64, align: u64) -> (r: Option<u64>)
        requires
            old(self).wf(),
            align > 0,
        ensures
            final(self).wf(),
            final(self)@ == alloc_model(old(self)@, raised(size) as int, align as int).1,
            match r {
                Some(a) => alloc_model(old(self)@, raised(size) as int, align as int).0 == Some(
                    a as int,
                ),
                None => alloc_model(old(self)@, raised(size) as int, align as int).0 is None,
            },
    {
        let size = if size < NODE_SIZE {
            NODE_SIZE
        } else {
            size
        };
        self.alloc_from_list(size, align)
    }

    /// Takes back the block at `addr` that a request of `size` bytes was
    /// served with.
    pub fn deallocate(&mut self, addr: u64, size: u64)
        requires
            old(self).wf(),
            addr + raised(size) <= u64::MAX,
            block_is_allocated(old(self)@, addr as int, raised(size) as int),
        ensures
            final(self).wf(),
            final(self)@ == dealloc_model(old(self)@, addr as int, raised(size) as int),
            free_bytes(final(self)@) == free_bytes(old(self)@) + raised(size),
    {
        let size = if size < NODE_SIZE {
            NODE_SIZE
        } else {
            size
        };
        self.dealloc_to_list(addr, size);
    }
}

/// A request's size as the allocator counts it: at least a header.
pub open spec fn raised(size: u64) -> u64 {
    if size < NODE_SIZE {
        NODE_SIZE
    } else {
        size
    }
}

/// A block that was cut from the very start of a free region, with what lay
/// behind it either kept as a region or nothing at all, and that comes back
/// before anything else happens, leaves the free list as it was before the
/// request: nothing is lost to fragments.
pub proof fn lemma_round_trip(s: Seq<ListNode>, size: int, align: int)
    requires
        list_wf(s),
        align > 0,
        size >= NODE_SIZE,
        first_fit_from(s, 0, size, align) < s.len(),
        ({
            let node = s[first_fit_from(s, 0, size, align)];
            &&& node.start as int % align == 0
            &&& node.size - size >= NODE_SIZE || node.size == size
        }),
    ensures
        alloc_model(s, size, align).0 == Some(s[first_fit_from(s, 0, size, align)].start as int),
        dealloc_model(
            alloc_model(s, size, align).1,
            s[first_fit_from(s, 0, size, align)].start as int,
            size,
        ) == s,
{
    let k = first_fit_from(s, 0, size, align);
    lemma_first_fit_from(s, 0, size, align);
    let a = s[k].start as int;
    let t = alloc_model(s, size, align).1;
    let p = insert_pos_from(t, 0, a);
    lemma_insert_pos_from(t, 0, a);
    assert forall|j: int| 0 <= j < k implies (#[trigger] t[j]).start <= a by {
        assert(s[j].end() < s[k].start);
    }
    if s[k].size == size {
        assert(t =~= s.remove(k));
        if k < t.len() {
            assert(s[k].end() < s[k + 1].start);
        }
        assert(p == k) by {
            if p < k {
                assert(t[p].start <= a);
            } else if p > k {
                assert(t[k].start <= a);
            }
        }
        if k > 0 {
            assert(s[k - 1].end() < s[k].start);
        }
        assert(dealloc_model(t, a, size) =~= s);
    } else {
        assert(t =~= s.update(k, ListNode { start: (a + size) as u64, size: (s[k].size - size) as u64 }));
        assert(p == k) by {
            if p < k {
                assert(t[p].start <= a);
            } else if p > k {
                assert(t[k].start <= a);
            }
        }
        if k > 0 {
            assert(s[k - 1].end() < s[k].start);
        }
        assert(dealloc_model(t, a, size) =~= s);
    }
}

/// One request made of the heap.
pub enum HeapOp {
    /// A request for `size` bytes aligned to `align`.
    Allocate { size: u64, align: u64 },
    /// The return of the block at `addr` that a request for `size` bytes was
    /// served with.
    Deallocate { addr: u64, size: u64 },
}

/// Whether `op` may be made of a heap whose free list is `s`: an alignment is
/// positive, and a block that comes back ends within the address space and
/// shares no byte with a free region.
pub open spec fn op_allowed(s: Seq<ListNode>, op: HeapOp) -> bool {
    match op {
        HeapOp::Allocate { size, align } => align > 0,
        HeapOp::Deallocate { addr, size } => addr + raised(size) <= u64::MAX && block_is_allocated(
            s,
            addr as int,
            raised(size) as int,
        ),
    }
}

/// The free list after `op` was made of a heap whose free list was `s`.
pub open spec fn list_after(s: Seq<ListNode>, op: HeapOp) -> Seq<ListNode> {
    match op {
        HeapOp::Allocate { size, align } => alloc_model(s, raised(size) as int, align as int).1,
        HeapOp::Deallocate { addr, size } => dealloc_model(s, addr as int, raised(size) as int),
    }
}

/// The free list after the requests `ops` were made one after another.
pub open spec fn list_after_all(s: Seq<ListNode>, ops: Seq<HeapOp>) -> Seq<ListNode>
    decreases ops.len(),
{
    if ops.len() == 0 {
        s
    } else {
        list_after(list_after_all(s, ops.drop_last()), ops.last())
    }
}

/// Whether each of the requests `ops` may be made when its turn comes.
pub open spec fn ops_allowed(s: Seq<ListNode>, ops: Seq<HeapOp>) -> bool
    decreases ops.len(),
{
    ops.len() == 0 || (ops_allowed(s, ops.drop_last()) && op_allowed(
        list_after_all(s, ops.drop_last()),
        ops.last(),
    ))
}

/// Whatever requests are made of a heap, one after another, its free list
/// stays in strictly ascending address order, with no two regions that
/// overlap or touch, and with no region too small to hold a header.
pub proof fn lemma_heap_stays_wf(s: Seq<ListNode>, ops: Seq<HeapOp>)
    requires
        list_wf(s),
        ops_allowed(s, ops),
    ensures
        list_wf(list_after_all(s, ops)),
    decreases ops.len(),
{
    if ops.len() > 0 {
        lemma_heap_stays_wf(s, ops.drop_last());
        let before = list_after_all(s, ops.drop_last());
        match ops.last() {
            HeapOp::Allocate { size, align } => {
                lemma_alloc_keeps_wf(before, raised(size) as int, align as int);
            },
            HeapOp::Deallocate { addr, size } => {
                lemma_dealloc_keeps_wf(before, addr as int, raised(size) as int);
            },
        }
    }
}

} // verus!
