//! Physical frame allocator: one bit per 4 KiB frame, set while the frame is
//! in use.

use vstd::prelude::*;

verus! {

/// Bytes in one physical frame.
pub const FRAME_SIZE: usize = 4096;

/// Whether bit `bit` of `word` is set.
pub open spec fn bit_set(word: u64, bit: u64) -> bool {
    word & (1u64 << bit) != 0
}

/// Number of `true` entries of `s`.
pub open spec fn count_used(s: Seq<bool>) -> nat
    decreases s.len(),
{
    if s.len() == 0 {
        0
    } else {
        count_used(s.drop_last()) + if s.last() {
            1nat
        } else {
            0nat
        }
    }
}

/// `s` with every frame of `[start, start + count)` that it holds set to `used`.
pub open spec fn mark_range(s: Seq<bool>, start: int, count: int, used: bool) -> Seq<bool> {
    Seq::new(
        s.len(),
        |i: int|
            if start <= i < start + count {
                used
            } else {
                s[i]
            },
    )
}

/// The lowest free frame of `s` at or after `from`, if there is one.
pub open spec fn first_free_from(s: Seq<bool>, from: int) -> Option<int>
    decreases s.len() - from,
{
    if from < 0 || from >= s.len() {
        None
    } else if !s[from] {
        Some(from)
    } else {
        first_free_from(s, from + 1)
    }
}

/// The frame that a scan starting at word `cursor` hands out: the lowest free
/// frame in the words from `cursor` on, else the lowest free frame of all.
pub open spec fn scan_choice(s: Seq<bool>, cursor: int) -> Option<int> {
    match first_free_from(s, cursor * 64) {
        Some(f) => Some(f),
        None => first_free_from(s, 0),
    }
}

proof fn lemma_bit_set_after_or(w: u64, b: u64)
    by (bit_vector)
    requires
        b < 64,
    ensures
        (w | (1u64 << b)) & (1u64 << b) != 0,
        forall|c: u64| c < 64 && c != b ==> (((w | (1u64 << b)) & (1u64 << c)) != 0) == ((w & (1u64 << c)) != 0),
{
}

proof fn lemma_bit_clear_after_and(w: u64, b: u64)
    by (bit_vector)
    requires
        b < 64,
    ensures
        (w & !(1u64 << b)) & (1u64 << b) == 0,
        forall|c: u64| c < 64 && c != b ==> (((w & !(1u64 << b)) & (1u64 << c)) != 0) == ((w & (1u64 << c)) != 0),
{
}

proof fn lemma_full_word(b: u64)
    by (bit_vector)
    requires
        b < 64,
    ensures
        0xffff_ffff_ffff_ffffu64 & (1u64 << b) != 0,
{
}

/// Changing one entry changes the count by that entry alone.
pub proof fn lemma_count_update(s: Seq<bool>, i: int, v: bool)
    requires
        0 <= i < s.len(),
    ensures
        count_used(s.update(i, v)) + (if s[i] { 1int } else { 0int })
            == count_used(s) + (if v { 1int } else { 0int }),
    decreases s.len(),
{
    let t = s.update(i, v);
    if i == s.len() - 1 {
        assert(t.drop_last() =~= s.drop_last());
    } else {
        assert(t.drop_last() =~= s.drop_last().update(i, v));
        lemma_count_update(s.drop_last(), i, v);
    }
}

/// The count never exceeds the length, and reaches it only when every entry
/// is `true`.
pub proof fn lemma_count_bound(s: Seq<bool>)
    ensures
        count_used(s) <= s.len(),
        count_used(s) == s.len() <==> (forall|i: int| 0 <= i < s.len() ==> s[i]),
    decreases s.len(),
{
    if s.len() > 0 {
        lemma_count_bound(s.drop_last());
        let d = s.drop_last();
        assert(forall|i: int| 0 <= i < d.len() ==> d[i] == s[i]);
        if count_used(s) == s.len() {
            assert forall|i: int| 0 <= i < s.len() implies s[i] by {
                if i < d.len() {
                    assert(d[i]);
                }
            }
        }
    }
}

/// If `f` is free and nothing in `[from, f)` is, the scan from `from` stops at `f`.
pub proof fn lemma_first_free_found(s: Seq<bool>, from: int, f: int)
    requires
        0 <= from <= f < s.len(),
        !s[f],
        forall|g: int| from <= g < f ==> s[g],
    ensures
        first_free_from(s, from) == Some(f),
    decreases f - from,
{
    if from < f {
        lemma_first_free_found(s, from + 1, f);
    }
}

/// If nothing from `from` on is free, the scan from `from` finds nothing.
pub proof fn lemma_first_free_absent(s: Seq<bool>, from: int)
    requires
        0 <= from,
        forall|g: int| from <= g < s.len() ==> s[g],
    ensures
        first_free_from(s, from) is None,
    decreases s.len() - from,
{
    if from < s.len() {
        lemma_first_free_absent(s, from + 1);
    }
}

/// What the allocator stands for: which frames are in use, how many it
/// counts as used, and the word at which the next scan starts.
pub struct FrameMap {
    pub used: Seq<bool>,
    pub used_frames: nat,
    pub cursor: nat,
}

/// How one allocation relates the state before, the state after and the
/// result. A frame is handed out exactly when some tracked frame is free; it
/// is the one `scan_choice` names, it was free before and is used after, and
/// nothing else changes but the count and the cursor. With no free frame the
/// state stays as it was.
pub open spec fn frame_taken(before: FrameMap, after: FrameMap, r: Option<usize>) -> bool {
    &&& r is None <==> (forall|f: int| 0 <= f < before.used.len() ==> before.used[f])
    &&& match r {
        Some(f) => {
            &&& scan_choice(before.used, before.cursor as int) == Some(f as int)
            &&& f < before.used.len()
            &&& !before.used[f as int]
            &&& after.used == before.used.update(f as int, true)
            &&& after.used_frames == before.used_frames + 1
            &&& after.cursor == f / 64
        },
        None => {
            &&& scan_choice(before.used, before.cursor as int) is None
            &&& after == before
        },
    }
}

/// Bitmap allocator for physical frames. Frame `i` is bit `i % 64` of word
/// `i / 64`; a set bit means the frame is in use.
pub struct BitmapFrameAllocator {
    bitmap: Vec<u64>,
    bitmap_len: usize,
    total_frames: usize,
    used_frames: usize,
    next_free: usize,
}

impl View for BitmapFrameAllocator {
    type V = FrameMap;

    closed spec fn view(&self) -> FrameMap {
        FrameMap {
            used: Seq::new(
                self.total_frames as nat,
                |f: int| bit_set(self.bitmap@[f / 64], (f % 64) as u64),
            ),
            used_frames: self.used_frames as nat,
            cursor: self.next_free as nat,
        }
    }
}

impl BitmapFrameAllocator {
    /// The storage holds a bit for every frame, and the cursor names a word
    /// of it (or the end).
    pub closed spec fn storage_fits(&self) -> bool {
        &&& self.bitmap@.len() == self.bitmap_len
        &&& self.total_frames <= self.bitmap_len * 64
        &&& self.bitmap_len * 64 <= usize::MAX
        &&& self.next_free <= self.bitmap_len
    }

    /// Number of words of bitmap storage.
    pub closed spec fn word_count(&self) -> nat {
        self.bitmap_len as nat
    }

    /// The allocator's invariant: the used count is exactly the number of
    /// set bits among the frames it tracks.
    pub open spec fn wf(&self) -> bool {
        &&& self.storage_fits()
        &&& self@.cursor <= self.word_count()
        &&& self@.used.len() <= self.word_count() * 64
        &&& self@.used_frames == count_used(self@.used)
    }

    /// Takes over `bitmap` as storage for `total_frame` frames, all of them
    /// in use. The caller hands the words in with every bit set.
    pub fn new(bitmap: Vec<u64>, size_of_mem: usize, total_frame: usize) -> (r: Self)
        requires
            bitmap@.len() == size_of_mem,
            total_frame <= size_of_mem * 64,
            size_of_mem * 64 <= usize::MAX,
            forall|i: int| 0 <= i < bitmap@.len() ==> bitmap@[i] == u64::MAX,
        ensures
            r.wf(),
            r.word_count() == size_of_mem,
            r@.used == Seq::new(total_frame as nat, |f: int| true),
            r@.used_frames == total_frame,
            r@.cursor == 0,
    {
        let r = BitmapFrameAllocator {
            bitmap,
            bitmap_len: size_of_mem,
            total_frames: total_frame,
            used_frames: total_frame,
            next_free: 0,
        };
        proof {
            assert forall|f: int| 0 <= f < total_frame implies #[trigger] r@.used[f] by {
                lemma_full_word((f % 64) as u64);
            }
            assert(r@.used =~= Seq::new(total_frame as nat, |f: int| true));
            lemma_count_bound(r@.used);
        }
        r
    }

    /// Frames tracked.
    pub fn total_frames(&self) -> (r: usize)
        ensures
            r == self@.used.len(),
    {
        self.total_frames
    }

    /// Frames counted as in use.
    pub fn used_frames(&self) -> (r: usize)
        ensures
            r == self@.used_frames,
    {
        self.used_frames
    }

    /// Word at which the next scan starts.
    pub fn next_free(&self) -> (r: usize)
        ensures
            r == self@.cursor,
    {
        self.next_free
    }

    /// Whether `frame` is marked in use. Frames that are not tracked read as
    /// in use: they can never be handed out.
    pub fn is_used(&self, frame: usize) -> (r: bool)
        requires
            self.wf(),
        ensures
            r == (frame >= self@.used.len() || self@.used[frame as int]),
    {
        if frame >= self.total_frames {
            return true;
        }
        let index = frame / 64;
        let bit: u64 = (frame % 64) as u64;
        let current = self.bitmap[index];
        (current & (1u64 << bit)) != 0
    }

    fn mark_freed(&mut self, frame: usize)
        requires
            old(self).wf(),
        ensures
            final(self).wf(),
            final(self).word_count() == old(self).word_count(),
            final(self)@.cursor == old(self)@.cursor,
            final(self)@.used == if frame < old(self)@.used.len() {
                old(self)@.used.update(frame as int, false)
            } else {
                old(self)@.used
            },
    {
        if frame >= self.total_frames {
            return ;
        }
        let index = frame / 64;
        let bit: u64 = (frame % 64) as u64;
        let current = self.bitmap[index];
        if (current & (1u64 << bit)) != 0 {
            let ghost before = self@.used;
            self.bitmap[index] = current & !(1u64 << bit);
            proof {
                lemma_bit_clear_after_and(current, bit);
                assert(self@.used =~= before.update(frame as int, false)) by {
                    assert forall|f: int| 0 <= f < before.len() implies #[trigger] self@.used[f]
                        == before.update(frame as int, false)[f] by {
                        if f / 64 == index as int && f != frame {
                            assert((f % 64) as u64 != bit);
                        }
                    }
                }
                lemma_count_update(before, frame as int, false);
            }
            self.used_frames -= 1;
        } else {
            assert(self@.used =~= old(self)@.used.update(frame as int, false));
        }
    }

    fn mark_used(&mut self, frame: usize)
        requires
            old(self).wf(),
        ensures
            final(self).wf(),
            final(self).word_count() == old(self).word_count(),
            final(self)@.cursor == old(self)@.cursor,
            final(self)@.used == if frame < old(self)@.used.len() {
                old(self)@.used.update(frame as int, true)
            } else {
                old(self)@.used
            },
    {
        if frame >= self.total_frames {
            return ;
        }
        let index = frame / 64;
        let bit: u64 = (frame % 64) as u64;
        let current = self.bitmap[index];
        if (current & (1u64 << bit)) == 0 {
            let ghost before = self@.used;
            self.bitmap[index] = current | (1u64 << bit);
            proof {
                lemma_bit_set_after_or(current, bit);
                assert(self@.used =~= before.update(frame as int, true)) by {
                    assert forall|f: int| 0 <= f < before.len() implies #[trigger] self@.used[f]
                        == before.update(frame as int, true)[f] by {
                        if f / 64 == index as int && f != frame {
                            assert((f % 64) as u64 != bit);
                        }
                    }
                }
                lemma_count_update(before, frame as int, true);
                lemma_count_bound(self@.used);
            }
            self.used_frames += 1;
        } else {
            assert(self@.used =~= old(self)@.used.update(frame as int, true));
        }
    }

    /// Marks every tracked frame of `[start_frame, start_frame + count)` free.
    /// Frames past the end of the bitmap are passed over.
    pub fn mark_range_free(&mut self, start_frame: usize, count: usize)
        requires
            old(self).wf(),
        ensures
            final(self).wf(),
            final(self).word_count() == old(self).word_count(),
            final(self)@.cursor == old(self)@.cursor,
            final(self)@.used == mark_range(old(self)@.used, start_frame as int, count as int, false),
    {
        let total = self.total_frames;
        if start_frame >= total {
            assert(self@.used =~= mark_range(self@.used, start_frame as int, count as int, false));
            return ;
        }
        let end = if count > total - start_frame {
            total
        } else {
            start_frame + count
        };
        let mut frame = start_frame;
        while frame < end
            invariant
                start_frame <= frame <= end <= total,
                total == old(self)@.used.len(),
                self.wf(),
                self.word_count() == old(self).word_count(),
                self@.cursor == old(self)@.cursor,
                self@.used =~= mark_range(
                    old(self)@.used,
                    start_frame as int,
                    frame - start_frame,
                    false,
                ),
            decreases end - frame,
        {
            self.mark_freed(frame);
            frame += 1;
        }
        assert(self@.used =~= mark_range(old(self)@.used, start_frame as int, count as int, false));
    }

    /// Marks every tracked frame of `[start_frame, start_frame + count)` used.
    /// Frames past the end of the bitmap are passed over.
    pub fn mark_range_used(&mut self, start_frame: usize, count: usize)
        requires
            old(self).wf(),
        ensures
            final(self).wf(),
            final(self).word_count() == old(self).word_count(),
            final(self)@.cursor == old(self)@.cursor,
            final(self)@.used == mark_range(old(self)@.used, start_frame as int, count as int, true),
    {
        let total = self.total_frames;
        if start_frame >= total {
            assert(self@.used =~= mark_range(self@.used, start_frame as int, count as int, true));
            return ;
        }
        let end = if count > total - start_frame {
            total
        } else {
            start_frame + count
        };
        let mut frame = start_frame;
        while frame < end
            invariant
                start_frame <= frame <= end <= total,
                total == old(self)@.used.len(),
                self.wf(),
                self.word_count() == old(self).word_count(),
                self@.cursor == old(self)@.cursor,
                self@.used =~= mark_range(
                    old(self)@.used,
                    start_frame as int,
                    frame - start_frame,
                    true,
                ),
            decreases end - frame,
        {
            self.mark_used(frame);
            frame += 1;
        }
        assert(self@.used =~= mark_range(old(self)@.used, start_frame as int, count as int, true));
    }

    /// Gives `frame` back. Freeing a frame that is already free, or one that
    /// is not tracked, changes nothing.
    pub fn free_frame(&mut self, frame: usize)
        requires
            old(self).wf(),
        ensures
            final(self).wf(),
            final(self).word_count() == old(self).word_count(),
            final(self)@.cursor == old(self)@.cursor,
            final(self)@.used == if frame < old(self)@.used.len() {
                old(self)@.used.update(frame as int, false)
            } else {
                old(self)@.used
            },
    {
        self.mark_range_free(frame, 1);
        assert(self@.used =~= if frame < old(self)@.used.len() {
            old(self)@.used.update(frame as int, false)
        } else {
            old(self)@.used
        });
    }

    /// Lowest free tracked frame in the words `[from, to)`.
    fn scan(&self, from: usize, to: usize) -> (r: Option<usize>)
        requires
            self.wf(),
            from <= to <= self.word_count(),
        ensures
            match r {
                Some(f) => {
                    &&& from * 64 <= f < to * 64
                    &&& f < self@.used.len()
                    &&& !self@.used[f as int]
                    &&& forall|g: int| from * 64 <= g < f ==> self@.used[g]
                },
                None => forall|g: int|
                    from * 64 <= g < to * 64 && g < self@.used.len() ==> self@.used[g],
            },
    {
        let mut i = from;
        while i < to
            invariant
                self.wf(),
                from <= i <= to <= self.word_count(),
                forall|g: int| from * 64 <= g < i * 64 && g < self@.used.len() ==> self@.used[g],
            decreases to - i,
        {
            let entry = self.bitmap[i];
            if entry != u64::MAX {
                let mut bit: usize = 0;
                while bit < 64
                    invariant
                        self.wf(),
                        from <= i < to <= self.word_count(),
                        bit <= 64,
                        entry == self.bitmap@[i as int],
                        forall|g: int|
                            from * 64 <= g < i * 64 + bit && g < self@.used.len()
                                ==> self@.used[g],
                    decreases 64 - bit,
                {
                    if (entry & (1u64 << (bit as u64))) == 0 {
                        let frame_no = i * 64 + bit;
                        if frame_no < self.total_frames {
                            assert(frame_no as int / 64 == i && frame_no as int % 64 == bit);
                            return Some(frame_no);
                        }
                    } else {
                        assert((i * 64 + bit) / 64 == i as int && (i * 64 + bit) % 64 == bit as int);
                    }
                    bit += 1;
                }
            } else {
                assert forall|g: int| i * 64 <= g < i * 64 + 64 && g < self@.used.len() implies self@.used[g] by {
                    assert(g / 64 == i as int);
                    lemma_full_word((g % 64) as u64);
                }
            }
            i += 1;
        }
        None
    }

    /// Hands out a free frame and marks it used. The scan runs over the words
    /// from the cursor to the end, then over those before the cursor, and
    /// takes the lowest free frame of the first word that has one; the cursor
    /// moves to that word. `None` means that every tracked frame is in use.
    pub fn allocate_frame(&mut self) -> (r: Option<usize>)
        requires
            old(self).wf(),
        ensures
            final(self).wf(),
            final(self).word_count() == old(self).word_count(),
            frame_taken(old(self)@, final(self)@, r),
    {
        let ghost before = self@.used;
        let ghost start = self.next_free as int * 64;
        match self.scan(self.next_free, self.bitmap_len) {
            Some(frame_no) => {
                proof {
                    lemma_first_free_found(before, start, frame_no as int);
                    lemma_count_update(before, frame_no as int, true);
                }
                self.mark_used(frame_no);
                self.next_free = frame_no / 64;
                return Some(frame_no);
            },
            None => {},
        }
        proof {
            if start < before.len() {
                lemma_first_free_absent(before, start);
            }
        }
        match self.scan(0, self.next_free) {
            Some(frame_no) => {
                proof {
                    lemma_first_free_found(before, 0, frame_no as int);
                    lemma_count_update(before, frame_no as int, true);
                }
                self.mark_used(frame_no);
                self.next_free = frame_no / 64;
                return Some(frame_no);
            },
            None => {},
        }
        proof {
            lemma_first_free_absent(before, 0);
        }
        None
    }
}

/// The kernel's one frame allocator: empty until `init_frame_allocator`
/// installs a bitmap allocator in it.
pub struct FrameAllocatorWrapper {
    slot: Option<BitmapFrameAllocator>,
}

impl FrameAllocatorWrapper {
    /// The allocator installed, if any.
    pub closed spec fn allocator(&self) -> Option<BitmapFrameAllocator> {
        self.slot
    }

    /// Whatever is installed is well formed.
    pub open spec fn wf(&self) -> bool {
        self.allocator() matches Some(a) ==> a.wf()
    }

    /// A wrapper with nothing installed.
    pub fn new() -> (r: Self)
        ensures
            r.allocator() is None,
            r.wf(),
    {
        FrameAllocatorWrapper { slot: None }
    }

    /// Whether an allocator has been installed.
    pub fn is_initialized(&self) -> (r: bool)
        ensures
            r == self.allocator() is Some,
    {
        self.slot.is_some()
    }

    /// Frames that the installed allocator tracks.
    pub fn total_frames(&self) -> (r: Option<usize>)
        ensures
            r == match self.allocator() {
                Some(a) => Some(a@.used.len() as usize),
                None => None,
            },
            self.allocator() matches Some(a) ==> a@.used.len() <= usize::MAX,
    {
        match &self.slot {
            Some(a) => Some(a.total_frames()),
            None => None,
        }
    }

    /// Hands out a frame of the installed allocator. `None` when nothing is
    /// installed, or when every frame is in use.
    pub fn allocate_frame(&mut self) -> (r: Option<usize>)
        requires
            old(self).wf(),
        ensures
            final(self).wf(),
            match old(self).allocator() {
                Some(a) => final(self).allocator() matches Some(b) && b.word_count()
                    == a.word_count() && frame_taken(a@, b@, r),
                None => r is None && final(self).allocator() is None,
            },
    {
        let take = |alloc: &mut BitmapFrameAllocator| -> (r: Option<usize>)
            requires
                alloc.wf(),
            ensures
                final(alloc).wf(),
                final(alloc).word_count() == old(alloc).word_count(),
                frame_taken(old(alloc)@, final(alloc)@, r),
            { alloc.allocate_frame() };
        match with_frame_allocator(self, take) {
            Some(r) => r,
            None => None,
        }
    }
}

/// Installs `allocator`, replacing what was installed before.
pub fn init_frame_allocator(wrapper: &mut FrameAllocatorWrapper, allocator: BitmapFrameAllocator)
    ensures
        final(wrapper).allocator() == Some(allocator),
{
    wrapper.slot = Some(allocator);
}

/// Runs `f` on the installed allocator and returns what it gave. With nothing
/// installed `f` is not run and the result is `None`.
pub fn with_frame_allocator<F, R>(wrapper: &mut FrameAllocatorWrapper, f: F) -> (r: Option<R>) where
    F: FnOnce(&mut BitmapFrameAllocator) -> R,

    requires
        old(wrapper).allocator() matches Some(a) ==> forall|m: &mut BitmapFrameAllocator|
            *m == a ==> call_requires(f, (m,)),
    ensures
        match old(wrapper).allocator() {
            Some(a) => r matches Some(out) && exists|m: &mut BitmapFrameAllocator|
                *m == a && call_ensures(f, (m,), out) && final(wrapper).allocator() == Some(
                    *final(m),
                ),
            None => r is None && final(wrapper).allocator() is None,
        },
{
    match wrapper.slot.as_mut() {
        Some(allocator) => {
            let out = f(allocator);
            Some(out)
        },
        None => None,
    }
}

} // verus!
