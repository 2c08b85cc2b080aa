//! Somewhere to put compact blocks between downloading and scanning them.
//!
//! The sync loop downloads a batch, scans it and deletes it, so nothing here
//! outlives a batch. Blocks come back in height order, and a block delivered
//! twice replaces itself instead of being scanned twice.

use std::collections::BTreeMap;

use vstd::prelude::*;

verus! {

/// Heights from `start` up to and without `end`.
#[derive(Debug, Clone, Copy)]
pub struct HeightRange {
    pub start: u32,
    pub end: u32,
}

impl HeightRange {
    pub open spec fn has(self, height: u32) -> bool {
        self.start <= height < self.end
    }

    /// Whether a height is in the range.
    pub fn contains(&self, height: u32) -> (is: bool)
        ensures
            is == self.has(height),
    {
        self.start <= height && height < self.end
    }
}

/// Blocks by height. What a block holds beside its height is carried through.
#[verifier::reject_recursive_types(B)]
pub struct MemoryBlockCache<B> {
    blocks: BTreeMap<u32, B>,
}

impl<B> View for MemoryBlockCache<B> {
    type V = Map<u32, B>;

    closed spec fn view(&self) -> Map<u32, B> {
        self.blocks@
    }
}

/// The heights of the blocks that are held, lowest first.
pub open spec fn heights_of<B>(held: Map<u32, B>, heights: Seq<u32>) -> bool {
    &&& forall|i: int, j: int|
        0 <= i < j < heights.len() ==> #[trigger] heights[i] < #[trigger] heights[j]
    &&& forall|h: u32| #[trigger] heights.contains(h) <==> held.contains_key(h)
}

/// The heights of the held blocks that `range` has, lowest first.
pub open spec fn heights_in<B>(held: Map<u32, B>, range: HeightRange, heights: Seq<u32>) -> bool {
    &&& forall|i: int, j: int|
        0 <= i < j < heights.len() ==> #[trigger] heights[i] < #[trigger] heights[j]
    &&& forall|h: u32| #[trigger]
        heights.contains(h) <==> held.contains_key(h) && range.has(h)
}

/// A block held at `height`, which may be past the heights there are.
pub open spec fn holds_at<B>(held: Map<u32, B>, height: int) -> bool {
    0 <= height <= u32::MAX && held.contains_key(height as u32)
}

/// Enough heights were covered, counted from where the scan was to begin.
pub open spec fn limit_reached(from: int, limit: Option<usize>, height: int) -> bool {
    limit is Some && height - from + 1 >= limit->0
}

/// The blocks at heights from `first` up to and without `end` are what is
/// scanned when a scan begins at `from`: the lowest held block that is not
/// below `from`, and those that follow it without a gap, until the limit is
/// reached.
pub open spec fn is_run<B>(
    held: Map<u32, B>,
    from: int,
    limit: Option<usize>,
    first: int,
    end: int,
) -> bool {
    &&& from <= first < end
    &&& forall|h: int| from <= h < first ==> !#[trigger] holds_at(held, h)
    &&& forall|h: int| first <= h < end ==> #[trigger] holds_at(held, h)
    &&& forall|h: int| first <= h < end - 1 ==> !#[trigger] limit_reached(from, limit, h)
    &&& !holds_at(held, end) || limit_reached(from, limit, end - 1)
}

/// `tip` is the highest block held, or the highest in a range.
pub open spec fn is_tip<B>(held: Map<u32, B>, range: Option<HeightRange>, tip: Option<u32>) -> bool {
    match tip {
        Some(h) => {
            &&& held.contains_key(h)
            &&& range is Some ==> range->0.has(h)
            &&& forall|k: u32| #[trigger]
                held.contains_key(k) && (range is Some ==> range->0.has(k)) ==> k <= h
        },
        None => forall|k: u32| #[trigger]
            held.contains_key(k) ==> range is Some && !range->0.has(k),
    }
}

/// The blocks that are held once those of a range are forgotten.
pub open spec fn forgotten<B>(held: Map<u32, B>, range: HeightRange) -> Map<u32, B> {
    held.restrict(Set::new(|h: u32| !range.has(h)))
}

/// No block at or above `from` is held.
pub open spec fn none_from<B>(held: Map<u32, B>, from: int) -> bool {
    forall|h: int| from <= h ==> !#[trigger] holds_at(held, h)
}

/// Where a scan begins.
pub open spec fn scan_start(from_height: Option<u32>) -> int {
    match from_height {
        Some(h) => h as int,
        None => 0,
    }
}

/// The scan does not reach the highest height there is.
pub open spec fn stays_below_top<B>(
    held: Map<u32, B>,
    from_height: Option<u32>,
    limit: Option<usize>,
) -> bool {
    forall|first: int, end: int| #[trigger]
        is_run(held, scan_start(from_height), limit, first, end) ==> end <= u32::MAX
}

/// A scan has one beginning and one end.
pub proof fn run_is_one<B>(
    held: Map<u32, B>,
    from: int,
    limit: Option<usize>,
    first: int,
    end: int,
    first2: int,
    end2: int,
)
    requires
        is_run(held, from, limit, first, end),
        is_run(held, from, limit, first2, end2),
    ensures
        first == first2,
        end == end2,
{
    assert(holds_at(held, first));
    assert(holds_at(held, first2));
    if end < end2 {
        assert(holds_at(held, end));
        assert(!limit_reached(from, limit, end - 1));
    }
    if end2 < end {
        assert(holds_at(held, end2));
        assert(!limit_reached(from, limit, end2 - 1));
    }
}

/// The height a block is kept under: the low half of the height it says.
pub open spec fn kept_under(height: u64) -> u32 {
    (height % 0x1_0000_0000) as u32
}

/// The blocks held after others are delivered, one after the other.
pub open spec fn delivered<B>(held: Map<u32, B>, blocks: Seq<(u64, B)>) -> Map<u32, B>
    decreases blocks.len(),
{
    if blocks.len() == 0 {
        held
    } else {
        delivered(held, blocks.drop_last()).insert(kept_under(blocks.last().0), blocks.last().1)
    }
}

impl<B> MemoryBlockCache<B> {
    /// A cache with nothing in it.
    pub fn new() -> (cache: Self)
        ensures
            cache@ == Map::<u32, B>::empty(),
    {
        MemoryBlockCache { blocks: BTreeMap::new() }
    }

    /// The heights of the blocks that are held, lowest first.
    fn heights(&self) -> (heights: Vec<u32>)
        ensures
            heights_of(self@, heights@),
    {
        broadcast use vstd::laws_cmp::group_laws_cmp;

        let iter = self.blocks.keys();
        let ghost keys = vstd::std_specs::iter::IteratorSpec::remaining(&iter);
        let mut heights: Vec<u32> = Vec::new();
        for key in it: iter
            invariant
                it.seq() == keys,
                heights.len() == it.index(),
                forall|i: int| 0 <= i < heights.len() ==> heights@[i] == *keys[i],
        {
            heights.push(*key);
        }
        proof {
            assert(vstd::std_specs::btree::increasing_seq(keys));
            assert forall|i: int, j: int| 0 <= i < j < heights.len() implies #[trigger] heights@[i]
                < #[trigger] heights@[j] by {
                assert(vstd::std_specs::cmp::OrdSpec::cmp_spec(&keys[i], &keys[j]) is Less);
            }
            assert(keys.unref() =~= heights@);
            assert forall|h: u32| #[trigger] heights@.contains(h) <==> self@.contains_key(h) by {
                assert(keys.unref().to_set().contains(h) <==> self.blocks@.dom().contains(h));
            }
        }
        heights
    }

    /// The block held at a height.
    fn block(&self, height: u32) -> (block: Option<&B>)
        ensures
            match block {
                Some(b) => self@.contains_key(height) && *b == self@[height],
                None => !self@.contains_key(height),
            },
    {
        broadcast use vstd::laws_cmp::group_laws_cmp;

        self.blocks.get(&height)
    }

    /// Where among the heights a scan begins and ends.
    fn run(&self, heights: &Vec<u32>, from: u32, limit: Option<usize>) -> (run: (usize, usize))
        requires
            heights_of(self@, heights@),
        ensures
            run.0 <= run.1 <= heights.len(),
            run.0 == run.1 ==> none_from(self@, from as int),
            run.0 < run.1 ==> is_run(
                self@,
                from as int,
                limit,
                heights[run.0 as int] as int,
                heights[run.1 - 1] + 1,
            ),
            forall|i: int|
                run.0 <= i < run.1 ==> #[trigger] heights[i] == heights[run.0 as int] + (i - run.0),
    {
        let ghost held = self@;
        let ghost start = from as int;
        let mut a: usize = 0;
        while a < heights.len() && heights[a] < from
            invariant
                a <= heights.len(),
                forall|i: int| 0 <= i < a ==> heights[i] < from,
            decreases heights.len() - a,
        {
            a += 1;
        }
        // A height that is held is one of those listed.
        assert forall|h: int| start <= h && #[trigger] holds_at(held, h) implies a < heights.len()
            && heights[a as int] <= h by {
            assert(heights@.contains(h as u32));
            let i = choose|i: int| 0 <= i < heights.len() && heights@[i] == h as u32;
            assert(heights[i] == h);
            if i > a {
                assert(heights[a as int] < heights[i]);
            }
        }
        if a == heights.len() {
            return (a, a);
        }
        let ghost first = heights[a as int] as int;
        assert(heights@.contains(heights@[a as int]));
        assert(holds_at(held, first));
        let mut b: usize = a + 1;
        let mut more = !Self::enough(heights[a], from, limit);
        while more && b < heights.len() && heights[b] as u64 == heights[b - 1] as u64 + 1
            invariant
                heights_of(held, heights@),
                held == self@,
                start == from,
                a < b <= heights.len(),
                first == heights[a as int],
                start <= first,
                forall|i: int| a <= i < b ==> #[trigger] heights[i] == first + (i - a),
                forall|h: int| first <= h < first + (b - a) ==> #[trigger] holds_at(held, h),
                forall|h: int|
                    first <= h < first + (b - a) - 1 ==> !#[trigger] limit_reached(start, limit, h),
                more == !limit_reached(start, limit, first + (b - a) - 1),
            decreases heights.len() - b,
        {
            assert(heights@.contains(heights@[b as int]));
            assert(heights[b - 1] == first + (b - 1 - a));
            assert(holds_at(held, heights[b as int] as int));
            more = !Self::enough(heights[b], from, limit);
            b += 1;
        }
        proof {
            let end = heights[b - 1] + 1;
            assert(end == first + (b - a));
            if more && holds_at(held, end) {
                assert(heights@.contains(end as u32));
                let i = choose|i: int| 0 <= i < heights.len() && heights@[i] == end as u32;
                assert(heights[i] == end);
                assert(i > b - 1) by {
                    if i < b - 1 {
                        assert(heights[i] < heights[b - 1]);
                    }
                }
                if i > b {
                    assert(heights[b as int] < heights[i]);
                    assert(heights[b - 1] < heights[b as int]);
                }
            }
        }
        (a, b)
    }

    /// Whether the limit is reached at a height.
    fn enough(height: u32, from: u32, limit: Option<usize>) -> (is: bool)
        requires
            from <= height,
        ensures
            is == limit_reached(from as int, limit, height as int),
    {
        match limit {
            Some(limit) => (height - from) as u64 + 1 >= limit as u64,
            None => false,
        }
    }

    /// Whether a scan stays below the highest height there is.
    pub fn stays_below_top(&self, from_height: Option<u32>, limit: Option<usize>) -> (is: bool)
        ensures
            is == stays_below_top(self@, from_height, limit),
    {
        let heights = self.heights();
        let from = from_height.unwrap_or(0);
        let (a, b) = self.run(&heights, from, limit);
        if a == b {
            assert forall|first: int, end: int| !#[trigger]
                is_run(self@, scan_start(from_height), limit, first, end) by {
                if is_run(self@, scan_start(from_height), limit, first, end) {
                    assert(holds_at(self@, first));
                }
            }
            return true;
        }
        assert forall|first: int, end: int| #[trigger]
            is_run(self@, scan_start(from_height), limit, first, end) implies end == heights[b - 1]
            + 1 by {
            run_is_one(
                self@,
                scan_start(from_height),
                limit,
                first,
                end,
                heights[a as int] as int,
                heights[b - 1] + 1,
            );
        }
        assert(is_run(
            self@,
            scan_start(from_height),
            limit,
            heights[a as int] as int,
            heights[b - 1] + 1,
        ));
        heights[b - 1] < u32::MAX
    }

    /// The blocks that a scan is given, in the order it is given them.
    ///
    /// Contiguity matters: a gap means a block was missed, and scanning across
    /// it would build a commitment tree that does not match the chain. The
    /// scan stops at the first gap rather than carry on.
    pub fn with_blocks(&self, from_height: Option<u32>, limit: Option<usize>) -> (blocks: Vec<&B>)
        requires
            stays_below_top(self@, from_height, limit),
        ensures
            none_from(self@, scan_start(from_height)) ==> blocks.len() == 0,
            !none_from(self@, scan_start(from_height)) ==> exists|first: int, end: int|
                {
                    &&& #[trigger] is_run(self@, scan_start(from_height), limit, first, end)
                    &&& blocks.len() == end - first
                    &&& forall|i: int|
                        0 <= i < blocks.len() ==> *(#[trigger] blocks[i]) == self@[(first
                            + i) as u32]
                },
    {
        let heights = self.heights();
        let from = from_height.unwrap_or(0);
        let (a, b) = self.run(&heights, from, limit);
        let mut blocks: Vec<&B> = Vec::new();
        let mut i: usize = a;
        while i < b
            invariant
                heights_of(self@, heights@),
                a <= i <= b <= heights.len(),
                blocks.len() == i - a,
                forall|k: int|
                    a <= k < b ==> #[trigger] heights[k] == heights[a as int] + (k - a),
                forall|k: int|
                    0 <= k < blocks.len() ==> *(#[trigger] blocks[k]) == self@[(heights[a as int]
                        + k) as u32],
            decreases b - i,
        {
            assert(heights@.contains(heights@[i as int]));
            match self.block(heights[i]) {
                Some(block) => blocks.push(block),
                None => {
                    assert(false);
                },
            }
            i += 1;
        }
        if a == b {
            assert(none_from(self@, scan_start(from_height)));
        } else {
            assert(holds_at(self@, heights[a as int] as int));
            assert(is_run(
                self@,
                scan_start(from_height),
                limit,
                heights[a as int] as int,
                heights[b - 1] + 1,
            ));
        }
        blocks
    }

    /// The highest block held, or the highest in a range.
    pub fn get_tip_height(&self, range: Option<HeightRange>) -> (tip: Option<u32>)
        ensures
            is_tip(self@, range, tip),
            match tip {
                Some(h) => {
                    &&& self@.contains_key(h)
                    &&& range is Some ==> range->0.has(h)
                    &&& forall|k: u32| #[trigger]
                        self@.contains_key(k) && (range is Some ==> range->0.has(k)) ==> k <= h
                },
                None => forall|k: u32| #[trigger]
                    self@.contains_key(k) ==> range is Some && !range->0.has(k),
            },
    {
        let heights = self.heights();
        let mut i: usize = heights.len();
        while i > 0
            invariant
                heights_of(self@, heights@),
                i <= heights.len(),
                forall|k: int|
                    i <= k < heights.len() ==> range is Some && !range->0.has(#[trigger] heights[k]),
            decreases i,
        {
            let height = heights[i - 1];
            let fits = match &range {
                None => true,
                Some(range) => range.contains(height),
            };
            if fits {
                assert(heights@.contains(height));
                assert forall|k: u32| #[trigger]
                    self@.contains_key(k) && (range is Some ==> range->0.has(k)) implies k
                    <= height by {
                    assert(heights@.contains(k));
                    let j = choose|j: int| 0 <= j < heights.len() && heights@[j] == k;
                    if j >= i {
                        assert(!range->0.has(heights[j]));
                    } else if j < i - 1 {
                        assert(heights[j] < heights[i - 1]);
                    }
                }
                return Some(height);
            }
            i -= 1;
        }
        assert forall|k: u32| #[trigger] self@.contains_key(k) implies range is Some
            && !range->0.has(k) by {
            assert(heights@.contains(k));
            let j = choose|j: int| 0 <= j < heights.len() && heights@[j] == k;
            assert(!range->0.has(heights[j]));
        }
        None
    }

    /// The heights of the held blocks in a range, lowest first.
    fn heights_within(&self, range: &HeightRange) -> (within: Vec<u32>)
        ensures
            heights_in(self@, *range, within@),
    {
        let heights = self.heights();
        let mut within: Vec<u32> = Vec::new();
        let mut i: usize = 0;
        while i < heights.len()
            invariant
                heights_of(self@, heights@),
                i <= heights.len(),
                forall|k: int| 0 <= k < within.len() ==> heights@.take(i as int).contains(
                    #[trigger] within[k],
                ) && range.has(within[k]),
                forall|k: int| 0 <= k < i && range.has(#[trigger] heights[k]) ==> within@.contains(
                    heights[k],
                ),
                forall|j: int, k: int|
                    0 <= j < k < within.len() ==> #[trigger] within[j] < #[trigger] within[k],
            decreases heights.len() - i,
        {
            let height = heights[i];
            let ghost before = within@;
            assert(heights@.take(i + 1) =~= heights@.take(i as int).push(height));
            assert forall|k: int| 0 <= k < before.len() implies #[trigger] before[k] < height by {
                assert(heights@.take(i as int).contains(within[k]));
                let j = choose|j: int|
                    0 <= j < i && heights@.take(i as int)[j] == within[k];
                assert(heights[j] < heights[i as int]);
            }
            assert forall|h: u32| heights@.take(i as int).contains(h) implies #[trigger] heights@.take(
                i + 1,
            ).contains(h) by {
                let j = choose|j: int| 0 <= j < i && heights@.take(i as int)[j] == h;
                assert(heights@.take(i + 1)[j] == h);
            }
            if range.contains(height) {
                within.push(height);
                assert(heights@.take(i + 1)[i as int] == height);
                assert(within@[before.len() as int] == height);
                assert forall|h: u32| before.contains(h) implies #[trigger] within@.contains(h) by {
                    let j = choose|j: int| 0 <= j < before.len() && before[j] == h;
                    assert(within@[j] == h);
                }
            }
            i += 1;
        }
        proof {
            assert(heights@.take(i as int) =~= heights@);
            assert forall|h: u32| #[trigger]
                within@.contains(h) <==> self@.contains_key(h) && range.has(h) by {
                if within@.contains(h) {
                    let k = choose|k: int| 0 <= k < within.len() && within@[k] == h;
                    assert(heights@.contains(within[k]));
                }
                if self@.contains_key(h) && range.has(h) {
                    assert(heights@.contains(h));
                    let k = choose|k: int| 0 <= k < heights.len() && heights@[k] == h;
                    assert(range.has(heights[k]));
                }
            }
        }
        within
    }

    /// The blocks in a range, lowest first.
    pub fn read(&self, range: &HeightRange) -> (blocks: Vec<&B>)
        ensures
            exists|heights: Seq<u32>|
                {
                    &&& #[trigger] heights_in(self@, *range, heights)
                    &&& blocks.len() == heights.len()
                    &&& forall|i: int|
                        0 <= i < blocks.len() ==> *(#[trigger] blocks[i]) == self@[heights[i]]
                },
    {
        let heights = self.heights_within(range);
        let mut blocks: Vec<&B> = Vec::new();
        let mut i: usize = 0;
        while i < heights.len()
            invariant
                heights_in(self@, *range, heights@),
                i <= heights.len(),
                blocks.len() == i,
                forall|k: int|
                    0 <= k < blocks.len() ==> *(#[trigger] blocks[k]) == self@[heights@[k]],
            decreases heights.len() - i,
        {
            assert(heights@.contains(heights@[i as int]));
            match self.block(heights[i]) {
                Some(block) => blocks.push(block),
                None => {
                    assert(false);
                },
            }
            i += 1;
        }
        blocks
    }

    /// Keeps blocks, each under the height it says. One that is delivered
    /// again replaces the one held.
    pub fn insert(&mut self, compact_blocks: Vec<(u64, B)>)
        ensures
            final(self)@ == delivered(old(self)@, compact_blocks@),
    {
        let ghost all = compact_blocks@;
        for pair in it: compact_blocks
            invariant
                it.seq() == all,
                self@ == delivered(old(self)@, all.take(it.index() as int)),
        {
            let ghost i = it.index() as int;
            let (height, block) = pair;
            self.keep(height, block);
            assert(all.take(i + 1).drop_last() =~= all.take(i));
            assert(all.take(i + 1).last() == all[i]);
        }
        assert(all.take(all.len() as int) =~= all);
    }

    fn keep(&mut self, height: u64, block: B)
        ensures
            final(self)@ == old(self)@.insert(kept_under(height), block),
    {
        broadcast use vstd::laws_cmp::group_laws_cmp;

        self.blocks.insert(low_half(height), block);
    }

    /// Forgets the blocks in a range.
    pub fn delete(&mut self, range: HeightRange)
        ensures
            final(self)@ == forgotten(old(self)@, range),
            forall|h: u32| #[trigger]
                final(self)@.contains_key(h) <==> old(self)@.contains_key(h) && !range.has(h),
            forall|h: u32| #[trigger]
                final(self)@.contains_key(h) ==> final(self)@[h] == old(self)@[h],
    {
        let heights = self.heights_within(&range);
        let ghost held = self@;
        let mut i: usize = 0;
        while i < heights.len()
            invariant
                heights_in(held, range, heights@),
                i <= heights.len(),
                forall|h: u32| #[trigger]
                    self@.contains_key(h) <==> held.contains_key(h) && !heights@.take(
                        i as int,
                    ).contains(h),
                forall|h: u32| #[trigger] self@.contains_key(h) ==> self@[h] == held[h],
            decreases heights.len() - i,
        {
            let ghost before = self@;
            let ghost gone = heights@.take(i as int);
            self.forget(heights[i]);
            proof {
                let now = heights@.take(i + 1);
                assert(now =~= gone.push(heights@[i as int]));
                assert forall|h: u32| #[trigger]
                    self@.contains_key(h) <==> held.contains_key(h) && !now.contains(h) by {
                    if gone.contains(h) {
                        let j = choose|j: int| 0 <= j < gone.len() && gone[j] == h;
                        assert(now[j] == h);
                    }
                    assert(now[i as int] == heights@[i as int]);
                }
            }
            i += 1;
        }
        assert(heights@.take(i as int) =~= heights@);
        assert(self@ =~= forgotten(held, range));
    }

    fn forget(&mut self, height: u32)
        ensures
            final(self)@ == old(self)@.remove(height),
    {
        broadcast use vstd::laws_cmp::group_laws_cmp;

        self.blocks.remove(&height);
    }
}

/// The low half of a height.
fn low_half(height: u64) -> (low: u32)
    ensures
        low == kept_under(height),
{
    (height % 0x1_0000_0000) as u32
}

/// A block delivered twice replaces itself: of the blocks delivered under a
/// height the last is held, and where none was, what was held before.
pub proof fn the_last_delivered_is_held<B>(held: Map<u32, B>, blocks: Seq<(u64, B)>, height: u32)
    ensures
        (forall|i: int| 0 <= i < blocks.len() ==> kept_under((#[trigger] blocks[i]).0) != height)
            ==> {
            &&& delivered(held, blocks).contains_key(height) == held.contains_key(height)
            &&& held.contains_key(height) ==> delivered(held, blocks)[height] == held[height]
        },
        forall|i: int|
            0 <= i < blocks.len() && kept_under((#[trigger] blocks[i]).0) == height && (forall|
                j: int,
            |
                i < j < blocks.len() ==> kept_under((#[trigger] blocks[j]).0) != height)
                ==> delivered(held, blocks).contains_key(height) && delivered(held, blocks)[height]
                == blocks[i].1,
    decreases blocks.len(),
{
    if blocks.len() > 0 {
        let front = blocks.drop_last();
        let last = blocks.len() - 1;
        the_last_delivered_is_held(held, front, height);
        if forall|i: int| 0 <= i < blocks.len() ==> kept_under((#[trigger] blocks[i]).0) != height {
            assert forall|i: int| 0 <= i < front.len() implies kept_under((#[trigger] front[i]).0)
                != height by {
                assert(kept_under(blocks[i].0) != height);
            }
            assert(kept_under(blocks[last].0) != height);
        }
        assert forall|i: int|
            0 <= i < blocks.len() && kept_under((#[trigger] blocks[i]).0) == height && (forall|
                j: int,
            |
                i < j < blocks.len() ==> kept_under((#[trigger] blocks[j]).0)
                    != height) implies delivered(held, blocks).contains_key(height) && delivered(
            held,
            blocks,
        )[height] == blocks[i].1 by {
            if i < last {
                assert(kept_under(blocks[last].0) != height);
                assert(front[i] == blocks[i]);
                assert forall|j: int| i < j < front.len() implies kept_under((#[trigger] front[j]).0)
                    != height by {
                    assert(kept_under(blocks[j].0) != height);
                }
            }
        }
    }
}

/// A range has the heights from its start on, and its end is not one of them.
pub proof fn a_range_ends_before_its_end(range: HeightRange, height: u32)
    ensures
        range.has(height) <==> range.start <= height && height < range.end,
{
}

/// A block is kept under the low half of the height it says, which is the height
/// itself where that is one.
pub proof fn a_block_is_kept_under_its_height(low: u32, high: u32)
    ensures
        kept_under(low as u64) == low,
        kept_under((low + high * 0x1_0000_0000) as u64) == low,
{
    assert((low + high * 0x1_0000_0000) % 0x1_0000_0000 == low);
}

/// What a scan is given: it begins at the lowest held block at or above where it
/// was asked to, takes every block that follows without a gap, and ends at the
/// first gap, or as soon as its end lies as far from where it was asked to begin
/// as the limit says, but with no less than one block.
pub proof fn a_scan_ends_at_a_gap_or_at_its_limit<B>(
    held: Map<u32, B>,
    from_height: Option<u32>,
    limit: Option<usize>,
    first: int,
    end: int,
)
    ensures
        from_height matches Some(height) ==> scan_start(from_height) == height,
        from_height is None ==> scan_start(from_height) == 0,
        ({
            let from = scan_start(from_height);
            &&& is_run(held, from, limit, first, end) <==> {
                &&& from <= first < end <= 0x1_0000_0000
                &&& forall|h: u32| from <= h < first ==> !#[trigger] held.contains_key(h)
                &&& forall|h: u32| first <= h < end ==> #[trigger] held.contains_key(h)
                &&& limit is Some && first + 1 < end ==> end - 1 - from < limit->0
                &&& end < 0x1_0000_0000 && held.contains_key(end as u32) ==> limit is Some && end
                    - from >= limit->0
                &&& end == 0x1_0000_0000 ==> held.contains_key(u32::MAX)
            }
            &&& none_from(held, from) <==> forall|h: u32|
                from <= h ==> !#[trigger] held.contains_key(h)
            &&& stays_below_top(held, from_height, limit) <==> !exists|start: int| #[trigger]
                is_run(held, from, limit, start, 0x1_0000_0000)
        }),
{
    let from = scan_start(from_height);
    assert forall|h: u32| #[trigger] held.contains_key(h) == holds_at(held, h as int) by {}
    if is_run(held, from, limit, first, end) {
        assert(holds_at(held, end - 1));
        assert forall|h: u32| from <= h < first implies !#[trigger] held.contains_key(h) by {
            assert(!holds_at(held, h as int));
        }
        assert forall|h: u32| first <= h < end implies #[trigger] held.contains_key(h) by {
            assert(holds_at(held, h as int));
        }
        if limit is Some && first + 1 < end {
            assert(!limit_reached(from, limit, end - 2));
        }
    }
    if {
        &&& from <= first < end <= 0x1_0000_0000
        &&& forall|h: u32| from <= h < first ==> !#[trigger] held.contains_key(h)
        &&& forall|h: u32| first <= h < end ==> #[trigger] held.contains_key(h)
        &&& limit is Some && first + 1 < end ==> end - 1 - from < limit->0
        &&& end < 0x1_0000_0000 && held.contains_key(end as u32) ==> limit is Some && end - from
            >= limit->0
    } {
        assert forall|h: int| from <= h < first implies !#[trigger] holds_at(held, h) by {
            assert(!held.contains_key(h as u32));
        }
        assert forall|h: int| first <= h < end implies #[trigger] holds_at(held, h) by {
            assert(held.contains_key(h as u32));
        }
    }
    if none_from(held, from) {
        assert forall|h: u32| from <= h implies !#[trigger] held.contains_key(h) by {
            assert(!holds_at(held, h as int));
        }
    }
    if forall|h: u32| from <= h ==> !#[trigger] held.contains_key(h) {
        assert forall|h: int| from <= h implies !#[trigger] holds_at(held, h) by {
            if 0 <= h <= u32::MAX {
                assert(!held.contains_key(h as u32));
            }
        }
    }
    assert forall|start: int, stop: int| #[trigger]
        is_run(held, from, limit, start, stop) implies stop <= 0x1_0000_0000 by {
        assert(holds_at(held, stop - 1));
    }
}

/// What is read of a range is what is held at its heights, each once, the lower
/// first.
pub proof fn a_range_is_read_upwards<B>(held: Map<u32, B>, range: HeightRange, heights: Seq<u32>)
    ensures
        heights_in(held, range, heights) <==> {
            &&& forall|i: int, j: int|
                0 <= i < j < heights.len() ==> #[trigger] heights[i] < #[trigger] heights[j]
            &&& forall|i: int|
                0 <= i < heights.len() ==> held.contains_key(#[trigger] heights[i]) && range.start
                    <= heights[i] < range.end
            &&& forall|h: u32| #[trigger]
                held.contains_key(h) && range.start <= h < range.end ==> heights.contains(h)
        },
{
    if heights_in(held, range, heights) {
        assert forall|i: int| 0 <= i < heights.len() implies held.contains_key(
            #[trigger] heights[i],
        ) && range.start <= heights[i] < range.end by {
            assert(heights.contains(heights[i]));
        }
    }
}

/// Delivering nothing changes nothing, and of what is delivered after that the
/// last is held under its height and everything else stays.
pub proof fn a_delivery_is_held_block_by_block<B>(
    held: Map<u32, B>,
    blocks: Seq<(u64, B)>,
    height: u32,
    block: B,
)
    ensures
        delivered(held, Seq::empty()) == held,
        delivered(held, blocks.push((height as u64, block))) == delivered(held, blocks).insert(
            height,
            block,
        ),
{
    assert(blocks.push((height as u64, block)).drop_last() =~= blocks);
}

/// The tip is the highest block that is held, or that is held in the range, and
/// there is one wherever one is held.
pub proof fn a_tip_is_the_highest_held<B>(
    held: Map<u32, B>,
    range: Option<HeightRange>,
    tip: Option<u32>,
    h: u32,
)
    requires
        is_tip(held, range, tip),
        held.contains_key(h),
        range is Some ==> range->0.start <= h < range->0.end,
    ensures
        tip is Some,
        held.contains_key(tip->0),
        range is Some ==> range->0.start <= tip->0 < range->0.end,
        h <= tip->0,
{
}

/// A range is forgotten whole, and nothing else is.
pub proof fn what_is_forgotten_is_the_range<B>(held: Map<u32, B>, range: HeightRange, h: u32)
    ensures
        forgotten(held, range).contains_key(h) <==> held.contains_key(h) && !(range.start <= h
            < range.end),
        forgotten(held, range).contains_key(h) ==> forgotten(held, range)[h] == held[h],
{
}

}
