//! The bookkeeping of a test allocator that reports secrets left in freed
//! heap memory.
//!
//! Every secret buffer must be all zero once dropped. A test starts a
//! [`Watch`] for a secret (or for blocks of one size), the allocator shows
//! every block it frees to [`ScanningAllocator::inspect`], and
//! [`Watch::unwiped_frees`] tells how many freed blocks still held the secret.
//!
//! The table is fixed-size, so inspecting a block never allocates. A block is
//! read one byte at a time through a reader the allocator supplies, since its
//! padding and spare capacity may be memory no Rust reference may cover.

use vstd::prelude::*;

verus! {

/// How many watches can be active at once.
pub const MAX_WATCHES: usize = 16;

/// Longest secret [`ScanningAllocator::watch_bytes`] accepts.
pub const MAX_PATTERN_LEN: usize = 64;

/// Why a watch could not start.
#[derive(Debug, Clone, Copy, PartialEq, Eq)]
pub enum WatchError {
    /// The secret is all zero, empty or longer than [`MAX_PATTERN_LEN`].
    InvalidPattern,
    /// [`MAX_WATCHES`] watches are already active.
    Full,
}

/// What a watch looks for in a freed block.
pub enum TargetView {
    /// These bytes, anywhere in the block.
    Bytes(Seq<u8>),
    /// A block of exactly this size that is not all zero.
    BlocksOfSize(usize),
}

/// An active watch: its target and how many freed blocks it has caught.
pub struct SlotView {
    pub target: TargetView,
    pub unwiped_frees: usize,
}

/// Whether `pattern` occurs in `contents`.
pub open spec fn holds_pattern(contents: Seq<u8>, pattern: Seq<u8>) -> bool {
    exists|start: int|
        0 <= start && start + pattern.len() <= contents.len() && #[trigger] contents.subrange(
            start,
            start + pattern.len(),
        ) == pattern
}

/// Whether every byte of `contents` is zero.
pub open spec fn all_zero(contents: Seq<u8>) -> bool {
    forall|i: int| 0 <= i < contents.len() ==> contents[i] == 0
}

/// Whether a freed block still holds what a watch looks for.
pub open spec fn left_in(target: TargetView, contents: Seq<u8>) -> bool {
    match target {
        TargetView::Bytes(pattern) => holds_pattern(contents, pattern),
        TargetView::BlocksOfSize(size) => contents.len() == size && !all_zero(contents),
    }
}

/// A watch after one block is freed: one more catch if the block still holds
/// its target.
pub open spec fn slot_after_free(slot: Option<SlotView>, contents: Seq<u8>) -> Option<SlotView> {
    match slot {
        Some(slot) => Some(
            SlotView {
                unwiped_frees: if left_in(slot.target, contents) {
                    (slot.unwiped_frees + 1) as usize
                } else {
                    slot.unwiped_frees
                },
                target: slot.target,
            },
        ),
        None => None,
    }
}

/// Whether a secret can be told apart from wiped memory: not empty, no longer
/// than [`MAX_PATTERN_LEN`], and not all zero.
pub open spec fn recognisable(secret: Seq<u8>) -> bool {
    secret.len() <= MAX_PATTERN_LEN && exists|i: int| 0 <= i < secret.len() && secret[i] != 0
}

/// Whether `byte_at` reads as `contents` at every offset below `len`.
pub open spec fn reads_as<F: Fn(usize) -> u8>(byte_at: F, len: usize, contents: Seq<u8>) -> bool {
    &&& contents.len() == len
    &&& forall|offset: usize, byte: u8|
        offset < len && #[trigger] byte_at.ensures((offset,), byte) ==> byte == contents[offset as int]
}

/// Whether `byte_at` can be asked for every offset below `len`.
pub open spec fn readable<F: Fn(usize) -> u8>(byte_at: F, len: usize) -> bool {
    forall|offset: usize| offset < len ==> #[trigger] byte_at.requires((offset,))
}

#[derive(Clone, Copy)]
struct Pattern {
    bytes: [u8; MAX_PATTERN_LEN],
    len: usize,
}

impl Pattern {
    spec fn pattern(self) -> Seq<u8> {
        self.bytes@.subrange(0, self.len as int)
    }

    spec fn well_formed(self) -> bool {
        self.len <= MAX_PATTERN_LEN
    }

    fn new(secret: &[u8]) -> (pattern: Option<Self>)
        ensures
            pattern is Some <==> recognisable(secret@),
            pattern matches Some(pattern) ==> pattern.well_formed() && pattern.pattern() == secret@,
    {
        if secret.len() > MAX_PATTERN_LEN {
            return None;
        }
        let mut nonzero = false;
        let mut i: usize = 0;
        while i < secret.len()
            invariant
                i <= secret@.len(),
                nonzero <==> exists|j: int| 0 <= j < i && secret@[j] != 0,
            decreases secret@.len() - i,
        {
            if secret[i] != 0 {
                nonzero = true;
            }
            i = i + 1;
        }
        if !nonzero {
            return None;
        }
        let mut bytes = [0u8; MAX_PATTERN_LEN];
        let mut k: usize = 0;
        while k < secret.len()
            invariant
                k <= secret@.len(),
                secret@.len() <= MAX_PATTERN_LEN,
                bytes@.len() == MAX_PATTERN_LEN,
                forall|j: int| 0 <= j < k ==> bytes@[j] == secret@[j],
            decreases secret@.len() - k,
        {
            bytes[k] = secret[k];
            k = k + 1;
        }
        let pattern = Pattern { bytes, len: secret.len() };
        assert(pattern.pattern() =~= secret@);
        Some(pattern)
    }

    fn as_bytes(&self) -> (bytes: &[u8])
        requires
            self.well_formed(),
        ensures
            bytes@ == self.pattern(),
    {
        vstd::slice::slice_subrange(self.bytes.as_slice(), 0, self.len)
    }
}

#[derive(Clone, Copy)]
enum Target {
    Bytes(Pattern),
    BlocksOfSize(usize),
}

impl Target {
    spec fn target(self) -> TargetView {
        match self {
            Target::Bytes(pattern) => TargetView::Bytes(pattern.pattern()),
            Target::BlocksOfSize(size) => TargetView::BlocksOfSize(size),
        }
    }

    spec fn well_formed(self) -> bool {
        self matches Target::Bytes(pattern) ==> pattern.well_formed()
    }

    fn is_left_in<F: Fn(usize) -> u8>(&self, len: usize, byte_at: &F) -> (left: bool)
        requires
            self.well_formed(),
            readable(*byte_at, len),
        ensures
            forall|contents: Seq<u8>| #[trigger] reads_as(*byte_at, len, contents) ==> left
                == left_in(self.target(), contents),
    {
        match self {
            Target::Bytes(pattern) => block_contains(len, byte_at, pattern.as_bytes()),
            Target::BlocksOfSize(size) => len == *size && !block_is_all_zero(len, byte_at),
        }
    }
}

/// Whether the block of `len` bytes that `byte_at` reads holds `pattern`.
pub fn block_contains<F: Fn(usize) -> u8>(len: usize, byte_at: &F, pattern: &[u8]) -> (found: bool)
    requires
        readable(*byte_at, len),
    ensures
        forall|contents: Seq<u8>| #[trigger] reads_as(*byte_at, len, contents) ==> found
            == holds_pattern(contents, pattern@),
{
    if pattern.len() > len {
        proof {
            assert forall|contents: Seq<u8>| #[trigger] reads_as(*byte_at, len, contents) implies !holds_pattern(
                contents,
                pattern@,
            ) by {}
        }
        return false;
    }
    let last_start = len - pattern.len();
    let mut start: usize = 0;
    while start <= last_start
        invariant
            last_start == len - pattern@.len(),
            pattern@.len() <= len,
            readable(*byte_at, len),
            forall|contents: Seq<u8>, earlier: int|
                #![trigger reads_as(*byte_at, len, contents), contents.subrange(earlier, earlier + pattern@.len())]
                reads_as(*byte_at, len, contents) && 0 <= earlier < start ==> contents.subrange(
                    earlier,
                    earlier + pattern@.len(),
                ) != pattern@,
        decreases last_start + 1 - start,
    {
        if matches_at(len, byte_at, start, pattern) {
            proof {
                assert forall|contents: Seq<u8>| #[trigger] reads_as(*byte_at, len, contents) implies holds_pattern(
                    contents,
                    pattern@,
                ) by {
                    assert(contents.subrange(start as int, start + pattern@.len()) == pattern@);
                }
            }
            return true;
        }
        if start == last_start {
            proof {
                assert forall|contents: Seq<u8>| #[trigger] reads_as(*byte_at, len, contents) implies !holds_pattern(
                    contents,
                    pattern@,
                ) by {
                    if holds_pattern(contents, pattern@) {
                        let at = choose|at: int|
                            0 <= at && at + pattern@.len() <= contents.len() && #[trigger] contents.subrange(
                                at,
                                at + pattern@.len(),
                            ) == pattern@;
                        assert(contents.subrange(at, at + pattern@.len()) != pattern@);
                    }
                }
            }
            return false;
        }
        start = start + 1;
    }
    false
}

/// Whether `pattern` is read at `start` on.
fn matches_at<F: Fn(usize) -> u8>(len: usize, byte_at: &F, start: usize, pattern: &[u8]) -> (found: bool)
    requires
        readable(*byte_at, len),
        start + pattern@.len() <= len,
    ensures
        forall|contents: Seq<u8>| #[trigger] reads_as(*byte_at, len, contents) ==> found
            == (contents.subrange(start as int, start + pattern@.len()) == pattern@),
{
    let mut k: usize = 0;
    while k < pattern.len()
        invariant
            k <= pattern@.len(),
            start + pattern@.len() <= len,
            readable(*byte_at, len),
            forall|contents: Seq<u8>, j: int|
                #![trigger reads_as(*byte_at, len, contents), contents[start + j]]
                reads_as(*byte_at, len, contents) && 0 <= j < k ==> contents[start + j] == pattern@[j],
        decreases pattern@.len() - k,
    {
        let byte = byte_at(start + k);
        if byte != pattern[k] {
            proof {
                assert forall|contents: Seq<u8>| #[trigger] reads_as(*byte_at, len, contents) implies contents.subrange(
                    start as int,
                    start + pattern@.len(),
                ) != pattern@ by {
                    assert(contents[start + k] == byte);
                    assert(contents.subrange(start as int, start + pattern@.len())[k as int] == contents[start + k]);
                }
            }
            return false;
        }
        k = k + 1;
    }
    proof {
        assert forall|contents: Seq<u8>| #[trigger] reads_as(*byte_at, len, contents) implies contents.subrange(
            start as int,
            start + pattern@.len(),
        ) == pattern@ by {
            assert forall|j: int| 0 <= j < pattern@.len() implies contents.subrange(
                start as int,
                start + pattern@.len(),
            )[j] == pattern@[j] by {
                assert(contents[start + j] == pattern@[j]);
            }
            assert(contents.subrange(start as int, start + pattern@.len()) =~= pattern@);
        }
    }
    true
}

/// Whether every byte of the block of `len` bytes that `byte_at` reads is zero.
pub fn block_is_all_zero<F: Fn(usize) -> u8>(len: usize, byte_at: &F) -> (zero: bool)
    requires
        readable(*byte_at, len),
    ensures
        forall|contents: Seq<u8>| #[trigger] reads_as(*byte_at, len, contents) ==> zero == all_zero(
            contents,
        ),
{
    let mut offset: usize = 0;
    while offset < len
        invariant
            offset <= len,
            readable(*byte_at, len),
            forall|contents: Seq<u8>, j: int|
                #![trigger reads_as(*byte_at, len, contents), contents[j]]
                reads_as(*byte_at, len, contents) && 0 <= j < offset ==> contents[j] == 0,
        decreases len - offset,
    {
        let byte = byte_at(offset);
        if byte != 0 {
            proof {
                assert forall|contents: Seq<u8>| #[trigger] reads_as(*byte_at, len, contents) implies !all_zero(
                    contents,
                ) by {
                    assert(contents[offset as int] == byte);
                }
            }
            return false;
        }
        offset = offset + 1;
    }
    true
}

#[derive(Clone, Copy)]
struct Slot {
    target: Target,
    unwiped_frees: usize,
}

impl Slot {
    spec fn slot(self) -> SlotView {
        SlotView { target: self.target.target(), unwiped_frees: self.unwiped_frees }
    }
}

spec fn optional_slot(slot: Option<Slot>) -> Option<SlotView> {
    match slot {
        Some(slot) => Some(slot.slot()),
        None => None,
    }
}

/// The watches of a scanning allocator, one slot per possible watch.
pub struct ScanningAllocator {
    slots: [Option<Slot>; MAX_WATCHES],
}

/// An active watch, by its slot.
pub struct Watch {
    index: usize,
}

impl View for ScanningAllocator {
    type V = Seq<Option<SlotView>>;

    closed spec fn view(&self) -> Seq<Option<SlotView>> {
        self.slots@.map_values(|slot: Option<Slot>| optional_slot(slot))
    }
}

impl Watch {
    /// The slot this watch holds.
    pub closed spec fn slot_index(&self) -> int {
        self.index as int
    }

    #[verifier::type_invariant]
    spec fn in_table(self) -> bool {
        self.index < MAX_WATCHES
    }
}

impl ScanningAllocator {
    /// Whether every watched pattern fits its buffer.
    pub closed spec fn well_formed(&self) -> bool {
        forall|i: int|
            0 <= i < MAX_WATCHES ==> (#[trigger] self.slots@[i] matches Some(slot)
                ==> slot.target.well_formed())
    }

    /// Whether every active watch could count one more catch.
    pub open spec fn can_count(slots: Seq<Option<SlotView>>) -> bool {
        forall|i: int|
            0 <= i < slots.len() ==> (#[trigger] slots[i] matches Some(slot) ==> slot.unwiped_frees
                < usize::MAX)
    }

    /// An allocator with no active watches.
    pub fn new() -> (allocator: Self)
        ensures
            allocator@ == Seq::new(MAX_WATCHES as nat, |i: int| None::<SlotView>),
            allocator.well_formed(),
    {
        let allocator = ScanningAllocator { slots: [None; MAX_WATCHES] };
        assert(allocator@ =~= Seq::new(MAX_WATCHES as nat, |i: int| None::<SlotView>));
        allocator
    }

    /// Counts every freed block that still contains `secret`.
    ///
    /// # Errors
    /// [`WatchError::InvalidPattern`] if `secret` is all zero (wiped memory
    /// would match it), empty or longer than [`MAX_PATTERN_LEN`];
    /// [`WatchError::Full`] if [`MAX_WATCHES`] watches are active.
    pub fn watch_bytes(&mut self, secret: &[u8]) -> (result: Result<Watch, WatchError>)
        requires
            old(self).well_formed(),
        ensures
            final(self).well_formed(),
            !recognisable(secret@) ==> result == Err::<Watch, WatchError>(WatchError::InvalidPattern)
                && final(self)@ == old(self)@,
            recognisable(secret@) ==> started(
                old(self)@,
                TargetView::Bytes(secret@),
                result,
                final(self)@,
            ),
    {
        match Pattern::new(secret) {
            Some(pattern) => self.start_watch(Target::Bytes(pattern)),
            None => Err(WatchError::InvalidPattern),
        }
    }

    /// Counts every freed block of exactly `size` bytes that is not all zero.
    ///
    /// For secret working memory whose contents a test cannot know, such as
    /// the Argon2 blocks.
    ///
    /// # Errors
    /// [`WatchError::Full`] if [`MAX_WATCHES`] watches are active.
    pub fn watch_blocks_of_size(&mut self, size: usize) -> (result: Result<Watch, WatchError>)
        requires
            old(self).well_formed(),
        ensures
            final(self).well_formed(),
            started(old(self)@, TargetView::BlocksOfSize(size), result, final(self)@),
    {
        self.start_watch(Target::BlocksOfSize(size))
    }

    fn start_watch(&mut self, target: Target) -> (result: Result<Watch, WatchError>)
        requires
            old(self).well_formed(),
            target.well_formed(),
        ensures
            final(self).well_formed(),
            started(old(self)@, target.target(), result, final(self)@),
    {
        let mut index: usize = 0;
        while index < MAX_WATCHES
            invariant
                index <= MAX_WATCHES,
                *self == *old(self),
                self.well_formed(),
                target.well_formed(),
                forall|earlier: int| 0 <= earlier < index ==> self@[earlier] is Some,
            decreases MAX_WATCHES - index,
        {
            if self.slots[index].is_none() {
                let ghost before = self@;
                self.slots[index] = Some(Slot { target, unwiped_frees: 0 });
                proof {
                    assert(self@ =~= before.update(
                        index as int,
                        Some(SlotView { target: target.target(), unwiped_frees: 0 }),
                    ));
                    assert forall|i: int| 0 <= i < MAX_WATCHES implies (#[trigger] self.slots@[i] matches Some(
                        slot,
                    ) ==> slot.target.well_formed()) by {
                        if i != index {
                            assert(self.slots@[i] == old(self).slots@[i]);
                        }
                    }
                }
                return Ok(Watch { index });
            }
            index = index + 1;
        }
        Err(WatchError::Full)
    }

    /// Whether every active watch can count one more freed block.
    pub fn has_room_to_count(&self) -> (room: bool)
        ensures
            room == Self::can_count(self@),
    {
        let mut index: usize = 0;
        while index < MAX_WATCHES
            invariant
                index <= MAX_WATCHES,
                self@.len() == MAX_WATCHES,
                forall|earlier: int|
                    0 <= earlier < index ==> (#[trigger] self@[earlier] matches Some(slot)
                        ==> slot.unwiped_frees < usize::MAX),
            decreases MAX_WATCHES - index,
        {
            match self.slots[index] {
                Some(slot) => {
                    if slot.unwiped_frees == usize::MAX {
                        assert(self@[index as int] matches Some(slot) && slot.unwiped_frees == usize::MAX);
                        return false;
                    }
                },
                None => {},
            }
            index = index + 1;
        }
        true
    }

    /// Shows a freed block to every active watch: each counts it if the block
    /// still holds what it looks for.
    pub fn inspect<F: Fn(usize) -> u8>(&mut self, len: usize, byte_at: &F)
        requires
            old(self).well_formed(),
            Self::can_count(old(self)@),
            readable(*byte_at, len),
        ensures
            final(self).well_formed(),
            forall|contents: Seq<u8>| #[trigger] reads_as(*byte_at, len, contents) ==> final(self)@
                == old(self)@.map_values(|slot: Option<SlotView>| slot_after_free(slot, contents)),
    {
        let ghost before = self@;
        let mut index: usize = 0;
        while index < MAX_WATCHES
            invariant
                index <= MAX_WATCHES,
                self.well_formed(),
                readable(*byte_at, len),
                before.len() == MAX_WATCHES,
                Self::can_count(before),
                forall|later: int| index <= later < MAX_WATCHES ==> self@[later] == before[later],
                forall|contents: Seq<u8>, earlier: int|
                    #![trigger reads_as(*byte_at, len, contents), self@[earlier]]
                    reads_as(*byte_at, len, contents) && 0 <= earlier < index ==> self@[earlier]
                        == slot_after_free(before[earlier], contents),
            decreases MAX_WATCHES - index,
        {
            match self.slots[index] {
                Some(slot) => {
                    assert(self@[index as int] == before[index as int]);
                    let left = slot.target.is_left_in(len, byte_at);
                    let unwiped_frees = if left {
                        slot.unwiped_frees + 1
                    } else {
                        slot.unwiped_frees
                    };
                    let ghost previous = self@;
                    self.slots[index] = Some(Slot { target: slot.target, unwiped_frees });
                    proof {
                        assert(self@ =~= previous.update(
                            index as int,
                            Some(SlotView { target: slot.target.target(), unwiped_frees }),
                        ));
                    }
                },
                None => {},
            }
            index = index + 1;
        }
        proof {
            assert forall|contents: Seq<u8>| #[trigger] reads_as(*byte_at, len, contents) implies self@
                == before.map_values(|slot: Option<SlotView>| slot_after_free(slot, contents)) by {
                assert(self@ =~= before.map_values(
                    |slot: Option<SlotView>| slot_after_free(slot, contents),
                ));
            }
        }
    }

    /// Stops a watch and frees its slot.
    pub fn stop(&mut self, watch: Watch)
        requires
            old(self).well_formed(),
        ensures
            final(self).well_formed(),
            final(self)@ == old(self)@.update(watch.slot_index(), None),
    {
        proof {
            use_type_invariant(&watch);
        }
        let ghost before = self@;
        self.slots[watch.index] = None;
        assert(self@ =~= before.update(watch.slot_index(), None));
    }
}

/// What starting a watch does: it takes the first free slot with no catches
/// yet, or fails with [`WatchError::Full`] when there is none.
pub open spec fn started(
    old: Seq<Option<SlotView>>,
    target: TargetView,
    result: Result<Watch, WatchError>,
    new: Seq<Option<SlotView>>,
) -> bool {
    match result {
        Ok(watch) => {
            &&& 0 <= watch.slot_index() < old.len()
            &&& old[watch.slot_index()] is None
            &&& forall|earlier: int| 0 <= earlier < watch.slot_index() ==> #[trigger] old[earlier] is Some
            &&& new == old.update(watch.slot_index(), Some(SlotView { target, unwiped_frees: 0 }))
        },
        Err(error) => {
            &&& error == WatchError::Full
            &&& forall|i: int| 0 <= i < old.len() ==> #[trigger] old[i] is Some
            &&& new == old
        },
    }
}

impl Watch {
    /// How many freed blocks still held the watched secret since the watch
    /// started.
    pub fn unwiped_frees(&self, allocator: &ScanningAllocator) -> (count: usize)
        ensures
            0 <= self.slot_index() < MAX_WATCHES,
            count == match allocator@[self.slot_index()] {
                Some(slot) => slot.unwiped_frees,
                None => 0,
            },
    {
        proof {
            use_type_invariant(self);
        }
        match allocator.slots[self.index] {
            Some(slot) => slot.unwiped_frees,
            None => 0,
        }
    }
}

/// How many of `blocks`, freed in turn, still hold what `target` looks for.
pub open spec fn caught(target: TargetView, blocks: Seq<Seq<u8>>) -> nat
    decreases blocks.len(),
{
    if blocks.len() == 0 {
        0
    } else {
        caught(target, blocks.drop_last()) + if left_in(target, blocks.last()) {
            1nat
        } else {
            0nat
        }
    }
}

/// The watches after `blocks` are freed in turn, each shown to every watch
/// as [`ScanningAllocator::inspect`] shows it.
pub open spec fn after_frees(slots: Seq<Option<SlotView>>, blocks: Seq<Seq<u8>>) -> Seq<Option<SlotView>>
    decreases blocks.len(),
{
    if blocks.len() == 0 {
        slots
    } else {
        after_frees(slots, blocks.drop_last()).map_values(
            |slot: Option<SlotView>| slot_after_free(slot, blocks.last()),
        )
    }
}

/// A watch counts every freed block that still holds its target and no
/// other: after any run of frees its count has grown by exactly the number
/// of those blocks that still held it, and a watch just started (at zero)
/// reads that number.
pub proof fn lemma_watch_counts_every_unwiped_free(
    slots: Seq<Option<SlotView>>,
    index: int,
    target: TargetView,
    start: usize,
    blocks: Seq<Seq<u8>>,
)
    requires
        0 <= index < slots.len(),
        slots[index] == Some(SlotView { target, unwiped_frees: start }),
        start + caught(target, blocks) <= usize::MAX,
    ensures
        after_frees(slots, blocks).len() == slots.len(),
        after_frees(slots, blocks)[index] == Some(
            SlotView { target, unwiped_frees: (start + caught(target, blocks)) as usize },
        ),
    decreases blocks.len(),
{
    if blocks.len() > 0 {
        lemma_watch_counts_every_unwiped_free(slots, index, target, start, blocks.drop_last());
    }
}

} // verus!
