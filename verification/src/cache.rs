//! The frames in memory around the playhead.
use std::collections::HashMap;
use std::collections::HashSet;
use std::sync::Arc;

use vstd::prelude::*;
use vstd::std_specs::iter::IteratorSpec;

use crate::exr::ExrImage;

verus! {

/// A frame lies in the window around the playhead.
pub open spec fn in_window(frame: int, behind: int, lookahead: int, playhead: int) -> bool {
    frame + behind >= playhead && frame <= playhead + lookahead
}

/// Whether a frame lies in the window can be told without leaving the range of `u64`.
pub open spec fn window_decides(frame: int, behind: int, lookahead: int, playhead: int) -> bool {
    &&& frame + behind <= u64::MAX
    &&& frame + behind >= playhead ==> playhead + lookahead <= u64::MAX
}

/// The keys of a map.
fn keys_of<V>(m: &HashMap<u64, V>) -> (keys: Vec<u64>)
    ensures
        forall|k: u64| #[trigger] keys@.contains(k) <==> m@.contains_key(k),
{
    broadcast use vstd::std_specs::hash::group_hash_axioms;

    let mut keys: Vec<u64> = Vec::new();
    for k in it: m.keys()
        invariant
            it.seq() == m.keys().remaining(),
            keys@ == it.seq().take(it.index()).unref(),
    {
        keys.push(*k);
    }
    assert(keys@ =~= m.keys().remaining().unref());
    assert(forall|k: u64| #[trigger] keys@.contains(k) <==> keys@.to_set().contains(k));
    keys
}

/// The members of a set.
fn members_of(m: &HashSet<u64>) -> (members: Vec<u64>)
    ensures
        forall|k: u64| #[trigger] members@.contains(k) <==> m@.contains(k),
{
    broadcast use vstd::std_specs::hash::group_hash_axioms;

    let mut members: Vec<u64> = Vec::new();
    for k in it: m.iter()
        invariant
            it.seq() == m.iter().remaining(),
            members@ == it.seq().take(it.index()).unref(),
    {
        members.push(*k);
    }
    assert(members@ =~= m.iter().remaining().unref());
    assert(forall|k: u64| #[trigger] members@.contains(k) <==> members@.to_set().contains(k));
    members
}

/// Decoded frames, and the frames whose decoding is under way.
///
/// A cache holds up to `capacity` frames without a look at where they lie. Past that, it
/// keeps those that lie at most `behind` frames before the playhead and at most
/// `lookahead` frames after it.
pub struct RollingCache {
    frames: HashMap<u64, Arc<ExrImage>>,
    pending: HashSet<u64>,
    capacity: usize,
    lookahead: u64,
    behind: u64,
}

impl RollingCache {
    /// The decoded frames.
    pub closed spec fn frames(&self) -> Map<u64, Arc<ExrImage>> {
        self.frames@
    }

    /// The frames whose decoding is under way.
    pub closed spec fn pending(&self) -> Set<u64> {
        self.pending@
    }

    /// How many frames are held without a look at where they lie.
    pub closed spec fn capacity(&self) -> usize {
        self.capacity
    }

    /// How far past the playhead frames are kept.
    pub closed spec fn lookahead(&self) -> u64 {
        self.lookahead
    }

    /// How far before the playhead frames are kept.
    pub closed spec fn behind(&self) -> u64 {
        self.behind
    }

    /// A frame lies in this cache's window around a playhead.
    pub open spec fn keeps(&self, frame: u64, playhead: u64) -> bool {
        in_window(frame as int, self.behind() as int, self.lookahead() as int, playhead as int)
    }

    /// The window can be told of every frame of a set.
    pub open spec fn decides(&self, frames: Set<u64>, playhead: u64) -> bool {
        forall|f: u64| #[trigger]
            frames.contains(f) ==> window_decides(
                f as int,
                self.behind() as int,
                self.lookahead() as int,
                playhead as int,
            )
    }

    /// The cache has the same limits as another.
    pub open spec fn same_limits(&self, other: &RollingCache) -> bool {
        &&& self.capacity() == other.capacity()
        &&& self.lookahead() == other.lookahead()
        &&& self.behind() == other.behind()
    }

    /// A frame is decoded or under way.
    pub open spec fn holds(&self, frame: u64) -> bool {
        self.frames().contains_key(frame) || self.pending().contains(frame)
    }

    /// What is left of the decoded frames once a frame has come in.
    pub open spec fn frames_after_insert(
        &self,
        frame: u64,
        img: Arc<ExrImage>,
        playhead: u64,
    ) -> Map<u64, Arc<ExrImage>> {
        let all = self.frames().insert(frame, img);
        if all.len() > self.capacity() {
            all.filter_keys(|f: u64| self.keeps(f, playhead))
        } else {
            all
        }
    }

    /// An empty cache without room.
    pub fn new() -> (cache: Self)
        ensures
            cache.frames() == Map::<u64, Arc<ExrImage>>::empty(),
            cache.pending() == Set::<u64>::empty(),
            cache.capacity() == 0,
            cache.lookahead() == 0,
            cache.behind() == 0,
    {
        RollingCache::with_limits(0, 0, 0)
    }

    /// An empty cache with the given limits.
    pub fn with_limits(capacity: usize, behind: u64, lookahead: u64) -> (cache: Self)
        ensures
            cache.frames() == Map::<u64, Arc<ExrImage>>::empty(),
            cache.pending() == Set::<u64>::empty(),
            cache.capacity() == capacity,
            cache.lookahead() == lookahead,
            cache.behind() == behind,
    {
        RollingCache {
            frames: HashMap::new(),
            pending: HashSet::new(),
            capacity,
            lookahead,
            behind,
        }
    }

    /// The decoded frame, if it is in memory.
    pub fn get(&self, frame: u64) -> (img: Option<Arc<ExrImage>>)
        ensures
            img == (if self.frames().contains_key(frame) {
                Some(self.frames()[frame])
            } else {
                None
            }),
    {
        broadcast use vstd::std_specs::hash::group_hash_axioms;

        match self.frames.get(&frame) {
            Some(img) => Some(img.clone()),
            None => None,
        }
    }

    /// Whether a frame lies in the window.
    fn in_reach(&self, frame: u64, playhead: u64) -> (kept: bool)
        requires
            window_decides(
                frame as int,
                self.behind() as int,
                self.lookahead() as int,
                playhead as int,
            ),
        ensures
            kept == self.keeps(frame, playhead),
    {
        frame + self.behind >= playhead && frame <= playhead + self.lookahead
    }

    /// Whether it can be told of a frame that it lies in the window.
    fn can_tell(&self, frame: u64, playhead: u64) -> (can: bool)
        ensures
            can == window_decides(
                frame as int,
                self.behind() as int,
                self.lookahead() as int,
                playhead as int,
            ),
    {
        match frame.checked_add(self.behind) {
            Some(reach) => reach < playhead || playhead.checked_add(self.lookahead).is_some(),
            None => false,
        }
    }

    /// Whether a decoded frame can be taken in with the playhead where it is.
    pub fn can_insert(&self, frame: u64, playhead: u64) -> (can: bool)
        ensures
            can == (self.frames().dom().insert(frame).len() > self.capacity() ==> self.decides(
                self.frames().dom().insert(frame),
                playhead,
            )),
    {
        broadcast use vstd::std_specs::hash::group_hash_axioms;

        let ghost all = self.frames().dom().insert(frame);
        let known = self.frames.contains_key(&frame);
        assert(known ==> all =~= self.frames().dom());
        let room = if known {
            self.frames.len() <= self.capacity
        } else {
            self.frames.len() < self.capacity
        };
        if room {
            return true;
        }
        if !self.can_tell(frame, playhead) {
            assert(all.contains(frame));
            return false;
        }
        let keys = keys_of(&self.frames);
        for i in 0..keys.len()
            invariant
                all == self.frames().dom().insert(frame),
                forall|k: u64| #[trigger] keys@.contains(k) <==> self.frames().contains_key(k),
                forall|j: int|
                    0 <= j < i ==> window_decides(
                        #[trigger] keys@[j] as int,
                        self.behind() as int,
                        self.lookahead() as int,
                        playhead as int,
                    ),
                all.len() > self.capacity(),
        {
            if !self.can_tell(keys[i], playhead) {
                assert(keys@.contains(keys@[i as int]));
                assert(all.contains(keys@[i as int]));
                return false;
            }
        }
        assert forall|f: u64| #[trigger] all.contains(f) implies window_decides(
            f as int,
            self.behind() as int,
            self.lookahead() as int,
            playhead as int,
        ) by {
            if f != frame {
                assert(keys@.contains(f));
            }
        }
        true
    }

    /// Whether the frames under way can be swept with the playhead where it is.
    pub fn can_sweep(&self, playhead: u64) -> (can: bool)
        ensures
            can == self.decides(self.pending(), playhead),
    {
        broadcast use vstd::std_specs::hash::group_hash_axioms;

        let under_way = members_of(&self.pending);
        for i in 0..under_way.len()
            invariant
                forall|k: u64| #[trigger] under_way@.contains(k) <==> self.pending().contains(k),
                forall|j: int|
                    0 <= j < i ==> window_decides(
                        #[trigger] under_way@[j] as int,
                        self.behind() as int,
                        self.lookahead() as int,
                        playhead as int,
                    ),
        {
            if !self.can_tell(under_way[i], playhead) {
                assert(under_way@.contains(under_way@[i as int]));
                return false;
            }
        }
        assert forall|f: u64| #[trigger] self.pending().contains(f) implies window_decides(
            f as int,
            self.behind() as int,
            self.lookahead() as int,
            playhead as int,
        ) by {
            assert(under_way@.contains(f));
        }
        true
    }

    /// Takes in a decoded frame, which is no longer under way. Where that makes more
    /// frames than the cache has room for, those outside the window leave.
    ///
    /// Hands the frame back for its thumbnail.
    pub fn insert(&mut self, frame: u64, img: ExrImage, playhead: u64) -> (thumb: (
        u64,
        Arc<ExrImage>,
    ))
        requires
            old(self).frames().dom().insert(frame).len() > old(self).capacity() ==> old(
                self,
            ).decides(old(self).frames().dom().insert(frame), playhead),
        ensures
            thumb.0 == frame,
            *thumb.1 == img,
            final(self).frames() == old(self).frames_after_insert(frame, thumb.1, playhead),
            final(self).pending() == old(self).pending().remove(frame),
            final(self).same_limits(old(self)),
            forall|f: u64| #[trigger]
                final(self).frames().contains_key(f) <==> (f == frame || old(
                    self,
                ).frames().contains_key(f)) && (old(self).frames().dom().insert(frame).len() <= old(
                    self,
                ).capacity() || (f + old(self).behind() >= playhead && f <= playhead + old(
                    self,
                ).lookahead())),
    {
        broadcast use vstd::std_specs::hash::group_hash_axioms;

        let img: Arc<ExrImage> = Arc::new(img);
        self.frames.insert(frame, img.clone());
        let ghost all = self.frames@;
        assert(all.dom() =~= old(self).frames().dom().insert(frame));
        if self.frames.len() > self.capacity {
            let keys = keys_of(&self.frames);
            let ghost kept = all.filter_keys(|f: u64| old(self).keeps(f, playhead));
            for i in 0..keys.len()
                invariant
                    self.same_limits(old(self)),
                    self.pending@ == old(self).pending@,
                    old(self).decides(all.dom(), playhead),
                    forall|k: u64| #[trigger] keys@.contains(k) <==> all.contains_key(k),
                    kept == all.filter_keys(|f: u64| old(self).keeps(f, playhead)),
                    kept.submap_of(self.frames@),
                    self.frames@.submap_of(all),
                    forall|j: int|
                        0 <= j < i ==> old(self).keeps(#[trigger] keys@[j], playhead)
                            || !self.frames@.contains_key(keys@[j]),
            {
                let f: u64 = keys[i];
                assert(keys@.contains(f));
                if !self.in_reach(f, playhead) {
                    self.frames.remove(&f);
                }
            }
            assert forall|k: u64| #[trigger] self.frames@.contains_key(k) implies old(self).keeps(
                k,
                playhead,
            ) by {
                assert(keys@.contains(k));
            }
            assert(self.frames@ =~= kept);
        }
        self.pending.remove(&frame);
        (frame, img)
    }

    /// Whether a frame is decoded or under way.
    pub fn contains(&self, frame: u64) -> (held: bool)
        ensures
            held == self.holds(frame),
            held == (self.frames().contains_key(frame) || self.pending().contains(frame)),
    {
        broadcast use vstd::std_specs::hash::group_hash_axioms;

        self.frames.contains_key(&frame) || self.pending.contains(&frame)
    }

    /// Marks a frame as under way, unless it is decoded or under way already. Answers
    /// whether it was marked.
    pub fn try_reserve(&mut self, frame: u64) -> (reserved: bool)
        ensures
            reserved == !old(self).holds(frame),
            reserved == !(old(self).frames().contains_key(frame) || old(self).pending().contains(
                frame,
            )),
            final(self).pending() == (if reserved {
                old(self).pending().insert(frame)
            } else {
                old(self).pending()
            }),
            final(self).frames() == old(self).frames(),
            final(self).same_limits(old(self)),
    {
        broadcast use vstd::std_specs::hash::group_hash_axioms;

        if self.frames.contains_key(&frame) {
            return false;
        }
        if self.pending.contains(&frame) {
            false
        } else {
            self.pending.insert(frame);
            true
        }
    }

    /// Drops the frames under way that lie outside the window.
    pub fn sweep_pending(&mut self, playhead: u64)
        requires
            old(self).decides(old(self).pending(), playhead),
        ensures
            final(self).pending() == old(self).pending().filter(
                |f: u64| old(self).keeps(f, playhead),
            ),
            forall|f: u64| #[trigger]
                final(self).pending().contains(f) <==> old(self).pending().contains(f) && f + old(
                    self,
                ).behind() >= playhead && f <= playhead + old(self).lookahead(),
            final(self).frames() == old(self).frames(),
            final(self).same_limits(old(self)),
    {
        broadcast use vstd::std_specs::hash::group_hash_axioms;

        let under_way = members_of(&self.pending);
        let ghost all = self.pending@;
        let ghost kept = all.filter(|f: u64| old(self).keeps(f, playhead));
        for i in 0..under_way.len()
            invariant
                self.same_limits(old(self)),
                self.frames@ == old(self).frames@,
                old(self).decides(all, playhead),
                forall|k: u64| #[trigger] under_way@.contains(k) <==> all.contains(k),
                kept == all.filter(|f: u64| old(self).keeps(f, playhead)),
                kept.subset_of(self.pending@),
                self.pending@.subset_of(all),
                forall|j: int|
                    0 <= j < i ==> old(self).keeps(#[trigger] under_way@[j], playhead)
                        || !self.pending@.contains(under_way@[j]),
        {
            let f: u64 = under_way[i];
            assert(under_way@.contains(f));
            if !self.in_reach(f, playhead) {
                self.pending.remove(&f);
            }
        }
        assert forall|k: u64| #[trigger] self.pending@.contains(k) implies old(self).keeps(
            k,
            playhead,
        ) by {
            assert(under_way@.contains(k));
        }
        assert(self.pending@ =~= kept);
    }

    /// A frame is no longer under way.
    pub fn remove_pending(&mut self, frame: u64)
        ensures
            final(self).pending() == old(self).pending().remove(frame),
            final(self).frames() == old(self).frames(),
            final(self).same_limits(old(self)),
    {
        broadcast use vstd::std_specs::hash::group_hash_axioms;

        self.pending.remove(&frame);
    }
}

/// The frames of a window are no more than the window is long.
proof fn lemma_window_len(frames: Set<u64>, behind: int, lookahead: int, playhead: int)
    requires
        frames.finite(),
        0 <= behind,
        0 <= lookahead,
        forall|f: u64| #[trigger]
            frames.contains(f) ==> in_window(f as int, behind, lookahead, playhead),
    ensures
        frames.len() <= behind + lookahead + 1,
{
    let as_int = |f: u64| f as int;
    let image = frames.map(as_int);
    let range = vstd::set_lib::set_int_range(playhead - behind, playhead + lookahead + 1);
    vstd::set_lib::lemma_map_size(frames, image, as_int);
    vstd::set_lib::lemma_int_range(playhead - behind, playhead + lookahead + 1);
    vstd::set_lib::lemma_len_subset(image, range);
}

/// The cache is bounded: once a frame has come in, there are no more frames in memory than
/// its capacity or, where the window is longer, than the window.
pub proof fn lemma_insert_bounded(
    cache: RollingCache,
    frame: u64,
    img: Arc<ExrImage>,
    playhead: u64,
)
    ensures
        ({
            let after = cache.frames_after_insert(frame, img, playhead);
            after.len() <= cache.capacity() || after.len() <= cache.behind() + cache.lookahead() + 1
        }),
{
    broadcast use vstd::std_specs::hash::group_hash_axioms;

    let all = cache.frames().insert(frame, img);
    let after = cache.frames_after_insert(frame, img, playhead);
    if all.len() > cache.capacity() {
        vstd::set_lib::lemma_len_subset(after.dom(), all.dom());
        lemma_window_len(
            after.dom(),
            cache.behind() as int,
            cache.lookahead() as int,
            playhead as int,
        );
    }
}

/// A frame that came in is there when it is asked for, unless it lies outside the window
/// and the cache was full. What was there before is there still, or lay outside the
/// window. Nothing else appears.
pub proof fn lemma_insert_read_back(
    cache: RollingCache,
    frame: u64,
    img: Arc<ExrImage>,
    playhead: u64,
    other: u64,
)
    requires
        other != frame,
    ensures
        ({
            let after = cache.frames_after_insert(frame, img, playhead);
            let full = cache.frames().dom().insert(frame).len() > cache.capacity();
            &&& after.contains_key(frame) <==> (!full || cache.keeps(frame, playhead))
            &&& after.contains_key(frame) ==> after[frame] == img
            &&& after.contains_key(other) <==> cache.frames().contains_key(other) && (!full
                || cache.keeps(other, playhead))
            &&& after.contains_key(other) ==> after[other] == cache.frames()[other]
        }),
{
    assert(cache.frames().insert(frame, img).dom() =~= cache.frames().dom().insert(frame));
}

/// Reserving a frame claims it: a frame that was neither decoded nor under way is under
/// way now, so that no second claim succeeds, and releasing it leaves the cache as it was.
pub proof fn lemma_reserve_release(
    before: RollingCache,
    reserved: RollingCache,
    released: RollingCache,
    frame: u64,
)
    requires
        !before.holds(frame),
        reserved.frames() == before.frames(),
        reserved.pending() == before.pending().insert(frame),
        released.frames() == reserved.frames(),
        released.pending() == reserved.pending().remove(frame),
    ensures
        reserved.holds(frame),
        forall|f: u64| before.holds(f) ==> #[trigger] reserved.holds(f),
        released.frames() == before.frames(),
        released.pending() == before.pending(),
{
    assert(released.pending() =~= before.pending());
}

/// Sweeping drops only frames under way outside the window, and a second sweep at the same
/// playhead drops no more.
pub proof fn lemma_sweep_idempotent(
    before: RollingCache,
    swept: RollingCache,
    again: RollingCache,
    playhead: u64,
)
    requires
        swept.same_limits(&before),
        swept.pending() == before.pending().filter(|f: u64| before.keeps(f, playhead)),
        again.pending() == swept.pending().filter(|f: u64| swept.keeps(f, playhead)),
    ensures
        again.pending() == swept.pending(),
        forall|f: u64|
            before.pending().contains(f) && before.keeps(f, playhead) ==> #[trigger] swept.pending()
                .contains(f),
{
    assert(again.pending() =~= swept.pending());
}

/// The window reaches from as many frames before the playhead as are kept behind it to as many
/// after it as are looked ahead, both ends included.
pub proof fn lemma_window_ends(cache: RollingCache, frame: u64, playhead: u64)
    ensures
        cache.keeps(frame, playhead) <==> playhead - cache.behind() <= frame <= playhead
            + cache.lookahead(),
        cache.keeps(playhead, playhead),
{
}

/// Whether a frame lies in the window can be told where the sums that tell it stay in range.
pub proof fn lemma_window_told(cache: RollingCache, frames: Set<u64>, playhead: u64)
    ensures
        cache.decides(frames, playhead) <==> forall|f: u64| #[trigger]
            frames.contains(f) ==> f + cache.behind() <= u64::MAX && (playhead <= f + cache.behind()
                ==> playhead + cache.lookahead() <= u64::MAX),
{
}

/// A frame that comes in is held under its number. With room left every frame stays; without, a
/// frame stays if and only if it lies in the window, the new one like the old ones. What stays is
/// the image that was there.
pub proof fn lemma_insert_keeps_the_window(
    cache: RollingCache,
    frame: u64,
    img: Arc<ExrImage>,
    playhead: u64,
    f: u64,
)
    ensures
        ({
            let after = cache.frames_after_insert(frame, img, playhead);
            let room = cache.frames().dom().insert(frame).len() <= cache.capacity();
            let near = playhead - cache.behind() <= f <= playhead + cache.lookahead();
            let there = f == frame || cache.frames().contains_key(f);
            &&& after.contains_key(f) <==> there && (room || near)
            &&& after.contains_key(f) ==> after[f] == (if f == frame {
                img
            } else {
                cache.frames()[f]
            })
        }),
{
    assert(cache.frames().insert(frame, img).dom() =~= cache.frames().dom().insert(frame));
}

/// A frame is held where it is decoded or under way.
pub proof fn lemma_held(cache: RollingCache, frame: u64)
    ensures
        cache.holds(frame) <==> cache.frames().contains_key(frame) || cache.pending().contains(
            frame,
        ),
{
}

/// Caches with the same limits agree on all three.
pub proof fn lemma_limits(a: RollingCache, b: RollingCache)
    ensures
        a.same_limits(&b) <==> a.capacity() == b.capacity() && a.lookahead() == b.lookahead()
            && a.behind() == b.behind(),
{
}

}
