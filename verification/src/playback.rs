//! Loading a sequence: which files are frames, and which frame is loaded next.
use vstd::prelude::*;

use crate::cache::RollingCache;

verus! {

/// An entry of a directory: the name of its file and its whole path, each where it is
/// Unicode.
pub struct DirItem {
    pub name: Option<String>,
    pub path: Option<String>,
}

/// A file name has the extension `exr`: the part after its last dot, where that dot is not
/// its first character.
pub open spec fn is_exr_name(name: Seq<char>) -> bool {
    name.len() > 4 && name.skip(name.len() - 4) == seq!['.', 'e', 'x', 'r']
}

/// An entry is a frame of a sequence.
pub open spec fn is_frame(item: DirItem) -> bool {
    item.name is Some && item.path is Some && is_exr_name(item.name->0@)
}

/// The paths of the frames among the entries of a directory.
pub open spec fn frames_among(items: Seq<DirItem>) -> Seq<Seq<char>>
    decreases items.len(),
{
    if items.len() == 0 {
        Seq::empty()
    } else if is_frame(items.last()) {
        frames_among(items.drop_last()).push(items.last().path->0@)
    } else {
        frames_among(items.drop_last())
    }
}

/// The texts of strings.
pub open spec fn texts(strings: Seq<String>) -> Seq<Seq<char>> {
    strings.map_values(|s: String| s@)
}

/// A text comes before another: it differs first in a smaller character, or ends first.
pub open spec fn text_before(a: Seq<char>, b: Seq<char>) -> bool {
    exists|k: int|
        {
            &&& 0 <= k <= a.len()
            &&& k < b.len()
            &&& #[trigger] a.take(k) == b.take(k)
            &&& k == a.len() || a[k] < b[k]
        }
}

/// Texts are in order.
pub open spec fn in_order(list: Seq<Seq<char>>) -> bool {
    forall|i: int, j: int|
        0 <= i < j < list.len() ==> !text_before(#[trigger] list[j], #[trigger] list[i])
}

/// How far two texts agree, from a place up to which they do.
spec fn shared(a: Seq<char>, b: Seq<char>, k: int) -> int
    decreases a.len() - k,
{
    if 0 <= k < a.len() && k < b.len() && a[k] == b[k] {
        shared(a, b, k + 1)
    } else {
        k
    }
}

proof fn lemma_shared(a: Seq<char>, b: Seq<char>, k: int)
    requires
        0 <= k <= a.len(),
        k <= b.len(),
        a.take(k) == b.take(k),
    ensures
        ({
            let r = shared(a, b, k);
            &&& k <= r <= a.len()
            &&& r <= b.len()
            &&& a.take(r) == b.take(r)
            &&& r < a.len() && r < b.len() ==> a[r] != b[r]
        }),
    decreases a.len() - k,
{
    if k < a.len() && k < b.len() && a[k] == b[k] {
        assert(a.take(k + 1) =~= a.take(k).push(a[k]));
        assert(b.take(k + 1) =~= b.take(k).push(b[k]));
        lemma_shared(a, b, k + 1);
    }
}

/// Of two texts one comes first, unless they are the same.
pub proof fn lemma_text_total(a: Seq<char>, b: Seq<char>)
    ensures
        a == b || text_before(a, b) || text_before(b, a),
        !(text_before(a, b) && text_before(b, a)),
        !text_before(a, a),
{
    assert(a.take(0) =~= b.take(0));
    lemma_shared(a, b, 0);
    let r = shared(a, b, 0);
    assert(a.take(a.len() as int) =~= a);
    assert(b.take(b.len() as int) =~= b);
    assert(b.take(r) == a.take(r));
    if text_before(a, b) && text_before(b, a) {
        let k = choose|k: int|
            {
                &&& 0 <= k <= a.len()
                &&& k < b.len()
                &&& #[trigger] a.take(k) == b.take(k)
                &&& k == a.len() || a[k] < b[k]
            };
        let l = choose|l: int|
            {
                &&& 0 <= l <= b.len()
                &&& l < a.len()
                &&& #[trigger] b.take(l) == a.take(l)
                &&& l == b.len() || b[l] < a[l]
            };
        if k < l {
            assert(b.take(l)[k] == a.take(l)[k]);
        }
        if l < k {
            assert(b.take(k)[l] == a.take(k)[l]);
        }
    }
}

/// A text comes before what comes after a later one.
pub proof fn lemma_text_transitive(a: Seq<char>, b: Seq<char>, c: Seq<char>)
    requires
        text_before(a, b),
        text_before(b, c),
    ensures
        text_before(a, c),
{
    let k = choose|k: int|
        {
            &&& 0 <= k <= a.len()
            &&& k < b.len()
            &&& #[trigger] a.take(k) == b.take(k)
            &&& k == a.len() || a[k] < b[k]
        };
    let l = choose|l: int|
        {
            &&& 0 <= l <= b.len()
            &&& l < c.len()
            &&& #[trigger] b.take(l) == c.take(l)
            &&& l == b.len() || b[l] < c[l]
        };
    let m = if k < l {
        k
    } else {
        l
    };
    assert(a.take(m) =~= a.take(k).take(m));
    assert(b.take(m) =~= b.take(k).take(m));
    assert(b.take(m) =~= b.take(l).take(m));
    assert(c.take(m) =~= c.take(l).take(m));
    if k < l {
        assert(b.take(l)[k] == c.take(l)[k]);
    }
    if l < k {
        assert(a.take(k)[l] == b.take(k)[l]);
    }
    assert(a.take(m) == c.take(m));
}

/// `<[String]>::sort` puts strings in order and neither drops nor adds one. Strings are
/// ordered by their bytes, which orders them by their characters.
#[verifier::external_body]
fn sort_strings(strings: &mut Vec<String>)
    ensures
        texts(final(strings)@).to_multiset() == texts(old(strings)@).to_multiset(),
        in_order(texts(final(strings)@)),
{
    strings.sort();
}

/// Whether a file name has the extension `exr`.
fn has_exr_extension(name: &str) -> (yes: bool)
    ensures
        yes == is_exr_name(name@),
{
    let n: usize = name.unicode_len();
    if n <= 4 {
        return false;
    }
    let yes = name.get_char(n - 4) == '.' && name.get_char(n - 3) == 'e' && name.get_char(n - 2)
        == 'x' && name.get_char(n - 1) == 'r';
    assert(yes ==> name@.skip(n - 4) =~= seq!['.', 'e', 'x', 'r']);
    assert(!yes ==> name@.skip(n - 4) != seq!['.', 'e', 'x', 'r']) by {
        let tail = name@.skip(n - 4);
        let ext = seq!['.', 'e', 'x', 'r'];
        assert(tail[0] == name@[n - 4] && tail[1] == name@[n - 3] && tail[2] == name@[n - 2]
            && tail[3] == name@[n - 1]);
        assert(ext[0] == '.' && ext[1] == 'e' && ext[2] == 'x' && ext[3] == 'r');
    }
    yes
}

/// The paths of a sequence: those of the frames in a directory, in order.
pub fn frame_paths(items: &Vec<DirItem>) -> (paths: Vec<String>)
    ensures
        texts(paths@).to_multiset() == frames_among(items@).to_multiset(),
        in_order(texts(paths@)),
{
    let mut paths: Vec<String> = Vec::new();
    assert(items@.take(0) =~= Seq::<DirItem>::empty());
    assert(texts(paths@) =~= Seq::<Seq<char>>::empty());
    for i in 0..items.len()
        invariant
            texts(paths@) == frames_among(items@.take(i as int)),
    {
        let ghost before = paths@;
        assert(items@.take(i + 1).drop_last() =~= items@.take(i as int));
        match (&items[i].name, &items[i].path) {
            (Some(name), Some(path)) => {
                if has_exr_extension(name.as_str()) {
                    paths.push(path.clone());
                    assert(texts(paths@) =~= texts(before).push(path@));
                }
            },
            _ => {},
        }
    }
    assert(items@.take(items@.len() as int) =~= items@);
    sort_strings(&mut paths);
    paths
}

/// Number of loaders where the machine does not tell how many threads it runs at once.
pub const DEFAULT_WORKERS: usize = 4;

/// Largest number of loaders.
pub const MAX_WORKERS: usize = 12;

/// Number of loaders on a machine that runs `parallelism` threads at once.
pub fn worker_count(parallelism: Option<usize>) -> (workers: usize)
    ensures
        ({
            let wanted = match parallelism {
                Some(n) => n,
                None => DEFAULT_WORKERS,
            };
            workers == if wanted < MAX_WORKERS {
                wanted
            } else {
                MAX_WORKERS
            }
        }),
        parallelism is None ==> workers == 4,
        parallelism matches Some(n) ==> workers == (if n < 12 {
            n
        } else {
            12
        }),
{
    let wanted: usize = match parallelism {
        Some(n) => n,
        None => DEFAULT_WORKERS,
    };
    if wanted < MAX_WORKERS {
        wanted
    } else {
        MAX_WORKERS
    }
}

/// The first frame that is loaded backwards from a playhead.
pub open spec fn back_end(playhead: int, lookahead: int) -> int {
    if playhead > lookahead {
        playhead - lookahead
    } else {
        0
    }
}

/// The last frame that is loaded forwards from a playhead: within the lookahead, and not
/// past the last frame of the sequence. An empty sequence counts as one frame.
pub open spec fn ahead_end(playhead: int, lookahead: int, frame_count: int) -> int {
    let last = if frame_count > 0 {
        frame_count - 1
    } else {
        0
    };
    if playhead + lookahead < last {
        playhead + lookahead
    } else {
        last
    }
}

/// `target` is the frame nearest to the playhead, in the direction of playback and within
/// the lookahead, that is neither decoded nor under way.
pub open spec fn is_target(
    cache: &RollingCache,
    playhead: u64,
    lookahead: u64,
    frame_count: usize,
    reverse: bool,
    target: Option<u64>,
) -> bool {
    let from = if reverse {
        back_end(playhead as int, lookahead as int)
    } else {
        playhead as int
    };
    let to = if reverse {
        playhead as int
    } else {
        ahead_end(playhead as int, lookahead as int, frame_count as int)
    };
    match target {
        Some(frame) => {
            &&& from <= frame <= to
            &&& !cache.holds(frame)
            &&& forall|f: u64|
                from <= f <= to && (if reverse {
                    f > frame
                } else {
                    f < frame
                }) ==> #[trigger] cache.holds(f)
        },
        None => forall|f: u64| from <= f <= to ==> #[trigger] cache.holds(f),
    }
}

/// The frame to load next.
pub fn next_target(
    cache: &RollingCache,
    playhead: u64,
    lookahead: u64,
    frame_count: usize,
    reverse: bool,
) -> (target: Option<u64>)
    requires
        reverse || playhead + lookahead <= u64::MAX,
    ensures
        is_target(cache, playhead, lookahead, frame_count, reverse, target),
{
    if reverse {
        let end: u64 = playhead.saturating_sub(lookahead);
        let mut f: u64 = playhead;
        loop
            invariant
                reverse,
                end == back_end(playhead as int, lookahead as int),
                end <= f <= playhead,
                forall|g: u64| f < g <= playhead ==> #[trigger] cache.holds(g),
            decreases f,
        {
            if !cache.contains(f) {
                return Some(f);
            }
            if f == end {
                return None;
            }
            f = f - 1;
        }
    } else {
        let last: u64 = frame_count.saturating_sub(1) as u64;
        let end: u64 = if playhead + lookahead < last { playhead + lookahead } else { last };
        let mut f: u64 = playhead;
        while f <= end
            invariant
                !reverse,
                end == ahead_end(playhead as int, lookahead as int, frame_count as int),
                playhead <= f,
                forall|g: u64| playhead <= g < f && g <= end ==> #[trigger] cache.holds(g),
            decreases end + 1 - f,
        {
            if !cache.contains(f) {
                return Some(f);
            }
            if f == end {
                return None;
            }
            f = f + 1;
        }
        None
    }
}

/// Picks the frame to load next and marks it as under way.
pub fn claim_target(
    cache: &mut RollingCache,
    playhead: u64,
    lookahead: u64,
    frame_count: usize,
    reverse: bool,
) -> (target: Option<u64>)
    requires
        reverse || playhead + lookahead <= u64::MAX,
    ensures
        is_target(old(cache), playhead, lookahead, frame_count, reverse, target),
        final(cache).pending() == (match target {
            Some(frame) => old(cache).pending().insert(frame),
            None => old(cache).pending(),
        }),
        final(cache).frames() == old(cache).frames(),
        final(cache).same_limits(old(cache)),
{
    let target = next_target(cache, playhead, lookahead, frame_count, reverse);
    if let Some(frame) = target {
        let _reserved: bool = cache.try_reserve(frame);
    }
    target
}

/// The multiples of a step past zero start at the step.
proof fn lemma_next_multiple(step: int, x: int)
    requires
        1 <= step,
        0 <= x,
    ensures
        x % step == 0 && x > 0 ==> x >= step,
        x >= step ==> (x % step == 0 <==> (x - step) % step == 0),
        0int % step == 0,
{
    if x < step {
        vstd::arithmetic::div_mod::lemma_small_mod(x as nat, step as nat);
    }
    vstd::arithmetic::div_mod::lemma_small_mod(0, step as nat);
    vstd::arithmetic::div_mod::lemma_mod_sub_multiples_vanish(x, step);
}

/// Number of threads that make the thumbnails of frames that playback has not reached.
pub const BACKFILL_WORKERS: usize = 2;

/// The frames whose thumbnails a backfill thread has still to see to.
pub struct Backfill {
    position: usize,
    step: usize,
    frame_count: usize,
}

/// A frame falls to one of several threads: to the thread of its own number, and to that
/// of every frame a whole number of threads before it.
pub open spec fn falls_to(worker: int, workers: int, frame: int) -> bool {
    worker <= frame && (frame - worker) % workers == 0
}

impl Backfill {
    /// A frame is still to be seen to.
    pub closed spec fn serves(&self, frame: int) -> bool {
        self.position <= frame < self.frame_count && (frame - self.position) % (self.step as int)
            == 0
    }

    /// Frames follow each other.
    pub closed spec fn proceeds(&self) -> bool {
        1 <= self.step
    }

    /// The frames of one of several threads.
    pub fn new(worker: usize, workers: usize, frame_count: usize) -> (backfill: Self)
        requires
            1 <= workers,
        ensures
            backfill.proceeds(),
            forall|frame: int| #[trigger]
                backfill.serves(frame) <==> frame < frame_count && falls_to(
                    worker as int,
                    workers as int,
                    frame,
                ),
    {
        Backfill { position: worker, step: workers, frame_count }
    }

    /// The next frame that is neither decoded nor under way; those that are get passed
    /// over.
    pub fn next_frame(&mut self, cache: &RollingCache) -> (frame: Option<usize>)
        requires
            old(self).proceeds(),
        ensures
            final(self).proceeds(),
            match frame {
                Some(found) => {
                    &&& old(self).serves(found as int)
                    &&& !cache.holds(found as u64)
                    &&& forall|f: int|
                        f < found && #[trigger] old(self).serves(f) ==> cache.holds(f as u64)
                    &&& forall|f: int| #[trigger]
                        final(self).serves(f) <==> old(self).serves(f) && f > found
                },
                None => {
                    &&& forall|f: int| #[trigger] old(self).serves(f) ==> cache.holds(f as u64)
                    &&& forall|f: int| !#[trigger] final(self).serves(f)
                },
            },
    {
        while self.position < self.frame_count
            invariant
                self.proceeds(),
                self.frame_count == old(self).frame_count,
                self.step == old(self).step,
                forall|f: int| #[trigger]
                    self.serves(f) <==> old(self).serves(f) && f >= self.position,
                forall|f: int|
                    f < self.position && #[trigger] old(self).serves(f) ==> cache.holds(f as u64),
            decreases self.frame_count - self.position,
        {
            let frame: usize = self.position;
            let ghost before = *self;
            if self.frame_count - self.position <= self.step {
                self.position = self.frame_count;
            } else {
                self.position = self.position + self.step;
            }
            assert forall|f: int|
                #[trigger] self.serves(f) <==> before.serves(f) && f > frame by {
                if f >= before.position {
                    lemma_next_multiple(self.step as int, f - before.position);
                }
            }
            assert(before.serves(frame as int)) by {
                lemma_next_multiple(self.step as int, 0);
            }
            assert forall|f: int| #[trigger] old(self).serves(f) && frame < f implies f
                >= self.position by {
                assert(before.serves(f));
                assert(self.serves(f));
            }
            if !cache.contains(frame as u64) {
                return Some(frame);
            }
        }
        None
    }
}

/// A frame that was claimed is not claimed again while it is under way.
pub proof fn lemma_claims_differ(
    before: RollingCache,
    after: RollingCache,
    playhead: u64,
    lookahead: u64,
    frame_count: usize,
    reverse: bool,
    claimed: u64,
    next: Option<u64>,
)
    requires
        after.pending() == before.pending().insert(claimed),
        is_target(&after, playhead, lookahead, frame_count, reverse, next),
    ensures
        next != Some(claimed),
{
    assert(after.holds(claimed));
}

/// What is loaded lies within the lookahead of the playhead, on the side that playback
/// runs to, and forwards it lies in the sequence.
pub proof fn lemma_target_in_reach(
    cache: RollingCache,
    playhead: u64,
    lookahead: u64,
    frame_count: usize,
    reverse: bool,
    target: u64,
)
    requires
        is_target(&cache, playhead, lookahead, frame_count, reverse, Some(target)),
    ensures
        reverse ==> target <= playhead <= target + lookahead,
        !reverse ==> playhead <= target <= playhead + lookahead,
        !reverse && frame_count > 0 ==> target < frame_count,
{
}

/// The backfill threads share the frames out: each frame falls to one of them, and to no
/// other.
pub proof fn lemma_backfill_shares(worker: int, workers: int, frame: int)
    requires
        0 <= worker < workers,
        0 <= frame,
    ensures
        falls_to(worker, workers, frame) <==> worker == frame % workers,
        0 <= frame % workers < workers,
{
    vstd::arithmetic::div_mod::lemma_fundamental_div_mod(frame, workers);
    let q = frame / workers;
    let r = frame % workers;
    assert(workers * q >= 0) by (nonlinear_arith)
        requires
            0 <= frame == workers * q + r,
            0 <= r < workers,
    ;
    if worker == r {
        vstd::arithmetic::div_mod::lemma_mod_multiples_basic(q, workers);
        assert(q * workers == workers * q) by (nonlinear_arith);
    }
    if falls_to(worker, workers, frame) {
        let p = (frame - worker) / workers;
        vstd::arithmetic::div_mod::lemma_fundamental_div_mod(frame - worker, workers);
        assert(workers * p == p * workers && workers * q == q * workers) by (nonlinear_arith);
        crate::grid::lemma_digits(workers, p, worker, q, r);
    }
}

/// The order of a sequence is settled by its files: two lists of the same paths that are both in
/// order are the same.
pub proof fn lemma_order_is_settled(a: Seq<Seq<char>>, b: Seq<Seq<char>>)
    requires
        a.to_multiset() == b.to_multiset(),
        in_order(a),
        in_order(b),
    ensures
        a == b,
{
    let leq = |x: Seq<char>, y: Seq<char>| !text_before(y, x);
    assert forall|x: Seq<char>, y: Seq<char>, z: Seq<char>| #[trigger]
        leq(x, y) && #[trigger] leq(y, z) implies leq(x, z) by {
        lemma_text_total(x, y);
        lemma_text_total(y, z);
        if text_before(z, x) {
            if text_before(x, y) {
                lemma_text_transitive(z, x, y);
            }
        }
    }
    assert forall|x: Seq<char>, y: Seq<char>| #[trigger]
        leq(x, y) && #[trigger] leq(y, x) implies x == y by {
        lemma_text_total(x, y);
    }
    assert forall|x: Seq<char>, y: Seq<char>| #[trigger] leq(x, y) || #[trigger] leq(
        y,
        x,
    ) by {
        lemma_text_total(x, y);
    }
    assert forall|x: Seq<char>| #[trigger] leq(x, x) by {
        lemma_text_total(x, x);
    }
    assert(vstd::relations::sorted_by(a, leq));
    assert(vstd::relations::sorted_by(b, leq));
    vstd::seq_lib::lemma_sorted_unique(a, b, leq);
}

/// A file name has the extension where something stands before `.exr` and nothing behind it.
pub proof fn lemma_exr_names(stem: Seq<char>, name: Seq<char>)
    ensures
        is_exr_name(stem + seq!['.', 'e', 'x', 'r']) <==> stem.len() > 0,
        is_exr_name(name) <==> name.len() >= 5 && name[name.len() - 4] == '.' && name[name.len()
            - 3] == 'e' && name[name.len() - 2] == 'x' && name[name.len() - 1] == 'r',
{
    let ext = seq!['.', 'e', 'x', 'r'];
    let joined = stem + ext;
    assert(joined.skip(joined.len() - 4) =~= ext);
    if name.len() > 4 {
        let tail = name.skip(name.len() - 4);
        assert(tail[0] == name[name.len() - 4] && tail[1] == name[name.len() - 3] && tail[2]
            == name[name.len() - 2] && tail[3] == name[name.len() - 1]);
        assert(ext[0] == '.' && ext[1] == 'e' && ext[2] == 'x' && ext[3] == 'r');
        if tail[0] == '.' && tail[1] == 'e' && tail[2] == 'x' && tail[3] == 'r' {
            assert(tail =~= ext);
        }
    }
}

/// The frames of a directory are picked entry by entry: those of two stretches of entries are
/// those of the first followed by those of the second, and a single entry is a frame where its
/// name and its path are Unicode and its name ends with `.exr` and does not start with it.
pub proof fn lemma_frames_join(a: Seq<DirItem>, b: Seq<DirItem>, item: DirItem)
    ensures
        frames_among(Seq::<DirItem>::empty()) == Seq::<Seq<char>>::empty(),
        frames_among(a + b) == frames_among(a) + frames_among(b),
        frames_among(seq![item]) == (match (item.name, item.path) {
            (Some(name), Some(path)) => {
                let n = name@.len() as int;
                if n > 4 && name@[n - 4] == '.' && name@[n - 3] == 'e' && name@[n - 2] == 'x'
                    && name@[n - 1] == 'r' {
                    seq![path@]
                } else {
                    Seq::empty()
                }
            },
            _ => Seq::empty(),
        }),
    decreases b.len(),
{
    reveal_with_fuel(frames_among, 2);
    assert(seq![item].drop_last() =~= Seq::<DirItem>::empty());
    assert(seq![item].last() == item);
    if item.name is Some {
        lemma_exr_names(Seq::empty(), item.name->0@);
    }
    if is_frame(item) {
        assert(frames_among(seq![item]) =~= seq![item.path->0@]);
    }
    if b.len() == 0 {
        assert(a + b =~= a);
        assert(frames_among(a) + frames_among(b) =~= frames_among(a));
    } else {
        assert((a + b).drop_last() =~= a + b.drop_last());
        assert((a + b).last() == b.last());
        lemma_frames_join(a, b.drop_last(), item);
        if is_frame(b.last()) {
            assert(frames_among(a + b) =~= frames_among(a) + frames_among(b.drop_last()).push(
                b.last().path->0@,
            ));
        }
    }
}

/// The texts of strings are theirs, one by one.
pub proof fn lemma_texts(strings: Seq<String>)
    ensures
        texts(strings).len() == strings.len(),
        forall|i: int| 0 <= i < strings.len() ==> #[trigger] texts(strings)[i] == strings[i]@,
{
}

/// Texts are ordered as in a dictionary by their characters: where two texts agree up to a
/// character, the one with the smaller character there comes first, and a text comes before what
/// it is the beginning of.
pub proof fn lemma_text_order(
    common: Seq<char>,
    x: char,
    y: char,
    a: Seq<char>,
    b: Seq<char>,
)
    ensures
        x < y ==> text_before(common.push(x) + a, common.push(y) + b) && !text_before(
            common.push(y) + b,
            common.push(x) + a,
        ),
        text_before(common, common.push(y) + b),
        !text_before(common.push(y) + b, common),
{
    let k = common.len() as int;
    let small = common.push(x) + a;
    let large = common.push(y) + b;
    assert(small.take(k) =~= common);
    assert(large.take(k) =~= common);
    assert(common.take(k) =~= common);
    assert(small[k] == x && large[k] == y);
    if x < y {
        assert(small.take(k) == large.take(k));
        lemma_text_total(small, large);
    }
    assert(common.take(k) == large.take(k));
    lemma_text_total(common, large);
}

/// In an ordered list an earlier text comes before a later one, or is the same.
pub proof fn lemma_list_order(list: Seq<Seq<char>>, i: int, j: int)
    requires
        in_order(list),
        0 <= i < j < list.len(),
    ensures
        list[i] == list[j] || text_before(list[i], list[j]),
{
    lemma_text_total(list[i], list[j]);
    assert(!text_before(list[j], list[i]));
}

/// What is loaded next while playback runs forwards: the first frame from the playhead on, within
/// the lookahead and the sequence, that is neither decoded nor under way. Nothing is loaded only
/// where there is no such frame.
pub proof fn lemma_target_forwards(
    cache: RollingCache,
    playhead: u64,
    lookahead: u64,
    frame_count: usize,
    target: Option<u64>,
)
    requires
        is_target(&cache, playhead, lookahead, frame_count, false, target),
    ensures
        target matches Some(t) ==> {
            &&& playhead <= t <= playhead + lookahead
            &&& t < frame_count || (frame_count == 0 && t == 0)
            &&& !cache.frames().contains_key(t) && !cache.pending().contains(t)
            &&& forall|f: u64|
                playhead <= f < t ==> cache.frames().contains_key(f)
                    || #[trigger] cache.pending().contains(f)
        },
        target is None ==> forall|f: u64|
            playhead <= f <= playhead + lookahead && f < frame_count
                ==> cache.frames().contains_key(f) || #[trigger] cache.pending().contains(f),
        target is None && playhead == 0 ==> cache.frames().contains_key(0)
            || cache.pending().contains(0),
{
    if target is None {
        if playhead == 0 {
            assert(cache.holds(0));
        }
        assert forall|f: u64|
            playhead <= f <= playhead + lookahead && f < frame_count implies cache.frames().contains_key(
            f) || #[trigger] cache.pending().contains(f) by {
            assert(cache.holds(f));
        }
    } else {
        let t = target->0;
        assert forall|f: u64| playhead <= f < t implies cache.frames().contains_key(f)
            || #[trigger] cache.pending().contains(f) by {
            assert(cache.holds(f));
        }
    }
}

/// What is loaded next while playback runs backwards: the first frame from the playhead back,
/// within the lookahead, that is neither decoded nor under way. Nothing is loaded only where there
/// is no such frame.
pub proof fn lemma_target_backwards(
    cache: RollingCache,
    playhead: u64,
    lookahead: u64,
    frame_count: usize,
    target: Option<u64>,
)
    requires
        is_target(&cache, playhead, lookahead, frame_count, true, target),
    ensures
        target matches Some(t) ==> {
            &&& t <= playhead <= t + lookahead
            &&& !cache.frames().contains_key(t) && !cache.pending().contains(t)
            &&& forall|f: u64|
                t < f <= playhead ==> cache.frames().contains_key(f)
                    || #[trigger] cache.pending().contains(f)
        },
        target is None ==> forall|f: u64|
            f <= playhead <= f + lookahead ==> cache.frames().contains_key(f)
                || #[trigger] cache.pending().contains(f),
{
    if target is None {
        assert forall|f: u64| f <= playhead <= f + lookahead implies cache.frames().contains_key(f)
            || #[trigger] cache.pending().contains(f) by {
            assert(cache.holds(f));
        }
    } else {
        let t = target->0;
        assert forall|f: u64| t < f <= playhead implies cache.frames().contains_key(f)
            || #[trigger] cache.pending().contains(f) by {
            assert(cache.holds(f));
        }
    }
}

/// Two threads fill in thumbnails; up to twelve load frames, and four where the machine does not
/// tell.
pub proof fn lemma_thread_limits()
    ensures
        BACKFILL_WORKERS == 2,
        MAX_WORKERS == 12,
        DEFAULT_WORKERS == 4,
{
}

}
