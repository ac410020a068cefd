//! Image store shared by the Sixel and Kitty graphics protocols.
//!
//! The registry keys images by ID and bounds both their number and the
//! bytes of pixel data they hold; when a limit would be exceeded, the images
//! with the lowest IDs (the oldest) are evicted first.

use std::collections::HashMap;
use vstd::prelude::*;

verus! {

broadcast use vstd::std_specs::hash::group_hash_axioms;

/// Animation state for animated images
#[derive(Debug, Clone, Copy, PartialEq, Eq)]
pub enum AnimationState {
    Stopped,
    Loading,
    Running,
}

impl Default for AnimationState {
    fn default() -> (r: Self)
        ensures
            r == AnimationState::Stopped,
    {
        AnimationState::Stopped
    }
}

/// Single animation frame
#[derive(Debug, Clone)]
pub struct ImageFrame {
    /// Frame number (1-based)
    pub number: u32,
    /// Frame width (can be smaller than image)
    pub width: u32,
    /// Frame height
    pub height: u32,
    /// X offset within image
    pub x: u32,
    /// Y offset within image
    pub y: u32,
    /// Gap to next frame (milliseconds)
    pub gap: u32,
    /// Frame data (RGBA)
    pub data: Vec<u8>,
}

/// Generic image data (shared by Sixel, Kitty)
#[derive(Debug)]
pub struct TerminalImage {
    pub id: u32,
    pub width: u32,
    pub height: u32,
    /// RGBA - root frame (frame 1)
    pub data: Vec<u8>,
    /// Additional frames for animation (frame 2+)
    pub frames: Vec<ImageFrame>,
    /// Animation state
    pub animation_state: AnimationState,
    /// Current frame index (0 = root frame)
    pub current_frame: u32,
    /// Loop count (0 = infinite)
    pub loop_count: u32,
    /// Current loop iteration
    pub current_loop: u32,
}

/// Maximum total image memory (512MB)
pub const MAX_TOTAL_IMAGE_BYTES: usize = 536870912;

/// Maximum number of images in registry
pub const MAX_IMAGE_COUNT: usize = 256;

/// Bytes held by the first `n` frames.
pub open spec fn frames_bytes(frames: Seq<ImageFrame>, n: int) -> nat
    decreases n,
{
    if n <= 0 {
        0
    } else {
        frames_bytes(frames, n - 1) + frames[n - 1].data@.len()
    }
}

/// Bytes of pixel data an image holds: its root frame and every extra frame.
pub open spec fn image_size(image: TerminalImage) -> nat {
    image.data@.len() + frames_bytes(image.frames@, image.frames@.len() as int)
}

/// Calculate memory usage of a TerminalImage
pub fn image_byte_size(image: &TerminalImage) -> (r: usize)
    requires
        image_size(*image) <= usize::MAX,
    ensures
        r == image_size(*image),
{
    let mut total: usize = image.data.len();
    let mut i: usize = 0;
    while i < image.frames.len()
        invariant
            0 <= i <= image.frames.len(),
            image_size(*image) <= usize::MAX,
            total == image.data@.len() + frames_bytes(image.frames@, i as int),
        decreases image.frames.len() - i,
    {
        proof {
            lemma_frames_bytes_monotonic(image.frames@, i + 1, image.frames@.len() as int);
        }
        total = total + image.frames[i].data.len();
        i = i + 1;
    }
    total
}

proof fn lemma_frames_bytes_monotonic(frames: Seq<ImageFrame>, a: int, b: int)
    requires
        a <= b,
    ensures
        frames_bytes(frames, a) <= frames_bytes(frames, b),
    decreases b - a,
{
    if a < b {
        lemma_frames_bytes_monotonic(frames, a, b - 1);
    }
}

/// Total bytes of all images of a map.
pub open spec fn map_bytes(m: Map<u32, TerminalImage>) -> nat
    decreases m.dom().len(),
    when m.dom().finite()
{
    if m.dom().len() == 0 {
        0
    } else {
        let k = m.dom().choose();
        image_size(m[k]) + map_bytes(m.remove(k))
    }
}

/// The lowest ID present in a map.
pub open spec fn is_min_key(m: Map<u32, TerminalImage>, k: u32) -> bool {
    m.contains_key(k) && forall|j: u32| #[trigger] m.contains_key(j) ==> k <= j
}

/// Image registry (manages Sixel, Kitty, etc. images)
pub struct ImageRegistry {
    /// Image map (ID -> TerminalImage)
    images: HashMap<u32, TerminalImage>,
    /// Next ID to assign
    pub next_id: u32,
    /// Total tracked image memory in bytes
    total_bytes: usize,
}

/// The lowest key of a map of images, if any.
fn oldest_id(m: &HashMap<u32, TerminalImage>) -> (r: Option<u32>)
    ensures
        r is None <==> m@.dom().len() == 0,
        r matches Some(k) ==> is_min_key(m@, k),
{
    let mut best: Option<u32> = None;
    let ghost mut seen: Set<u32> = Set::empty();
    for k in it: m.keys()
        invariant
            it.seq().unref().to_set() == m@.dom(),
            it.seq().len() == m@.dom().len(),
            seen == Set::new(|j: u32| exists|i: int| 0 <= i < it.index() && *it.seq()[i] == j),
            it.index() == it.seq().len() ==> seen == m@.dom(),
            best is None <==> it.index() == 0,
            best matches Some(b) ==> seen.contains(b) && (forall|j: u32|
                #[trigger] seen.contains(j) ==> b <= j),
    {
        let ghost idx = it.index();
        let ghost old_seen = seen;
        match best {
            None => {
                best = Some(*k);
            },
            Some(b) => {
                if *k < b {
                    best = Some(*k);
                }
            },
        }
        proof {
            seen = seen.insert(*k);
            assert(*it.seq()[idx] == *k);
            assert forall|j: u32|
                #![trigger seen.contains(j)]
                (exists|i: int| 0 <= i < idx + 1 && *it.seq()[i] == j) implies seen.contains(j) by {
                let i = choose|i: int| 0 <= i < idx + 1 && *it.seq()[i] == j;
                if i < idx {
                    assert(old_seen.contains(j));
                }
            }
            assert forall|j: u32|
                #![trigger seen.contains(j)]
                seen.contains(j) implies (exists|i: int| 0 <= i < idx + 1 && *it.seq()[i] == j) by {
                if j != *k {
                    assert(old_seen.contains(j));
                    let i = choose|i: int| 0 <= i < idx && *it.seq()[i] == j;
                    assert(0 <= i < idx + 1 && *it.seq()[i] == j);
                } else {
                    assert(*it.seq()[idx] == j);
                }
            }
            assert(seen =~= Set::new(
                |j: u32| exists|i: int| 0 <= i < idx + 1 && *it.seq()[i] == j,
            ));
            assert forall|j: u32|
                idx + 1 == it.seq().len() && #[trigger] m@.dom().contains(j) implies seen.contains(
                j,
            ) by {
                assert(it.seq().unref().to_set().contains(j));
                let t = choose|t: int|
                    0 <= t < it.seq().unref().len() && it.seq().unref()[t] == j;
                assert(*it.seq()[t] == j);
            }
            assert forall|j: u32|
                idx + 1 == it.seq().len() && #[trigger] seen.contains(j) implies m@.dom().contains(
                j,
            ) by {
                let i = choose|i: int| 0 <= i < idx + 1 && *it.seq()[i] == j;
                assert(it.seq().unref()[i] == j);
                assert(it.seq().unref().to_set().contains(j));
            }
            assert(idx + 1 == it.seq().len() ==> seen =~= m@.dom());
        }
    }
    proof {
        if m@.dom().len() == 0 {
            assert(m@.dom() =~= Set::empty());
        }
    }
    best
}

/// Summing the images of a map may start from any of its keys.
pub proof fn lemma_map_bytes_remove(m: Map<u32, TerminalImage>, k: u32)
    requires
        m.dom().finite(),
        m.contains_key(k),
    ensures
        map_bytes(m) == image_size(m[k]) + map_bytes(m.remove(k)),
    decreases m.dom().len(),
{
    let c = m.dom().choose();
    assert(m.dom().contains(c));
    if c != k {
        let mc = m.remove(c);
        let mk = m.remove(k);
        assert(mc.dom().len() < m.dom().len());
        lemma_map_bytes_remove(mc, k);
        lemma_map_bytes_remove(mk, c);
        assert(mc.remove(k) =~= mk.remove(c));
    }
}

/// Adding an image under a new key adds its size to the total.
pub proof fn lemma_map_bytes_insert(m: Map<u32, TerminalImage>, k: u32, v: TerminalImage)
    requires
        m.dom().finite(),
        !m.contains_key(k),
    ensures
        map_bytes(m.insert(k, v)) == image_size(v) + map_bytes(m),
{
    lemma_map_bytes_remove(m.insert(k, v), k);
    assert(m.insert(k, v).remove(k) =~= m);
}

/// Replacing the image under a key changes the total by the difference of sizes.
pub proof fn lemma_map_bytes_replace(m: Map<u32, TerminalImage>, k: u32, v: TerminalImage)
    requires
        m.dom().finite(),
        m.contains_key(k),
    ensures
        map_bytes(m.insert(k, v)) + image_size(m[k]) == map_bytes(m) + image_size(v),
{
    lemma_map_bytes_remove(m, k);
    lemma_map_bytes_remove(m.insert(k, v), k);
    assert(m.insert(k, v).remove(k) =~= m.remove(k));
}

/// An empty map holds no bytes.
pub proof fn lemma_map_bytes_empty(m: Map<u32, TerminalImage>)
    requires
        m.dom().finite(),
        m.dom().len() == 0,
    ensures
        map_bytes(m) == 0,
{
}

/// A single image is no larger than the total of the map holding it.
pub proof fn lemma_image_within_total(m: Map<u32, TerminalImage>, k: u32)
    requires
        m.dom().finite(),
        m.contains_key(k),
    ensures
        image_size(m[k]) <= map_bytes(m),
{
    lemma_map_bytes_remove(m, k);
}

/// Eviction of the oldest images: while the map is not empty and holds more
/// than `max_count` images or more than `max_bytes` bytes (as tracked by
/// `total`), the image with the lowest ID is removed and its size taken off
/// the tracked total (stopping at zero).
pub open spec fn evict_oldest(
    m: Map<u32, TerminalImage>,
    total: int,
    max_count: int,
    max_bytes: int,
) -> (Map<u32, TerminalImage>, int)
    decreases m.dom().len(),
    when m.dom().finite()
{
    if m.dom().len() > 0 && (m.dom().len() > max_count || total > max_bytes) {
        let k = choose|k: u32| is_min_key(m, k);
        let size = image_size(m[k]) as int;
        proof {
            lemma_min_key_exists(m);
        }
        evict_oldest(
            m.remove(k),
            if total > size { total - size } else { 0 },
            max_count,
            max_bytes,
        )
    } else {
        (m, total)
    }
}

/// A finite non-empty map of images has a lowest key.
pub proof fn lemma_min_key_exists(m: Map<u32, TerminalImage>)
    requires
        m.dom().finite(),
        m.dom().len() > 0,
    ensures
        exists|k: u32| is_min_key(m, k),
    decreases m.dom().len(),
{
    let c = m.dom().choose();
    assert(m.contains_key(c));
    let rest = m.remove(c);
    if rest.dom().len() == 0 {
        assert forall|j: u32| #[trigger] m.contains_key(j) implies c <= j by {
            if j != c {
                assert(rest.contains_key(j));
            }
        }
        assert(is_min_key(m, c));
    } else {
        lemma_min_key_exists(rest);
        let r = choose|k: u32| is_min_key(rest, k);
        if c < r {
            assert forall|j: u32| #[trigger] m.contains_key(j) implies c <= j by {
                if j != c {
                    assert(rest.contains_key(j));
                }
            }
            assert(is_min_key(m, c));
        } else {
            assert forall|j: u32| #[trigger] m.contains_key(j) implies r <= j by {
                if j != c {
                    assert(rest.contains_key(j));
                }
            }
            assert(is_min_key(m, r));
        }
    }
}

/// Evicting keeps a subset of the map, never leaves it holding more than
/// `max_count` images (for a non-negative limit), and removes only images
/// older than every image it keeps.
pub proof fn lemma_evict_oldest_properties(
    m: Map<u32, TerminalImage>,
    total: int,
    max_count: int,
    max_bytes: int,
)
    requires
        m.dom().finite(),
        max_count >= 0,
    ensures
        ({
            let (r, t) = evict_oldest(m, total, max_count, max_bytes);
            &&& r.dom().finite()
            &&& r.dom().len() <= max_count || (r.dom().len() <= m.dom().len() && r.dom().len()
                == 0)
            &&& r.dom().len() <= m.dom().len()
            &&& forall|k: u32| #[trigger] r.contains_key(k) ==> m.contains_key(k) && r[k] == m[k]
            &&& forall|k: u32, j: u32|
                #![trigger m.contains_key(k), r.contains_key(j)]
                m.contains_key(k) && !r.contains_key(k) && r.contains_key(j) ==> k < j
            &&& (r.dom().len() == 0 || (r.dom().len() <= max_count && t <= max_bytes))
            &&& (total == map_bytes(m) ==> t == map_bytes(r))
        }),
    decreases m.dom().len(),
{
    if m.dom().len() > 0 && (m.dom().len() > max_count || total > max_bytes) {
        lemma_min_key_exists(m);
        let k = choose|k: u32| is_min_key(m, k);
        let size = image_size(m[k]) as int;
        let nt = if total > size { total - size } else { 0 };
        let rest = m.remove(k);
        lemma_evict_oldest_properties(rest, nt, max_count, max_bytes);
        lemma_map_bytes_remove(m, k);
        let (r, t) = evict_oldest(rest, nt, max_count, max_bytes);
        assert forall|a: u32, j: u32|
            #![trigger m.contains_key(a), r.contains_key(j)]
            m.contains_key(a) && !r.contains_key(a) && r.contains_key(j) implies a < j by {
            if a == k {
                assert(rest.contains_key(j));
                assert(k <= j);
                assert(j != k);
            } else {
                assert(rest.contains_key(a));
            }
        }
    }
}

/// A map contained in another holds no more bytes.
pub proof fn lemma_map_bytes_submap(m: Map<u32, TerminalImage>, sub: Map<u32, TerminalImage>)
    requires
        m.dom().finite(),
        sub.submap_of(m),
    ensures
        map_bytes(sub) <= map_bytes(m),
    decreases m.dom().len(),
{
    assert(sub.dom().subset_of(m.dom()));
    vstd::set_lib::lemma_len_subset(sub.dom(), m.dom());
    if m.dom() =~= sub.dom() {
        assert(m =~= sub);
    } else {
        let k = choose|k: u32| m.contains_key(k) && !sub.contains_key(k);
        lemma_map_bytes_remove(m, k);
        assert(sub.submap_of(m.remove(k)));
        lemma_map_bytes_submap(m.remove(k), sub);
    }
}

/// A mutable reference to the image stored under `id`, if there is one.
///
/// Wraps `HashMap::get_mut`, which returns a reference to the value stored
/// under the key; writes through it replace that value and nothing else.
#[verifier::external_body]
fn image_slot(m: &mut HashMap<u32, TerminalImage>, id: u32) -> (r: Option<&mut TerminalImage>)
    ensures
        r.is_some() == old(m)@.contains_key(id),
        r.is_some() ==> *r.unwrap() == old(m)@[id] && final(m)@ == old(m)@.insert(
            id,
            *final(r.unwrap()),
        ),
        r.is_none() ==> final(m)@ == old(m)@,
{
    m.get_mut(&id)
}

impl View for ImageRegistry {
    type V = Map<u32, TerminalImage>;

    closed spec fn view(&self) -> Map<u32, TerminalImage> {
        self.images@
    }
}

impl ImageRegistry {
    /// Bytes of image data the registry has accounted for.
    pub closed spec fn tracked_bytes(&self) -> int {
        self.total_bytes as int
    }

    /// The ID the registry assigns next.
    pub closed spec fn next_id_value(&self) -> u32 {
        self.next_id
    }

    /// The accounted bytes are the bytes the stored images hold.
    pub open spec fn wf(&self) -> bool {
        self.tracked_bytes() == map_bytes(self@)
    }

    /// The registry holds finitely many images.
    pub proof fn lemma_view_finite(&self)
        ensures
            self@.dom().finite(),
    {
    }

    /// Create a new registry
    pub fn new() -> (r: Self)
        ensures
            r@ == Map::<u32, TerminalImage>::empty(),
            r.next_id_value() == 1,
            r.wf(),
    {
        let r = ImageRegistry { images: HashMap::new(), next_id: 1, total_bytes: 0 };
        proof {
            lemma_map_bytes_empty(r@);
        }
        r
    }

    /// Evicts the oldest images while the registry holds more than
    /// `max_count` images or more than `max_bytes` bytes.
    fn evict_while_over(&mut self, max_count: usize, new_size: usize, strict_bytes: bool)
        requires
            old(self).wf(),
        ensures
            ({
                let max_bytes: int = if strict_bytes {
                    MAX_TOTAL_IMAGE_BYTES as int
                } else {
                    MAX_TOTAL_IMAGE_BYTES as int - new_size as int
                };
                (final(self)@, final(self).tracked_bytes()) == evict_oldest(
                    old(self)@,
                    old(self).tracked_bytes(),
                    max_count as int,
                    max_bytes,
                )
            }),
            final(self).wf(),
            final(self).next_id_value() == old(self).next_id_value(),
    {
        let ghost max_bytes: int = if strict_bytes {
            MAX_TOTAL_IMAGE_BYTES as int
        } else {
            MAX_TOTAL_IMAGE_BYTES as int - new_size as int
        };
        let ghost target = evict_oldest(self@, self.tracked_bytes(), max_count as int, max_bytes);
        loop
            invariant
                self.wf(),
                self.next_id == old(self).next_id_value(),
                self@.dom().finite(),
                evict_oldest(self@, self.tracked_bytes(), max_count as int, max_bytes) == target,
                max_bytes == (if strict_bytes {
                    MAX_TOTAL_IMAGE_BYTES as int
                } else {
                    MAX_TOTAL_IMAGE_BYTES as int - new_size as int
                }),
            ensures
                (self@, self.tracked_bytes()) == target,
                self.wf(),
                self.next_id == old(self).next_id_value(),
            decreases self@.dom().len(),
        {
            let over_bytes = if strict_bytes {
                self.total_bytes > MAX_TOTAL_IMAGE_BYTES
            } else {
                new_size > MAX_TOTAL_IMAGE_BYTES || self.total_bytes > MAX_TOTAL_IMAGE_BYTES
                    - new_size
            };
            if !((self.images.len() > max_count || over_bytes) && !self.images.is_empty()) {
                break ;
            }
            let oldest = oldest_id(&self.images);
            let k = match oldest {
                Some(k) => k,
                None => {
                    break ;
                },
            };
            let ghost before = self@;
            proof {
                let c = choose|c: u32| is_min_key(before, c);
                assert(is_min_key(before, c));
                assert(c == k);
                lemma_map_bytes_remove(before, k);
                lemma_image_within_total(before, k);
            }
            let removed = self.images.remove(&k);
            match removed {
                Some(img) => {
                    let size = image_byte_size(&img);
                    self.total_bytes = self.total_bytes.saturating_sub(size);
                },
                None => {},
            }
        }
    }

    /// Register image and return its ID.
    /// Evicts oldest images (by lowest ID) if count or memory limits are exceeded.
    pub fn insert(&mut self, image: TerminalImage) -> (id: u32)
        requires
            old(self).wf(),
            image_size(image) <= usize::MAX,
        ensures
            id == image.id,
            ({
                let base = old(self)@.remove(id);
                let (kept, _) = evict_oldest(
                    base,
                    map_bytes(base) as int,
                    MAX_IMAGE_COUNT - 1,
                    MAX_TOTAL_IMAGE_BYTES - image_size(image),
                );
                final(self)@ == kept.insert(id, image)
            }),
            final(self).wf(),
            final(self).next_id_value() == (if id >= old(self).next_id_value() {
                vstd::wrapping::u32_specs::wrapping_add(id, 1)
            } else {
                old(self).next_id_value()
            }),
    {
        let id = image.id;
        let new_size = image_byte_size(&image);
        let ghost base = self@.remove(id);
        proof {
            if self@.contains_key(id) {
                lemma_map_bytes_remove(self@, id);
                lemma_image_within_total(self@, id);
            } else {
                assert(base =~= self@);
            }
        }
        let old_image = self.images.remove(&id);
        match old_image {
            Some(old) => {
                let size = image_byte_size(&old);
                self.total_bytes = self.total_bytes.saturating_sub(size);
            },
            None => {},
        }
        assert(self@ == base);
        self.evict_while_over(MAX_IMAGE_COUNT - 1, new_size, false);
        let ghost kept = self@;
        proof {
            lemma_evict_oldest_properties(
                base,
                map_bytes(base) as int,
                MAX_IMAGE_COUNT - 1,
                MAX_TOTAL_IMAGE_BYTES - new_size,
            );
            assert(!kept.contains_key(id));
            lemma_map_bytes_insert(kept, id, image);
            if kept.dom().len() == 0 {
                lemma_map_bytes_empty(kept);
            }
        }
        self.total_bytes = self.total_bytes + new_size;
        self.images.insert(id, image);
        if id >= self.next_id {
            self.next_id = id.wrapping_add(1);
        }
        id
    }

    /// The ID the next image without one of its own receives.
    pub fn next_id(&self) -> (r: u32)
        ensures
            r == self.next_id_value(),
    {
        self.next_id
    }

    /// The bytes of pixel data held, as tracked.
    pub fn total_bytes(&self) -> (r: usize)
        ensures
            r == self.tracked_bytes(),
    {
        self.total_bytes
    }

    /// Get image by ID
    pub fn get(&self, id: u32) -> (r: Option<&TerminalImage>)
        ensures
            r == (if self@.contains_key(id) {
                Some(&self@[id])
            } else {
                None
            }),
    {
        self.images.get(&id)
    }

    /// Get mutable image by ID. After changing the image's data, call
    /// [`ImageRegistry::enforce_limits`] to account for it again.
    pub fn get_mut(&mut self, id: u32) -> (r: Option<&mut TerminalImage>)
        ensures
            r.is_some() == old(self)@.contains_key(id),
            r.is_some() ==> *r.unwrap() == old(self)@[id] && final(self)@ == old(self)@.insert(
                id,
                *final(r.unwrap()),
            ),
            r.is_none() ==> final(self)@ == old(self)@,
            final(self).tracked_bytes() == old(self).tracked_bytes(),
            final(self).next_id_value() == old(self).next_id_value(),
    {
        image_slot(&mut self.images, id)
    }

    /// Recalculate total_bytes and evict oldest images if over limits.
    /// Call after mutating images via get_mut() (e.g. frame add/replace).
    pub fn enforce_limits(&mut self)
        requires
            map_bytes(old(self)@) <= usize::MAX,
        ensures
            (final(self)@, final(self).tracked_bytes()) == evict_oldest(
                old(self)@,
                map_bytes(old(self)@) as int,
                MAX_IMAGE_COUNT as int,
                MAX_TOTAL_IMAGE_BYTES as int,
            ),
            final(self).wf(),
            final(self).next_id_value() == old(self).next_id_value(),
    {
        let mut total: usize = 0;
        let ghost m = self@;
        let ghost mut seen: Set<u32> = Set::empty();
        proof {
            assert(m.restrict(seen).dom() =~= Set::<u32>::empty());
            lemma_map_bytes_empty(m.restrict(seen));
        }
        for k in it: self.images.keys()
            invariant
                m == self@,
                m.dom().finite(),
                map_bytes(m) <= usize::MAX,
                it.seq().unref().to_set() == m.dom(),
                it.seq().unref().no_duplicates(),
                seen == Set::new(|j: u32| exists|i: int| 0 <= i < it.index() && *it.seq()[i] == j),
                total == map_bytes(m.restrict(seen)),
                it.index() == it.seq().len() ==> seen == m.dom(),
                m.restrict(seen).dom().finite(),
        {
            let ghost idx = it.index();
            let ghost old_seen = seen;
            proof {
                assert(it.seq().unref()[idx] == *k);
                assert(m.contains_key(*k)) by {
                    assert(it.seq().unref().to_set().contains(*k));
                }
                assert(!old_seen.contains(*k)) by {
                    if old_seen.contains(*k) {
                        let i = choose|i: int| 0 <= i < idx && *it.seq()[i] == *k;
                        assert(it.seq().unref()[i] == it.seq().unref()[idx]);
                    }
                }
                seen = seen.insert(*k);
                assert(m.restrict(old_seen).dom() =~= m.dom().intersect(old_seen));
                assert(m.restrict(seen).dom() =~= m.dom().intersect(seen));
                assert(m.restrict(seen) =~= m.restrict(old_seen).insert(*k, m[*k]));
                lemma_map_bytes_insert(m.restrict(old_seen), *k, m[*k]);
                assert(m.restrict(seen).submap_of(m));
                lemma_map_bytes_submap(m, m.restrict(seen));
                lemma_image_within_total(m, *k);
                assert forall|j: u32|
                    #![trigger seen.contains(j)]
                    (exists|i: int| 0 <= i < idx + 1 && *it.seq()[i] == j) implies seen.contains(
                    j,
                ) by {
                    let i = choose|i: int| 0 <= i < idx + 1 && *it.seq()[i] == j;
                    if i < idx {
                        assert(old_seen.contains(j));
                    }
                }
                assert forall|j: u32|
                    #![trigger seen.contains(j)]
                    seen.contains(j) implies (exists|i: int| 0 <= i < idx + 1 && *it.seq()[i] == j) by {
                    if j != *k {
                        assert(old_seen.contains(j));
                        let i = choose|i: int| 0 <= i < idx && *it.seq()[i] == j;
                        assert(0 <= i < idx + 1 && *it.seq()[i] == j);
                    } else {
                        assert(*it.seq()[idx] == j);
                    }
                }
                assert(seen =~= Set::new(
                    |j: u32| exists|i: int| 0 <= i < idx + 1 && *it.seq()[i] == j,
                ));
                assert forall|j: u32|
                    idx + 1 == it.seq().len() && #[trigger] m.dom().contains(j) implies seen.contains(
                    j,
                ) by {
                    assert(it.seq().unref().to_set().contains(j));
                    let t = choose|t: int|
                        0 <= t < it.seq().unref().len() && it.seq().unref()[t] == j;
                    assert(*it.seq()[t] == j);
                }
                assert forall|j: u32|
                    idx + 1 == it.seq().len() && #[trigger] seen.contains(j) implies m.dom().contains(
                    j,
                ) by {
                    let i = choose|i: int| 0 <= i < idx + 1 && *it.seq()[i] == j;
                    assert(it.seq().unref()[i] == j);
                    assert(it.seq().unref().to_set().contains(j));
                }
                assert(idx + 1 == it.seq().len() ==> seen =~= m.dom());
            }
            if let Some(image) = self.images.get(k) {
                let size = image_byte_size(image);
                total = total + size;
            }
        }
        proof {
            assert(seen =~= m.dom());
            assert(m.restrict(seen) =~= m);
        }
        self.total_bytes = total;
        self.evict_while_over(MAX_IMAGE_COUNT, 0, true);
    }

    /// Remove image by ID
    pub fn remove(&mut self, id: u32) -> (r: Option<TerminalImage>)
        requires
            old(self).wf(),
        ensures
            final(self)@ == old(self)@.remove(id),
            r == (if old(self)@.contains_key(id) {
                Some(old(self)@[id])
            } else {
                None
            }),
            final(self).wf(),
            final(self).next_id_value() == old(self).next_id_value(),
    {
        proof {
            if self@.contains_key(id) {
                lemma_map_bytes_remove(self@, id);
                lemma_image_within_total(self@, id);
            } else {
                assert(self@.remove(id) =~= self@);
            }
        }
        let removed = self.images.remove(&id);
        match &removed {
            Some(img) => {
                let size = image_byte_size(img);
                self.total_bytes = self.total_bytes.saturating_sub(size);
            },
            None => {},
        }
        removed
    }

    /// Remove all images
    pub fn clear(&mut self)
        ensures
            final(self)@ == Map::<u32, TerminalImage>::empty(),
            final(self).wf(),
            final(self).next_id_value() == old(self).next_id_value(),
    {
        self.images.clear();
        self.total_bytes = 0;
        proof {
            lemma_map_bytes_empty(self@);
        }
    }

    /// Check if image exists by ID
    pub fn contains(&self, id: u32) -> (r: bool)
        ensures
            r == self@.contains_key(id),
    {
        self.images.contains_key(&id)
    }
}

impl Default for ImageRegistry {
    fn default() -> (r: Self)
        ensures
            r@ == Map::<u32, TerminalImage>::empty(),
            r.next_id_value() == 1,
            r.wf(),
    {
        Self::new()
    }
}

/// After an insertion the registry holds at most `MAX_IMAGE_COUNT` images,
/// the inserted one among them under its ID, keeps only images it held
/// before, and has evicted only images older than every other one it kept.
pub proof fn lemma_insert_keeps_limits(
    before: Map<u32, TerminalImage>,
    after: Map<u32, TerminalImage>,
    image: TerminalImage,
)
    requires
        before.dom().finite(),
        ({
            let base = before.remove(image.id);
            let (kept, _) = evict_oldest(
                base,
                map_bytes(base) as int,
                MAX_IMAGE_COUNT - 1,
                MAX_TOTAL_IMAGE_BYTES - image_size(image),
            );
            after == kept.insert(image.id, image)
        }),
    ensures
        after.dom().len() <= MAX_IMAGE_COUNT,
        after.contains_key(image.id) && after[image.id] == image,
        forall|k: u32| #[trigger] after.contains_key(k) && k != image.id ==> before.contains_key(k)
            && after[k] == before[k],
        forall|k: u32, j: u32|
            #![trigger before.contains_key(k), after.contains_key(j)]
            k != image.id && j != image.id && before.contains_key(k) && !after.contains_key(k)
                && after.contains_key(j) ==> k < j,
        map_bytes(after) <= MAX_TOTAL_IMAGE_BYTES || after.dom().len() == 1,
{
    let base = before.remove(image.id);
    let max_bytes = MAX_TOTAL_IMAGE_BYTES - image_size(image);
    lemma_evict_oldest_properties(base, map_bytes(base) as int, MAX_IMAGE_COUNT - 1, max_bytes);
    let (kept, t) = evict_oldest(base, map_bytes(base) as int, MAX_IMAGE_COUNT - 1, max_bytes);
    assert(!kept.contains_key(image.id));
    lemma_map_bytes_insert(kept, image.id, image);
    if kept.dom().len() == 0 {
        assert(after.dom() =~= set![image.id]);
    }
    assert forall|k: u32, j: u32|
        #![trigger before.contains_key(k), after.contains_key(j)]
        k != image.id && j != image.id && before.contains_key(k) && !after.contains_key(k)
            && after.contains_key(j) implies k < j by {
        assert(base.contains_key(k));
        assert(kept.contains_key(j));
    }
}

} // verus!
