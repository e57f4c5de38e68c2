use vstd::prelude::*;

verus! {

/// Indices of the queue families that the renderer uses for graphics work
/// and for presentation.
#[derive(Debug, Clone, Copy)]
pub struct QueueFamilyIndices {
    pub graphics_family: Option<u32>,
    pub present_family: Option<u32>,
}

/// What a physical device reports of one of its queue families: whether it
/// supports graphics work, and whether it can present to the target surface.
#[derive(Debug, Clone, Copy)]
pub struct QueueFamilySupport {
    pub graphics: bool,
    pub present: bool,
}

impl QueueFamilyIndices {
    /// Both a graphics family and a present family are known.
    pub open spec fn spec_is_complete(self) -> bool {
        self.graphics_family is Some && self.present_family is Some
    }

    /// Indices with neither family chosen.
    pub fn empty() -> (r: QueueFamilyIndices)
        ensures
            r.graphics_family is None,
            r.present_family is None,
    {
        QueueFamilyIndices { graphics_family: None, present_family: None }
    }

    /// Whether both a graphics family and a present family have been found.
    pub fn is_complete(&self) -> (r: bool)
        ensures
            r == self.spec_is_complete(),
    {
        self.graphics_family.is_some() && self.present_family.is_some()
    }
}

impl Default for QueueFamilyIndices {
    fn default() -> (r: QueueFamilyIndices)
        ensures
            r.graphics_family is None,
            r.present_family is None,
    {
        QueueFamilyIndices::empty()
    }
}

/// One step of the family scan: family `i` overrides the graphics (present)
/// choice when it supports graphics (presentation).
pub open spec fn observe_family(
    indices: QueueFamilyIndices,
    i: int,
    family: QueueFamilySupport,
) -> QueueFamilyIndices {
    QueueFamilyIndices {
        graphics_family: if family.graphics {
            Some(i as u32)
        } else {
            indices.graphics_family
        },
        present_family: if family.present {
            Some(i as u32)
        } else {
            indices.present_family
        },
    }
}

/// The indices found by scanning `families` in order, stopping right after
/// the first family at which both a graphics and a present family are known.
pub open spec fn scan_families(families: Seq<QueueFamilySupport>) -> QueueFamilyIndices
    decreases families.len(),
{
    if families.len() == 0 {
        QueueFamilyIndices { graphics_family: None, present_family: None }
    } else {
        let before = scan_families(families.drop_last());
        if before.spec_is_complete() {
            before
        } else {
            observe_family(before, families.len() - 1, families.last())
        }
    }
}

/// Some family in `families` supports graphics work.
pub open spec fn has_graphics_family(families: Seq<QueueFamilySupport>) -> bool {
    exists|i: int| 0 <= i < families.len() && (#[trigger] families[i]).graphics
}

/// Some family in `families` can present to the surface.
pub open spec fn has_present_family(families: Seq<QueueFamilySupport>) -> bool {
    exists|i: int| 0 <= i < families.len() && (#[trigger] families[i]).present
}

/// Chooses a graphics family and a present family among the device's queue
/// families, scanning them in order and stopping as soon as both are known.
pub fn find_queue_families(families: &Vec<QueueFamilySupport>) -> (r: QueueFamilyIndices)
    requires
        families.len() <= u32::MAX,
    ensures
        r == scan_families(families@),
        r.graphics_family matches Some(g) ==> g < families@.len() && families@[g as int].graphics
            && !both_found_before(families@, g as int),
        r.present_family matches Some(p) ==> p < families@.len() && families@[p as int].present
            && !both_found_before(families@, p as int),
        forall|k: int|
            0 <= k < families@.len() && (#[trigger] families@[k]).graphics && !both_found_before(
                families@,
                k,
            ) ==> (r.graphics_family is Some && k <= r.graphics_family->0),
        forall|k: int|
            0 <= k < families@.len() && (#[trigger] families@[k]).present && !both_found_before(
                families@,
                k,
            ) ==> (r.present_family is Some && k <= r.present_family->0),
        r.graphics_family is Some && r.present_family is Some <==> has_graphics_family(families@)
            && has_present_family(families@),
{
    proof {
        lemma_scan_keeps_latest(families@);
        lemma_scan_families_correct(families@);
    }
    let mut indices = QueueFamilyIndices::empty();
    let mut i: usize = 0;
    while i < families.len()
        invariant
            i <= families.len() <= u32::MAX,
            indices == scan_families(families@.take(i as int)),
            !indices.spec_is_complete(),
        decreases families.len() - i,
    {
        let family = families[i];
        proof {
            assert(families@.take(i + 1).drop_last() =~= families@.take(i as int));
        }
        if family.graphics {
            indices.graphics_family = Some(i as u32);
        }
        if family.present {
            indices.present_family = Some(i as u32);
        }
        i = i + 1;
        assert(indices == scan_families(families@.take(i as int)));
        if indices.is_complete() {
            proof {
                lemma_scan_stops(families@, i as int);
                lemma_scan_keeps_latest(families@);
                lemma_scan_families_correct(families@);
            }
            return indices;
        }
    }
    proof {
        assert(families@.take(i as int) =~= families@);
    }
    indices
}

/// Once the scan of a prefix is complete, no later family changes it.
pub proof fn lemma_scan_stops(families: Seq<QueueFamilySupport>, n: int)
    requires
        0 <= n <= families.len(),
        scan_families(families.take(n)).spec_is_complete(),
    ensures
        scan_families(families) == scan_families(families.take(n)),
    decreases families.len() - n,
{
    if n < families.len() {
        assert(families.take(n + 1).drop_last() =~= families.take(n));
        lemma_scan_stops(families, n + 1);
    } else {
        assert(families.take(n) =~= families);
    }
}

/// Among the first `n` families, one supports graphics and one supports
/// presentation, so a scan would have stopped before family `n`.
pub open spec fn both_found_before(families: Seq<QueueFamilySupport>, n: int) -> bool {
    &&& exists|i: int| 0 <= i < n && i < families.len() && (#[trigger] families[i]).graphics
    &&& exists|j: int| 0 <= j < n && j < families.len() && (#[trigger] families[j]).present
}

/// Every family the scan reaches overrides the choice for each capability it
/// has: the chosen graphics (present) family is the last graphics-capable
/// (present-capable) family before the scan stops, and the scan stops right
/// after the first family at which both capabilities have been seen.
pub proof fn lemma_scan_keeps_latest(families: Seq<QueueFamilySupport>)
    requires
        families.len() <= u32::MAX,
    ensures
        scan_families(families).graphics_family matches Some(g) ==> g < families.len()
            && families[g as int].graphics && !both_found_before(families, g as int),
        scan_families(families).present_family matches Some(p) ==> p < families.len()
            && families[p as int].present && !both_found_before(families, p as int),
        forall|k: int|
            0 <= k < families.len() && (#[trigger] families[k]).graphics && !both_found_before(
                families,
                k,
            ) ==> (scan_families(families).graphics_family is Some && k <= scan_families(families).graphics_family->0),
        forall|k: int|
            0 <= k < families.len() && (#[trigger] families[k]).present && !both_found_before(
                families,
                k,
            ) ==> (scan_families(families).present_family is Some && k <= scan_families(families).present_family->0),
    decreases families.len(),
{
    if families.len() > 0 {
        let prefix = families.drop_last();
        let n = prefix.len() as int;
        lemma_scan_keeps_latest(prefix);
        lemma_scan_families_correct(prefix);
        assert forall|i: int| 0 <= i < n implies prefix[i] == families[i] by {}
        assert forall|k: int| 0 <= k <= n implies both_found_before(prefix, k) == both_found_before(
            families,
            k,
        ) by {
            if both_found_before(families, k) {
                let gi = choose|i: int| 0 <= i < k && i < families.len() && (#[trigger] families[i]).graphics;
                let pj = choose|j: int| 0 <= j < k && j < families.len() && (#[trigger] families[j]).present;
                assert(prefix[gi].graphics);
                assert(prefix[pj].present);
            }
            if both_found_before(prefix, k) {
                let gi = choose|i: int| 0 <= i < k && i < prefix.len() && (#[trigger] prefix[i]).graphics;
                let pj = choose|j: int| 0 <= j < k && j < prefix.len() && (#[trigger] prefix[j]).present;
                assert(families[gi].graphics);
                assert(families[pj].present);
            }
        }
        if scan_families(prefix).spec_is_complete() {
            let gi = choose|i: int| 0 <= i < prefix.len() && (#[trigger] prefix[i]).graphics;
            let pj = choose|j: int| 0 <= j < prefix.len() && (#[trigger] prefix[j]).present;
            assert(both_found_before(prefix, n));
            assert(both_found_before(families, n));
        } else {
            assert(!both_found_before(prefix, n)) by {
                if both_found_before(prefix, n) {
                    let gi = choose|i: int| 0 <= i < n && i < prefix.len() && (#[trigger] prefix[i]).graphics;
                    let pj = choose|j: int| 0 <= j < n && j < prefix.len() && (#[trigger] prefix[j]).present;
                    assert(has_graphics_family(prefix));
                    assert(has_present_family(prefix));
                }
            }
        }
    }
}

/// The scan finds a complete pair of families exactly when some family
/// supports graphics and some family supports presentation; every family it
/// reports has the capability it was chosen for.
pub proof fn lemma_scan_families_correct(families: Seq<QueueFamilySupport>)
    requires
        families.len() <= u32::MAX,
    ensures
        scan_families(families).spec_is_complete() <==> has_graphics_family(families)
            && has_present_family(families),
        scan_families(families).graphics_family matches Some(g) ==> g < families.len()
            && families[g as int].graphics,
        scan_families(families).present_family matches Some(p) ==> p < families.len()
            && families[p as int].present,
        has_graphics_family(families) ==> scan_families(families).graphics_family is Some,
        has_present_family(families) ==> scan_families(families).present_family is Some,
    decreases families.len(),
{
    if families.len() > 0 {
        let prefix = families.drop_last();
        lemma_scan_families_correct(prefix);
        let last = families.len() - 1;
        assert(forall|i: int| 0 <= i < prefix.len() ==> prefix[i] == families[i]);
        if has_graphics_family(families) && !families[last].graphics {
            let w = choose|i: int| 0 <= i < families.len() && (#[trigger] families[i]).graphics;
            assert(prefix[w].graphics);
        }
        if has_present_family(families) && !families[last].present {
            let w = choose|i: int| 0 <= i < families.len() && (#[trigger] families[i]).present;
            assert(prefix[w].present);
        }
        if has_graphics_family(prefix) {
            let w = choose|i: int| 0 <= i < prefix.len() && (#[trigger] prefix[i]).graphics;
            assert(families[w].graphics);
        }
        if has_present_family(prefix) {
            let w = choose|i: int| 0 <= i < prefix.len() && (#[trigger] prefix[i]).present;
            assert(families[w].present);
        }
        if families[last].graphics {
            assert(has_graphics_family(families));
        }
        if families[last].present {
            assert(has_present_family(families));
        }
    }
}

/// How swapchain images are shared between the graphics and present queues.
#[derive(Debug, Clone, Copy)]
pub enum ImageSharing {
    /// One queue family owns the images.
    Exclusive,
    /// The images are used concurrently by the two listed queue families.
    Concurrent { graphics_family: u32, present_family: u32 },
}

/// Swapchain images are shared concurrently when graphics and presentation
/// use different queue families, and owned exclusively otherwise.
pub fn choose_image_sharing(indices: &QueueFamilyIndices) -> (r: ImageSharing)
    requires
        indices.spec_is_complete(),
    ensures
        indices.graphics_family == indices.present_family ==> r is Exclusive,
        indices.graphics_family != indices.present_family ==> r == (ImageSharing::Concurrent {
            graphics_family: indices.graphics_family->0,
            present_family: indices.present_family->0,
        }),
{
    let graphics = indices.graphics_family.unwrap();
    let present = indices.present_family.unwrap();
    if graphics != present {
        ImageSharing::Concurrent { graphics_family: graphics, present_family: present }
    } else {
        ImageSharing::Exclusive
    }
}

/// The distinct queue families that the logical device must create queues
/// for: the graphics family, followed by the present family when it differs.
pub fn unique_queue_families(indices: &QueueFamilyIndices) -> (r: Vec<u32>)
    requires
        indices.spec_is_complete(),
    ensures
        indices.graphics_family == indices.present_family ==> r@ == seq![
            indices.graphics_family->0,
        ],
        indices.graphics_family != indices.present_family ==> r@ == seq![
            indices.graphics_family->0,
            indices.present_family->0,
        ],
        r@.contains(indices.graphics_family->0),
        r@.contains(indices.present_family->0),
        forall|i: int, j: int| 0 <= i < j < r.len() ==> #[trigger] r@[i] != #[trigger] r@[j],
{
    let graphics = indices.graphics_family.unwrap();
    let present = indices.present_family.unwrap();
    let mut families: Vec<u32> = Vec::new();
    families.push(graphics);
    if present != graphics {
        families.push(present);
        assert(families@[1] == present);
    }
    assert(families@[0] == graphics);
    families
}

} // verus!
