use vstd::prelude::*;
use crate::queue_family::{
    QueueFamilyIndices, QueueFamilySupport, find_queue_families, scan_families, has_graphics_family,
    has_present_family, lemma_scan_families_correct,
};

verus! {

/// What a physical device answers about the target surface: whether its
/// capabilities could be read, and how many surface formats and present
/// modes it lists (`None` when the query failed).
#[derive(Debug, Clone, Copy)]
pub struct SurfaceSupport {
    pub capabilities_ok: bool,
    pub format_count: Option<usize>,
    pub present_mode_count: Option<usize>,
}

/// What the renderer reads of a physical device to decide whether it can
/// use it: its queue families, the names of its device extensions, and its
/// support for the target surface.
#[derive(Debug, Clone)]
pub struct DeviceCandidate {
    pub queue_families: Vec<QueueFamilySupport>,
    pub extension_names: Vec<Vec<u8>>,
    pub surface: SurfaceSupport,
}

/// `name` occurs among the `available` names.
pub open spec fn name_available(available: Seq<Vec<u8>>, name: Seq<u8>) -> bool {
    exists|a: int| 0 <= a < available.len() && #[trigger] available[a]@ == name
}

/// Every required extension name occurs among the available ones.
pub open spec fn extensions_cover(available: Seq<Vec<u8>>, required: Seq<Vec<u8>>) -> bool {
    forall|r: int| 0 <= r < required.len() ==> name_available(available, #[trigger] required[r]@)
}

/// The surface can back a swapchain: its capabilities were read and it lists
/// at least one format and at least one present mode.
pub open spec fn swapchain_adequate(surface: SurfaceSupport) -> bool {
    &&& surface.capabilities_ok
    &&& surface.format_count matches Some(n) && n > 0
    &&& surface.present_mode_count matches Some(m) && m > 0
}

/// A device is usable when it has a graphics and a present queue family,
/// supports the required extensions, and its surface support is adequate.
pub open spec fn suitable_spec(
    indices: QueueFamilyIndices,
    extensions_supported: bool,
    surface: SurfaceSupport,
) -> bool {
    indices.spec_is_complete() && extensions_supported && swapchain_adequate(surface)
}

/// Whether `candidate` can run the renderer.
pub open spec fn candidate_suitable(candidate: DeviceCandidate, required: Seq<Vec<u8>>) -> bool {
    suitable_spec(
        scan_families(candidate.queue_families@),
        extensions_cover(candidate.extension_names@, required),
        candidate.surface,
    )
}

/// Some candidate can run the renderer.
pub open spec fn has_suitable_candidate(
    candidates: Seq<DeviceCandidate>,
    required: Seq<Vec<u8>>,
) -> bool {
    exists|i: int|
        0 <= i < candidates.len() && candidate_suitable(#[trigger] candidates[i], required)
}

/// Whether two byte strings are equal.
fn bytes_equal(a: &Vec<u8>, b: &Vec<u8>) -> (r: bool)
    ensures
        r == (a@ == b@),
{
    if a.len() != b.len() {
        return false;
    }
    let mut i: usize = 0;
    while i < a.len()
        invariant
            a@.len() == b@.len(),
            i <= a@.len(),
            forall|j: int| 0 <= j < i ==> a@[j] == b@[j],
        decreases a@.len() - i,
    {
        if a[i] != b[i] {
            return false;
        }
        i = i + 1;
    }
    assert(a@ =~= b@);
    true
}

/// Whether `name` occurs in `available`.
fn contains_name(available: &Vec<Vec<u8>>, name: &Vec<u8>) -> (r: bool)
    ensures
        r == name_available(available@, name@),
        r == available@.map_values(|v: Vec<u8>| v@).contains(name@),
{
    proof {
        lemma_extension_names_match_exactly(available@, Seq::empty());
    }
    let mut i: usize = 0;
    while i < available.len()
        invariant
            i <= available@.len(),
            forall|a: int| 0 <= a < i ==> #[trigger] available@[a]@ != name@,
        decreases available@.len() - i,
    {
        if bytes_equal(&available[i], name) {
            proof {
                assert(available@.map_values(|v: Vec<u8>| v@)[i as int] == name@);
            }
            return true;
        }
        i = i + 1;
    }
    false
}

/// Whether a device offers every required extension, given the names of
/// the extensions it offers.
pub fn check_device_extension_support(
    available: &Vec<Vec<u8>>,
    required: &Vec<Vec<u8>>,
) -> (r: bool)
    ensures
        r == extensions_cover(available@, required@),
        r == forall|i: int|
            #![trigger required@[i]]
            0 <= i < required@.len() ==> available@.map_values(|v: Vec<u8>| v@).contains(
                required@[i]@,
            ),
{
    proof {
        lemma_extension_names_match_exactly(available@, required@);
    }
    let mut i: usize = 0;
    while i < required.len()
        invariant
            i <= required@.len(),
            forall|r: int| 0 <= r < i ==> name_available(available@, #[trigger] required@[r]@),
        decreases required@.len() - i,
    {
        if !contains_name(available, &required[i]) {
            return false;
        }
        i = i + 1;
    }
    true
}

/// Whether a device with these queue families, extension support and
/// surface support can run the renderer.
pub fn is_physical_device_suitable(
    indices: &QueueFamilyIndices,
    extensions_supported: bool,
    surface: &SurfaceSupport,
) -> (r: bool)
    ensures
        r == suitable_spec(*indices, extensions_supported, *surface),
        r == (indices.graphics_family is Some && indices.present_family is Some
            && extensions_supported && surface.capabilities_ok && surface.format_count is Some
            && surface.format_count->0 > 0 && surface.present_mode_count is Some
            && surface.present_mode_count->0 > 0),
{
    let mut swap_ok = false;
    if extensions_supported {
        let formats_ok = match surface.format_count {
            Some(n) => n > 0,
            None => false,
        };
        let modes_ok = match surface.present_mode_count {
            Some(m) => m > 0,
            None => false,
        };
        swap_ok = surface.capabilities_ok && formats_ok && modes_ok;
    }
    indices.is_complete() && extensions_supported && swap_ok
}

/// The queue families of `candidate` and whether it can run the renderer.
pub fn evaluate_candidate(candidate: &DeviceCandidate, required: &Vec<Vec<u8>>) -> (r: (
    QueueFamilyIndices,
    bool,
))
    requires
        candidate.queue_families@.len() <= u32::MAX,
    ensures
        r.0 == scan_families(candidate.queue_families@),
        r.1 == candidate_suitable(*candidate, required@),
        r.1 == (has_graphics_family(candidate.queue_families@) && has_present_family(
            candidate.queue_families@,
        ) && (forall|i: int|
            #![trigger required@[i]]
            0 <= i < required@.len() ==> candidate.extension_names@.map_values(
                |v: Vec<u8>| v@,
            ).contains(required@[i]@)) && candidate.surface.capabilities_ok
            && candidate.surface.format_count is Some && candidate.surface.format_count->0 > 0
            && candidate.surface.present_mode_count is Some
            && candidate.surface.present_mode_count->0 > 0),
{
    proof {
        lemma_candidate_suitable_meaning(*candidate, required@);
    }
    let indices = find_queue_families(&candidate.queue_families);
    let ext_ok = check_device_extension_support(&candidate.extension_names, required);
    let ok = is_physical_device_suitable(&indices, ext_ok, &candidate.surface);
    (indices, ok)
}

/// The first candidate device that can run the renderer, with its queue
/// families.
pub fn pick_physical_device(
    candidates: &Vec<DeviceCandidate>,
    required: &Vec<Vec<u8>>,
) -> (r: (usize, QueueFamilyIndices))
    requires
        forall|i: int|
            0 <= i < candidates@.len() ==> (#[trigger] candidates@[i]).queue_families@.len()
                <= u32::MAX,
        has_suitable_candidate(candidates@, required@),
    ensures
        r.0 < candidates@.len(),
        candidate_suitable(candidates@[r.0 as int], required@),
        forall|j: int|
            0 <= j < r.0 ==> !candidate_suitable(#[trigger] candidates@[j], required@),
        r.1 == scan_families(candidates@[r.0 as int].queue_families@),
        r.1.graphics_family is Some,
        r.1.present_family is Some,
        candidates@[r.0 as int].surface.capabilities_ok,
        candidates@[r.0 as int].surface.format_count is Some,
        candidates@[r.0 as int].surface.format_count->0 > 0,
        candidates@[r.0 as int].surface.present_mode_count is Some,
        candidates@[r.0 as int].surface.present_mode_count->0 > 0,
        forall|i: int|
            #![trigger required@[i]]
            0 <= i < required@.len() ==> candidates@[r.0 as int].extension_names@.map_values(
                |v: Vec<u8>| v@,
            ).contains(required@[i]@),
{
    let mut i: usize = 0;
    while i < candidates.len()
        invariant
            i <= candidates@.len(),
            forall|j: int|
                0 <= j < candidates@.len() ==> (#[trigger] candidates@[j]).queue_families@.len()
                    <= u32::MAX,
            has_suitable_candidate(candidates@, required@),
            forall|j: int| 0 <= j < i ==> !candidate_suitable(#[trigger] candidates@[j], required@),
        decreases candidates@.len() - i,
    {
        let (indices, ok) = evaluate_candidate(&candidates[i], required);
        if ok {
            proof {
                lemma_candidate_suitable_meaning(candidates@[i as int], required@);
            }
            return (i, indices);
        }
        i = i + 1;
    }
    proof {
        let w = choose|w: int|
            0 <= w < candidates@.len() && candidate_suitable(#[trigger] candidates@[w], required@);
        assert(!candidate_suitable(candidates@[w], required@));
    }
    (0, QueueFamilyIndices::empty())
}

/// An extension counts as offered only when an offered name equals it byte
/// for byte: the check holds exactly when every required name is one of the
/// offered names.
pub proof fn lemma_extension_names_match_exactly(available: Seq<Vec<u8>>, required: Seq<Vec<u8>>)
    ensures
        extensions_cover(available, required) <==> forall|i: int|
            #![trigger required[i]]
            0 <= i < required.len() ==> available.map_values(|v: Vec<u8>| v@).contains(
                required[i]@,
            ),
        forall|name: Seq<u8>|
            #[trigger] name_available(available, name) <==> available.map_values(
                |v: Vec<u8>| v@,
            ).contains(name),
{
    let names = available.map_values(|v: Vec<u8>| v@);
    assert forall|name: Seq<u8>| #[trigger] name_available(available, name) <==> names.contains(
        name,
    ) by {
        if names.contains(name) {
            let a = choose|a: int| 0 <= a < names.len() && names[a] == name;
            assert(available[a]@ == name);
        }
        if name_available(available, name) {
            let a = choose|a: int| 0 <= a < available.len() && #[trigger] available[a]@ == name;
            assert(names[a] == name);
        }
    }
}

/// A device is suitable exactly when it has both a graphics and a present
/// queue family, offers the required extensions, and its surface can back a
/// swapchain: capabilities read, and at least one format and at least one
/// present mode listed.
pub proof fn lemma_suitable_needs_swapchain_support(
    indices: QueueFamilyIndices,
    extensions_supported: bool,
    surface: SurfaceSupport,
)
    ensures
        suitable_spec(indices, extensions_supported, surface) <==> (indices.graphics_family is Some
            && indices.present_family is Some && extensions_supported && surface.capabilities_ok
            && surface.format_count is Some && surface.format_count->0 > 0
            && surface.present_mode_count is Some && surface.present_mode_count->0 > 0),
{
}

/// A candidate can run the renderer exactly when some queue family supports
/// graphics and some supports presentation, every required extension name is
/// offered verbatim, and its surface can back a swapchain.
pub proof fn lemma_candidate_suitable_meaning(candidate: DeviceCandidate, required: Seq<Vec<u8>>)
    requires
        candidate.queue_families@.len() <= u32::MAX,
    ensures
        candidate_suitable(candidate, required) <==> (has_graphics_family(candidate.queue_families@)
            && has_present_family(candidate.queue_families@) && (forall|i: int|
            #![trigger required[i]]
            0 <= i < required.len() ==> candidate.extension_names@.map_values(
                |v: Vec<u8>| v@,
            ).contains(required[i]@)) && candidate.surface.capabilities_ok
            && candidate.surface.format_count is Some && candidate.surface.format_count->0 > 0
            && candidate.surface.present_mode_count is Some
            && candidate.surface.present_mode_count->0 > 0),
{
    lemma_scan_families_correct(candidate.queue_families@);
    lemma_extension_names_match_exactly(candidate.extension_names@, required);
    lemma_suitable_needs_swapchain_support(
        scan_families(candidate.queue_families@),
        extensions_cover(candidate.extension_names@, required),
        candidate.surface,
    );
}

} // verus!
