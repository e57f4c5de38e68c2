use vstd::prelude::*;

verus! {

/// Raw value of `VK_FORMAT_B8G8R8A8_SRGB`.
pub const FORMAT_B8G8R8A8_SRGB: i32 = 50;

/// Raw value of `VK_COLOR_SPACE_SRGB_NONLINEAR_KHR`.
pub const COLOR_SPACE_SRGB_NONLINEAR: i32 = 0;

/// Raw value of `VK_PRESENT_MODE_MAILBOX_KHR`.
pub const PRESENT_MODE_MAILBOX: i32 = 1;

/// Raw value of `VK_PRESENT_MODE_FIFO_KHR`, the mode every surface supports.
pub const PRESENT_MODE_FIFO: i32 = 2;

/// A pixel format with the color space it is presented in (raw Vulkan values).
#[derive(Debug, Clone, Copy)]
pub struct SurfaceFormat {
    pub format: i32,
    pub color_space: i32,
}

/// A two-dimensional size in pixels.
#[derive(Debug, Clone, Copy)]
pub struct Extent2D {
    pub width: u32,
    pub height: u32,
}

/// What a surface reports of the swapchains it supports.
#[derive(Debug, Clone, Copy)]
pub struct SurfaceCapabilities {
    pub min_image_count: u32,
    /// 0 when there is no upper limit.
    pub max_image_count: u32,
    /// Width `u32::MAX` when the swapchain decides the surface size.
    pub current_extent: Extent2D,
    pub min_image_extent: Extent2D,
    pub max_image_extent: Extent2D,
}

/// 8-bit BGRA in sRGB, presented in the non-linear sRGB color space.
pub open spec fn is_preferred_format(f: SurfaceFormat) -> bool {
    f.format == FORMAT_B8G8R8A8_SRGB && f.color_space == COLOR_SPACE_SRGB_NONLINEAR
}

/// Whether `f` is 8-bit BGRA in sRGB, presented in the non-linear sRGB
/// color space.
pub fn is_preferred_surface_format(f: &SurfaceFormat) -> (r: bool)
    ensures
        r == is_preferred_format(*f),
        r == (f.format == FORMAT_B8G8R8A8_SRGB && f.color_space == COLOR_SPACE_SRGB_NONLINEAR),
{
    f.format == FORMAT_B8G8R8A8_SRGB && f.color_space == COLOR_SPACE_SRGB_NONLINEAR
}

/// The preferred format is exactly 8-bit BGRA in sRGB (Vulkan format 50)
/// presented in the non-linear sRGB color space (color space 0).
pub proof fn lemma_preferred_format_exact(f: SurfaceFormat)
    ensures
        is_preferred_format(f) <==> (f.format == 50 && f.color_space == 0),
        FORMAT_B8G8R8A8_SRGB == 50,
        COLOR_SPACE_SRGB_NONLINEAR == 0,
{
}

/// The preferred surface format when the surface offers it, otherwise the
/// first one it offers.
pub fn choose_swap_surface_format(available_formats: &Vec<SurfaceFormat>) -> (r: SurfaceFormat)
    requires
        available_formats@.len() > 0,
    ensures
        (exists|i: int|
            0 <= i < available_formats@.len() && is_preferred_format(
                #[trigger] available_formats@[i],
            )) ==> is_preferred_format(r),
        !(exists|i: int|
            0 <= i < available_formats@.len() && is_preferred_format(
                #[trigger] available_formats@[i],
            )) ==> r == available_formats@[0],
        (exists|i: int|
            0 <= i < available_formats@.len() && (#[trigger] available_formats@[i]).format
                == FORMAT_B8G8R8A8_SRGB && available_formats@[i].color_space
                == COLOR_SPACE_SRGB_NONLINEAR) ==> r.format == FORMAT_B8G8R8A8_SRGB && r.color_space
            == COLOR_SPACE_SRGB_NONLINEAR,
        !(exists|i: int|
            0 <= i < available_formats@.len() && (#[trigger] available_formats@[i]).format
                == FORMAT_B8G8R8A8_SRGB && available_formats@[i].color_space
                == COLOR_SPACE_SRGB_NONLINEAR) ==> r == available_formats@[0],
        exists|i: int| 0 <= i < available_formats@.len() && r == #[trigger] available_formats@[i],
{
    let mut i: usize = 0;
    while i < available_formats.len()
        invariant
            i <= available_formats@.len(),
            forall|j: int| 0 <= j < i ==> !is_preferred_format(#[trigger] available_formats@[j]),
        decreases available_formats@.len() - i,
    {
        let f = available_formats[i];
        if is_preferred_surface_format(&f) {
            return f;
        }
        i = i + 1;
    }
    assert(available_formats@[0] == available_formats@[0]);
    available_formats[0]
}

/// Mailbox presentation when the surface supports it, otherwise FIFO.
pub fn choose_swap_present_mode(available_present_modes: &Vec<i32>) -> (r: i32)
    ensures
        available_present_modes@.contains(PRESENT_MODE_MAILBOX) ==> r == PRESENT_MODE_MAILBOX,
        !available_present_modes@.contains(PRESENT_MODE_MAILBOX) ==> r == PRESENT_MODE_FIFO,
{
    let mut i: usize = 0;
    while i < available_present_modes.len()
        invariant
            i <= available_present_modes@.len(),
            forall|j: int| 0 <= j < i ==> available_present_modes@[j] != PRESENT_MODE_MAILBOX,
        decreases available_present_modes@.len() - i,
    {
        if available_present_modes[i] == PRESENT_MODE_MAILBOX {
            return PRESENT_MODE_MAILBOX;
        }
        i = i + 1;
    }
    PRESENT_MODE_FIFO
}

/// `v` brought into `[lo, hi]`.
pub open spec fn clamp_spec(v: u32, lo: u32, hi: u32) -> u32 {
    if v < lo {
        lo
    } else if v > hi {
        hi
    } else {
        v
    }
}

/// `v` brought into `[lo, hi]`.
fn clamp_u32(v: u32, lo: u32, hi: u32) -> (r: u32)
    requires
        lo <= hi,
    ensures
        r == clamp_spec(v, lo, hi),
{
    if v < lo {
        lo
    } else if v > hi {
        hi
    } else {
        v
    }
}

/// The surface's current size when it has one; otherwise the window's size
/// (`window_width` x `window_height`) brought within the surface's limits.
pub fn choose_swap_extent(
    capabilities: &SurfaceCapabilities,
    window_width: u32,
    window_height: u32,
) -> (r: Extent2D)
    requires
        capabilities.current_extent.width == u32::MAX ==> capabilities.min_image_extent.width
            <= capabilities.max_image_extent.width && capabilities.min_image_extent.height
            <= capabilities.max_image_extent.height,
    ensures
        capabilities.current_extent.width != u32::MAX ==> r == capabilities.current_extent,
        capabilities.current_extent.width == u32::MAX ==> r == (Extent2D {
            width: clamp_spec(
                window_width,
                capabilities.min_image_extent.width,
                capabilities.max_image_extent.width,
            ),
            height: clamp_spec(
                window_height,
                capabilities.min_image_extent.height,
                capabilities.max_image_extent.height,
            ),
        }),
        capabilities.current_extent.width == u32::MAX ==> {
            &&& capabilities.min_image_extent.width <= r.width <= capabilities.max_image_extent.width
            &&& capabilities.min_image_extent.height <= r.height
                <= capabilities.max_image_extent.height
            &&& capabilities.min_image_extent.width <= window_width
                <= capabilities.max_image_extent.width ==> r.width == window_width
            &&& capabilities.min_image_extent.height <= window_height
                <= capabilities.max_image_extent.height ==> r.height == window_height
            &&& window_width < capabilities.min_image_extent.width ==> r.width
                == capabilities.min_image_extent.width
            &&& window_width > capabilities.max_image_extent.width ==> r.width
                == capabilities.max_image_extent.width
            &&& window_height < capabilities.min_image_extent.height ==> r.height
                == capabilities.min_image_extent.height
            &&& window_height > capabilities.max_image_extent.height ==> r.height
                == capabilities.max_image_extent.height
        },
{
    if capabilities.current_extent.width != u32::MAX {
        capabilities.current_extent
    } else {
        Extent2D {
            width: clamp_u32(
                window_width,
                capabilities.min_image_extent.width,
                capabilities.max_image_extent.width,
            ),
            height: clamp_u32(
                window_height,
                capabilities.min_image_extent.height,
                capabilities.max_image_extent.height,
            ),
        }
    }
}

/// One image more than the surface's minimum, capped at its maximum when it
/// has one.
pub fn choose_image_count(capabilities: &SurfaceCapabilities) -> (r: u32)
    requires
        capabilities.min_image_count < u32::MAX,
    ensures
        r == if capabilities.max_image_count > 0 && capabilities.min_image_count + 1
            > capabilities.max_image_count {
            capabilities.max_image_count as int
        } else {
            capabilities.min_image_count + 1
        },
        r >= 1,
        r <= capabilities.min_image_count + 1,
        capabilities.max_image_count > 0 ==> r <= capabilities.max_image_count,
{
    let mut c = capabilities.min_image_count + 1;
    if capabilities.max_image_count > 0 && c > capabilities.max_image_count {
        c = capabilities.max_image_count;
    }
    c
}

} // verus!
