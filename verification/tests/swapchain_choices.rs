use ash::vk;
use vulkan_ubershader_ui_demo::swapchain::{
    choose_image_count, choose_swap_extent, choose_swap_present_mode, choose_swap_surface_format,
    Extent2D, SurfaceCapabilities, SurfaceFormat, COLOR_SPACE_SRGB_NONLINEAR, FORMAT_B8G8R8A8_SRGB,
    PRESENT_MODE_FIFO, PRESENT_MODE_MAILBOX,
};

fn caps(min_count: u32, max_count: u32, current: (u32, u32)) -> SurfaceCapabilities {
    SurfaceCapabilities {
        min_image_count: min_count,
        max_image_count: max_count,
        current_extent: Extent2D { width: current.0, height: current.1 },
        min_image_extent: Extent2D { width: 100, height: 50 },
        max_image_extent: Extent2D { width: 1920, height: 1080 },
    }
}

#[test]
fn vulkan_values_match_ash() {
    assert_eq!(FORMAT_B8G8R8A8_SRGB, vk::Format::B8G8R8A8_SRGB.as_raw());
    assert_eq!(COLOR_SPACE_SRGB_NONLINEAR, vk::ColorSpaceKHR::SRGB_NONLINEAR.as_raw());
    assert_eq!(PRESENT_MODE_MAILBOX, vk::PresentModeKHR::MAILBOX.as_raw());
    assert_eq!(PRESENT_MODE_FIFO, vk::PresentModeKHR::FIFO.as_raw());
}

#[test]
fn preferred_surface_format_is_chosen() {
    let formats = vec![
        SurfaceFormat { format: 44, color_space: 0 },
        SurfaceFormat { format: FORMAT_B8G8R8A8_SRGB, color_space: 1000104001 },
        SurfaceFormat { format: FORMAT_B8G8R8A8_SRGB, color_space: COLOR_SPACE_SRGB_NONLINEAR },
    ];
    let r = choose_swap_surface_format(&formats);
    assert_eq!(r.format, FORMAT_B8G8R8A8_SRGB);
    assert_eq!(r.color_space, COLOR_SPACE_SRGB_NONLINEAR);
}

#[test]
fn first_surface_format_is_the_fallback() {
    let formats = vec![SurfaceFormat { format: 44, color_space: 0 }, SurfaceFormat { format: 37, color_space: 0 }];
    let r = choose_swap_surface_format(&formats);
    assert_eq!(r.format, 44);
    assert_eq!(r.color_space, 0);
}

#[test]
fn mailbox_is_preferred_over_fifo() {
    assert_eq!(choose_swap_present_mode(&vec![PRESENT_MODE_FIFO, PRESENT_MODE_MAILBOX]), PRESENT_MODE_MAILBOX);
    assert_eq!(choose_swap_present_mode(&vec![0, PRESENT_MODE_FIFO]), PRESENT_MODE_FIFO);
    assert_eq!(choose_swap_present_mode(&vec![]), PRESENT_MODE_FIFO);
}

#[test]
fn current_extent_is_used_when_defined() {
    let r = choose_swap_extent(&caps(2, 8, (640, 480)), 800, 600);
    assert_eq!((r.width, r.height), (640, 480));
}

#[test]
fn window_size_is_clamped_when_extent_undefined() {
    let c = caps(2, 8, (u32::MAX, u32::MAX));
    let r = choose_swap_extent(&c, 800, 600);
    assert_eq!((r.width, r.height), (800, 600));
    let big = choose_swap_extent(&c, 4000, 3000);
    assert_eq!((big.width, big.height), (1920, 1080));
    let small = choose_swap_extent(&c, 10, 20);
    assert_eq!((small.width, small.height), (100, 50));
}

#[test]
fn image_count_is_one_above_minimum_within_maximum() {
    assert_eq!(choose_image_count(&caps(2, 8, (1, 1))), 3);
    assert_eq!(choose_image_count(&caps(2, 0, (1, 1))), 3);
    assert_eq!(choose_image_count(&caps(3, 3, (1, 1))), 3);
    assert_eq!(choose_image_count(&caps(1, 2, (1, 1))), 2);
}
