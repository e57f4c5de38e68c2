use vulkan_ubershader_ui_demo::device::{
    check_device_extension_support, evaluate_candidate, is_physical_device_suitable,
    pick_physical_device, DeviceCandidate, SurfaceSupport,
};
use vulkan_ubershader_ui_demo::memory::{find_memory_type, memory_type_is_suitable, MemoryProperties};
use vulkan_ubershader_ui_demo::queue_family::{
    choose_image_sharing, find_queue_families, unique_queue_families, ImageSharing,
    QueueFamilyIndices, QueueFamilySupport,
};

fn fam(graphics: bool, present: bool) -> QueueFamilySupport {
    QueueFamilySupport { graphics, present }
}

fn good_surface() -> SurfaceSupport {
    SurfaceSupport { capabilities_ok: true, format_count: Some(3), present_mode_count: Some(2) }
}

#[test]
fn is_complete_needs_both_families() {
    assert!(!QueueFamilyIndices::default().is_complete());
    let g_only = QueueFamilyIndices { graphics_family: Some(0), present_family: None };
    assert!(!g_only.is_complete());
    let p_only = QueueFamilyIndices { graphics_family: None, present_family: Some(2) };
    assert!(!p_only.is_complete());
    let both = QueueFamilyIndices { graphics_family: Some(1), present_family: Some(1) };
    assert!(both.is_complete());
}

#[test]
fn queue_families_separate_graphics_and_present() {
    let r = find_queue_families(&vec![fam(true, false), fam(false, true)]);
    assert_eq!(r.graphics_family, Some(0));
    assert_eq!(r.present_family, Some(1));
    assert!(r.is_complete());
}

#[test]
fn queue_family_scan_stops_when_complete() {
    let r = find_queue_families(&vec![fam(true, true), fam(true, true), fam(false, true)]);
    assert_eq!(r.graphics_family, Some(0));
    assert_eq!(r.present_family, Some(0));
}

#[test]
fn queue_family_scan_keeps_latest_before_completion() {
    let r = find_queue_families(&vec![fam(true, false), fam(true, false), fam(false, true), fam(true, true)]);
    assert_eq!(r.graphics_family, Some(1));
    assert_eq!(r.present_family, Some(2));
}

#[test]
fn queue_family_scan_without_present_support() {
    let r = find_queue_families(&vec![fam(true, false), fam(false, false)]);
    assert_eq!(r.graphics_family, Some(0));
    assert_eq!(r.present_family, None);
    assert!(!r.is_complete());
    let none = find_queue_families(&vec![]);
    assert_eq!(none.graphics_family, None);
    assert_eq!(none.present_family, None);
}

#[test]
fn sharing_and_unique_families() {
    let same = QueueFamilyIndices { graphics_family: Some(3), present_family: Some(3) };
    assert!(matches!(choose_image_sharing(&same), ImageSharing::Exclusive));
    assert_eq!(unique_queue_families(&same), vec![3]);
    let split = QueueFamilyIndices { graphics_family: Some(0), present_family: Some(2) };
    match choose_image_sharing(&split) {
        ImageSharing::Concurrent { graphics_family, present_family } => {
            assert_eq!(graphics_family, 0);
            assert_eq!(present_family, 2);
        }
        ImageSharing::Exclusive => panic!("expected concurrent sharing"),
    }
    assert_eq!(unique_queue_families(&split), vec![0, 2]);
}

#[test]
fn memory_type_is_first_match() {
    const DEVICE_LOCAL: u32 = 0x1;
    const HOST_VISIBLE: u32 = 0x2;
    const HOST_COHERENT: u32 = 0x4;
    let mem = MemoryProperties {
        memory_type_flags: vec![DEVICE_LOCAL, HOST_VISIBLE, HOST_VISIBLE | HOST_COHERENT, HOST_VISIBLE | HOST_COHERENT],
    };
    assert_eq!(find_memory_type(0b1111, HOST_VISIBLE | HOST_COHERENT, &mem), 2);
    assert_eq!(find_memory_type(0b1000, HOST_VISIBLE | HOST_COHERENT, &mem), 3);
    assert_eq!(find_memory_type(0b1111, DEVICE_LOCAL, &mem), 0);
    assert_eq!(find_memory_type(0b1110, HOST_VISIBLE, &mem), 1);
    assert!(!memory_type_is_suitable(0b0001, HOST_VISIBLE, HOST_VISIBLE, 1));
    assert!(memory_type_is_suitable(0b0010, HOST_VISIBLE, HOST_VISIBLE | HOST_COHERENT, 1));
    assert!(!memory_type_is_suitable(0b0010, HOST_VISIBLE | HOST_COHERENT, HOST_VISIBLE, 1));
}

#[test]
fn extension_support_needs_every_name() {
    let available = vec![b"VK_KHR_maintenance1".to_vec(), b"VK_KHR_swapchain".to_vec()];
    assert!(check_device_extension_support(&available, &vec![b"VK_KHR_swapchain".to_vec()]));
    assert!(!check_device_extension_support(&available, &vec![b"VK_KHR_swapchain_x".to_vec()]));
    assert!(!check_device_extension_support(&vec![], &vec![b"VK_KHR_swapchain".to_vec()]));
    assert!(check_device_extension_support(&vec![], &vec![]));
}

#[test]
fn suitability_requires_everything() {
    let complete = QueueFamilyIndices { graphics_family: Some(0), present_family: Some(0) };
    let partial = QueueFamilyIndices { graphics_family: Some(0), present_family: None };
    assert!(is_physical_device_suitable(&complete, true, &good_surface()));
    assert!(!is_physical_device_suitable(&partial, true, &good_surface()));
    assert!(!is_physical_device_suitable(&complete, false, &good_surface()));
    let no_formats = SurfaceSupport { capabilities_ok: true, format_count: Some(0), present_mode_count: Some(1) };
    assert!(!is_physical_device_suitable(&complete, true, &no_formats));
    let failed_modes = SurfaceSupport { capabilities_ok: true, format_count: Some(1), present_mode_count: None };
    assert!(!is_physical_device_suitable(&complete, true, &failed_modes));
    let no_caps = SurfaceSupport { capabilities_ok: false, format_count: Some(1), present_mode_count: Some(1) };
    assert!(!is_physical_device_suitable(&complete, true, &no_caps));
}

#[test]
fn first_suitable_device_is_picked() {
    let required = vec![b"VK_KHR_swapchain".to_vec()];
    let no_present = DeviceCandidate {
        queue_families: vec![fam(true, false)],
        extension_names: vec![b"VK_KHR_swapchain".to_vec()],
        surface: good_surface(),
    };
    let no_swapchain = DeviceCandidate {
        queue_families: vec![fam(true, true)],
        extension_names: vec![],
        surface: good_surface(),
    };
    let good = DeviceCandidate {
        queue_families: vec![fam(false, true), fam(true, false)],
        extension_names: vec![b"VK_KHR_swapchain".to_vec()],
        surface: good_surface(),
    };
    let also_good = DeviceCandidate {
        queue_families: vec![fam(true, true)],
        extension_names: vec![b"VK_KHR_swapchain".to_vec()],
        surface: good_surface(),
    };
    assert!(!evaluate_candidate(&no_present, &required).1);
    assert!(!evaluate_candidate(&no_swapchain, &required).1);
    let (index, indices) = pick_physical_device(&vec![no_present, no_swapchain, good, also_good], &required);
    assert_eq!(index, 2);
    assert_eq!(indices.graphics_family, Some(1));
    assert_eq!(indices.present_family, Some(0));
}
