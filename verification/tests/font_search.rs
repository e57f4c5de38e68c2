use vulkan_ubershader_ui_demo::font_source::{next_font_step, system_font_paths, FontProbe, FontSearchStep};

#[test]
fn system_fonts_are_tried_in_order() {
    let paths = system_font_paths();
    assert_eq!(paths, vec![
        "/usr/share/fonts/truetype/dejavu/DejaVuSans.ttf",
        "/usr/share/fonts/truetype/liberation/LiberationSans-Regular.ttf",
    ]);
    assert_eq!(next_font_step(&vec![], 2), FontSearchStep::Probe(0));
    assert_eq!(next_font_step(&vec![FontProbe::Missing], 2), FontSearchStep::Probe(1));
}

#[test]
fn the_first_readable_font_is_used() {
    assert_eq!(next_font_step(&vec![FontProbe::Read], 2), FontSearchStep::Use(0));
    assert_eq!(next_font_step(&vec![FontProbe::ReadFailed, FontProbe::Read], 2), FontSearchStep::Use(1));
}

#[test]
fn the_last_read_error_is_reported() {
    assert_eq!(next_font_step(&vec![FontProbe::ReadFailed, FontProbe::Missing], 2), FontSearchStep::ReadError(0));
    assert_eq!(next_font_step(&vec![FontProbe::ReadFailed, FontProbe::ReadFailed], 2), FontSearchStep::ReadError(1));
}

#[test]
fn no_font_found_when_all_missing() {
    assert_eq!(next_font_step(&vec![FontProbe::Missing, FontProbe::Missing], 2), FontSearchStep::NotFound);
    assert_eq!(next_font_step(&vec![], 0), FontSearchStep::NotFound);
}
