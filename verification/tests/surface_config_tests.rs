use hearth_engine::surface_config::{
    choose_present_mode, choose_surface_format, fallback_present_modes, surface_extent, FormatChoice, PresentMode,
};

#[test]
fn first_srgb_format_is_chosen() {
    assert_eq!(choose_surface_format(&[false, true, true]), FormatChoice::Available(1));
    assert_eq!(choose_surface_format(&[false, false]), FormatChoice::Available(0));
    assert_eq!(choose_surface_format(&[]), FormatChoice::Fallback);
}

#[test]
fn present_mode_preference() {
    let (fifo, mailbox, immediate) = (PresentMode::Fifo, PresentMode::Mailbox, PresentMode::Immediate);
    assert_eq!(choose_present_mode(&[fifo, mailbox, immediate]), immediate);
    assert_eq!(choose_present_mode(&[fifo, mailbox]), mailbox);
    assert_eq!(choose_present_mode(&[PresentMode::AutoVsync, fifo]), fifo);
    assert_eq!(choose_present_mode(&[PresentMode::FifoRelaxed, PresentMode::AutoVsync]), PresentMode::FifoRelaxed);
    assert_eq!(choose_present_mode(&fallback_present_modes()), immediate);
}

#[test]
fn surface_is_at_least_one_pixel() {
    assert_eq!(surface_extent(0, 0), (1, 1));
    assert_eq!(surface_extent(1280, 0), (1280, 1));
    assert_eq!(surface_extent(800, 600), (800, 600));
}
