use gbm_backend::{DisplayCall, DisplayCapabilities, Gbm, Platform};

fn caps(khr: bool, mesa: bool, std_loaded: bool, ext_loaded: bool) -> DisplayCapabilities {
    DisplayCapabilities {
        khr_platform_gbm: khr,
        mesa_platform_gbm: mesa,
        platform_display_loaded: std_loaded,
        platform_display_ext_loaded: ext_loaded,
    }
}

#[test]
fn khr_extension_with_standard_entry_point() {
    let call = Gbm::get_display(&caps(true, false, true, false));
    assert_eq!(call, DisplayCall::PlatformDisplay(Platform::Khr));
}

#[test]
fn mesa_extension_with_vendor_entry_point() {
    let call = Gbm::get_display(&caps(false, true, false, true));
    assert_eq!(call, DisplayCall::PlatformDisplayExt(Platform::Mesa));
}

#[test]
fn mesa_extension_with_standard_entry_point() {
    let call = Gbm::get_display(&caps(false, true, true, false));
    assert_eq!(call, DisplayCall::PlatformDisplay(Platform::Mesa));
}

#[test]
fn no_extension_falls_back_to_get_display() {
    let call = Gbm::get_display(&caps(false, false, true, true));
    assert_eq!(call, DisplayCall::Display);
}

#[test]
fn khr_wins_over_mesa() {
    let call = Gbm::get_display(&caps(true, true, true, true));
    assert_eq!(call, DisplayCall::PlatformDisplay(Platform::Khr));
}

#[test]
fn khr_without_standard_entry_point_tries_mesa() {
    let call = Gbm::get_display(&caps(true, true, false, true));
    assert_eq!(call, DisplayCall::PlatformDisplayExt(Platform::Mesa));
    let call = Gbm::get_display(&caps(true, false, false, true));
    assert_eq!(call, DisplayCall::Display);
}
