//! Selection of the EGL entry point that turns a GBM device into a display.
use vstd::prelude::*;

verus! {

/// Name of the Khronos extension for GBM platform displays.
pub const KHR_PLATFORM_GBM: &'static str = "EGL_KHR_platform_gbm";

/// Name of the Mesa extension for GBM platform displays.
pub const MESA_PLATFORM_GBM: &'static str = "EGL_MESA_platform_gbm";

/// Which platform token is handed to a platform-display entry point.
#[derive(Clone, Copy, Debug, PartialEq, Eq, Structural)]
pub enum Platform {
    /// `EGL_PLATFORM_GBM_KHR`
    Khr,
    /// `EGL_PLATFORM_GBM_MESA`
    Mesa,
}

/// The EGL call that produces the display for a GBM device.
#[derive(Clone, Copy, Debug, PartialEq, Eq, Structural)]
pub enum DisplayCall {
    /// `eglGetPlatformDisplay` with the given platform token.
    PlatformDisplay(Platform),
    /// `eglGetPlatformDisplayEXT` with the given platform token.
    PlatformDisplayExt(Platform),
    /// The extension-independent `eglGetDisplay`.
    Display,
}

/// What the EGL client library reports: the platform extensions it
/// advertises and the entry points it could resolve.
#[derive(Clone, Copy, Debug, PartialEq, Eq, Structural)]
pub struct DisplayCapabilities {
    pub khr_platform_gbm: bool,
    pub mesa_platform_gbm: bool,
    pub platform_display_loaded: bool,
    pub platform_display_ext_loaded: bool,
}

/// The pathway chosen for the given capabilities, first match wins.
pub open spec fn display_call_for(caps: DisplayCapabilities) -> DisplayCall {
    if caps.khr_platform_gbm && caps.platform_display_loaded {
        DisplayCall::PlatformDisplay(Platform::Khr)
    } else if caps.mesa_platform_gbm && caps.platform_display_ext_loaded {
        DisplayCall::PlatformDisplayExt(Platform::Mesa)
    } else if caps.mesa_platform_gbm && caps.platform_display_loaded {
        DisplayCall::PlatformDisplay(Platform::Mesa)
    } else {
        DisplayCall::Display
    }
}

/// EGL backend marker for GBM devices.
pub struct Gbm {}

impl Gbm {
    /// Chooses how the display is obtained from the raw GBM device pointer.
    /// The returned call is made by the EGL layer with that pointer; the
    /// display it yields is owned by EGL.
    pub fn get_display(caps: &DisplayCapabilities) -> (r: DisplayCall)
        ensures
            r == display_call_for(*caps),
    {
        if caps.khr_platform_gbm && caps.platform_display_loaded {
            DisplayCall::PlatformDisplay(Platform::Khr)
        } else if caps.mesa_platform_gbm && caps.platform_display_ext_loaded {
            DisplayCall::PlatformDisplayExt(Platform::Mesa)
        } else if caps.mesa_platform_gbm && caps.platform_display_loaded {
            DisplayCall::PlatformDisplay(Platform::Mesa)
        } else {
            DisplayCall::Display
        }
    }
}

} // verus!
