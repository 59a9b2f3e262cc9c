use gbm_backend::{GbmDevice, GbmError, PageFlip, SwapBuffersError};

#[test]
fn device_is_backend_and_exposes_pointer() {
    let dev = GbmDevice::new(0x1000);
    assert!(dev.is_backend());
    assert_eq!(dev.ptr(), Ok(0x1000));
    assert!(dev.is_active());
}

#[test]
fn null_device_pointer_is_invalid() {
    let dev = GbmDevice::new(0);
    assert_eq!(dev.ptr(), Err(GbmError::DeviceInvalid));
}

#[test]
fn distinct_crtcs_each_get_one_surface() {
    let mut dev = GbmDevice::new(1);
    let a = dev.create_surface(31, Some(100)).unwrap();
    let b = dev.create_surface(32, Some(200)).unwrap();
    let c = dev.create_surface(33, Some(300)).unwrap();
    assert_eq!(a.index(), 0);
    assert_eq!(b.index(), 1);
    assert_eq!(c.index(), 2);
    assert_eq!(dev.native_window_pointer(&b), 200);
    for crtc in [31u32, 32, 33] {
        assert!(matches!(dev.create_surface(crtc, Some(9)), Err(GbmError::AlreadyRegistered)));
    }
}

#[test]
fn second_surface_on_live_crtc_is_refused() {
    let mut dev = GbmDevice::new(1);
    let a = dev.create_surface(40, Some(100)).unwrap();
    assert!(matches!(dev.create_surface(40, Some(101)), Err(GbmError::AlreadyRegistered)));
    assert!(dev.owns(&a));
    assert_eq!(dev.native_window_pointer(&a), 100);
}

#[test]
fn allocator_refusal_fails_creation() {
    let mut dev = GbmDevice::new(1);
    assert!(matches!(dev.create_surface(41, None), Err(GbmError::SurfaceCreationFailed)));
    let a = dev.create_surface(41, Some(7)).unwrap();
    assert_eq!(a.index(), 0);
}

#[test]
fn crtc_is_free_again_after_destroy() {
    let mut dev = GbmDevice::new(1);
    let a = dev.create_surface(42, Some(100)).unwrap();
    dev.destroy_surface(a);
    let b = dev.create_surface(42, Some(101)).unwrap();
    assert_eq!(b.index(), 1);
    assert_eq!(dev.native_window_pointer(&b), 101);
}

#[test]
fn swap_twice_without_completion_is_pending() {
    let mut dev = GbmDevice::new(1);
    let s = dev.create_surface(50, Some(100)).unwrap();
    assert_eq!(dev.swap_buffers(&s, 7), Ok(PageFlip { crtc: 50, frame_buffer: 7 }));
    assert_eq!(dev.swap_buffers(&s, 8), Err(SwapBuffersError::AlreadySwapped));
}

#[test]
fn swap_after_completion_succeeds() {
    let mut dev = GbmDevice::new(1);
    let s = dev.create_surface(51, Some(100)).unwrap();
    assert!(dev.swap_buffers(&s, 7).is_ok());
    dev.page_flip_complete(51);
    assert_eq!(dev.swap_buffers(&s, 8), Ok(PageFlip { crtc: 51, frame_buffer: 8 }));
}

#[test]
fn rejected_flip_clears_pending() {
    let mut dev = GbmDevice::new(1);
    let s = dev.create_surface(52, Some(100)).unwrap();
    assert!(dev.swap_buffers(&s, 7).is_ok());
    assert_eq!(dev.page_flip_failed(52), SwapBuffersError::Rejected);
    assert!(dev.swap_buffers(&s, 8).is_ok());
}

#[test]
fn swap_while_paused_is_unavailable() {
    let mut dev = GbmDevice::new(1);
    let s = dev.create_surface(53, Some(100)).unwrap();
    dev.pause();
    assert!(!dev.is_active());
    assert_eq!(dev.swap_buffers(&s, 7), Err(SwapBuffersError::TemporarilyUnavailable));
}

#[test]
fn recreate_replaces_chain() {
    let mut dev = GbmDevice::new(1);
    let s = dev.create_surface(54, Some(100)).unwrap();
    assert!(!dev.needs_recreation(&s));
    dev.mark_needs_recreation(&s);
    assert!(dev.needs_recreation(&s));
    assert!(!dev.recreate(&s, None));
    assert!(dev.needs_recreation(&s));
    assert_eq!(dev.native_window_pointer(&s), 100);
    assert!(dev.recreate(&s, Some(200)));
    assert!(!dev.needs_recreation(&s));
    assert_eq!(dev.native_window_pointer(&s), 200);
}

#[test]
fn recreate_drops_pending_flip() {
    let mut dev = GbmDevice::new(1);
    let s = dev.create_surface(55, Some(100)).unwrap();
    assert!(dev.swap_buffers(&s, 7).is_ok());
    assert!(dev.recreate(&s, Some(200)));
    assert!(dev.swap_buffers(&s, 8).is_ok());
}

#[test]
fn surface_of_another_device_is_not_owned() {
    let mut first = GbmDevice::new(1);
    let mut second = GbmDevice::new(2);
    let a = first.create_surface(56, Some(100)).unwrap();
    let b = second.create_surface(56, Some(200)).unwrap();
    assert_eq!(a.index(), b.index());
    assert!(first.owns(&a));
    assert!(!first.owns(&b));
    assert!(!second.owns(&a));
    assert_eq!(first.native(), 1);
}
