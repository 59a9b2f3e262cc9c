use gbm_backend::{CursorCall, CursorImage, GbmDevice, SurfaceRestore, SwapBuffersError};
use gbm_backend::session::{first_cursor_call, next_cursor_call};

#[test]
fn resume_reflips_presented_buffer() {
    let mut dev = GbmDevice::new(1);
    let s = dev.create_surface(60, Some(100)).unwrap();
    assert!(dev.swap_buffers(&s, 9).is_ok());
    dev.page_flip_complete(60);
    let mut obs = dev.observer();
    obs.pause(&mut dev);
    let restores = obs.activate(&mut dev);
    assert_eq!(restores, vec![SurfaceRestore { crtc: 60, flip: Some(9), cursor: None }]);
    assert_eq!(restores.iter().filter(|r| r.crtc == 60 && r.flip == Some(9)).count(), 1);
    // the replayed flip is the pending one
    assert_eq!(dev.swap_buffers(&s, 10), Err(SwapBuffersError::AlreadySwapped));
    dev.page_flip_complete(60);
    assert!(dev.swap_buffers(&s, 10).is_ok());
}

#[test]
fn resume_without_presented_buffer_issues_no_flip() {
    let mut dev = GbmDevice::new(1);
    let s = dev.create_surface(61, Some(100)).unwrap();
    let cursor = CursorImage { buffer: 5, width: 64, height: 64, hotspot_x: 3, hotspot_y: 4 };
    dev.set_cursor(&s, Some(cursor));
    let mut obs = dev.observer();
    obs.pause(&mut dev);
    let restores = obs.activate(&mut dev);
    assert_eq!(restores, vec![SurfaceRestore { crtc: 61, flip: None, cursor: Some(cursor) }]);
    assert!(dev.swap_buffers(&s, 1).is_ok());
}

#[test]
fn dropped_surface_is_purged_on_resume() {
    let mut dev = GbmDevice::new(1);
    let a = dev.create_surface(70, Some(100)).unwrap();
    let b = dev.create_surface(71, Some(200)).unwrap();
    assert!(dev.swap_buffers(&b, 4).is_ok());
    dev.page_flip_complete(71);
    dev.destroy_surface(a);
    let mut obs = dev.observer();
    obs.pause(&mut dev);
    let first = obs.activate(&mut dev);
    assert_eq!(first, vec![SurfaceRestore { crtc: 71, flip: Some(4), cursor: None }]);
    let second = obs.activate(&mut dev);
    assert_eq!(second, first);
    assert!(dev.owns(&b));
}

#[test]
fn pending_flip_is_abandoned_on_pause() {
    let mut dev = GbmDevice::new(1);
    let s = dev.create_surface(72, Some(100)).unwrap();
    assert!(dev.swap_buffers(&s, 4).is_ok());
    let mut obs = dev.observer();
    obs.pause(&mut dev);
    let restores = obs.activate(&mut dev);
    assert_eq!(restores[0].flip, None);
    assert!(dev.swap_buffers(&s, 5).is_ok());
}

#[test]
fn cursor_hotspot_success_ends_restore() {
    let call = first_cursor_call();
    assert_eq!(call, CursorCall::WithHotspot);
    assert_eq!(next_cursor_call(call, true), None);
}

#[test]
fn cursor_falls_back_to_legacy_once() {
    let call = first_cursor_call();
    let next = next_cursor_call(call, false);
    assert_eq!(next, Some(CursorCall::Legacy));
    assert_eq!(next_cursor_call(CursorCall::Legacy, false), None);
    assert_eq!(next_cursor_call(CursorCall::Legacy, true), None);
}

#[test]
fn cursor_failure_does_not_stop_other_outputs() {
    let mut dev = GbmDevice::new(1);
    let a = dev.create_surface(80, Some(100)).unwrap();
    let b = dev.create_surface(81, Some(200)).unwrap();
    let cursor = CursorImage { buffer: 5, width: 64, height: 64, hotspot_x: 0, hotspot_y: 0 };
    dev.set_cursor(&a, Some(cursor));
    dev.set_cursor(&b, Some(cursor));
    let mut obs = dev.observer();
    let restores = obs.activate(&mut dev);
    let mut attempts: Vec<(u32, CursorCall)> = Vec::new();
    for r in &restores {
        let mut call = first_cursor_call();
        loop {
            attempts.push((r.crtc, call));
            match next_cursor_call(call, false) {
                Some(next) => call = next,
                None => break,
            }
        }
    }
    assert_eq!(
        attempts,
        vec![
            (80, CursorCall::WithHotspot),
            (80, CursorCall::Legacy),
            (81, CursorCall::WithHotspot),
            (81, CursorCall::Legacy),
        ]
    );
}
