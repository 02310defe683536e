use wy_ui::frame_subs::FrameSubs;

/// Runs one frame: each live subscription's payload says whether it stops.
fn frame(subs: &mut FrameSubs<(&'static str, bool)>) -> Vec<&'static str> {
    let mut stopped = Vec::new();
    for i in 0..subs.len() {
        let stop = subs.is_live(i) && subs.payload_mut(i).map(|p| p.1).unwrap_or(false);
        stopped.push(stop);
    }
    subs.end_tick(&stopped).into_iter().map(|p| p.0).collect()
}

#[test]
fn winit_frame_source_removes_finished() {
    let mut subs = FrameSubs::new();
    subs.subscribe(("done", true));
    assert_eq!(subs.active_count(), 1);
    assert_eq!(frame(&mut subs), vec!["done"]);
    assert_eq!(subs.active_count(), 0);
    assert_eq!(subs.len(), 0);
}

#[test]
fn winit_frame_source_cancel() {
    let mut subs = FrameSubs::new();
    let h = subs.subscribe(("a", false));
    assert!(subs.has_active_subs());
    assert!(subs.cancel(h));
    assert!(!subs.has_active_subs());
    assert!(!subs.cancel(h));
    assert!(frame(&mut subs).is_empty());
    assert_eq!(subs.len(), 0);
}

#[test]
fn winit_frame_source_multiple_subs() {
    let mut subs = FrameSubs::new();
    subs.subscribe(("a", false));
    subs.subscribe(("b", false));
    let called = (0..subs.len()).filter(|&i| subs.is_live(i)).count();
    assert_eq!(called, 2);
    assert!(frame(&mut subs).is_empty());
    assert_eq!(subs.active_count(), 2);
}

#[test]
fn frame_subs_stopping_ones_finish_last_first() {
    let mut subs = FrameSubs::new();
    assert_eq!(subs.subscribe(("a", false)), 0);
    assert_eq!(subs.subscribe(("b", true)), 1);
    assert_eq!(subs.subscribe(("c", true)), 2);
    assert_eq!(subs.subscribe(("d", false)), 3);
    assert_eq!(subs.active_count(), 4);
    assert_eq!(frame(&mut subs), vec!["c", "b"]);
    assert_eq!(subs.active_count(), 2);
    assert_eq!(subs.payload_mut(0).map(|p| p.0), Some("a"));
    assert_eq!(subs.payload_mut(1).map(|p| p.0), Some("d"));
    assert!(subs.payload_mut(2).is_none());
}

#[test]
fn frame_subs_interrupted_is_dropped() {
    let mut subs = FrameSubs::new();
    subs.subscribe(("a", false));
    subs.subscribe(("b", false));
    assert!(subs.interrupt(0));
    assert!(!subs.interrupt(0));
    assert!(!subs.is_live(0));
    assert_eq!(subs.active_count(), 1);
    assert!(frame(&mut subs).is_empty());
    assert_eq!(subs.len(), 1);
    assert_eq!(subs.payload_mut(0).map(|p| p.0), Some("b"));
}
