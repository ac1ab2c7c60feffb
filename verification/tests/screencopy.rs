use ambient_led::screencopy::{
    find_output, BufferEvent, BufferState, CaptureClient, CaptureError, CaptureSession,
    CaptureStep, CopyEvent, FrameEvent, OutputInfo,
};

fn output(name: Option<&str>, description: Option<&str>) -> OutputInfo {
    OutputInfo {
        name: name.map(|s| s.to_string()),
        description: description.map(|s| s.to_string()),
        mode: None,
    }
}

#[test]
fn first_round_allocates_then_copies() {
    let mut s = CaptureSession::new(4, 0, 0, 1920, 150);
    assert!(!s.failed());
    assert_eq!(s.buffer(), BufferState::Uninitialized);

    let step = s.begin().unwrap();
    assert_eq!(
        step,
        CaptureStep::RequestFrame {
            destroy_previous: false,
            output: 4,
            x: 0,
            y: 0,
            width: 1920,
            height: 150
        }
    );
    assert!(s.failed(), "pessimistically failed until the copy completes");

    let step = s
        .frame_event(FrameEvent::DmabufNegotiated { fourcc: 0x34325258, width: 1920, height: 150 })
        .unwrap();
    assert_eq!(step, CaptureStep::CreateBuffer { fourcc: 0x34325258, width: 1920, height: 150 });
    assert_eq!(s.negotiated(), Some((0x34325258, 1920, 150)));

    let step = s.buffer_event(BufferEvent::Created { handle: 7 }).unwrap();
    assert_eq!(step, CaptureStep::CopyFrame { handle: 7 });
    assert_eq!(s.buffer(), BufferState::Ready(7));

    s.copy_event(CopyEvent::Ready).unwrap();
    assert!(!s.failed());
}

#[test]
fn second_round_reuses_buffer() {
    let mut s = CaptureSession::new(4, 0, 930, 1920, 150);
    s.begin().unwrap();
    s.frame_event(FrameEvent::DmabufNegotiated { fourcc: 1, width: 1920, height: 150 })
        .unwrap();
    s.buffer_event(BufferEvent::Created { handle: 42 }).unwrap();
    s.copy_event(CopyEvent::Ready).unwrap();

    // The next round destroys only the frame handle and goes straight from
    // the frame reply to the copy, on the same buffer handle.
    let step = s.begin().unwrap();
    assert_eq!(
        step,
        CaptureStep::RequestFrame {
            destroy_previous: true,
            output: 4,
            x: 0,
            y: 930,
            width: 1920,
            height: 150
        }
    );
    let step = s
        .frame_event(FrameEvent::DmabufNegotiated { fourcc: 1, width: 1920, height: 150 })
        .unwrap();
    assert_eq!(step, CaptureStep::CopyFrame { handle: 42 });
    assert_eq!(s.buffer(), BufferState::Ready(42));
    s.copy_event(CopyEvent::Ready).unwrap();
    assert!(!s.failed());
}

#[test]
fn failed_session_stays_failed() {
    let mut s = CaptureSession::new(1, 0, 0, 64, 64);
    s.begin().unwrap();
    assert_eq!(
        s.frame_event(FrameEvent::Failed),
        Err(CaptureError::CaptureRequestFailed)
    );
    assert!(s.failed());
    // Further rounds refuse immediately, without any protocol step.
    assert_eq!(s.begin(), Err(CaptureError::SessionFailed));
    assert_eq!(s.begin(), Err(CaptureError::SessionFailed));
    assert!(s.failed());
}

#[test]
fn buffer_creation_failure_discards_buffer() {
    let mut s = CaptureSession::new(1, 0, 0, 64, 64);
    s.begin().unwrap();
    s.frame_event(FrameEvent::DmabufNegotiated { fourcc: 1, width: 64, height: 64 })
        .unwrap();
    assert_eq!(
        s.buffer_event(BufferEvent::Failed),
        Err(CaptureError::BufferCreationFailed)
    );
    assert!(s.failed());
    assert_eq!(s.buffer(), BufferState::Uninitialized);
}

#[test]
fn copy_failure_marks_failed() {
    let mut s = CaptureSession::new(1, 0, 0, 64, 64);
    s.begin().unwrap();
    s.frame_event(FrameEvent::DmabufNegotiated { fourcc: 1, width: 64, height: 64 })
        .unwrap();
    s.buffer_event(BufferEvent::Created { handle: 3 }).unwrap();
    assert_eq!(s.copy_event(CopyEvent::Failed), Err(CaptureError::CopyFailed));
    assert!(s.failed());
    assert_eq!(s.begin(), Err(CaptureError::SessionFailed));
}

#[test]
fn client_requires_both_capabilities() {
    assert_eq!(
        CaptureClient::new(vec![], false, true).err(),
        Some(CaptureError::MissingCapability)
    );
    assert_eq!(
        CaptureClient::new(vec![], true, false).err(),
        Some(CaptureError::MissingCapability)
    );
    assert!(CaptureClient::new(vec![], true, true).is_ok());
}

#[test]
fn client_runs_rounds_by_id() {
    let mut c = CaptureClient::new(vec![output(Some("DP-1"), None)], true, true).unwrap();
    c.set_capture_session(9, CaptureSession::new(0, 0, 0, 8, 8));
    assert_eq!(
        c.begin_capture(5),
        Err(CaptureError::SessionNotFound(5))
    );
    let step = c.begin_capture(9).unwrap();
    assert!(matches!(step, CaptureStep::RequestFrame { destroy_previous: false, .. }));
    let s = c.session_mut(9).unwrap();
    s.frame_event(FrameEvent::DmabufNegotiated { fourcc: 2, width: 8, height: 8 })
        .unwrap();
    s.buffer_event(BufferEvent::Created { handle: 1 }).unwrap();
    s.copy_event(CopyEvent::Ready).unwrap();
    assert!(!c.session_mut(9).unwrap().failed());
    // Replacing a failed session is the recovery path.
    c.set_capture_session(9, CaptureSession::new(0, 0, 0, 8, 8));
    assert!(!c.session_mut(9).unwrap().failed());
}

#[test]
fn find_output_prefers_exact_name() {
    // Output 0 has no description, which matches any target in the
    // description pass — but the whole name pass runs first, so the exact
    // name wins.
    let outputs = vec![
        output(Some("DP-1"), None),
        output(Some("DP-3"), Some("piano monitor")),
    ];
    let target = "DP-3".to_string();
    assert_eq!(find_output(&outputs, &target), Some(1));
}

#[test]
fn find_output_falls_back_to_description() {
    let outputs = vec![
        output(Some("DP-1"), Some("left monitor")),
        output(Some("DP-2"), Some("big television")),
    ];
    let target = "the big television in the corner".to_string();
    assert_eq!(find_output(&outputs, &target), Some(1));
}

#[test]
fn find_output_unnamed_matches_empty_target() {
    let outputs = vec![output(Some("DP-1"), Some("desk")), output(None, Some("x"))];
    let target = String::new();
    assert_eq!(find_output(&outputs, &target), Some(1));
}

#[test]
fn find_output_no_match() {
    let outputs = vec![output(Some("DP-1"), Some("left monitor"))];
    let target = "HDMI-2".to_string();
    assert_eq!(find_output(&outputs, &target), None);
}
