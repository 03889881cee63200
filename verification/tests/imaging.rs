use wmacro::downsample::downsample_box;
use wmacro::hotkeys::{hotkey_action, session_step, HotkeyAction, HotkeyBindings, HotkeyTarget, PendingBinds, Session, SessionAction};
use wmacro::integral::IntegralImage;
use wmacro::outputs::{match_output, OutputInfo};
use wmacro::pixels::{copy_region_rgba, PixelFormat};
use wmacro::settings::RecordHotkeyBehavior;
use wmacro::smooth::next_5smooth;
use wmacro::types::{Hotkey, HotkeyEvent, Modifiers};

#[test]
fn smooth_sizes() {
    assert_eq!(next_5smooth(0), 1);
    assert_eq!(next_5smooth(1), 1);
    assert_eq!(next_5smooth(7), 8);
    assert_eq!(next_5smooth(11), 12);
    assert_eq!(next_5smooth(97), 100);
    assert_eq!(next_5smooth(1000), 1000);
    assert_eq!(next_5smooth(1001), 1024);
    assert_eq!(next_5smooth(1025), 1080);
}

#[test]
fn integral_rectangles() {
    // 3x2 image
    let img = vec![1u8, 2, 3, 4, 5, 6];
    let t = IntegralImage::build(&img, 3, 2);
    assert_eq!(t.stride, 4);
    assert_eq!(t.query(0, 0, 3, 2), (21, 91));
    assert_eq!(t.query(1, 0, 2, 2), (16, 74));
    assert_eq!(t.query(2, 1, 1, 1), (6, 36));
    assert_eq!(t.query(1, 1, 0, 1), (0, 0));
}

#[test]
fn box_downsampling_averages_blocks() {
    // 5x3 image shrunk by 2: a 2x1 result; the last column and row are dropped
    let img = vec![0u8, 2, 4, 6, 9, 10, 12, 14, 17, 9, 9, 9, 9, 9, 9];
    let (out, w, h) = downsample_box(&img, 5, 3, 2);
    assert_eq!((w, h), (2, 1));
    assert_eq!(out, vec![6, 10]);
    let (same, w1, h1) = downsample_box(&img, 5, 3, 1);
    assert_eq!((w1, h1), (5, 3));
    assert_eq!(same, img);
}

#[test]
fn rgba_copy_reorders_channels() {
    // one row of two BGRA pixels, then a row past the end of the buffer
    let src = vec![1u8, 2, 3, 4, 5, 6, 7, 8];
    let mut dst = vec![9u8; 16];
    copy_region_rgba(&src, 8, PixelFormat::Bgra, 0, 0, 2, 2, &mut dst);
    assert_eq!(&dst[..8], &[3, 2, 1, 255, 7, 6, 5, 255]);
    assert_eq!(&dst[8..], &[9u8; 8]);
}

fn out(name: &str, pos: (i32, i32), size: (u32, u32)) -> OutputInfo {
    OutputInfo { name: name.to_string(), pos, size }
}

#[test]
fn stream_outputs_match_by_name_then_geometry() {
    let outs = vec![out("DP-1", (0, 0), (1920, 1080)), out("HDMI-A-1", (1920, 0), (2560, 1440))];
    assert_eq!(match_output(&outs, None, None, Some("HDMI-A-1")).unwrap().name, "HDMI-A-1");
    assert_eq!(match_output(&outs, Some((2560, 1440)), Some((1920, 0)), None).unwrap().name, "HDMI-A-1");
    assert_eq!(match_output(&outs, Some((100, 100)), Some((2000, 10)), None).unwrap().name, "HDMI-A-1");
    assert_eq!(match_output(&outs, Some((1920, 1080)), Some((-5000, 0)), None).unwrap().name, "DP-1");
    let err = match_output(&outs, None, None, Some("nope")).unwrap_err();
    assert_eq!(err, "could not match the captured stream to a known output (2 outputs available)");
    let one = vec![out("", (0, 0), (10, 10))];
    assert_eq!(match_output(&one, None, None, None).unwrap().size, (10, 10));
}

fn none_pending() -> PendingBinds {
    PendingBinds { record: false, abort_record: false, play: false, abort_play: false, step_play: false, capture: false }
}

fn bindings() -> HotkeyBindings {
    HotkeyBindings {
        record: Some(Hotkey::plain(59)),
        abort_record: None,
        play: Some(Hotkey::plain(60)),
        abort_play: None,
        step_play: None,
        capture: None,
    }
}

#[test]
fn hotkeys_trigger_and_bind() {
    let mut mods = Modifiers::default();
    let mut pending = none_pending();
    let mut b = bindings();
    let press = |code| HotkeyEvent { code, pressed: true };
    assert_eq!(hotkey_action(&press(59), &mut mods, &mut pending, &mut b), HotkeyAction::Trigger(HotkeyTarget::Record));
    assert_eq!(hotkey_action(&HotkeyEvent { code: 59, pressed: false }, &mut mods, &mut pending, &mut b), HotkeyAction::Ignore);
    // holding ctrl changes which hotkey matches
    assert_eq!(hotkey_action(&press(29), &mut mods, &mut pending, &mut b), HotkeyAction::Ignore);
    assert!(mods.ctrl);
    assert_eq!(hotkey_action(&press(60), &mut mods, &mut pending, &mut b), HotkeyAction::Ignore);
    pending.capture = true;
    let got = hotkey_action(&press(61), &mut mods, &mut pending, &mut b);
    let mut ctrl = Modifiers::default();
    ctrl.ctrl = true;
    assert_eq!(got, HotkeyAction::Bind(HotkeyTarget::Capture, Hotkey::new(61, ctrl)));
    assert!(!pending.capture);
    assert_eq!(hotkey_action(&press(61), &mut mods, &mut pending, &mut b), HotkeyAction::Trigger(HotkeyTarget::Capture));
}

#[test]
fn session_transitions() {
    let mut s = Session { recording: false, record_paused: false, playing: true, play_paused: false };
    assert_eq!(session_step(HotkeyTarget::Record, &mut s, RecordHotkeyBehavior::Append), SessionAction::StopPlaybackFirst);
    assert_eq!(session_step(HotkeyTarget::Play, &mut s, RecordHotkeyBehavior::Append), SessionAction::PlayPaused(true));
    assert!(s.play_paused);
    assert_eq!(session_step(HotkeyTarget::StepPlay, &mut s, RecordHotkeyBehavior::Append), SessionAction::StepOnce);
    assert_eq!(session_step(HotkeyTarget::AbortPlay, &mut s, RecordHotkeyBehavior::Append), SessionAction::AbortPlayback);
    assert!(!s.playing && !s.play_paused);
    assert_eq!(session_step(HotkeyTarget::AbortPlay, &mut s, RecordHotkeyBehavior::Append), SessionAction::Stay);
    assert_eq!(
        session_step(HotkeyTarget::Record, &mut s, RecordHotkeyBehavior::Overwrite),
        SessionAction::StartRecording { append: false }
    );
    s.recording = true;
    assert_eq!(session_step(HotkeyTarget::Record, &mut s, RecordHotkeyBehavior::Append), SessionAction::RecordPaused(true));
    assert_eq!(session_step(HotkeyTarget::StepPlay, &mut s, RecordHotkeyBehavior::Append), SessionAction::StopRecordingFirst);
    assert_eq!(session_step(HotkeyTarget::AbortRecord, &mut s, RecordHotkeyBehavior::Append), SessionAction::StopRecording);
    s.recording = false;
    assert_eq!(session_step(HotkeyTarget::StepPlay, &mut s, RecordHotkeyBehavior::Append), SessionAction::BeginPlayback { paused: true });
    assert_eq!(session_step(HotkeyTarget::Capture, &mut s, RecordHotkeyBehavior::Append), SessionAction::CaptureCursor);
}
