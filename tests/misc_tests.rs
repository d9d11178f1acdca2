use voxel_rs::fps::FpsCounter;
use voxel_rs::settings::Settings;
use voxel_rs::ui::UiError;

#[test]
fn fps_counts_frames_over_two_seconds() {
    let mut f = FpsCounter::new();
    for t in 0..10 {
        f.add_frame_at(t * 100);
    }
    assert_eq!(f.fps(), 5);
    // a two-second gap drops every earlier frame
    f.add_frame_at(3000);
    assert_eq!(f.frames, vec![3000]);
    assert_eq!(f.fps(), 0);
}

#[test]
fn fps_keeps_recent_frames() {
    let mut f = FpsCounter::new();
    f.add_frame_at(0);
    f.add_frame_at(1999);
    assert_eq!(f.frames, vec![0, 1999]);
    f.add_frame_at(2500);
    assert_eq!(f.frames, vec![0, 1999, 2500]);
    f.add_frame();
    assert_eq!(f.frames.len() >= 1, true);
}

#[test]
fn default_settings() {
    let s = Settings::default();
    assert_eq!(s.window_size, (1600, 900));
    assert!(!s.invert_mouse);
    assert_eq!(s.render_distance, (0, 0, 0, 0, 0, 0));
}

#[test]
fn ui_error_keeps_message() {
    assert_eq!(UiError::new("bad layout".to_string()).what, "bad layout");
}
