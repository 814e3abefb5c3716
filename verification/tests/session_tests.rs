use nogame::game_manager::{FpsTier, GameLevel, GameState, InputState, Key, PerformanceState};
use nogame::session::{
    camera_step, footsteps, move_intent, CameraStep, FootstepAction, IdleWork, Session, WindowInput,
};

fn key(k: Key, pressed: bool) -> WindowInput {
    WindowInput::KeyInput { key: k, pressed }
}

fn in_play() -> Session {
    let mut s = Session::new();
    s.on_scene_delivered();
    s.on_menu(true, false, false);
    s
}

#[test]
fn starts_loading() {
    let s = Session::new();
    assert_eq!(s.game_state, GameState::Loading);
    assert!(!s.playing && !s.mouse_locked && s.should_draw && s.should_load && !s.scene_loaded);
    assert_eq!(s.fps_state, PerformanceState::initial());
    assert_eq!(s.target_fps, 60);
    assert_eq!(s.game_level, GameLevel::Base);
}

#[test]
fn first_idle_frame_starts_loading_and_polls() {
    let mut s = Session::new();
    let w = s.idle_tick();
    assert_eq!(w, IdleWork { load_level: Some(GameLevel::Base), poll_loader: true, refresh: true });
    assert!(!s.should_load && !s.should_draw);
    let w2 = s.idle_tick();
    assert_eq!(w2, IdleWork { load_level: None, poll_loader: true, refresh: false });
}

#[test]
fn delivered_scene_shows_menu_and_stops_polling() {
    let mut s = Session::new();
    s.idle_tick();
    s.on_scene_delivered();
    assert_eq!(s.game_state, GameState::Menu);
    let w = s.idle_tick();
    assert!(!w.poll_loader);
}

#[test]
fn ui_takes_events_outside_play() {
    let mut s = Session::new();
    s.on_scene_delivered();
    let before = s;
    let r = s.on_window_event(WindowInput::CloseRequested, true, true);
    assert!(!r.exit);
    assert_eq!(s, before);
}

#[test]
fn menu_plays_sound_when_silent() {
    let mut s = Session::new();
    s.on_scene_delivered();
    let r = s.on_window_event(WindowInput::Other, false, false);
    assert!(r.play_menu_sound);
    let r = s.on_window_event(WindowInput::Other, false, true);
    assert!(!r.play_menu_sound);
    let mut loading = Session::new();
    let r = loading.on_window_event(WindowInput::Other, false, false);
    assert!(!r.play_menu_sound);
}

#[test]
fn play_button_hands_over_control() {
    let mut s = Session::new();
    s.on_scene_delivered();
    let grab = s.on_menu(true, false, false);
    assert!(grab);
    assert_eq!(s.game_state, GameState::Play);
    assert!(s.playing && s.mouse_locked);
}

#[test]
fn settings_and_exit_buttons() {
    let mut s = Session::new();
    s.on_scene_delivered();
    assert!(!s.on_menu(false, true, false));
    assert_eq!(s.game_state, GameState::Settings);
    s.on_settings_back(false);
    assert_eq!(s.game_state, GameState::Settings);
    s.on_settings_back(true);
    assert_eq!(s.game_state, GameState::Menu);
    s.on_menu(false, false, true);
    assert_eq!(s.game_state, GameState::Exit);
}

#[test]
fn keys_count_only_in_play() {
    let mut s = Session::new();
    s.on_scene_delivered();
    s.on_window_event(key(Key::KeyW, true), false, true);
    assert_eq!(s.input, InputState::default());
    let mut p = in_play();
    p.on_window_event(key(Key::KeyW, true), true, false);
    assert!(p.input.w);
}

#[test]
fn escape_leaves_play() {
    let mut s = in_play();
    s.on_window_event(key(Key::KeyD, true), false, false);
    let r = s.on_window_event(key(Key::Escape, true), false, false);
    assert!(r.release_cursor);
    assert_eq!(s.game_state, GameState::Menu);
    assert!(!s.playing && !s.mouse_locked);
    assert_eq!(s.input, InputState::default());
}

#[test]
fn escape_release_does_nothing() {
    let mut s = in_play();
    let r = s.on_window_event(key(Key::Escape, false), false, false);
    assert!(!r.release_cursor);
    assert_eq!(s.game_state, GameState::Play);
}

#[test]
fn resize_waits_for_loading() {
    let mut s = in_play();
    s.should_load = true;
    let r = s.on_window_event(WindowInput::Resized, false, false);
    assert!(!r.reconfigure_surface);
    s.should_load = false;
    let r = s.on_window_event(WindowInput::Resized, false, false);
    assert!(r.reconfigure_surface);
}

#[test]
fn click_redraw_and_close() {
    let mut s = in_play();
    s.should_draw = false;
    let r = s.on_window_event(WindowInput::MouseLeftPressed, false, false);
    assert!(r.stop_footsteps && s.should_draw);
    let r = s.on_window_event(WindowInput::RedrawRequested, false, false);
    assert!(r.redraw && !r.exit);
    let r = s.on_window_event(WindowInput::CloseRequested, false, false);
    assert!(r.exit);
}

#[test]
fn mouse_turns_view_only_when_held() {
    let mut s = Session::new();
    s.should_draw = false;
    assert!(!s.on_device_event(true));
    assert!(s.should_draw);
    let mut p = in_play();
    assert!(p.on_device_event(true));
    assert!(!p.on_device_event(false));
}

#[test]
fn fps_checkbox_sets_target() {
    let mut s = Session::new();
    s.select_fps(FpsTier::Fps144);
    assert_eq!(s.target_fps, 144);
    assert!(s.fps_state.very_high && !s.fps_state.mid);
    s.select_fps(FpsTier::Fps144);
    assert!(s.fps_state.all_false());
    assert_eq!(s.target_fps, 144);
}

#[test]
fn movement_intent_from_keys() {
    let mut input = InputState::default();
    assert_eq!(move_intent(&input).moving, false);
    assert_eq!(move_intent(&input).speed, 8);
    input.w = true;
    input.a = true;
    input.shift = true;
    let m = move_intent(&input);
    assert_eq!((m.forward, m.strafe, m.lift, m.moving, m.speed), (1, -1, 0, true, 12));
    input.s = true;
    input.q = true;
    let m = move_intent(&input);
    assert_eq!((m.forward, m.strafe, m.lift), (0, -1, -1));
}

#[test]
fn footstep_sound() {
    assert_eq!(footsteps(false, true), FootstepAction::Start);
    assert_eq!(footsteps(true, true), FootstepAction::Keep);
    assert_eq!(footsteps(true, false), FootstepAction::FadeOut);
    assert_eq!(footsteps(false, false), FootstepAction::FadeOut);
}

#[test]
fn camera_steps() {
    assert_eq!(camera_step(false, false), CameraStep::Still);
    assert_eq!(camera_step(false, true), CameraStep::Turn);
    assert_eq!(camera_step(true, false), CameraStep::Walk);
    assert_eq!(camera_step(true, true), CameraStep::Walk);
}
