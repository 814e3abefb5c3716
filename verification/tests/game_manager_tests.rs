use nogame::game_manager::{FileManager, FpsTier, GameLevel, InputState, Key, PerformanceState};

const TIERS: [FpsTier; 6] = [
    FpsTier::Fps30,
    FpsTier::Fps60,
    FpsTier::Fps90,
    FpsTier::Fps120,
    FpsTier::Fps144,
    FpsTier::Fps240,
];

#[test]
fn all_false_on_default_state() {
    assert!(PerformanceState::default().all_false());
}

#[test]
fn all_false_with_each_single_flag() {
    for tier in TIERS {
        let s = PerformanceState::default().toggled(tier);
        assert!(!s.all_false());
        assert!(s.is_selected(tier));
    }
}

#[test]
fn initial_state_ticks_sixty() {
    let s = PerformanceState::initial();
    assert!(s.mid);
    assert!(!s.low && !s.ok && !s.high && !s.very_high && !s.epic);
    assert!(!s.all_false());
}

#[test]
fn frames_per_second_of_each_tier() {
    let fps: Vec<u32> = TIERS.iter().map(|t| t.frames_per_second()).collect();
    assert_eq!(fps, vec![30, 60, 90, 120, 144, 240]);
}

#[test]
fn toggle_selects_only_clicked_tier() {
    let s = PerformanceState::initial().toggled(FpsTier::Fps144);
    assert_eq!(
        s,
        PerformanceState { low: false, mid: false, ok: false, high: false, very_high: true, epic: false }
    );
}

#[test]
fn toggle_of_selected_tier_clears_everything() {
    let s = PerformanceState::initial().toggled(FpsTier::Fps60);
    assert!(s.all_false());
}

#[test]
fn toggle_twice_restores_flag_only() {
    let start = PerformanceState { low: true, mid: true, ok: false, high: false, very_high: false, epic: true };
    let s = start.toggled(FpsTier::Fps60).toggled(FpsTier::Fps60);
    assert_eq!(
        s,
        PerformanceState { low: false, mid: true, ok: false, high: false, very_high: false, epic: false }
    );
}

#[test]
fn arrows_act_as_wasd() {
    let mut input = InputState::default();
    input.apply_key(Key::ArrowUp, true);
    input.apply_key(Key::ArrowLeft, true);
    input.apply_key(Key::ShiftRight, true);
    assert!(input.w && input.a && input.shift);
    assert!(!input.s && !input.d && !input.q && !input.e);
    input.apply_key(Key::KeyW, false);
    assert!(!input.w);
    input.apply_key(Key::ArrowDown, true);
    input.apply_key(Key::ArrowRight, true);
    input.apply_key(Key::KeyQ, true);
    input.apply_key(Key::KeyE, true);
    assert!(input.s && input.d && input.q && input.e);
    input.apply_key(Key::ShiftLeft, false);
    assert!(!input.shift);
}

#[test]
fn other_keys_change_nothing() {
    let mut input = InputState::default();
    input.apply_key(Key::KeyD, true);
    let before = input;
    input.apply_key(Key::Other, true);
    input.apply_key(Key::Escape, true);
    assert_eq!(input, before);
}

#[test]
fn base_level_assets() {
    assert_eq!(GameLevel::Base.scene_name(), "base scene");
    let files = FileManager::for_level(GameLevel::Base);
    assert_eq!(files.model_paths, vec!["catdoor_edited".to_string()]);
    assert_eq!(files.transparency_paths, vec!["door".to_string()]);
    assert_eq!(files.audio_paths, vec!["jog.mp3".to_string()]);
}
