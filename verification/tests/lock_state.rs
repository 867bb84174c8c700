use woven_shell::lock::{is_wallpaper_ext, pick_wallpaper, AuthResult, LockConfig, LockInput, LockPhase, LockSettings, LockState};

fn state() -> LockState {
    LockState::new(&LockSettings::default(), 1000)
}

#[test]
fn typing_and_enter_start_verification() {
    let mut s = state();
    assert!(s.phase == LockPhase::FadeIn);
    assert!(!s.handle_input(LockInput::Char('a'), 1100));
    assert!(!s.handle_input(LockInput::Char('b'), 1200));
    assert!(s.phase == LockPhase::Typing);
    assert_eq!(s.password, "ab");
    assert!(s.handle_input(LockInput::Enter, 1300));
    assert!(s.phase == LockPhase::Verifying);
    assert_eq!(s.phase_start_ms, 1300);
}

#[test]
fn input_ignored_while_verifying() {
    let mut s = state();
    s.handle_input(LockInput::Char('x'), 1100);
    s.handle_input(LockInput::Enter, 1200);
    assert!(!s.handle_input(LockInput::Char('y'), 1300));
    assert!(!s.handle_input(LockInput::Escape, 1300));
    assert!(!s.handle_input(LockInput::Enter, 1300));
    assert_eq!(s.password, "x");
    assert!(s.phase == LockPhase::Verifying);
}

#[test]
fn enter_on_empty_password_does_nothing() {
    let mut s = state();
    assert!(!s.handle_input(LockInput::Enter, 1100));
    assert!(s.phase == LockPhase::FadeIn);
}

#[test]
fn failed_auth_shows_error_then_resets() {
    let mut s = state();
    s.handle_input(LockInput::Char('x'), 1100);
    s.handle_input(LockInput::Enter, 1200);
    s.on_auth_result(&AuthResult::Failed, 1500);
    assert!(s.phase == LockPhase::Error);
    assert!(s.password.is_empty());
    assert!(s.is_animating(1600));
    s.maybe_reset_error(2300);
    assert!(s.phase == LockPhase::Error);
    s.maybe_reset_error(2301);
    assert!(s.phase == LockPhase::Idle);
    assert!(s.error_start_ms.is_none());
}

#[test]
fn pam_error_also_shows_error() {
    let mut s = state();
    s.on_auth_result(&AuthResult::Error("PAM init".to_string()), 10);
    assert!(s.phase == LockPhase::Error);
}

#[test]
fn success_unlocks_after_fade() {
    let mut s = state();
    s.on_auth_result(&AuthResult::Success, 5000);
    assert!(s.phase == LockPhase::Unlocking);
    assert!(!s.unlock_done(5199));
    assert!(s.unlock_done(5200));
    assert!(s.is_animating(5100));
    assert!(!s.is_animating(5200));
}

#[test]
fn backspace_to_empty_goes_idle() {
    let mut s = state();
    s.handle_input(LockInput::Char('a'), 1100);
    s.handle_input(LockInput::Backspace, 1200);
    assert!(s.password.is_empty());
    assert!(s.phase == LockPhase::Idle);
    s.handle_input(LockInput::Char('a'), 1300);
    s.handle_input(LockInput::Escape, 1400);
    assert!(s.password.is_empty());
    assert!(s.phase == LockPhase::Idle);
}

#[test]
fn fade_in_finishes() {
    let mut s = state();
    s.advance_fade_in(1199);
    assert!(s.phase == LockPhase::FadeIn);
    s.advance_fade_in(1200);
    assert!(s.phase == LockPhase::Idle);
}

#[test]
fn default_config() {
    let c = LockConfig::default();
    assert_eq!(c.lock.blur_radius, 20);
    assert_eq!(c.lock.clock_format, "%H:%M");
    match c.background {
        woven_shell::lock::BackgroundSettings::Random { dir } => assert_eq!(dir, "~/Pictures/Wallpapers"),
        _ => panic!("expected random background"),
    }
}

#[test]
fn wallpaper_choice() {
    assert!(is_wallpaper_ext("jpg") && is_wallpaper_ext("webp") && is_wallpaper_ext("jpeg"));
    assert!(!is_wallpaper_ext("JPG") && !is_wallpaper_ext("gif") && !is_wallpaper_ext(""));
    assert_eq!(pick_wallpaper(0, 17), None);
    assert_eq!(pick_wallpaper(5, 17), Some(2));
}

#[test]
fn typing_restarts_the_blink_and_keeps_the_other_timers() {
    let mut s = state();
    s.phase = LockPhase::Idle;
    s.error_start_ms = Some(500);
    s.handle_input(LockInput::Char('a'), 4000);
    assert_eq!(s.cursor_blink_ms, 4000);
    assert_eq!(s.phase_start_ms, 1000);
    assert_eq!(s.error_start_ms, Some(500));
    s.handle_input(LockInput::Backspace, 5000);
    assert_eq!(s.cursor_blink_ms, 5000);
    assert!(s.phase == LockPhase::Idle);
    s.handle_input(LockInput::Char('b'), 6000);
    s.handle_input(LockInput::Escape, 7000);
    assert_eq!(s.cursor_blink_ms, 6000);
    assert!(s.password.is_empty());
}

#[test]
fn auth_result_keeps_the_other_fields() {
    let mut s = state();
    s.handle_input(LockInput::Char('x'), 2000);
    assert!(s.handle_input(LockInput::Enter, 3000));
    s.on_auth_result(&AuthResult::Success, 3500);
    assert!(s.phase == LockPhase::Unlocking);
    assert_eq!(s.phase_start_ms, 3500);
    assert_eq!(s.cursor_blink_ms, 2000);
    assert_eq!(s.password, "x");
    assert_eq!(s.error_start_ms, None);
}

#[test]
fn lock_waits_longer_for_outputs_than_the_bar() {
    assert_eq!(woven_shell::lock::LOCK_OUTPUT_ROUNDS, 100);
    assert_eq!(woven_shell::bar::BAR_OUTPUT_ROUNDS, 50);
}
