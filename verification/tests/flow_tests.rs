use maze_game::game::session::{EndMenuState, PlayKeys, PlaySession};
use maze_game::game::startup::{
    is_dev_password, StartupAction, StartupKeys, StartupMenu, StartupPendingBack, StartupState,
};
use maze_game::game::sound::SoundState;
use maze_game::game::story::{name_on_map_result, StoryInput, StoryPhaseKind};
use maze_game::game::text::type_name_chars;

fn keys() -> StartupKeys {
    StartupKeys {
        any_key: false,
        up: false,
        down: false,
        enter: false,
        escape: false,
        yes: false,
        no: false,
        backspace: false,
        chars: vec![],
    }
}

fn enter() -> StartupKeys {
    StartupKeys { enter: true, any_key: true, ..keys() }
}

fn escape() -> StartupKeys {
    StartupKeys { escape: true, any_key: true, ..keys() }
}

fn typed(s: &str) -> StartupKeys {
    StartupKeys { chars: s.chars().collect(), any_key: true, ..keys() }
}

fn play_keys() -> PlayKeys {
    PlayKeys {
        yes: false,
        no: false,
        enter: false,
        escape: false,
        restart: false,
        f1: false,
        f2: false,
        f3: false,
        f4: false,
        up: false,
        down: false,
        backspace: false,
        chars: vec![],
    }
}

#[test]
fn splash_then_new_run() {
    let mut m = StartupMenu::new();
    assert_eq!(m.step(&keys(), false, 0), (StartupAction::Nothing, false));
    assert_eq!(m.state, StartupState::Splash);
    assert_eq!(m.step(&StartupKeys { any_key: true, ..keys() }, false, 0).0, StartupAction::ResetLobby);
    assert_eq!(m.state, StartupState::AskPlayerRole);
    assert_eq!(m.step(&enter(), false, 0).0, StartupAction::ResetLobby);
    assert_eq!(m.state, StartupState::AskNewOrContinue);
    assert_eq!(
        m.step(&enter(), false, 0).0,
        StartupAction::BeginNormalPlay { start_stage: 1, fresh_intro: true }
    );
    assert_eq!(m.state, StartupState::Done);
}

#[test]
fn role_menu_wraps_and_quits() {
    let mut m = StartupMenu::new();
    m.step(&StartupKeys { any_key: true, ..keys() }, true, 3);
    m.step(&StartupKeys { up: true, ..keys() }, true, 3);
    assert_eq!(m.menu_role, 3);
    assert_eq!(m.step(&enter(), true, 3).0, StartupAction::ExitGame);
    m.step(&StartupKeys { down: true, ..keys() }, true, 3);
    assert_eq!(m.menu_role, 0);
    m.step(&StartupKeys { up: true, ..keys() }, false, 0);
    assert_eq!(m.menu_role, 2);
    // Without saves the third option quits; the saved-runs list does not open.
    assert_eq!(m.step(&enter(), false, 0).0, StartupAction::ExitGame);
    assert_eq!(m.state, StartupState::AskPlayerRole);
}

#[test]
fn continue_with_saved_nickname() {
    let mut m = StartupMenu::new();
    m.step(&StartupKeys { any_key: true, ..keys() }, true, 1);
    m.step(&enter(), true, 1);
    m.step(&StartupKeys { down: true, ..keys() }, true, 1);
    m.step(&enter(), true, 1);
    assert_eq!(m.state, StartupState::AskPlayerName);
    // The first frame only drops keys typed earlier.
    m.step(&typed("zz"), true, 1);
    assert!(m.name_buffer.is_empty());
    m.step(&typed("Ada 7!"), true, 1);
    assert_eq!(m.name_buffer, vec!['A', 'd', 'a', '7']);
    m.step(&StartupKeys { backspace: true, ..keys() }, true, 1);
    assert_eq!(m.step(&enter(), true, 1).0, StartupAction::LookupContinue);
    assert_eq!(m.player_name, vec!['A', 'd', 'a']);
    m.apply_continue_lookup(Some(6));
    assert_eq!(m.state, StartupState::AskContinueFromLog);
    assert_eq!(m.continue_max_cleared, Some(5));
    assert_eq!(
        m.step(&enter(), true, 1).0,
        StartupAction::BeginNormalPlay { start_stage: 6, fresh_intro: false }
    );
    assert_eq!(m.state, StartupState::Done);
}

#[test]
fn unknown_nickname_gets_a_notice() {
    let mut m = StartupMenu::new();
    m.state = StartupState::AskPlayerName;
    m.name_queue_cleared = true;
    m.step(&typed("Cy"), false, 0);
    assert_eq!(m.step(&enter(), false, 0).0, StartupAction::LookupContinue);
    m.apply_continue_lookup(None);
    assert_eq!(m.state, StartupState::ContinueNoRecordNotice);
    m.step(&enter(), false, 0);
    assert_eq!(m.state, StartupState::AskPlayerName);
    assert!(m.name_buffer.is_empty() && !m.name_queue_cleared);
}

#[test]
fn blank_nickname_is_not_looked_up() {
    let mut m = StartupMenu::new();
    m.state = StartupState::AskPlayerName;
    m.name_queue_cleared = true;
    assert_eq!(m.step(&enter(), false, 0), (StartupAction::Nothing, true));
    assert_eq!(m.state, StartupState::AskPlayerName);
}

#[test]
fn escape_asks_before_going_back() {
    let mut m = StartupMenu::new();
    m.state = StartupState::AskNewOrContinue;
    m.menu_run_type = 1;
    m.step(&escape(), false, 0);
    assert!(m.back_confirm);
    assert_eq!(m.pending_back, Some(StartupPendingBack::ToAskPlayerRole));
    assert_eq!(m.state, StartupState::AskNewOrContinue);
    // Other keys do nothing while the prompt waits.
    assert_eq!(m.step(&StartupKeys { down: true, ..keys() }, false, 0), (StartupAction::Nothing, false));
    // Declining keeps the screen.
    m.step(&StartupKeys { no: true, ..keys() }, false, 0);
    assert!(!m.back_confirm && m.pending_back.is_none());
    assert_eq!(m.state, StartupState::AskNewOrContinue);
    assert_eq!(m.menu_run_type, 1);
    // Accepting goes back.
    m.step(&escape(), false, 0);
    m.step(&StartupKeys { yes: true, ..keys() }, false, 0);
    assert_eq!(m.state, StartupState::AskPlayerRole);
}

#[test]
fn developer_password() {
    let mut m = StartupMenu::new();
    m.state = StartupState::AskPlayerRole;
    m.step(&StartupKeys { down: true, ..keys() }, false, 0);
    m.step(&enter(), false, 0);
    assert_eq!(m.state, StartupState::AskDevPassword);
    m.step(&keys(), false, 0);
    m.step(&typed("A1B2C3D4"), false, 0);
    assert_eq!(m.step(&enter(), false, 0).0, StartupAction::StartDevTestMap);
    assert_eq!(m.state, StartupState::Done);

    let mut w = StartupMenu::new();
    w.state = StartupState::AskDevPassword;
    w.password_queue_cleared = true;
    w.step(&typed("A1B2C3D5"), false, 0);
    assert_eq!(w.step(&enter(), false, 0).0, StartupAction::ResetLobby);
    assert_eq!(w.state, StartupState::AskNewOrContinue);
    assert!(w.password_buffer.is_empty());

    assert!(is_dev_password(&"A1B2C3D4".chars().collect()));
    assert!(!is_dev_password(&"a1b2c3d4".chars().collect()));
}

#[test]
fn records_list_opens_a_replay() {
    let mut m = StartupMenu::new();
    m.state = StartupState::AskPlayerRole;
    m.menu_role = 2;
    m.step(&enter(), true, 12);
    assert_eq!(m.state, StartupState::ViewRecords);
    for _ in 0..11 {
        m.step(&StartupKeys { down: true, ..keys() }, true, 12);
    }
    assert_eq!((m.records_selected, m.records_scroll), (11, 2));
    assert_eq!(m.step(&enter(), true, 12).0, StartupAction::ReplayRecord { index: 11 });
    m.finish();
    assert_eq!(m.state, StartupState::Done);
}

#[test]
fn back_from_records_resets_the_list() {
    let mut m = StartupMenu::new();
    m.state = StartupState::ViewRecords;
    m.menu_role = 2;
    m.records_selected = 5;
    m.step(&escape(), false, 8);
    assert_eq!(m.step(&enter(), false, 8).0, StartupAction::ResetLobby);
    assert_eq!(m.state, StartupState::AskPlayerRole);
    assert_eq!((m.records_selected, m.records_scroll, m.menu_role), (0, 0, 1));
}

#[test]
fn quitting_an_unfinished_stage_asks_twice() {
    let mut s = PlaySession::new();
    s.begin_normal_play(1, false);
    let esc = PlayKeys { escape: true, ..play_keys() };
    let yes = PlayKeys { yes: true, ..play_keys() };
    let o = s.input_step(&esc);
    assert!(s.flags.quit_confirm && !o.proceed);
    let o = s.input_step(&yes);
    assert!(!o.to_lobby && s.flags.quit_unsaved_confirm);
    let o = s.input_step(&yes);
    assert!(o.to_lobby && !o.save_run);
    assert_eq!(s.flags.stage, 1);
    assert_eq!(s.flags.story, StoryPhaseKind::IntroThought);
}

#[test]
fn declining_quit_and_restart() {
    let mut s = PlaySession::new();
    s.begin_normal_play(3, false);
    s.input_step(&PlayKeys { escape: true, ..play_keys() });
    s.input_step(&PlayKeys { no: true, ..play_keys() });
    assert!(!s.flags.quit_confirm);
    let o = s.input_step(&PlayKeys { restart: true, ..play_keys() });
    assert!(o.restart && o.proceed);
    assert_eq!(s.flags.story, StoryPhaseKind::Restart);
    assert_eq!(s.flags.stage, 3);
}

#[test]
fn winning_saves_once_and_advances() {
    let mut s = PlaySession::new();
    s.begin_normal_play(2, false);
    assert!(!s.reach_cell(false));
    assert!(s.reach_cell(true));
    assert_eq!(s.flags.end_menu, EndMenuState::WinCelebration);
    let o = s.win_menu_step(&PlayKeys { down: true, ..play_keys() });
    assert!(o.click && s.flags.win_menu_selection == 1);
    s.win_menu_step(&PlayKeys { up: true, ..play_keys() });
    let o = s.win_menu_step(&PlayKeys { enter: true, ..play_keys() });
    assert!(o.save_run && o.next_stage);
    assert_eq!(s.flags.stage, 3);
    assert_eq!(s.flags.story, StoryPhaseKind::IntroExplainAskMap { is_first_stage: false });
    assert!(s.flags.win_run_saved_to_log);
}

#[test]
fn leaving_the_win_screen_saves_and_returns() {
    let mut s = PlaySession::new();
    s.begin_normal_play(1, false);
    s.reach_cell(true);
    let o = s.input_step(&PlayKeys { escape: true, ..play_keys() });
    assert!(o.save_run && o.to_lobby);
    let mut t = PlaySession::new();
    t.start_dev_test_map();
    t.reach_cell(true);
    let o = t.win_menu_step(&PlayKeys { up: true, enter: true, ..play_keys() });
    assert!(o.to_lobby && !o.save_run);
}

#[test]
fn debug_prompt_needs_the_password() {
    let mut s = PlaySession::new();
    s.begin_normal_play(1, false);
    let o = s.input_step(&PlayKeys { f1: true, ..play_keys() });
    assert!(s.flags.f1_prompt && o.click && !o.proceed);
    s.input_step(&PlayKeys { chars: "A1B2C3D4".chars().collect(), ..play_keys() });
    s.input_step(&PlayKeys { enter: true, ..play_keys() });
    assert!(s.flags.normal_dev_authenticated && s.flags.debug_overlay && !s.flags.f1_prompt);
    s.input_step(&PlayKeys { f3: true, ..play_keys() });
    assert!(s.flags.normal_dev_f3_full_map);
    assert!(s.flags.full_map_visible_now(false));
    assert!(!s.flags.normal_mask_active(false));

    let mut w = PlaySession::new();
    w.begin_normal_play(1, false);
    w.input_step(&PlayKeys { f1: true, ..play_keys() });
    w.input_step(&play_keys());
    w.input_step(&PlayKeys { chars: "nope".chars().collect(), enter: true, ..play_keys() });
    assert!(!w.flags.normal_dev_authenticated && !w.flags.f1_prompt);
}

#[test]
fn movement_and_view_policies() {
    let mut s = PlaySession::new();
    s.begin_normal_play(1, false);
    assert!(s.flags.can_move_now(false));
    assert!(!s.flags.can_move_now(true));
    assert!(s.flags.normal_mask_active(false));
    assert!(s.flags.use_camera_mask(false));
    assert!(!s.flags.full_map_visible_now(false));
    assert!(s.flags.full_map_visible_now(true));
    s.input_step(&PlayKeys { f2: true, ..play_keys() });
    assert!(s.flags.show_credits && !s.flags.can_move_now(false));
    s.input_step(&PlayKeys { escape: true, ..play_keys() });
    assert!(!s.flags.show_credits);

    let mut t = PlaySession::new();
    t.start_dev_test_map();
    assert!(!t.flags.use_camera_mask(false));
    t.input_step(&PlayKeys { f4: true, ..play_keys() });
    assert!(t.flags.use_camera_mask(false));
}

#[test]
fn story_frame_skips_known_name_and_rushes_test_map() {
    let none = StoryInput { space: false, enter: false, map_time_up: false, name_ready: false };
    let mut s = PlaySession::new();
    s.flags.story = StoryPhaseKind::AskNameOnMap;
    s.advance_story(true, none);
    assert_eq!(s.flags.story, StoryPhaseKind::ControlsPrompt);
    s.advance_story(true, StoryInput { enter: true, ..none });
    assert_eq!(s.flags.story, StoryPhaseKind::Playing);
    let mut t = PlaySession::new();
    t.start_dev_test_map();
    t.restart_level();
    t.advance_story(false, none);
    assert_eq!(t.flags.story, StoryPhaseKind::Playing);
    assert!(t.should_warn_unsaved_quit() == false);
}

#[test]
fn win_menu_wraps_both_ways() {
    let mut s = PlaySession::new();
    s.begin_normal_play(1, false);
    s.reach_cell(true);
    let up = PlayKeys { up: true, ..play_keys() };
    let down = PlayKeys { down: true, ..play_keys() };
    let mut seen = vec![];
    for _ in 0..3 {
        s.win_menu_step(&up);
        seen.push(s.flags.win_menu_selection);
    }
    assert_eq!(seen, vec![2, 1, 0]);
    s.win_menu_step(&down);
    assert_eq!(s.flags.win_menu_selection, 1);
    assert!(!s.win_menu_advances(&PlayKeys { enter: true, ..play_keys() }));
    assert!(s.win_menu_advances(&PlayKeys { enter: true, up: true, ..play_keys() }));
}

#[test]
fn name_written_on_the_map() {
    let mut b = vec![];
    assert!(!type_name_chars(&mut b, &"Ad-a 9".chars().collect()));
    assert_eq!(b, vec!['A', 'd', 'a', '9']);
    assert!(type_name_chars(&mut b, &vec!['\u{8}', 'x', '\u{7f}', '\u{7f}']));
    assert_eq!(b, vec!['A', 'd']);
    assert_eq!(
        name_on_map_result(StoryPhaseKind::AskNameOnMap, StoryPhaseKind::ControlsPrompt, &b),
        Some(vec!['A', 'd'])
    );
    assert_eq!(name_on_map_result(StoryPhaseKind::AskNameOnMap, StoryPhaseKind::AskNameOnMap, &b), None);
}

#[test]
fn story_sounds_play_once() {
    let s = SoundState::new();
    let (s, c) = s.step(StoryPhaseKind::IntroThought);
    assert!(c.start_menu_music && !c.click && c.stop_rain);
    let (s, c) = s.step(StoryPhaseKind::IntroExplainAskMap { is_first_stage: true });
    assert!(c.click && !c.start_menu_music);
    let map = StoryPhaseKind::MapReveal { is_first_stage: true };
    let (s, c) = s.step(map);
    assert!(c.click && c.paper);
    let (s, c) = s.step(map);
    assert!(!c.click && !c.paper);
    let (s, c) = s.step(StoryPhaseKind::Playing);
    assert!(c.click && c.start_maze_music && !c.stop_rain);
    let (_, c) = s.step(StoryPhaseKind::Playing);
    assert!(!c.click && !c.start_maze_music);
}
