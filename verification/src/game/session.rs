//! In-game rules: the quit confirmations, the debug and credits keys, the developer password
//! prompt, the win menu, and when the player may move and how much of the maze is shown.
//!
//! The caller keeps the clock, the sounds and the drawing; each frame it hands the keys to
//! [`PlaySession::input_step`] and [`PlaySession::win_menu_step`] and carries out the returned
//! [`FrameOutcome`].
use vstd::prelude::*;

use super::stage::stage_dims;
use super::startup::{dev_password, is_dev_password};
use super::story::{story_next, StoryInput, StoryPhaseKind};
use super::text::{edit_clicks, edit_input, edited, input_ok, lemma_edited_ok};

verus! {

/// The win overlay is shown or not.
#[derive(Clone, Copy, Debug, PartialEq, Eq, Structural)]
pub enum EndMenuState {
    Hidden,
    /// Exit reached: congratulations + next stage, restart or main menu.
    WinCelebration,
}

/// The keys of one in-game frame.
#[derive(Clone, Debug)]
pub struct PlayKeys {
    /// The Y key.
    pub yes: bool,
    /// The N key.
    pub no: bool,
    pub enter: bool,
    pub escape: bool,
    /// The R key (restart the stage).
    pub restart: bool,
    /// F1: debug overlay, or the password prompt that unlocks it.
    pub f1: bool,
    /// F2: credits.
    pub f2: bool,
    /// F3: full map while debugging.
    pub f3: bool,
    /// F4: the visibility mask of the test map.
    pub f4: bool,
    pub up: bool,
    pub down: bool,
    pub backspace: bool,
    /// Characters typed this frame, in order.
    pub chars: Vec<char>,
}

/// What the caller has to do after a frame of input.
#[derive(Clone, Copy, Debug, PartialEq, Eq, Structural)]
pub struct FrameOutcome {
    /// A click sounds.
    pub click: bool,
    /// Append the won run to the save log now.
    pub save_run: bool,
    /// Go back to the main menu (fresh stage-1 maze behind it).
    pub to_lobby: bool,
    /// Restart the stage: player back on the start, hints back, clock restarted.
    pub restart: bool,
    /// Build the maze of the (already advanced) next stage.
    pub next_stage: bool,
    /// Go on with this frame (story, movement, hints, exit).
    pub proceed: bool,
}

/// The in-game flags that the rules read and write.
#[derive(Clone, Copy, Debug, PartialEq, Eq, Structural)]
pub struct PlayFlags {
    pub stage: usize,
    pub story: StoryPhaseKind,
    pub end_menu: EndMenuState,
    /// The small developer test map is being played.
    pub easy_test_map: bool,
    pub test_mask_enabled: bool,
    pub debug_overlay: bool,
    pub show_credits: bool,
    /// "Return to main menu?" is showing.
    pub quit_confirm: bool,
    /// The second confirmation for an unfinished normal stage is showing.
    pub quit_unsaved_confirm: bool,
    /// Normal-mode developer debug access (unlocked by the F1 password prompt).
    pub normal_dev_authenticated: bool,
    /// Normal-mode debug F3 option: force full-map view while playing.
    pub normal_dev_f3_full_map: bool,
    /// Modal password prompt for normal-mode F1 debug access.
    pub f1_prompt: bool,
    pub f1_error: bool,
    /// Keys typed before the F1 prompt opened have been thrown away.
    pub f1_queue_cleared: bool,
    /// Win overlay: 0 = play next stage, 1 = restart maze, 2 = main menu.
    pub win_menu_selection: usize,
    /// The won run has been appended to the save log (at most once per win).
    pub win_run_saved_to_log: bool,
}

/// The in-game state: the flags and the F1 password buffer.
#[derive(Clone, Debug)]
pub struct PlaySession {
    pub flags: PlayFlags,
    pub f1_buffer: Vec<char>,
}

/// Well formed: the win-menu highlight is one of its three options and the password buffer
/// holds at most 32 ASCII letters and digits.
pub open spec fn session_wf(f: PlayFlags, b: Seq<char>) -> bool {
    &&& f.win_menu_selection < 3
    &&& input_ok(b)
}

/// An outcome with nothing to do but the given click and whether to go on.
pub open spec fn only(click: bool, proceed: bool) -> FrameOutcome {
    FrameOutcome {
        click,
        save_run: false,
        to_lobby: false,
        restart: false,
        next_stage: false,
        proceed,
    }
}

/// The main menu again: every in-game flag back to its start, stage 1, a new story (the
/// password buffer is emptied too; the debug unlock stays).
pub open spec fn lobby_flags(f: PlayFlags) -> PlayFlags {
    PlayFlags {
        stage: 1,
        story: StoryPhaseKind::IntroThought,
        end_menu: EndMenuState::Hidden,
        easy_test_map: false,
        test_mask_enabled: true,
        show_credits: false,
        quit_confirm: false,
        quit_unsaved_confirm: false,
        normal_dev_f3_full_map: false,
        f1_prompt: false,
        f1_error: false,
        ..f
    }
}

/// Restarting the stage: the win overlay goes and the story resumes play.
pub open spec fn restart_flags(f: PlayFlags) -> PlayFlags {
    PlayFlags { end_menu: EndMenuState::Hidden, story: StoryPhaseKind::Restart, ..f }
}

/// After a won run is marked as saved.
pub open spec fn persisted(f: PlayFlags) -> PlayFlags {
    PlayFlags { win_run_saved_to_log: true, ..f }
}

/// A won run is appended to the log at most once per win, and never for the test map.
pub open spec fn saves_now(f: PlayFlags) -> bool {
    !f.win_run_saved_to_log && !f.easy_test_map
}

/// Leaving an unfinished normal stage loses it, so it asks twice.
pub open spec fn warns_unsaved(f: PlayFlags) -> bool {
    !f.easy_test_map && !(f.story is Won)
}

/// F1 opens the password prompt where debugging is not unlocked.
pub open spec fn opens_prompt(f: PlayFlags, k: PlayKeys) -> bool {
    k.f1 && !(f.easy_test_map || f.normal_dev_authenticated)
}

/// The debug, credits and mask keys (F1 to F4), in that order: F1 toggles the debug overlay
/// where debugging is allowed and opens the password prompt elsewhere; F3 toggles the full
/// map for an unlocked normal-mode debugger with the overlay on; F2 toggles the credits; F4
/// toggles the test map's mask.
pub open spec fn function_keys(f: PlayFlags, k: PlayKeys) -> PlayFlags {
    let open = opens_prompt(f, k);
    let debug = if k.f1 && !open {
        !f.debug_overlay
    } else {
        f.debug_overlay
    };
    PlayFlags {
        debug_overlay: debug,
        f1_prompt: open || f.f1_prompt,
        f1_error: !open && f.f1_error,
        f1_queue_cleared: !open && f.f1_queue_cleared,
        normal_dev_f3_full_map: if !f.easy_test_map && f.normal_dev_authenticated && debug && k.f3 {
            !f.normal_dev_f3_full_map
        } else {
            f.normal_dev_f3_full_map
        },
        show_credits: if k.f2 {
            !f.show_credits
        } else {
            f.show_credits
        },
        test_mask_enabled: if f.easy_test_map && k.f4 {
            !f.test_mask_enabled
        } else {
            f.test_mask_enabled
        },
        ..f
    }
}

/// The F1 password prompt: the first frame only drops keys typed earlier; Esc closes it;
/// Enter with the developer password unlocks debugging (overlay on), with any other just
/// closes it.
pub open spec fn f1_prompt_next(f: PlayFlags, b: Seq<char>, k: PlayKeys) -> (
    PlayFlags,
    Seq<char>,
    FrameOutcome,
) {
    if !f.f1_queue_cleared {
        (PlayFlags { f1_queue_cleared: true, ..f }, b, only(false, false))
    } else {
        let e = edited(b, k.chars@, k.backspace);
        let closed = PlayFlags { f1_prompt: false, f1_error: false, ..f };
        if k.escape {
            (closed, Seq::empty(), only(true, false))
        } else if k.enter {
            if e == dev_password() {
                (
                    PlayFlags { normal_dev_authenticated: true, debug_overlay: true, ..closed },
                    Seq::empty(),
                    only(true, false),
                )
            } else {
                (closed, Seq::empty(), only(true, false))
            }
        } else {
            (f, e, only(edit_clicks(b, k.chars@, k.backspace), false))
        }
    }
}

/// The quit prompts: Y/Enter accepts (an unfinished normal stage first asks a second time),
/// N/Esc closes both prompts, R restarts the stage.
pub open spec fn confirm_next(f: PlayFlags, b: Seq<char>, k: PlayKeys) -> (
    PlayFlags,
    Seq<char>,
    FrameOutcome,
) {
    if k.yes || k.enter {
        if f.quit_unsaved_confirm || !warns_unsaved(f) {
            (lobby_flags(f), Seq::empty(), FrameOutcome { to_lobby: true, ..only(true, false) })
        } else {
            (PlayFlags { quit_unsaved_confirm: true, ..f }, b, only(true, false))
        }
    } else if k.no || k.escape {
        (
            PlayFlags { quit_unsaved_confirm: false, quit_confirm: false, ..f },
            b,
            only(true, false),
        )
    } else if k.restart {
        (restart_flags(f), b, FrameOutcome { restart: true, ..only(true, false) })
    } else {
        (f, b, only(false, false))
    }
}

/// One frame of in-game input before the story and the player move: an open quit prompt
/// takes the frame; otherwise the function keys, then the credits, the password prompt, Esc
/// (ask to quit, or leave the win screen saving the run) and R (restart).
pub open spec fn input_next(f: PlayFlags, b: Seq<char>, k: PlayKeys) -> (
    PlayFlags,
    Seq<char>,
    FrameOutcome,
) {
    if f.quit_unsaved_confirm || f.quit_confirm {
        confirm_next(f, b, k)
    } else {
        let f0 = if !(f.story is Won) {
            PlayFlags { end_menu: EndMenuState::Hidden, ..f }
        } else {
            f
        };
        let f1 = function_keys(f0, k);
        let b1 = if opens_prompt(f0, k) {
            Seq::empty()
        } else {
            b
        };
        if f1.show_credits {
            if k.escape {
                (PlayFlags { show_credits: false, ..f1 }, b1, only(true, false))
            } else {
                (f1, b1, only(k.f1, false))
            }
        } else if f1.f1_prompt {
            let (f2, b2, o) = f1_prompt_next(f1, b1, k);
            (f2, b2, FrameOutcome { click: o.click || k.f1, ..o })
        } else if k.escape {
            if f1.end_menu is Hidden {
                (PlayFlags { quit_confirm: true, ..f1 }, b1, only(true, false))
            } else {
                (
                    lobby_flags(persisted(f1)),
                    Seq::empty(),
                    FrameOutcome { save_run: saves_now(f1), to_lobby: true, ..only(true, false) },
                )
            }
        } else if k.restart && !(f1.end_menu is WinCelebration) {
            (restart_flags(f1), b1, FrameOutcome { restart: true, ..only(true, true) })
        } else {
            (f1, b1, only(k.f1, true))
        }
    }
}

/// The win-menu highlight after Up, then Down (wrapping over three options).
pub open spec fn win_selection_moved(sel: usize, up: bool, down: bool) -> usize {
    let s1: usize = if up {
        if sel == 0 {
            2
        } else {
            (sel - 1) as usize
        }
    } else {
        sel
    };
    if down {
        if s1 == 2 {
            0
        } else {
            (s1 + 1) as usize
        }
    } else {
        s1
    }
}

/// This frame's keys choose the next stage on the win menu.
pub open spec fn advances_stage(f: PlayFlags, k: PlayKeys) -> bool {
    &&& f.story is Won
    &&& f.end_menu is WinCelebration
    &&& k.enter
    &&& win_selection_moved(f.win_menu_selection, k.up, k.down) == 0
}

/// The win menu, shown once the exit is reached: Up/Down wrap over its three options; Enter
/// plays the next stage or goes back to the main menu (both save the run first), or restarts
/// this stage.
pub open spec fn win_menu_next(f: PlayFlags, b: Seq<char>, k: PlayKeys) -> (
    PlayFlags,
    Seq<char>,
    FrameOutcome,
) {
    if !(f.story is Won) || f.end_menu is Hidden {
        (f, b, only(false, false))
    } else {
        let sel = win_selection_moved(f.win_menu_selection, k.up, k.down);
        let f1 = PlayFlags { win_menu_selection: sel, ..f };
        if !k.enter {
            (f1, b, only(k.up || k.down, false))
        } else if sel == 0 {
            (
                PlayFlags {
                    stage: (f.stage + 1) as usize,
                    story: StoryPhaseKind::IntroExplainAskMap { is_first_stage: false },
                    end_menu: EndMenuState::Hidden,
                    ..persisted(f1)
                },
                b,
                FrameOutcome { save_run: saves_now(f1), next_stage: true, ..only(true, false) },
            )
        } else if sel == 1 {
            (restart_flags(f1), b, FrameOutcome { restart: true, ..only(true, false) })
        } else {
            (
                lobby_flags(persisted(f1)),
                Seq::empty(),
                FrameOutcome { save_run: saves_now(f1), to_lobby: true, ..only(true, false) },
            )
        }
    }
}

/// The story before the player moves: a nickname chosen in the menus skips the name prompt
/// on the map, then the story takes the frame's input, and the test map goes straight to
/// play.
pub open spec fn story_frame(f: PlayFlags, name_known: bool, input: StoryInput) -> StoryPhaseKind {
    let p0 = if name_known && f.story is AskNameOnMap {
        StoryPhaseKind::ControlsPrompt
    } else {
        f.story
    };
    let p1 = story_next(p0, input);
    if f.easy_test_map && !(p1 is Playing || p1 is Won) {
        StoryPhaseKind::Playing
    } else {
        p1
    }
}

impl PlayFlags {
    /// Never allow movement while map overlays are up; otherwise the test map lets the
    /// player move whenever the win overlay is hidden, normal mode only while playing, and
    /// never with the credits open.
    pub fn can_move_now(&self, hint_map_active: bool) -> (r: bool)
        ensures
            r == (!(self.story is MapReveal) && !(self.story is AskNameOnMap)
                && !hint_map_active && (if self.easy_test_map {
                self.end_menu is Hidden
            } else {
                self.story is Playing && self.end_menu is Hidden
            }) && !self.show_credits),
    {
        if self.story.show_paper_overlay() || self.story.show_map_item() || hint_map_active {
            return false;
        }
        let can_move = if self.easy_test_map {
            matches!(self.end_menu, EndMenuState::Hidden)
        } else {
            self.story.movement_allowed() && matches!(self.end_menu, EndMenuState::Hidden)
        };
        can_move && !self.show_credits
    }

    /// The normal-mode view mask: on while playing with no map shown, no debug full map and
    /// no win overlay.
    pub fn normal_mask_active(&self, hint_map_active: bool) -> (r: bool)
        ensures
            r == (!self.easy_test_map && self.story is Playing && !hint_map_active && !(
            self.story is MapReveal) && !(self.normal_dev_authenticated
                && self.normal_dev_f3_full_map) && self.end_menu is Hidden),
    {
        !self.easy_test_map && matches!(self.story, StoryPhaseKind::Playing) && !hint_map_active
            && !self.story.show_map_item() && !(self.normal_dev_authenticated
            && self.normal_dev_f3_full_map) && matches!(self.end_menu, EndMenuState::Hidden)
    }

    /// The camera mask: the F4 switch on the test map, the normal mask otherwise.
    pub fn use_camera_mask(&self, hint_map_active: bool) -> (r: bool)
        ensures
            r == if self.easy_test_map {
                self.test_mask_enabled
            } else {
                !self.easy_test_map && self.story is Playing && !hint_map_active && !(
                self.story is MapReveal) && !(self.normal_dev_authenticated
                    && self.normal_dev_f3_full_map) && self.end_menu is Hidden
            },
    {
        if self.easy_test_map {
            self.test_mask_enabled
        } else {
            self.normal_mask_active(hint_map_active)
        }
    }

    /// The whole maze is shown while the map is revealed, while a hint is active, with the
    /// normal-mode debug full map, and after a win.
    pub fn full_map_visible_now(&self, hint_map_active: bool) -> (r: bool)
        ensures
            r == (self.story is MapReveal || hint_map_active || (!self.easy_test_map
                && self.normal_dev_authenticated && self.normal_dev_f3_full_map)
                || self.story is Won),
    {
        self.story.show_map_item() || hint_map_active || (!self.easy_test_map
            && self.normal_dev_authenticated && self.normal_dev_f3_full_map) || matches!(
            self.story,
            StoryPhaseKind::Won
        )
    }
}

fn lobby_of(f: PlayFlags) -> (r: PlayFlags)
    ensures
        r == lobby_flags(f),
{
    PlayFlags {
        stage: 1,
        story: StoryPhaseKind::IntroThought,
        end_menu: EndMenuState::Hidden,
        easy_test_map: false,
        test_mask_enabled: true,
        show_credits: false,
        quit_confirm: false,
        quit_unsaved_confirm: false,
        normal_dev_f3_full_map: false,
        f1_prompt: false,
        f1_error: false,
        ..f
    }
}

fn restart_of(f: PlayFlags) -> (r: PlayFlags)
    ensures
        r == restart_flags(f),
{
    PlayFlags { end_menu: EndMenuState::Hidden, story: StoryPhaseKind::Restart, ..f }
}

fn function_keys_of(f: PlayFlags, k: &PlayKeys) -> (r: PlayFlags)
    ensures
        r == function_keys(f, *k),
{
    let open = k.f1 && !(f.easy_test_map || f.normal_dev_authenticated);
    let debug = if k.f1 && !open {
        !f.debug_overlay
    } else {
        f.debug_overlay
    };
    PlayFlags {
        debug_overlay: debug,
        f1_prompt: open || f.f1_prompt,
        f1_error: !open && f.f1_error,
        f1_queue_cleared: !open && f.f1_queue_cleared,
        normal_dev_f3_full_map: if !f.easy_test_map && f.normal_dev_authenticated && debug && k.f3 {
            !f.normal_dev_f3_full_map
        } else {
            f.normal_dev_f3_full_map
        },
        show_credits: if k.f2 {
            !f.show_credits
        } else {
            f.show_credits
        },
        test_mask_enabled: if f.easy_test_map && k.f4 {
            !f.test_mask_enabled
        } else {
            f.test_mask_enabled
        },
        ..f
    }
}

fn win_selection(sel: usize, up: bool, down: bool) -> (r: usize)
    requires
        sel < 3,
    ensures
        r == win_selection_moved(sel, up, down),
        r < 3,
{
    let s1 = if up {
        if sel == 0 {
            2
        } else {
            sel - 1
        }
    } else {
        sel
    };
    if down {
        if s1 == 2 {
            0
        } else {
            s1 + 1
        }
    } else {
        s1
    }
}

fn click_only(click: bool, proceed: bool) -> (o: FrameOutcome)
    ensures
        o == only(click, proceed),
{
    FrameOutcome {
        click,
        save_run: false,
        to_lobby: false,
        restart: false,
        next_stage: false,
        proceed,
    }
}

impl PlaySession {
    /// A session at stage 1 before any run, as the game starts.
    pub fn new() -> (s: Self)
        ensures
            s.flags == lobby_flags(s.flags),
            !s.flags.debug_overlay && !s.flags.normal_dev_authenticated,
            !s.flags.f1_queue_cleared && s.flags.win_menu_selection == 0,
            !s.flags.win_run_saved_to_log,
            s.f1_buffer@.len() == 0,
            session_wf(s.flags, s.f1_buffer@),
    {
        PlaySession {
            flags: PlayFlags {
                stage: 1,
                story: StoryPhaseKind::IntroThought,
                end_menu: EndMenuState::Hidden,
                easy_test_map: false,
                test_mask_enabled: true,
                debug_overlay: false,
                show_credits: false,
                quit_confirm: false,
                quit_unsaved_confirm: false,
                normal_dev_authenticated: false,
                normal_dev_f3_full_map: false,
                f1_prompt: false,
                f1_error: false,
                f1_queue_cleared: false,
                win_menu_selection: 0,
                win_run_saved_to_log: false,
            },
            f1_buffer: Vec::new(),
        }
    }

    /// Clear current run state when returning to the main lobby.
    pub fn return_to_lobby(&mut self)
        ensures
            final(self).flags == lobby_flags(old(self).flags),
            final(self).f1_buffer@.len() == 0,
    {
        self.flags = lobby_of(self.flags);
        self.f1_buffer.clear();
    }

    /// Restart the current stage (the player, hints and clock are the caller's).
    pub fn restart_level(&mut self)
        ensures
            final(self).flags == restart_flags(old(self).flags),
            final(self).f1_buffer@ == old(self).f1_buffer@,
    {
        self.flags = restart_of(self.flags);
    }

    /// Leaving an unfinished normal stage loses progress: warn before quitting.
    pub fn should_warn_unsaved_quit(&self) -> (r: bool)
        ensures
            r == warns_unsaved(self.flags),
    {
        !self.flags.easy_test_map && !matches!(self.flags.story, StoryPhaseKind::Won)
    }

    fn confirm_input(&mut self, k: &PlayKeys) -> (o: FrameOutcome)
        ensures
            (final(self).flags, final(self).f1_buffer@, o) == confirm_next(
                old(self).flags,
                old(self).f1_buffer@,
                *k,
            ),
    {
        let f = self.flags;
        if k.yes || k.enter {
            if f.quit_unsaved_confirm || !self.should_warn_unsaved_quit() {
                self.return_to_lobby();
                FrameOutcome { to_lobby: true, ..click_only(true, false) }
            } else {
                self.flags = PlayFlags { quit_unsaved_confirm: true, ..f };
                click_only(true, false)
            }
        } else if k.no || k.escape {
            self.flags = PlayFlags { quit_unsaved_confirm: false, quit_confirm: false, ..f };
            click_only(true, false)
        } else if k.restart {
            self.restart_level();
            FrameOutcome { restart: true, ..click_only(true, false) }
        } else {
            click_only(false, false)
        }
    }

    fn f1_prompt_input(&mut self, k: &PlayKeys) -> (o: FrameOutcome)
        ensures
            (final(self).flags, final(self).f1_buffer@, o) == f1_prompt_next(
                old(self).flags,
                old(self).f1_buffer@,
                *k,
            ),
    {
        let f = self.flags;
        if !f.f1_queue_cleared {
            self.flags = PlayFlags { f1_queue_cleared: true, ..f };
            return click_only(false, false);
        }
        let click = edit_input(&mut self.f1_buffer, &k.chars, k.backspace);
        if k.escape || k.enter {
            let unlock = !k.escape && is_dev_password(&self.f1_buffer);
            let closed = PlayFlags { f1_prompt: false, f1_error: false, ..f };
            self.flags = if unlock {
                PlayFlags { normal_dev_authenticated: true, debug_overlay: true, ..closed }
            } else {
                closed
            };
            self.f1_buffer.clear();
            click_only(true, false)
        } else {
            click_only(click, false)
        }
    }

    /// One frame of in-game input (see [`input_next`]).
    #[verifier::spinoff_prover]
    #[verifier::rlimit(50)]
    pub fn input_step(&mut self, k: &PlayKeys) -> (o: FrameOutcome)
        requires
            session_wf(old(self).flags, old(self).f1_buffer@),
        ensures
            (final(self).flags, final(self).f1_buffer@, o) == input_next(
                old(self).flags,
                old(self).f1_buffer@,
                *k,
            ),
            session_wf(final(self).flags, final(self).f1_buffer@),
    {
        proof {
            lemma_edited_ok(self.f1_buffer@, k.chars@, k.backspace);
        }
        let f = self.flags;
        if f.quit_unsaved_confirm || f.quit_confirm {
            return self.confirm_input(k);
        }
        let f0 = if !matches!(f.story, StoryPhaseKind::Won) {
            PlayFlags { end_menu: EndMenuState::Hidden, ..f }
        } else {
            f
        };
        let f1 = function_keys_of(f0, k);
        if k.f1 && !(f0.easy_test_map || f0.normal_dev_authenticated) {
            self.f1_buffer.clear();
        }
        self.flags = f1;
        if f1.show_credits {
            if k.escape {
                self.flags = PlayFlags { show_credits: false, ..f1 };
                return click_only(true, false);
            }
            return click_only(k.f1, false);
        }
        if f1.f1_prompt {
            let o = self.f1_prompt_input(k);
            return FrameOutcome { click: o.click || k.f1, ..o };
        }
        if k.escape {
            if matches!(f1.end_menu, EndMenuState::Hidden) {
                self.flags = PlayFlags { quit_confirm: true, ..f1 };
                return click_only(true, false);
            } else {
                let save = !f1.win_run_saved_to_log && !f1.easy_test_map;
                self.flags = PlayFlags { win_run_saved_to_log: true, ..f1 };
                self.return_to_lobby();
                return FrameOutcome { save_run: save, to_lobby: true, ..click_only(true, false) };
            }
        }
        if k.restart && !matches!(f1.end_menu, EndMenuState::WinCelebration) {
            self.restart_level();
            return FrameOutcome { restart: true, ..click_only(true, true) };
        }
        click_only(k.f1, true)
    }

    /// One frame of the win menu (see [`win_menu_next`]).
    #[verifier::spinoff_prover]
    #[verifier::rlimit(50)]
    pub fn win_menu_step(&mut self, k: &PlayKeys) -> (o: FrameOutcome)
        requires
            session_wf(old(self).flags, old(self).f1_buffer@),
            advances_stage(old(self).flags, *k) ==> stage_dims(old(self).flags.stage + 1).0
                <= usize::MAX,
        ensures
            (final(self).flags, final(self).f1_buffer@, o) == win_menu_next(
                old(self).flags,
                old(self).f1_buffer@,
                *k,
            ),
            session_wf(final(self).flags, final(self).f1_buffer@),
    {
        let f = self.flags;
        if !matches!(f.story, StoryPhaseKind::Won) || matches!(f.end_menu, EndMenuState::Hidden) {
            return click_only(false, false);
        }
        let sel = win_selection(f.win_menu_selection, k.up, k.down);
        let f1 = PlayFlags { win_menu_selection: sel, ..f };
        if !k.enter {
            self.flags = f1;
            return click_only(k.up || k.down, false);
        }
        let save = !f1.win_run_saved_to_log && !f1.easy_test_map;
        if sel == 0 {
            self.flags = PlayFlags {
                stage: f.stage + 1,
                story: StoryPhaseKind::IntroExplainAskMap { is_first_stage: false },
                end_menu: EndMenuState::Hidden,
                win_run_saved_to_log: true,
                ..f1
            };
            FrameOutcome { save_run: save, next_stage: true, ..click_only(true, false) }
        } else if sel == 1 {
            self.flags = restart_of(f1);
            FrameOutcome { restart: true, ..click_only(true, false) }
        } else {
            self.flags = lobby_of(PlayFlags { win_run_saved_to_log: true, ..f1 });
            self.f1_buffer.clear();
            FrameOutcome { save_run: save, to_lobby: true, ..click_only(true, false) }
        }
    }

    /// Whether this frame's keys choose the next stage on the win menu (the stage counter
    /// then goes up by one).
    pub fn win_menu_advances(&self, k: &PlayKeys) -> (r: bool)
        requires
            session_wf(self.flags, self.f1_buffer@),
        ensures
            r == advances_stage(self.flags, *k),
    {
        matches!(self.flags.story, StoryPhaseKind::Won) && matches!(
            self.flags.end_menu,
            EndMenuState::WinCelebration
        ) && k.enter && win_selection(self.flags.win_menu_selection, k.up, k.down) == 0
    }

    /// The story part of a frame (see [`story_frame`]); `name_known` tells whether a nickname
    /// was chosen in the menus.
    pub fn advance_story(&mut self, name_known: bool, input: StoryInput)
        ensures
            final(self).flags == (PlayFlags {
                story: story_frame(old(self).flags, name_known, input),
                ..old(self).flags
            }),
            final(self).f1_buffer@ == old(self).f1_buffer@,
    {
        let f = self.flags;
        let p0 = if name_known && matches!(f.story, StoryPhaseKind::AskNameOnMap) {
            StoryPhaseKind::ControlsPrompt
        } else {
            f.story
        };
        let p1 = p0.next(input);
        let p2 = if f.easy_test_map && !matches!(p1, StoryPhaseKind::Playing | StoryPhaseKind::Won) {
            StoryPhaseKind::Playing
        } else {
            p1
        };
        self.flags = PlayFlags { story: p2, ..f };
    }

    /// The player stands on a cell while playing; on the exit (`at_exit`) the run is won and
    /// the win menu opens on its first option. Returns whether this happened.
    pub fn reach_cell(&mut self, at_exit: bool) -> (won: bool)
        ensures
            won == (old(self).flags.story is Playing && at_exit),
            won ==> final(self).flags == (PlayFlags {
                story: StoryPhaseKind::Won,
                win_run_saved_to_log: false,
                win_menu_selection: 0,
                end_menu: EndMenuState::WinCelebration,
                ..old(self).flags
            }),
            !won ==> final(self).flags == old(self).flags,
            final(self).f1_buffer@ == old(self).f1_buffer@,
    {
        let f = self.flags;
        if matches!(f.story, StoryPhaseKind::Playing) && at_exit {
            self.flags = PlayFlags {
                story: StoryPhaseKind::Won,
                win_run_saved_to_log: false,
                win_menu_selection: 0,
                end_menu: EndMenuState::WinCelebration,
                ..f
            };
            true
        } else {
            false
        }
    }

    /// Leave the menus for a normal run at `start_stage` (1 = fresh, or continue from a later
    /// stage); a fresh run plays the whole opening story, a continued one starts at once.
    pub fn begin_normal_play(&mut self, start_stage: usize, fresh_intro: bool)
        ensures
            final(self).flags == (PlayFlags {
                easy_test_map: false,
                stage: if start_stage < 1 { 1 } else { start_stage },
                story: if fresh_intro {
                    StoryPhaseKind::IntroThought
                } else {
                    StoryPhaseKind::Playing
                },
                ..old(self).flags
            }),
            final(self).f1_buffer@ == old(self).f1_buffer@,
    {
        let f = self.flags;
        let stage = if start_stage < 1 {
            1
        } else {
            start_stage
        };
        let story = if fresh_intro {
            StoryPhaseKind::IntroThought
        } else {
            StoryPhaseKind::Playing
        };
        self.flags = PlayFlags { easy_test_map: false, stage, story, ..f };
    }

    /// Leave the menus for the developer test map: no mask, straight to play.
    pub fn start_dev_test_map(&mut self)
        ensures
            final(self).flags == (PlayFlags {
                easy_test_map: true,
                test_mask_enabled: false,
                story: StoryPhaseKind::Playing,
                ..old(self).flags
            }),
            final(self).f1_buffer@ == old(self).f1_buffer@,
    {
        let f = self.flags;
        self.flags = PlayFlags {
            easy_test_map: true,
            test_mask_enabled: false,
            story: StoryPhaseKind::Playing,
            ..f
        };
    }

    /// Replay a saved run of stage `stage`: prompts and overlays close, normal mode, straight
    /// to play.
    pub fn start_replay(&mut self, stage: usize)
        ensures
            final(self).flags == (PlayFlags {
                quit_confirm: false,
                quit_unsaved_confirm: false,
                end_menu: EndMenuState::Hidden,
                show_credits: false,
                easy_test_map: false,
                test_mask_enabled: true,
                stage,
                story: StoryPhaseKind::Playing,
                win_run_saved_to_log: false,
                ..old(self).flags
            }),
            final(self).f1_buffer@ == old(self).f1_buffer@,
    {
        let f = self.flags;
        self.flags = PlayFlags {
            quit_confirm: false,
            quit_unsaved_confirm: false,
            end_menu: EndMenuState::Hidden,
            show_credits: false,
            easy_test_map: false,
            test_mask_enabled: true,
            stage,
            story: StoryPhaseKind::Playing,
            win_run_saved_to_log: false,
            ..f
        };
    }
}

/// The view mask and the whole-maze view never come together in normal mode.
pub proof fn lemma_mask_excludes_full_map(f: PlayFlags, hint_map_active: bool)
    ensures
        (!f.easy_test_map && f.story is Playing && !hint_map_active && !(f.story is MapReveal)
            && !(f.normal_dev_authenticated && f.normal_dev_f3_full_map) && f.end_menu is Hidden)
            ==> !(f.story is MapReveal || hint_map_active || (!f.easy_test_map
            && f.normal_dev_authenticated && f.normal_dev_f3_full_map) || f.story is Won),
{
}

/// Quitting an unfinished normal stage always takes the second confirmation: no frame goes
/// back to the main menu from such a stage unless that prompt was showing.
pub proof fn lemma_unsaved_quit_asks_twice(f: PlayFlags, b: Seq<char>, k: PlayKeys)
    requires
        warns_unsaved(f),
        !f.quit_unsaved_confirm,
    ensures
        !input_next(f, b, k).2.to_lobby,
        !win_menu_next(f, b, k).2.to_lobby,
{
}

/// A won run is written to the save log at most once, and never for the test map.
pub proof fn lemma_win_saved_once(f: PlayFlags, b: Seq<char>, k: PlayKeys)
    ensures
        input_next(f, b, k).2.save_run ==> !f.win_run_saved_to_log && !f.easy_test_map
            && input_next(f, b, k).0.win_run_saved_to_log,
        win_menu_next(f, b, k).2.save_run ==> !f.win_run_saved_to_log && !f.easy_test_map
            && win_menu_next(f, b, k).0.win_run_saved_to_log,
{
}

/// Normal-mode debugging unlocks only by typing the developer password into the open prompt
/// and pressing Enter; once unlocked it stays unlocked.
pub proof fn lemma_debug_needs_password(f: PlayFlags, b: Seq<char>, k: PlayKeys)
    ensures
        f.normal_dev_authenticated ==> input_next(f, b, k).0.normal_dev_authenticated,
        !f.normal_dev_authenticated && input_next(f, b, k).0.normal_dev_authenticated ==> f.f1_prompt
            && f.f1_queue_cleared && k.enter && edited(b, k.chars@, k.backspace) == dev_password(),
{
}

/// The win overlay belongs to the Won phase: if it shows only once the run is won, then so
/// it stays after a frame of input, a frame of the win menu, and a frame of the story.
pub proof fn lemma_win_overlay_only_when_won(
    f: PlayFlags,
    b: Seq<char>,
    k: PlayKeys,
    name_known: bool,
    input: StoryInput,
)
    requires
        f.end_menu is WinCelebration ==> f.story is Won,
    ensures
        input_next(f, b, k).0.end_menu is WinCelebration ==> input_next(f, b, k).0.story is Won,
        win_menu_next(f, b, k).0.end_menu is WinCelebration ==> win_menu_next(f, b, k).0.story is Won,
        f.end_menu is WinCelebration ==> story_frame(f, name_known, input) is Won,
{
}

/// The win menu wraps over its three options: Up moves from option `s` to `(s + 2) % 3`,
/// Down to `(s + 1) % 3`, and the highlight never leaves the menu.
pub proof fn lemma_win_menu_wraps(f: PlayFlags, b: Seq<char>, k: PlayKeys)
    requires
        f.story is Won,
        f.end_menu is WinCelebration,
        f.win_menu_selection < 3,
        !k.enter,
    ensures
        k.up && !k.down ==> win_menu_next(f, b, k).0.win_menu_selection == (
        f.win_menu_selection + 2) % 3,
        k.down && !k.up ==> win_menu_next(f, b, k).0.win_menu_selection == (
        f.win_menu_selection + 1) % 3,
        win_menu_next(f, b, k).0.win_menu_selection < 3,
{
}

/// Leaving the win screen of a normal run that is not yet saved — for the main menu or for
/// the next stage, from the win menu or with Esc — always asks to save the run first.
pub proof fn lemma_leaving_win_saves(f: PlayFlags, b: Seq<char>, k: PlayKeys)
    requires
        f.story is Won,
        f.end_menu is WinCelebration,
        !f.win_run_saved_to_log,
        !f.easy_test_map,
        !f.quit_confirm,
        !f.quit_unsaved_confirm,
    ensures
        win_menu_next(f, b, k).2.to_lobby ==> win_menu_next(f, b, k).2.save_run,
        win_menu_next(f, b, k).2.next_stage ==> win_menu_next(f, b, k).2.save_run,
        input_next(f, b, k).2.to_lobby ==> input_next(f, b, k).2.save_run,
        k.enter && win_selection_moved(f.win_menu_selection, k.up, k.down) == 2 ==> win_menu_next(
            f,
            b,
            k,
        ).2.to_lobby && win_menu_next(f, b, k).2.save_run,
        k.enter && win_selection_moved(f.win_menu_selection, k.up, k.down) == 0 ==> win_menu_next(
            f,
            b,
            k,
        ).2.next_stage && win_menu_next(f, b, k).2.save_run,
{
}

/// Answering No (N or Esc, without Y or Enter) to a quit prompt never leaves the stage: both
/// prompts close and the stage, the story and everything else stay as they were.
pub proof fn lemma_declining_quit_stays(f: PlayFlags, b: Seq<char>, k: PlayKeys)
    requires
        f.quit_confirm || f.quit_unsaved_confirm,
        k.no || k.escape,
        !k.yes,
        !k.enter,
    ensures
        !input_next(f, b, k).2.to_lobby,
        !input_next(f, b, k).2.restart,
        !input_next(f, b, k).2.save_run,
        !input_next(f, b, k).2.proceed,
        input_next(f, b, k).0 == (PlayFlags { quit_confirm: false, quit_unsaved_confirm: false, ..f }),
        input_next(f, b, k).1 == b,
{
}

} // verus!
