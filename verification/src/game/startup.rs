//! The startup menus: title splash, role choice, new/continue, nickname lookup, the developer
//! password and the saved-runs list, with an Esc-confirm before going back.
//!
//! The caller reads the keys of a frame and hands them to [`StartupMenu::step`], which decides
//! the next menu state and the one thing the caller has to do (start a run, look a nickname
//! up in the save log, open a saved run, ...).
use vstd::prelude::*;

use super::menu::{
    menu_down, menu_down_spec, menu_up, menu_up_spec, records_list_step, records_step_spec,
    RECORDS_PAGE, RECORDS_SHOWN,
};
use super::text::{edit_clicks, edit_input, edited, input_ok, lemma_edited_ok};

verus! {

/// The startup screens.
#[derive(Clone, Copy, Debug, PartialEq, Eq, Structural)]
pub enum StartupState {
    /// Initial title splash screen.
    Splash,
    AskPlayerRole,
    /// Choose whether to start a fresh run or continue from local save logs.
    AskNewOrContinue,
    /// Alphanumeric nickname lookup used by the continue flow.
    AskPlayerName,
    /// Prior clears exist for this nickname — offer to continue.
    AskContinueFromLog,
    /// Continue selected, but this nickname has no prior saved clear records.
    ContinueNoRecordNotice,
    /// Player declined continue; must pick another nickname.
    NicknameMustChangeNotice,
    AskDevPassword,
    /// Saved-run list (only opened from main menu after at least one save exists).
    ViewRecords,
    Done,
}

/// Where startup Esc-confirm should return to.
#[derive(Clone, Copy, Debug, PartialEq, Eq, Structural)]
pub enum StartupPendingBack {
    ToSplash,
    /// Return to role menu (e.g. from New/Continue or dev password).
    ToAskPlayerRole,
    /// Return to role menu from the records list.
    ToAskPlayerRoleFromRecords,
    ToAskNewOrContinue,
    /// Re-open nickname entry (e.g. back from continue prompt).
    ToAskPlayerName,
    /// Return to continue Y/N after nickname-must-change notice.
    ToAskContinueFromLog,
}

/// What the caller has to do after a startup frame.
#[derive(Clone, Copy, Debug, PartialEq, Eq, Structural)]
pub enum StartupAction {
    Nothing,
    /// Stage 1 behind the menus again: a fresh 31 × 21 maze.
    ResetLobby,
    /// Quit the game.
    ExitGame,
    /// Leave the menus and play normal mode from `start_stage`; `fresh_intro` runs the whole
    /// opening story, otherwise play starts at once.
    BeginNormalPlay { start_stage: usize, fresh_intro: bool },
    /// Leave the menus for the small developer test map.
    StartDevTestMap,
    /// Look the entered nickname up in the save log and report with
    /// [`StartupMenu::apply_continue_lookup`].
    LookupContinue,
    /// Load the saved run at `index` (newest first) and, if it can be replayed, report with
    /// [`StartupMenu::finish`].
    ReplayRecord { index: usize },
}

/// The keys of one frame, as the startup menus read them.
#[derive(Clone, Debug)]
pub struct StartupKeys {
    /// Some key was pressed.
    pub any_key: bool,
    pub up: bool,
    pub down: bool,
    pub enter: bool,
    pub escape: bool,
    /// The Y key.
    pub yes: bool,
    /// The N key.
    pub no: bool,
    pub backspace: bool,
    /// Characters typed this frame, in order.
    pub chars: Vec<char>,
}

/// The startup menu state.
#[derive(Clone, Debug)]
pub struct StartupMenu {
    pub state: StartupState,
    /// An Esc asked to go back and waits for Y/Enter or N/Esc.
    pub back_confirm: bool,
    pub pending_back: Option<StartupPendingBack>,
    /// Arrow-menu highlight: `Are you a player?` (0 = player, 1 = dev, 2 = records if
    /// present, then quit).
    pub menu_role: usize,
    /// Arrow-menu highlight: new vs continue.
    pub menu_run_type: usize,
    /// Arrow-menu highlight on continue-from-log Y/N.
    pub menu_continue: usize,
    /// Selected row in the saved-runs list (absolute index in newest-first list).
    pub records_selected: usize,
    /// Scroll offset of the saved-runs list.
    pub records_scroll: usize,
    pub name_buffer: Vec<char>,
    pub password_buffer: Vec<char>,
    /// The nickname the run will be saved under.
    pub player_name: Vec<char>,
    /// Next stage offered when continuing (e.g. cleared 5 → 6).
    pub continue_next_stage: Option<usize>,
    /// Highest stage previously cleared for the current nickname (for UI text).
    pub continue_max_cleared: Option<usize>,
    /// Keys typed before the nickname prompt opened have been thrown away.
    pub name_queue_cleared: bool,
    /// Keys typed before the password prompt opened have been thrown away.
    pub password_queue_cleared: bool,
}

/// The startup menu as the rules see it.
pub ghost struct StartupView {
    pub state: StartupState,
    pub back_confirm: bool,
    pub pending_back: Option<StartupPendingBack>,
    pub menu_role: usize,
    pub menu_run_type: usize,
    pub menu_continue: usize,
    pub records_selected: usize,
    pub records_scroll: usize,
    pub name_buffer: Seq<char>,
    pub password_buffer: Seq<char>,
    pub player_name: Seq<char>,
    pub continue_next_stage: Option<usize>,
    pub continue_max_cleared: Option<usize>,
    pub name_queue_cleared: bool,
    pub password_queue_cleared: bool,
}

impl View for StartupMenu {
    type V = StartupView;

    open spec fn view(&self) -> StartupView {
        StartupView {
            state: self.state,
            back_confirm: self.back_confirm,
            pending_back: self.pending_back,
            menu_role: self.menu_role,
            menu_run_type: self.menu_run_type,
            menu_continue: self.menu_continue,
            records_selected: self.records_selected,
            records_scroll: self.records_scroll,
            name_buffer: self.name_buffer@,
            password_buffer: self.password_buffer@,
            player_name: self.player_name@,
            continue_next_stage: self.continue_next_stage,
            continue_max_cleared: self.continue_max_cleared,
            name_queue_cleared: self.name_queue_cleared,
            password_queue_cleared: self.password_queue_cleared,
        }
    }
}

/// The developer password (8 letters and digits).
pub open spec fn dev_password() -> Seq<char> {
    seq!['A', '1', 'B', '2', 'C', '3', 'D', '4']
}

/// Whether `buf` holds the developer password.
pub fn is_dev_password(buf: &Vec<char>) -> (r: bool)
    ensures
        r == (buf@ == dev_password()),
{
    let pw: [char; 8] = ['A', '1', 'B', '2', 'C', '3', 'D', '4'];
    assert(pw@ == dev_password());
    if buf.len() != 8 {
        return false;
    }
    let mut i: usize = 0;
    while i < 8
        invariant
            i <= 8,
            buf@.len() == 8,
            pw@ == dev_password(),
            forall|j: int| 0 <= j < i ==> buf@[j] == pw@[j],
        decreases 8 - i,
    {
        if buf[i] != pw[i] {
            return false;
        }
        i = i + 1;
    }
    assert(buf@ == pw@);
    true
}

/// Well-formed startup state: every highlight inside its menu, buffers of at most 32 ASCII
/// letters and digits, the saved-runs selection and scroll within the list's reach, and a
/// pending target exactly while a back request waits.
pub open spec fn startup_wf(v: StartupView) -> bool {
    &&& v.menu_role < 4
    &&& v.menu_run_type < 2
    &&& v.menu_continue < 2
    &&& v.records_selected <= RECORDS_SHOWN
    &&& v.records_scroll <= RECORDS_SHOWN
    &&& input_ok(v.name_buffer)
    &&& input_ok(v.password_buffer)
    &&& input_ok(v.player_name)
    &&& v.back_confirm <==> v.pending_back is Some
}

/// Ask for confirmation before going back to `t`.
pub open spec fn request_back(v: StartupView, t: StartupPendingBack) -> StartupView {
    StartupView { back_confirm: true, pending_back: Some(t), ..v }
}

/// The state after a confirmed back request to `t`.
pub open spec fn apply_back(v: StartupView, t: StartupPendingBack, has_saved: bool) -> StartupView {
    let cap: usize = if has_saved {
        2
    } else {
        1
    };
    let role = if v.menu_role < cap {
        v.menu_role
    } else {
        cap
    };
    match t {
        StartupPendingBack::ToSplash => StartupView { state: StartupState::Splash, ..v },
        StartupPendingBack::ToAskPlayerRole => StartupView {
            state: StartupState::AskPlayerRole,
            menu_role: role,
            ..v
        },
        StartupPendingBack::ToAskPlayerRoleFromRecords => StartupView {
            state: StartupState::AskPlayerRole,
            menu_role: role,
            records_scroll: 0,
            records_selected: 0,
            ..v
        },
        StartupPendingBack::ToAskNewOrContinue => StartupView {
            state: StartupState::AskNewOrContinue,
            name_buffer: Seq::empty(),
            name_queue_cleared: false,
            menu_run_type: 0,
            ..v
        },
        StartupPendingBack::ToAskPlayerName => StartupView {
            state: StartupState::AskPlayerName,
            name_buffer: v.player_name,
            player_name: Seq::empty(),
            continue_next_stage: None,
            continue_max_cleared: None,
            name_queue_cleared: false,
            ..v
        },
        StartupPendingBack::ToAskContinueFromLog => StartupView {
            state: StartupState::AskContinueFromLog,
            menu_continue: 0,
            ..v
        },
    }
}

/// The back-confirm prompt: Y/Enter goes back (the records list also brings the stage-1 maze
/// back), N/Esc stays.
pub open spec fn confirm_next(v: StartupView, k: StartupKeys, has_saved: bool) -> (
    StartupView,
    StartupAction,
    bool,
) {
    let cleared = StartupView { back_confirm: false, pending_back: None, ..v };
    if k.yes || k.enter {
        match v.pending_back {
            Some(t) => (
                apply_back(cleared, t, has_saved),
                if t is ToAskPlayerRoleFromRecords {
                    StartupAction::ResetLobby
                } else {
                    StartupAction::Nothing
                },
                true,
            ),
            None => (cleared, StartupAction::Nothing, true),
        }
    } else if k.no || k.escape {
        (cleared, StartupAction::Nothing, true)
    } else {
        (v, StartupAction::Nothing, false)
    }
}

/// The highlight of a wrap-around menu of `n` options after Up, then Down.
pub open spec fn menu_moved(sel: usize, n: int, up: bool, down: bool) -> usize {
    let s1 = if up {
        menu_up_spec(sel as int, n)
    } else {
        sel as int
    };
    (if down {
        menu_down_spec(s1, n)
    } else {
        s1
    }) as usize
}

/// Leaving the menus for a normal run.
pub open spec fn begin_play(v: StartupView) -> StartupView {
    StartupView {
        state: StartupState::Done,
        name_buffer: Seq::empty(),
        continue_next_stage: None,
        continue_max_cleared: None,
        ..v
    }
}

/// "Are you a player?": player, developer, saved runs (only with saves), quit. The saved-runs
/// list opens only when a run is saved; without saves the third option quits.
pub open spec fn role_next(v: StartupView, k: StartupKeys, has_saved: bool) -> (
    StartupView,
    StartupAction,
    bool,
) {
    let n = if has_saved {
        4int
    } else {
        3int
    };
    let v1 = StartupView { menu_role: menu_moved(v.menu_role, n, k.up, k.down), ..v };
    if k.escape {
        (request_back(v1, StartupPendingBack::ToSplash), StartupAction::Nothing, true)
    } else if k.enter {
        if v1.menu_role == 0 {
            (
                StartupView {
                    state: StartupState::AskNewOrContinue,
                    player_name: Seq::empty(),
                    name_buffer: Seq::empty(),
                    continue_next_stage: None,
                    continue_max_cleared: None,
                    menu_run_type: 0,
                    ..v1
                },
                StartupAction::ResetLobby,
                true,
            )
        } else if v1.menu_role == 1 {
            (
                StartupView {
                    state: StartupState::AskDevPassword,
                    password_buffer: Seq::empty(),
                    password_queue_cleared: false,
                    ..v1
                },
                StartupAction::Nothing,
                true,
            )
        } else if v1.menu_role == 2 && has_saved {
            (
                StartupView {
                    state: StartupState::ViewRecords,
                    records_scroll: 0,
                    records_selected: 0,
                    ..v1
                },
                StartupAction::Nothing,
                true,
            )
        } else {
            (v1, StartupAction::ExitGame, true)
        }
    } else {
        (v1, StartupAction::Nothing, k.up || k.down)
    }
}

/// New run or continue.
pub open spec fn run_type_next(v: StartupView, k: StartupKeys) -> (StartupView, StartupAction, bool) {
    let v1 = StartupView { menu_run_type: menu_moved(v.menu_run_type, 2, k.up, k.down), ..v };
    if k.escape {
        (request_back(v1, StartupPendingBack::ToAskPlayerRole), StartupAction::Nothing, true)
    } else if k.enter {
        if v1.menu_run_type == 0 {
            (
                begin_play(StartupView { player_name: Seq::empty(), ..v1 }),
                StartupAction::BeginNormalPlay { start_stage: 1, fresh_intro: true },
                true,
            )
        } else {
            (
                StartupView {
                    state: StartupState::AskPlayerName,
                    player_name: Seq::empty(),
                    name_buffer: Seq::empty(),
                    continue_next_stage: None,
                    continue_max_cleared: None,
                    name_queue_cleared: false,
                    ..v1
                },
                StartupAction::Nothing,
                true,
            )
        }
    } else {
        (v1, StartupAction::Nothing, k.up || k.down)
    }
}

/// Nickname entry: the first frame only drops keys typed earlier; Enter with a nickname asks
/// for the save-log lookup.
pub open spec fn name_next(v: StartupView, k: StartupKeys) -> (StartupView, StartupAction, bool) {
    if k.escape {
        (request_back(v, StartupPendingBack::ToAskNewOrContinue), StartupAction::Nothing, true)
    } else if !v.name_queue_cleared {
        (StartupView { name_queue_cleared: true, ..v }, StartupAction::Nothing, false)
    } else {
        let b = edited(v.name_buffer, k.chars@, k.backspace);
        let v1 = StartupView { name_buffer: b, ..v };
        if k.enter {
            if b.len() == 0 {
                (v1, StartupAction::Nothing, true)
            } else {
                (StartupView { player_name: b, ..v1 }, StartupAction::LookupContinue, true)
            }
        } else {
            (v1, StartupAction::Nothing, edit_clicks(v.name_buffer, k.chars@, k.backspace))
        }
    }
}

/// Continue from the saved stage, or pick another nickname.
pub open spec fn continue_next(v: StartupView, k: StartupKeys) -> (StartupView, StartupAction, bool) {
    let v1 = StartupView { menu_continue: menu_moved(v.menu_continue, 2, k.up, k.down), ..v };
    if k.escape {
        (request_back(v1, StartupPendingBack::ToAskPlayerName), StartupAction::Nothing, true)
    } else if k.enter {
        if v1.menu_continue == 0 {
            match v1.continue_next_stage {
                Some(ns) => (
                    begin_play(v1),
                    StartupAction::BeginNormalPlay { start_stage: ns, fresh_intro: false },
                    true,
                ),
                None => (v1, StartupAction::Nothing, true),
            }
        } else {
            (
                StartupView { state: StartupState::NicknameMustChangeNotice, ..v1 },
                StartupAction::Nothing,
                true,
            )
        }
    } else {
        (v1, StartupAction::Nothing, k.up || k.down)
    }
}

/// The nickname prompt again, empty.
pub open spec fn reopen_name(v: StartupView) -> StartupView {
    StartupView {
        state: StartupState::AskPlayerName,
        name_buffer: Seq::empty(),
        name_queue_cleared: false,
        ..v
    }
}

/// Developer password: the first frame only drops keys typed earlier; Enter with the right
/// password opens the test map, with a wrong one goes on as a player.
pub open spec fn password_next(v: StartupView, k: StartupKeys) -> (StartupView, StartupAction, bool) {
    if k.escape {
        (request_back(v, StartupPendingBack::ToAskPlayerRole), StartupAction::Nothing, true)
    } else if !v.password_queue_cleared {
        (StartupView { password_queue_cleared: true, ..v }, StartupAction::Nothing, false)
    } else {
        let p = edited(v.password_buffer, k.chars@, k.backspace);
        let v1 = StartupView { password_buffer: p, ..v };
        if k.enter {
            if p == dev_password() {
                (
                    StartupView {
                        state: StartupState::Done,
                        password_buffer: Seq::empty(),
                        ..v1
                    },
                    StartupAction::StartDevTestMap,
                    true,
                )
            } else {
                (
                    StartupView {
                        state: StartupState::AskNewOrContinue,
                        password_buffer: Seq::empty(),
                        name_buffer: Seq::empty(),
                        continue_next_stage: None,
                        continue_max_cleared: None,
                        menu_run_type: 0,
                        ..v1
                    },
                    StartupAction::ResetLobby,
                    true,
                )
            }
        } else {
            (v1, StartupAction::Nothing, edit_clicks(v.password_buffer, k.chars@, k.backspace))
        }
    }
}

/// The saved-runs list of `len` rows: selection kept inside the list, Up/Down, scrolling,
/// and Enter on a row opens it for replay.
pub open spec fn records_next(v: StartupView, k: StartupKeys, len: usize) -> (
    StartupView,
    StartupAction,
    bool,
) {
    let s0: usize = if len == 0 {
        0
    } else if v.records_selected < len - 1 {
        v.records_selected
    } else {
        (len - 1) as usize
    };
    let sc0: usize = if len == 0 {
        0
    } else {
        v.records_scroll
    };
    if k.escape {
        (
            request_back(
                StartupView { records_selected: s0, records_scroll: sc0, ..v },
                StartupPendingBack::ToAskPlayerRoleFromRecords,
            ),
            StartupAction::Nothing,
            true,
        )
    } else {
        let (s, sc) = records_step_spec(
            v.records_selected as int,
            v.records_scroll as int,
            len as int,
            k.up,
            k.down,
        );
        let v1 = StartupView { records_selected: s as usize, records_scroll: sc as usize, ..v };
        let s1 = if k.up && s0 > 0 {
            s0 - 1
        } else {
            s0 as int
        };
        if k.enter && len > 0 {
            (v1, StartupAction::ReplayRecord { index: s as usize }, true)
        } else {
            (v1, StartupAction::Nothing, (k.up && s0 > 0) || (k.down && s1 + 1 < len))
        }
    }
}

/// One frame of the startup menus: the next state, what the caller has to do, and whether a
/// click sounds. `has_saved` tells whether any run is saved; `len` is the length of the
/// saved-runs list.
pub open spec fn startup_next(v: StartupView, k: StartupKeys, has_saved: bool, len: usize) -> (
    StartupView,
    StartupAction,
    bool,
) {
    if v.back_confirm {
        confirm_next(v, k, has_saved)
    } else {
        match v.state {
            StartupState::Splash => if k.any_key {
                (
                    StartupView { state: StartupState::AskPlayerRole, menu_role: 0, ..v },
                    StartupAction::ResetLobby,
                    true,
                )
            } else {
                (v, StartupAction::Nothing, false)
            },
            StartupState::AskPlayerRole => role_next(v, k, has_saved),
            StartupState::AskNewOrContinue => run_type_next(v, k),
            StartupState::AskPlayerName => name_next(v, k),
            StartupState::AskContinueFromLog => continue_next(v, k),
            StartupState::ContinueNoRecordNotice => if k.enter {
                (reopen_name(v), StartupAction::Nothing, true)
            } else if k.escape {
                (
                    request_back(v, StartupPendingBack::ToAskNewOrContinue),
                    StartupAction::Nothing,
                    true,
                )
            } else {
                (v, StartupAction::Nothing, false)
            },
            StartupState::NicknameMustChangeNotice => if k.enter {
                (
                    reopen_name(
                        StartupView {
                            player_name: Seq::empty(),
                            continue_next_stage: None,
                            continue_max_cleared: None,
                            ..v
                        },
                    ),
                    StartupAction::Nothing,
                    true,
                )
            } else if k.escape {
                (
                    request_back(v, StartupPendingBack::ToAskContinueFromLog),
                    StartupAction::Nothing,
                    true,
                )
            } else {
                (v, StartupAction::Nothing, false)
            },
            StartupState::AskDevPassword => password_next(v, k),
            StartupState::ViewRecords => records_next(v, k, len),
            StartupState::Done => (v, StartupAction::Nothing, false),
        }
    }
}

impl StartupMenu {
    /// The title splash, with every menu at its first option and every buffer empty.
    pub fn new() -> (m: Self)
        ensures
            m@.state == StartupState::Splash,
            !m@.back_confirm,
            m@.menu_role == 0 && m@.menu_run_type == 0 && m@.menu_continue == 0,
            m@.records_selected == 0 && m@.records_scroll == 0,
            m@.name_buffer.len() == 0 && m@.password_buffer.len() == 0 && m@.player_name.len()
                == 0,
            m@.continue_next_stage is None && m@.continue_max_cleared is None,
            !m@.name_queue_cleared && !m@.password_queue_cleared,
            startup_wf(m@),
    {
        StartupMenu {
            state: StartupState::Splash,
            back_confirm: false,
            pending_back: None,
            menu_role: 0,
            menu_run_type: 0,
            menu_continue: 0,
            records_selected: 0,
            records_scroll: 0,
            name_buffer: Vec::new(),
            password_buffer: Vec::new(),
            player_name: Vec::new(),
            continue_next_stage: None,
            continue_max_cleared: None,
            name_queue_cleared: false,
            password_queue_cleared: false,
        }
    }

    fn request_back(&mut self, t: StartupPendingBack)
        ensures
            final(self)@ == request_back(old(self)@, t),
    {
        self.back_confirm = true;
        self.pending_back = Some(t);
    }

    fn apply_pending_back(&mut self, t: StartupPendingBack, has_saved: bool)
        ensures
            final(self)@ == apply_back(old(self)@, t, has_saved),
    {
        let cap: usize = if has_saved {
            2
        } else {
            1
        };
        match t {
            StartupPendingBack::ToSplash => {
                self.state = StartupState::Splash;
            },
            StartupPendingBack::ToAskPlayerRole => {
                if self.menu_role > cap {
                    self.menu_role = cap;
                }
                self.state = StartupState::AskPlayerRole;
            },
            StartupPendingBack::ToAskPlayerRoleFromRecords => {
                self.records_scroll = 0;
                self.records_selected = 0;
                if self.menu_role > cap {
                    self.menu_role = cap;
                }
                self.state = StartupState::AskPlayerRole;
            },
            StartupPendingBack::ToAskNewOrContinue => {
                self.name_buffer.clear();
                self.name_queue_cleared = false;
                self.menu_run_type = 0;
                self.state = StartupState::AskNewOrContinue;
            },
            StartupPendingBack::ToAskPlayerName => {
                self.name_buffer = self.player_name.clone();
                self.player_name.clear();
                self.continue_next_stage = None;
                self.continue_max_cleared = None;
                self.name_queue_cleared = false;
                self.state = StartupState::AskPlayerName;
            },
            StartupPendingBack::ToAskContinueFromLog => {
                self.menu_continue = 0;
                self.state = StartupState::AskContinueFromLog;
            },
        }
    }

    fn step_confirm(&mut self, k: &StartupKeys, has_saved: bool) -> (r: (StartupAction, bool))
        ensures
            (final(self)@, r.0, r.1) == confirm_next(old(self)@, *k, has_saved),
    {
        if k.yes || k.enter {
            self.back_confirm = false;
            let pending = self.pending_back;
            self.pending_back = None;
            match pending {
                Some(t) => {
                    self.apply_pending_back(t, has_saved);
                    let a = match t {
                        StartupPendingBack::ToAskPlayerRoleFromRecords => StartupAction::ResetLobby,
                        _ => StartupAction::Nothing,
                    };
                    (a, true)
                },
                None => (StartupAction::Nothing, true),
            }
        } else if k.no || k.escape {
            self.back_confirm = false;
            self.pending_back = None;
            (StartupAction::Nothing, true)
        } else {
            (StartupAction::Nothing, false)
        }
    }

    fn moved(sel: usize, n: usize, up: bool, down: bool) -> (r: usize)
        requires
            1 <= n <= 4,
            sel < 4,
        ensures
            r == menu_moved(sel, n as int, up, down),
    {
        let s1 = if up {
            menu_up(sel, n)
        } else {
            sel
        };
        if down {
            menu_down(s1, n)
        } else {
            s1
        }
    }

    fn begin_play(&mut self)
        ensures
            final(self)@ == begin_play(old(self)@),
    {
        self.state = StartupState::Done;
        self.name_buffer.clear();
        self.continue_next_stage = None;
        self.continue_max_cleared = None;
    }

    fn step_role(&mut self, k: &StartupKeys, has_saved: bool) -> (r: (StartupAction, bool))
        requires
            old(self).menu_role < 4,
        ensures
            (final(self)@, r.0, r.1) == role_next(old(self)@, *k, has_saved),
    {
        let n: usize = if has_saved {
            4
        } else {
            3
        };
        self.menu_role = Self::moved(self.menu_role, n, k.up, k.down);
        if k.escape {
            self.request_back(StartupPendingBack::ToSplash);
            return (StartupAction::Nothing, true);
        }
        if k.enter {
            if self.menu_role == 0 {
                self.player_name.clear();
                self.name_buffer.clear();
                self.continue_next_stage = None;
                self.continue_max_cleared = None;
                self.menu_run_type = 0;
                self.state = StartupState::AskNewOrContinue;
                (StartupAction::ResetLobby, true)
            } else if self.menu_role == 1 {
                self.password_buffer.clear();
                self.password_queue_cleared = false;
                self.state = StartupState::AskDevPassword;
                (StartupAction::Nothing, true)
            } else if self.menu_role == 2 && has_saved {
                self.records_scroll = 0;
                self.records_selected = 0;
                self.state = StartupState::ViewRecords;
                (StartupAction::Nothing, true)
            } else {
                (StartupAction::ExitGame, true)
            }
        } else {
            (StartupAction::Nothing, k.up || k.down)
        }
    }

    fn step_run_type(&mut self, k: &StartupKeys) -> (r: (StartupAction, bool))
        requires
            old(self).menu_run_type < 2,
        ensures
            (final(self)@, r.0, r.1) == run_type_next(old(self)@, *k),
    {
        self.menu_run_type = Self::moved(self.menu_run_type, 2, k.up, k.down);
        if k.escape {
            self.request_back(StartupPendingBack::ToAskPlayerRole);
            return (StartupAction::Nothing, true);
        }
        if k.enter {
            self.player_name.clear();
            if self.menu_run_type == 0 {
                self.begin_play();
                (StartupAction::BeginNormalPlay { start_stage: 1, fresh_intro: true }, true)
            } else {
                self.name_buffer.clear();
                self.continue_next_stage = None;
                self.continue_max_cleared = None;
                self.name_queue_cleared = false;
                self.state = StartupState::AskPlayerName;
                (StartupAction::Nothing, true)
            }
        } else {
            (StartupAction::Nothing, k.up || k.down)
        }
    }

    fn step_name(&mut self, k: &StartupKeys) -> (r: (StartupAction, bool))
        ensures
            (final(self)@, r.0, r.1) == name_next(old(self)@, *k),
    {
        if k.escape {
            self.request_back(StartupPendingBack::ToAskNewOrContinue);
            return (StartupAction::Nothing, true);
        }
        if !self.name_queue_cleared {
            self.name_queue_cleared = true;
            return (StartupAction::Nothing, false);
        }
        let click = edit_input(&mut self.name_buffer, &k.chars, k.backspace);
        if k.enter {
            if self.name_buffer.len() == 0 {
                (StartupAction::Nothing, true)
            } else {
                self.player_name = self.name_buffer.clone();
                (StartupAction::LookupContinue, true)
            }
        } else {
            (StartupAction::Nothing, click)
        }
    }

    fn step_continue(&mut self, k: &StartupKeys) -> (r: (StartupAction, bool))
        requires
            old(self).menu_continue < 2,
        ensures
            (final(self)@, r.0, r.1) == continue_next(old(self)@, *k),
    {
        self.menu_continue = Self::moved(self.menu_continue, 2, k.up, k.down);
        if k.escape {
            self.request_back(StartupPendingBack::ToAskPlayerName);
            return (StartupAction::Nothing, true);
        }
        if k.enter {
            if self.menu_continue == 0 {
                match self.continue_next_stage {
                    Some(ns) => {
                        self.begin_play();
                        (StartupAction::BeginNormalPlay { start_stage: ns, fresh_intro: false }, true)
                    },
                    None => (StartupAction::Nothing, true),
                }
            } else {
                self.state = StartupState::NicknameMustChangeNotice;
                (StartupAction::Nothing, true)
            }
        } else {
            (StartupAction::Nothing, k.up || k.down)
        }
    }

    fn step_password(&mut self, k: &StartupKeys) -> (r: (StartupAction, bool))
        ensures
            (final(self)@, r.0, r.1) == password_next(old(self)@, *k),
    {
        if k.escape {
            self.request_back(StartupPendingBack::ToAskPlayerRole);
            return (StartupAction::Nothing, true);
        }
        if !self.password_queue_cleared {
            self.password_queue_cleared = true;
            return (StartupAction::Nothing, false);
        }
        let click = edit_input(&mut self.password_buffer, &k.chars, k.backspace);
        if k.enter {
            if is_dev_password(&self.password_buffer) {
                self.password_buffer.clear();
                self.state = StartupState::Done;
                (StartupAction::StartDevTestMap, true)
            } else {
                self.password_buffer.clear();
                self.name_buffer.clear();
                self.continue_next_stage = None;
                self.continue_max_cleared = None;
                self.menu_run_type = 0;
                self.state = StartupState::AskNewOrContinue;
                (StartupAction::ResetLobby, true)
            }
        } else {
            (StartupAction::Nothing, click)
        }
    }

    fn step_records(&mut self, k: &StartupKeys, len: usize) -> (r: (StartupAction, bool))
        requires
            old(self).records_scroll <= RECORDS_SHOWN,
        ensures
            (final(self)@, r.0, r.1) == records_next(old(self)@, *k, len),
    {
        let sel0 = self.records_selected;
        let scroll0 = self.records_scroll;
        if len == 0 {
            self.records_selected = 0;
            self.records_scroll = 0;
        } else if self.records_selected > len - 1 {
            self.records_selected = len - 1;
        }
        if k.escape {
            self.request_back(StartupPendingBack::ToAskPlayerRoleFromRecords);
            return (StartupAction::Nothing, true);
        }
        let s0 = self.records_selected;
        let click_up = k.up && s0 > 0;
        let s1 = if click_up {
            s0 - 1
        } else {
            s0
        };
        let click_down = k.down && s1 + 1 < len;
        let (s, sc) = records_list_step(sel0, scroll0, len, k.up, k.down);
        self.records_selected = s;
        self.records_scroll = sc;
        if k.enter && len > 0 {
            (StartupAction::ReplayRecord { index: s }, true)
        } else {
            (StartupAction::Nothing, click_up || click_down)
        }
    }

    /// One frame of the startup menus (see [`startup_next`]): `has_saved` tells whether any
    /// run is saved, `records_len` is the length of the saved-runs list (at most the 50
    /// newest).
    pub fn step(&mut self, k: &StartupKeys, has_saved: bool, records_len: usize) -> (r: (
        StartupAction,
        bool,
    ))
        requires
            startup_wf(old(self)@),
            records_len <= RECORDS_SHOWN,
        ensures
            (final(self)@, r.0, r.1) == startup_next(old(self)@, *k, has_saved, records_len),
            startup_wf(final(self)@),
    {
        proof {
            lemma_startup_wf(self@, *k, has_saved, records_len);
        }
        if self.back_confirm {
            return self.step_confirm(k, has_saved);
        }
        match self.state {
            StartupState::Splash => {
                if k.any_key {
                    self.menu_role = 0;
                    self.state = StartupState::AskPlayerRole;
                    (StartupAction::ResetLobby, true)
                } else {
                    (StartupAction::Nothing, false)
                }
            },
            StartupState::AskPlayerRole => self.step_role(k, has_saved),
            StartupState::AskNewOrContinue => self.step_run_type(k),
            StartupState::AskPlayerName => self.step_name(k),
            StartupState::AskContinueFromLog => self.step_continue(k),
            StartupState::ContinueNoRecordNotice => {
                if k.enter {
                    self.name_buffer.clear();
                    self.name_queue_cleared = false;
                    self.state = StartupState::AskPlayerName;
                    (StartupAction::Nothing, true)
                } else if k.escape {
                    self.request_back(StartupPendingBack::ToAskNewOrContinue);
                    (StartupAction::Nothing, true)
                } else {
                    (StartupAction::Nothing, false)
                }
            },
            StartupState::NicknameMustChangeNotice => {
                if k.enter {
                    self.player_name.clear();
                    self.continue_next_stage = None;
                    self.continue_max_cleared = None;
                    self.name_buffer.clear();
                    self.name_queue_cleared = false;
                    self.state = StartupState::AskPlayerName;
                    (StartupAction::Nothing, true)
                } else if k.escape {
                    self.request_back(StartupPendingBack::ToAskContinueFromLog);
                    (StartupAction::Nothing, true)
                } else {
                    (StartupAction::Nothing, false)
                }
            },
            StartupState::AskDevPassword => self.step_password(k),
            StartupState::ViewRecords => self.step_records(k, records_len),
            StartupState::Done => (StartupAction::Nothing, false),
        }
    }

    /// The save-log lookup for the entered nickname came back with the next stage to play:
    /// offer to continue from it, or tell that nothing is saved under the nickname.
    pub fn apply_continue_lookup(&mut self, next_stage: Option<usize>)
        requires
            startup_wf(old(self)@),
        ensures
            startup_wf(final(self)@),
            next_stage matches Some(ns) ==> final(self)@ == (StartupView {
                state: StartupState::AskContinueFromLog,
                continue_next_stage: Some(ns),
                continue_max_cleared: Some(if ns > 0 { (ns - 1) as usize } else { 0 }),
                menu_continue: 0,
                ..old(self)@
            }),
            (next_stage is None) ==> final(self)@ == (StartupView {
                state: StartupState::ContinueNoRecordNotice,
                ..old(self)@
            }),
    {
        match next_stage {
            Some(ns) => {
                self.continue_next_stage = Some(ns);
                self.continue_max_cleared = Some(ns.saturating_sub(1));
                self.menu_continue = 0;
                self.state = StartupState::AskContinueFromLog;
            },
            None => {
                self.state = StartupState::ContinueNoRecordNotice;
            },
        }
    }

    /// Back from a run to the main menu: the role menu, with the saved-runs list at its top
    /// and every buffer, nickname and continue offer cleared.
    pub fn return_to_lobby(&mut self)
        requires
            startup_wf(old(self)@),
        ensures
            startup_wf(final(self)@),
            final(self)@ == (StartupView {
                state: StartupState::AskPlayerRole,
                records_scroll: 0,
                records_selected: 0,
                name_buffer: Seq::empty(),
                password_buffer: Seq::empty(),
                player_name: Seq::empty(),
                continue_next_stage: None,
                continue_max_cleared: None,
                ..old(self)@
            }),
    {
        self.state = StartupState::AskPlayerRole;
        self.records_scroll = 0;
        self.records_selected = 0;
        self.name_buffer.clear();
        self.password_buffer.clear();
        self.player_name.clear();
        self.continue_next_stage = None;
        self.continue_max_cleared = None;
    }

    /// A saved run was opened for replay: the menus are done.
    pub fn finish(&mut self)
        ensures
            final(self)@ == (StartupView { state: StartupState::Done, ..old(self)@ }),
    {
        self.state = StartupState::Done;
    }
}

/// Every frame keeps the startup menus well formed: highlights stay inside their menus,
/// buffers hold at most 32 ASCII letters and digits, and the saved-runs selection and scroll
/// stay within the list's reach.
pub proof fn lemma_startup_wf(v: StartupView, k: StartupKeys, has_saved: bool, len: usize)
    requires
        startup_wf(v),
        len <= RECORDS_SHOWN,
    ensures
        startup_wf(startup_next(v, k, has_saved, len).0),
{
    lemma_edited_ok(v.name_buffer, k.chars@, k.backspace);
    lemma_edited_ok(v.password_buffer, k.chars@, k.backspace);
    assert(input_ok(Seq::<char>::empty()));
    crate::game::menu::lemma_records_selection_visible(
        v.records_selected as int,
        v.records_scroll as int,
        len as int,
        k.up,
        k.down,
    );
}

/// Asking to go back with Esc and then declining with N or Esc leaves the startup menus
/// exactly as they were, on every screen that asks before going back (the saved-runs list
/// also keeps its selection within the list when the list shrank).
pub proof fn lemma_back_then_decline(v: StartupView, esc: StartupKeys, decline: StartupKeys, has_saved: bool, len: usize)
    requires
        startup_wf(v),
        !v.back_confirm,
        v.state != StartupState::Splash,
        v.state != StartupState::Done,
        v.state != StartupState::ViewRecords,
        esc.escape && !esc.up && !esc.down && !esc.enter,
        (decline.no || decline.escape) && !decline.yes && !decline.enter,
    ensures
        startup_next(startup_next(v, esc, has_saved, len).0, decline, has_saved, len).0 == v,
{
    assert(menu_moved(v.menu_role, if has_saved { 4int } else { 3int }, false, false) == v.menu_role);
}

/// Only the developer password opens the test map from the menus.
pub proof fn lemma_dev_map_needs_password(v: StartupView, k: StartupKeys, has_saved: bool, len: usize)
    requires
        (startup_next(v, k, has_saved, len).1 is StartDevTestMap),
    ensures
        v.state == StartupState::AskDevPassword,
        !v.back_confirm,
        k.enter,
        edited(v.password_buffer, k.chars@, k.backspace) == dev_password(),
{
}

/// On the continue prompt Enter follows the highlighted answer: with "No" highlighted (after
/// this frame's arrows) it never begins play and shows the notice that another nickname is
/// needed; with "Yes" highlighted and a stage offered it begins play at exactly that stage,
/// without the opening story.
pub proof fn lemma_continue_answer(v: StartupView, k: StartupKeys, has_saved: bool, len: usize)
    requires
        v.state == StartupState::AskContinueFromLog,
        !v.back_confirm,
        k.enter,
        !k.escape,
    ensures
        menu_moved(v.menu_continue, 2, k.up, k.down) == 1 ==> {
            &&& !(startup_next(v, k, has_saved, len).1 is BeginNormalPlay)
            &&& startup_next(v, k, has_saved, len).1 == StartupAction::Nothing
            &&& startup_next(v, k, has_saved, len).0.state == StartupState::NicknameMustChangeNotice
        },
        menu_moved(v.menu_continue, 2, k.up, k.down) == 0 ==> (v.continue_next_stage matches Some(
            ns,
        ) ==> startup_next(v, k, has_saved, len).1 == (StartupAction::BeginNormalPlay {
            start_stage: ns,
            fresh_intro: false,
        }) && startup_next(v, k, has_saved, len).0.state == StartupState::Done),
        !k.up && !k.down ==> menu_moved(v.menu_continue, 2, k.up, k.down) == v.menu_continue,
{
}

} // verus!
