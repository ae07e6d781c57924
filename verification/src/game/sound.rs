//! When the music changes and the story sounds play, from the story phase of each frame.
use vstd::prelude::*;

use super::story::StoryPhaseKind;

verus! {

/// The music that is playing (`Silent` before the first frame).
#[derive(Clone, Copy, Debug, PartialEq, Eq, Structural)]
pub enum MusicTrack {
    Silent,
    Menu,
    Maze,
}

/// What the sound rules remember between frames.
#[derive(Clone, Copy, Debug, PartialEq, Eq, Structural)]
pub struct SoundState {
    pub track: MusicTrack,
    /// The intro thought has been shown (it makes no click).
    pub intro_clicked: bool,
    pub explain_map_clicked: bool,
    pub map_reveal_clicked: bool,
    pub controls_clicked: bool,
    pub playing_clicked: bool,
    /// The map is on screen.
    pub is_map_open: bool,
    /// The paper sound of the open map has played.
    pub map_sound_played: bool,
}

/// The sounds to start and stop this frame, in this order: click; stop the maze music and
/// loop the menu music; stop the menu music and loop the maze music and the rain; stop the
/// rain; the paper sound.
#[derive(Clone, Copy, Debug, PartialEq, Eq, Structural)]
pub struct SoundCues {
    pub click: bool,
    pub start_menu_music: bool,
    pub start_maze_music: bool,
    pub stop_rain: bool,
    pub paper: bool,
}

/// Nothing has played yet.
pub open spec fn silent() -> SoundState {
    SoundState {
        track: MusicTrack::Silent,
        intro_clicked: false,
        explain_map_clicked: false,
        map_reveal_clicked: false,
        controls_clicked: false,
        playing_clicked: false,
        is_map_open: false,
        map_sound_played: false,
    }
}

/// The sound rules for one frame in story phase `p`: the first frame of the map explanation,
/// the map, the controls prompt and play each click once; the menu music starts at first and
/// again with the intro thought; play switches to the maze music with rain; the rain stops
/// outside play and the win; the paper sound plays once each time the map opens.
pub open spec fn sound_next(s: SoundState, p: StoryPhaseKind) -> (SoundState, SoundCues) {
    let explain = p is IntroExplainAskMap && !s.explain_map_clicked;
    let reveal = p is MapReveal && !s.map_reveal_clicked;
    let controls = p is ControlsPrompt && !s.controls_clicked;
    let playing = p is Playing && !s.playing_clicked;
    let menu = (p is IntroThought && !(s.track is Menu)) || s.track is Silent;
    let track1 = if menu {
        MusicTrack::Menu
    } else {
        s.track
    };
    let maze = track1 is Menu && p is Playing;
    let map_shown = p is MapReveal || p is AskNameOnMap;
    let (open, played) = if map_shown {
        (true, s.map_sound_played)
    } else if !s.is_map_open && s.map_sound_played {
        (s.is_map_open, false)
    } else {
        (false, s.map_sound_played)
    };
    let paper = open && !played;
    (
        SoundState {
            track: if maze {
                MusicTrack::Maze
            } else {
                track1
            },
            intro_clicked: s.intro_clicked || p is IntroThought,
            explain_map_clicked: s.explain_map_clicked || explain,
            map_reveal_clicked: s.map_reveal_clicked || reveal,
            controls_clicked: s.controls_clicked || controls,
            playing_clicked: s.playing_clicked || playing,
            is_map_open: open,
            map_sound_played: played || paper,
        },
        SoundCues {
            click: explain || reveal || controls || playing,
            start_menu_music: menu,
            start_maze_music: maze,
            stop_rain: !(p is Playing || p is Won),
            paper,
        },
    )
}

impl SoundState {
    /// Nothing has played yet.
    pub fn new() -> (s: Self)
        ensures
            s == silent(),
    {
        SoundState {
            track: MusicTrack::Silent,
            intro_clicked: false,
            explain_map_clicked: false,
            map_reveal_clicked: false,
            controls_clicked: false,
            playing_clicked: false,
            is_map_open: false,
            map_sound_played: false,
        }
    }

    /// The sound rules for one frame (see [`sound_next`]).
    pub fn step(self, p: StoryPhaseKind) -> (r: (SoundState, SoundCues))
        ensures
            r == sound_next(self, p),
    {
        let explain = matches!(p, StoryPhaseKind::IntroExplainAskMap { .. }) && !self.explain_map_clicked;
        let reveal = matches!(p, StoryPhaseKind::MapReveal { .. }) && !self.map_reveal_clicked;
        let controls = matches!(p, StoryPhaseKind::ControlsPrompt) && !self.controls_clicked;
        let playing = matches!(p, StoryPhaseKind::Playing) && !self.playing_clicked;
        let menu = (matches!(p, StoryPhaseKind::IntroThought) && !matches!(self.track, MusicTrack::Menu))
            || matches!(self.track, MusicTrack::Silent);
        let track1 = if menu {
            MusicTrack::Menu
        } else {
            self.track
        };
        let maze = matches!(track1, MusicTrack::Menu) && matches!(p, StoryPhaseKind::Playing);
        let map_shown = matches!(p, StoryPhaseKind::MapReveal { .. } | StoryPhaseKind::AskNameOnMap);
        let (open, played) = if map_shown {
            (true, self.map_sound_played)
        } else if !self.is_map_open && self.map_sound_played {
            (self.is_map_open, false)
        } else {
            (false, self.map_sound_played)
        };
        let paper = open && !played;
        (
            SoundState {
                track: if maze {
                    MusicTrack::Maze
                } else {
                    track1
                },
                intro_clicked: self.intro_clicked || matches!(p, StoryPhaseKind::IntroThought),
                explain_map_clicked: self.explain_map_clicked || explain,
                map_reveal_clicked: self.map_reveal_clicked || reveal,
                controls_clicked: self.controls_clicked || controls,
                playing_clicked: self.playing_clicked || playing,
                is_map_open: open,
                map_sound_played: played || paper,
            },
            SoundCues {
                click: explain || reveal || controls || playing,
                start_menu_music: menu,
                start_maze_music: maze,
                stop_rain: !matches!(p, StoryPhaseKind::Playing | StoryPhaseKind::Won),
                paper,
            },
        )
    }

    /// Reaching the exit lets the story phases click again on the next stage.
    pub fn phases_clicked_cleared(self) -> (r: Self)
        ensures
            r == (SoundState {
                intro_clicked: false,
                explain_map_clicked: false,
                map_reveal_clicked: false,
                controls_clicked: false,
                playing_clicked: false,
                ..self
            }),
    {
        SoundState {
            intro_clicked: false,
            explain_map_clicked: false,
            map_reveal_clicked: false,
            controls_clicked: false,
            playing_clicked: false,
            ..self
        }
    }
}

/// Each story phase clicks at most once until the next win, and the paper sound plays at
/// most once while the map stays open.
pub proof fn lemma_sounds_once(s: SoundState, p: StoryPhaseKind)
    ensures
        ({
            let (s1, c1) = sound_next(s, p);
            let (s2, c2) = sound_next(s1, p);
            &&& !c2.click
            &&& !c2.paper
            &&& !c2.start_menu_music
            &&& !c2.start_maze_music
        }),
{
}

} // verus!
