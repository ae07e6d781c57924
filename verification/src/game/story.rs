//! Intro narrative and tutorial flow: which phase the run is in and how input moves it on.
use vstd::prelude::*;

use super::text::{input_ok, lemma_typed_name_ok, typed_name};

verus! {

/// The phases of a run, as the rules see them (the timers and the typed name live with the
/// caller).
#[derive(Clone, Copy, Debug, PartialEq, Eq, Structural)]
pub enum StoryPhaseKind {
    IntroThought,
    IntroExplainAskMap { is_first_stage: bool },
    MapReveal { is_first_stage: bool },
    AskNameOnMap,
    ControlsPrompt,
    Playing,
    Won,
    Restart,
}

/// What happened since the last frame, as far as the story cares.
#[derive(Clone, Copy, Debug, PartialEq, Eq, Structural)]
pub struct StoryInput {
    /// Space was pressed.
    pub space: bool,
    /// Enter was pressed.
    pub enter: bool,
    /// The map has been shown for its full time.
    pub map_time_up: bool,
    /// The name typed on the map is non-blank.
    pub name_ready: bool,
}

impl StoryPhaseKind {
    /// A new run starts with the opening thought.
    pub fn new_run() -> (r: Self)
        ensures
            r == StoryPhaseKind::IntroThought,
    {
        StoryPhaseKind::IntroThought
    }

    /// The maze map is shown during this phase.
    pub fn show_map_item(&self) -> (r: bool)
        ensures
            r == (*self is MapReveal),
    {
        match self {
            StoryPhaseKind::MapReveal { .. } => true,
            _ => false,
        }
    }

    /// Parchment and black backdrop (no live world underneath).
    pub fn show_paper_overlay(&self) -> (r: bool)
        ensures
            r == (*self is MapReveal || *self is AskNameOnMap),
    {
        match self {
            StoryPhaseKind::MapReveal { .. } | StoryPhaseKind::AskNameOnMap => true,
            _ => false,
        }
    }

    /// The player may move only while playing.
    pub fn movement_allowed(&self) -> (r: bool)
        ensures
            r == (*self is Playing),
    {
        match self {
            StoryPhaseKind::Playing => true,
            _ => false,
        }
    }

    /// Reaching the exit ends the run as won.
    pub fn set_won(&mut self)
        ensures
            *final(self) == StoryPhaseKind::Won,
    {
        *self = StoryPhaseKind::Won;
    }

    /// The phase after one frame of input. The intro thought waits for Space or Enter; the
    /// map explanation waits for Space; the map stays until its time is up, then asks for a
    /// name on the first stage and starts play otherwise; the name prompt waits for Enter with
    /// a non-blank name; the controls prompt waits for Enter; a restart resumes play.
    pub fn next(self, input: StoryInput) -> (r: Self)
        ensures
            r == story_next(self, input),
    {
        match self {
            StoryPhaseKind::IntroThought => {
                if input.space || input.enter {
                    StoryPhaseKind::IntroExplainAskMap { is_first_stage: true }
                } else {
                    self
                }
            },
            StoryPhaseKind::IntroExplainAskMap { is_first_stage } => {
                if input.space {
                    StoryPhaseKind::MapReveal { is_first_stage }
                } else {
                    self
                }
            },
            StoryPhaseKind::MapReveal { is_first_stage } => {
                if input.map_time_up {
                    if is_first_stage {
                        StoryPhaseKind::AskNameOnMap
                    } else {
                        StoryPhaseKind::Playing
                    }
                } else {
                    self
                }
            },
            StoryPhaseKind::AskNameOnMap => {
                if input.enter && input.name_ready {
                    StoryPhaseKind::ControlsPrompt
                } else {
                    self
                }
            },
            StoryPhaseKind::ControlsPrompt => {
                if input.enter {
                    StoryPhaseKind::Playing
                } else {
                    self
                }
            },
            StoryPhaseKind::Restart => StoryPhaseKind::Playing,
            StoryPhaseKind::Playing => self,
            StoryPhaseKind::Won => self,
        }
    }
}

/// The story's transition rule.
pub open spec fn story_next(p: StoryPhaseKind, input: StoryInput) -> StoryPhaseKind {
    match p {
        StoryPhaseKind::IntroThought => if input.space || input.enter {
            StoryPhaseKind::IntroExplainAskMap { is_first_stage: true }
        } else {
            p
        },
        StoryPhaseKind::IntroExplainAskMap { is_first_stage } => if input.space {
            StoryPhaseKind::MapReveal { is_first_stage }
        } else {
            p
        },
        StoryPhaseKind::MapReveal { is_first_stage } => if input.map_time_up {
            if is_first_stage {
                StoryPhaseKind::AskNameOnMap
            } else {
                StoryPhaseKind::Playing
            }
        } else {
            p
        },
        StoryPhaseKind::AskNameOnMap => if input.enter && input.name_ready {
            StoryPhaseKind::ControlsPrompt
        } else {
            p
        },
        StoryPhaseKind::ControlsPrompt => if input.enter {
            StoryPhaseKind::Playing
        } else {
            p
        },
        StoryPhaseKind::Restart => StoryPhaseKind::Playing,
        StoryPhaseKind::Playing => p,
        StoryPhaseKind::Won => p,
    }
}

/// Playing and Won are settled: no input moves the story out of them.
pub proof fn lemma_settled_phases(input: StoryInput)
    ensures
        story_next(StoryPhaseKind::Playing, input) == StoryPhaseKind::Playing,
        story_next(StoryPhaseKind::Won, input) == StoryPhaseKind::Won,
{
}

/// The story only ever moves forward: once the map is put away, no input brings back the
/// intro or the map, and a name is asked only on the first stage.
pub proof fn lemma_story_forward(p: StoryPhaseKind, input: StoryInput)
    ensures
        (p is AskNameOnMap || p is ControlsPrompt || p is Playing || p is Won || p is Restart)
            ==> !(story_next(p, input) is IntroThought || story_next(p, input) is IntroExplainAskMap
            || story_next(p, input) is MapReveal),
        (p == StoryPhaseKind::MapReveal { is_first_stage: false }) ==> !(story_next(p, input) is AskNameOnMap),
{
}

/// The name a story frame hands out: the name written on the map, exactly when the frame
/// took the story from the name prompt to the controls prompt.
pub fn name_on_map_result(before: StoryPhaseKind, after: StoryPhaseKind, buffer: &Vec<char>) -> (r:
    Option<Vec<char>>)
    ensures
        r is Some <==> (before is AskNameOnMap && after is ControlsPrompt),
        r matches Some(n) ==> n@ == buffer@,
{
    if matches!(before, StoryPhaseKind::AskNameOnMap) && matches!(after, StoryPhaseKind::ControlsPrompt) {
        Some(buffer.clone())
    } else {
        None
    }
}

/// A name comes out of the map prompt only when Enter is pressed with a name written, and it
/// is then 1 to 32 ASCII letters and digits; while the prompt stays, the name written keeps
/// to at most 32 ASCII letters and digits whatever is typed.
pub proof fn lemma_name_on_map(buf: Seq<char>, chars: Seq<char>, input: StoryInput)
    requires
        input_ok(buf),
        input.name_ready == (typed_name(buf, chars).len() > 0),
    ensures
        input_ok(typed_name(buf, chars)),
        story_next(StoryPhaseKind::AskNameOnMap, input) is ControlsPrompt ==> input.enter
            && typed_name(buf, chars).len() > 0,
        !(story_next(StoryPhaseKind::AskNameOnMap, input) is ControlsPrompt) ==> story_next(
            StoryPhaseKind::AskNameOnMap,
            input,
        ) is AskNameOnMap,
{
    lemma_typed_name_ok(buf, chars);
}

/// One whole frame of the map prompt: the character events are written, then — unless Enter
/// was pressed — the Backspace key may erase one letter (`erase_key`: when the caller's key
/// repeat allows it). A name comes out only with Enter and a name written, and it is then 1
/// to 32 ASCII letters and digits; if the prompt stays, the name written after the frame
/// keeps to at most 32 ASCII letters and digits.
pub proof fn lemma_name_on_map_frame(
    buf: Seq<char>,
    chars: Seq<char>,
    enter: bool,
    erase_key: bool,
    input: StoryInput,
)
    requires
        input_ok(buf),
        input.enter == enter,
        input.name_ready == (typed_name(buf, chars).len() > 0),
    ensures
        ({
            let written = typed_name(buf, chars);
            let after = if !enter && erase_key && written.len() > 0 {
                written.drop_last()
            } else {
                written
            };
            &&& story_next(StoryPhaseKind::AskNameOnMap, input) is ControlsPrompt ==> enter
                && written.len() > 0 && input_ok(written)
            &&& story_next(StoryPhaseKind::AskNameOnMap, input) is AskNameOnMap ==> input_ok(after)
        }),
{
    lemma_typed_name_ok(buf, chars);
    let written = typed_name(buf, chars);
    if written.len() > 0 {
        assert(input_ok(written.drop_last()));
    }
}

/// The first-stage flag travels with the map: Space on the map explanation shows the map
/// with the same flag it had, and nothing else moves the explanation on. So a later stage
/// (flag `false`) goes from the explanation through the map straight to play and never asks
/// for a name, while the first stage asks for it once the map time is up.
pub proof fn lemma_stage_flag_kept(b: bool, i1: StoryInput, i2: StoryInput)
    ensures
        i1.space ==> story_next(StoryPhaseKind::IntroExplainAskMap { is_first_stage: b }, i1)
            == (StoryPhaseKind::MapReveal { is_first_stage: b }),
        !i1.space ==> story_next(StoryPhaseKind::IntroExplainAskMap { is_first_stage: b }, i1)
            == (StoryPhaseKind::IntroExplainAskMap { is_first_stage: b }),
        !b ==> !(story_next(StoryPhaseKind::IntroExplainAskMap { is_first_stage: b }, i1) is AskNameOnMap),
        !b ==> !(story_next(
            story_next(StoryPhaseKind::IntroExplainAskMap { is_first_stage: b }, i1),
            i2,
        ) is AskNameOnMap),
        i2.map_time_up ==> story_next(StoryPhaseKind::MapReveal { is_first_stage: b }, i2) == (if b {
            StoryPhaseKind::AskNameOnMap
        } else {
            StoryPhaseKind::Playing
        }),
{
}

} // verus!
