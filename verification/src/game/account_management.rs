//! Local save lookup by player nickname: detect prior clears and compute the next stage to
//! play.
//!
//! Only **completed** runs are saved, so in-progress stages never affect “continue” — only
//! the highest **saved** cleared stage among the newest saves.
use vstd::prelude::*;

use super::progress::RunSummary;
use super::text::{same_text, trim, trimmed};

verus! {

/// How many of the newest saves the lookup reads.
pub const LOOKUP_WINDOW: usize = 500;

/// Position `i` of a log of `len` saves is among the newest `LOOKUP_WINDOW`.
pub open spec fn in_window(len: int, i: int) -> bool {
    0 <= i < len && len - LOOKUP_WINDOW <= i
}

/// A save is a clear (not a replay) under the trimmed nickname `name`.
pub open spec fn is_clear_by(r: RunSummary, name: Seq<char>) -> bool {
    !r.is_replay && trimmed(r.player_name@) == name
}

/// The highest stage cleared under `name` among the newest saves, if any.
pub open spec fn max_cleared_spec(rows: Seq<RunSummary>, name: Seq<char>, m: Option<usize>) -> bool {
    match m {
        None => forall|i: int| in_window(rows.len() as int, i) ==> !is_clear_by(#[trigger] rows[i], name),
        Some(v) => {
            &&& exists|i: int| in_window(rows.len() as int, i) && is_clear_by(#[trigger] rows[i], name) && rows[i].stage == v
            &&& forall|i: int| in_window(rows.len() as int, i) && is_clear_by(#[trigger] rows[i], name) ==> rows[i].stage <= v
        },
    }
}

/// Highest stage this nickname has **cleared** (saved as a non-replay record) among the
/// newest 500 saves of `rows` (the save log, oldest first), if any; `None` for a blank
/// nickname.
pub fn max_cleared_stage_for_player(rows: &Vec<RunSummary>, player_name: &str) -> (r: Option<usize>)
    ensures
        trimmed(player_name@).len() == 0 ==> r.is_none(),
        trimmed(player_name@).len() > 0 ==> max_cleared_spec(rows@, trimmed(player_name@), r),
{
    let t = trim(player_name);
    if t.is_empty() {
        return None;
    }
    let n = rows.len();
    let mut i: usize = if n > LOOKUP_WINDOW {
        n - LOOKUP_WINDOW
    } else {
        0
    };
    let ghost start = i as int;
    let mut best: Option<usize> = None;
    while i < n
        invariant
            n == rows@.len(),
            start <= i <= n,
            start == if n > LOOKUP_WINDOW { n - LOOKUP_WINDOW } else { 0 },
            t@ == trimmed(player_name@),
            match best {
                None => forall|j: int| start <= j < i ==> !is_clear_by(#[trigger] rows@[j], t@),
                Some(v) => {
                    &&& exists|j: int| start <= j < i && is_clear_by(#[trigger] rows@[j], t@) && rows@[j].stage == v
                    &&& forall|j: int| start <= j < i && is_clear_by(#[trigger] rows@[j], t@) ==> rows@[j].stage <= v
                },
            },
        decreases n - i,
    {
        let r = &rows[i];
        let name = trim(r.player_name.as_str());
        if !r.is_replay && same_text(name, t) {
            let s = r.stage as usize;
            match best {
                None => {
                    best = Some(s);
                },
                Some(v) => {
                    if s > v {
                        best = Some(s);
                    }
                },
            }
        }
        i += 1;
    }
    proof {
        assert forall|j: int| in_window(rows@.len() as int, j) implies start <= j < n by {}
    }
    best
}

/// Next stage to play after the best clear (e.g. cleared 5 → play stage 6, saturating).
/// `None` if there is no prior clear.
pub fn next_stage_to_play_after_clears(rows: &Vec<RunSummary>, player_name: &str) -> (r: Option<
    usize,
>)
    ensures
        ({
            let name = trimmed(player_name@);
            &&& name.len() == 0 ==> r.is_none()
            &&& name.len() > 0 ==> exists|m: Option<usize>| #[trigger] max_cleared_spec(rows@, name, m) && r == match m {
                None => None,
                Some(v) => Some(if v < usize::MAX { (v + 1) as usize } else { v }),
            }
        }),
{
    let m = max_cleared_stage_for_player(rows, player_name);
    let r = match m {
        None => None,
        Some(v) => Some(v.saturating_add(1)),
    };
    proof {
        if trimmed(player_name@).len() > 0 {
            assert(max_cleared_spec(rows@, trimmed(player_name@), m));
        }
    }
    r
}

} // verus!
