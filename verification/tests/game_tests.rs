use std::collections::VecDeque;

use maze_game::game::account_management::{
    max_cleared_stage_for_player, next_stage_to_play_after_clears,
};
use maze_game::game::menu::{menu_down, menu_up, records_list_step};
use maze_game::game::player::{held_direction, next_cell_from_input, HeldKeys};
use maze_game::game::progress::{
    leaderboard_max_stage_per_player, newest_first, push_recent, record_by_newest_index, save_name,
    RunSummary,
};
use maze_game::game::stage::{
    build_hint_cells, build_stage, collect_hints_at, hint_items_for_stage,
    normal_maze_dims_for_stage, replay_maze, reset_hints, HintItem,
};
use maze_game::game::story::{StoryInput, StoryPhaseKind};
use maze_game::game::text::{is_ascii_alphanumeric, pop_input_char, push_input_char};
use maze_game::game::world_render::is_visible;
use maze_game::maze::{is_reachable, shortest_path_len, Maze, Walls};

fn run(name: &str, stage: u32, is_replay: bool) -> RunSummary {
    RunSummary { player_name: name.to_string(), stage, is_replay }
}

#[test]
fn leaderboard_picks_max_stage_per_player() {
    let rows = vec![run("Ada", 2, false), run("Ada", 5, false), run("Bob", 1, false)];
    let lb = leaderboard_max_stage_per_player(&rows);
    assert_eq!(lb.len(), 2);
    assert_eq!(lb[0], ("Ada".to_string(), 5));
    assert_eq!(lb[1], ("Bob".to_string(), 1));
}

#[test]
fn leaderboard_trims_skips_blank_and_orders_case_folded() {
    let rows = vec![
        run("  Bob ", 3, false),
        run("alice", 3, true),
        run("   ", 9, false),
        run("Bob", 2, false),
        run("Zed", 7, false),
    ];
    let lb = leaderboard_max_stage_per_player(&rows);
    assert_eq!(
        lb,
        vec![("Zed".to_string(), 7), ("alice".to_string(), 3), ("Bob".to_string(), 3)]
    );
    assert!(leaderboard_max_stage_per_player(&vec![]).is_empty());
}

#[test]
fn continue_lookup_uses_clears_only() {
    let rows = vec![
        run("Ada", 2, false),
        run("Ada", 9, true),
        run(" Ada ", 4, false),
        run("Bob", 1, false),
    ];
    assert_eq!(max_cleared_stage_for_player(&rows, "Ada"), Some(4));
    assert_eq!(next_stage_to_play_after_clears(&rows, "  Ada"), Some(5));
    assert_eq!(next_stage_to_play_after_clears(&rows, "Cy"), None);
    assert_eq!(next_stage_to_play_after_clears(&rows, "   "), None);
    let top = vec![run("Max", u32::MAX, false)];
    assert_eq!(next_stage_to_play_after_clears(&top, "Max"), Some(u32::MAX as usize + 1));
}

#[test]
fn continue_lookup_reads_newest_five_hundred() {
    let mut rows = vec![run("Old", 40, false)];
    for _ in 0..500 {
        rows.push(run("New", 1, false));
    }
    assert_eq!(max_cleared_stage_for_player(&rows, "Old"), None);
    assert_eq!(max_cleared_stage_for_player(&rows, "New"), Some(1));
}

#[test]
fn newest_first_listing() {
    assert_eq!(newest_first(vec![1, 2, 3, 4], 3), vec![4, 3, 2]);
    assert_eq!(newest_first(vec![1, 2], 5), vec![2, 1]);
    assert_eq!(newest_first(Vec::<u8>::new(), 5), Vec::<u8>::new());
    assert_eq!(record_by_newest_index(vec!['a', 'b', 'c'], 0), Some('c'));
    assert_eq!(record_by_newest_index(vec!['a', 'b', 'c'], 2), Some('a'));
    assert_eq!(record_by_newest_index(vec!['a', 'b', 'c'], 3), None);
}

#[test]
fn recent_saves_are_bounded() {
    let mut q: VecDeque<u8> = VecDeque::new();
    for i in 0..6 {
        push_recent(&mut q, 4, i);
    }
    assert_eq!(q, VecDeque::from(vec![2, 3, 4, 5]));
    push_recent(&mut q, 0, 9);
    assert_eq!(q, VecDeque::from(vec![2, 3, 4, 5]));
}

#[test]
fn saved_name_is_trimmed_or_player() {
    assert_eq!(save_name("  Ada \t"), "Ada");
    assert_eq!(save_name("   "), "player");
    assert_eq!(save_name(""), "player");
}

#[test]
fn stage_sizes_grow_by_two() {
    assert_eq!(normal_maze_dims_for_stage(1), (31, 21));
    assert_eq!(normal_maze_dims_for_stage(0), (31, 21));
    assert_eq!(normal_maze_dims_for_stage(2), (33, 23));
    assert_eq!(normal_maze_dims_for_stage(6), (41, 31));
}

#[test]
fn hint_cells_corners_and_mid_edges() {
    assert_eq!(
        build_hint_cells(31, 21),
        vec![(0, 0), (15, 0), (30, 0), (0, 10), (30, 10), (0, 20), (15, 20), (30, 20)]
    );
    assert_eq!(build_hint_cells(1, 1), vec![(0, 0)]);
    assert_eq!(build_hint_cells(2, 1), vec![(0, 0), (1, 0)]);
    assert!(build_hint_cells(0, 5).is_empty());
}

#[test]
fn hints_avoid_start_and_exit() {
    let items = hint_items_for_stage(3, 3, (1, 1), (0, 0));
    let cells: Vec<(usize, usize)> = items.iter().map(|h| h.cell).collect();
    assert_eq!(cells, vec![(1, 0), (2, 0), (0, 1), (2, 1), (0, 2), (1, 2), (2, 2)]);
    assert!(items.iter().all(|h| !h.collected));
}

#[test]
fn hints_are_collected_once_and_reset() {
    let mut hints = vec![
        HintItem { cell: (0, 0), collected: false },
        HintItem { cell: (2, 0), collected: false },
    ];
    assert!(collect_hints_at(&mut hints, (2, 0)));
    assert!(hints[1].collected && !hints[0].collected);
    assert!(!collect_hints_at(&mut hints, (2, 0)));
    assert!(!collect_hints_at(&mut hints, (1, 1)));
    reset_hints(&mut hints);
    assert!(hints.iter().all(|h| !h.collected));
    assert_eq!(hints[1].cell, (2, 0));
}

#[test]
fn built_stage_is_solvable() {
    let l = build_stage(31, 21);
    assert_eq!(l.maze.width(), 31);
    assert_eq!(l.maze.height(), 21);
    assert_eq!(l.start, (15, 10));
    assert!(is_reachable(&l.maze, l.start, l.exit));
    assert_eq!(l.path_steps, shortest_path_len(&l.maze, l.start, l.exit));
    assert!(l.path_steps.is_some());
    assert!(l.hints.iter().all(|h| h.cell != l.start && h.cell != l.exit));
    let one = build_stage(1, 1);
    assert_eq!(one.exit, (0, 0));
    assert_eq!(one.path_steps, Some(0));
}

#[test]
fn replayed_mazes_must_fit() {
    assert!(replay_maze(2, 2, vec![15; 4]).is_some());
    assert!(replay_maze(2, 2, vec![15; 3]).is_none());
    assert!(replay_maze(0, 3, vec![]).is_none());
    let m = replay_maze(3, 1, vec![13, 5, 7]).unwrap();
    assert_eq!(m.cells(), &[13u8, 5, 7][..]);
}

#[test]
fn menus_wrap_around() {
    assert_eq!(menu_up(0, 4), 3);
    assert_eq!(menu_up(2, 4), 1);
    assert_eq!(menu_down(3, 4), 0);
    assert_eq!(menu_down(1, 4), 2);
    assert_eq!(menu_down(5, 3), 2);
    assert_eq!(menu_up(5, 3), 4);
}

#[test]
fn records_list_scrolls_with_selection() {
    assert_eq!(records_list_step(0, 0, 30, false, true), (1, 0));
    assert_eq!(records_list_step(9, 0, 30, false, true), (10, 1));
    assert_eq!(records_list_step(10, 1, 30, true, false), (9, 1));
    assert_eq!(records_list_step(1, 1, 30, true, false), (0, 0));
    assert_eq!(records_list_step(29, 20, 30, false, true), (29, 20));
    assert_eq!(records_list_step(40, 35, 20, false, false), (19, 10));
    assert_eq!(records_list_step(3, 2, 0, true, true), (0, 0));
}

#[test]
fn story_phases_move_forward() {
    let none = StoryInput { space: false, enter: false, map_time_up: false, name_ready: false };
    let space = StoryInput { space: true, ..none };
    let enter = StoryInput { enter: true, ..none };
    let p = StoryPhaseKind::new_run();
    assert_eq!(p.next(none), StoryPhaseKind::IntroThought);
    let p = p.next(enter);
    assert_eq!(p, StoryPhaseKind::IntroExplainAskMap { is_first_stage: true });
    let p = p.next(enter);
    assert_eq!(p, StoryPhaseKind::IntroExplainAskMap { is_first_stage: true });
    let p = p.next(space);
    assert!(p.show_map_item() && p.show_paper_overlay() && !p.movement_allowed());
    let p = p.next(StoryInput { map_time_up: true, ..none });
    assert_eq!(p, StoryPhaseKind::AskNameOnMap);
    assert_eq!(p.next(enter), StoryPhaseKind::AskNameOnMap);
    let p = p.next(StoryInput { enter: true, name_ready: true, ..none });
    assert_eq!(p, StoryPhaseKind::ControlsPrompt);
    let p = p.next(enter);
    assert!(p.movement_allowed());
    let later = StoryPhaseKind::MapReveal { is_first_stage: false };
    assert_eq!(later.next(StoryInput { map_time_up: true, ..none }), StoryPhaseKind::Playing);
    assert_eq!(StoryPhaseKind::Restart.next(none), StoryPhaseKind::Playing);
    let mut w = StoryPhaseKind::Playing;
    w.set_won();
    assert_eq!(w.next(enter), StoryPhaseKind::Won);
}

#[test]
fn player_moves_only_through_open_walls() {
    let m = Maze::new(3, 1, vec![13, 5, 7]);
    let right = HeldKeys { up: false, down: false, left: false, right: true };
    let left = HeldKeys { right: false, left: true, ..right };
    let up = HeldKeys { up: true, ..right };
    let none = HeldKeys { right: false, ..right };
    let mut blocked = false;
    assert_eq!(next_cell_from_input(&m, (0, 0), right, &mut blocked), Some((1, 0)));
    assert!(!blocked);
    assert_eq!(next_cell_from_input(&m, (0, 0), left, &mut blocked), None);
    assert!(blocked);
    assert_eq!(next_cell_from_input(&m, (1, 0), none, &mut blocked), None);
    assert!(blocked);
    // Up wins over right, and the north wall is closed.
    assert_eq!(next_cell_from_input(&m, (1, 0), up, &mut blocked), None);
    assert_eq!(held_direction(up), Some(0));
    assert_eq!(next_cell_from_input(&m, (2, 0), left, &mut blocked), Some((1, 0)));
    // An open border wall still keeps the player in the grid.
    let open = Maze::new(1, 1, vec![0]);
    assert_eq!(next_cell_from_input(&open, (0, 0), up, &mut blocked), None);
    assert!(!blocked);
}

#[test]
fn typing_keeps_letters_and_digits_up_to_32() {
    let mut b = Vec::new();
    for c in "ab-1 C".chars() {
        push_input_char(&mut b, c);
    }
    assert_eq!(b, vec!['a', 'b', '1', 'C']);
    pop_input_char(&mut b);
    assert_eq!(b, vec!['a', 'b', '1']);
    for _ in 0..40 {
        push_input_char(&mut b, 'x');
    }
    assert_eq!(b.len(), 32);
    assert!(is_ascii_alphanumeric('Z') && !is_ascii_alphanumeric('é'));
}

#[test]
fn visibility_lookup() {
    let vis = vec![false, true, false, false, false, true];
    assert!(is_visible(&vis, 3, 1, 0));
    assert!(is_visible(&vis, 3, 2, 1));
    assert!(!is_visible(&vis, 3, 0, 1));
}

#[test]
fn walls_constants() {
    assert_eq!(Walls::ALL, Walls::NORTH | Walls::EAST | Walls::SOUTH | Walls::WEST);
}
