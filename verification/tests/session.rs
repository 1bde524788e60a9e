use puzterm::clock::{clock_face, ClockFace};
use puzterm::game::{Direction, Game, GameStatus, Mode};
use puzterm::keys::{command_for, typed_letter, Command, KeyEvent};
use puzterm::puzfile::{DecodeError, PuzFile};
use puzterm::render::{repaint_for, ClueLine, Repaint};

/// A puzzle record with the given grid and clues, as a decoder would make it.
fn record(width: u8, height: u8, puzzle: &str, clues: &[&str]) -> PuzFile {
    PuzFile {
        preamble: Vec::new(),
        checksum: 0,
        magic: "ACROSS&DOWN".to_string(),
        cib_checksum: 0,
        masked_low_checksum_1: 0,
        masked_low_checksum_2: 0,
        masked_high_checksum_1: 0,
        masked_high_checksum_2: 0,
        version: "1.3\0".to_string(),
        reserved_1: 0,
        scrambled_checksum: 0,
        reserved_2: vec![0; 12],
        width,
        height,
        num_clues: clues.len() as u16,
        unknown_bitmask: 0,
        scrambled: 0,
        puzzle: puzzle.to_string(),
        state: puzzle.chars().map(|c| if c == '.' { '.' } else { '-' }).collect(),
        title: "A title".to_string(),
        author: "An author".to_string(),
        copyright: String::new(),
        clues: clues.iter().map(|c| c.to_string()).collect(),
        notes: String::new(),
    }
}

fn small_record() -> PuzFile {
    record(3, 3, "PUZO.OPOO", &["one across", "one down", "two down", "three across"])
}

fn small_game() -> Game {
    Game::new(&small_record()).unwrap()
}

fn error_of(p: &PuzFile) -> Option<DecodeError> {
    Game::new(p).err()
}

fn press(g: &mut Game, keys: &[KeyEvent]) {
    for k in keys {
        assert!(g.update(*k));
    }
}

fn type_text(g: &mut Game, text: &str) {
    for c in text.chars() {
        assert!(g.update(KeyEvent::Char(c)));
    }
}

fn wait_a_second() {
    let begin = std::time::Instant::now();
    while begin.elapsed() < std::time::Duration::from_millis(1100) {
        std::hint::spin_loop();
    }
}

fn guesses(g: &Game) -> String {
    g.cells().iter().map(|c| c.guess.unwrap_or(if c.truth.is_some() { '-' } else { '.' })).collect()
}

#[test]
fn small_grid_is_numbered_in_scan_order() {
    let g = small_game();
    assert_eq!(g.width(), 3);
    assert_eq!(g.height(), 3);
    let numbers: Vec<Option<u16>> = g.cells().iter().map(|c| c.clue_number).collect();
    assert_eq!(
        numbers,
        vec![Some(1), None, Some(2), None, None, None, Some(3), None, None]
    );
    let c = g.get(0, 0);
    assert_eq!(c.truth, Some('P'));
    assert_eq!(c.guess, None);
    assert_eq!(c.clue_across.as_deref(), Some("one across"));
    assert_eq!(c.clue_down.as_deref(), Some("one down"));
    let c = g.get(2, 0);
    assert_eq!(c.clue_number, Some(2));
    assert_eq!(c.clue_across, None);
    assert_eq!(c.clue_down.as_deref(), Some("two down"));
    let c = g.get(0, 2);
    assert_eq!(c.clue_number, Some(3));
    assert_eq!(c.clue_across.as_deref(), Some("three across"));
    assert_eq!(c.clue_down, None);
    let c = g.get(1, 1);
    assert_eq!(c.truth, None);
    assert_eq!(c.clue_number, None);
    let c = g.get(0, 1);
    assert_eq!(c.truth, Some('O'));
    assert_eq!(c.clue_number, None);
    assert_eq!(c.clue_across, None);
    assert_eq!(c.clue_down, None);
}

#[test]
fn entry_starts_on_the_small_grid() {
    let g = small_game();
    let mut across = Vec::new();
    let mut down = Vec::new();
    for y in 0..3 {
        for x in 0..3 {
            if g.has_clue_across(x, y) {
                across.push((x, y));
            }
            if g.has_clue_down(x, y) {
                down.push((x, y));
            }
        }
    }
    assert_eq!(across, vec![(0, 0), (0, 2)]);
    assert_eq!(down, vec![(0, 0), (2, 0)]);
}

#[test]
fn numbers_increase_on_the_big_grid() {
    let rows = [
        "TEST.ZEBRA.TEST",
        "TEST.ZEBRA.TEST",
        "MUDSKIPPER.TEST",
        "PUZ.TEST.WIZARD",
        "...TEST.GIZZARD",
        "WIZARD.WIZARD..",
        "ZEBRA.ZEBRA.PUZ",
        "TEST.ZEBRA.TEST",
        "PUZ.ZEBRA.ZEBRA",
        "..WIZARD.WIZARD",
        "GIZZARD.TEST...",
        "WIZARD.TEST.PUZ",
        "TEST.MUDSKIPPER",
        "TEST.ZEBRA.TEST",
        "TEST.ZEBRA.TEST",
    ];
    let texts: Vec<String> = (0..78).map(|i| format!("clue {}", i)).collect();
    let clues: Vec<&str> = texts.iter().map(|s| s.as_str()).collect();
    let g = Game::new(&record(15, 15, &rows.concat(), &clues)).unwrap();
    let numbers: Vec<u16> = g.cells().iter().filter_map(|c| c.clue_number).collect();
    assert_eq!(numbers, (1..=61).collect::<Vec<u16>>());
    // every clue is handed out once, in file order
    let mut handed = Vec::new();
    for c in g.cells() {
        if let Some(t) = &c.clue_across {
            handed.push(t.clone());
        }
        if let Some(t) = &c.clue_down {
            handed.push(t.clone());
        }
    }
    assert_eq!(handed, texts);
    assert_eq!(g.get(14, 12).clue_number, None);
    assert_eq!(g.get(0, 14).clue_number, Some(59));
    assert_eq!(g.get(5, 14).clue_number, Some(60));
    assert_eq!(g.get(11, 14).clue_number, Some(61));
    assert_eq!(g.get(11, 14).clue_across.as_deref(), Some("clue 77"));
}

#[test]
fn squares_are_addressed_by_column_and_row() {
    let g = Game::new(&record(2, 3, "PAO.P.", &["pa", "pop"])).unwrap();
    assert_eq!((g.width(), g.height()), (2, 3));
    assert_eq!(g.cells().len(), 6);
    assert_eq!(g.get(0, 0).truth, Some('P'));
    assert_eq!(g.get(1, 0).truth, Some('A'));
    assert_eq!(g.get(0, 1).truth, Some('O'));
    assert_eq!(g.get(1, 1).truth, None);
    assert_eq!(g.get(0, 2).truth, Some('P'));
    assert_eq!(g.get(1, 2).truth, None);
    assert_eq!(g.get(0, 0).clue_number, Some(1));
    assert_eq!(g.get(0, 0).clue_across.as_deref(), Some("pa"));
    assert_eq!(g.get(0, 0).clue_down.as_deref(), Some("pop"));
    assert!(g.cells()[1..].iter().all(|c| c.clue_number.is_none()));
    assert_eq!(g.get_status(), GameStatus { cells: 4, guesses: 0, errors: 0 });
}

#[test]
fn single_square_starts_nothing() {
    let g = Game::new(&record(1, 1, "A", &[])).unwrap();
    assert!(!g.has_clue_across(0, 0));
    assert!(!g.has_clue_down(0, 0));
    let c = g.get(0, 0);
    assert_eq!(c.truth, Some('A'));
    assert_eq!(c.clue_number, None);
    assert_eq!(c.clue_across, None);
    assert_eq!(c.clue_down, None);
}

#[test]
fn lone_squares_start_nothing() {
    // no square has a playable neighbour
    let g = Game::new(&record(3, 3, "A.B.C.D.E", &[])).unwrap();
    assert!(g.cells().iter().all(|c| c.clue_number.is_none()));
    // one row: only across entries
    let g = Game::new(&record(4, 1, "AB.C", &["ab"])).unwrap();
    assert_eq!(g.get(0, 0).clue_number, Some(1));
    assert!(g.has_clue_across(0, 0));
    assert!(!g.has_clue_across(1, 0));
    assert!(!g.has_clue_across(3, 0));
    // one column: only down entries
    let g = Game::new(&record(1, 4, "A.BC", &["bc"])).unwrap();
    assert_eq!(g.get(0, 2).clue_number, Some(1));
    assert!(g.has_clue_down(0, 2));
    assert!(!g.has_clue_down(0, 0));
    assert!(!g.has_clue_down(0, 3));
}

#[test]
fn fresh_session() {
    let g = small_game();
    assert_eq!((g.cursor_x(), g.cursor_y()), (0, 0));
    assert_eq!(g.mode(), Mode::Select);
    assert_eq!(g.last_edit_mode(), Mode::EditAcross);
    assert_eq!(g.clues_scroll(), 0);
    assert!(!g.hint_num_errors());
    assert_eq!(g.title(), "A title");
    assert_eq!(g.author(), "An author");
    assert_eq!(guesses(&g), "----.----");
}

#[test]
fn state_of_the_file_is_not_taken_over() {
    let mut p = small_record();
    p.state = "PUZO.OPOO".to_string();
    let g = Game::new(&p).unwrap();
    assert!(g.cells().iter().all(|c| c.guess.is_none()));
    assert_eq!(g.get_status().guesses, 0);
}

#[test]
fn wrong_clue_count_is_a_mismatch() {
    let p = record(3, 3, "PUZO.OPOO", &["a", "b", "c"]);
    assert_eq!(error_of(&p), Some(DecodeError::ClueCountMismatch));
    let p = record(3, 3, "PUZO.OPOO", &["a", "b", "c", "d", "e"]);
    assert_eq!(error_of(&p), Some(DecodeError::ClueCountMismatch));
    let p = record(3, 3, "PUZO.OPOO", &[]);
    assert_eq!(error_of(&p), Some(DecodeError::ClueCountMismatch));
    let mut p = small_record();
    p.num_clues = 5;
    assert_eq!(error_of(&p), Some(DecodeError::ClueCountMismatch));
    let p = record(1, 1, "A", &["a"]);
    assert_eq!(error_of(&p), Some(DecodeError::ClueCountMismatch));
}

#[test]
fn grid_text_must_fit_the_grid() {
    let p = record(3, 3, "PUZO.OPO", &["a", "b", "c", "d"]);
    assert_eq!(error_of(&p), Some(DecodeError::InvalidCharacterGrid));
    let p = record(3, 3, "PUZO.OPOOO", &["a", "b", "c", "d"]);
    assert_eq!(error_of(&p), Some(DecodeError::InvalidCharacterGrid));
    let p = record(3, 3, "PUZO.OPO\u{e9}", &["a", "b", "c", "d"]);
    assert_eq!(error_of(&p), Some(DecodeError::InvalidCharacterGrid));
}

#[test]
fn grid_without_squares_is_refused() {
    assert_eq!(error_of(&record(0, 3, "", &[])), Some(DecodeError::MalformedHeader));
    assert_eq!(error_of(&record(3, 0, "", &[])), Some(DecodeError::MalformedHeader));
    assert_eq!(error_of(&record(0, 0, "", &[])), Some(DecodeError::MalformedHeader));
    // the side is looked at first
    assert_eq!(error_of(&record(0, 3, "ABC", &["x"])), Some(DecodeError::MalformedHeader));
}

#[test]
fn largest_grid_loads() {
    let puzzle = "A".repeat(255 * 255);
    let texts: Vec<String> = (0..510).map(|i| i.to_string()).collect();
    let clues: Vec<&str> = texts.iter().map(|s| s.as_str()).collect();
    let g = Game::new(&record(255, 255, &puzzle, &clues)).unwrap();
    assert_eq!(g.get_status(), GameStatus { cells: 65025, guesses: 0, errors: 0 });
    assert_eq!(g.get(0, 0).clue_number, Some(1));
    assert_eq!(g.get(254, 0).clue_number, Some(255));
    assert_eq!(g.get(0, 254).clue_number, Some(509));
    assert_eq!(g.get(0, 254).clue_across.as_deref(), Some("509"));
    assert_eq!(g.get(1, 1).clue_number, None);
}

#[test]
fn select_moves_wrap() {
    let mut g = small_game();
    g.select_move(Direction::Left);
    assert_eq!((g.cursor_x(), g.cursor_y()), (2, 0));
    g.select_move(Direction::Right);
    assert_eq!((g.cursor_x(), g.cursor_y()), (0, 0));
    g.select_move(Direction::Up);
    assert_eq!((g.cursor_x(), g.cursor_y()), (0, 2));
    g.select_move(Direction::Down);
    assert_eq!((g.cursor_x(), g.cursor_y()), (0, 0));
    // blocks are visited like any square
    g.select_move(Direction::Right);
    g.select_move(Direction::Down);
    assert_eq!((g.cursor_x(), g.cursor_y()), (1, 1));
    assert_eq!(g.get(1, 1).truth, None);
    assert_eq!(g.mode(), Mode::Select);
}

#[test]
fn wrapping_neighbours() {
    let g = Game::new(&record(2, 3, "PAO.P.", &["a", "b"])).unwrap();
    assert_eq!(g.left(0), 1);
    assert_eq!(g.left(1), 0);
    assert_eq!(g.right(0), 1);
    assert_eq!(g.right(1), 0);
    assert_eq!(g.up(0), 2);
    assert_eq!(g.up(2), 1);
    assert_eq!(g.down(2), 0);
    assert_eq!(g.down(0), 1);
}

#[test]
fn edit_moves_stop_at_edges_and_blocks() {
    let g = small_game();
    // edges
    assert_eq!(g.edit_left(0, 0), 0);
    assert_eq!(g.edit_up(0, 0), 0);
    assert_eq!(g.edit_right(2, 2), 2);
    assert_eq!(g.edit_down(2, 2), 2);
    // free squares
    assert_eq!(g.edit_right(0, 0), 1);
    assert_eq!(g.edit_left(2, 0), 1);
    assert_eq!(g.edit_down(0, 0), 1);
    assert_eq!(g.edit_up(2, 2), 1);
    // the block in the middle
    assert_eq!(g.edit_right(0, 1), 0);
    assert_eq!(g.edit_left(2, 1), 2);
    assert_eq!(g.edit_down(1, 0), 0);
    assert_eq!(g.edit_up(1, 2), 2);
}

#[test]
fn edit_move_at_the_left_edge_stays() {
    let mut g = small_game();
    g.select_move(Direction::Down);
    g.edit_mode();
    assert_eq!((g.cursor_x(), g.cursor_y()), (0, 1));
    g.edit_move(Direction::Left);
    assert_eq!((g.cursor_x(), g.cursor_y()), (0, 1));
    g.edit_move(Direction::Right);
    assert_eq!((g.cursor_x(), g.cursor_y()), (0, 1));
    g.edit_move(Direction::Up);
    assert_eq!((g.cursor_x(), g.cursor_y()), (0, 0));
    g.edit_move(Direction::Up);
    assert_eq!((g.cursor_x(), g.cursor_y()), (0, 0));
}

#[test]
fn edit_mode_follows_the_clues_of_the_square() {
    // (2, 0) has a down clue only
    let mut g = small_game();
    press(&mut g, &[KeyEvent::Left, KeyEvent::Char('\n')]);
    assert_eq!(g.mode(), Mode::EditDown);
    assert_eq!(g.last_edit_mode(), Mode::EditDown);
    // (0, 2) has an across clue only
    let mut g = small_game();
    press(&mut g, &[KeyEvent::Up, KeyEvent::Char('i')]);
    assert_eq!(g.mode(), Mode::EditAcross);
    // (0, 0) has both: the remembered direction
    let mut g = small_game();
    g.edit_mode();
    assert_eq!(g.mode(), Mode::EditAcross);
    g.edit_direction();
    assert_eq!(g.mode(), Mode::EditDown);
    g.select_mode();
    assert_eq!(g.mode(), Mode::Select);
    assert_eq!(g.last_edit_mode(), Mode::EditDown);
    g.edit_mode();
    assert_eq!(g.mode(), Mode::EditDown);
    // (1, 0) has neither: the remembered direction
    g.select_mode();
    g.select_move(Direction::Right);
    g.edit_mode();
    assert_eq!(g.mode(), Mode::EditDown);
}

#[test]
fn edit_mode_on_a_block_does_nothing() {
    let mut g = small_game();
    press(&mut g, &[KeyEvent::Right, KeyEvent::Down, KeyEvent::Char('\n')]);
    assert_eq!((g.cursor_x(), g.cursor_y()), (1, 1));
    assert_eq!(g.mode(), Mode::Select);
    assert_eq!(g.last_edit_mode(), Mode::EditAcross);
}

#[test]
fn edit_direction_swaps_whatever_the_square_offers() {
    let mut g = small_game();
    press(&mut g, &[KeyEvent::Up, KeyEvent::Char('i')]);
    assert_eq!(g.mode(), Mode::EditAcross);
    press(&mut g, &[KeyEvent::Char(' ')]);
    assert_eq!(g.mode(), Mode::EditDown);
    assert_eq!(g.last_edit_mode(), Mode::EditDown);
    press(&mut g, &[KeyEvent::Char(' ')]);
    assert_eq!(g.mode(), Mode::EditAcross);
    assert_eq!(g.last_edit_mode(), Mode::EditAcross);
}

#[test]
fn typed_letters_are_stored_in_upper_case() {
    let mut g = small_game();
    g.edit_mode();
    g.input('a');
    assert_eq!(g.get(0, 0).guess, Some('A'));
    assert_eq!((g.cursor_x(), g.cursor_y()), (1, 0));
    g.input('7');
    assert_eq!(g.get(1, 0).guess, Some('7'));
    g.input('\u{e9}');
    assert_eq!(g.get(2, 0).guess, Some('\u{c9}'));
    // at the end of the entry the cursor stays
    assert_eq!((g.cursor_x(), g.cursor_y()), (2, 0));
    // the uppercase form of sharp s has two letters: the first is kept
    g.input('\u{df}');
    assert_eq!(g.get(2, 0).guess, Some('S'));
}

#[test]
fn guess_stores_the_letter_as_given() {
    let mut g = small_game();
    g.edit_mode();
    g.guess('a');
    assert_eq!(g.get(0, 0).guess, Some('a'));
    assert_eq!((g.cursor_x(), g.cursor_y()), (1, 0));
}

#[test]
fn guess_on_a_block_is_refused() {
    let mut g = small_game();
    g.select_move(Direction::Right);
    g.select_move(Direction::Down);
    g.input('a');
    assert_eq!(g.get(1, 1).guess, None);
    assert_eq!(guesses(&g), "----.----");
    assert_eq!((g.cursor_x(), g.cursor_y()), (1, 1));
    assert_eq!(g.mode(), Mode::Select);
    assert_eq!(g.get_status(), GameStatus { cells: 8, guesses: 0, errors: 0 });
    assert!(g.apply(Command::Guess('A')));
    assert_eq!(guesses(&g), "----.----");
}

#[test]
fn typing_follows_the_edit_direction() {
    let mut g = small_game();
    press(&mut g, &[KeyEvent::Char('i')]);
    type_text(&mut g, "puz");
    assert_eq!(guesses(&g), "PUZ-.----");
    assert_eq!((g.cursor_x(), g.cursor_y()), (2, 0));
    press(&mut g, &[KeyEvent::Char(' ')]);
    type_text(&mut g, "zoo");
    assert_eq!(guesses(&g), "PUZ-.O--O");
    assert_eq!((g.cursor_x(), g.cursor_y()), (2, 2));
}

#[test]
fn backspace_steps_back_and_keeps_the_guess() {
    let mut g = small_game();
    press(&mut g, &[KeyEvent::Char('i')]);
    type_text(&mut g, "pu");
    assert_eq!((g.cursor_x(), g.cursor_y()), (2, 0));
    press(&mut g, &[KeyEvent::Backspace]);
    assert_eq!((g.cursor_x(), g.cursor_y()), (1, 0));
    assert_eq!(guesses(&g), "PU--.----");
    press(&mut g, &[KeyEvent::Backspace, KeyEvent::Backspace]);
    assert_eq!((g.cursor_x(), g.cursor_y()), (0, 0));
    assert_eq!(guesses(&g), "PU--.----");
}

#[test]
fn delete_clears_the_guess_under_the_cursor() {
    let mut g = small_game();
    press(&mut g, &[KeyEvent::Char('i')]);
    type_text(&mut g, "pu");
    press(&mut g, &[KeyEvent::Left, KeyEvent::Delete]);
    assert_eq!((g.cursor_x(), g.cursor_y()), (1, 0));
    assert_eq!(guesses(&g), "P---.----");
    g.unguess();
    assert_eq!(guesses(&g), "P---.----");
}

#[test]
fn status_counts() {
    let mut g = small_game();
    assert_eq!(g.get_status(), GameStatus { cells: 8, guesses: 0, errors: 0 });
    assert!(!g.is_game_over());
    press(&mut g, &[KeyEvent::Char('i')]);
    type_text(&mut g, "pxz");
    assert_eq!(g.get_status(), GameStatus { cells: 8, guesses: 3, errors: 1 });
    assert!(!g.is_game_over());
}

#[test]
fn solving_ends_the_session() {
    let mut g = small_game();
    g.start();
    press(&mut g, &[KeyEvent::Char('i')]);
    type_text(&mut g, "puz");
    press(&mut g, &[KeyEvent::Char(' ')]);
    type_text(&mut g, "zoo");
    press(&mut g, &[KeyEvent::Esc, KeyEvent::Left, KeyEvent::Left, KeyEvent::Char('i')]);
    assert_eq!((g.cursor_x(), g.cursor_y()), (0, 2));
    type_text(&mut g, "po");
    press(
        &mut g,
        &[KeyEvent::Esc, KeyEvent::Up, KeyEvent::Left, KeyEvent::Left, KeyEvent::Char('i')],
    );
    assert_eq!((g.cursor_x(), g.cursor_y()), (0, 1));
    assert_eq!(g.mode(), Mode::EditAcross);
    assert_eq!(guesses(&g), "PUZ-.OPOO");
    assert_eq!(g.get_status(), GameStatus { cells: 8, guesses: 7, errors: 0 });
    assert!(!g.is_game_over());
    // the last letter
    assert!(g.update(KeyEvent::Char('o')));
    assert_eq!(guesses(&g), "PUZO.OPOO");
    assert_eq!(g.get_status(), GameStatus { cells: 8, guesses: 8, errors: 0 });
    assert!(g.is_game_over());
    assert_eq!(g.mode(), Mode::GameOver);
    // from now on every key closes the session and changes nothing
    assert!(!g.update(KeyEvent::Char('x')));
    assert!(!g.update(KeyEvent::Left));
    assert_eq!(guesses(&g), "PUZO.OPOO");
    assert_eq!(g.mode(), Mode::GameOver);
}

#[test]
fn full_grid_with_an_error_goes_on() {
    let mut g = small_game();
    press(&mut g, &[KeyEvent::Char('i')]);
    type_text(&mut g, "puz");
    press(&mut g, &[KeyEvent::Char(' ')]);
    type_text(&mut g, "zoo");
    press(&mut g, &[KeyEvent::Esc, KeyEvent::Left, KeyEvent::Left, KeyEvent::Char('i')]);
    type_text(&mut g, "po");
    press(
        &mut g,
        &[KeyEvent::Esc, KeyEvent::Up, KeyEvent::Left, KeyEvent::Left, KeyEvent::Char('i')],
    );
    type_text(&mut g, "x");
    assert_eq!(g.get_status(), GameStatus { cells: 8, guesses: 8, errors: 1 });
    assert_eq!(g.mode(), Mode::EditAcross);
    type_text(&mut g, "o");
    assert_eq!(g.mode(), Mode::GameOver);
}

#[test]
fn settle_ends_a_session_that_has_nothing_to_solve() {
    let mut g = Game::new(&record(2, 1, "..", &[])).unwrap();
    assert_eq!(g.mode(), Mode::Select);
    assert_eq!(g.get_status(), GameStatus { cells: 0, guesses: 0, errors: 0 });
    g.settle();
    assert_eq!(g.mode(), Mode::GameOver);
    let mut g = small_game();
    g.settle();
    assert_eq!(g.mode(), Mode::Select);
}

#[test]
fn pause_and_resume() {
    let mut g = small_game();
    g.start();
    press(&mut g, &[KeyEvent::Char('p')]);
    assert_eq!(g.mode(), Mode::Pause);
    // gameplay keys mean nothing while paused
    press(&mut g, &[KeyEvent::Left, KeyEvent::Char('i'), KeyEvent::Char('a')]);
    assert_eq!(g.mode(), Mode::Pause);
    assert_eq!((g.cursor_x(), g.cursor_y()), (0, 0));
    press(&mut g, &[KeyEvent::Char('p')]);
    assert_eq!(g.mode(), Mode::Select);
    press(&mut g, &[KeyEvent::Esc]);
    assert_eq!(g.mode(), Mode::Pause);
    press(&mut g, &[KeyEvent::Esc]);
    assert_eq!(g.mode(), Mode::Select);
    press(&mut g, &[KeyEvent::Ctrl('c')]);
    assert_eq!(g.mode(), Mode::Pause);
    assert!(!g.update(KeyEvent::Ctrl('c')));
    assert_eq!(g.mode(), Mode::Pause);
    assert!(!g.update(KeyEvent::Char('q')));
    assert!(g.elapsed_secs() < 60);
}

#[test]
fn clock_runs_while_the_puzzle_is_worked_on() {
    let mut g = small_game();
    assert!(!g.clock_running());
    assert_eq!(g.elapsed_secs(), 0);
    wait_a_second();
    assert_eq!(g.elapsed_secs(), 0);
    g.start();
    assert!(g.clock_running());
    press(&mut g, &[KeyEvent::Char('i'), KeyEvent::Char('p'), KeyEvent::Esc]);
    assert!(g.clock_running());
    g.pause();
    assert!(!g.clock_running());
    let at_pause = g.elapsed_secs();
    wait_a_second();
    assert_eq!(g.elapsed_secs(), at_pause);
    g.unpause();
    assert!(g.clock_running());
    wait_a_second();
    assert!(g.elapsed_secs() >= at_pause + 1);
    g.game_over_mode();
    assert!(!g.clock_running());
    let at_end = g.elapsed_secs();
    assert!(at_end >= at_pause + 1);
    wait_a_second();
    assert_eq!(g.elapsed_secs(), at_end);
}

#[test]
fn stopped_clock_keeps_its_reading() {
    let mut g = small_game();
    g.start();
    wait_a_second();
    g.pause();
    let kept = g.elapsed_secs();
    assert!(kept >= 1);
    // neither keys nor a second pause change what a standing clock shows
    press(&mut g, &[KeyEvent::Left, KeyEvent::Char('x'), KeyEvent::Other]);
    g.pause();
    g.select_move(Direction::Down);
    g.toggle_hint_num_errors();
    wait_a_second();
    assert_eq!(g.elapsed_secs(), kept);
    // the time of the pause is not counted once the session goes on
    g.unpause();
    g.pause();
    assert!(g.elapsed_secs() >= kept);
    assert!(g.elapsed_secs() <= kept + 1);
}

#[test]
fn pause_is_not_reached_from_the_edit_modes() {
    let mut g = small_game();
    press(&mut g, &[KeyEvent::Char('i'), KeyEvent::Char('p')]);
    assert_eq!(g.mode(), Mode::EditAcross);
    assert_eq!(g.get(0, 0).guess, Some('P'));
    press(&mut g, &[KeyEvent::Ctrl('c')]);
    assert_eq!(g.mode(), Mode::EditAcross);
}

#[test]
fn clue_list_scrolls_by_five() {
    let mut g = small_game();
    g.clues_scroll_up();
    assert_eq!(g.clues_scroll(), 0);
    g.clues_scroll_down();
    assert_eq!(g.clues_scroll(), 5);
    g.clues_scroll_down();
    g.clues_scroll_down();
    assert_eq!(g.clues_scroll(), 15);
    g.clues_scroll_up();
    assert_eq!(g.clues_scroll(), 10);
    press(&mut g, &[KeyEvent::PageUp]);
    assert_eq!(g.clues_scroll(), 5);
    press(&mut g, &[KeyEvent::PageUp]);
    assert_eq!(g.clues_scroll(), 0);
    press(&mut g, &[KeyEvent::PageDown, KeyEvent::Char('i'), KeyEvent::PageDown]);
    assert_eq!(g.clues_scroll(), 10);
}

#[test]
fn clue_list_scroll_stops_at_the_largest_value() {
    let mut g = small_game();
    for _ in 0..13107 {
        g.clues_scroll_down();
    }
    assert_eq!(g.clues_scroll(), 65535);
    g.clues_scroll_down();
    assert_eq!(g.clues_scroll(), 65535);
    assert!(g.visible_clue_lines(10).is_empty());
    g.clues_scroll_up();
    assert_eq!(g.clues_scroll(), 65530);
}

#[test]
fn hint_toggles() {
    let mut g = small_game();
    press(&mut g, &[KeyEvent::Char('e')]);
    assert!(g.hint_num_errors());
    g.toggle_hint_num_errors();
    assert!(!g.hint_num_errors());
}

#[test]
fn keys_in_select_mode() {
    let c = |key| command_for(Mode::Select, key, None);
    assert_eq!(c(KeyEvent::PageUp), Command::CluesScrollUp);
    assert_eq!(c(KeyEvent::PageDown), Command::CluesScrollDown);
    for (keys, d) in [
        (['h', 'a'], Direction::Left),
        (['j', 's'], Direction::Down),
        (['k', 'w'], Direction::Up),
        (['l', 'd'], Direction::Right),
    ] {
        for k in keys {
            assert_eq!(
                command_for(Mode::Select, KeyEvent::Char(k), typed_letter(k)),
                Command::SelectMove(d)
            );
        }
    }
    assert_eq!(c(KeyEvent::Left), Command::SelectMove(Direction::Left));
    assert_eq!(c(KeyEvent::Down), Command::SelectMove(Direction::Down));
    assert_eq!(c(KeyEvent::Up), Command::SelectMove(Direction::Up));
    assert_eq!(c(KeyEvent::Right), Command::SelectMove(Direction::Right));
    assert_eq!(c(KeyEvent::Char('q')), Command::Pause);
    assert_eq!(c(KeyEvent::Char('p')), Command::Pause);
    assert_eq!(c(KeyEvent::Ctrl('c')), Command::Pause);
    assert_eq!(c(KeyEvent::Esc), Command::Pause);
    assert_eq!(c(KeyEvent::Char('e')), Command::ToggleHintNumErrors);
    assert_eq!(c(KeyEvent::Char('\n')), Command::EditMode);
    assert_eq!(c(KeyEvent::Char('i')), Command::EditMode);
    assert_eq!(c(KeyEvent::Char('x')), Command::Ignore);
    assert_eq!(c(KeyEvent::Char(' ')), Command::Ignore);
    assert_eq!(c(KeyEvent::Ctrl('d')), Command::Ignore);
    assert_eq!(c(KeyEvent::Backspace), Command::Ignore);
    assert_eq!(c(KeyEvent::Delete), Command::Ignore);
    assert_eq!(c(KeyEvent::Other), Command::Ignore);
}

#[test]
fn keys_in_the_edit_modes() {
    for mode in [Mode::EditAcross, Mode::EditDown] {
        let c = |key| command_for(mode, key, None);
        assert_eq!(c(KeyEvent::Delete), Command::Unguess);
        assert_eq!(c(KeyEvent::PageUp), Command::CluesScrollUp);
        assert_eq!(c(KeyEvent::PageDown), Command::CluesScrollDown);
        assert_eq!(c(KeyEvent::Backspace), Command::EditPrev);
        assert_eq!(c(KeyEvent::Left), Command::EditMove(Direction::Left));
        assert_eq!(c(KeyEvent::Down), Command::EditMove(Direction::Down));
        assert_eq!(c(KeyEvent::Up), Command::EditMove(Direction::Up));
        assert_eq!(c(KeyEvent::Right), Command::EditMove(Direction::Right));
        assert_eq!(c(KeyEvent::Char('\n')), Command::SelectMode);
        assert_eq!(c(KeyEvent::Esc), Command::SelectMode);
        assert_eq!(c(KeyEvent::Char(' ')), Command::EditDirection);
        assert_eq!(c(KeyEvent::Char('-')), Command::Ignore);
        assert_eq!(c(KeyEvent::Ctrl('c')), Command::Ignore);
        assert_eq!(c(KeyEvent::Other), Command::Ignore);
        assert_eq!(command_for(mode, KeyEvent::Char('h'), Some('H')), Command::Guess('H'));
        assert_eq!(command_for(mode, KeyEvent::Char('q'), Some('Q')), Command::Guess('Q'));
        // a letter counts only for a character key
        assert_eq!(command_for(mode, KeyEvent::Left, Some('L')), Command::EditMove(Direction::Left));
        assert_eq!(command_for(mode, KeyEvent::Char(' '), Some(' ')), Command::EditDirection);
    }
}

#[test]
fn keys_while_paused_and_after_the_end() {
    let c = |key| command_for(Mode::Pause, key, None);
    assert_eq!(c(KeyEvent::Char('p')), Command::Unpause);
    assert_eq!(c(KeyEvent::Char('\n')), Command::Unpause);
    assert_eq!(c(KeyEvent::Esc), Command::Unpause);
    assert_eq!(c(KeyEvent::Char('q')), Command::Quit);
    assert_eq!(c(KeyEvent::Ctrl('c')), Command::Quit);
    assert_eq!(c(KeyEvent::Ctrl('q')), Command::Ignore);
    assert_eq!(c(KeyEvent::Char('i')), Command::Ignore);
    assert_eq!(c(KeyEvent::Left), Command::Ignore);
    for key in [KeyEvent::Char('a'), KeyEvent::Esc, KeyEvent::Other, KeyEvent::Ctrl('c')] {
        assert_eq!(command_for(Mode::GameOver, key, None), Command::Quit);
    }
}

#[test]
fn only_alphanumeric_characters_are_letters() {
    assert_eq!(typed_letter('a'), Some('A'));
    assert_eq!(typed_letter('Z'), Some('Z'));
    assert_eq!(typed_letter('5'), Some('5'));
    assert_eq!(typed_letter('\u{e4}'), Some('\u{c4}'));
    assert_eq!(typed_letter('-'), None);
    assert_eq!(typed_letter('.'), None);
    assert_eq!(typed_letter('\t'), None);
    let mut g = small_game();
    press(&mut g, &[KeyEvent::Char('i'), KeyEvent::Char('-'), KeyEvent::Char('.')]);
    assert_eq!(guesses(&g), "----.----");
    assert_eq!((g.cursor_x(), g.cursor_y()), (0, 0));
}

#[test]
fn quit_changes_nothing() {
    let mut g = small_game();
    press(&mut g, &[KeyEvent::Right, KeyEvent::Char('i'), KeyEvent::Char('u')]);
    assert!(!g.apply(Command::Quit));
    assert_eq!(g.mode(), Mode::EditAcross);
    assert_eq!((g.cursor_x(), g.cursor_y()), (2, 0));
    assert_eq!(guesses(&g), "-U--.----");
    assert!(g.apply(Command::Ignore));
    assert_eq!(guesses(&g), "-U--.----");
}

#[test]
fn game_over_mode_can_be_entered_directly() {
    let mut g = small_game();
    g.start();
    g.game_over_mode();
    assert_eq!(g.mode(), Mode::GameOver);
    assert!(!g.update(KeyEvent::Char('i')));
}

#[test]
fn edit_next_and_prev_outside_the_edit_modes_stay() {
    let mut g = small_game();
    g.edit_next();
    g.edit_prev();
    assert_eq!((g.cursor_x(), g.cursor_y()), (0, 0));
    g.edit_mode();
    g.edit_next();
    assert_eq!((g.cursor_x(), g.cursor_y()), (1, 0));
    g.edit_prev();
    assert_eq!((g.cursor_x(), g.cursor_y()), (0, 0));
    g.edit_direction();
    g.edit_next();
    assert_eq!((g.cursor_x(), g.cursor_y()), (0, 1));
    g.edit_prev();
    assert_eq!((g.cursor_x(), g.cursor_y()), (0, 0));
}

#[test]
fn clock_face_splits_seconds() {
    assert_eq!(clock_face(0), ClockFace { hours: 0, minutes: 0, seconds: 0 });
    assert_eq!(clock_face(59), ClockFace { hours: 0, minutes: 0, seconds: 59 });
    assert_eq!(clock_face(60), ClockFace { hours: 0, minutes: 1, seconds: 0 });
    assert_eq!(clock_face(3725), ClockFace { hours: 1, minutes: 2, seconds: 5 });
    assert_eq!(clock_face(86399), ClockFace { hours: 23, minutes: 59, seconds: 59 });
    assert_eq!(clock_face(360000), ClockFace { hours: 100, minutes: 0, seconds: 0 });
    let f = clock_face(u64::MAX);
    assert_eq!(f.hours, u64::MAX / 3600);
    assert_eq!(f.minutes, 0);
    assert_eq!(f.seconds, 15);
}

#[test]
fn clue_list_of_the_small_grid() {
    let mut g = small_game();
    let lines = g.clue_lines();
    assert_eq!(lines.len(), 9);
    assert!(matches!(lines[0], ClueLine::AcrossHeading));
    assert!(matches!(lines[1], ClueLine::Blank));
    assert!(matches!(&lines[2], ClueLine::Clue { number: 1, text, current: true } if text == "one across"));
    assert!(matches!(&lines[3], ClueLine::Clue { number: 3, text, current: false } if text == "three across"));
    assert!(matches!(lines[4], ClueLine::Blank));
    assert!(matches!(lines[5], ClueLine::DownHeading));
    assert!(matches!(lines[6], ClueLine::Blank));
    assert!(matches!(&lines[7], ClueLine::Clue { number: 1, text, current: true } if text == "one down"));
    assert!(matches!(&lines[8], ClueLine::Clue { number: 2, text, current: false } if text == "two down"));
    // on a square without a number no clue is marked
    g.select_move(Direction::Right);
    let lines = g.clue_lines();
    assert!(lines.iter().all(|l| !matches!(l, ClueLine::Clue { current: true, .. })));
    // on (2, 0) the clue with number 2 is marked
    g.select_move(Direction::Right);
    let lines = g.clue_lines();
    let marked: Vec<u16> = lines
        .iter()
        .filter_map(|l| match l {
            ClueLine::Clue { number, current: true, .. } => Some(*number),
            _ => None,
        })
        .collect();
    assert_eq!(marked, vec![2]);
}

#[test]
fn visible_part_of_the_clue_list() {
    let mut g = small_game();
    assert_eq!(g.visible_clue_lines(100).len(), 9);
    assert_eq!(g.visible_clue_lines(9).len(), 9);
    assert_eq!(g.visible_clue_lines(0).len(), 0);
    let lines = g.visible_clue_lines(3);
    assert_eq!(lines.len(), 3);
    assert!(matches!(lines[0], ClueLine::AcrossHeading));
    assert!(matches!(&lines[2], ClueLine::Clue { number: 1, .. }));
    g.clues_scroll_down();
    let lines = g.visible_clue_lines(3);
    assert_eq!(lines.len(), 3);
    assert!(matches!(lines[0], ClueLine::DownHeading));
    assert!(matches!(&lines[2], ClueLine::Clue { number: 1, text, .. } if text == "one down"));
    let lines = g.visible_clue_lines(20);
    assert_eq!(lines.len(), 4);
    assert!(matches!(&lines[3], ClueLine::Clue { number: 2, .. }));
    g.clues_scroll_down();
    assert!(g.visible_clue_lines(20).is_empty());
}

#[test]
fn cell_faces() {
    let mut g = small_game();
    let f = g.cell_face(0, 0);
    assert!(!f.block);
    assert_eq!(f.number, Some(1));
    assert_eq!(f.guess, None);
    assert!(!f.arrow_right && !f.arrow_down);
    assert!(!f.last_column && !f.last_row);
    let f = g.cell_face(1, 1);
    assert!(f.block);
    assert_eq!(f.number, None);
    let f = g.cell_face(2, 2);
    assert!(f.last_column && f.last_row);
    let f = g.cell_face(2, 0);
    assert!(f.last_column && !f.last_row);
    assert_eq!(f.number, Some(2));
    g.edit_mode();
    let f = g.cell_face(0, 0);
    assert!(f.arrow_right && !f.arrow_down);
    assert!(!g.cell_face(1, 0).arrow_right);
    g.edit_direction();
    let f = g.cell_face(0, 0);
    assert!(!f.arrow_right && f.arrow_down);
    g.guess('Q');
    assert_eq!(g.cell_face(0, 0).guess, Some('Q'));
    let f = g.cell_face(0, 1);
    assert!(f.arrow_down);
    assert!(!g.cell_face(0, 0).arrow_down);
}

#[test]
fn what_is_drawn_again() {
    let playing = [Mode::Select, Mode::EditAcross, Mode::EditDown];
    for before in playing {
        for after in playing {
            assert_eq!(repaint_for(before, after), Repaint::Board);
        }
        assert_eq!(repaint_for(before, Mode::Pause), Repaint::PauseNotice);
        assert_eq!(repaint_for(before, Mode::GameOver), Repaint::GameOverNotice);
        assert_eq!(repaint_for(Mode::Pause, before), Repaint::ClearedBoard);
        assert_eq!(repaint_for(Mode::GameOver, before), Repaint::ClearedBoard);
    }
    assert_eq!(repaint_for(Mode::Pause, Mode::Pause), Repaint::Nothing);
    assert_eq!(repaint_for(Mode::GameOver, Mode::GameOver), Repaint::Nothing);
    assert_eq!(repaint_for(Mode::Pause, Mode::GameOver), Repaint::GameOverNotice);
    assert_eq!(repaint_for(Mode::GameOver, Mode::Pause), Repaint::PauseNotice);
}
