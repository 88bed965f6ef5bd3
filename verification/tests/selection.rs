use mouseless::grid::{Grid, Rect};
use mouseless::render::render_plan;
use mouseless::session::{SelectionState, Session};
use mouseless::GRID_SIZE;

fn demo_grid() -> Grid {
    Grid {
        size: GRID_SIZE,
        bounds: Rect {
            left: 0,
            top: 0,
            width: 2600,
            height: 2600,
        },
    }
}

fn typed(session: &Session) -> String {
    let mut s = String::new();
    for i in 0..session.buffer_len() {
        s.push(session.buffer_char(i));
    }
    s
}

#[test]
fn empty_session_highlights_nothing_and_resolves_nothing() {
    let grid = demo_grid();
    let session = Session::new();
    assert_eq!(session.state(&grid), SelectionState::Empty);
    assert_eq!(session.resolution(&grid), None);
    for column in 0..26 {
        for row in 0..26 {
            assert!(!session.should_highlight(column, row));
        }
    }
}

#[test]
fn typing_one_letter_highlights_its_whole_column() {
    let grid = demo_grid();
    let mut session = Session::new();
    session.type_char('b');
    assert_eq!(session.state(&grid), SelectionState::PartialMatch);
    assert_eq!(typed(&session), "B");
    for column in 0..26 {
        for row in 0..26 {
            assert_eq!(session.should_highlight(column, row), column == 1);
        }
    }
}

#[test]
fn typing_a_full_code_resolves_to_the_cell_center() {
    let grid = demo_grid();
    let mut session = Session::new();
    session.type_char('b');
    session.type_char('a');
    assert_eq!(typed(&session), "BA");
    assert_eq!(session.state(&grid), SelectionState::Resolved);
    // Cell (1, 0) of a 2600 x 2600 grid: cells are 100 x 100, so the center
    // lies at one and a half cell widths and half a cell height.
    assert_eq!(session.resolution(&grid), Some((150, 50)));
    for column in 0..26 {
        for row in 0..26 {
            assert_eq!(
                session.should_highlight(column, row),
                column == 1 && row == 0
            );
        }
    }
}

#[test]
fn backspace_removes_the_last_letter() {
    let grid = demo_grid();
    let mut session = Session::new();
    session.type_char('b');
    assert_eq!(typed(&session), "B");
    session.backspace();
    assert_eq!(typed(&session), "");
    assert_eq!(session.state(&grid), SelectionState::Empty);
}

#[test]
fn backspace_on_an_empty_buffer_is_a_no_op() {
    let grid = demo_grid();
    let mut session = Session::new();
    session.backspace();
    assert_eq!(typed(&session), "");
    assert_eq!(session.state(&grid), SelectionState::Empty);
}

#[test]
fn non_letter_keystrokes_are_dropped() {
    let mut session = Session::new();
    session.type_char('3');
    session.type_char(' ');
    session.type_char('-');
    session.type_char('é');
    assert_eq!(typed(&session), "");
    session.type_char('q');
    session.type_char('.');
    assert_eq!(typed(&session), "Q");
}

#[test]
fn letters_are_uppercased_as_typed() {
    let mut session = Session::new();
    session.type_char('q');
    session.type_char('Z');
    assert_eq!(typed(&session), "QZ");
}

#[test]
fn letters_beyond_a_full_code_are_ignored() {
    let grid = demo_grid();
    let mut session = Session::new();
    session.type_char('a');
    session.type_char('a');
    session.type_char('b');
    assert_eq!(typed(&session), "AA");
    assert_eq!(session.state(&grid), SelectionState::Resolved);
}

#[test]
fn every_two_letter_code_resolves_on_a_full_grid() {
    let grid = demo_grid();
    for c0 in b'a'..=b'z' {
        for c1 in b'A'..=b'Z' {
            let mut session = Session::new();
            session.type_char(c0 as char);
            session.type_char(c1 as char);
            assert_eq!(session.state(&grid), SelectionState::Resolved);
            assert!(session.resolution(&grid).is_some());
        }
    }
}

#[test]
fn out_of_range_code_on_a_small_grid_sticks_until_backspace() {
    // A 10 x 10 grid leaves letters beyond 'J' without a cell: typing such a
    // code must not resolve, and backspace must reopen the session.
    let grid = Grid {
        size: 10,
        bounds: Rect {
            left: 0,
            top: 0,
            width: 1000,
            height: 1000,
        },
    };
    let mut session = Session::new();
    session.type_char('z');
    session.type_char('z');
    assert_eq!(typed(&session), "ZZ");
    assert_eq!(session.state(&grid), SelectionState::PartialMatch);
    assert_eq!(session.resolution(&grid), None);
    session.backspace();
    session.type_char('a');
    assert_eq!(typed(&session), "ZA");
    assert_eq!(session.state(&grid), SelectionState::PartialMatch);
    session.backspace();
    session.backspace();
    session.type_char('c');
    session.type_char('d');
    assert_eq!(session.state(&grid), SelectionState::Resolved);
    assert_eq!(session.resolution(&grid), Some((250, 350)));
}

#[test]
fn type_text_feeds_each_character_in_order() {
    let grid = demo_grid();
    let mut session = Session::new();
    session.type_text("b a");
    assert_eq!(typed(&session), "BA");
    assert_eq!(session.resolution(&grid), Some((150, 50)));
}

#[test]
fn render_plan_covers_every_cell_in_row_major_order() {
    let grid = demo_grid();
    let mut session = Session::new();
    session.type_char('b');
    let cells = render_plan(&session, &grid);
    assert_eq!(cells.len(), 26 * 26);
    for (k, cell) in cells.iter().enumerate() {
        assert_eq!(cell.column, k % 26);
        assert_eq!(cell.row, k / 26);
        assert_eq!(cell.highlighted, cell.column == 1);
        assert_eq!(cell.code.len(), 2);
    }
    let first = &cells[0];
    assert_eq!(first.code, "AA");
    assert_eq!(
        (first.rect.left, first.rect.top, first.rect.width, first.rect.height),
        (0, 0, 100, 100)
    );
    let one = &cells[26 + 2];
    assert_eq!(one.code, "CB");
    assert_eq!((one.column, one.row), (2, 1));
    assert_eq!((one.rect.left, one.rect.top), (200, 100));
}
