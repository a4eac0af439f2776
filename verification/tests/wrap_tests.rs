use pptx_editor_engine::explicit_wrap::{
    unit_closes_line, unit_is_line_break, ExplicitWrapState, UnitPlacement,
};
use pptx_editor_engine::wrap_units::{collect_horizontal_wrap_units, HorizontalWrapUnit};

fn unit(start: usize, end: usize, run: usize, char_start: usize, char_end: usize) -> HorizontalWrapUnit {
    HorizontalWrapUnit { start, end, run, char_start, char_end }
}

#[test]
fn wrap_units_split_words_and_cjk() {
    let runs = vec!["Hello 世界".to_string(), "ab".to_string()];
    let units = collect_horizontal_wrap_units(&runs);
    assert_eq!(
        units,
        vec![
            unit(0, 5, 0, 0, 5),
            unit(5, 6, 0, 5, 6),
            unit(6, 9, 0, 6, 7),
            unit(9, 12, 0, 7, 8),
            unit(12, 14, 1, 8, 10),
        ]
    );
}

#[test]
fn wrap_units_do_not_cross_runs() {
    let runs = vec!["ab".to_string(), String::new(), "cd9".to_string(), "x-y".to_string()];
    let units = collect_horizontal_wrap_units(&runs);
    assert_eq!(
        units,
        vec![
            unit(0, 2, 0, 0, 2),
            unit(2, 5, 2, 2, 5),
            unit(5, 6, 3, 5, 6),
            unit(6, 7, 3, 6, 7),
            unit(7, 8, 3, 7, 8),
        ]
    );
    assert!(collect_horizontal_wrap_units(&vec![String::new()]).is_empty());
}

#[test]
fn wrap_unit_bytes_cover_text() {
    let runs = vec!["é漢 x".to_string(), "\nyz".to_string()];
    let units = collect_horizontal_wrap_units(&runs);
    let text: String = runs.concat();
    assert_eq!(units[0].start, 0);
    assert_eq!(units.last().unwrap().end, text.len());
    for pair in units.windows(2) {
        assert_eq!(pair[0].end, pair[1].start);
    }
    let pieces: Vec<&str> = units.iter().map(|u| &text[u.start..u.end]).collect();
    assert_eq!(pieces, vec!["é", "漢", " ", "x", "\n", "yz"]);
}

#[test]
fn unit_kinds() {
    let chars: Vec<char> = "好。\nab".chars().collect();
    assert!(unit_closes_line(&chars, &unit(3, 6, 0, 1, 2)));
    assert!(!unit_closes_line(&chars, &unit(0, 3, 0, 0, 1)));
    assert!(unit_is_line_break(&chars, &unit(6, 7, 0, 2, 3)));
    assert!(!unit_is_line_break(&chars, &unit(7, 9, 0, 3, 5)));
}

#[test]
fn explicit_wrap_breaks_and_hangs() {
    let mut state = ExplicitWrapState::new(0);
    assert!(state.on_first_line());
    assert_eq!(state.place(0, false, false, true), UnitPlacement::Append);
    assert!(!state.release_hanging(3));
    assert_eq!(state.place(3, true, false, true), UnitPlacement::BreakBefore);
    assert!(!state.on_first_line());
    assert!(!state.release_hanging(6));
    assert_eq!(state.place(6, true, true, true), UnitPlacement::Hang);
    assert!(state.release_hanging(9));
    assert_eq!(state.place(9, false, false, true), UnitPlacement::Append);
    state.line_break(12, 13);
    assert_eq!(state.place(13, true, true, false), UnitPlacement::BreakBefore);
    let ranges = state.finish(16);
    assert_eq!(ranges, vec![(0, 3), (3, 9), (9, 12), (13, 13), (13, 16)]);
}

#[test]
fn explicit_wrap_of_empty_paragraph() {
    let state = ExplicitWrapState::new(0);
    assert_eq!(state.finish(0), vec![(0, 0)]);
}

#[test]
fn explicit_wrap_lines_cover_a_paragraph() {
    let runs = vec!["漢字，\n次行".to_string()];
    let text = runs.concat();
    let chars: Vec<char> = text.chars().collect();
    let units = collect_horizontal_wrap_units(&runs);
    let mut state = ExplicitWrapState::new(units[0].start);
    for (i, u) in units.iter().enumerate() {
        if unit_is_line_break(&chars, u) {
            state.line_break(u.start, u.end);
            continue;
        }
        state.release_hanging(u.start);
        // Every unit after the first overflows its line.
        state.place(u.start, i > 0, unit_closes_line(&chars, u), true);
    }
    let lines = state.finish(text.len());
    assert_eq!(lines.first().unwrap().0, 0);
    assert_eq!(lines.last().unwrap().1, text.len());
    for pair in lines.windows(2) {
        let (end, next) = (pair[0].1, pair[1].0);
        assert!(end == next || &text[end..next] == "\n");
    }
    assert_eq!(lines, vec![(0, 3), (3, 9), (10, 10), (10, 13), (13, 16)]);
}
