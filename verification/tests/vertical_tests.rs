use pptx_editor_engine::vertical_tokens::{collect_vertical_token_groups, VerticalToken};

fn tok(start: usize, end: usize, run: usize) -> VerticalToken {
    VerticalToken { start, end, run }
}

#[test]
fn vertical_tokens_join_upright_characters_of_one_style() {
    let runs = vec!["AB中\nC".to_string(), "D".to_string()];
    let groups = collect_vertical_token_groups(&runs, &vec![0, 0]);
    assert_eq!(groups, vec![vec![tok(0, 2, 0), tok(2, 3, 0)], vec![tok(4, 6, 0)]]);
}

#[test]
fn vertical_tokens_split_at_a_change_of_style() {
    let runs = vec!["AB中\nC".to_string(), "D".to_string()];
    let groups = collect_vertical_token_groups(&runs, &vec![0, 1]);
    assert_eq!(groups, vec![vec![tok(0, 2, 0), tok(2, 3, 0)], vec![tok(4, 5, 0), tok(5, 6, 1)]]);
}

#[test]
fn vertical_tokens_of_breaks_only() {
    let runs = vec!["\n\n".to_string()];
    let groups = collect_vertical_token_groups(&runs, &vec![3]);
    assert_eq!(groups, vec![Vec::<VerticalToken>::new()]);
    let groups = collect_vertical_token_groups(&Vec::new(), &Vec::new());
    assert_eq!(groups, vec![Vec::<VerticalToken>::new()]);
}

#[test]
fn vertical_tokens_punctuation_stands_alone() {
    let runs = vec!["门户-统一1".to_string()];
    let groups = collect_vertical_token_groups(&runs, &vec![0]);
    assert_eq!(
        groups,
        vec![vec![tok(0, 1, 0), tok(1, 2, 0), tok(2, 3, 0), tok(3, 4, 0), tok(4, 5, 0), tok(5, 6, 0)]]
    );
}
