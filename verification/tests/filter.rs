use uniq::runs::{collapse, filter_lines, Filter, Run};

fn run(text: &str, count: usize) -> Run {
    Run { text: text.to_string(), count }
}

fn texts(runs: &[Run]) -> Vec<String> {
    runs.iter().map(|r| r.text.clone()).collect()
}

#[test]
fn adjacent_duplicates_collapse_without_counts() {
    assert_eq!(filter_lines(&["a\n", "a\n", "b\n"], false), "a\nb\n");
}

#[test]
fn adjacent_duplicates_collapse_with_counts() {
    assert_eq!(filter_lines(&["a\n", "a\n", "b\n"], true), "   2 a\n   1 b\n");
}

#[test]
fn empty_input_gives_empty_output() {
    assert_eq!(filter_lines(&[], false), "");
    assert_eq!(filter_lines(&[], true), "");
    assert_eq!(collapse(&[]), Vec::<Run>::new());
}

#[test]
fn separated_runs_of_one_text_stay_apart() {
    assert_eq!(
        filter_lines(&["x\n", "y\n", "y\n", "y\n", "x\n"], true),
        "   1 x\n   3 y\n   1 x\n"
    );
    assert_eq!(
        collapse(&["x\n", "y\n", "y\n", "y\n", "x\n"]),
        vec![run("x\n", 1), run("y\n", 3), run("x\n", 1)]
    );
}

#[test]
fn trailing_whitespace_is_ignored_and_first_text_kept() {
    assert_eq!(filter_lines(&["a \n", "a\n"], false), "a \n");
    assert_eq!(filter_lines(&["a \n", "a\n"], true), "   2 a \n");
    assert_eq!(collapse(&["a \n", "a\n"]), vec![run("a \n", 2)]);
    assert_eq!(collapse(&["a\n", "a \n", "a\t\r\n"]), vec![run("a\n", 3)]);
}

#[test]
fn leading_whitespace_and_case_distinguish() {
    assert_eq!(collapse(&[" a\n", "a\n"]), vec![run(" a\n", 1), run("a\n", 1)]);
    assert_eq!(collapse(&["a\n", "A\n"]), vec![run("a\n", 1), run("A\n", 1)]);
    assert_eq!(collapse(&["a b\n", "ab\n"]), vec![run("a b\n", 1), run("ab\n", 1)]);
}

#[test]
fn unterminated_last_line_is_kept_as_read() {
    assert_eq!(filter_lines(&["a\n", "b"], false), "a\nb");
    assert_eq!(filter_lines(&["a\n", "b"], true), "   1 a\n   1 b");
    assert_eq!(filter_lines(&["a\n", "a"], true), "   2 a\n");
    assert_eq!(filter_lines(&["a"], false), "a");
}

#[test]
fn blank_lines_form_runs() {
    assert_eq!(
        collapse(&["\n", "  \n", "\t\n", "a\n", "\n"]),
        vec![run("\n", 3), run("a\n", 1), run("\n", 1)]
    );
    assert_eq!(filter_lines(&["\n", "\n", "a\n"], true), "   2 \n   1 a\n");
}

#[test]
fn wide_counts_are_not_cut() {
    let lines = vec!["z\n"; 12345];
    assert_eq!(filter_lines(&lines, true), "12345 z\n");
    let lines = vec!["z\n"; 1000];
    assert_eq!(filter_lines(&lines, true), "1000 z\n");
    let lines = vec!["z\n"; 999];
    assert_eq!(filter_lines(&lines, true), " 999 z\n");
}

#[test]
fn feeding_line_by_line_closes_runs_as_they_end() {
    let mut filter = Filter::new();
    assert!(!filter.is_full());
    assert_eq!(filter.feed("a\n"), None);
    assert_eq!(filter.feed("a \n"), None);
    assert_eq!(filter.feed("b\n"), Some(run("a\n", 2)));
    assert_eq!(filter.feed("c\n"), Some(run("b\n", 1)));
    assert_eq!(filter.feed("c\n"), None);
    assert!(!filter.is_full());
    assert_eq!(filter.finish(), Some(run("c\n", 2)));
}

#[test]
fn finishing_an_unfed_filter_gives_nothing() {
    assert_eq!(Filter::new().finish(), None);
}

#[test]
fn record_puts_the_count_field_before_the_text() {
    assert_eq!(run("a\n", 2).record(true), "   2 a\n");
    assert_eq!(run("a\n", 2).record(false), "a\n");
    assert_eq!(run("tail", 10).record(true), "  10 tail");
    assert_eq!(run("", 1).record(true), "   1 ");
}

#[test]
fn filtering_twice_is_filtering_once() {
    let input = ["a\n", "a \n", "b\n", "b\n", "a\n", "\n", "\n", "c"];
    let once = collapse(&input);
    let written = texts(&once);
    let again_input: Vec<&str> = written.iter().map(|s| s.as_str()).collect();
    let twice = collapse(&again_input);
    assert_eq!(texts(&twice), written);
    assert!(twice.iter().all(|r| r.count == 1));
    assert_eq!(filter_lines(&again_input, false), filter_lines(&input, false));
    assert_eq!(filter_lines(&input, false), "a\nb\na\n\nc");
}

#[test]
fn counts_add_up_to_the_number_of_lines() {
    let input = ["a\n", "a \n", "b\n", "b\n", "a\n", "\n", "\n", "c"];
    let found = collapse(&input);
    assert_eq!(found.iter().map(|r| r.count).sum::<usize>(), input.len());
    assert!(found.iter().all(|r| r.count >= 1));
    assert_eq!(
        found,
        vec![run("a\n", 2), run("b\n", 2), run("a\n", 1), run("\n", 2), run("c", 1)]
    );
}

#[test]
fn texts_are_the_first_lines_of_the_runs_in_order() {
    let input = ["k \n", "k\n", "j\n", "j  \n", "j\n", "k\t\n", "k\n"];
    let found = collapse(&input);
    assert_eq!(texts(&found), vec!["k \n", "j\n", "k\t\n"]);
    let mut start = 0;
    for r in &found {
        assert_eq!(r.text, input[start]);
        for line in &input[start..start + r.count] {
            assert_eq!(line.trim_end(), r.text.trim_end());
        }
        start += r.count;
    }
    assert_eq!(start, input.len());
}

#[test]
fn no_two_runs_in_a_row_have_the_same_content() {
    let input = ["a\n", "a \n", "b\n", "b\n", "a\n", "a", "\n", " \n", "c"];
    let found = collapse(&input);
    for pair in found.windows(2) {
        assert_ne!(pair[0].text.trim_end(), pair[1].text.trim_end());
    }
}
