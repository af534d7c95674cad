use tere::markup::{strip_markup_and_extract_bold_positions, stylize_wrapped_lines, wrap_and_stylize, StyledChunk};

fn plain(s: &str) -> StyledChunk {
    StyledChunk { text: s.to_string(), bold: false }
}

fn bold(s: &str) -> StyledChunk {
    StyledChunk { text: s.to_string(), bold: true }
}

fn lines_of(v: &[&str]) -> Vec<Vec<char>> {
    v.iter().map(|l| l.chars().collect()).collect()
}

#[test]
fn test_strip_markup() {
    let input = "## foo bar\n\nlorem ipsum `dolor` sit amet";
    let (output, locs) = strip_markup_and_extract_bold_positions(input);
    assert_eq!(output, "foo bar\n\nlorem ipsum dolor sit amet");
    assert_eq!(locs, vec![0, 7, 21, 26]);
}

#[test]
fn test_strip_markup2() {
    let input = "## foo bar\n\nlorem ipsum `dolor\nsit` amet";
    let (output, locs) = strip_markup_and_extract_bold_positions(input);
    assert_eq!(output, "foo bar\n\nlorem ipsum dolor\nsit amet");
    assert_eq!(locs, vec![0, 7, 21, 30]);
}

#[test]
fn test_stylize_wrapped_lines() {
    let lines = lines_of(&["foo bar", "", "lorem ipsum dolor sit amet"]);
    let stylized = stylize_wrapped_lines(lines, vec![0, 7, 21, 26]);

    assert_eq!(stylized[0], vec![plain(""), bold("foo bar")]);
    assert_eq!(stylized[1], vec![]);
    assert_eq!(stylized[2][0], plain("lorem ipsum "));
    assert_eq!(stylized[2][1], bold("dolor"));
    assert_eq!(stylized[2][2], plain(" sit amet"));
}

#[test]
fn test_stylize_wrapped_lines2() {
    let input = "## foo bar\n\nlorem ipsum `dolor` sit amet";
    let (lines, locs) = strip_markup_and_extract_bold_positions(input);
    let lines: Vec<Vec<char>> = lines.split('\n').map(|l| l.chars().collect()).collect();
    let stylized = stylize_wrapped_lines(lines, locs);

    assert_eq!(stylized[0], vec![plain(""), bold("foo bar")]);
    assert_eq!(stylized[1], vec![]);
    assert_eq!(stylized[2][0], plain("lorem ipsum "));
    assert_eq!(stylized[2][1], bold("dolor"));
    assert_eq!(stylized[2][2], plain(" sit amet"));
}

#[test]
fn test_wrap_and_stylize() {
    // the line breaks where a space is, and the bold section stays whole
    let input = "## foo bar\n\nlorem ipsum `dolor/sit` amet";
    let stylized = wrap_and_stylize(input, 18);

    assert_eq!(stylized[0], vec![bold("foo bar")]);
    assert_eq!(stylized[1], vec![]);
    assert_eq!(stylized[2][0], plain("lorem ipsum"));
    assert_eq!(stylized[3][0], bold("dolor/sit"));
    assert_eq!(stylized[3][1], plain(" amet"));
}

#[test]
fn strip_markup_of_plain_text_changes_nothing() {
    let (output, locs) = strip_markup_and_extract_bold_positions("plain text, no markup");
    assert_eq!(output, "plain text, no markup");
    assert!(locs.is_empty());
}

#[test]
fn strip_markup_toggles_are_in_order() {
    let (output, locs) = strip_markup_and_extract_bold_positions("# a\n`b` c `d`\n## e\n");
    assert_eq!(output, "a\nb c d\ne\n");
    assert!(locs.windows(2).all(|w| w[0] <= w[1]));
    assert!(locs.iter().all(|l| *l <= output.chars().count()));
}

#[test]
fn stylize_keeps_the_text_of_each_line() {
    let lines = lines_of(&["one two", "three", "", "four five six"]);
    let stylized = stylize_wrapped_lines(lines.clone(), vec![2, 5, 9, 20]);
    for (line, chunks) in lines.iter().zip(stylized.iter()) {
        let joined: String = chunks.iter().map(|c| c.text.as_str()).collect();
        let original: String = line.iter().collect();
        assert_eq!(joined, original);
    }
}

#[test]
fn stylize_turns_bold_off_at_the_end_of_a_line() {
    // bold starts at 4 and is never turned off within the line
    let lines = lines_of(&["abc def", "ghi"]);
    let stylized = stylize_wrapped_lines(lines, vec![4]);
    assert_eq!(stylized[0], vec![plain("abc "), bold("def")]);
    assert_eq!(stylized[1], vec![plain("ghi")]);
}

#[test]
fn wrap_replaces_spaces_by_line_breaks() {
    let stylized = wrap_and_stylize("aaa bbb ccc", 5);
    let texts: Vec<Vec<String>> = stylized.iter().map(|l| l.iter().map(|c| c.text.clone()).collect()).collect();
    assert_eq!(texts, vec![vec!["aaa".to_string()], vec!["bbb".to_string()], vec!["ccc".to_string()]]);
}
