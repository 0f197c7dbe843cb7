use scrap_markdown::heading::{rewrite_body, scan_heading, shift_line};

#[test]
fn title_line_at_depth_zero_goes_one_level_down() {
    assert_eq!(shift_line("# Title", 0), "## Title");
}

#[test]
fn title_line_at_depth_two_goes_three_levels_down() {
    assert_eq!(shift_line("# Title", 2), "#### Title");
}

#[test]
fn deeper_heading_keeps_its_own_level_in_the_sum() {
    assert_eq!(shift_line("### Deep one", 1), "##### Deep one");
}

#[test]
fn plain_text_stays_at_every_depth() {
    for depth in 0..5 {
        assert_eq!(shift_line("plain text", depth), "plain text");
    }
}

#[test]
fn marker_without_space_stays_at_every_depth() {
    for depth in 0..5 {
        assert_eq!(shift_line("#NoSpace", depth), "#NoSpace");
    }
}

#[test]
fn bare_marker_is_no_heading() {
    assert_eq!(shift_line("#", 0), "#");
    assert_eq!(shift_line("###", 3), "###");
    assert_eq!(scan_heading("#"), None);
}

#[test]
fn empty_line_stays() {
    assert_eq!(shift_line("", 0), "");
    assert_eq!(scan_heading(""), None);
}

#[test]
fn marker_that_does_not_lead_is_no_heading() {
    assert_eq!(shift_line("see # below", 0), "see # below");
    assert_eq!(shift_line(" # indented", 1), " # indented");
    assert_eq!(scan_heading("a ## b"), None);
}

#[test]
fn content_is_kept_as_it_is() {
    assert_eq!(shift_line("#  two spaces", 0), "##  two spaces");
    assert_eq!(shift_line("## a # b ## c", 0), "### a # b ## c");
    assert_eq!(shift_line("# ", 0), "## ");
    assert_eq!(shift_line("# 見出し", 1), "### 見出し");
}

#[test]
fn scan_gives_the_level() {
    assert_eq!(scan_heading("# a"), Some(1));
    assert_eq!(scan_heading("#### a"), Some(4));
    assert_eq!(scan_heading("####a"), None);
    assert_eq!(scan_heading("plain"), None);
    assert_eq!(scan_heading("#\ta"), None);
}

#[test]
fn body_is_rewritten_line_by_line() {
    assert_eq!(rewrite_body("## H\ntext", 0), "### H\ntext");
    assert_eq!(rewrite_body("# a\n#b\n\n## c\nd", 1), "### a\n#b\n\n#### c\nd");
}

#[test]
fn empty_body_is_one_empty_line() {
    assert_eq!(rewrite_body("", 0), "");
    assert_eq!(rewrite_body("", 7), "");
}

#[test]
fn line_count_and_order_are_kept() {
    let body = "\n# first\n\nsecond\n# third\n";
    let out = rewrite_body(body, 2);
    assert_eq!(out, "\n#### first\n\nsecond\n#### third\n");
    assert_eq!(out.split('\n').count(), body.split('\n').count());
}

#[test]
fn heading_after_a_trailing_newline_free_end() {
    assert_eq!(rewrite_body("a\n# b", 0), "a\n## b");
    assert_eq!(rewrite_body("# b\n", 0), "## b\n");
}

#[test]
fn carriage_return_belongs_to_the_content() {
    assert_eq!(rewrite_body("# a\r\nb\r\n", 0), "## a\r\nb\r\n");
}

#[test]
fn depth_is_not_capped() {
    let out = shift_line("# x", 40);
    assert_eq!(out, format!("{} x", "#".repeat(42)));
}
