use scrap_markdown::model::{Comment, ThreadRecord};
use scrap_markdown::render::{created_date, latest_timestamp, render, EmptyThreadError};
use scrap_markdown::transcript::render_transcript;

fn comment(author: &str, created_at: &str, body: &str, children: Vec<Comment>) -> Comment {
    Comment::new(author.to_string(), created_at.to_string(), body.to_string(), children)
}

fn thread(title: &str, comments: Vec<Comment>) -> ThreadRecord {
    ThreadRecord { title: title.to_string(), comments }
}

#[test]
fn scenario_of_a_root_with_one_child() {
    let record = thread(
        "Hi",
        vec![comment(
            "x",
            "2023-01-01T00:00:00",
            "## H\ntext",
            vec![comment("y", "2023-02-01T00:00:00", "no heading", vec![])],
        )],
    );
    let expected = "----\n\
                    created: 2023-01-01\n\
                    updated: 2023-02-01T00:00:00\n\
                    ----\n\
                    \n\
                    # 2023-01-01T00:00:00 by x:\n\
                    \n\
                    ### H\n\
                    text\n\
                    \n\
                    ## 2023-02-01T00:00:00 by y:\n\
                    \n\
                    no heading\n\
                    \n";
    assert_eq!(render(&record), Ok(expected.to_string()));
}

#[test]
fn empty_thread_is_refused() {
    assert_eq!(render(&thread("Nothing", vec![])), Err(EmptyThreadError));
}

#[test]
fn rendering_twice_gives_the_same_bytes() {
    let record = thread(
        "Twice",
        vec![
            comment("a", "2024-05-01T10:00:00", "# one\ntwo", vec![
                comment("b", "2024-05-02T10:00:00", "three", vec![]),
            ]),
            comment("c", "2024-05-03T10:00:00", "", vec![]),
        ],
    );
    let first = render(&record).unwrap();
    let second = render(&record).unwrap();
    assert_eq!(first.as_bytes(), second.as_bytes());
}

#[test]
fn created_is_the_date_of_the_first_top_level_comment() {
    let record = thread(
        "Dates",
        vec![
            comment("a", "2022-12-31T23:59:59", "x", vec![]),
            comment("b", "2021-01-01T00:00:00", "y", vec![]),
        ],
    );
    let out = render(&record).unwrap();
    assert!(out.starts_with("----\ncreated: 2022-12-31\nupdated: 2022-12-31T23:59:59\n----\n\n"));
}

#[test]
fn updated_is_the_latest_time_at_any_depth() {
    let record = thread(
        "Deep",
        vec![
            comment("a", "2023-01-01T00:00:00", "x", vec![
                comment("b", "2023-01-02T00:00:00", "y", vec![
                    comment("c", "2023-06-30T12:00:00", "z", vec![]),
                ]),
            ]),
            comment("d", "2023-03-01T00:00:00", "w", vec![]),
        ],
    );
    assert_eq!(latest_timestamp(&record.comments), "2023-06-30T12:00:00");
    let out = render(&record).unwrap();
    assert!(out.starts_with("----\ncreated: 2023-01-01\nupdated: 2023-06-30T12:00:00\n----\n\n"));
}

#[test]
fn latest_of_equal_times_is_that_time() {
    let comments = vec![
        comment("a", "2023-01-01T00:00:00", "", vec![]),
        comment("b", "2023-01-01T00:00:00", "", vec![]),
    ];
    assert_eq!(latest_timestamp(&comments), "2023-01-01T00:00:00");
}

#[test]
fn latest_is_lexical() {
    let comments = vec![
        comment("a", "9", "", vec![]),
        comment("b", "10", "", vec![]),
        comment("c", "1", "", vec![]),
    ];
    assert_eq!(latest_timestamp(&comments), "9");
    let prefixes = vec![
        comment("a", "2023-01", "", vec![]),
        comment("b", "2023-01-01", "", vec![]),
        comment("c", "2023", "", vec![]),
    ];
    assert_eq!(latest_timestamp(&prefixes), "2023-01-01");
}

#[test]
fn latest_of_no_comment_is_empty() {
    assert_eq!(latest_timestamp(&vec![]), "");
}

#[test]
fn date_is_what_stands_before_the_first_t() {
    assert_eq!(created_date("2023-01-01T00:00:00"), "2023-01-01");
    assert_eq!(created_date("2023-01-01T00:00:00T1"), "2023-01-01");
    assert_eq!(created_date("2023-01-01"), "2023-01-01");
    assert_eq!(created_date("T12:00"), "");
    assert_eq!(created_date(""), "");
    assert_eq!(created_date("2023-01-01t00:00"), "2023-01-01t00:00");
}

#[test]
fn blocks_come_in_pre_order() {
    let record = thread(
        "Order",
        vec![comment("A", "t1", "a", vec![
            comment("B", "t2", "b", vec![]),
            comment("C", "t3", "c", vec![comment("D", "t4", "d", vec![])]),
        ])],
    );
    let expected = "# t1 by A:\n\na\n\n\
                    ## t2 by B:\n\nb\n\n\
                    ## t3 by C:\n\nc\n\n\
                    ### t4 by D:\n\nd\n\n";
    assert_eq!(render_transcript(&record.comments, 0), expected);
    let out = render(&record).unwrap();
    let a = out.find(" by A:").unwrap();
    let b = out.find(" by B:").unwrap();
    let c = out.find(" by C:").unwrap();
    let d = out.find(" by D:").unwrap();
    assert!(a < b && b < c && c < d);
}

#[test]
fn siblings_after_a_subtree_return_to_their_own_level() {
    let comments = vec![
        comment("a", "1", "", vec![comment("b", "2", "", vec![comment("c", "3", "", vec![])])]),
        comment("d", "4", "", vec![]),
    ];
    let expected = "# 1 by a:\n\n\n\n## 2 by b:\n\n\n\n### 3 by c:\n\n\n\n# 4 by d:\n\n\n\n";
    assert_eq!(render_transcript(&comments, 0), expected);
}

#[test]
fn headings_in_a_body_lie_below_the_heading_of_their_comment() {
    let comments = vec![comment("a", "1", "# top", vec![comment("b", "2", "# top\n## sub", vec![])])];
    let expected = "# 1 by a:\n\n## top\n\n## 2 by b:\n\n### top\n#### sub\n\n";
    assert_eq!(render_transcript(&comments, 0), expected);
}

#[test]
fn transcript_may_start_below_the_top() {
    let comments = vec![comment("a", "1", "# h", vec![])];
    assert_eq!(render_transcript(&comments, 2), "### 1 by a:\n\n#### h\n\n");
}

#[test]
fn transcript_of_no_comment_is_empty() {
    assert_eq!(render_transcript(&vec![], 0), "");
}

#[test]
fn comment_with_an_empty_body_still_has_its_block() {
    let record = thread("Empty body", vec![comment("a", "2023-01-01T00:00:00", "", vec![])]);
    let expected = "----\ncreated: 2023-01-01\nupdated: 2023-01-01T00:00:00\n----\n\n\
                    # 2023-01-01T00:00:00 by a:\n\n\n\n";
    assert_eq!(render(&record), Ok(expected.to_string()));
}

#[test]
fn title_has_no_part_in_the_document() {
    let one = thread("One", vec![comment("a", "2023-01-01T00:00:00", "x", vec![])]);
    let other = thread("Other", vec![comment("a", "2023-01-01T00:00:00", "x", vec![])]);
    assert_eq!(render(&one), render(&other));
}
