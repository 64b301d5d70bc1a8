use booktrans::segment::segment_buffer;

#[test]
fn example_buffer_counts_three_lines() {
    // The empty middle piece counts for the denominator but is not kept.
    let (segs, count) = segment_buffer("Hello.\n\nWorld.\n");
    assert_eq!(count, 3);
    assert_eq!(segs.len(), 2);
    assert_eq!(segs[0].index, 0);
    assert_eq!(segs[0].text, "Hello.");
    assert_eq!(segs[1].index, 2);
    assert_eq!(segs[1].text, "World.");
}

#[test]
fn blank_lines_count_but_are_not_kept() {
    let (segs, count) = segment_buffer("  \na\n \t\nb");
    assert_eq!(count, 4);
    assert_eq!(segs.len(), 2);
    assert_eq!(segs[0].index, 1);
    assert_eq!(segs[0].text, "a");
    assert_eq!(segs[1].index, 3);
    assert_eq!(segs[1].text, "b");
}

#[test]
fn empty_buffer_has_no_lines() {
    let (segs, count) = segment_buffer("");
    assert_eq!(count, 0);
    assert_eq!(segs.len(), 0);
}

#[test]
fn buffer_without_newline_is_one_line() {
    let (segs, count) = segment_buffer("abc");
    assert_eq!(count, 1);
    assert_eq!(segs.len(), 1);
    assert_eq!(segs[0].index, 0);
    assert_eq!(segs[0].text, "abc");
}

#[test]
fn only_newlines_keep_nothing() {
    let (segs, count) = segment_buffer("\n\n");
    assert_eq!(count, 2);
    assert_eq!(segs.len(), 0);
}

#[test]
fn unicode_whitespace_counts_as_blank() {
    let (segs, count) = segment_buffer("\u{3000}\u{a0}\ntext");
    assert_eq!(count, 2);
    assert_eq!(segs.len(), 1);
    assert_eq!(segs[0].index, 1);
    assert_eq!(segs[0].text, "text");
}

#[test]
fn inner_whitespace_is_not_trimmed_away() {
    let (segs, count) = segment_buffer(" a b \n");
    assert_eq!(count, 1);
    assert_eq!(segs.len(), 1);
    assert_eq!(segs[0].text, " a b ");
}
