use zenoh_dissector::utils::SizedSummary;
use zenoh_dissector::utils::clip_summary;

#[test]
fn empty_summary_renders_placeholder() {
    let s = SizedSummary::new(5);
    assert_eq!(s.len(), 0);
    assert_eq!(s.render(), "Empty");
}

#[test]
fn single_item_renders_verbatim() {
    let mut s = SizedSummary::new(5);
    s.append(|| String::from("KeepAlive"));
    assert_eq!(s.len(), 1);
    assert_eq!(s.render(), "KeepAlive");
}

#[test]
fn several_items_render_bracketed() {
    let mut s = SizedSummary::new(5);
    s.append(|| String::from("a"));
    s.append(|| String::from("b"));
    s.append(|| String::from("c"));
    assert_eq!(s.render(), "[a, b, c]");
}

#[test]
fn overflow_marks_and_stays_capped() {
    let mut s = SizedSummary::new(2);
    s.append(|| String::from("a"));
    s.append(|| String::from("b"));
    s.append(|| String::from("c"));
    assert_eq!(s.len(), 2);
    let rendered = s.render();
    assert!(rendered.ends_with(", ...]"), "got {rendered}");
    assert_eq!(rendered, "[a, b, ...]");
}

#[test]
fn turned_away_producer_is_never_evaluated() {
    let mut s = SizedSummary::new(2);
    let mut evaluations = 0usize;
    s.append(|| {
        evaluations += 1;
        String::from("a")
    });
    s.append(|| {
        evaluations += 1;
        String::from("b")
    });
    assert_eq!(evaluations, 2);
    let mut third_ran = false;
    s.append(|| {
        third_ran = true;
        String::from("c")
    });
    assert!(!third_ran, "the producer past the cap must not be evaluated");
    assert_eq!(s.len(), 2);
    assert!(s.render().ends_with(", ...]"));
}

#[test]
fn long_item_is_stored_clipped() {
    let long = "x".repeat(40);
    let mut s = SizedSummary::new(1);
    let pushed = long.clone();
    s.append(move || pushed);
    let expected = format!("{}...]", "x".repeat(30));
    assert_eq!(s.render(), expected);
}

#[test]
fn clip_keeps_short_strings_and_cuts_long_ones() {
    assert_eq!(clip_summary(String::from("short")), "short");
    let exactly = "y".repeat(30);
    assert_eq!(clip_summary(exactly.clone()), exactly);
    let over = "z".repeat(31);
    assert_eq!(clip_summary(over), format!("{}...]", "z".repeat(30)));
}
