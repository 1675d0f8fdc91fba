use localgpt_md::doc::Doc;
use localgpt_md::tour::{caption_excerpt, caption_heading, excerpt, navigate, TourKeys};

const NONE: TourKeys = TourKeys { forward: false, back: false, first: false, last: false };

#[test]
fn navigation_stays_on_the_tour() {
    let fwd = TourKeys { forward: true, ..NONE };
    let back = TourKeys { back: true, ..NONE };
    assert_eq!(navigate(0, 5, fwd), 1);
    assert_eq!(navigate(4, 5, fwd), 4);
    assert_eq!(navigate(0, 5, back), 0);
    assert_eq!(navigate(3, 5, back), 2);
    assert_eq!(navigate(3, 5, TourKeys { first: true, ..NONE }), 0);
    assert_eq!(navigate(1, 5, TourKeys { last: true, ..NONE }), 4);
    // A stop past the end (the document lost sections) is pulled back.
    assert_eq!(navigate(9, 3, NONE), 2);
    assert_eq!(navigate(7, 0, fwd), 0);
    // Forward then back in one frame returns to where it was.
    assert_eq!(navigate(2, 5, TourKeys { forward: true, back: true, ..NONE }), 2);
}

#[test]
fn caption_counts_from_one() {
    let stops = vec!["Gate".to_string(), "Library".to_string(), "Tower".to_string()];
    assert_eq!(caption_heading(1, &stops), "2 / 3   Library");
    assert_eq!(caption_heading(0, &Vec::new()), "Nothing here yet: add a ## heading");
    let many: Vec<String> = (0..12).map(|i| format!("S{i}")).collect();
    assert_eq!(caption_heading(11, &many), "12 / 12   S11");
}

#[test]
fn excerpt_cuts_long_prose_with_an_ellipsis() {
    assert_eq!(excerpt("Short\nprose."), "Short prose.");
    let long = "abcd ".repeat(60);
    let cut = excerpt(&long);
    assert!(cut.ends_with('…'));
    assert!(cut.chars().count() <= 181);
    assert_eq!(cut, format!("{}…", "abcd ".repeat(36).trim_end()));
}

#[test]
fn caption_excerpt_is_empty_past_the_last_section() {
    let doc = Doc::parse("## A\n\nFirst words.\n", "t");
    assert_eq!(caption_excerpt(&doc, 0), "First words.");
    assert_eq!(caption_excerpt(&doc, 1), "");
}
