use localgpt_md::doc::{current_body, end_line, parse_front_matter, Doc, FrontMatter};
use localgpt_md::markdown::MdEvent;

const SAMPLE: &str = "---
genre: deck
note: \"quoted\"
---

# The Title

Intro line.

## First

A paragraph
that wraps.

- one
- two

### Detail

More.

```rust
let code = 1;
```

## Second

Text with `inline` code.
";

#[test]
fn title_front_matter_and_sections() {
    let doc = Doc::parse(SAMPLE, "fallback");
    assert_eq!(doc.title, "The Title");
    assert_eq!(doc.genre(), "deck");
    assert_eq!(doc.front_matter.get("note"), Some("quoted"));
    assert_eq!(doc.intro, "Intro line.");
    let headings: Vec<_> = doc.sections.iter().map(|s| s.heading.as_str()).collect();
    assert_eq!(headings, ["First", "Second"]);
    assert_eq!(
        doc.sections[0].body,
        "A paragraph that wraps.\none\ntwo\nDetail\nMore."
    );
    assert_eq!(doc.sections[1].body, "Text with inline code.");
}

#[test]
fn no_headings_is_one_section_named_by_fallback() {
    let doc = Doc::parse("Just a note.\n\nTwo paragraphs.", "note");
    assert_eq!(doc.title, "note");
    assert_eq!(doc.genre(), "world");
    assert_eq!(doc.sections.len(), 1);
    assert_eq!(doc.sections[0].heading, "note");
    assert_eq!(doc.sections[0].body, "Just a note.\nTwo paragraphs.");
}

#[test]
fn hash_tracks_each_section() {
    let before = Doc::parse(SAMPLE, "t");
    let after = Doc::parse(&SAMPLE.replace("More.", "Much more."), "t");
    assert_ne!(before.sections[0].hash, after.sections[0].hash);
    assert_eq!(before.sections[1].hash, after.sections[1].hash);
    assert_eq!(before.sections[1].seed(), after.sections[1].seed());
}

#[test]
fn cjk_text_survives() {
    let doc = Doc::parse("# 花园\n\n## 第一章\n\n雾。\n", "t");
    assert_eq!(doc.title, "花园");
    assert_eq!(doc.sections[0].heading, "第一章");
    assert_eq!(doc.sections[0].body, "雾。");
}

#[test]
fn events_fold_into_a_document() {
    let events = vec![
        MdEvent::HeadingStart(1),
        MdEvent::Text("Title".to_string()),
        MdEvent::HeadingEnd,
        MdEvent::Text("lead".to_string()),
        MdEvent::ParagraphEnd,
        MdEvent::HeadingStart(2),
        MdEvent::Text(" Place ".to_string()),
        MdEvent::HeadingEnd,
        MdEvent::Text("a".to_string()),
        MdEvent::SoftBreak,
        MdEvent::Code("b".to_string()),
        MdEvent::ParagraphEnd,
        MdEvent::CodeBlockStart,
        MdEvent::Text("hidden".to_string()),
        MdEvent::CodeBlockEnd,
        MdEvent::HeadingStart(3),
        MdEvent::Text("Sub".to_string()),
        MdEvent::HeadingEnd,
    ];
    let doc = Doc::from_events(&events, "fallback");
    assert_eq!(doc.title, "Title");
    assert_eq!(doc.intro, "lead");
    assert_eq!(doc.sections.len(), 1);
    assert_eq!(doc.sections[0].heading, "Place");
    assert_eq!(doc.sections[0].body, "a b\nSub");
}

#[test]
fn seed_is_the_little_endian_start_of_the_hash() {
    let doc = Doc::parse("## A\n\nb\n", "t");
    let hash = doc.sections[0].hash;
    let mut first = [0u8; 8];
    first.copy_from_slice(&hash.bytes[..8]);
    assert_eq!(doc.sections[0].seed(), u64::from_le_bytes(first));
    assert_eq!(hash.bytes, *blake3::hash(b"A\nb").as_bytes());
}

#[test]
fn front_matter_lines_are_trimmed_unquoted_and_commented() {
    let text: Vec<char> = "  genre : 'deck'  \n# a comment\nno colon here\nurl: http://x\ntitle: \"\"A\"\"\n\ngenre: world\r\n"
        .chars()
        .collect();
    let mut fm = FrontMatter::new();
    parse_front_matter(&text, &mut fm);
    assert_eq!(fm.get("genre"), Some("world"));
    assert_eq!(fm.get("url"), Some("http://x"));
    assert_eq!(fm.get("title"), Some("A"));
    assert_eq!(fm.get("# a comment"), None);
    assert_eq!(fm.get("no colon here"), None);
    assert_eq!(fm.len(), 3);
}

#[test]
fn current_body_is_the_last_section_or_the_intro() {
    let mut intro: Vec<char> = "lead".chars().collect();
    let mut sections: Vec<(Vec<char>, Vec<char>)> = Vec::new();
    current_body(&mut intro, &mut sections).push('!');
    assert_eq!(intro.iter().collect::<String>(), "lead!");
    sections.push(("A".chars().collect(), Vec::new()));
    let body = current_body(&mut intro, &mut sections);
    body.push('x');
    end_line(body);
    end_line(body);
    assert_eq!(sections[0].1.iter().collect::<String>(), "x\n");
    assert_eq!(intro.iter().collect::<String>(), "lead!");
    let mut empty: Vec<char> = Vec::new();
    end_line(&mut empty);
    assert!(empty.is_empty());
}

#[test]
fn prose_is_trimmed_and_sub_headings_are_lines() {
    let doc = Doc::parse("\n# T\n\n   \n## S  \n\n  one  \n\n#### Deep\n\ntwo\n\n", "t");
    assert_eq!(doc.intro, "");
    assert_eq!(doc.sections.len(), 1);
    assert_eq!(doc.sections[0].heading, "S");
    assert_eq!(doc.sections[0].body, "one\nDeep\ntwo");
    assert_eq!(doc.genre(), "world");
    assert!(!doc.is_deck());
}

#[test]
fn the_first_h1_anywhere_is_the_title() {
    let doc = Doc::parse("## A\n\na\n\n# B\n\nb\n", "f");
    assert_eq!(doc.title, "B");
    let headings: Vec<_> = doc.sections.iter().map(|s| s.heading.as_str()).collect();
    assert_eq!(headings, ["A"]);
    assert_eq!(doc.sections[0].body, "a\nb");
}

#[test]
fn a_deck_with_separators_has_one_section_per_slide() {
    let doc = Doc::parse(
        "---\ngenre: deck\n---\n\n## A\n\n### B\n\n## C\n\nx\n\n---\n\n## D\n",
        "f",
    );
    assert_eq!(doc.genre(), "deck");
    let headings: Vec<_> = doc.sections.iter().map(|s| s.heading.as_str()).collect();
    assert_eq!(headings, ["A", "D"]);
    assert_eq!(doc.sections[0].body, "B\nC\nx");
    assert_eq!(doc.sections[1].body, "");
    assert_eq!(doc.title, "f");
}

#[test]
fn separators_outside_a_deck_do_not_split() {
    let doc = Doc::parse("## A\n\n### B\n\n---\n\n## C\n\nx\n", "f");
    let headings: Vec<_> = doc.sections.iter().map(|s| s.heading.as_str()).collect();
    assert_eq!(headings, ["A", "C"]);
    assert_eq!(doc.sections[0].body, "B");
}

#[test]
fn a_deck_title_slide_is_the_intro() {
    let doc = Doc::parse(
        "---\ngenre: deck\n---\n\n# Talk\n\nHello.\n\n---\n\nNo heading yet.\n\n## One\n\n### Sub\n\none\n",
        "f",
    );
    assert_eq!(doc.title, "Talk");
    assert_eq!(doc.intro, "Hello.\nNo heading yet.");
    let headings: Vec<_> = doc.sections.iter().map(|s| s.heading.as_str()).collect();
    assert_eq!(headings, ["One"]);
    assert_eq!(doc.sections[0].body, "Sub\none");
}

#[test]
fn front_matter_equality_ignores_line_order() {
    let mut a = FrontMatter::new();
    a.insert("genre".to_string(), "deck".to_string());
    a.insert("note".to_string(), "x".to_string());
    let mut b = FrontMatter::new();
    b.insert("note".to_string(), "x".to_string());
    b.insert("genre".to_string(), "deck".to_string());
    assert!(a == b);
    b.insert("note".to_string(), "y".to_string());
    assert!(a != b);
    let one = Doc::parse("---\na: 1\nb: 2\n---\n\n## S\n\nt\n", "d");
    let two = Doc::parse("---\nb: 2\na: 1\n---\n\n## S\n\nt\n", "d");
    assert_eq!(one, two);
}
