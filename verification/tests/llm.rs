use localgpt_md::llm::{build_prompt, model_files, prompt_excerpt};

#[test]
fn prompt_excerpt_cuts_at_a_word_boundary() {
    assert_eq!(prompt_excerpt("short text"), "short text");
    let long = "word ".repeat(200);
    let cut = prompt_excerpt(&long);
    assert!(cut.chars().count() <= 600);
    assert!(!cut.ends_with(' '));
}

#[test]
fn prompt_excerpt_puts_the_prose_on_one_line() {
    assert_eq!(prompt_excerpt("  one\n\ntwo   three \n"), "one two three");
    assert_eq!(prompt_excerpt(""), "");
    let long = "word ".repeat(200);
    // The first 600 characters are 120 words, each followed by a space; the
    // cut drops the last space and keeps whole words only.
    assert_eq!(prompt_excerpt(&long), "word ".repeat(120).trim_end());
}

#[test]
fn build_prompt_carries_the_section_and_the_genre_note() {
    let (system, user) = build_prompt("The shore", "Waves at night.", "world");
    assert!(system.starts_with("You design one region of a calm, walkable 3D world"));
    assert!(system.contains("a night shore wants deep blues"));
    assert!(!system.contains("one slide of a presentation"));
    assert!(system.ends_with("specific to this text."));
    assert_eq!(
        user,
        "Document genre: world.\nSection heading: \"The shore\".\nSection text: \"Waves at night.\".\nReply with only the JSON object."
    );
    let (deck_system, _) = build_prompt("Slide", "Text", "deck");
    assert!(deck_system.contains("one slide of a presentation"));
    assert!(!deck_system.contains("a night shore wants deep blues"));
}

fn names(list: &[&str]) -> Vec<String> {
    list.iter().map(|s| s.to_string()).collect()
}

#[test]
fn locate_model_returns_none_when_no_gguf() {
    assert!(model_files(&names(&[])).is_none());
    assert!(model_files(&names(&["readme.md", "gguf", "model.gguf.part", "tokenizer.json"])).is_none());
}

#[test]
fn locate_model_finds_the_gguf_and_tokenizer() {
    assert_eq!(
        model_files(&names(&["some-model.gguf", "tokenizer.json"])),
        Some(("some-model.gguf".to_string(), "tokenizer.json".to_string()))
    );
    // The first `.gguf` the directory lists wins; the tokenizer name is
    // assumed when the file is absent.
    assert_eq!(
        model_files(&names(&["notes.txt", "b.gguf", "a.gguf"])),
        Some(("b.gguf".to_string(), "tokenizer.json".to_string()))
    );
}

#[test]
fn the_excerpt_of_an_excerpt_is_itself() {
    for body in ["", "  a  b ", "word ".repeat(200).as_str(), &"x".repeat(700), "tab\tand\nlines  here"] {
        let e = prompt_excerpt(body);
        assert_eq!(prompt_excerpt(&e), e);
        assert!(e.chars().count() <= 600);
    }
    assert_eq!(prompt_excerpt(&"x".repeat(700)), "x".repeat(600));
}
