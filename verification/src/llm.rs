//! What the local model is asked: the prompt for one section's recipe. The
//! model itself runs in the application; its reply comes back through
//! [`crate::recipe::RegionRecipe::json_in_llm_text`].

use vstd::prelude::*;

use crate::text::{
    chars_of, cut_at_word, cut_chars_at_word, flatten, flatten_chars, push_all, slice_chars, str_eq,
    string_of,
};

verus! {

/// The part of a section's prose the prompt carries: the prose on one line,
/// cut at a word boundary after at most 600 characters.
pub open spec fn prompt_excerpt_of(body: Seq<char>) -> Seq<char> {
    cut_at_word(flatten(body), 600)
}

/// The part of a section's prose the prompt carries: enough for the model
/// to see the scene, short enough to keep generation quick.
pub fn prompt_excerpt(body: &str) -> (e: String)
    ensures
        e@ == prompt_excerpt_of(body@),
{
    let flat = flatten_chars(&chars_of(body));
    string_of(&cut_chars_at_word(&flat, 600))
}

/// The system message before the genre note.
pub open spec fn system_head() -> Seq<char> {
    "You design one region of a calm, walkable 3D world that reflects one section of a document. Reply with ONE JSON object only (no prose, no code fences) with these optional fields: accent ([r,g,b] in 0..1 — the region's signature colour), ground ([r,g,b] in 0..1 — the ground tint), landmark ({\nkind: \"pyramid\"|\"cone\"|\"column\"|\"cube\"|\"orb\"|\"ring\", scale: 0.5..2.5, emissive: 0..1}), props ({kind: \"blocks\"|\"spheres\"|\"crystals\", count: 3..12}). Let the text decide everything, and make this region's look its OWN — a shore and a library must not share a palette. "@
}

/// The system message after the genre note.
pub open spec fn system_tail() -> Seq<char> {
    " Colours are muted and desaturated (dusk light, weathered stone, deep water — never pure primaries like [0,0,1] or [1,0,0], never neon) yet still distinct and specific to this text."@
}

/// The genre note of a slide deck.
pub open spec fn deck_note() -> Seq<char> {
    "This section is one slide of a presentation: pick ONE focal idea — the slide's key message becomes the landmark — and derive the palette from the slide's own subject, so each slide's stage feels different from the last."@
}

/// The genre note of a world.
pub open spec fn world_note() -> Seq<char> {
    "Match the setting the text describes: a night shore wants deep blues and a low glow; a library wants warm ambers and dense blocks like shelves."@
}

/// The system message: the JSON contract, with the note for the genre.
pub open spec fn system_prompt(genre: Seq<char>) -> Seq<char> {
    system_head() + (if genre == "deck"@ {
        deck_note()
    } else {
        world_note()
    }) + system_tail()
}

/// The user message: the section, its genre, and the excerpt of its prose.
pub open spec fn user_prompt(heading: Seq<char>, body: Seq<char>, genre: Seq<char>) -> Seq<char> {
    "Document genre: "@ + genre + ".\nSection heading: \""@ + heading + "\".\nSection text: \""@
        + prompt_excerpt_of(body) + "\".\nReply with only the JSON object."@
}

/// The two messages of a recipe request: the system message and the user
/// message, in that order.
pub fn build_prompt(heading: &str, body: &str, genre: &str) -> (m: (String, String))
    ensures
        m.0@ == system_prompt(genre@),
        m.1@ == user_prompt(heading@, body@, genre@),
{
    let mut system = chars_of("You design one region of a calm, walkable 3D world that reflects one section of a document. Reply with ONE JSON object only (no prose, no code fences) with these optional fields: accent ([r,g,b] in 0..1 — the region's signature colour), ground ([r,g,b] in 0..1 — the ground tint), landmark ({\nkind: \"pyramid\"|\"cone\"|\"column\"|\"cube\"|\"orb\"|\"ring\", scale: 0.5..2.5, emissive: 0..1}), props ({kind: \"blocks\"|\"spheres\"|\"crystals\", count: 3..12}). Let the text decide everything, and make this region's look its OWN — a shore and a library must not share a palette. ");
    if str_eq(genre, "deck") {
        push_all(&mut system, &chars_of("This section is one slide of a presentation: pick ONE focal idea — the slide's key message becomes the landmark — and derive the palette from the slide's own subject, so each slide's stage feels different from the last."));
    } else {
        push_all(&mut system, &chars_of("Match the setting the text describes: a night shore wants deep blues and a low glow; a library wants warm ambers and dense blocks like shelves."));
    }
    push_all(&mut system, &chars_of(" Colours are muted and desaturated (dusk light, weathered stone, deep water — never pure primaries like [0,0,1] or [1,0,0], never neon) yet still distinct and specific to this text."));
    let mut user = chars_of("Document genre: ");
    push_all(&mut user, &chars_of(genre));
    push_all(&mut user, &chars_of(".\nSection heading: \""));
    push_all(&mut user, &chars_of(heading));
    push_all(&mut user, &chars_of("\".\nSection text: \""));
    let excerpt = prompt_excerpt(body);
    push_all(&mut user, &chars_of(excerpt.as_str()));
    push_all(&mut user, &chars_of("\".\nReply with only the JSON object."));
    proof {
        assert(system@ =~= system_prompt(genre@));
        assert(user@ =~= user_prompt(heading@, body@, genre@));
    }
    (string_of(&system), string_of(&user))
}

/// A file name that ends in `.gguf`.
pub open spec fn is_gguf(name: Seq<char>) -> bool {
    name.len() >= 5 && name.subrange(name.len() - 5, name.len() as int) == ".gguf"@
}

/// The position of the first `.gguf` among `names`.
pub open spec fn first_gguf(names: Seq<Seq<char>>) -> Option<int> {
    if exists|i: int| 0 <= i < names.len() && is_gguf(names[i]) {
        Some(
            choose|i: int|
                0 <= i < names.len() && is_gguf(names[i]) && forall|j: int|
                    0 <= j < i ==> !is_gguf(names[j]),
        )
    } else {
        None
    }
}

fn name_is_gguf(name: &str) -> (r: bool)
    ensures
        r == is_gguf(name@),
{
    let c = chars_of(name);
    let n = c.len();
    if n < 5 {
        return false;
    }
    let tail = slice_chars(&c, n - 5, n);
    let r = str_eq(string_of(&tail).as_str(), ".gguf");
    proof {
        assert(tail@ =~= name@.subrange(name@.len() - 5, name@.len() as int));
    }
    r
}

/// The model files among a directory's file names, in the order the
/// directory lists them: the first `.gguf`, and the tokenizer, which is
/// always `tokenizer.json` (the name it has when present, and the name
/// assumed when absent). `None` when no file is a `.gguf`.
pub fn model_files(names: &Vec<String>) -> (r: Option<(String, String)>)
    ensures
        r is None <==> first_gguf(names@.map_values(|s: String| s@)) is None,
        r matches Some(p) ==> first_gguf(names@.map_values(|s: String| s@)) matches Some(i)
            && p.0@ == names@[i]@ && p.1@ == "tokenizer.json"@,
{
    let ghost ns = names@.map_values(|s: String| s@);
    let mut i: usize = 0;
    while i < names.len()
        invariant
            i <= names@.len(),
            ns == names@.map_values(|s: String| s@),
            forall|j: int| 0 <= j < i ==> !is_gguf(#[trigger] ns[j]),
        decreases names.len() - i,
    {
        if name_is_gguf(names[i].as_str()) {
            proof {
                assert(is_gguf(ns[i as int]));
                let k = choose|k: int|
                    0 <= k < ns.len() && is_gguf(ns[k]) && forall|j: int|
                        0 <= j < k ==> !is_gguf(ns[j]);
                if k < i {
                    assert(!is_gguf(ns[k]));
                }
                if k > i {
                    assert(!is_gguf(ns[i as int]));
                }
            }
            return Some((names[i].clone(), "tokenizer.json".to_owned()));
        }
        i = i + 1;
    }
    proof {
        assert(!exists|k: int| 0 <= k < ns.len() && is_gguf(ns[k]));
    }
    None
}

} // verus!
