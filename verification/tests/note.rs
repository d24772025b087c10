use chatgpt_notes::note::{generate_note, with_underscores, Note};
use chatgpt_notes::structs::{Choice, GptResponse, Message, Usage};

#[test]
fn note_file_is_named_after_the_prompt() {
    let url = Some("https://example.org/a".to_string());
    let note = generate_note("# Title\nBody".to_string(), "How To Cook Rice", &url);
    assert_eq!(note.content, "# Title\nBody");
    assert_eq!(note.file, "how_to_cook_rice.md");
    assert_eq!(note.url, url);
    let plain = generate_note("text".to_string(), "", &None);
    assert_eq!(plain.file, ".md");
    assert_eq!(plain.url, None);
}

#[test]
fn note_file_name_is_lower_case_beyond_ascii() {
    let note = generate_note("x".to_string(), "\u{c4}pfel  UND Birnen", &None);
    assert_eq!(note.file, "\u{e4}pfel__und_birnen.md");
}

#[test]
fn spaces_become_underscores() {
    assert_eq!(with_underscores("a b  c"), "a_b__c");
    assert_eq!(with_underscores(" "), "_");
    assert_eq!(with_underscores("a\tb"), "a\tb");
    assert_eq!(with_underscores(""), "");
}

#[test]
fn note_path_goes_through_the_category() {
    let note = Note { content: "c".to_string(), file: "f.md".to_string(), url: None };
    let category = "rust".to_string();
    assert_eq!(note.path("notes", Some(&category)), "notes/rust/f.md");
    assert_eq!(note.path("notes", None), "notes/f.md");
    assert_eq!(Note::folder("notes", Some(&category)), Some("notes/rust".to_string()));
    assert_eq!(Note::folder("notes", None), None);
}

#[test]
fn note_entry_ends_with_the_reference() {
    let with_url = Note {
        content: "text".to_string(),
        file: "f.md".to_string(),
        url: Some("https://example.org".to_string()),
    };
    assert_eq!(with_url.entry(), "text\n\n\n[reference](https://example.org)\n\n--------\n\n");
    let without = Note { content: "text".to_string(), file: "f.md".to_string(), url: None };
    assert_eq!(without.entry(), "text\n");
}

#[test]
fn first_answer_is_the_first_choice() {
    let choice = |text: &str, index: i64| Choice {
        message: Message { role: "assistant".to_string(), content: text.to_string() },
        finish_reason: "stop".to_string(),
        index,
    };
    let response = GptResponse {
        id: "id".to_string(),
        object: "chat.completion".to_string(),
        created: 1,
        model: "gpt-3.5-turbo".to_string(),
        usage: Usage { prompt_tokens: 1, completion_tokens: 2, total_tokens: 3 },
        choices: vec![choice("first", 0), choice("second", 1)],
    };
    assert_eq!(response.first_answer(), "first");
}
