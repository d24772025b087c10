//! A note and where it is kept: the file name that its prompt gives, the path
//! below the notes folder, and the text that is appended to the file.

use crate::text::optional_view;
use vstd::prelude::*;

verus! {

broadcast use vstd::string::group_string_axioms;

/// A note that is ready to be written.
#[derive(Debug)]
pub struct Note {
    /// The markdown text.
    pub content: String,
    /// The name of the file that takes the note.
    pub file: String,
    /// The page that the note refers to.
    pub url: Option<String>,
}

/// The lower-case form that `str::to_lowercase` gives for `s`.
pub uninterp spec fn lowercased(s: Seq<char>) -> Seq<char>;

/// `str::to_lowercase`: the lower-case equivalent by the Unicode rules, which
/// depends on the characters alone.
#[verifier::external_body]
fn to_lowercase(s: &str) -> (out: String)
    ensures
        out@ == lowercased(s@),
{
    s.to_lowercase()
}

/// `s` with each space replaced by an underscore.
pub open spec fn underscored(s: Seq<char>) -> Seq<char> {
    s.map_values(|c: char| if c == ' ' { '_' } else { c })
}

/// The file name for a prompt: the prompt in lower case, spaces as underscores, with `.md` after it.
pub open spec fn file_name(prompt: Seq<char>) -> Seq<char> {
    lowercased(underscored(prompt)) + ".md"@
}

/// The folder of a note: the category's folder below the notes folder where a
/// category is given, else the notes folder.
pub open spec fn note_folder(notes_folder: Seq<char>, category: Option<Seq<char>>) -> Seq<char> {
    match category {
        Some(c) => notes_folder + "/"@ + c,
        None => notes_folder,
    }
}

/// The path of a note's file.
pub open spec fn note_path(
    notes_folder: Seq<char>,
    category: Option<Seq<char>>,
    file: Seq<char>,
) -> Seq<char> {
    note_folder(notes_folder, category) + "/"@ + file
}

/// What is appended to the file: the text and a line break, then the link to
/// the page and a rule where the note has a page.
pub open spec fn note_entry(content: Seq<char>, url: Option<Seq<char>>) -> Seq<char> {
    match url {
        Some(u) => content + "\n"@ + "\n\n[reference]("@ + u + ")\n\n--------\n\n"@,
        None => content + "\n"@,
    }
}

/// `s` with each space replaced by an underscore.
pub fn with_underscores(s: &str) -> (out: String)
    ensures
        out@ == underscored(s@),
{
    let mut out = String::new();
    for c in it: s.chars()
        invariant
            it.seq() == s@,
            out@ == underscored(it.seq().take(it.index())),
    {
        proof {
            assert(it.seq().take(it.index() + 1) =~= it.seq().take(it.index()).push(c));
            assert(underscored(it.seq().take(it.index()).push(c)) =~= underscored(
                it.seq().take(it.index()),
            ).push(if c == ' ' { '_' } else { c }));
        }
        if c == ' ' {
            out.push('_');
        } else {
            out.push(c);
        }
    }
    proof {
        assert(s@.take(s@.len() as int) =~= s@);
    }
    out
}

/// The note for an answer: the answer as its text, in the file named after the prompt.
/// The answer must not be empty: its first line is the note's heading.
pub fn generate_note(response: String, prompt: &str, url: &Option<String>) -> (note: Note)
    requires
        response@.len() > 0,
    ensures
        note.content == response,
        note.file@ == file_name(prompt@),
        optional_view(note.url) == optional_view(*url),
{
    let mut file = to_lowercase(with_underscores(prompt).as_str());
    file.append(".md");
    let url = match url {
        Some(u) => Some(u.clone()),
        None => None,
    };
    Note { content: response, file, url }
}

impl Note {
    /// The folder that must exist before the note is written, where the note has a category.
    pub fn folder(notes_folder: &str, category: Option<&String>) -> (out: Option<String>)
        ensures
            match category {
                Some(c) => optional_view(out) == Some(note_folder(notes_folder@, Some(c@))),
                None => out is None,
            },
    {
        match category {
            Some(c) => {
                let mut out = String::from_str(notes_folder);
                out.append("/");
                out.append(c.as_str());
                Some(out)
            },
            None => None,
        }
    }

    /// The path of the note's file.
    pub fn path(&self, notes_folder: &str, category: Option<&String>) -> (out: String)
        ensures
            out@ == note_path(
                notes_folder@,
                match category {
                    Some(c) => Some(c@),
                    None => None,
                },
                self.file@,
            ),
    {
        let mut out = String::from_str(notes_folder);
        match category {
            Some(c) => {
                out.append("/");
                out.append(c.as_str());
            },
            None => {},
        }
        out.append("/");
        out.append(self.file.as_str());
        out
    }

    /// What is appended to the note's file.
    pub fn entry(&self) -> (out: String)
        ensures
            out@ == note_entry(self.content@, optional_view(self.url)),
    {
        let mut out = String::from_str(self.content.as_str());
        out.append("\n");
        match &self.url {
            Some(u) => {
                out.append("\n\n[reference](");
                out.append(u.as_str());
                out.append(")\n\n--------\n\n");
            },
            None => {},
        }
        out
    }
}

} // verus!
