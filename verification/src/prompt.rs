//! The prompt that is sent to the chat-completion service: how it is put
//! together, how it is cut when it is too long, and the request that carries it.

use crate::text::{to_chars, trim, trimmed};
use vstd::prelude::*;
use vstd::utf8::{decode_utf8, encode_utf8, is_char_boundary};

verus! {

broadcast use vstd::string::group_string_axioms;

/// A prompt of more tokens than this is cut.
pub const TOKEN_LIMIT: usize = 3024;

/// The number of bytes that are left of a prompt that is cut.
pub const PROMPT_BYTES: usize = 11000;

/// Why a prompt could not be made to fit.
#[derive(Debug, Clone, Copy, PartialEq, Eq)]
pub enum PromptError {
    /// The tokenizer could not be set up or could not read the prompt.
    Tokenizer,
    /// The prompt is too long, and the place to cut it lies inside a character.
    SplitCharacter,
}

/// A prompt as it is sent.
#[derive(Debug, Clone, PartialEq, Eq)]
pub struct Fitted {
    /// The text to send.
    pub text: String,
    /// Whether the prompt had more than `TOKEN_LIMIT` tokens.
    pub over_limit: bool,
}

impl View for Fitted {
    type V = FittedModel;

    open spec fn view(&self) -> FittedModel {
        FittedModel { text: self.text@, over_limit: self.over_limit }
    }
}

/// The number of tokens that the `p50k_base` encoding of `tiktoken_rs` makes
/// of `text`, special tokens allowed; nothing where the text cannot be encoded.
pub uninterp spec fn p50k_count(text: Seq<char>) -> Option<nat>;

/// The JSON string literal that `serde_json` writes for `s`, quotes included.
pub uninterp spec fn json_string(s: Seq<char>) -> Seq<char>;

/// `tiktoken_rs::p50k_base` and `CoreBPE::encode` with the encoding's own
/// special tokens allowed: the number of tokens of `text`. The vocabulary is
/// part of the crate and the only failure of `encode` is one of its pattern
/// on the text, so both the count and whether there is one depend on the
/// text alone.
#[verifier::external_body]
fn count_tokens(text: &str) -> (out: Option<usize>)
    ensures
        count_view(out) == p50k_count(text@),
{
    let bpe = tiktoken_rs::p50k_base().ok()?;
    let (tokens, _) = bpe.encode(text, &bpe.special_tokens()).ok()?;
    Some(tokens.len())
}

/// `serde_json::Value`'s `Display` for a JSON string: `s` between quotes,
/// with the characters that JSON does not take as they are escaped.
#[verifier::external_body]
fn to_json_string(s: &str) -> (out: String)
    ensures
        out@ == json_string(s@),
{
    serde_json::Value::from(s).to_string()
}

/// `s` without the pairs of line breaks in it, taken from the left.
pub open spec fn without_double_breaks(s: Seq<char>) -> Seq<char>
    decreases s.len(),
{
    if s.len() >= 2 && s[0] == '\n' && s[1] == '\n' {
        without_double_breaks(s.skip(2))
    } else if s.len() >= 1 {
        seq![s[0]] + without_double_breaks(s.skip(1))
    } else {
        Seq::empty()
    }
}

/// The request for notes on `prompt`.
pub open spec fn base_prompt(prompt: Seq<char>) -> Seq<char> {
    "Write summarizing notes in markdown format, explaining how to do the following: \""@ + prompt
        + "\""@
}

/// The whole prompt: the request, and after it the text of the page where there is one.
pub open spec fn full_prompt(prompt: Seq<char>, content: Option<Seq<char>>) -> Seq<char> {
    match content {
        Some(c) => base_prompt(prompt)
            + ". Use this information when creating the note, if relevant: \""@
            + without_double_breaks(trim(c)) + "\"."@,
        None => base_prompt(prompt),
    }
}

/// Whether a prompt of `tokens` tokens is over the limit.
pub open spec fn over_limit(tokens: nat) -> bool {
    tokens > TOKEN_LIMIT
}

/// Whether cutting a prompt of `tokens` tokens would split a character: it is
/// over the limit and longer than `PROMPT_BYTES` bytes, and byte
/// `PROMPT_BYTES` lies inside a character.
pub open spec fn splits_character(prompt: Seq<char>, tokens: nat) -> bool {
    &&& over_limit(tokens)
    &&& encode_utf8(prompt).len() > PROMPT_BYTES
    &&& !is_char_boundary(encode_utf8(prompt), PROMPT_BYTES as int)
}

/// The text that is sent for a prompt of `tokens` tokens: its first
/// `PROMPT_BYTES` bytes where it is over the limit and longer than that,
/// else the prompt as it is.
pub open spec fn fitted_text(prompt: Seq<char>, tokens: nat) -> Seq<char> {
    if over_limit(tokens) && encode_utf8(prompt).len() > PROMPT_BYTES {
        decode_utf8(encode_utf8(prompt).subrange(0, PROMPT_BYTES as int))
    } else {
        prompt
    }
}

/// What a `Fitted` stands for: its text and whether the prompt was over the limit.
pub ghost struct FittedModel {
    pub text: Seq<char>,
    pub over_limit: bool,
}

/// The prompt as it is sent, for each outcome of the token count: an error
/// without a count or where the cut would split a character, else the fitted
/// text and whether the prompt was over the limit.
pub open spec fn fitted(prompt: Seq<char>, tokens: Option<nat>) -> Result<FittedModel, PromptError> {
    match tokens {
        None => Err(PromptError::Tokenizer),
        Some(n) => if splits_character(prompt, n) {
            Err(PromptError::SplitCharacter)
        } else {
            Ok(FittedModel { text: fitted_text(prompt, n), over_limit: over_limit(n) })
        },
    }
}

/// The body of the request that carries `prompt` to the service.
pub open spec fn body_for(prompt: Seq<char>) -> Seq<char> {
    "{\"messages\":[{\"content\":\"You are a notetaking service. You only write answers in the markdown format\",\"role\":\"system\"},{\"content\":"@
        + json_string(prompt) + ",\"role\":\"user\"}],\"model\":\"gpt-3.5-turbo\"}"@
}

/// What a prompt that was made to fit stands for, or why it was not made to fit.
pub open spec fn fitted_view(out: Result<Fitted, PromptError>) -> Result<FittedModel, PromptError> {
    match out {
        Ok(f) => Ok(f@),
        Err(e) => Err(e),
    }
}

/// A token count as a natural number.
pub open spec fn count_view(tokens: Option<usize>) -> Option<nat> {
    match tokens {
        Some(n) => Some(n as nat),
        None => None,
    }
}

/// `s` without the pairs of line breaks in it, taken from the left.
pub fn strip_double_breaks(s: &str) -> (out: String)
    ensures
        out@ == without_double_breaks(s@),
{
    let chars = to_chars(s);
    let mut out = String::new();
    let mut i: usize = 0;
    proof {
        assert(chars@.skip(0) =~= chars@);
    }
    while i < chars.len()
        invariant
            i <= chars@.len(),
            chars@ == s@,
            out@ + without_double_breaks(chars@.skip(i as int)) == without_double_breaks(chars@),
        decreases chars@.len() - i,
    {
        let ghost rest = chars@.skip(i as int);
        if i + 1 < chars.len() && chars[i] == '\n' && chars[i + 1] == '\n' {
            proof {
                assert(rest.skip(2) =~= chars@.skip(i + 2));
            }
            i = i + 2;
        } else {
            let ghost before = out@;
            out.push(chars[i]);
            proof {
                assert(rest.skip(1) =~= chars@.skip(i + 1));
                assert(before.push(chars@[i as int]) + without_double_breaks(rest.skip(1))
                    =~= before + (seq![rest[0]] + without_double_breaks(rest.skip(1))));
            }
            i = i + 1;
        }
    }
    proof {
        assert(out@ + Seq::<char>::empty() =~= out@);
    }
    out
}

/// The whole prompt: the request for notes on `prompt`, and after it the text
/// of the page, trimmed and without pairs of line breaks, where there is one.
pub fn generate_prompt(prompt: &str, content: Option<&str>) -> (out: String)
    ensures
        out@ == full_prompt(
            prompt@,
            match content {
                Some(c) => Some(c@),
                None => None,
            },
        ),
{
    let mut out = String::from_str(
        "Write summarizing notes in markdown format, explaining how to do the following: \"",
    );
    out.append(prompt);
    out.append("\"");
    match content {
        Some(c) => {
            let cleaned = strip_double_breaks(trimmed(c).as_str());
            out.append(". Use this information when creating the note, if relevant: \"");
            out.append(cleaned.as_str());
            out.append("\".");
        },
        None => {},
    }
    out
}

/// The prompt of `tokens` tokens as it is sent: cut to its first
/// `PROMPT_BYTES` bytes where it is over the limit and longer than that, else
/// as it is. The cut must not split a character.
pub fn fit_prompt_to(prompt: &str, tokens: usize) -> (out: Fitted)
    requires
        !splits_character(prompt@, tokens as nat),
    ensures
        out@.text == fitted_text(prompt@, tokens as nat),
        out@.over_limit == over_limit(tokens as nat),
{
    if tokens > TOKEN_LIMIT && prompt.as_bytes().len() > PROMPT_BYTES {
        let (head, _) = prompt.split_at(PROMPT_BYTES);
        proof {
            vstd::utf8::encode_utf8_decode_utf8(head@);
        }
        Fitted { text: String::from_str(head), over_limit: true }
    } else {
        Fitted { text: String::from_str(prompt), over_limit: tokens > TOKEN_LIMIT }
    }
}

/// The prompt as it is sent: counted in tokens, and cut where it is over the
/// limit and too long. There is an error, and nothing is cut, where the
/// prompt cannot be counted and where the cut would split a character.
pub fn fit_prompt(prompt: &str) -> (out: Result<Fitted, PromptError>)
    ensures
        fitted_view(out) == fitted(prompt@, p50k_count(prompt@)),
{
    match count_tokens(prompt) {
        None => Err(PromptError::Tokenizer),
        Some(tokens) => {
            if tokens > TOKEN_LIMIT && prompt.as_bytes().len() > PROMPT_BYTES
                && !prompt.is_char_boundary(PROMPT_BYTES) {
                Err(PromptError::SplitCharacter)
            } else {
                Ok(fit_prompt_to(prompt, tokens))
            }
        },
    }
}

/// The body of the request that carries `prompt` to the service: the model,
/// the instruction to the service, and the prompt as the user's message.
pub fn request_body(prompt: &str) -> (out: String)
    ensures
        out@ == body_for(prompt@),
{
    let mut out = String::from_str(
        "{\"messages\":[{\"content\":\"You are a notetaking service. You only write answers in the markdown format\",\"role\":\"system\"},{\"content\":",
    );
    out.append(to_json_string(prompt).as_str());
    out.append(",\"role\":\"user\"}],\"model\":\"gpt-3.5-turbo\"}");
    out
}

} // verus!
