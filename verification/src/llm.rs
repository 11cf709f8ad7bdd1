//! What is handed to the collaborator that generates text, and what is
//! read from its answer.

use vstd::prelude::*;
use vstd::string::StringExecFns;
use crate::numbers::{int_text, nat_text, push_i64, push_u64};
use crate::strings::{join_strings, join_with, texts};

verus! {

/// A part of a message of an answer.
#[derive(Debug)]
pub enum ContentPart {
    /// Text that was generated.
    OutputText(String),
    /// The words with which an answer was refused.
    Refusal(String),
}

/// An item of the output of an answer.
#[derive(Debug)]
pub enum OutputItem {
    /// A message, made of parts.
    Message(Vec<ContentPart>),
    /// Anything else.
    Other,
}

/// What is read of an answer.
#[derive(Debug)]
pub struct Answer {
    pub output_text: Option<String>,
    pub output: Vec<OutputItem>,
}

/// Part `j` of item `i` is a refusal.
pub open spec fn is_refusal(output: Seq<OutputItem>, i: int, j: int) -> bool {
    0 <= i < output.len() && (output[i] matches OutputItem::Message(parts) && 0 <= j < parts.len()
        && parts[j] is Refusal)
}

/// Some message of the answer holds a refusal.
pub open spec fn refused(output: Seq<OutputItem>) -> bool {
    exists|i: int, j: int| is_refusal(output, i, j)
}

/// The texts of the first `n` parts of a message, added to `acc`.
pub open spec fn part_texts(parts: Seq<ContentPart>, acc: Seq<Seq<char>>, n: int) -> Seq<Seq<char>>
    decreases n,
{
    if n <= 0 {
        acc
    } else {
        match parts[n - 1] {
            ContentPart::OutputText(t) => part_texts(parts, acc, n - 1).push(t@),
            ContentPart::Refusal(_) => part_texts(parts, acc, n - 1),
        }
    }
}

/// The texts of the messages among the first `n` items.
pub open spec fn message_texts(output: Seq<OutputItem>, n: int) -> Seq<Seq<char>>
    decreases n,
{
    if n <= 0 {
        Seq::empty()
    } else {
        match output[n - 1] {
            OutputItem::Message(parts) => part_texts(
                parts@,
                message_texts(output, n - 1),
                parts@.len() as int,
            ),
            OutputItem::Other => message_texts(output, n - 1),
        }
    }
}

/// The text of an answer: the text it gives as a whole if it gives one,
/// else the texts of its messages, one on each line.
pub open spec fn answer_text(a: Answer) -> Seq<char> {
    match a.output_text {
        Some(t) => t@,
        None => join_with(message_texts(a.output@, a.output@.len() as int), "\n"@),
    }
}

impl Answer {
    /// Whether some message of the answer holds a refusal.
    pub fn is_refused(&self) -> (r: bool)
        ensures
            r == refused(self.output@),
    {
        let mut i: usize = 0;
        while i < self.output.len()
            invariant
                i <= self.output.len(),
                forall|a: int, b: int| a < i ==> !is_refusal(self.output@, a, b),
            decreases self.output.len() - i,
        {
            match &self.output[i] {
                OutputItem::Message(parts) => {
                    let mut j: usize = 0;
                    while j < parts.len()
                        invariant
                            j <= parts.len(),
                            i < self.output@.len(),
                            self.output@[i as int] == OutputItem::Message(*parts),
                            forall|b: int| b < j ==> !is_refusal(self.output@, i as int, b),
                        decreases parts.len() - j,
                    {
                        match &parts[j] {
                            ContentPart::Refusal(_) => {
                                assert(is_refusal(self.output@, i as int, j as int));
                                return true;
                            },
                            ContentPart::OutputText(_) => {},
                        }
                        j += 1;
                    }
                },
                OutputItem::Other => {},
            }
            i += 1;
        }
        false
    }
}

/// The text of an answer. An answer that gives no text as a whole must
/// hold no refusal.
pub fn extract_output_text(resp: &Answer) -> (r: String)
    requires
        resp.output_text is None ==> !refused(resp.output@),
    ensures
        r@ == answer_text(*resp),
{
    match &resp.output_text {
        Some(t) => {
            return t.clone();
        },
        None => {},
    }
    let mut found: Vec<String> = Vec::new();
    let mut i: usize = 0;
    assert(texts(found@) =~= message_texts(resp.output@, 0));
    while i < resp.output.len()
        invariant
            i <= resp.output.len(),
            !refused(resp.output@),
            texts(found@) == message_texts(resp.output@, i as int),
        decreases resp.output.len() - i,
    {
        match &resp.output[i] {
            OutputItem::Message(parts) => {
                let ghost start = texts(found@);
                let mut j: usize = 0;
                while j < parts.len()
                    invariant
                        j <= parts.len(),
                        i < resp.output@.len(),
                        resp.output@[i as int] == OutputItem::Message(*parts),
                        !refused(resp.output@),
                        texts(found@) == part_texts(parts@, start, j as int),
                    decreases parts.len() - j,
                {
                    match &parts[j] {
                        ContentPart::OutputText(t) => {
                            let ghost before = found@;
                            found.push(t.clone());
                            assert(texts(found@) =~= texts(before).push(t@));
                        },
                        ContentPart::Refusal(_) => {
                            assert(is_refusal(resp.output@, i as int, j as int));
                        },
                    }
                    j += 1;
                }
            },
            OutputItem::Other => {},
        }
        i += 1;
    }
    join_strings(found.as_slice(), "\n")
}

/// The counters of an answer: tokens read, tokens written, and both.
#[derive(Clone, Copy, Debug)]
pub struct Usage {
    pub input_tokens: u32,
    pub output_tokens: u32,
    pub total_tokens: u32,
}

/// The line that reports the counters of an answer; an answer without
/// counters is reported with zeros.
pub open spec fn usage_shown(u: Option<Usage>) -> Seq<char> {
    let (p, c, t) = match u {
        Some(x) => (x.input_tokens, x.output_tokens, x.total_tokens),
        None => (0u32, 0u32, 0u32),
    };
    "— usage: prompt="@ + nat_text(p as nat) + ", completion="@ + nat_text(c as nat)
        + ", total="@ + nat_text(t as nat)
}

/// Reports the counters of an answer.
pub fn usage_line(u: Option<Usage>) -> (r: String)
    ensures
        r@ == usage_shown(u),
{
    let (p, c, t) = match u {
        Some(x) => (x.input_tokens, x.output_tokens, x.total_tokens),
        None => (0u32, 0u32, 0u32),
    };
    let mut r = String::from_str("— usage: prompt=");
    push_u64(&mut r, p as u64);
    r.append(", completion=");
    push_u64(&mut r, c as u64);
    r.append(", total=");
    push_u64(&mut r, t as u64);
    r
}

/// What is sent as the user's message: a line that says what follows,
/// and the facts.
pub open spec fn user_text_of(facts: Seq<char>) -> Seq<char> {
    "Ниже факты о проекте (BUILD/ENTRYPOINTS/STRUCTURE/TODOs). Подготовь обзор.\n"@ + facts
}

/// The user's message for the given facts.
pub fn user_text(facts: &str) -> (r: String)
    ensures
        r@ == user_text_of(facts@),
{
    let mut r = String::from_str(
        "Ниже факты о проекте (BUILD/ENTRYPOINTS/STRUCTURE/TODOs). Подготовь обзор.\n",
    );
    r.append(facts);
    r
}

/// Where an exchange is logged: under `/tmp`, named by what is logged,
/// the model and the time.
pub open spec fn log_path_of(what: Seq<char>, model: Seq<char>, ts: int) -> Seq<char> {
    "/tmp/gptcli-"@ + what + "-"@ + model + "-"@ + int_text(ts) + ".json"@
}

/// The path of the log of a request or of an answer.
pub fn log_path(what: &str, model: &str, ts: i64) -> (r: String)
    ensures
        r@ == log_path_of(what@, model@, ts as int),
{
    let mut r = String::from_str("/tmp/gptcli-");
    r.append(what);
    r.append("-");
    r.append(model);
    r.append("-");
    push_i64(&mut r, ts);
    r.append(".json");
    r
}

} // verus!
