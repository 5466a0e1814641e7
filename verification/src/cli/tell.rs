//! Giving guidance to the next iteration.
use vstd::prelude::*;

use crate::error::Error;
use crate::storage::{GuidanceEntry, StateSnapshot};
use crate::text;
use crate::time::Timestamp;

verus! {

/// What giving guidance takes.
#[derive(Debug)]
pub struct TellArgs {
    pub name: String,
    /// The words of the message.
    pub message: Vec<String>,
}

/// The message that words make.
pub open spec fn message_of(words: Seq<Seq<char>>) -> Seq<char> {
    text::trimmed(text::joined(words, " "@))
}

/// Where a run stands: at the iteration in progress, or behind those it has
/// finished. Nothing where there is no run.
pub open spec fn run_position(state: Option<StateSnapshot>) -> Option<u64> {
    match state {
        Some(s) => match s.iter_in_progress {
            Some(i) => Some(i),
            None => Some(s.run_iterations_completed),
        },
        None => None,
    }
}

/// The guidance that words make, marked with where the run stands; an error
/// where they say nothing.
pub fn guidance(words: &Vec<String>, state: &Option<StateSnapshot>, now: Timestamp) -> (r: Result<
    GuidanceEntry,
    Error,
>)
    ensures
        if message_of(text::texts(words@)).len() == 0 {
            r matches Err(Error::Config(m)) && m@ == "guidance message is empty"@
        } else {
            &&& r matches Ok(g)
            &&& g.ts == now
            &&& g.added_at_iter == run_position(*state)
            &&& g.text@ == message_of(text::texts(words@))
        },
{
    let message = text::trim(text::join(words, " ").as_str());
    if text::chars_of(message.as_str()).len() == 0 {
        return Err(Error::Config(text::owned("guidance message is empty")));
    }
    let added_at_iter = match state {
        Some(s) => match s.iter_in_progress {
            Some(i) => Some(i),
            None => Some(s.run_iterations_completed),
        },
        None => None,
    };
    Ok(GuidanceEntry { ts: now, added_at_iter, text: message })
}

/// What is told when guidance was taken.
pub open spec fn taken_text(name: Seq<char>, at: Option<u64>) -> Seq<char> {
    match at {
        Some(i) => "recorded guidance for "@ + text::quoted(name) + " (run at iter "@ + text::dec(
            i as nat,
        ) + "); applies from the next iteration"@,
        None => "recorded guidance for "@ + text::quoted(name)
            + "; applies once the run starts"@,
    }
}

/// Tells that guidance was taken.
pub fn taken(name: &str, at: Option<u64>) -> (r: String)
    ensures
        r@ == taken_text(name@, at),
{
    let mut out = text::owned("recorded guidance for ");
    out.push_str(text::quote(name).as_str());
    match at {
        Some(i) => {
            out.push_str(" (run at iter ");
            out.push_str(text::dec_string(i).as_str());
            out.push_str("); applies from the next iteration");
        },
        None => {
            out.push_str("; applies once the run starts");
        },
    }
    out
}

/// Guidance is the words that were given, one space between any two; it is told
/// with the iteration in progress, or else with the number of those that the run
/// has finished.
pub proof fn law_guidance_is_what_was_said(a: Seq<char>, b: Seq<char>, s: StateSnapshot)
    requires
        a.len() > 0 && !text::is_white(a[0]),
        b.len() > 0 && !text::is_white(b.last()),
    ensures
        message_of(seq![a, b]) == a + " "@ + b,
        s.iter_in_progress matches Some(n) ==> run_position(Some(s)) == Some(n),
        s.iter_in_progress is None ==> run_position(Some(s)) == Some(s.run_iterations_completed),
        run_position(None) is None,
{
    reveal_with_fuel(text::joined, 2);
    let words = seq![a, b];
    assert(words.drop_last() == seq![a]);
    let m = a + " "@ + b;
    assert(text::joined(words, " "@) == m);
    assert(m[0] == a[0]);
    assert(m.last() == b.last());
    text::lemma_trimmed_whole(m);
}

/// Every word of guidance is in the message, and nothing is left of a message of
/// white space alone.
pub proof fn law_every_word_is_taken(words: Seq<Seq<char>>, k: int)
    requires
        0 <= k < words.len(),
    ensures
        text::occurs_in(words[k], text::joined(words, " "@)),
        message_of(words) == text::trimmed(text::joined(words, " "@)),
        message_of(Seq::empty()).len() == 0,
{
    text::law_joined_holds_each(words, " "@, k);
}

/// That guidance was taken is told with the experiment's name and with where the
/// run stands, where there is one.
pub proof fn law_taken_guidance_is_acknowledged(name: Seq<char>, n: u64)
    ensures
        text::begins_with(
            taken_text(name, Some(n)),
            "recorded guidance for "@ + text::quoted(name) + " (run at iter "@ + text::dec(
                n as nat,
            ),
        ),
        text::begins_with(
            taken_text(name, None),
            "recorded guidance for "@ + text::quoted(name),
        ),
{
    let head = "recorded guidance for "@ + text::quoted(name);
    text::lemma_starts(
        head + " (run at iter "@ + text::dec(n as nat),
        "); applies from the next iteration"@,
    );
    text::lemma_starts(head, "; applies once the run starts"@);
}

} // verus!
