//! Transcript entries: what the console shows, in the order it happened.

use vstd::prelude::*;
use crate::text::{blank, is_blank};

verus! {

/// The mathematical value of a transcript entry.
pub enum Entry {
    Prompt(Seq<char>),
    Result(Seq<char>),
    Error(Seq<char>),
    Output(Seq<char>),
}

impl Entry {
    /// The text the entry carries, whatever its kind.
    pub open spec fn text(self) -> Seq<char> {
        match self {
            Entry::Prompt(t) => t,
            Entry::Result(t) => t,
            Entry::Error(t) => t,
            Entry::Output(t) => t,
        }
    }

    /// A prompt that is not blank: the only kind of entry history recall stops at.
    pub open spec fn recallable(self) -> bool {
        match self {
            Entry::Prompt(t) => !is_blank(t),
            _ => false,
        }
    }
}

/// One entry of the transcript: a submitted command, the value it produced,
/// the error it failed with, or output it wrote while running.
#[derive(Debug, PartialEq, Eq)]
pub enum HistElem {
    Prompt(String),
    Result(String),
    Error(String),
    Output(String),
}

impl View for HistElem {
    type V = Entry;

    open spec fn view(&self) -> Entry {
        match self {
            HistElem::Prompt(t) => Entry::Prompt(t@),
            HistElem::Result(t) => Entry::Result(t@),
            HistElem::Error(t) => Entry::Error(t@),
            HistElem::Output(t) => Entry::Output(t@),
        }
    }
}

impl HistElem {
    /// The text of the entry.
    pub fn text(&self) -> (r: &String)
        ensures
            r@ == self@.text(),
    {
        match self {
            HistElem::Prompt(t) => t,
            HistElem::Result(t) => t,
            HistElem::Error(t) => t,
            HistElem::Output(t) => t,
        }
    }

    /// Whether history recall may stop at this entry.
    pub fn is_recallable(&self) -> (r: bool)
        ensures
            r == self@.recallable(),
    {
        match self {
            HistElem::Prompt(t) => !blank(t.as_str()),
            _ => false,
        }
    }
}

/// The values of a sequence of entries.
pub open spec fn entries_of(h: Seq<HistElem>) -> Seq<Entry> {
    h.map_values(|e: HistElem| e@)
}

} // verus!
