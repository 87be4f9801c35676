//! The console session and its controller: submitting a command with the
//! evaluator's outcome, streaming output through the line-buffered sink,
//! history recall, and the decisions of scroll settling.

use vstd::prelude::*;
use crate::history::{next_from, next_step, prev_from, prev_step, scan_start};
use crate::sink::{
    decoded, drained, feed, flush_step, segments_of, write_step, OutWriter,
};
use crate::transcript::{entries_of, Entry, HistElem};

verus! {

/// The chunks an evaluation wrote, as byte sequences.
pub open spec fn chunks_of(w: Seq<Vec<u8>>) -> Seq<Seq<u8>> {
    w.map_values(|v: Vec<u8>| v@)
}

/// The entries that an evaluator's outcome adds after its output: the value
/// it produced, nothing when it produced none, or the error it failed with.
pub open spec fn outcome_entries(res: Result<Option<String>, String>) -> Seq<Entry> {
    match res {
        Ok(Some(v)) => seq![Entry::Result(v@)],
        Ok(None) => Seq::empty(),
        Err(e) => seq![Entry::Error(e@)],
    }
}

/// The transcript after submitting `code` to a session whose transcript was
/// `h` and whose sink held `buf`, when the evaluator wrote `chunks` and
/// finished with `res`.
pub open spec fn submitted(
    h: Seq<Entry>,
    buf: Seq<u8>,
    code: Seq<char>,
    chunks: Seq<Seq<u8>>,
    res: Result<Option<String>, String>,
) -> Seq<Entry> {
    h.push(Entry::Prompt(code)) + output_entries(decoded(drained(buf, chunks))) + outcome_entries(res)
}

/// Output texts as transcript entries.
pub open spec fn output_entries(t: Seq<Seq<char>>) -> Seq<Entry> {
    t.map_values(|s: Seq<char>| Entry::Output(s))
}

/// A failed evaluation during which the sink emits nothing leaves the
/// transcript ending with the submitted prompt followed by the error.
pub proof fn lemma_failed_submit_ends_with_error(
    h: Seq<Entry>,
    buf: Seq<u8>,
    code: Seq<char>,
    chunks: Seq<Seq<u8>>,
    msg: String,
)
    requires
        drained(buf, chunks).len() == 0,
    ensures
        ({
            let t = submitted(h, buf, code, chunks, Err(msg));
            &&& t.len() >= 2
            &&& t[t.len() - 2] == Entry::Prompt(code)
            &&& t[t.len() - 1] == Entry::Error(msg@)
        }),
{
    let t = submitted(h, buf, code, chunks, Err(msg));
    assert(output_entries(decoded(drained(buf, chunks))) =~= Seq::<Entry>::empty());
    assert(t =~= h.push(Entry::Prompt(code)).push(Entry::Error(msg@)));
}

/// An event the console reacts to.
pub enum Msg {
    /// A command was submitted and evaluated: its text, the chunks the
    /// evaluator wrote to the sink in order, and its outcome.
    Eval(String, Vec<Vec<u8>>, Result<Option<String>, String>),
    /// Text to show as output.
    Output(String),
    /// Recall the previous non-blank prompt.
    HistPrev,
    /// Recall the next non-blank prompt.
    HistNext,
    /// Move the view to the bottom of the transcript.
    ScrollBottom,
}

/// What the surface around the console is asked to do after an event.
#[derive(Debug, PartialEq, Eq)]
pub enum Effect {
    /// Render the transcript again, then settle the scroll position.
    Render,
    /// Replace the edit text and put the caret at its end.
    SetPrompt(String),
    /// Scroll to the bottom of the transcript.
    ScrollBottom,
    /// Nothing changed.
    Nothing,
}

/// What a key press in the edit surface asks of the console.
#[derive(Debug, PartialEq, Eq)]
pub enum Request {
    /// Submit this text; the edit surface is then cleared.
    Submit(String),
    /// Recall the previous non-blank prompt.
    Previous,
    /// Recall the next non-blank prompt.
    Next,
}

/// The keyboard contract: Enter submits the edit text, the up and down
/// arrows recall, and any other key is left to the edit surface. A key that
/// gives a request has its default handling suppressed.
pub fn key_request(key: &String, text: String) -> (r: Option<Request>)
    ensures
        key@ == "Enter"@ ==> r == Some(Request::Submit(text)),
        key@ == "ArrowUp"@ ==> r == Some(Request::Previous),
        key@ == "ArrowDown"@ ==> r == Some(Request::Next),
        key@ != "Enter"@ && key@ != "ArrowUp"@ && key@ != "ArrowDown"@ ==> r is None,
{
    proof {
        reveal_strlit("Enter");
        reveal_strlit("ArrowUp");
        reveal_strlit("ArrowDown");
        assert("Enter"@.len() == 5 && "ArrowUp"@.len() == 7 && "ArrowDown"@.len() == 9);
    }
    if *key == "Enter".to_owned() {
        Some(Request::Submit(text))
    } else if *key == "ArrowUp".to_owned() {
        Some(Request::Previous)
    } else if *key == "ArrowDown".to_owned() {
        Some(Request::Next)
    } else {
        None
    }
}

/// One decision of scroll settling.
#[derive(Debug, PartialEq, Eq)]
pub enum Settle {
    /// Position and content height agree: the chain ends.
    Done,
    /// Move the position to this height; check again later if `retry`.
    MoveTo(i32, bool),
}

/// Scroll settling: when the scroll position has caught up with the content
/// height nothing is left to do; otherwise move to the bottom and check again
/// after a delay, while attempts are left.
pub fn settle_step(scroll_height: i32, scroll_top: i32, tries_left: u32) -> (r: Settle)
    ensures
        scroll_height == scroll_top ==> r == Settle::Done,
        scroll_height != scroll_top ==> r == Settle::MoveTo(scroll_height, tries_left > 0),
{
    if scroll_height == scroll_top {
        Settle::Done
    } else {
        Settle::MoveTo(scroll_height, tries_left > 0)
    }
}

/// The console's session state: the transcript, the recall cursor and the
/// sink that evaluator output passes through.
pub struct App {
    hist: Vec<HistElem>,
    hist_idx: Option<usize>,
    writer: OutWriter,
}

impl App {
    /// The transcript, earliest entry first.
    pub closed spec fn entries(&self) -> Seq<Entry> {
        entries_of(self.hist@)
    }

    /// The recall cursor: unset on the live line.
    pub closed spec fn cursor(&self) -> Option<int> {
        match self.hist_idx {
            Some(i) => Some(i as int),
            None => None,
        }
    }

    /// Output bytes written and not yet emitted.
    pub closed spec fn pending(&self) -> Seq<u8> {
        self.writer.pending()
    }

    /// The cursor, when set, points into the transcript.
    pub closed spec fn wf(&self) -> bool {
        match self.hist_idx {
            Some(i) => i < self.hist@.len(),
            None => true,
        }
    }

    /// A session with an empty transcript, on the live line.
    pub fn new() -> (a: App)
        ensures
            a.wf(),
            a.entries() == Seq::<Entry>::empty(),
            a.cursor() == None::<int>,
            a.pending() == Seq::<u8>::empty(),
    {
        let a = App { hist: Vec::new(), hist_idx: None, writer: OutWriter::new() };
        assert(a.entries() =~= Seq::<Entry>::empty());
        a
    }

    /// The transcript entries.
    pub fn hist(&self) -> (r: &Vec<HistElem>)
        ensures
            entries_of(r@) == self.entries(),
    {
        &self.hist
    }

    /// The recall cursor.
    pub fn hist_idx(&self) -> (r: Option<usize>)
        ensures
            match r {
                Some(i) => self.cursor() == Some(i as int),
                None => self.cursor() == None::<int>,
            },
    {
        self.hist_idx
    }

    /// Appends one entry.
    fn push(&mut self, e: HistElem)
        requires
            old(self).wf(),
        ensures
            final(self).wf(),
            final(self).entries() == old(self).entries().push(e@),
            final(self).cursor() == old(self).cursor(),
            final(self).pending() == old(self).pending(),
    {
        self.hist.push(e);
        assert(self.entries() =~= old(self).entries().push(e@));
    }

    /// Appends an output entry.
    pub fn push_output(&mut self, out: String)
        requires
            old(self).wf(),
        ensures
            final(self).wf(),
            final(self).entries() == old(self).entries().push(Entry::Output(out@)),
            final(self).cursor() == old(self).cursor(),
            final(self).pending() == old(self).pending(),
    {
        self.push(HistElem::Output(out));
    }

    /// Feeds evaluator output to the sink; a completed line becomes an
    /// output entry. All bytes are always accepted.
    pub fn write_output(&mut self, buf: &[u8]) -> (r: usize)
        requires
            old(self).wf(),
        ensures
            final(self).wf(),
            r == buf@.len(),
            final(self).entries() == old(self).entries() + output_entries(
                decoded(segments_of(write_step(old(self).pending(), buf@).0)),
            ),
            final(self).pending() == write_step(old(self).pending(), buf@).1,
            final(self).cursor() == old(self).cursor(),
    {
        let emitted = self.writer.write(buf);
        match emitted {
            Some(s) => {
                let ghost before = self.entries();
                self.push(HistElem::Output(s));
                assert(self.entries() =~= before + output_entries(
                    decoded(segments_of(write_step(old(self).pending(), buf@).0)),
                ));
            },
            None => {
                assert(self.entries() =~= old(self).entries() + output_entries(
                    decoded(segments_of(write_step(old(self).pending(), buf@).0)),
                ));
            },
        }
        buf.len()
    }

    /// Emits whatever the sink still holds as one output entry.
    pub fn flush_output(&mut self)
        requires
            old(self).wf(),
        ensures
            final(self).wf(),
            final(self).entries() == old(self).entries() + output_entries(
                decoded(segments_of(flush_step(old(self).pending()))),
            ),
            old(self).pending().len() == 0 ==> final(self).entries() == old(self).entries(),
            final(self).pending() == Seq::<u8>::empty(),
            final(self).cursor() == old(self).cursor(),
    {
        let emitted = self.writer.flush();
        match emitted {
            Some(s) => {
                let ghost before = self.entries();
                self.push(HistElem::Output(s));
                assert(self.entries() =~= before + output_entries(
                    decoded(segments_of(flush_step(old(self).pending()))),
                ));
            },
            None => {
                assert(self.entries() =~= old(self).entries() + output_entries(
                    decoded(segments_of(flush_step(old(self).pending()))),
                ));
            },
        }
    }

    /// Leaves recall: the cursor goes back to the live line.
    pub fn hist_bottom(&mut self)
        requires
            old(self).wf(),
        ensures
            final(self).wf(),
            final(self).entries() == old(self).entries(),
            final(self).pending() == old(self).pending(),
            final(self).cursor() == None::<int>,
    {
        self.hist_idx = None;
    }

    /// Submits a command: its prompt is appended at once, then the output
    /// the evaluator wrote, line by line and with a final flush, then its
    /// value or error; recall goes back to the live line.
    pub fn eval(&mut self, code: String, writes: Vec<Vec<u8>>, res: Result<Option<String>, String>)
        requires
            old(self).wf(),
        ensures
            final(self).wf(),
            final(self).entries() == submitted(
                old(self).entries(),
                old(self).pending(),
                code@,
                chunks_of(writes@),
                res,
            ),
            final(self).pending() == Seq::<u8>::empty(),
            final(self).cursor() == None::<int>,
    {
        let ghost h0 = self.entries();
        let ghost p0 = self.pending();
        let ghost c = code@;
        let ghost ch = chunks_of(writes@);
        self.push(HistElem::Prompt(code));
        assert(ch.take(0) =~= Seq::<Seq<u8>>::empty());
        assert(self.entries() =~= h0.push(Entry::Prompt(c)) + output_entries(decoded(feed(p0, ch.take(0)).0)));
        let mut i: usize = 0;
        while i < writes.len()
            invariant
                self.wf(),
                i <= writes@.len(),
                ch == chunks_of(writes@),
                self.entries() == h0.push(Entry::Prompt(c)) + output_entries(decoded(feed(p0, ch.take(i as int)).0)),
                self.pending() == feed(p0, ch.take(i as int)).1,
            decreases writes@.len() - i,
        {
            let ghost before = self.entries();
            let ghost pend = self.pending();
            self.write_output(writes[i].as_slice());
            proof {
                let next = ch.take(i + 1);
                assert(next.drop_last() =~= ch.take(i as int));
                assert(next.last() == writes@[i as int]@);
                let segs = feed(p0, ch.take(i as int)).0;
                let e = segments_of(write_step(pend, writes@[i as int]@).0);
                assert(output_entries(decoded(segs + e)) =~= output_entries(decoded(segs)) + output_entries(decoded(e)));
                assert(self.entries() =~= h0.push(Entry::Prompt(c)) + output_entries(decoded(feed(p0, next).0)));
            }
            i += 1;
        }
        assert(ch.take(writes@.len() as int) =~= ch);
        let ghost segs = feed(p0, ch).0;
        let ghost fl = segments_of(flush_step(self.pending()));
        self.flush_output();
        assert(output_entries(decoded(segs + fl)) =~= output_entries(decoded(segs)) + output_entries(decoded(fl)));
        let ghost mid = self.entries();
        match res {
            Ok(Some(v)) => {
                self.push(HistElem::Result(v));
            },
            Ok(None) => {},
            Err(e) => {
                self.push(HistElem::Error(e));
            },
        }
        assert(self.entries() =~= mid + outcome_entries(res));
        self.hist_bottom();
    }

    /// Recalls the latest non-blank prompt before the cursor (before the end
    /// of the transcript on the live line) and returns its text; with none,
    /// nothing changes.
    pub fn hist_prev(&mut self) -> (r: Option<String>)
        requires
            old(self).wf(),
        ensures
            final(self).wf(),
            final(self).entries() == old(self).entries(),
            final(self).pending() == old(self).pending(),
            final(self).cursor() == prev_step(old(self).entries(), old(self).cursor()),
            match prev_from(old(self).entries(), scan_start(old(self).entries(), old(self).cursor())) {
                Some(j) => r is Some && r->0@ == old(self).entries()[j].text(),
                None => r is None,
            },
    {
        let ghost h = self.entries();
        let start: usize = match self.hist_idx {
            Some(i) => i,
            None => self.hist.len(),
        };
        let mut idx: usize = start;
        while idx > 0
            invariant
                *self == *old(self),
                h == self.entries(),
                idx <= start <= self.hist@.len(),
                start == scan_start(h, self.cursor()),
                prev_from(h, start as int) == prev_from(h, idx as int),
            decreases idx,
        {
            let e = &self.hist[idx - 1];
            assert(h[idx - 1] == e@);
            if e.is_recallable() {
                let t = e.text().clone();
                self.hist_idx = Some(idx - 1);
                return Some(t);
            }
            idx -= 1;
        }
        None
    }

    /// Recalls the earliest non-blank prompt after the cursor and returns its
    /// text; on the live line, or with none later, nothing changes.
    pub fn hist_next(&mut self) -> (r: Option<String>)
        requires
            old(self).wf(),
        ensures
            final(self).wf(),
            final(self).entries() == old(self).entries(),
            final(self).pending() == old(self).pending(),
            final(self).cursor() == next_step(old(self).entries(), old(self).cursor()),
            match old(self).cursor() {
                Some(i) => match next_from(old(self).entries(), i + 1) {
                    Some(j) => r is Some && r->0@ == old(self).entries()[j].text(),
                    None => r is None,
                },
                None => r is None,
            },
    {
        let ghost h = self.entries();
        let mut idx: usize = match self.hist_idx {
            Some(i) => i,
            None => {
                return None;
            },
        };
        let ghost first = idx + 1;
        while idx < self.hist.len() - 1
            invariant
                *self == *old(self),
                h == self.entries(),
                self.cursor() == Some(first - 1),
                first - 1 <= idx < self.hist@.len(),
                next_from(h, first) == next_from(h, idx + 1),
            decreases self.hist@.len() - idx,
        {
            idx += 1;
            let e = &self.hist[idx];
            assert(h[idx as int] == e@);
            if e.is_recallable() {
                let t = e.text().clone();
                self.hist_idx = Some(idx);
                return Some(t);
            }
        }
        None
    }

    /// Reacts to one event and says what the surface should do.
    pub fn update(&mut self, msg: Msg) -> (r: Effect)
        requires
            old(self).wf(),
        ensures
            final(self).wf(),
            match msg {
                Msg::Eval(code, writes, res) => {
                    &&& final(self).entries() == submitted(
                        old(self).entries(),
                        old(self).pending(),
                        code@,
                        chunks_of(writes@),
                        res,
                    )
                    &&& final(self).pending() == Seq::<u8>::empty()
                    &&& final(self).cursor() == None::<int>
                    &&& r == Effect::Render
                },
                Msg::Output(out) => {
                    &&& final(self).entries() == old(self).entries().push(Entry::Output(out@))
                    &&& final(self).pending() == old(self).pending()
                    &&& final(self).cursor() == old(self).cursor()
                    &&& r == Effect::Render
                },
                Msg::HistPrev => {
                    &&& final(self).entries() == old(self).entries()
                    &&& final(self).pending() == old(self).pending()
                    &&& final(self).cursor() == prev_step(old(self).entries(), old(self).cursor())
                    &&& match prev_from(old(self).entries(), scan_start(old(self).entries(), old(self).cursor())) {
                        Some(j) => r is SetPrompt && r->SetPrompt_0@ == old(self).entries()[j].text(),
                        None => r == Effect::Nothing,
                    }
                },
                Msg::HistNext => {
                    &&& final(self).entries() == old(self).entries()
                    &&& final(self).pending() == old(self).pending()
                    &&& final(self).cursor() == next_step(old(self).entries(), old(self).cursor())
                    &&& match old(self).cursor() {
                        Some(i) => match next_from(old(self).entries(), i + 1) {
                            Some(j) => r is SetPrompt && r->SetPrompt_0@ == old(self).entries()[j].text(),
                            None => r == Effect::Nothing,
                        },
                        None => r == Effect::Nothing,
                    }
                },
                Msg::ScrollBottom => {
                    &&& final(self).entries() == old(self).entries()
                    &&& final(self).pending() == old(self).pending()
                    &&& final(self).cursor() == old(self).cursor()
                    &&& r == Effect::ScrollBottom
                },
            },
    {
        match msg {
            Msg::Eval(code, writes, res) => {
                self.eval(code, writes, res);
                Effect::Render
            },
            Msg::Output(out) => {
                self.push_output(out);
                Effect::Render
            },
            Msg::HistPrev => match self.hist_prev() {
                Some(t) => Effect::SetPrompt(t),
                None => Effect::Nothing,
            },
            Msg::HistNext => match self.hist_next() {
                Some(t) => Effect::SetPrompt(t),
                None => Effect::Nothing,
            },
            Msg::ScrollBottom => Effect::ScrollBottom,
        }
    }
}

} // verus!
