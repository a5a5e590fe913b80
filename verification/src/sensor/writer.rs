//! The decisions of the loop that writes received report lines to the output
//! file, and its progress line.
use vstd::prelude::*;
use crate::text::{nat_digits, pad2_text, push_nat, push_pad2, push_str};

verus! {

/// What the writer does next.
#[derive(PartialEq, Eq, Structural, Clone, Copy, Debug)]
pub enum WriterAction {
    /// Write every line still queued, then finish.
    DrainAndFinish,
    /// Wait (with a timeout) for the next line.
    Receive,
    /// Write the line just received.
    WriteLine,
    /// Go back to the run-flag check.
    NextRound,
    /// Finish without draining.
    Finish,
}

/// The result of waiting for a line.
#[derive(PartialEq, Eq, Structural, Clone, Copy, Debug)]
pub enum Receipt {
    /// A line arrived.
    Line,
    /// No line arrived before the timeout.
    Timeout,
    /// Every sender is gone.
    Disconnected,
}

/// The writer loop: the number of lines written while running.
pub struct WriterLoop {
    pub count: u64,
}

impl WriterLoop {
    /// A writer that has written nothing yet.
    pub fn new() -> (w: WriterLoop)
        ensures
            w.count == 0,
    {
        WriterLoop { count: 0 }
    }

    /// The check at the top of each round: drain and finish once the run flag
    /// is down, otherwise wait for a line.
    pub fn on_round(&self, running: bool) -> (action: WriterAction)
        ensures
            action == if running {
                WriterAction::Receive
            } else {
                WriterAction::DrainAndFinish
            },
    {
        if running {
            WriterAction::Receive
        } else {
            WriterAction::DrainAndFinish
        }
    }

    /// What follows a wait: a received line is written and counted, a timeout
    /// starts the next round, a disconnection finishes the loop.
    pub fn on_receipt(&mut self, receipt: Receipt) -> (action: WriterAction)
        requires
            receipt == Receipt::Line ==> old(self).count < u64::MAX,
        ensures
            final(self).count == if receipt == Receipt::Line {
                old(self).count + 1
            } else {
                old(self).count as int
            },
            action == match receipt {
                Receipt::Line => WriterAction::WriteLine,
                Receipt::Timeout => WriterAction::NextRound,
                Receipt::Disconnected => WriterAction::Finish,
            },
    {
        match receipt {
            Receipt::Line => {
                self.count = self.count + 1;
                WriterAction::WriteLine
            },
            Receipt::Timeout => WriterAction::NextRound,
            Receipt::Disconnected => WriterAction::Finish,
        }
    }
}

/// Whether the progress line is due: five seconds since the last one.
pub fn log_due(elapsed_ms: u64) -> (due: bool)
    ensures
        due == (elapsed_ms >= 5000),
{
    elapsed_ms >= 5000
}

/// The progress line: elapsed minutes and seconds, two digits each, and the
/// number of lines written.
pub open spec fn progress_text(total_secs: nat, count: nat) -> Seq<char> {
    "Running: "@ + pad2_text(total_secs / 60) + ":"@ + pad2_text(total_secs % 60)
        + " | Total lines: "@ + nat_digits(count)
}

/// Renders the progress line.
pub fn progress_line(total_secs: u64, count: u64) -> (line: String)
    ensures
        line@ == progress_text(total_secs as nat, count as nat),
{
    let mut line = String::from_str("Running: ");
    push_pad2(&mut line, total_secs / 60);
    push_str(&mut line, ":");
    push_pad2(&mut line, total_secs % 60);
    push_str(&mut line, " | Total lines: ");
    push_nat(&mut line, count);
    line
}

/// A two-digit field shows a number below 100 in exactly two digits, with a
/// leading zero below 10, and reads back as that number.
pub proof fn lemma_pad2_two_digits(n: nat)
    requires
        n < 100,
    ensures
        pad2_text(n).len() == 2,
        crate::cow::input::all_digits(pad2_text(n)),
        crate::text::digits_value(pad2_text(n)) == n,
{
    crate::cow::laws::lemma_digits_read_back(n);
    let d = nat_digits(n);
    if n < 10 {
        assert(d.len() == 1);
        let t = pad2_text(n);
        assert(t =~= seq!['0'] + d);
        assert(t.drop_last() =~= seq!['0']);
        assert(seq!['0'].drop_last() =~= Seq::<char>::empty());
        assert(crate::text::digits_value(Seq::<char>::empty()) == 0);
        assert(('0' as nat) == 48);
        assert(seq!['0'].last() == '0');
        assert(crate::text::digits_value(seq!['0']) == 0);
        assert(d.drop_last() =~= Seq::<char>::empty());
        assert(crate::text::digits_value(d) == d.last() as nat - 48);
        assert(crate::text::is_digit(t[0]) && crate::text::is_digit(t[1]));
    } else {
        assert(nat_digits(n / 10).len() == 1);
    }
}

} // verus!
