//! The conversion of one source file, line by line.
//!
//! A [`Converter`] takes each line of the source as it is read. It writes
//! the lines that stay as they are, hands out the fields of each vertex line
//! and writes the line anew once its caller supplies the shifted
//! coordinates. A line counts once it is written, and only then is progress
//! reported, so that a line which is refused is never reported. It reads no
//! file and writes none: what it writes goes into a buffer of its
//! caller. [`Run`] is the mathematical model of a conversion, and the laws of
//! this module are stated of it.

use vstd::prelude::*;
use crate::error::Error;
use crate::line::append;
use crate::line::coordinate_fields;
use crate::line::is_short_vertex_line;
use crate::line::is_vertex_line;
use crate::line::plan_line;
use crate::line::planned;
use crate::line::translation;
use crate::line::vertex_line;
use crate::line::vertex_text;
use crate::line::LinePlan;
use crate::line::Triple;
use crate::line::TripleView;
use crate::progress::full_scale;
use crate::progress::share;
use crate::progress::whole;
use crate::progress::Fraction;

verus! {

/// Progress is reported with the first line written and then with every
/// line that follows a multiple of this many lines.
pub const REPORT_INTERVAL: u64 = 1_000_000;

/// The byte that ends each line of the output.
pub const LINE_END: u8 = 0x0a;

/// Where a conversion stands.
#[derive(Clone, Copy, Debug, PartialEq, Eq, Structural)]
pub enum Status {
    /// The next line can be taken.
    Running,
    /// A vertex line was taken and its shifted coordinates are awaited.
    Pending,
    /// Every line was taken and the whole was reported.
    Done,
    /// The conversion was given up.
    Failed(Error),
}

/// The bytes that one line takes up in the source: its own and one for the
/// line end.
pub open spec fn line_cost(line: Seq<u8>) -> nat {
    line.len() + 1
}

/// The bytes that `lines` take up together.
pub open spec fn total_cost(lines: Seq<Seq<u8>>) -> nat
    decreases lines.len(),
{
    if lines.len() == 0 {
        0
    } else {
        total_cost(lines.drop_last()) + line_cost(lines.last())
    }
}

/// The coordinates that a caller supplies, if it supplies any.
pub open spec fn supplied(shifted: Option<&Triple>) -> Option<TripleView> {
    match shifted {
        Some(t) => Some(t@),
        None => None,
    }
}

/// One conversion, as far as it has come.
pub struct Run {
    /// The size of the source in bytes, as it was found before reading.
    pub total: u64,
    /// The number of lines taken and written.
    pub lines: nat,
    /// The bytes that those lines take up in the source.
    pub bytes: nat,
    pub status: Status,
    /// The length of the vertex line that waits for its coordinates; nought
    /// where none waits.
    pub waiting: nat,
    /// Every fraction reported so far, oldest first.
    pub reports: Seq<Fraction>,
    /// Everything written so far.
    pub output: Seq<u8>,
}

impl Run {
    /// A conversion of a source of `total` bytes of which nothing is read yet.
    pub open spec fn start(total: u64) -> Run {
        Run {
            total,
            lines: 0,
            bytes: 0,
            status: Status::Running,
            waiting: 0,
            reports: Seq::empty(),
            output: Seq::empty(),
        }
    }

    pub open spec fn is_running(self) -> bool {
        self.status == Status::Running
    }

    /// Whether the conversion is over: done or given up.
    pub open spec fn is_over(self) -> bool {
        self.status != Status::Running && self.status != Status::Pending
    }

    /// Whether the next line is one with which progress is reported.
    pub open spec fn report_due(self) -> bool {
        self.lines % (REPORT_INTERVAL as nat) == 0
    }

    /// The fraction that is reported with a line of `cost` bytes, if a
    /// report is due with it: the share of all bytes up to its end.
    pub open spec fn next_report(self, cost: nat) -> Option<Fraction> {
        if self.report_due() {
            Some(share(self.bytes + cost, self.total))
        } else {
            None
        }
    }

    /// The conversion after one more line, which takes up `cost` bytes of
    /// the source, was written as `text`: the line is counted, and reported
    /// where a report is due.
    pub open spec fn advance(self, cost: nat, text: Seq<u8>) -> Run {
        Run {
            total: self.total,
            lines: self.lines + 1,
            bytes: self.bytes + cost,
            status: Status::Running,
            waiting: 0,
            reports: match self.next_report(cost) {
                Some(f) => self.reports.push(f),
                None => self.reports,
            },
            output: self.output + text.push(LINE_END),
        }
    }

    /// What taking `line` writes: the line and a line end where the line
    /// gives no vertex position, and nothing yet where it gives one.
    pub open spec fn fed_text(self, line: Seq<u8>) -> Seq<u8> {
        if self.is_running() && !is_vertex_line(line) {
            line.push(LINE_END)
        } else {
            Seq::empty()
        }
    }

    /// What taking `line` reports: nothing, unless the line is written at
    /// once and a report is due.
    pub open spec fn fed_report(self, line: Seq<u8>) -> Option<Fraction> {
        if self.is_running() && !is_vertex_line(line) {
            self.next_report(line_cost(line))
        } else {
            None
        }
    }

    /// The conversion after `line` was taken. A line that gives no vertex
    /// position is written as it is and counted. A vertex line waits for its
    /// shifted coordinates. A vertex line that is too short ends the
    /// conversion: it is neither counted nor reported.
    pub open spec fn feed(self, line: Seq<u8>) -> Run {
        if !self.is_running() {
            self
        } else if !is_vertex_line(line) {
            self.advance(line_cost(line), line)
        } else if is_short_vertex_line(line) {
            Run { status: Status::Failed(Error::MalformedVertexLine), ..self }
        } else {
            Run { status: Status::Pending, waiting: line.len(), ..self }
        }
    }

    /// What supplying `shifted` writes: the vertex line of the coordinates
    /// and a line end, where coordinates are awaited and given.
    pub open spec fn supplied_text(self, shifted: Option<TripleView>) -> Seq<u8> {
        match shifted {
            Some(t) if self.status == Status::Pending => vertex_text(t).push(LINE_END),
            _ => Seq::empty(),
        }
    }

    /// What supplying `shifted` reports: nothing, unless coordinates are
    /// awaited and given and a report is due with the line that waits.
    pub open spec fn supplied_report(self, shifted: Option<TripleView>) -> Option<Fraction> {
        if self.status == Status::Pending && shifted is Some {
            self.next_report(self.waiting + 1)
        } else {
            None
        }
    }

    /// The conversion after the shifted coordinates of the vertex line that
    /// waits were supplied, or found to be none because a field was no
    /// number. With coordinates the line is written and counted and the
    /// conversion runs on; without, it ends, and the line is neither counted
    /// nor reported. Where no vertex line waits, nothing changes.
    pub open spec fn supply(self, shifted: Option<TripleView>) -> Run {
        if self.status != Status::Pending {
            self
        } else {
            match shifted {
                Some(t) => self.advance(self.waiting + 1, vertex_text(t)),
                None => Run {
                    status: Status::Failed(Error::MalformedVertexLine),
                    waiting: 0,
                    ..self
                },
            }
        }
    }

    /// The conversion after its caller gave it up for `error`.
    pub open spec fn fail(self, error: Error) -> Run {
        if self.is_over() {
            self
        } else {
            Run { status: Status::Failed(error), waiting: 0, ..self }
        }
    }

    /// The conversion after the source came to its end: the whole is
    /// reported, whatever was reported before.
    pub open spec fn finish(self) -> Run {
        if !self.is_running() {
            self
        } else {
            Run { status: Status::Done, reports: self.reports.push(whole(self.total)), ..self }
        }
    }

    /// The conversion after `line` was taken and, where it is a vertex line,
    /// what `shift` makes of its fields was supplied.
    pub open spec fn take(self, line: Seq<u8>, shift: spec_fn(TripleView) -> Option<TripleView>) -> Run {
        if self.feed(line).status == Status::Pending && self.is_running() {
            self.feed(line).supply(shift(coordinate_fields(line)))
        } else {
            self.feed(line)
        }
    }

    /// The conversion after each of `lines` was taken in turn.
    pub open spec fn take_all(
        self,
        lines: Seq<Seq<u8>>,
        shift: spec_fn(TripleView) -> Option<TripleView>,
    ) -> Run
        decreases lines.len(),
    {
        if lines.len() == 0 {
            self
        } else {
            self.take_all(lines.drop_last(), shift).take(lines.last(), shift)
        }
    }

    /// What holds of every conversion: each report counts in the parts of
    /// the source, none exceeds the whole or the bytes of the lines written
    /// so far, none is less than one before it, a conversion that is done
    /// has reported the whole last, and a length is kept only while a vertex
    /// line waits.
    pub open spec fn sound(self) -> bool {
        &&& self.status != Status::Pending ==> self.waiting == 0
        &&& forall|i: int|
            0 <= i < self.reports.len() ==> (#[trigger] self.reports[i]).denom == full_scale(
                self.total,
            ) && self.reports[i].numer <= full_scale(self.total)
        &&& forall|i: int, j: int|
            0 <= i <= j < self.reports.len() ==> (#[trigger] self.reports[i]).numer <= (
            #[trigger] self.reports[j]).numer
        &&& self.status != Status::Done ==> forall|i: int|
            0 <= i < self.reports.len() ==> (#[trigger] self.reports[i]).numer <= self.bytes
        &&& self.status == Status::Done ==> self.reports.len() > 0 && self.reports.last() == whole(
            self.total,
        )
    }
}

/// What the lines `lines` become together: the translation of each, in
/// order, each with a line end behind it.
pub open spec fn written(
    lines: Seq<Seq<u8>>,
    shift: spec_fn(TripleView) -> Option<TripleView>,
) -> Seq<u8>
    recommends
        forall|i: int| 0 <= i < lines.len() ==> translation(#[trigger] lines[i], shift) is Ok,
    decreases lines.len(),
{
    if lines.len() == 0 {
        Seq::empty()
    } else {
        written(lines.drop_last(), shift) + translation(lines.last(), shift)->Ok_0.push(LINE_END)
    }
}

/// What a converter answers to one line.
#[derive(Debug)]
pub struct Step {
    /// The fraction to report now, if the line was written and a report is
    /// due with it.
    pub report: Option<Fraction>,
    /// What became of the line: it was written as it is, or its fields are
    /// to be shifted and supplied, or the conversion ends here.
    pub plan: Result<LinePlan, Error>,
}

/// What a converter answers to the coordinates of a vertex line.
#[derive(Clone, Copy, Debug, PartialEq, Eq, Structural)]
pub struct Written {
    /// The fraction to report now, if the line was written and a report is
    /// due with it.
    pub report: Option<Fraction>,
    /// Where the conversion stands after the call.
    pub status: Status,
}

/// The conversion of one source file.
pub struct Converter {
    total: u64,
    /// The bytes taken so far; it stays at the largest number where they
    /// exceed it.
    consumed: u64,
    /// The number of lines written so far, modulo the reporting interval.
    phase: u64,
    status: Status,
    /// The length of the vertex line that waits.
    waiting: u64,
    lines: Ghost<nat>,
    bytes: Ghost<nat>,
    reports: Ghost<Seq<Fraction>>,
    output: Ghost<Seq<u8>>,
}

impl View for Converter {
    type V = Run;

    closed spec fn view(&self) -> Run {
        Run {
            total: self.total,
            lines: self.lines@,
            bytes: self.bytes@,
            status: self.status,
            waiting: self.waiting as nat,
            reports: self.reports@,
            output: self.output@,
        }
    }
}

impl Converter {
    #[verifier::type_invariant]
    spec fn inv(self) -> bool {
        &&& self.phase == self.lines@ % (REPORT_INTERVAL as nat)
        &&& self.consumed == if self.bytes@ >= u64::MAX {
            u64::MAX as nat
        } else {
            self.bytes@
        }
        &&& self@.sound()
    }

    /// Starts the conversion of a source of `total` bytes.
    pub fn new(total: u64) -> (c: Converter)
        ensures
            c@ == Run::start(total),
    {
        proof {
            lemma_start_sound(total);
        }
        Converter {
            total,
            consumed: 0,
            phase: 0,
            status: Status::Running,
            waiting: 0,
            lines: Ghost(0),
            bytes: Ghost(0),
            reports: Ghost(Seq::empty()),
            output: Ghost(Seq::empty()),
        }
    }

    /// Where the conversion stands.
    pub fn status(&self) -> (s: Status)
        ensures
            s == self@.status,
    {
        self.status
    }

    /// Counts a line of `length` bytes that was just written: the bytes
    /// taken, the place in the reporting interval, and the fraction to
    /// report if one is due.
    fn count(&self, length: u64) -> (r: (u64, u64, Option<Fraction>))
        requires
            self.inv(),
        ensures
            r.0 == if self@.bytes + length + 1 >= u64::MAX {
                u64::MAX as int
            } else {
                self@.bytes + length + 1
            },
            r.1 == (self@.lines + 1) % (REPORT_INTERVAL as nat),
            r.2 == self@.next_report(length as nat + 1),
    {
        let consumed: u64 = self.consumed.saturating_add(length).saturating_add(1);
        let report: Option<Fraction> = if self.phase == 0 {
            Some(Fraction::of(consumed, self.total))
        } else {
            None
        };
        let phase: u64 = if self.phase + 1 == REPORT_INTERVAL {
            0
        } else {
            self.phase + 1
        };
        (consumed, phase, report)
    }

    /// Takes the next line of the source, without its line end. A line that
    /// gives no vertex position is appended to `out` with a line end and
    /// counted, and the answer holds the fraction to report if one is due.
    /// Of a vertex line the fields are handed out; nothing is written,
    /// counted or reported until [`Converter::supply`] is called. A vertex
    /// line that is too short ends the conversion. While a vertex line waits
    /// or once the conversion is over, nothing happens and the answer is
    /// `None`.
    pub fn feed(&mut self, line: &[u8], out: &mut Vec<u8>) -> (step: Option<Step>)
        ensures
            final(self)@ == old(self)@.feed(line@),
            final(self)@.sound(),
            final(out)@ == old(out)@ + old(self)@.fed_text(line@),
            step is Some <==> old(self)@.is_running(),
            step matches Some(s) ==> planned(line@, s.plan) && s.report == old(self)@.fed_report(
                line@,
            ),
    {
        proof {
            use_type_invariant(&*self);
            lemma_feed_sound(self@, line@);
        }
        match self.status {
            Status::Running => {},
            _ => {
                assert(out@ + Seq::<u8>::empty() =~= out@);
                return None;
            },
        }
        let length: u64 = line.len() as u64;
        let plan = plan_line(line);
        let ghost next = self@.feed(line@);
        let report: Option<Fraction> = match plan {
            Ok(LinePlan::Copy) => {
                let (consumed, phase, report) = self.count(length);
                append(out, line);
                out.push(LINE_END);
                assert(out@ =~= old(out)@ + line@.push(LINE_END));
                *self = Converter {
                    total: self.total,
                    consumed,
                    phase,
                    status: Status::Running,
                    waiting: 0,
                    lines: Ghost(next.lines),
                    bytes: Ghost(next.bytes),
                    reports: Ghost(next.reports),
                    output: Ghost(next.output),
                };
                report
            },
            Ok(LinePlan::Shift(_)) => {
                assert(out@ + Seq::<u8>::empty() =~= out@);
                *self = Converter {
                    total: self.total,
                    consumed: self.consumed,
                    phase: self.phase,
                    status: Status::Pending,
                    waiting: length,
                    lines: self.lines,
                    bytes: self.bytes,
                    reports: self.reports,
                    output: self.output,
                };
                None
            },
            Err(_) => {
                assert(out@ + Seq::<u8>::empty() =~= out@);
                *self = Converter {
                    total: self.total,
                    consumed: self.consumed,
                    phase: self.phase,
                    status: Status::Failed(Error::MalformedVertexLine),
                    waiting: self.waiting,
                    lines: self.lines,
                    bytes: self.bytes,
                    reports: self.reports,
                    output: self.output,
                };
                None
            },
        };
        Some(Step { report, plan })
    }

    /// Supplies the shifted coordinates of the vertex line that waits, or
    /// none where one of its fields was no number. With coordinates, the
    /// vertex line that holds them is appended to `out` with a line end and
    /// counted, the conversion runs on, and the answer holds the fraction to
    /// report if one is due. Without, the conversion ends for a malformed
    /// vertex line and nothing is reported. Where no vertex line waits,
    /// nothing happens. The answer says where the conversion stands after
    /// the call.
    pub fn supply(&mut self, shifted: Option<&Triple>, out: &mut Vec<u8>) -> (done: Written)
        ensures
            final(self)@ == old(self)@.supply(supplied(shifted)),
            final(self)@.sound(),
            final(out)@ == old(out)@ + old(self)@.supplied_text(supplied(shifted)),
            done.status == final(self)@.status,
            done.report == old(self)@.supplied_report(supplied(shifted)),
    {
        proof {
            use_type_invariant(&*self);
            lemma_supply_sound(self@, supplied(shifted));
        }
        match self.status {
            Status::Pending => {},
            _ => {
                assert(out@ + Seq::<u8>::empty() =~= out@);
                return Written { report: None, status: self.status };
            },
        }
        let ghost next = self@.supply(supplied(shifted));
        match shifted {
            Some(t) => {
                let (consumed, phase, report) = self.count(self.waiting);
                let text = vertex_line(t);
                append(out, text.as_slice());
                out.push(LINE_END);
                assert(out@ =~= old(out)@ + vertex_text(t@).push(LINE_END));
                *self = Converter {
                    total: self.total,
                    consumed,
                    phase,
                    status: Status::Running,
                    waiting: 0,
                    lines: Ghost(next.lines),
                    bytes: Ghost(next.bytes),
                    reports: Ghost(next.reports),
                    output: Ghost(next.output),
                };
                Written { report, status: Status::Running }
            },
            None => {
                assert(out@ + Seq::<u8>::empty() =~= out@);
                *self = Converter {
                    total: self.total,
                    consumed: self.consumed,
                    phase: self.phase,
                    status: Status::Failed(Error::MalformedVertexLine),
                    waiting: 0,
                    lines: self.lines,
                    bytes: self.bytes,
                    reports: self.reports,
                    output: self.output,
                };
                Written { report: None, status: Status::Failed(Error::MalformedVertexLine) }
            },
        }
    }

    /// Gives the conversion up for `error`, as its caller must when reading
    /// or writing fails. Returns whether this call ended the conversion: it
    /// does not where the conversion was over.
    pub fn fail(&mut self, error: Error) -> (ended: bool)
        ensures
            final(self)@ == old(self)@.fail(error),
            final(self)@.sound(),
            ended == !old(self)@.is_over(),
    {
        proof {
            use_type_invariant(&*self);
            lemma_fail_sound(self@, error);
        }
        match self.status {
            Status::Running => {},
            Status::Pending => {},
            _ => {
                return false;
            },
        }
        *self = Converter {
            total: self.total,
            consumed: self.consumed,
            phase: self.phase,
            status: Status::Failed(error),
            waiting: 0,
            lines: self.lines,
            bytes: self.bytes,
            reports: self.reports,
            output: self.output,
        };
        true
    }

    /// Ends the conversion at the end of the source. A running conversion is
    /// then done and the answer is the whole, to be reported whatever was
    /// reported before. Any other conversion stays as it is and the answer
    /// is `None`: the whole is reported once, and never after a failure.
    pub fn finish(&mut self) -> (last: Option<Fraction>)
        ensures
            final(self)@ == old(self)@.finish(),
            final(self)@.sound(),
            last == if old(self)@.is_running() {
                Some(whole(old(self)@.total))
            } else {
                None::<Fraction>
            },
    {
        proof {
            use_type_invariant(&*self);
            lemma_finish_sound(self@);
        }
        match self.status {
            Status::Running => {},
            _ => {
                return None;
            },
        }
        let last = Fraction::whole_of(self.total);
        let ghost next = self@.finish();
        *self = Converter {
            total: self.total,
            consumed: self.consumed,
            phase: self.phase,
            status: Status::Done,
            waiting: self.waiting,
            lines: self.lines,
            bytes: self.bytes,
            reports: Ghost(next.reports),
            output: self.output,
        };
        Some(last)
    }
}

/// A conversion that has not begun is sound.
pub proof fn lemma_start_sound(total: u64)
    ensures
        Run::start(total).sound(),
{
}

/// Taking a line keeps a conversion sound.
pub proof fn lemma_feed_sound(r: Run, line: Seq<u8>)
    requires
        r.sound(),
    ensures
        r.feed(line).sound(),
{
}

/// Supplying coordinates keeps a conversion sound.
pub proof fn lemma_supply_sound(r: Run, shifted: Option<TripleView>)
    requires
        r.sound(),
    ensures
        r.supply(shifted).sound(),
{
}

/// Giving a conversion up keeps it sound.
pub proof fn lemma_fail_sound(r: Run, error: Error)
    requires
        r.sound(),
    ensures
        r.fail(error).sound(),
{
}

/// Ending a conversion keeps it sound.
pub proof fn lemma_finish_sound(r: Run)
    requires
        r.sound(),
    ensures
        r.finish().sound(),
{
}

/// Taking a line follows its translation. Where the line has one, a running
/// conversion writes it with a line end, counts the line, reports where a
/// report is due, and runs on. Where it has none, the conversion ends with
/// the failure of the translation and nothing else changes: the line is
/// neither written nor counted nor reported.
pub proof fn lemma_take_follows_translation(
    r: Run,
    line: Seq<u8>,
    shift: spec_fn(TripleView) -> Option<TripleView>,
)
    requires
        r.is_running(),
        r.sound(),
    ensures
        match translation(line, shift) {
            Ok(text) => r.take(line, shift) == r.advance(line_cost(line), text),
            Err(error) => r.take(line, shift) == (Run { status: Status::Failed(error), ..r }),
        },
{
}

/// Taking a line keeps a conversion sound.
pub proof fn lemma_take_sound(r: Run, line: Seq<u8>, shift: spec_fn(TripleView) -> Option<TripleView>)
    requires
        r.sound(),
    ensures
        r.take(line, shift).sound(),
{
    lemma_feed_sound(r, line);
    lemma_supply_sound(r.feed(line), shift(coordinate_fields(line)));
}

/// Whether every one of `lines` has a translation.
pub open spec fn translates(
    lines: Seq<Seq<u8>>,
    shift: spec_fn(TripleView) -> Option<TripleView>,
) -> bool {
    forall|i: int| 0 <= i < lines.len() ==> translation(#[trigger] lines[i], shift) is Ok
}

/// Taking any number of lines keeps a conversion sound.
pub proof fn lemma_take_all_sound(
    r: Run,
    lines: Seq<Seq<u8>>,
    shift: spec_fn(TripleView) -> Option<TripleView>,
)
    requires
        r.sound(),
    ensures
        r.take_all(lines, shift).sound(),
    decreases lines.len(),
{
    if lines.len() > 0 {
        lemma_take_all_sound(r, lines.drop_last(), shift);
        lemma_take_sound(r.take_all(lines.drop_last(), shift), lines.last(), shift);
    }
}

/// In a sound conversion every report lies between nought and one, and no
/// report is less than one made before it.
pub proof fn lemma_reports_never_fall(r: Run)
    requires
        r.sound(),
    ensures
        forall|i: int| 0 <= i < r.reports.len() ==> (#[trigger] r.reports[i]).wf(),
        forall|i: int, j: int|
            0 <= i <= j < r.reports.len() ==> (#[trigger] r.reports[i]).le(#[trigger] r.reports[j]),
{
    let scale = full_scale(r.total);
    assert forall|i: int, j: int| 0 <= i <= j < r.reports.len() implies (#[trigger] r.reports[i]).le(
        #[trigger] r.reports[j],
    ) by {
        let a = r.reports[i];
        let b = r.reports[j];
        assert(a.denom == scale && b.denom == scale);
        assert(a.numer * scale <= b.numer * scale) by (nonlinear_arith)
            requires
                a.numer <= b.numer,
                scale >= 0,
        ;
    }
}

/// Taking the lines `first + then` is taking `first` and then `then`.
pub proof fn lemma_take_all_concat(
    r: Run,
    first: Seq<Seq<u8>>,
    then: Seq<Seq<u8>>,
    shift: spec_fn(TripleView) -> Option<TripleView>,
)
    ensures
        r.take_all(first + then, shift) == r.take_all(first, shift).take_all(then, shift),
    decreases then.len(),
{
    if then.len() == 0 {
        assert(first + then =~= first);
    } else {
        assert((first + then).drop_last() =~= first + then.drop_last());
        assert((first + then).last() == then.last());
        lemma_take_all_concat(r, first, then.drop_last(), shift);
    }
}

/// A conversion that does not run takes no more lines: it stays as it is.
pub proof fn lemma_take_all_when_over(
    r: Run,
    lines: Seq<Seq<u8>>,
    shift: spec_fn(TripleView) -> Option<TripleView>,
)
    requires
        !r.is_running(),
    ensures
        r.take_all(lines, shift) == r,
    decreases lines.len(),
{
    if lines.len() > 0 {
        lemma_take_all_when_over(r, lines.drop_last(), shift);
    }
}

/// The first lines of a source take up fewer bytes than all of them: at
/// least one byte fewer for each line left out.
pub proof fn lemma_total_cost_prefix(lines: Seq<Seq<u8>>, k: int)
    requires
        0 <= k <= lines.len(),
    ensures
        total_cost(lines.take(k)) + (lines.len() - k) <= total_cost(lines),
    decreases lines.len(),
{
    if k == lines.len() {
        assert(lines.take(k) =~= lines);
    } else {
        lemma_total_cost_prefix(lines.drop_last(), k);
        assert(lines.drop_last().take(k) =~= lines.take(k));
    }
}

/// Taking lines lets a running conversion run on or fail for a malformed
/// vertex line, keeps it sound, and counts no more lines and bytes than
/// were given.
pub proof fn lemma_take_all_bounds(
    r: Run,
    lines: Seq<Seq<u8>>,
    shift: spec_fn(TripleView) -> Option<TripleView>,
)
    requires
        r.is_running(),
        r.sound(),
    ensures
        r.take_all(lines, shift).is_running() || r.take_all(lines, shift).status == Status::Failed(
            Error::MalformedVertexLine,
        ),
        r.take_all(lines, shift).sound(),
        r.take_all(lines, shift).total == r.total,
        r.take_all(lines, shift).lines <= r.lines + lines.len(),
        r.take_all(lines, shift).bytes <= r.bytes + total_cost(lines),
    decreases lines.len(),
{
    if lines.len() > 0 {
        lemma_take_all_bounds(r, lines.drop_last(), shift);
        let mid = r.take_all(lines.drop_last(), shift);
        if mid.is_running() {
            lemma_take_follows_translation(mid, lines.last(), shift);
        }
        lemma_take_sound(mid, lines.last(), shift);
    }
}

/// A running conversion that takes lines which all have a translation still
/// runs, has counted every line and every byte, and has written the
/// translation of each line, in order, each with a line end.
pub proof fn lemma_take_all_runs(
    r: Run,
    lines: Seq<Seq<u8>>,
    shift: spec_fn(TripleView) -> Option<TripleView>,
)
    requires
        r.is_running(),
        r.sound(),
        translates(lines, shift),
    ensures
        r.take_all(lines, shift).is_running(),
        r.take_all(lines, shift).sound(),
        r.take_all(lines, shift).total == r.total,
        r.take_all(lines, shift).lines == r.lines + lines.len(),
        r.take_all(lines, shift).bytes == r.bytes + total_cost(lines),
        r.take_all(lines, shift).output == r.output + written(lines, shift),
    decreases lines.len(),
{
    if lines.len() == 0 {
        assert(r.output + written(lines, shift) =~= r.output);
    } else {
        let before = lines.drop_last();
        assert forall|i: int| 0 <= i < before.len() implies translation(
            #[trigger] before[i],
            shift,
        ) is Ok by {
            assert(before[i] == lines[i]);
        }
        lemma_take_all_runs(r, before, shift);
        let mid = r.take_all(before, shift);
        assert(translation(lines[lines.len() - 1], shift) is Ok);
        lemma_take_follows_translation(mid, lines.last(), shift);
        lemma_take_sound(mid, lines.last(), shift);
        let text = translation(lines.last(), shift)->Ok_0;
        assert(r.output + written(before, shift) + text.push(LINE_END) =~= r.output + written(
            lines,
            shift,
        ));
    }
}

/// The conversion of a source of which every line has a translation, from
/// its first line to its end. It is done. It has counted every line and
/// byte. It has written the translation of each line, in order and each with
/// a line end, so that every line that gives no vertex position stands in
/// the output as it stood in the source. The whole is its last report and
/// was added by the end alone, and ending it again changes nothing. Every
/// report lies between nought and one, and none is less than one made
/// before it.
pub proof fn lemma_conversion(
    total: u64,
    lines: Seq<Seq<u8>>,
    shift: spec_fn(TripleView) -> Option<TripleView>,
)
    requires
        translates(lines, shift),
    ensures
        ({
            let taken = Run::start(total).take_all(lines, shift);
            let end = taken.finish();
            &&& end.status == Status::Done
            &&& end.lines == lines.len()
            &&& end.bytes == total_cost(lines)
            &&& end.output == written(lines, shift)
            &&& end.reports == taken.reports.push(whole(total))
            &&& end.reports.last().is_whole()
            &&& end.finish() == end
            &&& forall|i: int| 0 <= i < end.reports.len() ==> (#[trigger] end.reports[i]).wf()
            &&& forall|i: int, j: int|
                0 <= i <= j < end.reports.len() ==> (#[trigger] end.reports[i]).le(
                    #[trigger] end.reports[j],
                )
        }),
{
    let taken = Run::start(total).take_all(lines, shift);
    lemma_start_sound(total);
    lemma_take_all_runs(Run::start(total), lines, shift);
    lemma_finish_sound(taken);
    lemma_reports_never_fall(taken.finish());
    assert(Seq::<u8>::empty() + written(lines, shift) =~= written(lines, shift));
}

/// Where the source is no smaller than its lines take up, but for a line
/// end that may be missing behind its last line, and its last line is not
/// one with which progress is reported, the whole is reported once: no
/// report before the last is the whole. (A source of a single line reports
/// the whole with that line and again at its end.)
pub proof fn lemma_whole_reported_once(
    total: u64,
    lines: Seq<Seq<u8>>,
    shift: spec_fn(TripleView) -> Option<TripleView>,
)
    requires
        translates(lines, shift),
        lines.len() > 0 ==> total_cost(lines) <= total + lines.last().len(),
        lines.len() > 0 ==> (lines.len() - 1) % (REPORT_INTERVAL as int) != 0,
    ensures
        ({
            let end = Run::start(total).take_all(lines, shift).finish();
            &&& end.reports.len() > 0
            &&& end.reports.last().is_whole()
            &&& forall|i: int|
                0 <= i < end.reports.len() - 1 ==> !(#[trigger] end.reports[i]).is_whole()
        }),
{
    let start = Run::start(total);
    let taken = start.take_all(lines, shift);
    lemma_conversion(total, lines, shift);
    lemma_start_sound(total);
    if lines.len() == 0 {
        assert(taken.reports.len() == 0);
    } else {
        let before = lines.drop_last();
        assert forall|i: int| 0 <= i < before.len() implies translation(
            #[trigger] before[i],
            shift,
        ) is Ok by {
            assert(before[i] == lines[i]);
        }
        lemma_take_all_runs(start, before, shift);
        let mid = start.take_all(before, shift);
        assert(translation(lines[lines.len() - 1], shift) is Ok);
        lemma_take_follows_translation(mid, lines.last(), shift);
        assert(taken.reports == mid.reports);
        assert forall|i: int| 0 <= i < taken.reports.len() implies !(
        #[trigger] taken.reports[i]).is_whole() by {
            assert(mid.reports[i].numer <= mid.bytes);
            assert(mid.reports[i].denom == full_scale(total));
        }
    }
}

/// A source that holds a line without a translation, be it a vertex line
/// with fewer than three fields or one with a field that is no number, is
/// not converted. Once its lines are taken the conversion has failed for a
/// malformed vertex line, at that line or at one before it; the line at
/// which it failed is neither written nor counted nor reported; and its end
/// reports nothing. Where the source is no smaller than its lines take up,
/// but for a line end that may be missing behind its last line, no report
/// of such a conversion is the whole.
pub proof fn lemma_malformed_line_fails(
    total: u64,
    lines: Seq<Seq<u8>>,
    shift: spec_fn(TripleView) -> Option<TripleView>,
    at: int,
)
    requires
        0 <= at < lines.len(),
        translation(lines[at], shift) is Err,
    ensures
        ({
            let taken = Run::start(total).take_all(lines, shift);
            &&& taken.status == Status::Failed(Error::MalformedVertexLine)
            &&& taken.lines <= at
            &&& taken.bytes <= total_cost(lines.take(at))
            &&& taken.finish() == taken
            &&& taken.sound()
            &&& total_cost(lines) <= total + lines.last().len() ==> forall|i: int|
                0 <= i < taken.reports.len() ==> !(#[trigger] taken.reports[i]).is_whole()
        }),
{
    let start = Run::start(total);
    let head = lines.take(at + 1);
    let tail = lines.skip(at + 1);
    assert(lines =~= head + tail);
    assert(head.drop_last() =~= lines.take(at));
    assert(head.last() == lines[at]);
    lemma_start_sound(total);
    lemma_take_all_concat(start, head, tail, shift);
    lemma_take_all_bounds(start, head.drop_last(), shift);
    let mid = start.take_all(head.drop_last(), shift);
    if mid.is_running() {
        lemma_take_follows_translation(mid, head.last(), shift);
    }
    lemma_take_all_when_over(start.take_all(head, shift), tail, shift);
    let taken = start.take_all(lines, shift);
    assert(taken.reports == mid.reports);
    if total_cost(lines) <= total + lines.last().len() {
        lemma_total_cost_prefix(lines.drop_last(), at);
        assert(lines.drop_last().take(at) =~= lines.take(at));
        assert forall|i: int| 0 <= i < taken.reports.len() implies !(
        #[trigger] taken.reports[i]).is_whole() by {
            assert(taken.reports[i].numer <= taken.bytes);
            assert(taken.reports[i].denom == full_scale(total));
        }
    }
}

/// A source with a vertex line that has fewer than three fields is not
/// converted, whatever the arithmetic does: the conversion fails for a
/// malformed vertex line and its end reports nothing.
pub proof fn lemma_short_vertex_line_fails(
    total: u64,
    lines: Seq<Seq<u8>>,
    shift: spec_fn(TripleView) -> Option<TripleView>,
    at: int,
)
    requires
        0 <= at < lines.len(),
        is_short_vertex_line(lines[at]),
    ensures
        ({
            let taken = Run::start(total).take_all(lines, shift);
            &&& taken.status == Status::Failed(Error::MalformedVertexLine)
            &&& taken.finish() == taken
            &&& total_cost(lines) <= total + lines.last().len() ==> forall|i: int|
                0 <= i < taken.reports.len() ==> !(#[trigger] taken.reports[i]).is_whole()
        }),
{
    lemma_malformed_line_fails(total, lines, shift, at);
}

} // verus!
