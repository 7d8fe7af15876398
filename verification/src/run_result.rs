//! The shared report a finished operation leaves behind: some counts, possibly
//! some individual failures, possibly cancelled, and a headline that says plainly
//! whether the run actually finished.

use vstd::prelude::*;
use vstd::string::*;

use crate::recent::Texts;
use crate::text::{copy, dec, join, joined, push_decimal, views};
use crate::theme::Ink;

verus! {

/// How many individual failures a report keeps. The count stays exact either way.
pub const MAX_PROBLEMS: usize = 200;

/// What one finished operation did.
#[derive(Debug)]
pub struct RunReport {
    /// What ran.
    pub title: String,
    /// Labelled totals, in display order.
    pub counts: Vec<(String, u64)>,
    /// Individual failures, capped at [`MAX_PROBLEMS`].
    pub problems: Vec<String>,
    /// Failures that are counted but not listed.
    pub problems_dropped: u64,
    /// Anything else the user must know.
    pub notes: Vec<String>,
    pub cancelled: bool,
}

/// A report's contents.
#[verifier::ext_equal]
pub struct ReportModel {
    pub title: Seq<char>,
    pub counts: Seq<(Seq<char>, u64)>,
    pub problems: Texts,
    pub problems_dropped: u64,
    pub notes: Texts,
    pub cancelled: bool,
}

impl View for RunReport {
    type V = ReportModel;

    open spec fn view(&self) -> ReportModel {
        ReportModel {
            title: self.title@,
            counts: crate::filter_ui::stats_view(self.counts@),
            problems: views(self.problems@),
            problems_dropped: self.problems_dropped,
            notes: views(self.notes@),
            cancelled: self.cancelled,
        }
    }
}

impl ReportModel {
    /// A report of nothing yet.
    pub open spec fn titled(title: Seq<char>) -> ReportModel {
        ReportModel {
            title,
            counts: Seq::empty(),
            problems: Seq::empty(),
            problems_dropped: 0,
            notes: Seq::empty(),
            cancelled: false,
        }
    }

    /// The list keeps to its cap, and the failures can be counted.
    pub open spec fn wf(self) -> bool {
        &&& self.problems.len() <= MAX_PROBLEMS
        &&& self.total() <= u64::MAX
    }

    /// The report with one more total.
    pub open spec fn with_count(self, label: Seq<char>, value: u64) -> ReportModel {
        ReportModel { counts: self.counts.push((label, value)), ..self }
    }

    /// The report with one more note.
    pub open spec fn with_note(self, note: Seq<char>) -> ReportModel {
        ReportModel { notes: self.notes.push(note), ..self }
    }

    /// The report with one more failure: listed, or counted past the cap.
    pub open spec fn with_problem(self, problem: Seq<char>) -> ReportModel {
        if self.problems.len() < MAX_PROBLEMS {
            ReportModel { problems: self.problems.push(problem), ..self }
        } else {
            ReportModel { problems_dropped: (self.problems_dropped + 1) as u64, ..self }
        }
    }

    /// The report with more failures, in order.
    pub open spec fn with_problems(self, problems: Texts) -> ReportModel
        decreases problems.len(),
    {
        if problems.len() == 0 {
            self
        } else {
            self.with_problems(problems.drop_last()).with_problem(problems.last())
        }
    }

    /// The report with failures of which only the number is known.
    pub open spec fn with_unlisted(self, n: u64) -> ReportModel {
        ReportModel { problems_dropped: (self.problems_dropped + n) as u64, ..self }
    }

    /// How many failures there were.
    pub open spec fn total(self) -> int {
        self.problems.len() + self.problems_dropped
    }

    /// The run did everything it set out to do.
    pub open spec fn complete(self) -> bool {
        !self.cancelled && self.total() == 0
    }

    /// The totals in one line.
    pub open spec fn counts_text(self) -> Seq<char> {
        joined(count_texts(self.counts), ", "@)
    }

    /// Why the run is not complete.
    pub open spec fn reasons(self) -> Texts {
        (if self.cancelled {
            seq!["cancelled"@]
        } else {
            Seq::empty()
        }) + (if self.total() > 0 {
            seq![dec(self.total() as nat) + " problem(s)"@]
        } else {
            Seq::empty()
        })
    }

    /// The one-line version.
    pub open spec fn headline(self) -> Seq<char> {
        if self.complete() {
            self.title + " done: "@ + self.counts_text() + "."@
        } else {
            self.title + " incomplete — "@ + self.counts_text() + "; "@ + joined(
                self.reasons(),
                ", "@,
            ) + "."@
        }
    }
}

/// Each total as its label and its value.
pub open spec fn count_texts(counts: Seq<(Seq<char>, u64)>) -> Texts {
    Seq::new(counts.len(), |i: int| counts[i].0 + " "@ + dec(counts[i].1 as nat))
}

/// Adding failures keeps the rest of a report, and its form.
pub proof fn lemma_problems_keep(m: ReportModel, ps: Texts)
    requires
        m.wf(),
        m.total() + ps.len() <= u64::MAX,
    ensures
        m.with_problems(ps).wf(),
        m.with_problems(ps).total() == m.total() + ps.len(),
        m.with_problems(ps).title == m.title,
        m.with_problems(ps).cancelled == m.cancelled,
    decreases ps.len(),
{
    if ps.len() > 0 {
        lemma_problems_keep(m, ps.drop_last());
    }
}

/// However many failures a run has, the report counts every one of them and
/// lists at most [`MAX_PROBLEMS`].
pub proof fn law_every_problem_is_counted(m: ReportModel, problems: Texts)
    requires
        m.wf(),
        m.total() + problems.len() <= u64::MAX,
    ensures
        m.with_problems(problems).total() == m.total() + problems.len(),
        m.with_problems(problems).problems.len() <= MAX_PROBLEMS,
{
    lemma_problems_keep(m, problems);
}

/// A run that failed on anything, or was cancelled, never reads like one that
/// finished.
pub proof fn law_failures_never_read_as_done(m: ReportModel, problems: Texts)
    requires
        m.wf(),
        m.total() + problems.len() <= u64::MAX,
        m.cancelled || problems.len() > 0,
    ensures
        !m.with_problems(problems).complete(),
{
    lemma_problems_keep(m, problems);
}

impl RunReport {
    /// A report of nothing yet.
    pub fn new(title: &str) -> (r: Self)
        ensures
            r@ == ReportModel::titled(title@),
            r@.wf(),
    {
        let r = RunReport {
            title: copy(title),
            counts: Vec::new(),
            problems: Vec::new(),
            problems_dropped: 0,
            notes: Vec::new(),
            cancelled: false,
        };
        assert(r@ =~= ReportModel::titled(title@));
        r
    }

    /// Adds a total. Zero counts are kept.
    pub fn count(self, label: &str, value: u64) -> (r: Self)
        ensures
            r@ == self@.with_count(label@, value),
    {
        let mut report = self;
        let ghost before = report.counts@;
        report.counts.push((copy(label), value));
        assert(crate::filter_ui::stats_view(report.counts@) =~= crate::filter_ui::stats_view(
            before,
        ).push((label@, value)));
        report
    }

    /// Says whether the run was cancelled.
    pub fn cancelled(self, cancelled: bool) -> (r: Self)
        ensures
            r@ == (ReportModel { cancelled, ..self@ }),
    {
        let mut report = self;
        report.cancelled = cancelled;
        report
    }

    /// Adds a note.
    pub fn note(self, note: &str) -> (r: Self)
        ensures
            r@ == self@.with_note(note@),
    {
        let mut report = self;
        let ghost before = report.notes@;
        report.notes.push(copy(note));
        assert(views(report.notes@) =~= views(before).push(note@));
        report
    }

    /// Adds a failure.
    pub fn problem(&mut self, problem: String)
        requires
            old(self)@.wf(),
            old(self)@.total() < u64::MAX,
        ensures
            final(self)@ == old(self)@.with_problem(problem@),
            final(self)@.wf(),
    {
        if self.problems.len() < MAX_PROBLEMS {
            let ghost before = self.problems@;
            let ghost text = problem@;
            self.problems.push(problem);
            assert(views(self.problems@) =~= views(before).push(text));
        } else {
            self.problems_dropped = self.problems_dropped + 1;
        }
    }

    /// Adds failures, in order.
    pub fn problems(self, problems: Vec<String>) -> (r: Self)
        requires
            self@.wf(),
            self@.total() + problems@.len() <= u64::MAX,
        ensures
            r@ == self@.with_problems(views(problems@)),
            r@.wf(),
    {
        let ghost start = self@;
        let ghost all = views(problems@);
        let mut report = self;
        let mut i: usize = 0;
        while i < problems.len()
            invariant
                i <= problems@.len(),
                all == views(problems@),
                start.wf(),
                start.total() + problems@.len() <= u64::MAX,
                report@ == start.with_problems(all.take(i as int)),
                report@.wf(),
            decreases problems@.len() - i,
        {
            proof {
                lemma_problems_keep(start, all.take(i as int));
                assert(all.take(i + 1).drop_last() =~= all.take(i as int));
                assert(all.take(i + 1).last() == problems@[i as int]@);
            }
            report.problem(problems[i].clone());
            i += 1;
        }
        assert(all.take(i as int) =~= all);
        report
    }

    /// Adds failures of which only the number is known.
    pub fn unlisted(self, n: u64) -> (r: Self)
        requires
            self@.wf(),
            self@.total() + n <= u64::MAX,
        ensures
            r@ == self@.with_unlisted(n),
            r@.wf(),
    {
        let mut report = self;
        report.problems_dropped = report.problems_dropped + n;
        report
    }

    /// True when the run did everything it set out to do.
    pub fn complete(&self) -> (r: bool)
        ensures
            r == self@.complete(),
    {
        !self.cancelled && self.problems.len() == 0 && self.problems_dropped == 0
    }

    /// How many individual failures are known, including any past the cap.
    pub fn problem_count(&self) -> (r: u64)
        requires
            self@.wf(),
        ensures
            r == self@.total(),
    {
        self.total_problems()
    }

    fn total_problems(&self) -> (r: u64)
        requires
            self@.wf(),
        ensures
            r == self@.total(),
    {
        self.problems.len() as u64 + self.problems_dropped
    }

    /// The one-line version, for a status strip.
    pub fn headline(&self) -> (r: String)
        requires
            self@.wf(),
        ensures
            r@ == self@.headline(),
    {
        let ghost counts = self@.counts;
        let mut parts: Vec<String> = Vec::new();
        let mut i: usize = 0;
        while i < self.counts.len()
            invariant
                i <= self.counts@.len(),
                counts == self@.counts,
                views(parts@) =~= count_texts(counts).take(i as int),
            decreases self.counts@.len() - i,
        {
            let ghost before = parts@;
            let mut part = self.counts[i].0.clone();
            part.append(" ");
            push_decimal(&mut part, self.counts[i].1 as u128);
            assert(part@ =~= count_texts(counts)[i as int]);
            parts.push(part);
            assert(views(parts@) =~= views(before).push(part@));
            i += 1;
        }
        assert(views(parts@) =~= count_texts(counts));
        let line = join(&parts, ", ");
        let mut out = self.title.clone();
        if self.complete() {
            out.append(" done: ");
            out.append(line.as_str());
            out.append(".");
            return out;
        }
        let mut why: Vec<String> = Vec::new();
        if self.cancelled {
            why.push("cancelled".to_string());
        }
        if self.total_problems() > 0 {
            let mut s = crate::text::decimal(self.total_problems() as u128);
            s.append(" problem(s)");
            why.push(s);
        }
        assert(views(why@) =~= self@.reasons());
        out.append(" incomplete — ");
        out.append(line.as_str());
        out.append("; ");
        out.append(join(&why, ", ").as_str());
        out.append(".");
        out
    }

    /// The colour of the report: red on failures, amber when cancelled, else
    /// green.
    pub fn accent(&self) -> (r: Ink)
        requires
            self@.wf(),
        ensures
            r == if self@.total() > 0 {
                Ink::Red
            } else if self@.cancelled {
                Ink::Amber
            } else {
                Ink::Green
            },
    {
        if self.total_problems() > 0 {
            Ink::Red
        } else if self.cancelled {
            Ink::Amber
        } else {
            Ink::Green
        }
    }

    /// The fixed lines of the panel that shows a report.
    pub fn panel(&self) -> (r: ReportPanel)
        requires
            self@.wf(),
        ensures
            r.heading@ == if self@.complete() {
                "RUN COMPLETE"@
            } else {
                "RUN INCOMPLETE"@
            },
            (r.cancelled is Some) == self@.cancelled,
            r.cancelled matches Some(s) ==> s@
                == "Cancelled before it finished — what is listed above is all that was done."@,
            (r.problems is Some) == (self@.total() > 0),
            r.problems matches Some(s) ==> s@ == dec(self@.total() as nat) + " PROBLEM(S)"@,
            (r.more is Some) == (self@.problems_dropped > 0),
            r.more matches Some(s) ==> s@ == "…and "@ + dec(self@.problems_dropped as nat)
                + " more (see the session log for the full list)."@,
    {
        let heading = if self.complete() {
            "RUN COMPLETE"
        } else {
            "RUN INCOMPLETE"
        };
        let cancelled = if self.cancelled {
            Some("Cancelled before it finished — what is listed above is all that was done.")
        } else {
            None
        };
        let problems = if self.total_problems() > 0 {
            let mut s = crate::text::decimal(self.total_problems() as u128);
            s.append(" PROBLEM(S)");
            Some(s)
        } else {
            None
        };
        let more = if self.problems_dropped > 0 {
            let mut s = "…and ".to_string();
            push_decimal(&mut s, self.problems_dropped as u128);
            s.append(" more (see the session log for the full list).");
            Some(s)
        } else {
            None
        };
        ReportPanel { heading, cancelled, problems, more }
    }
}

/// The fixed lines of the panel that shows a report.
pub struct ReportPanel {
    pub heading: &'static str,
    pub cancelled: Option<&'static str>,
    pub problems: Option<String>,
    pub more: Option<String>,
}

/// Holds the report until the user dismisses it.
pub struct ResultModal {
    pub report: Option<RunReport>,
}

impl Default for ResultModal {
    fn default() -> (r: Self)
        ensures
            r.report is None,
    {
        ResultModal { report: None }
    }
}

impl ResultModal {
    /// Shows a report.
    pub fn open(&mut self, report: RunReport)
        ensures
            final(self).report == Some(report),
    {
        self.report = Some(report);
    }

    /// Dismisses the report.
    pub fn close(&mut self)
        ensures
            final(self).report is None,
    {
        self.report = None;
    }

    /// Whether a report is on screen.
    pub fn is_open(&self) -> (r: bool)
        ensures
            r == (self.report is Some),
    {
        self.report.is_some()
    }
}

/// Failures are listed in the order they came, the first [`MAX_PROBLEMS`] of them,
/// and those past the cap are counted; the rest of the report stays.
pub proof fn law_problems_are_listed_in_order(m: ReportModel, ps: Texts)
    requires
        m.wf(),
        m.total() + ps.len() <= u64::MAX,
    ensures
        ({
            let r = m.with_problems(ps);
            let all = m.problems + ps;
            let listed = if all.len() < MAX_PROBLEMS {
                all.len() as int
            } else {
                MAX_PROBLEMS as int
            };
            &&& r.problems == all.take(listed)
            &&& r.problems_dropped == m.problems_dropped + (all.len() - listed)
            &&& r.title == m.title
            &&& r.counts == m.counts
            &&& r.notes == m.notes
            &&& r.cancelled == m.cancelled
        }),
    decreases ps.len(),
{
    let all = m.problems + ps;
    if ps.len() > 0 {
        let part = ps.drop_last();
        law_problems_are_listed_in_order(m, part);
        assert(all.drop_last() =~= m.problems + part);
        if all.len() <= MAX_PROBLEMS {
            assert((m.problems + part).take((m.problems + part).len() as int) =~= m.problems
                + part);
            assert(all.take(all.len() as int) =~= (m.problems + part).push(ps.last()));
        } else {
            assert((m.problems + part).take(MAX_PROBLEMS as int) =~= all.take(
                MAX_PROBLEMS as int,
            ));
        }
    } else {
        assert(all.take(all.len() as int) =~= m.problems);
    }
}

/// The headline says "done" exactly of a run that was not cancelled and had no
/// failure, and otherwise says which of the two it was; the totals are in it either
/// way.
pub proof fn law_the_headline_tells_how_it_ended(m: ReportModel)
    ensures
        !m.cancelled && m.total() == 0 ==> m.headline() == m.title + " done: "@ + m.counts_text()
            + "."@,
        m.cancelled && m.total() <= 0 ==> m.headline() == m.title + " incomplete — "@
            + m.counts_text() + "; "@ + "cancelled"@ + "."@,
        !m.cancelled && m.total() > 0 ==> m.headline() == m.title + " incomplete — "@
            + m.counts_text() + "; "@ + (dec(m.total() as nat) + " problem(s)"@) + "."@,
        m.cancelled && m.total() > 0 ==> m.headline() == m.title + " incomplete — "@
            + m.counts_text() + "; "@ + ("cancelled"@ + ", "@ + (dec(m.total() as nat)
            + " problem(s)"@)) + "."@,
        m.total() == m.problems.len() + m.problems_dropped,
{
    let p = dec(m.total() as nat) + " problem(s)"@;
    let c = "cancelled"@;
    if m.cancelled && m.total() > 0 {
        assert(m.reasons() =~= seq![c] + seq![p]);
        crate::text::law_joining_puts_the_separator_between(c, seq![p], ", "@);
        assert(joined(seq![p], ", "@) == p);
    } else if m.cancelled {
        assert(m.reasons() =~= seq![c]);
    } else if m.total() > 0 {
        assert(m.reasons() =~= seq![p]);
    }
}

/// A total is written as its label and its value.
pub proof fn law_totals_are_written_out(
    m: ReportModel,
    label: Seq<char>,
    value: u64,
    more: Seq<char>,
    other: u64,
)
    requires
        m.counts.len() == 0,
    ensures
        m.counts_text().len() == 0,
        m.with_count(label, value).counts_text() == label + " "@ + dec(value as nat),
        m.with_count(label, value).with_count(more, other).counts_text() == label + " "@ + dec(
            value as nat,
        ) + ", "@ + (more + " "@ + dec(other as nat)),
        m.with_count(label, value).problems == m.problems,
        m.with_count(label, value).cancelled == m.cancelled,
        m.with_note(more).notes == m.notes.push(more),
        m.with_note(more).counts == m.counts,
{
    let a = label + " "@ + dec(value as nat);
    let b = more + " "@ + dec(other as nat);
    let one = m.with_count(label, value);
    let two = one.with_count(more, other);
    assert(count_texts(m.counts) =~= Seq::empty());
    assert(count_texts(one.counts) =~= seq![a]);
    assert(count_texts(two.counts) =~= seq![a] + seq![b]);
    crate::text::law_joining_puts_the_separator_between(a, seq![b], ", "@);
}

/// Failures of which only the number is known count as much as listed ones, and one
/// more failure counts one.
pub proof fn law_unlisted_failures_count(m: ReportModel, n: u64, problem: Seq<char>)
    requires
        m.wf(),
        m.total() + n < u64::MAX,
    ensures
        m.with_unlisted(n).total() == m.total() + n,
        m.with_unlisted(n).problems == m.problems,
        m.with_problem(problem).total() == m.total() + 1,
        m.problems.len() < MAX_PROBLEMS ==> m.with_problem(problem).problems == m.problems.push(
            problem,
        ),
        m.problems.len() >= MAX_PROBLEMS ==> m.with_problem(problem).problems == m.problems,
{
}

/// A new report has its title and nothing else.
pub proof fn law_a_new_report_has_its_title(title: Seq<char>)
    ensures
        ({
            let m = ReportModel::titled(title);
            &&& m.title == title
            &&& m.counts.len() == 0 && m.problems.len() == 0 && m.notes.len() == 0
            &&& m.problems_dropped == 0 && !m.cancelled
            &&& m.complete()
        }),
{
}

/// What a report's contents say is what its fields hold.
pub proof fn law_the_model_holds_the_fields(r: RunReport)
    ensures
        r@.title == r.title@,
        r@.problems == views(r.problems@),
        r@.problems_dropped == r.problems_dropped,
        r@.notes == views(r.notes@),
        r@.cancelled == r.cancelled,
        r@.counts.len() == r.counts@.len(),
        forall|i: int|
            0 <= i < r.counts@.len() ==> #[trigger] r@.counts[i] == (
                r.counts@[i].0@,
                r.counts@[i].1,
            ),
{
}

} // verus!
