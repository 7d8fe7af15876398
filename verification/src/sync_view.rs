//! The backup groups' tab: its state, the plan of a push, the question before it
//! and the report after it. Work on disk is asked for as an [`Effect`].

use vstd::prelude::*;
use vstd::string::*;

use crate::filter_ui::{copy_list, opt_view};
use crate::lists::{lemma_picks_last, lemma_picks_nothing, picks};
use crate::media_cell::FileFacts;
use crate::naming::is_taken;
use crate::recent::Texts;
use crate::review::{
    sort, sorted_by, BoardView, ReviewModel, ReviewRow, ReviewState, RowControls, SideStatus,
    PREVIEW_CAP,
};
use crate::row_keys::KeySet;
use crate::run_result::{ReportModel, ResultModal, RunReport, MAX_PROBLEMS};
use crate::text::{copy, copy_opt, dec, join, joined, push_decimal, same_text, trim, trimmed, views};
use crate::theme::Ink;

verus! {

/// How a group is pushed.
#[derive(Clone, Copy, Debug, PartialEq, Eq, Structural)]
pub enum SyncMode {
    /// Copy what a sink lacks, never delete.
    AddOnly,
    /// Also delete what the main does not have.
    Mirror,
}

/// A backup group: a main repository and those it is pushed to.
#[derive(Debug)]
pub struct SyncGroup {
    pub main: String,
    pub sinks: Vec<String>,
    pub mode: SyncMode,
}

/// A group's contents.
#[verifier::ext_equal]
pub struct GroupModel {
    pub main: Seq<char>,
    pub sinks: Texts,
    pub mode: SyncMode,
}

impl View for SyncGroup {
    type V = GroupModel;

    open spec fn view(&self) -> GroupModel {
        GroupModel { main: self.main@, sinks: views(self.sinks@), mode: self.mode }
    }
}

impl GroupModel {
    /// A repository belongs to the group.
    pub open spec fn has_member(self, repo: Seq<char>) -> bool {
        self.main == repo || self.sinks.contains(repo)
    }
}

impl SyncGroup {
    /// Whether a repository belongs to the group.
    pub fn has_member(&self, repo: &String) -> (r: bool)
        ensures
            r == self@.has_member(repo@),
    {
        same_text(self.main.as_str(), repo.as_str()) || is_taken(&self.sinks, repo)
    }

    /// The same group again.
    pub fn copy(&self) -> (r: Self)
        ensures
            r@ == self@,
    {
        SyncGroup { main: self.main.clone(), sinks: copy_list(&self.sinks), mode: self.mode }
    }
}

/// What a push would do to one sink.
pub struct SinkPlan {
    pub sink: String,
    pub copies: Vec<String>,
    pub deletes: Vec<String>,
    /// How many files the sink holds now.
    pub live: u64,
}

/// The plan of a push.
pub struct PreviewOutcome {
    /// The group that the plan is for.
    pub group_name: String,
    pub group: SyncGroup,
    pub rows: Vec<ReviewRow>,
    pub added: usize,
    pub removed: usize,
    pub sink_count: usize,
    pub main_header: String,
    /// The sinks that the plan would empty of what they hold now, and how much
    /// that is.
    pub wholesale_sinks: Vec<(String, u64)>,
}

/// What a row of the plan says: the status, the path and the facts of each side.
pub struct PlanLine {
    pub source: SideStatus,
    pub target: SideStatus,
    pub source_path: Seq<char>,
    pub target_path: Seq<char>,
    pub source_facts: Option<FileFacts>,
    pub target_facts: Option<FileFacts>,
}

/// The line of a copy.
pub open spec fn copy_line(sink: Seq<char>, path: Seq<char>) -> PlanLine {
    PlanLine {
        source: SideStatus::Unchanged,
        target: SideStatus::Added,
        source_path: path,
        target_path: sink + ": "@ + path,
        source_facts: None,
        target_facts: None,
    }
}

/// The line of a deletion.
pub open spec fn delete_line(sink: Seq<char>, path: Seq<char>) -> PlanLine {
    PlanLine {
        source: SideStatus::Absent,
        target: SideStatus::Removed,
        source_path: Seq::empty(),
        target_path: sink + ": "@ + path,
        source_facts: None,
        target_facts: None,
    }
}

/// What each row of a list says.
pub open spec fn lines_of(rows: Seq<ReviewRow>) -> Seq<PlanLine> {
    Seq::new(
        rows.len(),
        |i: int|
            PlanLine {
                source: rows[i].source,
                target: rows[i].target,
                source_path: rows[i].source_path@,
                target_path: rows[i].target_path@,
                source_facts: rows[i].source_facts,
                target_facts: rows[i].target_facts,
            },
    )
}

/// The lines of one sink: its copies, then its deletions.
pub open spec fn sink_lines(plan: SinkPlan) -> Seq<PlanLine> {
    Seq::new(plan.copies@.len(), |i: int| copy_line(plan.sink@, plan.copies@[i]@)) + Seq::new(
        plan.deletes@.len(),
        |i: int| delete_line(plan.sink@, plan.deletes@[i]@),
    )
}

/// The lines of a push, sink by sink.
pub open spec fn push_lines(plans: Seq<SinkPlan>) -> Seq<PlanLine>
    decreases plans.len(),
{
    if plans.len() == 0 {
        Seq::empty()
    } else {
        push_lines(plans.drop_last()) + sink_lines(plans.last())
    }
}

/// At most as many lines as a preview holds.
pub open spec fn first_lines(lines: Seq<PlanLine>) -> Seq<PlanLine> {
    if lines.len() <= PREVIEW_CAP {
        lines
    } else {
        lines.take(PREVIEW_CAP as int)
    }
}

/// How many files a push copies.
pub open spec fn copy_count(plans: Seq<SinkPlan>) -> nat
    decreases plans.len(),
{
    if plans.len() == 0 {
        0
    } else {
        copy_count(plans.drop_last()) + plans.last().copies@.len()
    }
}

/// How many files a push deletes.
pub open spec fn delete_count(plans: Seq<SinkPlan>) -> nat
    decreases plans.len(),
{
    if plans.len() == 0 {
        0
    } else {
        delete_count(plans.drop_last()) + plans.last().deletes@.len()
    }
}

/// The plan deletes all that the sink holds now.
pub open spec fn wholesale(plan: SinkPlan) -> bool {
    plan.live > 0 && plan.deletes@.len() >= plan.live
}

/// The sinks that are replaced wholesale, and how much they hold.
pub open spec fn wholesale_of(plans: Seq<SinkPlan>) -> Seq<(Seq<char>, u64)>
    decreases plans.len(),
{
    if plans.len() == 0 {
        Seq::empty()
    } else if wholesale(plans.last()) {
        wholesale_of(plans.drop_last()).push((plans.last().sink@, plans.last().live))
    } else {
        wholesale_of(plans.drop_last())
    }
}

fn push_row(rows: &mut Vec<ReviewRow>, copied: bool, sink: &str, path: &String)
    requires
        old(rows)@.len() <= PREVIEW_CAP,
    ensures
        final(rows)@.len() <= PREVIEW_CAP,
        lines_of(final(rows)@) == if old(rows)@.len() < PREVIEW_CAP {
            lines_of(old(rows)@).push(
                if copied {
                    copy_line(sink@, path@)
                } else {
                    delete_line(sink@, path@)
                },
            )
        } else {
            lines_of(old(rows)@)
        },
{
    if rows.len() >= PREVIEW_CAP {
        return;
    }
    let ghost was = rows@;
    let mut target_path = copy(sink);
    target_path.append(": ");
    target_path.append(path.as_str());
    let row = if copied {
        ReviewRow {
            source: SideStatus::Unchanged,
            target: SideStatus::Added,
            source_path: path.clone(),
            target_path,
            source_facts: None,
            target_facts: None,
        }
    } else {
        ReviewRow {
            source: SideStatus::Absent,
            target: SideStatus::Removed,
            source_path: String::new(),
            target_path,
            source_facts: None,
            target_facts: None,
        }
    };
    rows.push(row);
    assert(lines_of(rows@) =~= lines_of(was).push(
        if copied {
            copy_line(sink@, path@)
        } else {
            delete_line(sink@, path@)
        },
    ));
}

/// The lines of one kind of change to one sink.
pub open spec fn kind_lines(copied: bool, sink: Seq<char>, paths: Texts) -> Seq<PlanLine> {
    Seq::new(
        paths.len(),
        |i: int|
            if copied {
                copy_line(sink, paths[i])
            } else {
                delete_line(sink, paths[i])
            },
    )
}

fn push_rows(
    rows: &mut Vec<ReviewRow>,
    copied: bool,
    sink: &str,
    paths: &Vec<String>,
    so_far: Ghost<Seq<PlanLine>>,
)
    requires
        lines_of(old(rows)@) == first_lines(so_far@),
    ensures
        lines_of(final(rows)@) == first_lines(
            so_far@ + kind_lines(copied, sink@, views(paths@)),
        ),
{
    let ghost before = so_far@;
    let ghost more = kind_lines(copied, sink@, views(paths@));
    let mut i: usize = 0;
    assert(before + more.take(0) =~= before);
    while i < paths.len()
        invariant
            i <= paths@.len(),
            more == kind_lines(copied, sink@, views(paths@)),
            lines_of(rows@) == first_lines(before + more.take(i as int)),
            lines_of(rows@).len() == rows@.len(),
        decreases paths@.len() - i,
    {
        let ghost was = lines_of(rows@);
        let ghost all = before + more.take(i as int);
        push_row(rows, copied, sink, &paths[i]);
        proof {
            let next = before + more.take(i + 1);
            assert(next =~= all.push(more[i as int]));
            if all.len() < PREVIEW_CAP {
                assert(lines_of(rows@) =~= first_lines(next));
            } else {
                assert(first_lines(next) =~= first_lines(all));
            }
        }
        i += 1;
    }
    assert(more.take(i as int) =~= more);
}

proof fn lemma_counts_grow(plans: Seq<SinkPlan>, n: int)
    requires
        0 <= n <= plans.len(),
    ensures
        copy_count(plans.take(n)) <= copy_count(plans),
        delete_count(plans.take(n)) <= delete_count(plans),
    decreases plans.len(),
{
    if n < plans.len() {
        lemma_counts_grow(plans.drop_last(), n);
        assert(plans.drop_last().take(n) =~= plans.take(n));
    } else {
        assert(plans.take(n) =~= plans);
    }
}

/// The plan of a push from what the core planned for each sink: every change as a
/// row, as far as the board holds them, and the counts of all of them. A failed
/// answer is passed on.
pub fn build_preview(
    planned: Result<Vec<SinkPlan>, String>,
    group_name: &str,
    group: &SyncGroup,
) -> (r: Result<PreviewOutcome, String>)
    requires
        planned matches Ok(plans) ==> copy_count(plans@) <= usize::MAX && delete_count(plans@)
            <= usize::MAX,
    ensures
        match planned {
            Err(e) => r == Err::<PreviewOutcome, String>(e),
            Ok(plans) => r matches Ok(out) && {
                &&& out.group_name@ == group_name@
                &&& out.group@ == group@
                &&& lines_of(out.rows@) == first_lines(push_lines(plans@))
                &&& out.added == copy_count(plans@)
                &&& out.removed == delete_count(plans@)
                &&& out.sink_count == plans@.len()
                &&& out.main_header@ == group.main@
                &&& crate::filter_ui::stats_view(out.wholesale_sinks@) == wholesale_of(plans@)
            },
        },
{
    let plans = match planned {
        Err(e) => return Err(e),
        Ok(plans) => plans,
    };
    let mut rows: Vec<ReviewRow> = Vec::new();
    let mut added: usize = 0;
    let mut removed: usize = 0;
    let mut wholesale_sinks: Vec<(String, u64)> = Vec::new();
    let mut i: usize = 0;
    assert(lines_of(rows@) =~= Seq::empty());
    assert(crate::filter_ui::stats_view(wholesale_sinks@) =~= Seq::empty());
    while i < plans.len()
        invariant
            i <= plans@.len(),
            copy_count(plans@) <= usize::MAX,
            delete_count(plans@) <= usize::MAX,
            lines_of(rows@) == first_lines(push_lines(plans@.take(i as int))),
            added == copy_count(plans@.take(i as int)),
            removed == delete_count(plans@.take(i as int)),
            crate::filter_ui::stats_view(wholesale_sinks@) == wholesale_of(plans@.take(i as int)),
        decreases plans@.len() - i,
    {
        let plan = &plans[i];
        let ghost before = push_lines(plans@.take(i as int));
        proof {
            assert(plans@.take(i + 1).drop_last() =~= plans@.take(i as int));
            assert(plans@.take(i + 1).last() == plans@[i as int]);
            lemma_counts_grow(plans@, i + 1);
        }
        if plan.live > 0 && plan.deletes.len() as u64 >= plan.live {
            let ghost was = wholesale_sinks@;
            wholesale_sinks.push((plan.sink.clone(), plan.live));
            assert(crate::filter_ui::stats_view(wholesale_sinks@)
                =~= crate::filter_ui::stats_view(was).push((plan.sink@, plan.live)));
        }
        added = added + plan.copies.len();
        removed = removed + plan.deletes.len();
        push_rows(&mut rows, true, plan.sink.as_str(), &plan.copies, Ghost(before));
        let ghost mid = before + kind_lines(true, plan.sink@, views(plan.copies@));
        push_rows(&mut rows, false, plan.sink.as_str(), &plan.deletes, Ghost(mid));
        proof {
            let copies = kind_lines(true, plan.sink@, views(plan.copies@));
            let deletes = kind_lines(false, plan.sink@, views(plan.deletes@));
            assert(copies + deletes =~= sink_lines(*plan));
            assert(before + copies + deletes =~= push_lines(plans@.take(i + 1)));
        }
        i += 1;
    }
    assert(plans@.take(i as int) =~= plans@);
    Ok(
        PreviewOutcome {
            group_name: copy(group_name),
            group: group.copy(),
            rows,
            added,
            removed,
            sink_count: plans.len(),
            main_header: group.main.clone(),
            wholesale_sinks,
        },
    )
}

/// Collects the failures of a push, file by file, up to [`MAX_PROBLEMS`].
#[derive(Debug)]
pub struct CollectProblems {
    pub problems: Vec<String>,
}

impl CollectProblems {
    /// No failure yet.
    pub fn new() -> (r: Self)
        ensures
            views(r.problems@) == Seq::<Seq<char>>::empty(),
    {
        let r = CollectProblems { problems: Vec::new() };
        assert(views(r.problems@) =~= Seq::empty());
        r
    }

    /// Takes in that a file failed.
    pub fn on_error(&mut self, path: &str, message: &str)
        ensures
            views(final(self).problems@) == if old(self).problems@.len() < MAX_PROBLEMS {
                views(old(self).problems@).push(path@ + ": "@ + message@)
            } else {
                views(old(self).problems@)
            },
    {
        if self.problems.len() < MAX_PROBLEMS {
            let ghost was = self.problems@;
            let mut line = copy(path);
            line.append(": ");
            line.append(message);
            let ghost text = line@;
            self.problems.push(line);
            assert(views(self.problems@) =~= views(was).push(text));
        }
    }
}

/// How the push to one sink ended.
pub enum SinkOutcome {
    Pushed { copied: u64, deleted: u64, errors: u64, cancelled: bool },
    Failed(String),
    /// The push was cancelled before this sink's turn.
    Skipped,
}

/// What the push to one sink gave.
pub struct SinkResult {
    pub sink: String,
    pub outcome: SinkOutcome,
}

/// How many files were copied to all sinks.
pub open spec fn all_copied(results: Seq<SinkResult>) -> nat
    decreases results.len(),
{
    if results.len() == 0 {
        0
    } else {
        all_copied(results.drop_last()) + match results.last().outcome {
            SinkOutcome::Pushed { copied, .. } => copied as nat,
            _ => 0,
        }
    }
}

/// How many files were deleted from all sinks.
pub open spec fn all_deleted(results: Seq<SinkResult>) -> nat
    decreases results.len(),
{
    if results.len() == 0 {
        0
    } else {
        all_deleted(results.drop_last()) + match results.last().outcome {
            SinkOutcome::Pushed { deleted, .. } => deleted as nat,
            _ => 0,
        }
    }
}

/// How many files failed on all sinks.
pub open spec fn all_errors(results: Seq<SinkResult>) -> nat
    decreases results.len(),
{
    if results.len() == 0 {
        0
    } else {
        all_errors(results.drop_last()) + match results.last().outcome {
            SinkOutcome::Pushed { errors, .. } => errors as nat,
            _ => 0,
        }
    }
}

/// The sinks whose push failed as a whole, and why.
pub open spec fn failures_of(results: Seq<SinkResult>) -> Texts
    decreases results.len(),
{
    if results.len() == 0 {
        Seq::empty()
    } else {
        let rest = failures_of(results.drop_last());
        match results.last().outcome {
            SinkOutcome::Failed(e) => rest.push(results.last().sink@ + ": "@ + e@),
            _ => rest,
        }
    }
}

/// The sinks that were never pushed.
pub open spec fn skipped_of(results: Seq<SinkResult>) -> Texts
    decreases results.len(),
{
    if results.len() == 0 {
        Seq::empty()
    } else {
        let rest = skipped_of(results.drop_last());
        match results.last().outcome {
            SinkOutcome::Skipped => rest.push(results.last().sink@),
            _ => rest,
        }
    }
}

/// The push was cut short.
pub open spec fn cut_short(results: Seq<SinkResult>) -> bool {
    exists|i: int|
        0 <= i < results.len() && (match #[trigger] results[i].outcome {
            SinkOutcome::Pushed { cancelled, .. } => cancelled,
            SinkOutcome::Failed(_) => false,
            SinkOutcome::Skipped => true,
        })
}

/// The report of a push: what was copied and deleted, whether it was cut short,
/// each file and each sink that failed, and the sinks that are now stale. Files
/// that failed beyond those that were collected are counted.
pub open spec fn push_report(
    name: Seq<char>,
    results: Seq<SinkResult>,
    problems: Texts,
) -> ReportModel {
    let base = ReportModel {
        cancelled: cut_short(results),
        ..ReportModel::titled("Sync group '"@ + name + "'"@).with_count(
            "copied"@,
            all_copied(results) as u64,
        ).with_count("deleted"@, all_deleted(results) as u64)
    }.with_problems(problems).with_problems(failures_of(results));
    let skipped = skipped_of(results);
    let noted = if skipped.len() > 0 {
        base.with_note(
            dec(skipped.len()) + " sink(s) were never pushed and are now stale: "@ + joined(
                skipped,
                ", "@,
            ),
        )
    } else {
        base
    };
    let counted = if all_errors(results) > noted.total() {
        noted.with_count("files that failed to copy"@, all_errors(results) as u64)
    } else {
        noted
    };
    if all_errors(results) > problems.len() {
        counted.with_unlisted((all_errors(results) - problems.len()) as u64)
    } else {
        counted
    }
}

/// What the pushes of all sinks add up to.
struct Tally {
    copied: u64,
    deleted: u64,
    errors: u64,
    cancelled: bool,
    failures: Vec<String>,
    skipped: Vec<String>,
}

spec fn tallies(t: Tally, results: Seq<SinkResult>) -> bool {
    &&& t.copied == all_copied(results)
    &&& t.deleted == all_deleted(results)
    &&& t.errors == all_errors(results)
    &&& t.cancelled == cut_short(results)
    &&& views(t.failures@) == failures_of(results)
    &&& views(t.skipped@) == skipped_of(results)
}

proof fn lemma_sums_grow(results: Seq<SinkResult>, n: int)
    requires
        0 <= n <= results.len(),
    ensures
        all_copied(results.take(n)) <= all_copied(results),
        all_deleted(results.take(n)) <= all_deleted(results),
        all_errors(results.take(n)) <= all_errors(results),
    decreases results.len(),
{
    if n < results.len() {
        lemma_sums_grow(results.drop_last(), n);
        assert(results.drop_last().take(n) =~= results.take(n));
    } else {
        assert(results.take(n) =~= results);
    }
}

proof fn lemma_cut_short(results: Seq<SinkResult>, n: int)
    requires
        0 <= n < results.len(),
    ensures
        cut_short(results.take(n + 1)) == (cut_short(results.take(n)) || (match results[n].outcome {
            SinkOutcome::Pushed { cancelled, .. } => cancelled,
            SinkOutcome::Failed(_) => false,
            SinkOutcome::Skipped => true,
        })),
{
    let a = results.take(n);
    let b = results.take(n + 1);
    assert(forall|i: int| 0 <= i < n ==> #[trigger] a[i] == b[i]);
    assert(b[n] == results[n]);
    if cut_short(a) {
        let i = choose|i: int|
            0 <= i < a.len() && (match #[trigger] a[i].outcome {
                SinkOutcome::Pushed { cancelled, .. } => cancelled,
                SinkOutcome::Failed(_) => false,
                SinkOutcome::Skipped => true,
            });
        assert(b[i] == a[i]);
        assert(b[i].outcome == a[i].outcome);
    }
    if cut_short(b) {
        let i = choose|i: int|
            0 <= i < b.len() && (match #[trigger] b[i].outcome {
                SinkOutcome::Pushed { cancelled, .. } => cancelled,
                SinkOutcome::Failed(_) => false,
                SinkOutcome::Skipped => true,
            });
        if i < n {
            assert(a[i].outcome == b[i].outcome);
        }
    }
}

fn tally(results: &Vec<SinkResult>) -> (r: Tally)
    requires
        all_copied(results@) <= u64::MAX,
        all_deleted(results@) <= u64::MAX,
        all_errors(results@) <= u64::MAX,
    ensures
        tallies(r, results@),
{
    let mut t = Tally {
        copied: 0,
        deleted: 0,
        errors: 0,
        cancelled: false,
        failures: Vec::new(),
        skipped: Vec::new(),
    };
    let mut i: usize = 0;
    assert(views(t.failures@) =~= Seq::empty());
    assert(views(t.skipped@) =~= Seq::empty());
    while i < results.len()
        invariant
            i <= results@.len(),
            all_copied(results@) <= u64::MAX,
            all_deleted(results@) <= u64::MAX,
            all_errors(results@) <= u64::MAX,
            tallies(t, results@.take(i as int)),
        decreases results@.len() - i,
    {
        let result = &results[i];
        proof {
            assert(results@.take(i + 1).drop_last() =~= results@.take(i as int));
            assert(results@.take(i + 1).last() == results@[i as int]);
            lemma_sums_grow(results@, i + 1);
            lemma_cut_short(results@, i as int);
        }
        match &result.outcome {
            SinkOutcome::Pushed { copied, deleted, errors, cancelled } => {
                t.copied = t.copied + *copied;
                t.deleted = t.deleted + *deleted;
                t.errors = t.errors + *errors;
                t.cancelled = t.cancelled || *cancelled;
            },
            SinkOutcome::Failed(e) => {
                let mut line = result.sink.clone();
                line.append(": ");
                line.append(e.as_str());
                let ghost was = t.failures@;
                let ghost text = line@;
                t.failures.push(line);
                assert(views(t.failures@) =~= views(was).push(text));
            },
            SinkOutcome::Skipped => {
                t.cancelled = true;
                let ghost was = t.skipped@;
                t.skipped.push(result.sink.clone());
                assert(views(t.skipped@) =~= views(was).push(result.sink@));
            },
        }
        i += 1;
    }
    assert(results@.take(i as int) =~= results@);
    t
}

/// The report of a finished push. `problems` are the files that failed, as far as
/// they were collected.
pub fn push_outcome(name: &str, results: &Vec<SinkResult>, problems: Vec<String>) -> (r: RunReport)
    requires
        all_copied(results@) <= u64::MAX,
        all_deleted(results@) <= u64::MAX,
        all_errors(results@) <= u64::MAX,
        problems@.len() + results@.len() <= u64::MAX,
        all_errors(results@) + results@.len() <= u64::MAX,
    ensures
        r@ == push_report(name@, results@, views(problems@)),
        r@.wf(),
{
    let collected: u64 = problems.len() as u64;
    let mut title = "Sync group '".to_string();
    title.append(name);
    title.append("'");
    let Tally { copied, deleted, errors, cancelled, failures, skipped } = tally(results);
    proof {
        lemma_failures(results@);
        let m = ReportModel {
            cancelled,
            ..ReportModel::titled(title@).with_count("copied"@, copied).with_count(
                "deleted"@,
                deleted,
            )
        };
        crate::run_result::lemma_problems_keep(m, views(problems@));
        crate::run_result::lemma_problems_keep(m.with_problems(views(problems@)), views(failures@));
    }
    let mut report = RunReport::new(title.as_str()).count("copied", copied).count(
        "deleted",
        deleted,
    ).cancelled(cancelled).problems(problems).problems(failures);
    if skipped.len() > 0 {
        let mut s = String::new();
        push_decimal(&mut s, skipped.len() as u128);
        s.append(" sink(s) were never pushed and are now stale: ");
        s.append(join(&skipped, ", ").as_str());
        assert(s@ =~= dec(views(skipped@).len())
            + " sink(s) were never pushed and are now stale: "@ + joined(
            views(skipped@),
            ", "@,
        ));
        report = report.note(s.as_str());
    }
    if errors > report.problem_count() {
        report = report.count("files that failed to copy", errors);
    }
    if errors > collected {
        report = report.unlisted(errors - collected);
    }
    report
}

proof fn lemma_failures(results: Seq<SinkResult>)
    ensures
        failures_of(results).len() <= results.len(),
    decreases results.len(),
{
    if results.len() > 0 {
        lemma_failures(results.drop_last());
    }
}

proof fn lemma_failed(results: Seq<SinkResult>, i: int)
    requires
        0 <= i < results.len(),
        results[i].outcome is Failed,
    ensures
        failures_of(results).len() > 0,
    decreases results.len(),
{
    if i < results.len() - 1 {
        assert(results.drop_last()[i] == results[i]);
        lemma_failed(results.drop_last(), i);
    }
}

/// A report counts every file and every sink that failed, whether or not the
/// failure was collected, and reads as done exactly where there was none and the
/// push was not cut short.
pub proof fn law_a_push_reads_done_only_when_it_was(
    name: Seq<char>,
    results: Seq<SinkResult>,
    problems: Texts,
)
    requires
        problems.len() + results.len() <= u64::MAX,
        all_errors(results) + results.len() <= u64::MAX,
    ensures
        push_report(name, results, problems).total() == failures_of(results).len() + if all_errors(
            results,
        ) > problems.len() {
            all_errors(results)
        } else {
            problems.len()
        },
        push_report(name, results, problems).complete() == {
            &&& problems.len() == 0
            &&& all_errors(results) == 0
            &&& failures_of(results).len() == 0
            &&& !cut_short(results)
        },
{
    lemma_failures(results);
    let m = ReportModel {
        cancelled: cut_short(results),
        ..ReportModel::titled("Sync group '"@ + name + "'"@).with_count(
            "copied"@,
            all_copied(results) as u64,
        ).with_count("deleted"@, all_deleted(results) as u64)
    };
    crate::run_result::lemma_problems_keep(m, problems);
    crate::run_result::lemma_problems_keep(m.with_problems(problems), failures_of(results));
}

/// A push that left out a sink, or failed on one, never reads as done.
pub proof fn law_an_unpushed_sink_is_never_silent(
    name: Seq<char>,
    results: Seq<SinkResult>,
    problems: Texts,
    i: int,
)
    requires
        0 <= i < results.len(),
        !(results[i].outcome is Pushed),
        problems.len() + results.len() <= u64::MAX,
        all_errors(results) + results.len() <= u64::MAX,
    ensures
        !push_report(name, results, problems).complete(),
{
    law_a_push_reads_done_only_when_it_was(name, results, problems);
    if results[i].outcome is Failed {
        lemma_failed(results, i);
    } else {
        assert(results[i].outcome is Skipped);
        assert(cut_short(results));
    }
}

/// The repositories and groups that the tab knows.
pub struct SyncKnown {
    pub loaded: bool,
    pub repos: Vec<String>,
    /// Every group, by name.
    pub groups: Vec<(String, SyncGroup)>,
}

/// The form of a new group.
pub struct NewGroup {
    pub name: String,
    pub main: Option<String>,
}

/// The plan on the board.
pub struct SyncShown {
    pub rows: Vec<ReviewRow>,
    /// Added, removed, unchanged.
    pub totals: [usize; 3],
    pub main_header: String,
    pub sink_header: String,
    /// The sinks that the plan replaces wholesale, and how much they hold.
    pub wholesale_sinks: Vec<(String, u64)>,
    /// The group that a confirmation is about.
    pub pending: Option<(String, SyncGroup)>,
}

/// What the tab says.
pub struct SyncWords {
    pub status: Option<String>,
    pub error: Option<String>,
    pub confirm: Option<String>,
}

/// The backup groups' tab.
pub struct SyncView {
    pub known: SyncKnown,
    /// The group whose details are shown.
    pub selected: Option<String>,
    pub form: NewGroup,
    pub shown: SyncShown,
    pub review: ReviewState,
    pub words: SyncWords,
    /// The report of the last push.
    pub result: ResultModal,
    pub running: bool,
    pub previewing: bool,
}

/// The contents of what the tab knows.
pub struct SyncKnownModel {
    pub loaded: bool,
    pub repos: Texts,
    pub groups: Seq<(Seq<char>, GroupModel)>,
}

/// The contents of the form.
pub struct NewGroupModel {
    pub name: Seq<char>,
    pub main: Option<Seq<char>>,
}

/// The contents of the board.
pub struct SyncShownModel {
    pub rows: Seq<ReviewRow>,
    pub totals: Seq<usize>,
    pub main_header: Seq<char>,
    pub sink_header: Seq<char>,
    pub wholesale_sinks: Seq<(Seq<char>, u64)>,
    pub pending: Option<(Seq<char>, GroupModel)>,
}

/// The contents of what the tab says.
pub struct SyncWordsModel {
    pub status: Option<Seq<char>>,
    pub error: Option<Seq<char>>,
    pub confirm: Option<Seq<char>>,
}

/// The tab's contents.
pub struct SyncModel {
    pub known: SyncKnownModel,
    pub selected: Option<Seq<char>>,
    pub form: NewGroupModel,
    pub shown: SyncShownModel,
    pub review: ReviewModel,
    pub words: SyncWordsModel,
    pub result: Option<RunReport>,
    pub running: bool,
    pub previewing: bool,
}

/// The contents of named groups.
pub open spec fn groups_view(groups: Seq<(String, SyncGroup)>) -> Seq<(Seq<char>, GroupModel)> {
    Seq::new(groups.len(), |i: int| (groups[i].0@, groups[i].1@))
}

/// The contents of an optional named group.
pub open spec fn pending_view(group: Option<(String, SyncGroup)>) -> Option<
    (Seq<char>, GroupModel),
> {
    match group {
        Some(g) => Some((g.0@, g.1@)),
        None => None,
    }
}

impl View for SyncKnown {
    type V = SyncKnownModel;

    open spec fn view(&self) -> SyncKnownModel {
        SyncKnownModel {
            loaded: self.loaded,
            repos: views(self.repos@),
            groups: groups_view(self.groups@),
        }
    }
}

impl View for NewGroup {
    type V = NewGroupModel;

    open spec fn view(&self) -> NewGroupModel {
        NewGroupModel { name: self.name@, main: opt_view(self.main) }
    }
}

impl View for SyncShown {
    type V = SyncShownModel;

    open spec fn view(&self) -> SyncShownModel {
        SyncShownModel {
            rows: self.rows@,
            totals: self.totals@,
            main_header: self.main_header@,
            sink_header: self.sink_header@,
            wholesale_sinks: crate::filter_ui::stats_view(self.wholesale_sinks@),
            pending: pending_view(self.pending),
        }
    }
}

impl View for SyncWords {
    type V = SyncWordsModel;

    open spec fn view(&self) -> SyncWordsModel {
        SyncWordsModel {
            status: opt_view(self.status),
            error: opt_view(self.error),
            confirm: opt_view(self.confirm),
        }
    }
}

impl View for SyncView {
    type V = SyncModel;

    open spec fn view(&self) -> SyncModel {
        SyncModel {
            known: self.known@,
            selected: opt_view(self.selected),
            form: self.form@,
            shown: self.shown@,
            review: self.review@,
            words: self.words@,
            result: self.result.report,
            running: self.running,
            previewing: self.previewing,
        }
    }
}

/// A click.
pub enum Act {
    Select(String),
    SetNewMain(String),
    CreateGroup,
    DeleteGroup(String),
    AddSink(String, String),
    RemoveSink(String, String),
    MakeMain(String, String),
    SetMode(String, SyncMode),
    Preview,
    Ask,
    Confirm,
    CancelConfirm,
    CancelRun,
}

/// A change of the groups' registry.
pub enum StoreOp {
    Create { name: String, main: String },
    Delete { name: String },
    AddSink { group: String, repo: String },
    RemoveSink { group: String, repo: String },
    MakeMain { group: String, repo: String },
    SetMode { group: String, mode: SyncMode },
}

/// What a click asks of the program around the tab.
pub enum Effect {
    Nothing,
    /// Read the repositories and groups again.
    Reload,
    /// Change the registry.
    Store(StoreOp),
    /// Plan a push; `confirm` asks once the plan is in.
    Plan { name: String, group: SyncGroup, confirm: bool },
    /// Push.
    Push { name: String, group: SyncGroup },
    /// Stop the push under way.
    CancelRun,
}

/// The contents of a change of the registry.
pub enum StoreOpModel {
    Create { name: Seq<char>, main: Seq<char> },
    Delete { name: Seq<char> },
    AddSink { group: Seq<char>, repo: Seq<char> },
    RemoveSink { group: Seq<char>, repo: Seq<char> },
    MakeMain { group: Seq<char>, repo: Seq<char> },
    SetMode { group: Seq<char>, mode: SyncMode },
}

/// The contents of an effect.
pub enum EffectModel {
    Nothing,
    Reload,
    Store(StoreOpModel),
    Plan { name: Seq<char>, group: GroupModel, confirm: bool },
    Push { name: Seq<char>, group: GroupModel },
    CancelRun,
}

impl View for StoreOp {
    type V = StoreOpModel;

    open spec fn view(&self) -> StoreOpModel {
        match self {
            StoreOp::Create { name, main } => StoreOpModel::Create { name: name@, main: main@ },
            StoreOp::Delete { name } => StoreOpModel::Delete { name: name@ },
            StoreOp::AddSink { group, repo } => StoreOpModel::AddSink {
                group: group@,
                repo: repo@,
            },
            StoreOp::RemoveSink { group, repo } => StoreOpModel::RemoveSink {
                group: group@,
                repo: repo@,
            },
            StoreOp::MakeMain { group, repo } => StoreOpModel::MakeMain {
                group: group@,
                repo: repo@,
            },
            StoreOp::SetMode { group, mode } => StoreOpModel::SetMode {
                group: group@,
                mode: *mode,
            },
        }
    }
}

impl View for Effect {
    type V = EffectModel;

    open spec fn view(&self) -> EffectModel {
        match self {
            Effect::Nothing => EffectModel::Nothing,
            Effect::Reload => EffectModel::Reload,
            Effect::Store(op) => EffectModel::Store(op@),
            Effect::Plan { name, group, confirm } => EffectModel::Plan {
                name: name@,
                group: group@,
                confirm: *confirm,
            },
            Effect::Push { name, group } => EffectModel::Push { name: name@, group: group@ },
            Effect::CancelRun => EffectModel::CancelRun,
        }
    }
}

/// The first group of a name.
pub open spec fn group_named(groups: Seq<(Seq<char>, GroupModel)>, name: Seq<char>) -> Option<
    GroupModel,
>
    decreases groups.len(),
{
    if groups.len() == 0 {
        None
    } else if groups[0].0 == name {
        Some(groups[0].1)
    } else {
        group_named(groups.drop_first(), name)
    }
}

/// A repository belongs to some group.
pub open spec fn grouped(groups: Seq<(Seq<char>, GroupModel)>, repo: Seq<char>) -> bool {
    exists|i: int| 0 <= i < groups.len() && #[trigger] groups[i].1.has_member(repo)
}

/// The repositories of a list that belong to no group.
pub open spec fn free_repos(repos: Texts, groups: Seq<(Seq<char>, GroupModel)>) -> Texts
    decreases repos.len(),
{
    if repos.len() == 0 {
        Seq::empty()
    } else if grouped(groups, repos.last()) {
        free_repos(repos.drop_last(), groups)
    } else {
        free_repos(repos.drop_last(), groups).push(repos.last())
    }
}

/// The sinks that are replaced wholesale, in words.
pub open spec fn wholesale_texts(sinks: Seq<(Seq<char>, u64)>) -> Texts {
    Seq::new(
        sinks.len(),
        |i: int| sinks[i].0 + " (all "@ + dec(sinks[i].1 as nat) + " of its files)"@,
    )
}

/// The question before a push: how much it copies, and how much it deletes where
/// it deletes; with a warning where nothing that a sink holds now survives.
pub open spec fn push_question(
    name: Seq<char>,
    group: GroupModel,
    totals: Seq<usize>,
    sinks: Seq<(Seq<char>, u64)>,
) -> Seq<char> {
    "Push '"@ + group.main + "' to "@ + dec(group.sinks.len()) + " sink(s) of group '"@ + name
        + "': copy "@ + dec(totals[0] as nat) + " file(s)"@ + (if group.mode == SyncMode::Mirror {
        " and DELETE "@ + dec(totals[1] as nat)
            + " file(s) from the sink(s), which cannot be undone"@
    } else {
        Seq::empty()
    }) + ". The main is never changed."@ + (if sinks.len() > 0 {
        "\n\nWARNING: this replaces the entire current contents of "@ + joined(
            wholesale_texts(sinks),
            ", "@,
        )
            + " with the main's content — nothing they hold today survives. If that is not what you expect, check the main is complete first."@
    } else {
        Seq::empty()
    })
}

impl SyncShownModel {
    /// An empty board.
    pub open spec fn nothing() -> SyncShownModel {
        SyncShownModel {
            rows: Seq::empty(),
            totals: seq![0, 0, 0],
            main_header: Seq::empty(),
            sink_header: Seq::empty(),
            wholesale_sinks: Seq::empty(),
            pending: None,
        }
    }
}

impl SyncShown {
    /// An empty board.
    pub fn nothing() -> (r: Self)
        ensures
            r@ == SyncShownModel::nothing(),
    {
        let r = SyncShown {
            rows: Vec::new(),
            totals: [0, 0, 0],
            main_header: String::new(),
            sink_header: String::new(),
            wholesale_sinks: Vec::new(),
            pending: None,
        };
        assert(r.totals@ =~= seq![0, 0, 0]);
        assert(r@.wholesale_sinks =~= Seq::empty());
        r
    }
}

impl SyncModel {
    /// The selected group, where it is known.
    pub open spec fn chosen(self) -> Option<(Seq<char>, GroupModel)> {
        match self.selected {
            None => None,
            Some(name) => match group_named(self.known.groups, name) {
                Some(g) => Some((name, g)),
                None => None,
            },
        }
    }

    /// The tab with its plan taken off the board.
    pub open spec fn cleared(self) -> SyncModel {
        SyncModel {
            shown: SyncShownModel::nothing(),
            review: ReviewModel { rejected: Set::empty(), ..self.review },
            ..self
        }
    }

    /// The tab with this status.
    pub open spec fn with_status(self, status: Seq<char>) -> SyncModel {
        SyncModel { words: SyncWordsModel { status: Some(status), ..self.words }, ..self }
    }

    /// The tab with this error, or none.
    pub open spec fn with_error(self, error: Option<Seq<char>>) -> SyncModel {
        SyncModel { words: SyncWordsModel { error, ..self.words }, ..self }
    }

    /// The tab with this question, or none.
    pub open spec fn with_confirm(self, confirm: Option<Seq<char>>) -> SyncModel {
        SyncModel { words: SyncWordsModel { confirm, ..self.words }, ..self }
    }

    /// The tab while a plan is made.
    pub open spec fn planning(self) -> SyncModel {
        match self.chosen() {
            None => self,
            Some(_) => SyncModel { previewing: true, ..self }.with_status("planning…"@),
        }
    }

    /// What planning asks for.
    pub open spec fn plan(self, confirm: bool) -> EffectModel {
        match self.chosen() {
            None => EffectModel::Nothing,
            Some((name, group)) => EffectModel::Plan { name, group, confirm },
        }
    }

    /// The tab while a push runs: the confirmed plan is taken off the board.
    pub open spec fn pushing(self) -> SyncModel {
        match self.shown.pending {
            None => self,
            Some((name, _)) => SyncModel {
                running: true,
                result: None,
                ..self
            }.with_status("syncing '"@ + name + "'…"@).cleared(),
        }
    }

    /// The tab after a click.
    pub open spec fn after(self, act: Act) -> SyncModel {
        match act {
            Act::Select(name) => SyncModel { selected: Some(name@), ..self }.cleared(),
            Act::SetNewMain(repo) => SyncModel {
                form: NewGroupModel { main: Some(repo@), ..self.form },
                ..self
            },
            Act::Preview => self.planning(),
            Act::Ask => self.planning(),
            Act::Confirm => self.with_confirm(None).pushing(),
            Act::CancelConfirm => SyncModel {
                shown: SyncShownModel { pending: None, ..self.shown },
                ..self
            }.with_confirm(None),
            _ => self,
        }
    }

    /// What a click asks for.
    pub open spec fn effect(self, act: Act) -> EffectModel {
        match act {
            Act::CreateGroup => match self.form.main {
                None => EffectModel::Reload,
                Some(main) => EffectModel::Store(
                    StoreOpModel::Create { name: trimmed(self.form.name), main },
                ),
            },
            Act::DeleteGroup(name) => EffectModel::Store(StoreOpModel::Delete { name: name@ }),
            Act::AddSink(group, repo) => EffectModel::Store(
                StoreOpModel::AddSink { group: group@, repo: repo@ },
            ),
            Act::RemoveSink(group, repo) => EffectModel::Store(
                StoreOpModel::RemoveSink { group: group@, repo: repo@ },
            ),
            Act::MakeMain(group, repo) => EffectModel::Store(
                StoreOpModel::MakeMain { group: group@, repo: repo@ },
            ),
            Act::SetMode(group, mode) => EffectModel::Store(
                StoreOpModel::SetMode { group: group@, mode },
            ),
            Act::Preview => self.plan(false),
            Act::Ask => self.plan(true),
            Act::Confirm => match self.shown.pending {
                None => EffectModel::Nothing,
                Some((name, group)) => EffectModel::Push { name, group },
            },
            Act::CancelRun => EffectModel::CancelRun,
            _ => EffectModel::Nothing,
        }
    }

    /// The tab after a change of the registry was tried.
    pub open spec fn after_store(self, op: StoreOpModel, reply: Result<(), String>) -> SyncModel {
        match reply {
            Err(e) => self.with_error(Some(e@)),
            Ok(_) => match op {
                StoreOpModel::Create { name, .. } => SyncModel {
                    form: NewGroupModel { name: Seq::empty(), main: None },
                    selected: Some(name),
                    ..self
                },
                StoreOpModel::Delete { .. } => SyncModel { selected: None, ..self }.cleared(),
                _ => self.cleared(),
            },
        }
    }

    /// The tab after the registry was read.
    pub open spec fn synced(
        self,
        repos: Texts,
        groups: Seq<(Seq<char>, GroupModel)>,
    ) -> SyncModel {
        let read = SyncModel {
            known: SyncKnownModel { loaded: true, repos, groups },
            ..self
        }.with_error(None);
        match self.selected {
            Some(name) => if group_named(groups, name) is None {
                SyncModel { selected: None, ..read }.cleared()
            } else {
                read
            },
            None => read,
        }
    }

    /// The tab with a finished plan on the board; `rows` are its rows, sorted.
    pub open spec fn showing(
        self,
        outcome: PreviewOutcome,
        rows: Seq<ReviewRow>,
        confirm: bool,
    ) -> SyncModel {
        let totals = seq![outcome.added, outcome.removed, 0usize];
        let sinks = crate::filter_ui::stats_view(outcome.wholesale_sinks@);
        let now = SyncModel {
            shown: SyncShownModel {
                rows,
                totals,
                main_header: outcome.main_header@,
                sink_header: "SINKS"@,
                wholesale_sinks: sinks,
                pending: if confirm {
                    Some((outcome.group_name@, outcome.group@))
                } else {
                    self.shown.pending
                },
            },
            ..self
        }.with_status(
            dec(outcome.added as nat) + " file(s) to copy, "@ + dec(outcome.removed as nat)
                + " to delete across "@ + dec(outcome.sink_count as nat) + " sink(s)."@,
        ).with_error(None);
        if confirm {
            now.with_confirm(
                Some(push_question(outcome.group_name@, outcome.group@, totals, sinks)),
            )
        } else {
            now
        }
    }
}

/// The modes that a group can be set to.
pub struct ModeButton {
    pub mode: SyncMode,
    pub label: &'static str,
    pub short: &'static str,
    pub verbose: &'static str,
    pub selected: bool,
    pub accent: Ink,
}

/// What the section of the selected group shows.
pub struct MembersPanel {
    pub title: String,
    pub main: String,
    pub sinks: Vec<String>,
    /// The repositories that can be taken in as sinks.
    pub candidates: Vec<String>,
    pub modes: Vec<ModeButton>,
    /// Said of a group with no sink.
    pub hint: Option<&'static str>,
}

/// The button of a mode: its words, its colour, and whether the group has it.
pub open spec fn is_mode_button(button: ModeButton, mode: SyncMode, current: SyncMode) -> bool {
    &&& button.mode == mode
    &&& button.selected == (mode == current)
    &&& match mode {
        SyncMode::AddOnly => {
            &&& button.label@ == "ADD ONLY"@
            &&& button.short@ == "Only copy, never delete"@
            &&& button.verbose@
                == "Copy content the sink lacks and never delete anything from it. A sink may keep files the main no longer has."@
            &&& button.accent == Ink::Green
        },
        SyncMode::Mirror => {
            &&& button.label@ == "MIRROR"@
            &&& button.short@ == "Make the sinks match the main exactly"@
            &&& button.verbose@
                == "Copy content the sink lacks AND delete sink content the main does not have, so each sink ends up holding exactly the main's content. Deletions cannot be undone."@
            &&& button.accent == Ink::Red
        },
    }
}

fn mode_button(mode: SyncMode, current: SyncMode) -> (r: ModeButton)
    ensures
        is_mode_button(r, mode, current),
{
    let selected = mode == current;
    match mode {
        SyncMode::AddOnly => ModeButton {
            mode,
            label: "ADD ONLY",
            short: "Only copy, never delete",
            verbose: "Copy content the sink lacks and never delete anything from it. A sink may keep files the main no longer has.",
            selected,
            accent: Ink::Green,
        },
        SyncMode::Mirror => ModeButton {
            mode,
            label: "MIRROR",
            short: "Make the sinks match the main exactly",
            verbose: "Copy content the sink lacks AND delete sink content the main does not have, so each sink ends up holding exactly the main's content. Deletions cannot be undone.",
            selected,
            accent: Ink::Red,
        },
    }
}

/// A message from work that was asked for.
pub enum Msg {
    /// A finished push, or why nothing was pushed at all.
    Done(Result<RunReport, String>),
    /// A finished plan.
    Preview { result: Result<PreviewOutcome, String>, confirm: bool },
}

fn wholesale_list(sinks: &Vec<(String, u64)>) -> (r: Vec<String>)
    ensures
        views(r@) == wholesale_texts(crate::filter_ui::stats_view(sinks@)),
{
    let ghost all = wholesale_texts(crate::filter_ui::stats_view(sinks@));
    let mut out: Vec<String> = Vec::new();
    let mut i: usize = 0;
    assert(views(out@) =~= all.take(0));
    while i < sinks.len()
        invariant
            i <= sinks@.len(),
            all == wholesale_texts(crate::filter_ui::stats_view(sinks@)),
            views(out@) == all.take(i as int),
        decreases sinks@.len() - i,
    {
        let ghost was = out@;
        let mut s = sinks[i].0.clone();
        s.append(" (all ");
        push_decimal(&mut s, sinks[i].1 as u128);
        s.append(" of its files)");
        let ghost text = s@;
        assert(text =~= all[i as int]);
        out.push(s);
        assert(views(out@) =~= views(was).push(text));
        i += 1;
        assert(views(out@) =~= all.take(i as int));
    }
    assert(all.take(i as int) =~= all);
    out
}

fn question(name: &str, group: &SyncGroup, totals: [usize; 3], sinks: &Vec<(String, u64)>) -> (r:
    String)
    ensures
        r@ == push_question(name@, group@, totals@, crate::filter_ui::stats_view(sinks@)),
{
    let mut s = "Push '".to_string();
    s.append(group.main.as_str());
    s.append("' to ");
    push_decimal(&mut s, group.sinks.len() as u128);
    s.append(" sink(s) of group '");
    s.append(name);
    s.append("': copy ");
    push_decimal(&mut s, totals[0] as u128);
    s.append(" file(s)");
    if group.mode == SyncMode::Mirror {
        s.append(" and DELETE ");
        push_decimal(&mut s, totals[1] as u128);
        s.append(" file(s) from the sink(s), which cannot be undone");
    }
    s.append(". The main is never changed.");
    if sinks.len() > 0 {
        s.append("\n\nWARNING: this replaces the entire current contents of ");
        s.append(join(&wholesale_list(sinks), ", ").as_str());
        s.append(
            " with the main's content — nothing they hold today survives. If that is not what you expect, check the main is complete first.",
        );
    }
    assert(views(group.sinks@).len() == group.sinks@.len());
    assert(s@ =~= push_question(
        name@,
        group@,
        totals@,
        crate::filter_ui::stats_view(sinks@),
    ));
    s
}

impl SyncView {
    /// The set of rejected rows holds no key twice.
    pub open spec fn wf(&self) -> bool {
        self.review.rejected.wf()
    }

    /// The tab as it opens.
    pub fn new() -> (r: Self)
        ensures
            r.wf(),
            r@ == (SyncModel {
                known: SyncKnownModel {
                    loaded: false,
                    repos: Seq::empty(),
                    groups: Seq::empty(),
                },
                selected: None,
                form: NewGroupModel { name: Seq::empty(), main: None },
                shown: SyncShownModel::nothing(),
                review: ReviewModel {
                    sort_col: crate::review::ReviewCol::Source,
                    sort_asc: true,
                    show_unchanged: false,
                    page: 0,
                    rejected: Set::empty(),
                },
                words: SyncWordsModel { status: None, error: None, confirm: None },
                result: None,
                running: false,
                previewing: false,
            }),
    {
        let r = SyncView {
            known: SyncKnown { loaded: false, repos: Vec::new(), groups: Vec::new() },
            selected: None,
            form: NewGroup { name: String::new(), main: None },
            shown: SyncShown::nothing(),
            review: ReviewState::default(),
            words: SyncWords { status: None, error: None, confirm: None },
            result: ResultModal::default(),
            running: false,
            previewing: false,
        };
        assert(r@.known.repos =~= Seq::empty());
        assert(r@.known.groups =~= Seq::empty());
        r
    }

    /// The repositories that belong to no group: the only ones a group can take in.
    pub fn ungrouped(&self) -> (r: Vec<String>)
        ensures
            views(r@) == free_repos(self@.known.repos, self@.known.groups),
    {
        let ghost all = self@.known.repos;
        let mut out: Vec<String> = Vec::new();
        let mut i: usize = 0;
        assert(views(out@) =~= Seq::empty());
        while i < self.known.repos.len()
            invariant
                i <= self.known.repos@.len(),
                all == views(self.known.repos@),
                views(out@) == free_repos(all.take(i as int), self@.known.groups),
            decreases self.known.repos@.len() - i,
        {
            let ghost was = out@;
            assert(all.take(i + 1).drop_last() =~= all.take(i as int));
            assert(all.take(i + 1).last() == self.known.repos@[i as int]@);
            if !self.is_grouped(&self.known.repos[i]) {
                out.push(self.known.repos[i].clone());
                assert(views(out@) =~= views(was).push(self.known.repos@[i as int]@));
            }
            i += 1;
        }
        assert(all.take(i as int) =~= all);
        out
    }

    fn is_grouped(&self, repo: &String) -> (r: bool)
        ensures
            r == grouped(self@.known.groups, repo@),
    {
        let ghost gs = self@.known.groups;
        let mut i: usize = 0;
        while i < self.known.groups.len()
            invariant
                i <= self.known.groups@.len(),
                gs == groups_view(self.known.groups@),
                forall|k: int| 0 <= k < i ==> !#[trigger] gs[k].1.has_member(repo@),
            decreases self.known.groups@.len() - i,
        {
            if self.known.groups[i].1.has_member(repo) {
                assert(gs[i as int].1.has_member(repo@));
                return true;
            }
            i += 1;
        }
        false
    }

    fn find_group(&self, name: &String) -> (r: Option<usize>)
        ensures
            match r {
                Some(i) => i < self.known.groups@.len() && group_named(self@.known.groups, name@)
                    == Some(self.known.groups@[i as int].1@) && self.known.groups@[i as int].0@
                    == name@,
                None => group_named(self@.known.groups, name@) is None,
            },
    {
        let ghost gs = self@.known.groups;
        let mut i: usize = 0;
        assert(gs.skip(0) =~= gs);
        while i < self.known.groups.len()
            invariant
                i <= self.known.groups@.len(),
                gs == groups_view(self.known.groups@),
                group_named(gs, name@) == group_named(gs.skip(i as int), name@),
            decreases self.known.groups@.len() - i,
        {
            assert(gs.skip(i as int).drop_first() =~= gs.skip(i + 1));
            assert(gs.skip(i as int)[0] == gs[i as int]);
            if self.known.groups[i].0 == *name {
                return Some(i);
            }
            i += 1;
        }
        None
    }

    /// The selected group, where it is known.
    pub fn selected_group(&self) -> (r: Option<(String, SyncGroup)>)
        ensures
            pending_view(r) == self@.chosen(),
    {
        match &self.selected {
            None => None,
            Some(name) => match self.find_group(name) {
                None => None,
                Some(i) => Some((name.clone(), self.known.groups[i].1.copy())),
            },
        }
    }

    /// Whether a push of the selected group can be planned.
    pub fn can_push(&self) -> (r: bool)
        ensures
            r == (!self@.running && !self@.previewing && (self@.chosen() matches Some((_, g))
                && g.sinks.len() > 0)),
    {
        if self.running || self.previewing {
            return false;
        }
        match self.selected_group() {
            None => false,
            Some((_, group)) => {
                assert(group@.sinks.len() == group.sinks@.len());
                group.sinks.len() > 0
            },
        }
    }

    /// Whether the form of a new group is filled in.
    pub fn form_ready(&self) -> (r: bool)
        ensures
            r == (trimmed(self@.form.name).len() > 0 && self@.form.main is Some),
    {
        !trim(self.form.name.as_str()).as_str().is_empty() && self.form.main.is_some()
    }

    /// The colour of the button that confirms a push: red where the selected group
    /// deletes.
    pub fn confirm_ink(&self) -> (r: Ink)
        ensures
            r == if self@.chosen() matches Some((_, g)) && g.mode == SyncMode::Mirror {
                Ink::Red
            } else {
                Ink::Amber
            },
    {
        match self.selected_group() {
            Some((_, group)) => if group.mode == SyncMode::Mirror {
                Ink::Red
            } else {
                Ink::Amber
            },
            None => Ink::Amber,
        }
    }

    /// What the section of a group shows.
    pub fn members_section(&self, name: &str, group: &SyncGroup) -> (r: MembersPanel)
        ensures
            r.title@ == name@ + " — MAIN, SINKS & MODE"@,
            r.main@ == group@.main,
            views(r.sinks@) == group@.sinks,
            views(r.candidates@) == free_repos(self@.known.repos, self@.known.groups),
            r.modes@.len() == 2,
            is_mode_button(r.modes@[0], SyncMode::AddOnly, group@.mode),
            is_mode_button(r.modes@[1], SyncMode::Mirror, group@.mode),
            (r.hint is Some) == (group@.sinks.len() == 0),
            r.hint matches Some(h) ==> h@
                == "Add at least one sink — a group with no sink has nothing to push to."@,
    {
        let mut title = copy(name);
        title.append(" — MAIN, SINKS & MODE");
        let mut modes: Vec<ModeButton> = Vec::new();
        modes.push(mode_button(SyncMode::AddOnly, group.mode));
        modes.push(mode_button(SyncMode::Mirror, group.mode));
        assert(group@.sinks.len() == group.sinks@.len());
        let hint = if group.sinks.len() == 0 {
            Some("Add at least one sink — a group with no sink has nothing to push to.")
        } else {
            None
        };
        MembersPanel {
            title,
            main: group.main.clone(),
            sinks: copy_list(&group.sinks),
            candidates: self.ungrouped(),
            modes,
            hint,
        }
    }

    /// Takes the plan off the board.
    pub fn clear_preview(&mut self)
        ensures
            final(self).wf(),
            final(self)@ == old(self)@.cleared(),
    {
        self.shown = SyncShown::nothing();
        self.review.rejected = KeySet::new();
    }

    /// Takes in the repositories and groups of the registry.
    pub fn sync_repos(&mut self, read: Result<(Vec<String>, Vec<(String, SyncGroup)>), String>)
        ensures
            old(self).wf() ==> final(self).wf(),
            final(self)@ == (match read {
                Err(e) => old(self)@.with_error(Some(e@)),
                Ok((repos, groups)) => old(self)@.synced(views(repos@), groups_view(groups@)),
            }),
    {
        match read {
            Err(e) => {
                self.words.error = Some(e);
            },
            Ok((repos, groups)) => {
                self.known = SyncKnown { loaded: true, repos, groups };
                self.words.error = None;
                let gone = match &self.selected {
                    Some(name) => self.find_group(name).is_none(),
                    None => false,
                };
                if gone {
                    self.selected = None;
                    self.clear_preview();
                }
            },
        }
    }

    fn begin_plan(&mut self, confirm: bool) -> (r: Effect)
        ensures
            old(self).wf() ==> final(self).wf(),
            final(self)@ == old(self)@.planning(),
            r@ == old(self)@.plan(confirm),
    {
        match self.selected_group() {
            None => Effect::Nothing,
            Some((name, group)) => {
                self.previewing = true;
                self.words.status = Some("planning…".to_string());
                Effect::Plan { name, group, confirm }
            },
        }
    }

    /// Begins the push that was confirmed: of the group that was planned, not of
    /// the one that is selected.
    fn start(&mut self) -> (r: Effect)
        ensures
            old(self).wf() ==> final(self).wf(),
            final(self)@ == old(self)@.pushing(),
            r@ == (match old(self)@.shown.pending {
                None => EffectModel::Nothing,
                Some((name, group)) => EffectModel::Push { name, group },
            }),
    {
        match self.shown.pending.take() {
            None => Effect::Nothing,
            Some((name, group)) => {
                self.running = true;
                let mut s = "syncing '".to_string();
                s.append(name.as_str());
                s.append("'…");
                self.words.status = Some(s);
                self.result.close();
                self.clear_preview();
                Effect::Push { name, group }
            },
        }
    }

    /// Carries out a click.
    pub fn apply(&mut self, act: Act) -> (r: Effect)
        ensures
            old(self).wf() ==> final(self).wf(),
            final(self)@ == old(self)@.after(act),
            r@ == old(self)@.effect(act),
    {
        match act {
            Act::Select(name) => {
                self.selected = Some(name);
                self.clear_preview();
                Effect::Nothing
            },
            Act::SetNewMain(repo) => {
                self.form.main = Some(repo);
                Effect::Nothing
            },
            Act::CreateGroup => match copy_opt(&self.form.main) {
                None => Effect::Reload,
                Some(main) => Effect::Store(
                    StoreOp::Create { name: trim(self.form.name.as_str()), main },
                ),
            },
            Act::DeleteGroup(name) => Effect::Store(StoreOp::Delete { name }),
            Act::AddSink(group, repo) => Effect::Store(StoreOp::AddSink { group, repo }),
            Act::RemoveSink(group, repo) => Effect::Store(StoreOp::RemoveSink { group, repo }),
            Act::MakeMain(group, repo) => Effect::Store(StoreOp::MakeMain { group, repo }),
            Act::SetMode(group, mode) => Effect::Store(StoreOp::SetMode { group, mode }),
            Act::Preview => self.begin_plan(false),
            Act::Ask => self.begin_plan(true),
            Act::CancelConfirm => {
                self.words.confirm = None;
                self.shown.pending = None;
                Effect::Nothing
            },
            Act::Confirm => {
                self.words.confirm = None;
                self.start()
            },
            Act::CancelRun => Effect::CancelRun,
        }
    }

    /// Takes in how a change of the registry went. Returns whether the registry is
    /// to be read again.
    pub fn stored(&mut self, op: StoreOp, reply: Result<(), String>) -> (r: bool)
        ensures
            old(self).wf() ==> final(self).wf(),
            final(self)@ == old(self)@.after_store(op@, reply),
            r == (reply is Ok),
    {
        match reply {
            Err(e) => {
                self.words.error = Some(e);
                false
            },
            Ok(_) => {
                match op {
                    StoreOp::Create { name, .. } => {
                        self.form = NewGroup { name: String::new(), main: None };
                        self.selected = Some(name);
                    },
                    StoreOp::Delete { .. } => {
                        self.selected = None;
                        self.clear_preview();
                    },
                    _ => {
                        self.clear_preview();
                    },
                }
                true
            },
        }
    }

    /// Puts a finished plan on the board, sorted as the board is set; with
    /// `confirm`, asks now that the counts are known. What is asked about, and
    /// pushed on a yes, is the group that was planned.
    pub fn apply_preview(&mut self, result: Result<PreviewOutcome, String>, confirm: bool)
        ensures
            old(self).wf() ==> final(self).wf(),
            match result {
                Err(e) => final(self)@ == old(self)@.with_error(Some(e@)),
                Ok(outcome) => {
                    &&& final(self)@ == old(self)@.showing(
                        outcome,
                        final(self)@.shown.rows,
                        confirm,
                    )
                    &&& sorted_by(
                        outcome.rows@,
                        final(self)@.shown.rows,
                        old(self)@.review.sort_col,
                        old(self)@.review.sort_asc,
                    )
                },
            },
    {
        let outcome = match result {
            Err(e) => {
                self.words.error = Some(e);
                return;
            },
            Ok(outcome) => outcome,
        };
        let mut status = String::new();
        push_decimal(&mut status, outcome.added as u128);
        status.append(" file(s) to copy, ");
        push_decimal(&mut status, outcome.removed as u128);
        status.append(" to delete across ");
        push_decimal(&mut status, outcome.sink_count as u128);
        status.append(" sink(s).");
        assert(status@ =~= dec(outcome.added as nat) + " file(s) to copy, "@ + dec(
            outcome.removed as nat,
        ) + " to delete across "@ + dec(outcome.sink_count as nat) + " sink(s)."@);
        let totals: [usize; 3] = [outcome.added, outcome.removed, 0];
        assert(totals@ =~= seq![outcome.added, outcome.removed, 0usize]);
        let mut rows = outcome.rows;
        sort(&mut rows, &self.review);
        let prompt = if confirm {
            Some(
                question(
                    outcome.group_name.as_str(),
                    &outcome.group,
                    totals,
                    &outcome.wholesale_sinks,
                ),
            )
        } else {
            None
        };
        self.words.status = Some(status);
        self.words.error = None;
        let pending = if confirm {
            self.words.confirm = prompt;
            Some((outcome.group_name, outcome.group))
        } else {
            self.shown.pending.take()
        };
        self.shown = SyncShown {
            rows,
            totals,
            main_header: outcome.main_header,
            sink_header: "SINKS".to_string(),
            wholesale_sinks: outcome.wholesale_sinks,
            pending,
        };
    }

    /// Takes in a message.
    pub fn drain(&mut self, msg: Msg)
        requires
            msg matches Msg::Done(Ok(report)) ==> report@.wf(),
        ensures
            old(self).wf() ==> final(self).wf(),
            match msg {
                Msg::Preview { result: Err(e), .. } => final(self)@ == (SyncModel {
                    previewing: false,
                    ..old(self)@
                }).with_error(Some(e@)),
                Msg::Preview { result: Ok(outcome), confirm } => {
                    &&& final(self)@ == (SyncModel { previewing: false, ..old(self)@ }).showing(
                        outcome,
                        final(self)@.shown.rows,
                        confirm,
                    )
                    &&& sorted_by(
                        outcome.rows@,
                        final(self)@.shown.rows,
                        old(self)@.review.sort_col,
                        old(self)@.review.sort_asc,
                    )
                },
                Msg::Done(Err(e)) => final(self)@ == (SyncModel {
                    running: false,
                    ..old(self)@
                }).with_error(Some(e@)),
                Msg::Done(Ok(report)) => final(self)@ == (SyncModel {
                    running: false,
                    result: Some(report),
                    ..old(self)@
                }).with_status(report@.headline()).with_error(None),
            },
    {
        match msg {
            Msg::Preview { result, confirm } => {
                self.previewing = false;
                self.apply_preview(result, confirm);
            },
            Msg::Done(Ok(report)) => {
                self.running = false;
                self.words.status = Some(report.headline());
                self.words.error = None;
                self.result.open(report);
            },
            Msg::Done(Err(e)) => {
                self.running = false;
                self.words.error = Some(e);
            },
        }
    }

    /// The shape of the board: both sides, and no controls on the rows, since a
    /// push is all or nothing.
    pub fn board_view(&self) -> (r: BoardView)
        ensures
            r.totals@ == self@.shown.totals,
            r.source_header@ == self@.shown.main_header,
            r.target matches Some(t) && t@ == self@.shown.sink_header,
            r.controls == RowControls::ReadOnly,
    {
        BoardView {
            totals: self.shown.totals,
            source_header: self.shown.main_header.as_str(),
            target: Some(self.shown.sink_header.as_str()),
            controls: RowControls::ReadOnly,
        }
    }
}

/// A confirmed push acts on the group that was planned, whichever group is selected
/// when the answer comes.
pub proof fn law_a_push_acts_on_the_planned_group(
    m: SyncModel,
    outcome: PreviewOutcome,
    rows: Seq<ReviewRow>,
    selected: Option<Seq<char>>,
)
    ensures
        ({
            let asked = m.showing(outcome, rows, true);
            let moved = SyncModel { selected, ..asked };
            moved.effect(Act::Confirm) == EffectModel::Push {
                name: outcome.group_name@,
                group: outcome.group@,
            }
        }),
{
}

/// Selecting a group, or answering no, leaves nothing that could be pushed.
pub proof fn law_a_withdrawn_confirmation_pushes_nothing(m: SyncModel, name: String)
    ensures
        m.after(Act::CancelConfirm).effect(Act::Confirm) == EffectModel::Nothing,
        m.after(Act::Select(name)).effect(Act::Confirm) == EffectModel::Nothing,
{
}

/// The counts of a plan cover every change, listed or not.
pub proof fn law_counts_cover_the_whole_plan(plans: Seq<SinkPlan>)
    ensures
        push_lines(plans).len() == copy_count(plans) + delete_count(plans),
    decreases plans.len(),
{
    if plans.len() > 0 {
        law_counts_cover_the_whole_plan(plans.drop_last());
    }
}

/// A push that only adds never plans a deletion's row, where the core plans none.
pub proof fn law_no_deletion_is_invented(plans: Seq<SinkPlan>, i: int)
    requires
        delete_count(plans) == 0,
        0 <= i < push_lines(plans).len(),
    ensures
        push_lines(plans)[i].target == SideStatus::Added,
    decreases plans.len(),
{
    if plans.len() > 0 {
        let rest = push_lines(plans.drop_last());
        if i < rest.len() {
            law_no_deletion_is_invented(plans.drop_last(), i);
        }
    }
}

proof fn lemma_group_named(groups: Seq<(Seq<char>, GroupModel)>, name: Seq<char>) -> (i: int)
    ensures
        group_named(groups, name) matches Some(g) ==> {
            &&& 0 <= i < groups.len()
            &&& groups[i] == (name, g)
            &&& forall|k: int| 0 <= k < i ==> (#[trigger] groups[k]).0 != name
        },
        group_named(groups, name) is None ==> forall|k: int|
            0 <= k < groups.len() ==> (#[trigger] groups[k]).0 != name,
    decreases groups.len(),
{
    if groups.len() == 0 || groups[0].0 == name {
        0
    } else {
        let rest = groups.drop_first();
        let i = lemma_group_named(rest, name);
        if group_named(rest, name) is Some {
            assert(rest[i] == groups[i + 1]);
            assert forall|k: int| 0 <= k < i + 1 implies (#[trigger] groups[k]).0 != name by {
                if k > 0 {
                    assert(rest[k - 1] == groups[k]);
                }
            }
        } else {
            assert forall|k: int| 0 <= k < groups.len() implies (#[trigger] groups[k]).0
                != name by {
                if k > 0 {
                    assert(rest[k - 1] == groups[k]);
                }
            }
        }
        i + 1
    }
}

/// The selected group is a known one: its name is the selection, and the group is
/// the first that the registry has under that name. There is none exactly where
/// nothing is selected or the registry has no such name.
pub proof fn law_the_selected_group_is_the_one_of_that_name(m: SyncModel)
    ensures
        m.chosen() matches Some((name, g)) ==> m.selected == Some(name) && exists|i: int|
            {
                &&& 0 <= i < m.known.groups.len()
                &&& #[trigger] m.known.groups[i] == (name, g)
                &&& forall|k: int| 0 <= k < i ==> (#[trigger] m.known.groups[k]).0 != name
            },
        m.chosen() is None <==> (m.selected is None || forall|k: int|
            0 <= k < m.known.groups.len() ==> Some((#[trigger] m.known.groups[k]).0)
                != m.selected),
{
    if let Some(name) = m.selected {
        let i = lemma_group_named(m.known.groups, name);
        if group_named(m.known.groups, name) is Some {
            assert(m.known.groups[i].0 == name);
        }
    }
}

/// What is planned is the selected group, as the registry has it: asking first and
/// asking for a review plan the same group and differ in the question alone.
pub proof fn law_the_plan_is_of_the_selected_group(m: SyncModel)
    ensures
        m.effect(Act::Ask) matches EffectModel::Plan { name, group, confirm } ==> {
            &&& confirm
            &&& m.selected == Some(name)
            &&& m.known.groups.contains((name, group))
            &&& m.effect(Act::Preview) == (EffectModel::Plan { name, group, confirm: false })
        },
        m.effect(Act::Preview) matches EffectModel::Plan { name, group, confirm } ==> {
            &&& !confirm
            &&& m.selected == Some(name)
            &&& m.known.groups.contains((name, group))
        },
        (m.effect(Act::Ask) is Plan) == (exists|k: int|
            0 <= k < m.known.groups.len() && m.selected == Some((#[trigger] m.known.groups[k]).0)),
        !(m.effect(Act::Ask) is Plan) ==> m.effect(Act::Ask) is Nothing
            && m.effect(Act::Preview) is Nothing,
{
    law_the_selected_group_is_the_one_of_that_name(m);
    if let Some((name, g)) = m.chosen() {
        let i = choose|i: int|
            {
                &&& 0 <= i < m.known.groups.len()
                &&& #[trigger] m.known.groups[i] == (name, g)
                &&& forall|k: int| 0 <= k < i ==> (#[trigger] m.known.groups[k]).0 != name
            };
        assert(m.known.groups[i] == (name, g));
        assert(m.known.groups.contains((name, g)));
        assert(m.selected == Some(m.known.groups[i].0));
    }
}

proof fn lemma_lines_of_a_prefix(plans: Seq<SinkPlan>, n: int)
    requires
        0 <= n <= plans.len(),
    ensures
        push_lines(plans.take(n)).len() <= push_lines(plans).len(),
        push_lines(plans.take(n)) == push_lines(plans).take(push_lines(plans.take(n)).len() as int),
    decreases plans.len(),
{
    if n < plans.len() {
        let part = plans.drop_last();
        lemma_lines_of_a_prefix(part, n);
        assert(part.take(n) =~= plans.take(n));
        let len = push_lines(plans.take(n)).len() as int;
        assert(push_lines(part).take(len) =~= push_lines(plans).take(len));
    } else {
        assert(plans.take(n) =~= plans);
    }
}

/// Every change to every sink has its line, sink by sink, a sink's copies before its
/// deletions. A copy shows the file unchanged on the main and added to the sink, a
/// deletion shows nothing on the main and the file removed from the sink; both name
/// the sink.
pub proof fn law_every_change_has_its_line(plans: Seq<SinkPlan>, i: int, j: int) -> (at: int)
    requires
        0 <= i < plans.len(),
        0 <= j < plans[i].copies@.len() + plans[i].deletes@.len(),
    ensures
        at == push_lines(plans.take(i)).len() + j,
        0 <= at < push_lines(plans).len(),
        j < plans[i].copies@.len() ==> {
            let line = push_lines(plans)[at];
            &&& line.source == SideStatus::Unchanged
            &&& line.target == SideStatus::Added
            &&& line.source_path == plans[i].copies@[j]@
            &&& line.target_path == plans[i].sink@ + ": "@ + plans[i].copies@[j]@
        },
        j >= plans[i].copies@.len() ==> {
            let line = push_lines(plans)[at];
            let path = plans[i].deletes@[j - plans[i].copies@.len()]@;
            &&& line.source == SideStatus::Absent
            &&& line.target == SideStatus::Removed
            &&& line.source_path.len() == 0
            &&& line.target_path == plans[i].sink@ + ": "@ + path
        },
{
    let at = push_lines(plans.take(i)).len() + j;
    let upto = plans.take(i + 1);
    lemma_lines_of_a_prefix(plans, i + 1);
    assert(upto.drop_last() =~= plans.take(i));
    assert(upto.last() == plans[i]);
    assert(push_lines(upto) == push_lines(plans.take(i)) + sink_lines(plans[i]));
    assert(push_lines(upto)[at] == sink_lines(plans[i])[j]);
    assert(push_lines(plans).take(push_lines(upto).len() as int)[at] == push_lines(plans)[at]);
    at
}

/// What the board holds of a plan are its first lines, up to its cap.
pub proof fn law_the_board_shows_the_first_lines(lines: Seq<PlanLine>, k: int)
    ensures
        first_lines(lines).len() == if lines.len() < PREVIEW_CAP {
            lines.len() as int
        } else {
            PREVIEW_CAP as int
        },
        0 <= k < first_lines(lines).len() ==> first_lines(lines)[k] == lines[k],
{
}

/// Each sink adds its own copies and deletions to the counts.
pub proof fn law_counts_add_up(plans: Seq<SinkPlan>, plan: SinkPlan)
    ensures
        copy_count(Seq::empty()) == 0,
        delete_count(Seq::empty()) == 0,
        copy_count(plans.push(plan)) == copy_count(plans) + plan.copies@.len(),
        delete_count(plans.push(plan)) == delete_count(plans) + plan.deletes@.len(),
{
    assert(plans.push(plan).drop_last() =~= plans);
}

/// Each sink adds what was done to it to the totals of a push.
pub proof fn law_totals_add_up(results: Seq<SinkResult>, result: SinkResult)
    ensures
        all_copied(Seq::empty()) == 0,
        all_deleted(Seq::empty()) == 0,
        all_errors(Seq::empty()) == 0,
        result.outcome matches SinkOutcome::Pushed { copied, deleted, errors, cancelled } ==> {
            &&& all_copied(results.push(result)) == all_copied(results) + copied
            &&& all_deleted(results.push(result)) == all_deleted(results) + deleted
            &&& all_errors(results.push(result)) == all_errors(results) + errors
        },
        !(result.outcome is Pushed) ==> {
            &&& all_copied(results.push(result)) == all_copied(results)
            &&& all_deleted(results.push(result)) == all_deleted(results)
            &&& all_errors(results.push(result)) == all_errors(results)
        },
        cut_short(results.push(result)) == (cut_short(results) || (match result.outcome {
            SinkOutcome::Pushed { cancelled, .. } => cancelled,
            SinkOutcome::Failed(_) => false,
            SinkOutcome::Skipped => true,
        })),
        !cut_short(Seq::empty()),
{
    let all = results.push(result);
    assert(all.drop_last() =~= results);
    lemma_cut_short(all, results.len() as int);
    assert(all.take(results.len() as int) =~= results);
    assert(all.take(all.len() as int) =~= all);
}

/// Every sink that loses all it holds now is named with how much that is, in order,
/// and no other is.
pub proof fn law_wholesale_sinks_are_all_named(plans: Seq<SinkPlan>)
    ensures
        picks(
            plans,
            wholesale_of(plans),
            |p: SinkPlan| p.live > 0 && p.deletes@.len() >= p.live,
            |p: SinkPlan| (p.sink@, p.live),
        ),
    decreases plans.len(),
{
    let keep = |p: SinkPlan| p.live > 0 && p.deletes@.len() >= p.live;
    let give = |p: SinkPlan| (p.sink@, p.live);
    if plans.len() == 0 {
        lemma_picks_nothing(plans, wholesale_of(plans), keep, give);
    } else {
        let part = plans.drop_last();
        law_wholesale_sinks_are_all_named(part);
        lemma_picks_last(plans, wholesale_of(part), wholesale_of(plans), keep, give);
    }
}

/// Every sink whose push failed is named with the reason, in order, and no other.
pub proof fn law_every_failed_sink_is_named(results: Seq<SinkResult>)
    ensures
        picks(
            results,
            failures_of(results),
            |r: SinkResult| r.outcome is Failed,
            |r: SinkResult| r.sink@ + ": "@ + r.outcome->Failed_0@,
        ),
    decreases results.len(),
{
    let keep = |r: SinkResult| r.outcome is Failed;
    let give = |r: SinkResult| r.sink@ + ": "@ + r.outcome->Failed_0@;
    if results.len() == 0 {
        lemma_picks_nothing(results, failures_of(results), keep, give);
    } else {
        let part = results.drop_last();
        law_every_failed_sink_is_named(part);
        lemma_picks_last(results, failures_of(part), failures_of(results), keep, give);
    }
}

/// Every sink that was never pushed is named, in order, and no other.
pub proof fn law_every_skipped_sink_is_named(results: Seq<SinkResult>)
    ensures
        picks(
            results,
            skipped_of(results),
            |r: SinkResult| r.outcome is Skipped,
            |r: SinkResult| r.sink@,
        ),
    decreases results.len(),
{
    let keep = |r: SinkResult| r.outcome is Skipped;
    let give = |r: SinkResult| r.sink@;
    if results.len() == 0 {
        lemma_picks_nothing(results, skipped_of(results), keep, give);
    } else {
        let part = results.drop_last();
        law_every_skipped_sink_is_named(part);
        lemma_picks_last(results, skipped_of(part), skipped_of(results), keep, give);
    }
}

/// The repositories that can be taken into a group are, in order, those that are
/// neither the main nor a sink of any group.
pub proof fn law_free_repositories_are_in_no_group(
    repos: Seq<Seq<char>>,
    groups: Seq<(Seq<char>, GroupModel)>,
)
    ensures
        picks(
            repos,
            free_repos(repos, groups),
            |repo: Seq<char>|
                !exists|i: int|
                    0 <= i < groups.len() && ((#[trigger] groups[i]).1.main == repo
                        || groups[i].1.sinks.contains(repo)),
            |repo: Seq<char>| repo,
        ),
    decreases repos.len(),
{
    let keep = |repo: Seq<char>|
        !exists|i: int|
            0 <= i < groups.len() && ((#[trigger] groups[i]).1.main == repo
                || groups[i].1.sinks.contains(repo));
    let give = |repo: Seq<char>| repo;
    if repos.len() == 0 {
        lemma_picks_nothing(repos, free_repos(repos, groups), keep, give);
    } else {
        let part = repos.drop_last();
        law_free_repositories_are_in_no_group(part, groups);
        let repo = repos.last();
        if grouped(groups, repo) {
            let i = choose|i: int|
                0 <= i < groups.len() && #[trigger] groups[i].1.has_member(repo);
            assert(groups[i].1.main == repo || groups[i].1.sinks.contains(repo));
        } else {
            assert forall|i: int| 0 <= i < groups.len() implies !((#[trigger] groups[i]).1.main
                == repo || groups[i].1.sinks.contains(repo)) by {
                assert(!groups[i].1.has_member(repo));
            }
        }
        lemma_picks_last(repos, free_repos(part, groups), free_repos(repos, groups), keep, give);
    }
}

/// The report of a push is titled by the group, counts what was copied and deleted,
/// says whether it was cut short, and lists the files that failed before the sinks
/// that did. Sinks that were never pushed are told in a note.
pub proof fn law_a_push_report_says_what_was_done(
    name: Seq<char>,
    results: Seq<SinkResult>,
    problems: Texts,
)
    requires
        problems.len() + results.len() <= u64::MAX,
        all_errors(results) + results.len() <= u64::MAX,
    ensures
        ({
            let r = push_report(name, results, problems);
            let listed = problems + failures_of(results);
            let cap = if listed.len() < MAX_PROBLEMS {
                listed.len() as int
            } else {
                MAX_PROBLEMS as int
            };
            let skipped = skipped_of(results);
            &&& r.title == "Sync group '"@ + name + "'"@
            &&& r.counts.len() >= 2
            &&& r.counts[0] == ("copied"@, all_copied(results) as u64)
            &&& r.counts[1] == ("deleted"@, all_deleted(results) as u64)
            &&& r.cancelled == cut_short(results)
            &&& r.problems == listed.take(cap)
            &&& skipped.len() == 0 ==> r.notes.len() == 0
            &&& skipped.len() > 0 ==> r.notes.len() == 1 && r.notes[0] == dec(skipped.len())
                + " sink(s) were never pushed and are now stale: "@ + joined(skipped, ", "@)
            &&& all_errors(results) <= problems.len() + failures_of(results).len()
                ==> r.counts.len() == 2
            &&& all_errors(results) > problems.len() + failures_of(results).len() ==> r.counts.len()
                == 3 && r.counts[2] == ("files that failed to copy"@, all_errors(results) as u64)
        }),
{
    lemma_failures(results);
    let m = ReportModel {
        cancelled: cut_short(results),
        ..ReportModel::titled("Sync group '"@ + name + "'"@).with_count(
            "copied"@,
            all_copied(results) as u64,
        ).with_count("deleted"@, all_deleted(results) as u64)
    };
    let failures = failures_of(results);
    crate::run_result::lemma_problems_keep(m, problems);
    crate::run_result::law_problems_are_listed_in_order(m, problems);
    let n = m.with_problems(problems);
    crate::run_result::lemma_problems_keep(n, failures);
    crate::run_result::law_problems_are_listed_in_order(n, failures);
    assert(m.problems + problems =~= problems);
    let listed = problems + failures;
    let cap = if listed.len() < MAX_PROBLEMS {
        listed.len() as int
    } else {
        MAX_PROBLEMS as int
    };
    assert(n.with_problems(failures).problems =~= listed.take(cap));
}

/// The question before a push names the main, the number of sinks and the group, says
/// how much is copied, and says how much is deleted exactly where the group mirrors.
/// Where a sink loses everything it holds, a warning follows.
pub proof fn law_the_push_question_says_what_is_lost(
    name: Seq<char>,
    group: GroupModel,
    totals: Seq<usize>,
    sinks: Seq<(Seq<char>, u64)>,
)
    ensures
        ({
            let head = "Push '"@ + group.main + "' to "@ + dec(group.sinks.len())
                + " sink(s) of group '"@ + name + "': copy "@ + dec(totals[0] as nat)
                + " file(s)"@;
            let bare = push_question(name, group, totals, Seq::empty());
            &&& group.mode == SyncMode::AddOnly ==> bare == head + ". The main is never changed."@
            &&& group.mode == SyncMode::Mirror ==> bare == head + (" and DELETE "@ + dec(
                totals[1] as nat,
            ) + " file(s) from the sink(s), which cannot be undone"@)
                + ". The main is never changed."@
            &&& sinks.len() == 0 ==> push_question(name, group, totals, sinks) == bare
            &&& sinks.len() > 0 ==> push_question(name, group, totals, sinks) == bare
                + ("\n\nWARNING: this replaces the entire current contents of "@ + joined(
                wholesale_texts(sinks),
                ", "@,
            )
                + " with the main's content — nothing they hold today survives. If that is not what you expect, check the main is complete first."@)
        }),
        wholesale_texts(sinks).len() == sinks.len(),
        forall|i: int|
            0 <= i < sinks.len() ==> #[trigger] wholesale_texts(sinks)[i] == sinks[i].0
                + " (all "@ + dec(sinks[i].1 as nat) + " of its files)"@,
{
    let head = "Push '"@ + group.main + "' to "@ + dec(group.sinks.len()) + " sink(s) of group '"@
        + name + "': copy "@ + dec(totals[0] as nat) + " file(s)"@;
    assert(head + Seq::<char>::empty() =~= head);
    let bare = head + (if group.mode == SyncMode::Mirror {
        " and DELETE "@ + dec(totals[1] as nat)
            + " file(s) from the sink(s), which cannot be undone"@
    } else {
        Seq::empty()
    }) + ". The main is never changed."@;
    assert(bare + Seq::<char>::empty() =~= bare);
}

/// What each click changes and what it leaves: selecting takes the plan off the board,
/// filling in the form changes the form, planning says so, and answering no withdraws
/// the question and what it was about.
pub proof fn law_clicks_change_what_they_say(m: SyncModel, name: String)
    ensures
        ({
            let r = m.after(Act::Select(name));
            &&& r.selected == Some(name@)
            &&& r.shown.rows.len() == 0
            &&& r.shown.totals == seq![0usize, 0usize, 0usize]
            &&& r.shown.wholesale_sinks.len() == 0
            &&& r.shown.pending is None
            &&& r.review.rejected == Set::<crate::row_keys::KeyModel>::empty()
            &&& r.review.sort_col == m.review.sort_col
            &&& r.words == m.words
            &&& r.known == m.known
            &&& r.form == m.form
            &&& r.running == m.running
            &&& r.previewing == m.previewing
            &&& r.result == m.result
        }),
        ({
            let r = m.after(Act::SetNewMain(name));
            &&& r.form.main == Some(name@)
            &&& r.form.name == m.form.name
            &&& r.selected == m.selected
            &&& r.shown == m.shown
            &&& r.words == m.words
            &&& r.known == m.known
        }),
        ({
            let r = m.after(Act::Preview);
            &&& r == m.after(Act::Ask)
            &&& r.previewing == (m.previewing || m.chosen() is Some)
            &&& m.chosen() is None ==> r == m
            &&& m.chosen() is Some ==> r.words.status is Some
            &&& r.words.error == m.words.error
            &&& r.words.confirm == m.words.confirm
            &&& r.shown == m.shown
            &&& r.selected == m.selected
            &&& r.running == m.running
        }),
        ({
            let r = m.after(Act::CancelConfirm);
            &&& r.words.confirm is None
            &&& r.words.status == m.words.status
            &&& r.words.error == m.words.error
            &&& r.shown.pending is None
            &&& r.shown.rows == m.shown.rows
            &&& r.shown.totals == m.shown.totals
            &&& r.running == m.running
            &&& r.selected == m.selected
        }),
        ({
            let r = m.after(Act::Confirm);
            &&& r.words.confirm is None
            &&& m.shown.pending is None ==> r.running == m.running && r.shown == m.shown && r.result
                == m.result
            &&& m.shown.pending matches Some((group, g)) ==> {
                &&& r.running
                &&& r.result is None
                &&& r.shown.rows.len() == 0
                &&& r.shown.pending is None
                &&& r.words.status == Some("syncing '"@ + group + "'…"@)
            }
            &&& r.selected == m.selected
            &&& r.known == m.known
        }),
{
}

/// What each click asks for: a change of the registry is of the group and the
/// repository that were clicked, and a push is of the group that was asked about.
pub proof fn law_clicks_ask_for_what_they_say(
    m: SyncModel,
    group: String,
    repo: String,
    mode: SyncMode,
)
    ensures
        m.form.main matches Some(main) ==> m.effect(Act::CreateGroup) == EffectModel::Store(
            StoreOpModel::Create { name: trimmed(m.form.name), main },
        ),
        m.form.main is None ==> m.effect(Act::CreateGroup) is Reload,
        m.effect(Act::DeleteGroup(group)) == EffectModel::Store(
            StoreOpModel::Delete { name: group@ },
        ),
        m.effect(Act::AddSink(group, repo)) == EffectModel::Store(
            StoreOpModel::AddSink { group: group@, repo: repo@ },
        ),
        m.effect(Act::RemoveSink(group, repo)) == EffectModel::Store(
            StoreOpModel::RemoveSink { group: group@, repo: repo@ },
        ),
        m.effect(Act::MakeMain(group, repo)) == EffectModel::Store(
            StoreOpModel::MakeMain { group: group@, repo: repo@ },
        ),
        m.effect(Act::SetMode(group, mode)) == EffectModel::Store(
            StoreOpModel::SetMode { group: group@, mode },
        ),
        m.shown.pending matches Some((name, g)) ==> m.effect(Act::Confirm) == (EffectModel::Push {
            name,
            group: g,
        }),
        m.shown.pending is None ==> m.effect(Act::Confirm) is Nothing,
        m.effect(Act::CancelRun) is CancelRun,
        m.effect(Act::Select(group)) is Nothing,
        m.effect(Act::SetNewMain(group)) is Nothing,
        m.effect(Act::CancelConfirm) is Nothing,
{
}

/// A change of the registry that failed says why and changes nothing else; one that
/// was made takes the plan off the board, and a new group is selected.
pub proof fn law_a_stored_change_is_taken_in(m: SyncModel, op: StoreOpModel, e: String)
    ensures
        ({
            let r = m.after_store(op, Err(e));
            &&& r.words.error == Some(e@)
            &&& r.words.status == m.words.status
            &&& r.selected == m.selected
            &&& r.form == m.form
            &&& r.shown == m.shown
        }),
        ({
            let r = m.after_store(op, Ok(()));
            &&& op matches StoreOpModel::Create { name, main } ==> {
                &&& r.selected == Some(name)
                &&& r.form.name.len() == 0
                &&& r.form.main is None
            }
            &&& op is Delete ==> r.selected is None
            &&& !(op is Create) && !(op is Delete) ==> r.selected == m.selected
            &&& !(op is Create) ==> {
                &&& r.form == m.form
                &&& r.shown.rows.len() == 0
                &&& r.shown.pending is None
                &&& r.shown.totals == seq![0usize, 0usize, 0usize]
            }
            &&& r.words == m.words
            &&& r.known == m.known
            &&& r.running == m.running
        }),
{
}

/// After the registry was read the tab knows what was read. A selected group that is
/// gone is no longer selected and its plan is off the board; one that is still there
/// stays.
pub proof fn law_a_read_registry_is_known(
    m: SyncModel,
    repos: Texts,
    groups: Seq<(Seq<char>, GroupModel)>,
)
    ensures
        ({
            let r = m.synced(repos, groups);
            let there = m.selected matches Some(name) && exists|i: int|
                0 <= i < groups.len() && (#[trigger] groups[i]).0 == name;
            &&& r.known.loaded
            &&& r.known.repos == repos
            &&& r.known.groups == groups
            &&& r.words.error is None
            &&& r.words.status == m.words.status
            &&& there ==> r.selected == m.selected && r.shown == m.shown
            &&& !there ==> r.selected is None
            &&& !there && m.selected is Some ==> r.shown.rows.len() == 0 && r.shown.pending is None
            &&& m.selected is None ==> r.shown == m.shown
            &&& r.form == m.form
            &&& r.running == m.running
        }),
{
    if let Some(name) = m.selected {
        let i = lemma_group_named(groups, name);
        if group_named(groups, name) is Some {
            assert(groups[i].0 == name);
        }
    }
}

/// A finished plan is put on the board with its counts, additions first, and its
/// status tells them; a question is put, and a group is up for pushing, only where it
/// was asked for.
pub proof fn law_a_finished_plan_is_shown(
    m: SyncModel,
    outcome: PreviewOutcome,
    rows: Seq<ReviewRow>,
    confirm: bool,
)
    ensures
        ({
            let r = m.showing(outcome, rows, confirm);
            &&& r.shown.rows == rows
            &&& r.shown.totals == seq![outcome.added, outcome.removed, 0usize]
            &&& r.shown.main_header == outcome.main_header@
            &&& r.shown.sink_header == "SINKS"@
            &&& r.shown.wholesale_sinks == crate::filter_ui::stats_view(outcome.wholesale_sinks@)
            &&& r.words.error is None
            &&& r.words.status == Some(
                dec(outcome.added as nat) + " file(s) to copy, "@ + dec(outcome.removed as nat)
                    + " to delete across "@ + dec(outcome.sink_count as nat) + " sink(s)."@,
            )
            &&& confirm ==> r.shown.pending == Some((outcome.group_name@, outcome.group@))
                && r.words.confirm is Some
            &&& !confirm ==> r.shown.pending == m.shown.pending && r.words.confirm
                == m.words.confirm
            &&& r.selected == m.selected
            &&& r.known == m.known
        }),
{
}

/// The mode that adds only is offered in green and the one that deletes in red, and
/// the group's own mode is the selected one.
pub proof fn law_the_deleting_mode_is_red(button: ModeButton, mode: SyncMode, current: SyncMode)
    requires
        is_mode_button(button, mode, current),
    ensures
        button.mode == mode,
        button.selected <==> mode == current,
        mode == SyncMode::AddOnly ==> button.accent == Ink::Green && button.label@ == "ADD ONLY"@
            && button.short@ == "Only copy, never delete"@,
        mode == SyncMode::Mirror ==> button.accent == Ink::Red && button.label@ == "MIRROR"@
            && button.short@ == "Make the sinks match the main exactly"@,
{
}

/// A repository belongs to a group as its main or as one of its sinks.
pub proof fn law_members_are_main_and_sinks(g: GroupModel, repo: Seq<char>)
    ensures
        g.has_member(repo) <==> g.main == repo || exists|i: int|
            0 <= i < g.sinks.len() && #[trigger] g.sinks[i] == repo,
{
}

/// What the model says of a tab is what its fields hold.
pub proof fn law_the_model_holds_the_fields(v: SyncView)
    ensures
        v@.selected == opt_view(v.selected),
        v@.form.name == v.form.name@,
        v@.form.main == opt_view(v.form.main),
        v@.known.repos == views(v.known.repos@),
        v@.known.groups.len() == v.known.groups@.len(),
        forall|i: int|
            0 <= i < v.known.groups@.len() ==> #[trigger] v@.known.groups[i] == (
                v.known.groups@[i].0@,
                v.known.groups@[i].1@,
            ),
        v@.shown.rows == v.shown.rows@,
        v@.shown.totals == v.shown.totals@,
        v.shown.pending matches Some(p) ==> v@.shown.pending == Some((p.0@, p.1@)),
        v.shown.pending is None ==> v@.shown.pending is None,
        v@.words.status == opt_view(v.words.status),
        v@.words.error == opt_view(v.words.error),
        v@.words.confirm == opt_view(v.words.confirm),
        v@.running == v.running,
        v@.previewing == v.previewing,
{
}

/// What a group's contents say is what its fields hold, and a row's line what the row
/// holds.
pub proof fn law_contents_are_the_fields(g: SyncGroup, rows: Seq<ReviewRow>, i: int)
    requires
        0 <= i < rows.len(),
    ensures
        g@.main == g.main@,
        g@.sinks == views(g.sinks@),
        g@.mode == g.mode,
        lines_of(rows).len() == rows.len(),
        lines_of(rows)[i].source == rows[i].source,
        lines_of(rows)[i].target == rows[i].target,
        lines_of(rows)[i].source_path == rows[i].source_path@,
        lines_of(rows)[i].target_path == rows[i].target_path@,
{
}

} // verus!
