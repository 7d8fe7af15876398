//! Planning a grooming run: which files a command would touch, the board rows that
//! show them, and what a finished run reports.

use vstd::prelude::*;
use vstd::string::*;

use crate::board::{copy_facts, Cmd, RowBody, RowMeta, SideBody, Status};
use crate::media_cell::{CellOverlay, FileFacts};
use crate::lists::{lemma_picks_last, lemma_picks_nothing, picks};
use crate::naming::is_taken;
use crate::notes::{Note, NoteOutcome};
use crate::recent::Texts;
use crate::review::PREVIEW_CAP;
use crate::row_keys::{KeyModel, RowKey};
use crate::run_result::{ReportModel, RunReport};
use crate::text::{copy_opt, dec, join, joined, push_decimal, views};

verus! {

/// The grooming commands.
#[derive(Clone, Copy, Debug, PartialEq, Eq, Structural)]
pub enum Command {
    /// Delete source files whose content is also in a repository of the pool.
    Dedupe,
    /// Delete every file that matches a filter.
    Purge,
    /// Remove empty directories.
    EmptyDirs,
    /// Move a repository's files to paths built from templates.
    Organize,
    /// Drop the records of deleted files and compact the index.
    Prune,
}

impl Command {
    /// The command's name.
    pub open spec fn title(self) -> Seq<char> {
        match self {
            Command::Dedupe => "DEDUPE"@,
            Command::Purge => "PURGE"@,
            Command::EmptyDirs => "EMPTY DIRS"@,
            Command::Organize => "ORGANIZE"@,
            Command::Prune => "PRUNE"@,
        }
    }

    /// The command's name.
    pub fn label(self) -> (r: &'static str)
        ensures
            r@ == self.title(),
    {
        match self {
            Command::Dedupe => "DEDUPE",
            Command::Purge => "PURGE",
            Command::EmptyDirs => "EMPTY DIRS",
            Command::Organize => "ORGANIZE",
            Command::Prune => "PRUNE",
        }
    }

    /// The short and the long explanation of the command.
    pub fn tooltip(self) -> (r: (&'static str, &'static str))
        ensures
            match self {
                Command::Dedupe => r.0@ == "Delete a repo's duplicates of other repos"@ && r.1@
                    == "Delete every file in the source repo whose content also exists in any of the selected dupe-pool repos — the source copy is redundant. The pool repos are never changed."@,
                Command::Purge => r.0@ == "Delete everything matching a filter"@ && r.1@
                    == "Delete every file in the repo that matches the filter (mime / size / name, with `*` wildcards) — e.g. everything ending in `.db`. This is not gated by any other repo, so use it carefully. Without a filter nothing matches — an empty filter never purges the whole repo."@,
                Command::EmptyDirs => r.0@ == "Remove empty directories"@ && r.1@
                    == "Remove every empty directory under the repo's root, bottom-up. The repo root itself is kept and indexed files are untouched. On a backup group's main, its sinks are cleaned in the same run."@,
                Command::Organize => r.0@ == "Reorganize files by path templates"@ && r.1@
                    == "Move a repo's files into new relative paths built from templates (date, mime, camera, original name, …). Files matching no rule stay put; nothing is ever overwritten."@,
                Command::Prune => r.0@ == "Forget deleted files and shrink the index"@ && r.1@
                    == "Permanently remove this repo's records of files that no longer exist on disk (its 'missing' entries), then rewrite the index file to reclaim their space. The repo's existing files are untouched — only the leftover records of already-deleted files are dropped."@,
            },
    {
        match self {
            Command::Dedupe => (
                "Delete a repo's duplicates of other repos",
                "Delete every file in the source repo whose content also exists in any of the selected dupe-pool repos — the source copy is redundant. The pool repos are never changed.",
            ),
            Command::Purge => (
                "Delete everything matching a filter",
                "Delete every file in the repo that matches the filter (mime / size / name, with `*` wildcards) — e.g. everything ending in `.db`. This is not gated by any other repo, so use it carefully. Without a filter nothing matches — an empty filter never purges the whole repo.",
            ),
            Command::EmptyDirs => (
                "Remove empty directories",
                "Remove every empty directory under the repo's root, bottom-up. The repo root itself is kept and indexed files are untouched. On a backup group's main, its sinks are cleaned in the same run.",
            ),
            Command::Organize => (
                "Reorganize files by path templates",
                "Move a repo's files into new relative paths built from templates (date, mime, camera, original name, …). Files matching no rule stay put; nothing is ever overwritten.",
            ),
            Command::Prune => (
                "Forget deleted files and shrink the index",
                "Permanently remove this repo's records of files that no longer exist on disk (its 'missing' entries), then rewrite the index file to reclaim their space. The repo's existing files are untouched — only the leftover records of already-deleted files are dropped.",
            ),
        }
    }
}

/// What a finished run did.
#[derive(Debug)]
pub enum OpResult {
    Deleted { deleted: u64, cancelled: bool },
    EmptyDirs {
        removed: u64,
        /// How many repositories were swept.
        repos: u64,
        /// What failed, repository by repository.
        errors: Vec<String>,
    },
    Organized { moved: u64, skipped: u64, failed: u64, cancelled: bool },
    Pruned { pruned: u64, compacted: bool, cancelled: bool },
    /// A single row was carried out.
    Applied { note: Note },
    Error(String),
}

/// A result's report.
pub open spec fn op_report(result: OpResult) -> ReportModel {
    match result {
        OpResult::Deleted { deleted, cancelled } => ReportModel {
            cancelled,
            ..ReportModel::titled("Delete"@).with_count("deleted"@, deleted)
        },
        OpResult::EmptyDirs { removed, repos, errors } => {
            let swept = ReportModel::titled("Remove empty dirs"@).with_count(
                "removed"@,
                removed,
            ).with_problems(views(errors@));
            if repos > 1 {
                swept.with_count("repositories swept"@, repos)
            } else {
                swept
            }
        },
        OpResult::Organized { moved, skipped, failed, cancelled } => {
            let done = ReportModel {
                cancelled,
                ..ReportModel::titled("Organize"@).with_count("moved"@, moved).with_count(
                    "skipped"@,
                    skipped,
                )
            };
            if failed > 0 {
                done.with_count("errors"@, failed).with_unlisted(failed)
            } else {
                done
            }
        },
        OpResult::Pruned { pruned, compacted, cancelled } => ReportModel {
            cancelled,
            ..ReportModel::titled("Prune"@).with_count("records dropped"@, pruned)
        }.with_note(if cancelled {
            "Cancelled: the index was not compacted."@
        } else if compacted {
            "The index was compacted."@
        } else {
            "The index was already compact."@
        }),
        OpResult::Applied { note } => match note.outcome {
            NoteOutcome::Failed(e) => ReportModel::titled(note.action@).with_problem(e@),
            _ => ReportModel::titled(note.action@),
        },
        OpResult::Error(e) => ReportModel::titled("Grooming"@).with_problem(e@),
    }
}

/// The run did less than it set out to do.
pub open spec fn fell_short(result: OpResult) -> bool {
    match result {
        OpResult::Deleted { cancelled, .. } => cancelled,
        OpResult::EmptyDirs { errors, .. } => errors@.len() > 0,
        OpResult::Organized { failed, cancelled, .. } => failed > 0 || cancelled,
        OpResult::Pruned { cancelled, .. } => cancelled,
        OpResult::Applied { note } => note.outcome is Failed,
        OpResult::Error(_) => true,
    }
}

/// A run reads as done exactly where nothing went wrong and it was not cancelled.
pub proof fn law_a_run_reads_done_only_when_it_was(result: OpResult)
    requires
        result matches OpResult::EmptyDirs { errors, .. } ==> errors@.len() <= u64::MAX,
    ensures
        op_report(result).complete() == !fell_short(result),
{
    if let OpResult::EmptyDirs { removed, errors, .. } = result {
        crate::run_result::lemma_problems_keep(
            ReportModel::titled("Remove empty dirs"@).with_count("removed"@, removed),
            views(errors@),
        );
    }
}

impl OpResult {
    /// The report that a run ends on.
    pub fn report(&self) -> (r: RunReport)
        ensures
            r@ == op_report(*self),
            r@.wf(),
    {
        match self {
            OpResult::Deleted { deleted, cancelled } => RunReport::new("Delete").count(
                "deleted",
                *deleted,
            ).cancelled(*cancelled),
            OpResult::EmptyDirs { removed, repos, errors } => {
                let listed = crate::filter_ui::copy_list(errors);
                let n: usize = listed.len();
                assert(n == listed@.len() && n <= u64::MAX);
                let mut report = RunReport::new("Remove empty dirs").count(
                    "removed",
                    *removed,
                ).problems(listed);
                if *repos > 1 {
                    report = report.count("repositories swept", *repos);
                }
                report
            },
            OpResult::Organized { moved, skipped, failed, cancelled } => {
                let mut report = RunReport::new("Organize").count("moved", *moved).count(
                    "skipped",
                    *skipped,
                ).cancelled(*cancelled);
                if *failed > 0 {
                    report = report.count("errors", *failed).unlisted(*failed);
                }
                report
            },
            OpResult::Pruned { pruned, compacted, cancelled } => {
                let report = RunReport::new("Prune").count("records dropped", *pruned).cancelled(
                    *cancelled,
                );
                report.note(
                    if *cancelled {
                        "Cancelled: the index was not compacted."
                    } else if *compacted {
                        "The index was compacted."
                    } else {
                        "The index was already compact."
                    },
                )
            },
            OpResult::Applied { note } => {
                let mut report = RunReport::new(note.action.as_str());
                if let NoteOutcome::Failed(e) = &note.outcome {
                    report.problem(e.clone());
                }
                report
            },
            OpResult::Error(e) => {
                let mut report = RunReport::new("Grooming");
                report.problem(e.clone());
                report
            },
        }
    }
}

/// The word for what a command does to one file.
pub open spec fn deed(command: Command) -> Seq<char> {
    match command {
        Command::Organize => "Moved"@,
        Command::Prune => "Pruned"@,
        _ => "Deleted"@,
    }
}

/// What a single row's run says: a change where a file was touched, a remark where
/// records were dropped, and else a failure with its reason.
pub fn row_note(command: Command, result: &OpResult, repo: &str, what: &str) -> (r: Note)
    ensures
        r.tells(deed(command), repo@, what@),
        match *result {
            OpResult::Deleted { deleted, .. } if deleted > 0 => r.outcome is Changed,
            OpResult::Organized { moved, .. } if moved > 0 => r.outcome is Changed,
            OpResult::Pruned { .. } => r.outcome is Noted,
            OpResult::Error(e) => r.outcome matches NoteOutcome::Failed(why) && why@ == e@,
            _ => r.outcome matches NoteOutcome::Failed(why) && why@ == "nothing was changed"@,
        },
{
    let did = match command {
        Command::Organize => "Moved",
        Command::Prune => "Pruned",
        _ => "Deleted",
    };
    match result {
        OpResult::Deleted { deleted, .. } => if *deleted > 0 {
            Note::changed(did, repo, what)
        } else {
            Note::failed(did, repo, what, "nothing was changed")
        },
        OpResult::Organized { moved, .. } => if *moved > 0 {
            Note::changed(did, repo, what)
        } else {
            Note::failed(did, repo, what, "nothing was changed")
        },
        OpResult::Pruned { .. } => Note::noted(did, repo, what),
        OpResult::Error(e) => Note::failed(did, repo, what, e.as_str()),
        _ => Note::failed(did, repo, what, "nothing was changed"),
    }
}

/// A backup group: the main repository and those it is pushed to.
pub struct BackupGroup {
    pub main: String,
    pub sinks: Vec<String>,
}

/// The sinks of the first group with this main.
pub open spec fn sinks_of(groups: Seq<BackupGroup>, repo: Seq<char>) -> Texts
    decreases groups.len(),
{
    if groups.len() == 0 {
        Seq::empty()
    } else if groups[0].main@ == repo {
        views(groups[0].sinks@)
    } else {
        sinks_of(groups.drop_first(), repo)
    }
}

/// The repositories that removing empty directories sweeps: the one that was
/// picked, and its sinks where it is the main of a backup group.
pub fn sweep_repos(repo: &str, groups: &Vec<BackupGroup>) -> (r: Vec<String>)
    ensures
        views(r@) == seq![repo@] + sinks_of(groups@, repo@),
{
    let mut out: Vec<String> = Vec::new();
    out.push(crate::text::copy(repo));
    assert(views(out@) =~= seq![repo@]);
    let mut i: usize = 0;
    assert(groups@.skip(0) =~= groups@);
    while i < groups.len()
        invariant
            i <= groups@.len(),
            views(out@) == seq![repo@],
            sinks_of(groups@, repo@) == sinks_of(groups@.skip(i as int), repo@),
        decreases groups@.len() - i,
    {
        assert(groups@.skip(i as int).drop_first() =~= groups@.skip(i + 1));
        assert(groups@.skip(i as int)[0] == groups@[i as int]);
        if crate::text::same_text(groups[i].main.as_str(), repo) {
            let sinks = &groups[i].sinks;
            let mut k: usize = 0;
            while k < sinks.len()
                invariant
                    k <= sinks@.len(),
                    views(out@) == seq![repo@] + views(sinks@).take(k as int),
                decreases sinks@.len() - k,
            {
                let ghost was = out@;
                out.push(sinks[k].clone());
                assert(views(out@) =~= views(was).push(sinks@[k as int]@));
                k += 1;
                assert(views(out@) =~= seq![repo@] + views(sinks@).take(k as int));
            }
            assert(views(sinks@).take(k as int) =~= views(sinks@));
            return out;
        }
        i += 1;
    }
    assert(views(out@) =~= seq![repo@] + Seq::<Seq<char>>::empty());
    out
}

/// What sweeping one repository leaves to say.
pub struct Swept {
    pub note: Option<Note>,
    pub problem: Option<String>,
}

/// How many directories, in words.
pub open spec fn directories(n: nat) -> Seq<char> {
    dec(n) + " director"@ + if n == 1 {
        "y"@
    } else {
        "ies"@
    }
}

/// Takes in what sweeping one repository gave: directories removed are counted and
/// noted, a failure is kept beside the others.
pub fn sweep_step(
    removed: &mut u64,
    errors: &mut Vec<String>,
    repo: &str,
    reply: Result<u64, String>,
) -> (r: Swept)
    requires
        reply matches Ok(n) ==> *old(removed) + n <= u64::MAX,
    ensures
        match reply {
            Ok(n) => {
                &&& *final(removed) == *old(removed) + n
                &&& final(errors)@ == old(errors)@
                &&& r.problem is None
                &&& (r.note is Some) == (n > 0)
                &&& r.note matches Some(note) ==> note.tells(
                    "Removed empty directories"@,
                    repo@,
                    directories(n as nat),
                ) && note.outcome is Changed
            },
            Err(e) => {
                &&& *final(removed) == *old(removed)
                &&& views(final(errors)@) == views(old(errors)@).push(repo@ + ": "@ + e@)
                &&& r.note is None
                &&& r.problem matches Some(p) && p@ == repo@ + ": "@ + e@
            },
        },
{
    match reply {
        Ok(n) => {
            *removed = *removed + n;
            if n > 0 {
                let mut what = String::new();
                push_decimal(&mut what, n as u128);
                what.append(" director");
                if n == 1 {
                    what.append("y");
                } else {
                    what.append("ies");
                }
                assert(what@ =~= directories(n as nat));
                let note = Note::changed("Removed empty directories", repo, what.as_str());
                Swept { note: Some(note), problem: None }
            } else {
                Swept { note: None, problem: None }
            }
        },
        Err(e) => {
            let mut line = crate::text::copy(repo);
            line.append(": ");
            line.append(e.as_str());
            let ghost was = errors@;
            errors.push(line.clone());
            assert(views(errors@) =~= views(was).push(line@));
            Swept { note: None, problem: Some(line) }
        },
    }
}

/// One file of a comparison of a source with a pool.
pub enum DiffItem {
    /// The content is also in the pool, at this path.
    Equal { rel_path: String, reference_path: String },
    /// The pool once held the content.
    DeletedInReference { rel_path: String },
    /// The content is in the source only.
    New { rel_path: String },
}

/// What the core answered when asked for a plan.
pub enum PlanReply {
    /// The files of the source compared with the pool, and the paths whose
    /// contents are accepted in the source.
    Compared { items: Vec<DiffItem>, accepted: Vec<String>, pool: Vec<String> },
    /// The first files that match, and how many match in all.
    Listed { paths: Vec<String>, total: usize },
    /// Every move, from and to.
    Moves { moves: Vec<(String, String)> },
}

/// A file of a plan and its counterpart.
pub type PlanPair = (String, Option<String>);

/// A planned list of files before its board rows are built.
pub struct Planned {
    pub paths: Vec<PlanPair>,
    pub total: usize,
    pub target_header: Option<String>,
    /// The counterpart of a file is its own new path.
    pub organize: bool,
}

/// A plan's files and their counterparts.
pub open spec fn pairs_view(pairs: Seq<PlanPair>) -> Seq<(Seq<char>, Option<Seq<char>>)> {
    Seq::new(pairs.len(), |i: int| (pairs[i].0@, crate::filter_ui::opt_view(pairs[i].1)))
}

/// The doomed files of a comparison, each with the copy that makes it redundant:
/// all whose content the pool knows, but for those that are accepted.
pub open spec fn redundant(items: Seq<DiffItem>, accepted: Texts) -> Seq<
    (Seq<char>, Option<Seq<char>>),
>
    decreases items.len(),
{
    if items.len() == 0 {
        Seq::empty()
    } else {
        let rest = redundant(items.drop_last(), accepted);
        match items.last() {
            DiffItem::Equal { rel_path, reference_path } => if accepted.contains(rel_path@) {
                rest
            } else {
                rest.push(
                    (
                        rel_path@,
                        if reference_path@.len() == 0 {
                            None
                        } else {
                            Some(reference_path@)
                        },
                    ),
                )
            },
            DiffItem::DeletedInReference { rel_path } => if accepted.contains(rel_path@) {
                rest
            } else {
                rest.push((rel_path@, None))
            },
            DiffItem::New { .. } => rest,
        }
    }
}

/// At most as many as a preview holds.
pub open spec fn first_shown<T>(list: Seq<T>) -> Seq<T> {
    if list.len() <= PREVIEW_CAP {
        list
    } else {
        list.take(PREVIEW_CAP as int)
    }
}

/// The files and counterparts of a plan.
pub open spec fn plan_pairs(reply: PlanReply) -> Seq<(Seq<char>, Option<Seq<char>>)> {
    match reply {
        PlanReply::Compared { items, accepted, .. } => first_shown(
            redundant(items@, views(accepted@)),
        ),
        PlanReply::Listed { paths, .. } => Seq::new(
            paths@.len(),
            |i: int| (paths@[i]@, None::<Seq<char>>),
        ),
        PlanReply::Moves { moves } => first_shown(
            Seq::new(moves@.len(), |i: int| (moves@[i].0@, Some(moves@[i].1@))),
        ),
    }
}

/// How many files a plan touches.
pub open spec fn plan_total(reply: PlanReply) -> nat {
    match reply {
        PlanReply::Compared { items, accepted, .. } => redundant(items@, views(accepted@)).len(),
        PlanReply::Listed { total, .. } => total as nat,
        PlanReply::Moves { moves } => moves@.len(),
    }
}

/// The header of a plan's right side: the pool, where there is one.
pub open spec fn plan_target(reply: PlanReply) -> Option<Seq<char>> {
    match reply {
        PlanReply::Compared { pool, .. } => if pool@.len() > 0 {
            Some(joined(views(pool@), ", "@))
        } else {
            None
        },
        _ => None,
    }
}

/// A file that is accepted in the source is never listed for deletion.
pub proof fn law_accepted_files_are_never_listed(
    items: Seq<DiffItem>,
    accepted: Texts,
    i: int,
)
    requires
        0 <= i < redundant(items, accepted).len(),
    ensures
        !accepted.contains(redundant(items, accepted)[i].0),
    decreases items.len(),
{
    if items.len() > 0 {
        let rest = redundant(items.drop_last(), accepted);
        if i < rest.len() {
            law_accepted_files_are_never_listed(items.drop_last(), accepted, i);
        }
    }
}

/// What is only in the source is never listed for deletion: every listed file is one
/// that the pool knows.
pub proof fn law_only_known_content_is_listed(items: Seq<DiffItem>, accepted: Texts, i: int)
    requires
        0 <= i < redundant(items, accepted).len(),
    ensures
        exists|k: int|
            0 <= k < items.len() && (match #[trigger] items[k] {
                DiffItem::Equal { rel_path, .. } => rel_path@ == redundant(items, accepted)[i].0,
                DiffItem::DeletedInReference { rel_path } => rel_path@ == redundant(
                    items,
                    accepted,
                )[i].0,
                DiffItem::New { .. } => false,
            }),
    decreases items.len(),
{
    if items.len() > 0 {
        let part = items.drop_last();
        let rest = redundant(part, accepted);
        if i < rest.len() {
            law_only_known_content_is_listed(part, accepted, i);
            let k = choose|k: int|
                0 <= k < part.len() && (match #[trigger] part[k] {
                    DiffItem::Equal { rel_path, .. } => rel_path@ == rest[i].0,
                    DiffItem::DeletedInReference { rel_path } => rel_path@ == rest[i].0,
                    DiffItem::New { .. } => false,
                });
            assert(items[k] == part[k]);
        } else {
            assert(items[items.len() - 1] == items.last());
        }
    }
}

fn redundant_files(items: &Vec<DiffItem>, accepted: &Vec<String>) -> (r: Vec<PlanPair>)
    ensures
        pairs_view(r@) == redundant(items@, views(accepted@)),
{
    let ghost ok = views(accepted@);
    let mut out: Vec<PlanPair> = Vec::new();
    assert(pairs_view(out@) =~= Seq::empty());
    let mut i: usize = 0;
    while i < items.len()
        invariant
            i <= items@.len(),
            ok == views(accepted@),
            pairs_view(out@) == redundant(items@.take(i as int), ok),
        decreases items@.len() - i,
    {
        let ghost was = out@;
        assert(items@.take(i + 1).drop_last() =~= items@.take(i as int));
        assert(items@.take(i + 1).last() == items@[i as int]);
        match &items[i] {
            DiffItem::Equal { rel_path, reference_path } => {
                if !is_taken(accepted, rel_path) {
                    let other = if reference_path.as_str().is_empty() {
                        None
                    } else {
                        Some(reference_path.clone())
                    };
                    let ghost pair = (rel_path@, crate::filter_ui::opt_view(other));
                    out.push((rel_path.clone(), other));
                    assert(pairs_view(out@) =~= pairs_view(was).push(pair));
                }
            },
            DiffItem::DeletedInReference { rel_path } => {
                if !is_taken(accepted, rel_path) {
                    out.push((rel_path.clone(), None));
                    assert(pairs_view(out@) =~= pairs_view(was).push((rel_path@, None)));
                }
            },
            DiffItem::New { .. } => {},
        }
        i += 1;
    }
    assert(items@.take(i as int) =~= items@);
    out
}

/// The paths of a list, with no counterparts.
pub fn one_sided(paths: &Vec<String>) -> (r: Vec<PlanPair>)
    ensures
        pairs_view(r@) == Seq::new(paths@.len(), |i: int| (paths@[i]@, None::<Seq<char>>)),
{
    let mut out: Vec<PlanPair> = Vec::new();
    let mut i: usize = 0;
    while i < paths.len()
        invariant
            i <= paths@.len(),
            out@.len() == i,
            forall|k: int|
                0 <= k < i ==> (#[trigger] out@[k]).0@ == paths@[k]@ && out@[k].1 is None,
        decreases paths@.len() - i,
    {
        out.push((paths[i].clone(), None));
        i += 1;
    }
    assert(pairs_view(out@) =~= Seq::new(
        paths@.len(),
        |i: int| (paths@[i]@, None::<Seq<char>>),
    ));
    out
}

fn moves_shown(moves: &Vec<(String, String)>) -> (r: Vec<PlanPair>)
    ensures
        pairs_view(r@) == first_shown(
            Seq::new(moves@.len(), |i: int| (moves@[i].0@, Some(moves@[i].1@))),
        ),
{
    let mut out: Vec<PlanPair> = Vec::new();
    let mut i: usize = 0;
    while i < moves.len() && i < PREVIEW_CAP
        invariant
            i <= moves@.len(),
            i <= PREVIEW_CAP,
            out@.len() == i,
            forall|k: int|
                0 <= k < i ==> (#[trigger] out@[k]).0@ == moves@[k].0@ && (out@[k].1 matches Some(t)
                    && t@ == moves@[k].1@),
        decreases moves@.len() - i,
    {
        out.push((moves[i].0.clone(), Some(moves[i].1.clone())));
        i += 1;
    }
    assert(pairs_view(out@) =~= first_shown(
        Seq::new(moves@.len(), |i: int| (moves@[i].0@, Some(moves@[i].1@))),
    ));
    out
}

/// The plan that an answer of the core gives. A failed answer is passed on, and a
/// cancelled plan is no plan.
pub fn planned(reply: Result<PlanReply, String>, cancelled: bool) -> (r: Result<Planned, String>)
    ensures
        match reply {
            Err(e) => r == Err::<Planned, String>(e),
            Ok(found) => {
                &&& cancelled ==> (r matches Err(why) && why@ == "cancelled"@)
                &&& !cancelled ==> r is Ok
                &&& r matches Ok(plan) ==> {
                    &&& pairs_view(plan.paths@) == plan_pairs(found)
                    &&& plan.total == plan_total(found)
                    &&& crate::filter_ui::opt_view(plan.target_header) == plan_target(found)
                    &&& plan.organize == (found is Moves)
                }
            },
        },
{
    let found = match reply {
        Err(e) => return Err(e),
        Ok(found) => found,
    };
    if cancelled {
        return Err("cancelled".to_string());
    }
    match found {
        PlanReply::Compared { items, accepted, pool } => {
            let mut paths = redundant_files(&items, &accepted);
            let total = paths.len();
            let ghost all = paths@;
            if paths.len() > PREVIEW_CAP {
                paths.truncate(PREVIEW_CAP);
            }
            assert(pairs_view(paths@) =~= first_shown(pairs_view(all)));
            let target_header = if pool.len() > 0 {
                Some(join(&pool, ", "))
            } else {
                None
            };
            Ok(Planned { paths, total, target_header, organize: false })
        },
        PlanReply::Listed { paths, total } => Ok(
            Planned { paths: one_sided(&paths), total, target_header: None, organize: false },
        ),
        PlanReply::Moves { moves } => Ok(
            Planned {
                paths: moves_shown(&moves),
                total: moves.len(),
                target_header: None,
                organize: true,
            },
        ),
    }
}

/// A finished preview.
pub struct PreviewData {
    pub metas: Vec<RowMeta>,
    pub bodies: Vec<RowBody>,
    pub total: usize,
    /// To delete, only here, differing, unchanged.
    pub totals: [usize; 4],
    pub source_header: String,
    pub target_header: Option<String>,
    pub status: String,
}

/// The size that facts give, or none.
pub open spec fn size_of(facts: Option<FileFacts>) -> u64 {
    match facts {
        Some(f) => f.size,
        None => 0,
    }
}

/// The time that facts give, or none.
pub open spec fn time_of(facts: Option<FileFacts>) -> i64 {
    match facts {
        Some(f) => f.modified_ms,
        None => 0,
    }
}

/// The board row of one planned file.
///
/// A file that moves is removed at its old path and arrives at the new one, where
/// the same facts are shown. A file that is deleted shows the copy that survives,
/// where there is one, with the same size.
pub open spec fn is_plan_row(
    meta: RowMeta,
    body: RowBody,
    from: Seq<char>,
    to: Option<Seq<char>>,
    facts: Option<FileFacts>,
    organize: bool,
) -> bool {
    &&& meta.key@ == KeyModel::Source(from)
    &&& meta.left_status == Status::WillDelete
    &&& meta.right_status == if organize {
        Status::OnlyHere
    } else if to is Some {
        Status::Same
    } else {
        Status::Absent
    }
    &&& meta.left_size == size_of(facts)
    &&& meta.left_modified == time_of(facts)
    &&& meta.right_size == if !organize && to is Some {
        size_of(facts)
    } else {
        0
    }
    &&& meta.right_modified == 0
    &&& views(meta.left_paths@) == seq![from]
    &&& views(meta.right_paths@) == match to {
        Some(t) => seq![t],
        None => Seq::empty(),
    }
    &&& !meta.unchanged
    &&& meta.cmds@ == seq![Cmd::Apply, Cmd::Hide]
    &&& body.left.facts == facts
    &&& body.left.overlay == Some(CellOverlay::WillDelete)
    &&& body.right.facts == if organize {
        facts
    } else {
        None
    }
    &&& body.right.overlay == if organize {
        Some(CellOverlay::New)
    } else {
        None
    }
}

fn copy_known(facts: &Option<FileFacts>) -> (r: Option<FileFacts>)
    ensures
        r == *facts,
{
    match facts {
        Some(f) => Some(copy_facts(f)),
        None => None,
    }
}

fn plan_row(pair: &PlanPair, facts: &Option<FileFacts>, organize: bool) -> (r: (RowMeta, RowBody))
    ensures
        is_plan_row(
            r.0,
            r.1,
            pair.0@,
            crate::filter_ui::opt_view(pair.1),
            *facts,
            organize,
        ),
{
    let (size, time) = match facts {
        Some(f) => (f.size, f.modified_ms),
        None => (0u64, 0i64),
    };
    let mut left_paths: Vec<String> = Vec::new();
    left_paths.push(pair.0.clone());
    assert(views(left_paths@) =~= seq![pair.0@]);
    let mut right_paths: Vec<String> = Vec::new();
    let has_other = pair.1.is_some();
    if let Some(t) = &pair.1 {
        right_paths.push(t.clone());
        assert(views(right_paths@) =~= seq![t@]);
    } else {
        assert(views(right_paths@) =~= Seq::empty());
    }
    let mut cmds: Vec<Cmd> = Vec::new();
    cmds.push(Cmd::Apply);
    cmds.push(Cmd::Hide);
    assert(cmds@ =~= seq![Cmd::Apply, Cmd::Hide]);
    let right_status = if organize {
        Status::OnlyHere
    } else if has_other {
        Status::Same
    } else {
        Status::Absent
    };
    let right_size: u64 = if !organize && has_other {
        size
    } else {
        0
    };
    let meta = RowMeta {
        key: RowKey::Source(pair.0.clone()),
        left_status: Status::WillDelete,
        right_status,
        left_size: size,
        left_modified: time,
        right_size,
        right_modified: 0,
        left_paths,
        right_paths,
        unchanged: false,
        cmds,
    };
    let right = if organize {
        SideBody { facts: copy_known(facts), overlay: Some(CellOverlay::New) }
    } else {
        SideBody::nothing()
    };
    let left = SideBody { facts: copy_known(facts), overlay: Some(CellOverlay::WillDelete) };
    (meta, RowBody { left, right })
}

/// The preview of a plan: a board row for each listed file, the counts, and what
/// is said of them. `facts` are the facts of the listed files, in order.
pub fn build_preview(plan: Planned, source_header: String, facts: &Vec<Option<FileFacts>>) -> (r:
    PreviewData)
    requires
        facts@.len() == plan.paths@.len(),
    ensures
        r.metas@.len() == plan.paths@.len(),
        r.bodies@.len() == plan.paths@.len(),
        forall|i: int|
            0 <= i < plan.paths@.len() ==> is_plan_row(
                #[trigger] r.metas@[i],
                r.bodies@[i],
                pairs_view(plan.paths@)[i].0,
                pairs_view(plan.paths@)[i].1,
                facts@[i],
                plan.organize,
            ),
        r.total == plan.total,
        r.totals@ == if plan.organize {
            seq![plan.total, plan.total, 0, 0]
        } else {
            seq![plan.total, 0, 0, 0]
        },
        r.source_header@ == source_header@,
        crate::filter_ui::opt_view(r.target_header) == if plan.organize {
            Some(source_header@)
        } else {
            crate::filter_ui::opt_view(plan.target_header)
        },
        r.status@ == dec(plan.total as nat) + if plan.organize {
            " file(s) would move."@
        } else {
            " file(s) match."@
        },
{
    let mut metas: Vec<RowMeta> = Vec::new();
    let mut bodies: Vec<RowBody> = Vec::new();
    let mut i: usize = 0;
    while i < plan.paths.len()
        invariant
            i <= plan.paths@.len(),
            facts@.len() == plan.paths@.len(),
            metas@.len() == i,
            bodies@.len() == i,
            forall|k: int|
                0 <= k < i ==> is_plan_row(
                    #[trigger] metas@[k],
                    bodies@[k],
                    pairs_view(plan.paths@)[k].0,
                    pairs_view(plan.paths@)[k].1,
                    facts@[k],
                    plan.organize,
                ),
        decreases plan.paths@.len() - i,
    {
        let (meta, body) = plan_row(&plan.paths[i], &facts[i], plan.organize);
        metas.push(meta);
        bodies.push(body);
        i += 1;
    }
    let mut status = String::new();
    push_decimal(&mut status, plan.total as u128);
    let totals: [usize; 4];
    let target_header: Option<String>;
    if plan.organize {
        status.append(" file(s) would move.");
        totals = [plan.total, plan.total, 0, 0];
        target_header = Some(source_header.clone());
    } else {
        status.append(" file(s) match.");
        totals = [plan.total, 0, 0, 0];
        target_header = copy_opt(&plan.target_header);
    }
    assert(status@ =~= dec(plan.total as nat) + if plan.organize {
        " file(s) would move."@
    } else {
        " file(s) match."@
    });
    PreviewData {
        metas,
        bodies,
        total: plan.total,
        totals,
        source_header,
        target_header,
        status,
    }
}

/// A plan of deletions is complete: it lists every file whose content the pool
/// knows or once held and that is not accepted, each once and in order, with the
/// copy that the pool has of it where it has one; and it lists no other.
pub proof fn law_every_redundant_file_is_listed(items: Seq<DiffItem>, accepted: Texts)
    ensures
        picks(
            items,
            redundant(items, accepted),
            |item: DiffItem|
                match item {
                    DiffItem::Equal { rel_path, .. } => !accepted.contains(rel_path@),
                    DiffItem::DeletedInReference { rel_path } => !accepted.contains(rel_path@),
                    DiffItem::New { .. } => false,
                },
            |item: DiffItem|
                match item {
                    DiffItem::Equal { rel_path, reference_path } => (
                        rel_path@,
                        if reference_path@.len() > 0 {
                            Some(reference_path@)
                        } else {
                            None
                        },
                    ),
                    DiffItem::DeletedInReference { rel_path } => (rel_path@, None),
                    DiffItem::New { rel_path } => (rel_path@, None),
                },
        ),
    decreases items.len(),
{
    let keep = |item: DiffItem|
        match item {
            DiffItem::Equal { rel_path, .. } => !accepted.contains(rel_path@),
            DiffItem::DeletedInReference { rel_path } => !accepted.contains(rel_path@),
            DiffItem::New { .. } => false,
        };
    let give = |item: DiffItem|
        match item {
            DiffItem::Equal { rel_path, reference_path } => (
                rel_path@,
                if reference_path@.len() > 0 {
                    Some(reference_path@)
                } else {
                    None
                },
            ),
            DiffItem::DeletedInReference { rel_path } => (rel_path@, None),
            DiffItem::New { rel_path } => (rel_path@, None),
        };
    if items.len() == 0 {
        lemma_picks_nothing(items, redundant(items, accepted), keep, give);
    } else {
        let part = items.drop_last();
        law_every_redundant_file_is_listed(part, accepted);
        lemma_picks_last(items, redundant(part, accepted), redundant(items, accepted), keep, give);
    }
}

/// What a plan shows and counts of a comparison: all the files it is about are
/// counted, and the first of them are shown, up to what a board holds.
pub proof fn law_a_plan_of_deletions_counts_all_of_them(
    items: Vec<DiffItem>,
    accepted: Vec<String>,
    pool: Vec<String>,
)
    ensures
        ({
            let reply = PlanReply::Compared { items, accepted, pool };
            let all = redundant(items@, views(accepted@));
            let shown = if all.len() < PREVIEW_CAP {
                all.len() as int
            } else {
                PREVIEW_CAP as int
            };
            &&& plan_total(reply) == all.len()
            &&& plan_pairs(reply).len() == shown
            &&& forall|i: int| 0 <= i < shown ==> #[trigger] plan_pairs(reply)[i] == all[i]
            &&& (plan_target(reply) is None) == (pool@.len() == 0)
            &&& pool@.len() == 1 ==> plan_target(reply) == Some(pool@[0]@)
            &&& pool@.len() > 0 ==> plan_target(reply) == Some(joined(views(pool@), ", "@))
        }),
{
}

/// A plan of moves pairs every file with its own new path, in order, and a plan of
/// listed files gives none a counterpart.
pub proof fn law_a_plan_keeps_its_files(
    moves: Vec<(String, String)>,
    paths: Vec<String>,
    total: usize,
    i: int,
)
    ensures
        ({
            let moving = PlanReply::Moves { moves };
            let listed = PlanReply::Listed { paths, total };
            &&& plan_total(moving) == moves@.len()
            &&& plan_pairs(moving).len() == if moves@.len() < PREVIEW_CAP {
                moves@.len() as int
            } else {
                PREVIEW_CAP as int
            }
            &&& 0 <= i < plan_pairs(moving).len() ==> plan_pairs(moving)[i] == (
                moves@[i].0@,
                Some(moves@[i].1@),
            )
            &&& plan_total(listed) == total
            &&& plan_pairs(listed).len() == paths@.len()
            &&& 0 <= i < paths@.len() ==> plan_pairs(listed)[i] == (paths@[i]@, None::<Seq<char>>)
            &&& plan_target(moving) is None
            &&& plan_target(listed) is None
        }),
{
}

/// The row of a planned file stands for that file: its left side is the file, which
/// goes; its right side is the copy that stays, the new path, or nothing.
pub proof fn law_a_plan_row_shows_its_file(
    meta: RowMeta,
    body: RowBody,
    from: Seq<char>,
    to: Option<Seq<char>>,
    facts: Option<FileFacts>,
    organize: bool,
)
    requires
        is_plan_row(meta, body, from, to, facts, organize),
    ensures
        meta.key@ == KeyModel::Source(from),
        meta.left_paths@.len() == 1 && meta.left_paths@[0]@ == from,
        meta.left_status == Status::WillDelete,
        to matches Some(t) ==> meta.right_paths@.len() == 1 && meta.right_paths@[0]@ == t,
        to is None ==> meta.right_paths@.len() == 0,
        organize ==> meta.right_status == Status::OnlyHere && meta.right_size == 0,
        !organize && to is Some ==> meta.right_status == Status::Same && meta.right_size
            == meta.left_size,
        !organize && to is None ==> meta.right_status == Status::Absent && meta.right_size == 0,
        facts matches Some(f) ==> meta.left_size == f.size && meta.left_modified == f.modified_ms,
        facts is None ==> meta.left_size == 0 && meta.left_modified == 0,
        body.left.facts == facts,
        body.right.facts == if organize {
            facts
        } else {
            None
        },
        meta.cmds@.contains(Cmd::Apply) && meta.cmds@.contains(Cmd::Hide),
        !meta.unchanged,
{
    assert(views(meta.left_paths@).len() == meta.left_paths@.len());
    assert(views(meta.right_paths@).len() == meta.right_paths@.len());
    assert(views(meta.left_paths@)[0] == meta.left_paths@[0]@);
    if to is Some {
        assert(views(meta.right_paths@)[0] == meta.right_paths@[0]@);
    }
    assert(meta.cmds@[0] == Cmd::Apply);
    assert(meta.cmds@[1] == Cmd::Hide);
}

/// The repositories swept along with one are the sinks of the first group that has
/// it as its main, and none where no group has.
pub proof fn law_only_the_mains_sinks_are_swept(groups: Seq<BackupGroup>, repo: Seq<char>)
    ensures
        forall|i: int|
            0 <= i < groups.len() && (#[trigger] groups[i]).main@ == repo && (forall|k: int|
                0 <= k < i ==> (#[trigger] groups[k]).main@ != repo) ==> sinks_of(groups, repo)
                == views(groups[i].sinks@),
        (forall|i: int| 0 <= i < groups.len() ==> (#[trigger] groups[i]).main@ != repo)
            ==> sinks_of(groups, repo).len() == 0,
    decreases groups.len(),
{
    if groups.len() > 0 {
        let rest = groups.drop_first();
        law_only_the_mains_sinks_are_swept(rest, repo);
        assert forall|i: int|
            0 <= i < groups.len() && (#[trigger] groups[i]).main@ == repo && (forall|k: int|
                0 <= k < i ==> (#[trigger] groups[k]).main@ != repo) implies sinks_of(groups, repo)
            == views(groups[i].sinks@) by {
            if i > 0 {
                assert(groups[0].main@ != repo);
                assert(rest[i - 1] == groups[i]);
                assert forall|k: int| 0 <= k < i - 1 implies (#[trigger] rest[k]).main@ != repo by {
                    assert(rest[k] == groups[k + 1]);
                }
            }
        }
        if forall|i: int| 0 <= i < groups.len() ==> (#[trigger] groups[i]).main@ != repo {
            assert(groups[0].main@ != repo);
            assert forall|i: int| 0 <= i < rest.len() implies (#[trigger] rest[i]).main@
                != repo by {
                assert(rest[i] == groups[i + 1]);
            }
        }
    }
}

/// What a run's report says: its title, what it counted under which word, whether it
/// was cancelled, and what failed.
pub proof fn law_a_report_counts_what_was_done(result: OpResult)
    requires
        result matches OpResult::EmptyDirs { errors, .. } ==> errors@.len() <= u64::MAX,
    ensures
        result matches OpResult::Deleted { deleted, cancelled } ==> {
            let r = op_report(result);
            &&& r.title == "Delete"@
            &&& r.counts == seq![("deleted"@, deleted)]
            &&& r.cancelled == cancelled
            &&& r.problems.len() == 0
        },
        result matches OpResult::EmptyDirs { removed, repos, errors } ==> {
            let r = op_report(result);
            &&& r.title == "Remove empty dirs"@
            &&& r.counts[0] == ("removed"@, removed)
            &&& repos > 1 ==> r.counts.len() == 2 && r.counts[1] == ("repositories swept"@, repos)
            &&& repos <= 1 ==> r.counts.len() == 1
            &&& r.total() == errors@.len()
            &&& !r.cancelled
        },
        result matches OpResult::Organized { moved, skipped, failed, cancelled } ==> {
            let r = op_report(result);
            &&& r.title == "Organize"@
            &&& r.counts[0] == ("moved"@, moved)
            &&& r.counts[1] == ("skipped"@, skipped)
            &&& failed > 0 ==> r.counts.len() == 3 && r.counts[2] == ("errors"@, failed)
            &&& failed == 0 ==> r.counts.len() == 2
            &&& r.total() == failed
            &&& r.cancelled == cancelled
        },
        result matches OpResult::Pruned { pruned, compacted, cancelled } ==> {
            let r = op_report(result);
            &&& r.title == "Prune"@
            &&& r.counts == seq![("records dropped"@, pruned)]
            &&& r.cancelled == cancelled
            &&& r.notes.len() == 1
            &&& cancelled ==> r.notes[0] == "Cancelled: the index was not compacted."@
            &&& !cancelled && compacted ==> r.notes[0] == "The index was compacted."@
            &&& !cancelled && !compacted ==> r.notes[0] == "The index was already compact."@
        },
        result matches OpResult::Error(e) ==> {
            let r = op_report(result);
            &&& r.title == "Grooming"@
            &&& r.problems == seq![e@]
            &&& r.counts.len() == 0
        },
{
    if let OpResult::EmptyDirs { removed, errors, .. } = result {
        let m = ReportModel::titled("Remove empty dirs"@).with_count("removed"@, removed);
        crate::run_result::lemma_problems_keep(m, views(errors@));
        crate::run_result::law_problems_are_listed_in_order(m, views(errors@));
        assert(views(errors@).len() == errors@.len());
    }
}

/// What a run of one row is said to have done, command by command, and how many
/// directories were removed, in words.
pub proof fn law_a_deed_is_named_by_its_command(n: nat)
    ensures
        deed(Command::Organize) == "Moved"@,
        deed(Command::Prune) == "Pruned"@,
        deed(Command::Dedupe) == "Deleted"@,
        deed(Command::Purge) == "Deleted"@,
        n == 1 ==> directories(n) == dec(1) + " directory"@,
        n != 1 ==> directories(n) == dec(n) + " directories"@,
{
    reveal_strlit(" director");
    reveal_strlit("y");
    reveal_strlit("ies");
    reveal_strlit(" directory");
    reveal_strlit(" directories");
    assert(dec(1) + " director"@ + "y"@ =~= dec(1) + " directory"@);
    assert(dec(n) + " director"@ + "ies"@ =~= dec(n) + " directories"@);
}

/// The commands are named after what they do.
pub proof fn law_commands_are_named_after_what_they_do()
    ensures
        Command::Dedupe.title() == "DEDUPE"@,
        Command::Purge.title() == "PURGE"@,
        Command::EmptyDirs.title() == "EMPTY DIRS"@,
        Command::Organize.title() == "ORGANIZE"@,
        Command::Prune.title() == "PRUNE"@,
{
}

} // verus!
