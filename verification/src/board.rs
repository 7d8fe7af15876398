//! The rows of the plan board: what each row says of its two sides, and what its
//! cells show.

use vstd::prelude::*;

use crate::lists::{lemma_picks_last, lemma_picks_nothing, picks};
use crate::media_cell::{CellOverlay, ExifInfo, FileFacts, FilePlace};
use crate::row_keys::RowKey;
use crate::text::copy_opt;

verus! {

/// What a plan says of one side of a row.
#[derive(Clone, Copy, Debug, PartialEq, Eq, Structural)]
pub enum Status {
    /// The same content is on the other side.
    Same,
    /// The content is on this side only, or about to arrive.
    OnlyHere,
    /// The plan deletes it here.
    WillDelete,
    /// It is not on this side.
    Absent,
}

/// What can be done with a row.
#[derive(Clone, Copy, Debug, PartialEq, Eq, Structural)]
pub enum Cmd {
    /// Carry out this row now.
    Apply,
    /// Leave this row out of the run.
    Hide,
    /// Open the row's file in the viewer.
    OpenRow,
    /// Open the row's two files beside each other.
    Compare,
}

/// A row's cheap facts, from which the board is sorted and counted.
pub struct RowMeta {
    pub key: RowKey,
    pub left_status: Status,
    pub right_status: Status,
    pub left_size: u64,
    pub left_modified: i64,
    pub right_size: u64,
    pub right_modified: i64,
    pub left_paths: Vec<String>,
    pub right_paths: Vec<String>,
    pub unchanged: bool,
    pub cmds: Vec<Cmd>,
}

/// What one side of a row shows.
pub struct SideBody {
    pub facts: Option<FileFacts>,
    pub overlay: Option<CellOverlay>,
}

/// What the two sides of a row show.
pub struct RowBody {
    pub left: SideBody,
    pub right: SideBody,
}

impl SideBody {
    /// A side with nothing to show.
    pub fn nothing() -> (r: Self)
        ensures
            r.facts is None,
            r.overlay is None,
    {
        SideBody { facts: None, overlay: None }
    }
}

/// The same facts again.
pub fn copy_facts(f: &FileFacts) -> (r: FileFacts)
    ensures
        r == *f,
{
    let exif = match &f.exif {
        Some(e) => Some(ExifInfo { taken_ms: e.taken_ms, camera: copy_opt(&e.camera) }),
        None => None,
    };
    FileFacts {
        size: f.size,
        modified_ms: f.modified_ms,
        missing: f.missing,
        mime: copy_opt(&f.mime),
        img_size: f.img_size,
        audio_ms: f.audio_ms,
        audio_seed: f.audio_seed,
        hash_hex: f.hash_hex.clone(),
        place: FilePlace {
            abs_path: f.place.abs_path.clone(),
            file_name: f.place.file_name.clone(),
            extension: copy_opt(&f.place.extension),
        },
        origin: copy_opt(&f.origin),
        exif,
        kinds: f.kinds,
    }
}

/// Some command of a list is this one.
pub fn offers_cmd(cmds: &Vec<Cmd>, cmd: Cmd) -> (r: bool)
    ensures
        r == cmds@.contains(cmd),
{
    let mut i: usize = 0;
    while i < cmds.len()
        invariant
            i <= cmds@.len(),
            forall|k: int| 0 <= k < i ==> cmds@[k] != cmd,
        decreases cmds@.len() - i,
    {
        if cmds[i] == cmd {
            assert(cmds@[i as int] == cmd);
            return true;
        }
        i += 1;
    }
    false
}

/// The commands of a list but one.
pub open spec fn cmds_without(cmds: Seq<Cmd>, cmd: Cmd) -> Seq<Cmd>
    decreases cmds.len(),
{
    if cmds.len() == 0 {
        Seq::empty()
    } else if cmds.last() == cmd {
        cmds_without(cmds.drop_last(), cmd)
    } else {
        cmds_without(cmds.drop_last(), cmd).push(cmds.last())
    }
}

/// The commands of a row that may be offered: applying it is withheld while the
/// locks bar the run.
pub fn allowed_cmds(cmds: &Vec<Cmd>, barred: bool) -> (r: Vec<Cmd>)
    ensures
        r@ == if barred {
            cmds_without(cmds@, Cmd::Apply)
        } else {
            cmds@
        },
{
    let mut out: Vec<Cmd> = Vec::new();
    let mut i: usize = 0;
    while i < cmds.len()
        invariant
            i <= cmds@.len(),
            barred ==> out@ == cmds_without(cmds@.take(i as int), Cmd::Apply),
            !barred ==> out@ == cmds@.take(i as int),
        decreases cmds@.len() - i,
    {
        proof {
            assert(cmds@.take(i + 1).drop_last() =~= cmds@.take(i as int));
            assert(cmds@.take(i + 1) =~= cmds@.take(i as int).push(cmds@[i as int]));
        }
        if !barred || cmds[i] != Cmd::Apply {
            out.push(cmds[i]);
        }
        i += 1;
    }
    assert(cmds@.take(i as int) =~= cmds@);
    out
}

/// While the locks bar the run, no row offers to apply it.
pub proof fn law_barred_rows_offer_no_apply(cmds: Seq<Cmd>)
    ensures
        !cmds_without(cmds, Cmd::Apply).contains(Cmd::Apply),
    decreases cmds.len(),
{
    if cmds.len() > 0 {
        law_barred_rows_offer_no_apply(cmds.drop_last());
        let rest = cmds_without(cmds.drop_last(), Cmd::Apply);
        if cmds.last() != Cmd::Apply && rest.push(cmds.last()).contains(Cmd::Apply) {
            let k = rest.push(cmds.last()).index_of(Cmd::Apply);
            if k < rest.len() {
                assert(rest[k] == Cmd::Apply);
            }
        }
    }
}

/// All commands but the withheld one are offered, in order.
pub proof fn law_all_other_commands_are_offered(cmds: Seq<Cmd>, cmd: Cmd)
    ensures
        picks(cmds, cmds_without(cmds, cmd), |c: Cmd| c != cmd, |c: Cmd| c),
    decreases cmds.len(),
{
    let keep = |c: Cmd| c != cmd;
    let give = |c: Cmd| c;
    if cmds.len() == 0 {
        lemma_picks_nothing(cmds, cmds_without(cmds, cmd), keep, give);
    } else {
        let part = cmds.drop_last();
        law_all_other_commands_are_offered(part, cmd);
        lemma_picks_last(cmds, cmds_without(part, cmd), cmds_without(cmds, cmd), keep, give);
    }
}

} // verus!
