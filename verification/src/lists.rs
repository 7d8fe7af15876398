//! Lists of names: taking one out, switching one on and off, and keeping those
//! that another list knows.

use vstd::prelude::*;

use crate::naming::is_taken;
use crate::recent::{nothing_to_record, recorded, without, Texts, HISTORY_LIMIT};
use crate::text::{trimmed, views};

verus! {

/// Takes every occurrence of a name out of a list.
pub fn drop_name(list: &mut Vec<String>, name: &String)
    ensures
        views(final(list)@) == without(views(old(list)@), name@),
{
    let ghost all = views(list@);
    let mut out: Vec<String> = Vec::new();
    assert(views(out@) =~= without(all.take(0), name@));
    let mut i: usize = 0;
    while i < list.len()
        invariant
            i <= list@.len(),
            all == views(list@),
            views(out@) == without(all.take(i as int), name@),
        decreases list@.len() - i,
    {
        let ghost was = out@;
        assert(all.take(i + 1).drop_last() =~= all.take(i as int));
        assert(all.take(i + 1).last() == list@[i as int]@);
        if list[i] != *name {
            out.push(list[i].clone());
            assert(views(out@) =~= views(was).push(list@[i as int]@));
        }
        i += 1;
    }
    assert(all.take(i as int) =~= all);
    *list = out;
}

/// What was taken out is no longer there.
pub proof fn lemma_dropped(list: Texts, value: Seq<char>)
    ensures
        !without(list, value).contains(value),
    decreases list.len(),
{
    if list.len() > 0 {
        lemma_dropped(list.drop_last(), value);
        let rest = without(list.drop_last(), value);
        let all = without(list, value);
        if all.contains(value) {
            let k = all.index_of(value);
            if k < rest.len() {
                assert(rest[k] == value);
            }
        }
    }
}

/// Where a name first stands in a list, or the list's length.
pub open spec fn first_at(list: Texts, name: Seq<char>) -> int
    decreases list.len(),
{
    if list.len() == 0 {
        0
    } else if list[0] == name {
        0
    } else {
        1 + first_at(list.drop_first(), name)
    }
}

/// A list after a name was switched: taken out where it first stands, or put at
/// the end.
pub open spec fn switched(list: Texts, name: Seq<char>) -> Texts {
    if first_at(list, name) < list.len() {
        list.remove(first_at(list, name))
    } else {
        list.push(name)
    }
}

/// Where a name first stands in a list, or the list's length.
pub fn position(list: &Vec<String>, name: &str) -> (r: usize)
    ensures
        r == first_at(views(list@), name@),
        r <= list@.len(),
{
    let ghost all = views(list@);
    let mut i: usize = 0;
    assert(all.skip(0) =~= all);
    while i < list.len()
        invariant
            i <= list@.len(),
            all == views(list@),
            first_at(all, name@) == i + first_at(all.skip(i as int), name@),
        decreases list@.len() - i,
    {
        assert(all.skip(i as int).drop_first() =~= all.skip(i + 1));
        assert(all.skip(i as int)[0] == list@[i as int]@);
        if crate::text::same_text(list[i].as_str(), name) {
            return i;
        }
        i += 1;
    }
    i
}

/// Switches a name of a list.
pub fn switch_name(list: &mut Vec<String>, name: String)
    ensures
        views(final(list)@) == switched(views(old(list)@), name@),
{
    let ghost all = views(list@);
    let at = position(list, name.as_str());
    if at < list.len() {
        let _gone = list.remove(at);
        assert(views(list@) =~= all.remove(at as int));
    } else {
        let ghost x = name@;
        list.push(name);
        assert(views(list@) =~= all.push(x));
    }
}

/// Those names of a list that another list knows, in order.
pub open spec fn known_of(list: Texts, known: Texts) -> Texts
    decreases list.len(),
{
    if list.len() == 0 {
        Seq::empty()
    } else if known.contains(list.last()) {
        known_of(list.drop_last(), known).push(list.last())
    } else {
        known_of(list.drop_last(), known)
    }
}

/// Those names of a list that another list does not know, in order.
pub open spec fn unknown_of(list: Texts, known: Texts) -> Texts
    decreases list.len(),
{
    if list.len() == 0 {
        Seq::empty()
    } else if known.contains(list.last()) {
        unknown_of(list.drop_last(), known)
    } else {
        unknown_of(list.drop_last(), known).push(list.last())
    }
}

/// Those names of a list that another list knows, or those that it does not know.
pub fn select_names(list: &Vec<String>, known: &Vec<String>, keep_known: bool) -> (r: Vec<String>)
    ensures
        views(r@) == if keep_known {
            known_of(views(list@), views(known@))
        } else {
            unknown_of(views(list@), views(known@))
        },
{
    let ghost all = views(list@);
    let ghost ks = views(known@);
    let mut out: Vec<String> = Vec::new();
    assert(views(out@) =~= Seq::empty());
    let mut i: usize = 0;
    while i < list.len()
        invariant
            i <= list@.len(),
            all == views(list@),
            ks == views(known@),
            views(out@) == if keep_known {
                known_of(all.take(i as int), ks)
            } else {
                unknown_of(all.take(i as int), ks)
            },
        decreases list@.len() - i,
    {
        let ghost was = out@;
        assert(all.take(i + 1).drop_last() =~= all.take(i as int));
        assert(all.take(i + 1).last() == list@[i as int]@);
        if is_taken(known, &list[i]) == keep_known {
            out.push(list[i].clone());
            assert(views(out@) =~= views(was).push(list@[i as int]@));
        }
        i += 1;
    }
    assert(all.take(i as int) =~= all);
    out
}

/// `out` is made of those items of `list` that `keep` holds of, each once and in the
/// order of the list, as `give` turns them; `at` says where each of them stands.
pub open spec fn picks_at<A, B>(
    list: Seq<A>,
    out: Seq<B>,
    keep: spec_fn(A) -> bool,
    give: spec_fn(A) -> B,
    at: Seq<int>,
) -> bool {
    &&& at.len() == out.len()
    &&& forall|j: int|
        0 <= j < at.len() ==> 0 <= #[trigger] at[j] < list.len() && keep(list[at[j]]) && out[j]
            == give(list[at[j]])
    &&& forall|i: int, j: int| 0 <= i < j < at.len() ==> #[trigger] at[i] < #[trigger] at[j]
    &&& forall|k: int| 0 <= k < list.len() && keep(#[trigger] list[k]) ==> at.contains(k)
}

/// `out` is made of those items of `list` that `keep` holds of, all of them, each
/// once and in the order of the list, as `give` turns them.
pub open spec fn picks<A, B>(
    list: Seq<A>,
    out: Seq<B>,
    keep: spec_fn(A) -> bool,
    give: spec_fn(A) -> B,
) -> bool {
    exists|at: Seq<int>| picks_at(list, out, keep, give, at)
}

/// Nothing is picked of nothing.
pub proof fn lemma_picks_nothing<A, B>(
    list: Seq<A>,
    out: Seq<B>,
    keep: spec_fn(A) -> bool,
    give: spec_fn(A) -> B,
)
    requires
        list.len() == 0,
        out.len() == 0,
    ensures
        picks(list, out, keep, give),
{
    assert(picks_at(list, out, keep, give, Seq::empty()));
}

/// What is picked of a list, from what is picked of all but its last item.
pub proof fn lemma_picks_last<A, B>(
    list: Seq<A>,
    rest: Seq<B>,
    out: Seq<B>,
    keep: spec_fn(A) -> bool,
    give: spec_fn(A) -> B,
)
    requires
        list.len() > 0,
        picks(list.drop_last(), rest, keep, give),
        out == if keep(list.last()) {
            rest.push(give(list.last()))
        } else {
            rest
        },
    ensures
        picks(list, out, keep, give),
{
    let part = list.drop_last();
    let at = choose|at: Seq<int>| picks_at(part, rest, keep, give, at);
    let n = list.len() - 1;
    let all = if keep(list.last()) {
        at.push(n)
    } else {
        at
    };
    assert forall|j: int| 0 <= j < all.len() implies 0 <= #[trigger] all[j] < list.len() && keep(
        list[all[j]],
    ) && out[j] == give(list[all[j]]) by {
        if j < at.len() {
            assert(all[j] == at[j]);
            assert(list[at[j]] == part[at[j]]);
        }
    }
    assert forall|i: int, j: int| 0 <= i < j < all.len() implies #[trigger] all[i]
        < #[trigger] all[j] by {
        assert(all[i] == at[i]);
        if j < at.len() {
            assert(all[j] == at[j]);
        }
    }
    assert forall|k: int| 0 <= k < list.len() && keep(#[trigger] list[k]) implies all.contains(
        k,
    ) by {
        if k < n {
            assert(part[k] == list[k]);
            let j = at.index_of(k);
            assert(all[j] == k);
        } else {
            assert(all[at.len() as int] == k);
        }
    }
    assert(picks_at(list, out, keep, give, all));
}

/// The texts other than this one.
pub open spec fn other_than(value: Seq<char>) -> spec_fn(Seq<char>) -> bool {
    |t: Seq<char>| t != value
}

/// Every text as it is.
pub open spec fn as_it_is() -> spec_fn(Seq<char>) -> Seq<char> {
    |t: Seq<char>| t
}

/// `out` is `list` with every `value` taken out, and nothing else.
pub open spec fn drops(list: Texts, out: Texts, value: Seq<char>) -> bool {
    picks(list, out, other_than(value), as_it_is())
}

/// Taking a name out of a list leaves every other name, in order.
pub proof fn law_dropping_leaves_the_others(list: Texts, value: Seq<char>)
    ensures
        drops(list, without(list, value), value),
    decreases list.len(),
{
    let keep = other_than(value);
    let give = as_it_is();
    if list.len() == 0 {
        lemma_picks_nothing(list, without(list, value), keep, give);
    } else {
        law_dropping_leaves_the_others(list.drop_last(), value);
        lemma_picks_last(
            list,
            without(list.drop_last(), value),
            without(list, value),
            keep,
            give,
        );
    }
}

/// The names that another list knows are all kept, in order, and no other.
pub proof fn law_known_names_are_kept(list: Texts, known: Texts)
    ensures
        picks(list, known_of(list, known), |t: Seq<char>| known.contains(t), |t: Seq<char>| t),
        picks(list, unknown_of(list, known), |t: Seq<char>| !known.contains(t), |t: Seq<char>| t),
    decreases list.len(),
{
    let keep = |t: Seq<char>| known.contains(t);
    let other = |t: Seq<char>| !known.contains(t);
    let give = |t: Seq<char>| t;
    if list.len() == 0 {
        lemma_picks_nothing(list, known_of(list, known), keep, give);
        lemma_picks_nothing(list, unknown_of(list, known), other, give);
    } else {
        let part = list.drop_last();
        law_known_names_are_kept(part, known);
        lemma_picks_last(list, known_of(part, known), known_of(list, known), keep, give);
        lemma_picks_last(list, unknown_of(part, known), unknown_of(list, known), other, give);
    }
}

proof fn lemma_first_at(list: Texts, name: Seq<char>)
    ensures
        0 <= first_at(list, name) <= list.len(),
        forall|k: int| 0 <= k < first_at(list, name) ==> #[trigger] list[k] != name,
        first_at(list, name) < list.len() ==> list[first_at(list, name)] == name,
    decreases list.len(),
{
    if list.len() > 0 && list[0] != name {
        lemma_first_at(list.drop_first(), name);
        assert forall|k: int| 0 <= k < first_at(list, name) implies #[trigger] list[k] != name by {
            if k > 0 {
                assert(list.drop_first()[k - 1] == list[k]);
            }
        }
    }
}

/// Switching a name that is not in a list puts it at the end; switching one that is
/// takes out its first occurrence. Every other name stays where it stands.
pub proof fn law_switching_changes_one_name(list: Texts, name: Seq<char>)
    ensures
        !list.contains(name) ==> switched(list, name) == list.push(name),
        list.contains(name) ==> exists|p: int|
            {
                &&& 0 <= p < list.len()
                &&& #[trigger] list[p] == name
                &&& !list.take(p).contains(name)
                &&& switched(list, name) == list.take(p) + list.skip(p + 1)
            },
{
    lemma_first_at(list, name);
    let p = first_at(list, name);
    if list.contains(name) {
        let k = list.index_of(name);
        assert(list[k] == name);
        assert(p < list.len());
        assert(list[p] == name);
        if list.take(p).contains(name) {
            let q = list.take(p).index_of(name);
            assert(list.take(p)[q] == list[q]);
        }
        assert(list.remove(p) =~= list.take(p) + list.skip(p + 1));
    } else if p < list.len() {
        assert(list.contains(list[p]));
    }
}

/// Recording a value puts it first, trimmed, before the others in their order and
/// once only, and keeps to the limit. A blank value, and one that stands first
/// already, change nothing.
pub proof fn law_recording_puts_the_value_first(list: Texts, value: Seq<char>) -> (others: Texts)
    ensures
        drops(list, others, trimmed(value)),
        trimmed(value).len() == 0 ==> recorded(list, value) == list,
        list.len() > 0 && list[0] == trimmed(value) ==> recorded(list, value) == list,
        trimmed(value).len() > 0 && (list.len() == 0 || list[0] != trimmed(value)) ==> {
            let all = seq![trimmed(value)] + others;
            &&& recorded(list, value) != list
            &&& recorded(list, value) == all.take(
                if all.len() < HISTORY_LIMIT {
                    all.len() as int
                } else {
                    HISTORY_LIMIT as int
                },
            )
        },
        nothing_to_record(list, value) <==> recorded(list, value) == list,
{
    let others = without(list, trimmed(value));
    law_dropping_leaves_the_others(list, trimmed(value));
    let all = seq![trimmed(value)] + others;
    assert(all.take(all.len() as int) =~= all);
    if !nothing_to_record(list, value) {
        assert(recorded(list, value)[0] == trimmed(value));
    }
    others
}

} // verus!
