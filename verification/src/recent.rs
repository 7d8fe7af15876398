//! Lists of recently used values: newest first, no value twice, bounded.

use vstd::prelude::*;

use crate::text::{trim, trimmed, views};

verus! {

broadcast use vstd::seq_lib::group_seq_properties;

/// How many recent values per kind are remembered and offered as quick-picks.
pub const HISTORY_LIMIT: usize = 12;

/// A list of texts.
pub type Texts = Seq<Seq<char>>;

/// The list without a value.
pub open spec fn without(list: Texts, value: Seq<char>) -> Texts
    decreases list.len(),
{
    if list.len() == 0 {
        list
    } else if list.last() == value {
        without(list.drop_last(), value)
    } else {
        without(list.drop_last(), value).push(list.last())
    }
}

/// The first [`HISTORY_LIMIT`] values of a list.
pub open spec fn capped(list: Texts) -> Texts {
    if list.len() <= HISTORY_LIMIT {
        list
    } else {
        list.take(HISTORY_LIMIT as int)
    }
}

/// Recording this value leaves the list as it is: the value is blank, or already
/// the newest.
pub open spec fn nothing_to_record(list: Texts, value: Seq<char>) -> bool {
    let v = trimmed(value);
    v.len() == 0 || (list.len() > 0 && list[0] == v)
}

/// The list after `value` was recorded.
pub open spec fn recorded(list: Texts, value: Seq<char>) -> Texts {
    if nothing_to_record(list, value) {
        list
    } else {
        capped(seq![trimmed(value)] + without(list, trimmed(value)))
    }
}

/// Records a value at the front of a list, without its blank surroundings,
/// de-duplicating and capping the list. Returns whether the list changed.
pub fn record(list: &mut Vec<String>, value: &str) -> (r: bool)
    ensures
        views(final(list)@) == recorded(views(old(list)@), value@),
        r == !nothing_to_record(views(old(list)@), value@),
{
    let v = trim(value);
    if v.as_str().is_empty() {
        return false;
    }
    if list.len() > 0 && list[0] == v {
        return false;
    }
    let ghost start = views(list@);
    let mut out: Vec<String> = Vec::new();
    out.push(v.clone());
    let mut i: usize = 0;
    assert(views(out@) =~= seq![v@] + without(start.take(0), v@));
    while i < list.len()
        invariant
            i <= list@.len(),
            start == views(list@),
            views(out@) == seq![v@] + without(start.take(i as int), v@),
        decreases list@.len() - i,
    {
        proof {
            assert(start.take(i + 1).drop_last() == start.take(i as int));
            assert(start.take(i + 1).last() == list@[i as int]@);
        }
        let ghost before = out@;
        if list[i] != v {
            out.push(list[i].clone());
            assert(views(out@) =~= views(before).push(list@[i as int]@));
            assert(views(out@) =~= seq![v@] + without(start.take(i + 1), v@));
        }
        i += 1;
    }
    assert(start.take(i as int) == start);
    let ghost all = out@;
    out.truncate(HISTORY_LIMIT);
    assert(views(out@) =~= capped(views(all)));
    *list = out;
    true
}

/// Holds no value twice.
pub open spec fn distinct(list: Texts) -> bool {
    forall|i: int, j: int| 0 <= i < j < list.len() ==> list[i] != list[j]
}

proof fn lemma_without(list: Texts, value: Seq<char>)
    ensures
        without(list, value).len() <= list.len(),
        forall|i: int|
            0 <= i < without(list, value).len() ==> #[trigger] without(list, value)[i] != value
                && list.contains(without(list, value)[i]),
        forall|x: Seq<char>| x != value && list.contains(x) ==> without(list, value).contains(x),
        distinct(list) ==> distinct(without(list, value)),
    decreases list.len(),
{
    if list.len() > 0 {
        let rest = list.drop_last();
        lemma_without(rest, value);
        let w = without(list, value);
        let wr = without(rest, value);
        assert forall|i: int| 0 <= i < w.len() implies #[trigger] w[i] != value && list.contains(
            w[i],
        ) by {
            if i < wr.len() {
                assert(w[i] == wr[i]);
                let k = rest.index_of(wr[i]);
                assert(rest.contains(wr[i]));
                assert(list[k] == wr[i]);
            } else {
                assert(list[list.len() - 1] == w[i]);
            }
        }
        assert forall|x: Seq<char>| x != value && list.contains(x) implies w.contains(x) by {
            let k = list.index_of(x);
            if k < rest.len() {
                assert(rest[k] == x);
                assert(rest.contains(x));
                assert(wr.contains(x));
                let m = wr.index_of(x);
                assert(w[m] == x);
            } else {
                assert(w[w.len() - 1] == x);
            }
        }
        if distinct(list) {
            assert forall|i: int, j: int| 0 <= i < j < rest.len() implies rest[i] != rest[j] by {
                assert(rest[i] == list[i]);
                assert(rest[j] == list[j]);
            }
            assert forall|i: int, j: int| 0 <= i < j < w.len() implies w[i] != w[j] by {
                if j == wr.len() {
                    assert(rest.contains(wr[i]));
                    let k = rest.index_of(wr[i]);
                    assert(list[k] == w[i]);
                    assert(list[k] != list[list.len() - 1]);
                } else {
                    assert(w[i] == wr[i]);
                    assert(w[j] == wr[j]);
                }
            }
        }
    }
}

/// A recorded value that is not blank stands first; the list holds no value
/// twice if it held none before, and never grows past the limit once within it.
pub proof fn law_recorded_value_is_first(list: Texts, value: Seq<char>)
    requires
        distinct(list),
        list.len() <= HISTORY_LIMIT,
    ensures
        trimmed(value).len() > 0 ==> recorded(list, value).len() > 0 && recorded(list, value)[0]
            == trimmed(value),
        distinct(recorded(list, value)),
        recorded(list, value).len() <= HISTORY_LIMIT,
{
    let v = trimmed(value);
    if !nothing_to_record(list, value) {
        lemma_without(list, v);
        let w = without(list, v);
        let all = seq![v] + w;
        assert forall|i: int, j: int| 0 <= i < j < all.len() implies all[i] != all[j] by {
            assert(all[j] == w[j - 1]);
            if i > 0 {
                assert(all[i] == w[i - 1]);
            }
        }
        let r = recorded(list, value);
        assert forall|i: int, j: int| 0 <= i < j < r.len() implies r[i] != r[j] by {
            assert(r[i] == all[i]);
            assert(r[j] == all[j]);
        }
    }
}

/// Recording the same value again changes nothing.
pub proof fn law_recording_twice_is_recording_once(list: Texts, value: Seq<char>)
    ensures
        recorded(recorded(list, value), value) == recorded(list, value),
{
}

/// A blank value is never recorded.
pub proof fn law_blank_values_are_ignored(list: Texts, value: Seq<char>)
    requires
        trimmed(value).len() == 0,
    ensures
        recorded(list, value) == list,
{
}

} // verus!
