//! Names for things that are saved without one: the first of a numbered series
//! that is not taken.

use vstd::prelude::*;
use vstd::string::*;

use crate::text::{dec, decimal, lemma_dec_injective, views};

verus! {

/// The first number from `n` on whose name in the series is not taken, of at most
/// `tries` further ones.
pub open spec fn free_number(
    names: Seq<Seq<char>>,
    series: spec_fn(nat) -> Seq<char>,
    n: nat,
    tries: nat,
) -> nat
    decreases tries,
{
    if tries == 0 || !names.contains(series(n)) {
        n
    } else {
        free_number(names, series, n + 1, (tries - 1) as nat)
    }
}

/// No name of the series comes twice from `n` on.
pub open spec fn no_repeats(series: spec_fn(nat) -> Seq<char>, n: nat) -> bool {
    forall|a: nat, b: nat|
        n <= a && n <= b && #[trigger] series(a) == #[trigger] series(b) ==> a == b
}

proof fn lemma_free_number(
    names: Seq<Seq<char>>,
    series: spec_fn(nat) -> Seq<char>,
    n: nat,
    tries: nat,
)
    ensures
        n <= free_number(names, series, n, tries) <= n + tries,
        forall|k: nat|
            n <= k < free_number(names, series, n, tries) ==> names.contains(#[trigger] series(k)),
        free_number(names, series, n, tries) < n + tries ==> !names.contains(
            series(free_number(names, series, n, tries)),
        ),
    decreases tries,
{
    if tries > 0 && names.contains(series(n)) {
        lemma_free_number(names, series, n + 1, (tries - 1) as nat);
        assert forall|k: nat| n <= k < free_number(names, series, n, tries) implies names.contains(
            #[trigger] series(k),
        ) by {
            if k > n {
                assert(n + 1 <= k);
            }
        }
    }
}

/// Of one more name than are taken, one is free: the name found is not taken, and
/// every earlier one of the series from `n` on is.
pub proof fn law_a_free_name_is_found(
    names: Seq<Seq<char>>,
    series: spec_fn(nat) -> Seq<char>,
    n: nat,
)
    requires
        no_repeats(series, n),
    ensures
        !names.contains(series(free_number(names, series, n, names.len()))),
        forall|k: nat|
            n <= k < free_number(names, series, n, names.len()) ==> names.contains(
                #[trigger] series(k),
            ),
{
    lemma_free_number(names, series, n, names.len());
    let f = free_number(names, series, n, names.len());
    if f == n + names.len() && names.contains(series(f)) {
        let tried = Seq::new(names.len() + 1, |i: int| series((n + i) as nat));
        assert forall|i: int, j: int| 0 <= i < tried.len() && 0 <= j < tried.len() && i
            != j implies tried[i] != tried[j] by {
            assert(tried[i] == series((n + i) as nat));
            assert(tried[j] == series((n + j) as nat));
        }
        assert(tried.no_duplicates());
        tried.unique_seq_to_set();
        names.lemma_cardinality_of_set();
        assert forall|x: Seq<char>| tried.to_set().contains(x) implies names.to_set().contains(
            x,
        ) by {
            let i = tried.index_of(x);
            assert(tried.contains(x));
            assert(x == series((n + i) as nat));
            assert(names.contains(series((n + i) as nat)));
        }
        vstd::set_lib::lemma_len_subset(tried.to_set(), names.to_set());
    }
}

/// The name with number `n`.
pub open spec fn numbered(n: nat) -> Seq<char> {
    "Preset #"@ + dec(n)
}

/// The numbered names.
pub open spec fn preset_series() -> spec_fn(nat) -> Seq<char> {
    |n: nat| numbered(n)
}

/// The next unused name: numbers are tried from one past the count of names.
pub open spec fn next_name(names: Seq<Seq<char>>) -> Seq<char> {
    numbered(free_number(names, preset_series(), names.len() + 1, names.len()))
}

proof fn lemma_preset_series(n: nat)
    ensures
        no_repeats(preset_series(), n),
{
    let p = "Preset #"@;
    let series = preset_series();
    assert forall|a: nat, b: nat|
        n <= a && n <= b && #[trigger] series(a) == #[trigger] series(b) implies a == b by {
        assert(dec(a) =~= numbered(a).skip(p.len() as int));
        assert(dec(b) =~= numbered(b).skip(p.len() as int));
        lemma_dec_injective(a, b);
    }
}

/// The next name is never one that is taken.
pub proof fn law_next_name_is_unused(names: Seq<Seq<char>>)
    ensures
        !names.contains(next_name(names)),
{
    lemma_preset_series(names.len() + 1);
    law_a_free_name_is_found(names, preset_series(), names.len() + 1);
}

/// Whether a name is on the list.
pub fn is_taken(names: &Vec<String>, name: &String) -> (r: bool)
    ensures
        r == views(names@).contains(name@),
{
    let mut i: usize = 0;
    while i < names.len()
        invariant
            i <= names@.len(),
            forall|k: int| 0 <= k < i ==> (#[trigger] names@[k])@ != name@,
        decreases names@.len() - i,
    {
        if names[i] == *name {
            assert(views(names@)[i as int] == name@);
            return true;
        }
        i += 1;
    }
    assert forall|k: int| 0 <= k < views(names@).len() implies views(names@)[k] != name@ by {
        assert(names@[k]@ != name@);
    }
    false
}

/// The next unused name.
pub fn next_preset_name(names: &Vec<String>) -> (r: String)
    ensures
        r@ == next_name(views(names@)),
        !views(names@).contains(r@),
{
    let ghost all = views(names@);
    let ghost series = preset_series();
    let mut n: u128 = names.len() as u128 + 1;
    let mut tries: usize = names.len();
    let mut name = "Preset #".to_string();
    name.append(decimal(n).as_str());
    while tries > 0 && is_taken(names, &name)
        invariant
            all == views(names@),
            series == preset_series(),
            n + tries == 2 * all.len() + 1,
            all.len() <= usize::MAX,
            name@ == numbered(n as nat),
            free_number(all, series, n as nat, tries as nat) == free_number(
                all,
                series,
                all.len() + 1,
                all.len(),
            ),
        decreases tries,
    {
        n += 1;
        tries -= 1;
        name = "Preset #".to_string();
        name.append(decimal(n).as_str());
    }
    proof {
        law_next_name_is_unused(all);
    }
    name
}

/// The next name is "Preset #" and a number: the smallest past the count of names
/// whose name is not taken.
pub proof fn law_the_next_name_is_the_first_free_one(names: Seq<Seq<char>>) -> (n: nat)
    ensures
        next_name(names) == "Preset #"@ + dec(n),
        n > names.len(),
        !names.contains("Preset #"@ + dec(n)),
        forall|k: nat| names.len() < k < n ==> names.contains("Preset #"@ + #[trigger] dec(k)),
{
    let n = free_number(names, preset_series(), names.len() + 1, names.len());
    lemma_preset_series(names.len() + 1);
    law_a_free_name_is_found(names, preset_series(), names.len() + 1);
    lemma_free_number(names, preset_series(), names.len() + 1, names.len());
    let series = preset_series();
    assert forall|k: nat| names.len() < k < n implies names.contains(
        "Preset #"@ + #[trigger] dec(k),
    ) by {
        assert(series(k) == "Preset #"@ + dec(k));
    }
    assert(series(n) == "Preset #"@ + dec(n));
    n
}

} // verus!
