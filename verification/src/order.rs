//! The order of texts: by their characters' code points, a text before every
//! longer one that begins with it. Sorted lists of distinct texts.

use vstd::prelude::*;

use crate::text::{chars_of, views};

verus! {

/// `a` comes before `b`.
pub open spec fn before(a: Seq<char>, b: Seq<char>) -> bool
    decreases a.len(),
{
    if b.len() == 0 {
        false
    } else if a.len() == 0 {
        true
    } else if a[0] != b[0] {
        (a[0] as int) < (b[0] as int)
    } else {
        before(a.drop_first(), b.drop_first())
    }
}

/// No text comes before itself, and of two different ones exactly one is first.
pub proof fn lemma_before_total(a: Seq<char>, b: Seq<char>)
    ensures
        !before(a, a),
        a != b ==> before(a, b) != before(b, a),
        before(a, b) ==> a != b && !before(b, a),
    decreases a.len(),
{
    if a.len() > 0 {
        lemma_before_total(a.drop_first(), if b.len() > 0 {
            b.drop_first()
        } else {
            a.drop_first()
        });
    }
    if a.len() > 0 && b.len() > 0 && a[0] == b[0] {
        if a.drop_first() == b.drop_first() {
            assert(a =~= seq![a[0]] + a.drop_first());
            assert(b =~= seq![b[0]] + b.drop_first());
        }
    } else if a.len() == 0 && b.len() == 0 {
        assert(a =~= b);
    }
}

/// The order is transitive.
pub proof fn lemma_before_transitive(a: Seq<char>, b: Seq<char>, c: Seq<char>)
    requires
        before(a, b),
        before(b, c),
    ensures
        before(a, c),
    decreases a.len(),
{
    if a.len() > 0 && a[0] == b[0] && b[0] == c[0] {
        lemma_before_transitive(a.drop_first(), b.drop_first(), c.drop_first());
    }
}

/// Whether `a` comes before `b`.
pub fn comes_before(a: &str, b: &str) -> (r: bool)
    ensures
        r == before(a@, b@),
{
    let x = chars_of(a);
    let y = chars_of(b);
    let mut i: usize = 0;
    assert(x@.skip(0) == x@);
    assert(y@.skip(0) == y@);
    while i < x.len() && i < y.len()
        invariant
            i <= x@.len(),
            i <= y@.len(),
            x@ == a@,
            y@ == b@,
            before(a@, b@) == before(x@.skip(i as int), y@.skip(i as int)),
        decreases x@.len() - i,
    {
        proof {
            assert(x@.skip(i as int).drop_first() =~= x@.skip(i + 1));
            assert(y@.skip(i as int).drop_first() =~= y@.skip(i + 1));
            assert(x@.skip(i as int)[0] == x@[i as int]);
            assert(y@.skip(i as int)[0] == y@[i as int]);
        }
        let c: char = x[i];
        let d: char = y[i];
        if c != d {
            proof {
                vstd::utf8::char_u32_cast(c, c as u32);
                vstd::utf8::char_u32_cast(d, d as u32);
            }
            return (c as u32) < (d as u32);
        }
        i += 1;
    }
    i < y.len()
}

/// Ascending, with no text twice.
pub open spec fn ascending(list: Seq<Seq<char>>) -> bool {
    forall|i: int, j: int| 0 <= i < j < list.len() ==> before(list[i], list[j])
}

/// Puts `value` where it belongs in an ascending list, unless it is there.
pub fn insert_ascending(list: &mut Vec<String>, value: &String)
    requires
        ascending(views(old(list)@)),
    ensures
        ascending(views(final(list)@)),
        forall|x: Seq<char>|
            #[trigger] views(final(list)@).contains(x) <==> views(old(list)@).contains(x) || x
                == value@,
{
    let ghost start = views(list@);
    let mut i: usize = 0;
    while i < list.len() && comes_before(list[i].as_str(), value.as_str())
        invariant
            i <= list@.len(),
            start == views(list@),
            forall|k: int| 0 <= k < i ==> before(#[trigger] start[k], value@),
        decreases list@.len() - i,
    {
        i += 1;
    }
    if i < list.len() && list[i] == *value {
        assert(start[i as int] == value@);
        return;
    }
    list.insert(i, value.clone());
    proof {
        let now = views(list@);
        assert(now =~= start.insert(i as int, value@));
        assert forall|k: int| i <= k < start.len() implies before(value@, #[trigger] start[k]) by {
            assert(start[i as int] != value@);
            lemma_before_total(start[i as int], value@);
            if k > i {
                assert(before(start[i as int], start[k]));
                lemma_before_transitive(value@, start[i as int], start[k]);
            }
        }
        assert forall|a: int, b: int| 0 <= a < b < now.len() implies before(now[a], now[b]) by {
            if a < i && b == i {
                assert(now[a] == start[a]);
            } else if a < i && b > i {
                assert(now[a] == start[a] && now[b] == start[b - 1]);
            } else if a == i {
                assert(now[b] == start[b - 1]);
            } else if a > i {
                assert(now[a] == start[a - 1] && now[b] == start[b - 1]);
            } else {
                assert(now[a] == start[a] && now[b] == start[b]);
            }
        }
        assert forall|x: Seq<char>| #[trigger] now.contains(x) <==> start.contains(x) || x
            == value@ by {
            if start.contains(x) {
                let k = start.index_of(x);
                if k < i {
                    assert(now[k] == x);
                } else {
                    assert(now[k + 1] == x);
                }
            }
            if x == value@ {
                assert(now[i as int] == x);
            }
            if now.contains(x) {
                let k = now.index_of(x);
                if k < i {
                    assert(start[k] == x);
                } else if k > i {
                    assert(start[k - 1] == x);
                }
            }
        }
    }
}

/// Where two texts first differ decides, by the code point there; a text comes before
/// every longer one that it begins.
pub proof fn law_the_first_difference_decides(
    same: Seq<char>,
    x: char,
    y: char,
    rest: Seq<char>,
    more: Seq<char>,
)
    ensures
        x != y ==> before(same.push(x) + rest, same.push(y) + more) == ((x as int) < (y as int)),
        before(same, same.push(x) + rest),
        !before(same.push(x) + rest, same),
    decreases same.len(),
{
    let a = same.push(x) + rest;
    let b = same.push(y) + more;
    if same.len() > 0 {
        let s = same.drop_first();
        law_the_first_difference_decides(s, x, y, rest, more);
        assert(a.drop_first() =~= s.push(x) + rest);
        assert(b.drop_first() =~= s.push(y) + more);
    }
}

} // verus!
