//! Where a repository lives, and whether it can be reached.

use vstd::prelude::*;
use vstd::string::*;
use vstd::utf8::*;

use crate::recent::Texts;
use crate::text::{
    begins, chars_of, holds_at, is_white, lines, lines_of, push_char, same_text, string_of,
    views, white,
};

verus! {

/// Where a repository lives and whether it can be reached.
#[derive(Debug, Clone, Copy, PartialEq, Eq, Structural)]
pub enum Location {
    /// Local disk, reachable.
    Local,
    /// Network mount, reachable.
    Remote,
    /// Network mount, not currently reachable.
    Offline,
    /// Local path that is no longer accessible.
    Missing,
}

impl Location {
    /// Whether the folder can currently be walked.
    pub fn reachable(self) -> (r: bool)
        ensures
            r == (self is Local || self is Remote),
    {
        match self {
            Location::Local => true,
            Location::Remote => true,
            Location::Offline => false,
            Location::Missing => false,
        }
    }
}

/// Classifies a repository: is it on a network file system, and is it reachable?
pub fn classify(network: bool, reachable: bool) -> (r: Location)
    ensures
        r == if network && reachable {
            Location::Remote
        } else if network {
            Location::Offline
        } else if reachable {
            Location::Local
        } else {
            Location::Missing
        },
{
    match (network, reachable) {
        (true, true) => Location::Remote,
        (true, false) => Location::Offline,
        (false, true) => Location::Local,
        (false, false) => Location::Missing,
    }
}

/// The file system types served over the network.
pub open spec fn network_fs(t: Seq<char>) -> bool {
    ||| t == "nfs"@
    ||| t == "nfs4"@
    ||| t == "cifs"@
    ||| t == "smb3"@
    ||| t == "smbfs"@
    ||| t == "9p"@
    ||| t == "ceph"@
    ||| t == "afs"@
    ||| t == "ncpfs"@
    ||| t == "glusterfs"@
    ||| t == "fuse.glusterfs"@
    ||| t == "sshfs"@
    ||| t == "fuse.sshfs"@
    ||| t == "fuse.rclone"@
    ||| t == "davfs"@
    ||| t == "fuse.davfs2"@
}

/// Whether a file system type is served over the network.
pub fn is_network_fs(fstype: &str) -> (r: bool)
    ensures
        r == network_fs(fstype@),
{
    same_text(fstype, "nfs") || same_text(fstype, "nfs4") || same_text(fstype, "cifs")
        || same_text(fstype, "smb3") || same_text(fstype, "smbfs") || same_text(fstype, "9p")
        || same_text(fstype, "ceph") || same_text(fstype, "afs") || same_text(fstype, "ncpfs")
        || same_text(fstype, "glusterfs") || same_text(fstype, "fuse.glusterfs") || same_text(
        fstype,
        "sshfs",
    ) || same_text(fstype, "fuse.sshfs") || same_text(fstype, "fuse.rclone") || same_text(
        fstype,
        "davfs",
    ) || same_text(fstype, "fuse.davfs2")
}

/// The first place at or after `i` where `needle` stands in `s`.
pub open spec fn find_text(s: Seq<char>, needle: Seq<char>, i: int) -> Option<int>
    decreases s.len() + 1 - i,
{
    if i < 0 || i > s.len() {
        None
    } else if begins(s.skip(i), needle) {
        Some(i)
    } else {
        find_text(s, needle, i + 1)
    }
}

fn find_in(v: &Vec<char>, needle: &str) -> (r: Option<usize>)
    ensures
        match r {
            Some(i) => find_text(v@, needle@, 0) == Some(i as int) && i + needle@.len() <= v@.len(),
            None => find_text(v@, needle@, 0) is None,
        },
{
    let n = v.len();
    let mut i: usize = 0;
    loop
        invariant
            i <= n,
            n == v@.len(),
            find_text(v@, needle@, 0) == find_text(v@, needle@, i as int),
        decreases n - i,
    {
        if holds_at(v, i, needle) {
            return Some(i);
        }
        if i == n {
            assert(find_text(v@, needle@, n + 1) is None);
            return None;
        }
        i += 1;
    }
}

/// Where the word that starts at `i` ends.
pub open spec fn word_end(s: Seq<char>, i: int) -> int
    decreases s.len() - i,
{
    if i < 0 || i >= s.len() || is_white(s[i]) {
        i
    } else {
        word_end(s, i + 1)
    }
}

/// The words of `s` from `i` on: the stretches without white space.
pub open spec fn words_from(s: Seq<char>, i: int) -> Texts
    decreases s.len() - i,
{
    if i < 0 || i >= s.len() {
        Seq::empty()
    } else if is_white(s[i]) {
        words_from(s, i + 1)
    } else {
        proof {
            lemma_word_end(s, i + 1);
        }
        seq![s.subrange(i, word_end(s, i))] + words_from(s, word_end(s, i))
    }
}

/// The words of `s`.
pub open spec fn words(s: Seq<char>) -> Texts {
    words_from(s, 0)
}

fn words_of(s: &str) -> (r: Vec<String>)
    ensures
        views(r@) == words(s@),
{
    let v = chars_of(s);
    let mut out: Vec<String> = Vec::new();
    let mut i: usize = 0;
    assert(views(out@) + words_from(v@, 0) =~= words(s@));
    while i < v.len()
        invariant
            i <= v@.len(),
            v@ == s@,
            views(out@) + words_from(v@, i as int) == words(s@),
        decreases v@.len() - i,
    {
        if white(v[i]) {
            i += 1;
        } else {
            let mut j: usize = i;
            while j < v.len() && !white(v[j])
                invariant
                    i <= j <= v@.len(),
                    word_end(v@, i as int) == word_end(v@, j as int),
                decreases v@.len() - j,
            {
                j += 1;
            }
            let ghost before = out@;
            assert(j > i) by {
                assert(!is_white(v@[i as int]));
                assert(word_end(v@, i as int) == word_end(v@, i + 1));
                lemma_word_end(v@, i + 1);
            }
            let word = string_of(&v, i, j);
            out.push(word);
            proof {
                assert(views(out@) =~= views(before).push(word@));
                assert(views(out@) + words_from(v@, j as int) =~= views(before) + (seq![word@]
                    + words_from(v@, j as int)));
            }
            i = j;
        }
    }
    assert(views(out@) + words_from(v@, i as int) =~= views(out@));
    out
}

/// A word ends at or after its start, inside the text.
pub proof fn lemma_word_end(s: Seq<char>, i: int)
    requires
        0 <= i <= s.len(),
    ensures
        i <= word_end(s, i) <= s.len(),
    decreases s.len() - i,
{
    if i < s.len() && !is_white(s[i]) {
        lemma_word_end(s, i + 1);
    }
}

/// `s` without the slashes at its end.
pub open spec fn without_slashes(s: Seq<char>) -> Seq<char>
    decreases s.len(),
{
    if s.len() > 0 && s.last() == '/' {
        without_slashes(s.drop_last())
    } else {
        s
    }
}

fn trim_slashes(s: &str) -> (r: Vec<char>)
    ensures
        r@ == without_slashes(s@),
{
    let mut v = chars_of(s);
    while v.len() > 0 && v[v.len() - 1] == '/'
        invariant
            without_slashes(s@) == without_slashes(v@),
        decreases v@.len(),
    {
        let ghost before = v@;
        let _ = v.pop();
        assert(v@ =~= before.drop_last());
    }
    v
}

/// `mount_point` is `path` itself or an ancestor directory of it.
pub open spec fn is_under(path: Seq<char>, mount_point: Seq<char>) -> bool {
    let p = without_slashes(path);
    let m = without_slashes(mount_point);
    m.len() == 0 || p == m || begins(p, m + seq!['/'])
}

/// True if `mount_point` is `path` itself or an ancestor directory of it.
pub fn path_has_prefix(path: &str, mount_point: &str) -> (r: bool)
    ensures
        r == is_under(path@, mount_point@),
{
    let p = trim_slashes(path);
    let m = trim_slashes(mount_point);
    if m.len() == 0 {
        return true;
    }
    if p.len() < m.len() {
        return false;
    }
    let mut i: usize = 0;
    while i < m.len()
        invariant
            i <= m@.len() <= p@.len(),
            p@ == without_slashes(path@),
            m@ == without_slashes(mount_point@),
            m@.len() > 0,
            forall|k: int| 0 <= k < i ==> p@[k] == m@[k],
        decreases m@.len() - i,
    {
        if p[i] != m[i] {
            proof {
                let w = m@ + seq!['/'];
                if begins(p@, w) {
                    assert(p@.take(w.len() as int)[i as int] == w[i as int]);
                }
            }
            return false;
        }
        i += 1;
    }
    proof {
        let w = m@ + seq!['/'];
        if p@.len() == m@.len() {
            assert(p@ =~= m@);
        } else if p@[m@.len() as int] == '/' {
            assert(p@.take(w.len() as int) =~= w);
        } else if begins(p@, w) {
            assert(p@.take(w.len() as int)[m@.len() as int] == '/');
        }
    }
    p.len() == m.len() || p[m.len()] == '/'
}

/// The value of an octal digit.
pub open spec fn octal_digit(c: char) -> Option<int> {
    if '0' <= c <= '7' {
        Some(c as int - '0' as int)
    } else {
        None
    }
}

/// The character that three octal digits name, up to 255.
pub open spec fn octal3(x: char, y: char, z: char) -> Option<char> {
    match (octal_digit(x), octal_digit(y), octal_digit(z)) {
        (Some(a), Some(b), Some(c)) => if 64 * a + 8 * b + c <= 255 {
            Some((64 * a + 8 * b + c) as char)
        } else {
            None
        },
        _ => None,
    }
}

/// The text of a field from `i` on with its escapes decoded: a backslash and
/// three octal digits name one character, and every other character stands for
/// itself.
pub open spec fn unescaped_from(field: Seq<char>, i: int) -> Seq<char>
    decreases field.len() - i,
{
    if i < 0 || i >= field.len() {
        Seq::empty()
    } else if field[i] == '\\' && i + 3 < field.len() && octal3(
        field[i + 1],
        field[i + 2],
        field[i + 3],
    ) is Some {
        seq![octal3(field[i + 1], field[i + 2], field[i + 3])->0] + unescaped_from(field, i + 4)
    } else {
        seq![field[i]] + unescaped_from(field, i + 1)
    }
}

/// A mount table field with its octal escapes decoded.
pub open spec fn unescaped(field: Seq<char>) -> Seq<char> {
    unescaped_from(field, 0)
}

proof fn lemma_plain_from(field: Seq<char>, i: int)
    requires
        0 <= i <= field.len(),
        !field.contains('\\'),
    ensures
        unescaped_from(field, i) == field.skip(i),
    decreases field.len() - i,
{
    if i < field.len() {
        lemma_plain_from(field, i + 1);
        assert(field.contains(field[i]));
    }
    assert(unescaped_from(field, i) =~= field.skip(i));
}

/// A field without a backslash stands as it is, whatever its letters.
pub proof fn law_plain_fields_stand(field: Seq<char>)
    requires
        !field.contains('\\'),
    ensures
        unescaped(field) == field,
{
    lemma_plain_from(field, 0);
    assert(field.skip(0) =~= field);
}

fn octal_of(x: char, y: char, z: char) -> (r: Option<char>)
    ensures
        r == octal3(x, y, z),
{
    if x < '0' || x > '3' || y < '0' || y > '7' || z < '0' || z > '7' {
        return None;
    }
    let code: u32 = 64 * (x as u32 - 48) + 8 * (y as u32 - 48) + (z as u32 - 48);
    assert(code <= 255);
    Some(code as u8 as char)
}

/// Decodes the octal escapes of a mount table field (`\040` is a blank).
pub fn unescape_octal(field: &str) -> (r: String)
    ensures
        r@ == unescaped(field@),
{
    let v = chars_of(field);
    let n = v.len();
    let mut out = String::new();
    let mut i: usize = 0;
    assert(out@ + unescaped_from(v@, 0) =~= unescaped_from(v@, 0));
    while i < n
        invariant
            i <= n,
            n == v@.len(),
            out@ + unescaped_from(v@, i as int) == unescaped_from(v@, 0),
        decreases n - i,
    {
        let ghost before = out@;
        let mut step: usize = 1;
        let mut c: char = v[i];
        if v[i] == '\\' && n - i > 3 {
            if let Some(code) = octal_of(v[i + 1], v[i + 2], v[i + 3]) {
                c = code;
                step = 4;
            }
        }
        push_char(&mut out, c);
        proof {
            assert(unescaped_from(v@, i as int) == seq![c] + unescaped_from(v@, i + step));
            assert(out@ + unescaped_from(v@, i + step) =~= before + (seq![c] + unescaped_from(
                v@,
                i + step,
            )));
        }
        i += step;
    }
    assert(out@ + unescaped_from(v@, i as int) =~= out@);
    out
}

/// A mount: where it is, and the type of its file system.
pub struct Mount {
    pub point: Seq<char>,
    pub fstype: Seq<char>,
}

/// The mount that a line of the mount table describes, if it is well formed: the
/// fifth word before the separator is the mount point, the first word after it
/// the file system type.
pub open spec fn line_mount(line: Seq<char>) -> Option<Mount> {
    match find_text(line, " - "@, 0) {
        None => None,
        Some(i) => {
            let left = words(line.take(i));
            let right = words(line.skip(i + " - "@.len()));
            if left.len() > 4 && right.len() > 0 {
                Some(Mount { point: unescaped(left[4]), fstype: right[0] })
            } else {
                None
            }
        },
    }
}

/// The mount that contains `path` among the first lines of a table: the one with
/// the longest mount point, the first of those.
pub open spec fn holding_mount(table: Texts, path: Seq<char>) -> Option<Mount>
    decreases table.len(),
{
    if table.len() == 0 {
        None
    } else {
        let best = holding_mount(table.drop_last(), path);
        match line_mount(table.last()) {
            None => best,
            Some(m) => if !is_under(path, m.point) {
                best
            } else {
                match best {
                    None => Some(m),
                    Some(b) => if encode_utf8(m.point).len() > encode_utf8(b.point).len() {
                        Some(m)
                    } else {
                        best
                    },
                }
            },
        }
    }
}

/// Picks the mount whose mount point is the longest prefix of `path` and says
/// whether its file system is served over the network.
pub fn mountinfo_is_network(content: &str, path: &str) -> (r: bool)
    ensures
        r == match holding_mount(lines(content@), path@) {
            Some(m) => network_fs(m.fstype),
            None => false,
        },
{
    let table = lines_of(content);
    let ghost all = views(table@);
    let mut best: Option<(usize, bool)> = None;
    let mut i: usize = 0;
    while i < table.len()
        invariant
            i <= table@.len(),
            all == views(table@),
            match (best, holding_mount(all.take(i as int), path@)) {
                (None, None) => true,
                (Some(b), Some(m)) => b.0 == encode_utf8(m.point).len() && b.1 == network_fs(
                    m.fstype,
                ),
                _ => false,
            },
        decreases table@.len() - i,
    {
        proof {
            assert(all.take(i + 1).drop_last() =~= all.take(i as int));
            assert(all.take(i + 1).last() == table@[i as int]@);
        }
        let line = chars_of(table[i].as_str());
        if let Some(at) = find_in(&line, " - ") {
            let n = line.len();
            let left = words_of(string_of(&line, 0, at).as_str());
            proof {
                reveal_strlit(" - ");
            }
            let right = words_of(string_of(&line, at + 3, n).as_str());
            proof {
                assert(line@.subrange(0, at as int) =~= line@.take(at as int));
                assert(line@.subrange(at + 3, n as int) =~= line@.skip(at + 3));
            }
            if left.len() > 4 && right.len() > 0 {
                assert(views(left@)[4] == left@[4]@);
                assert(views(right@)[0] == right@[0]@);
                let point = unescape_octal(left[4].as_str());
                if path_has_prefix(path, point.as_str()) {
                    let len: usize = point.as_str().as_bytes().len();
                    let longer = match best {
                        None => true,
                        Some(b) => len > b.0,
                    };
                    if longer {
                        best = Some((len, is_network_fs(right[0].as_str())));
                    }
                }
            } else {
                assert(views(left@).len() == left@.len());
                assert(views(right@).len() == right@.len());
            }
        }
        i += 1;
    }
    assert(all.take(i as int) =~= all);
    match best {
        Some(b) => b.1,
        None => false,
    }
}

proof fn lemma_holding_mount(table: Texts, path: Seq<char>, k: int)
    requires
        0 <= k < table.len(),
        line_mount(table[k]) is Some,
        is_under(path, line_mount(table[k])->0.point),
    ensures
        holding_mount(table, path) is Some,
        encode_utf8(line_mount(table[k])->0.point).len() <= encode_utf8(
            holding_mount(table, path)->0.point,
        ).len(),
    decreases table.len(),
{
    let rest = table.drop_last();
    if k < rest.len() {
        assert(rest[k] == table[k]);
        lemma_holding_mount(rest, path, k);
    }
}

/// No mount of the table that contains the path has a longer mount point than the
/// one that is picked.
pub proof fn law_longest_mount_wins(table: Texts, path: Seq<char>, k: int)
    requires
        0 <= k < table.len(),
        line_mount(table[k]) is Some,
        is_under(path, line_mount(table[k])->0.point),
    ensures
        holding_mount(table, path) is Some,
        encode_utf8(line_mount(table[k])->0.point).len() <= encode_utf8(
            holding_mount(table, path)->0.point,
        ).len(),
{
    lemma_holding_mount(table, path, k);
}

/// A place that is found is the first one where the text stands, and none is found
/// only where it stands nowhere.
pub proof fn law_the_first_place_is_found(s: Seq<char>, needle: Seq<char>, i: int)
    requires
        0 <= i <= s.len(),
    ensures
        find_text(s, needle, i) matches Some(k) ==> {
            &&& i <= k <= k + needle.len() <= s.len()
            &&& s.subrange(k, k + needle.len()) == needle
            &&& forall|j: int| i <= j < k ==> !begins(#[trigger] s.skip(j), needle)
        },
        find_text(s, needle, i) is None ==> forall|j: int|
            i <= j <= s.len() ==> !begins(#[trigger] s.skip(j), needle),
    decreases s.len() - i,
{
    if begins(s.skip(i), needle) {
        assert(s.skip(i).take(needle.len() as int) =~= s.subrange(i, i + needle.len()));
    } else if i < s.len() {
        law_the_first_place_is_found(s, needle, i + 1);
    }
}

proof fn lemma_word_end_skip(s: Seq<char>, i: int, k: int)
    requires
        0 <= i <= k <= s.len(),
    ensures
        word_end(s, k) == i + word_end(s.skip(i), k - i),
    decreases s.len() - k,
{
    if k < s.len() {
        assert(s.skip(i)[k - i] == s[k]);
        if !is_white(s[k]) {
            lemma_word_end_skip(s, i, k + 1);
        }
    }
}

proof fn lemma_words_skip(s: Seq<char>, i: int, k: int)
    requires
        0 <= i <= k <= s.len(),
    ensures
        words_from(s, k) == words_from(s.skip(i), k - i),
    decreases s.len() - k,
{
    let t = s.skip(i);
    if k < s.len() {
        assert(t[k - i] == s[k]);
        if is_white(s[k]) {
            lemma_words_skip(s, i, k + 1);
        } else {
            lemma_word_end(s, k + 1);
            lemma_word_end_skip(s, i, k);
            let e = word_end(s, k);
            assert(e == word_end(s, k + 1));
            lemma_words_skip(s, i, e);
            assert(s.subrange(k, e) =~= t.subrange(k - i, e - i));
        }
    }
}

proof fn lemma_word_end_at(s: Seq<char>, i: int, e: int)
    requires
        0 <= i <= e <= s.len(),
        forall|k: int| i <= k < e ==> !is_white(#[trigger] s[k]),
        e == s.len() || is_white(s[e]),
    ensures
        word_end(s, i) == e,
    decreases e - i,
{
    if i < e {
        assert(!is_white(s[i]));
        lemma_word_end_at(s, i + 1, e);
    }
}

/// Words are what stands between white space: white space in front is skipped, a word
/// runs up to the next white space, and what follows is read on.
pub proof fn law_words_stand_between_white_space(word: Seq<char>, blank: char, rest: Seq<char>)
    requires
        word.len() > 0,
        forall|k: int| 0 <= k < word.len() ==> !is_white(#[trigger] word[k]),
        is_white(blank),
    ensures
        words(Seq::empty()).len() == 0,
        words(seq![blank] + rest) == words(rest),
        words(word) == seq![word],
        words(word + seq![blank] + rest) == seq![word] + words(rest),
{
    let a = seq![blank] + rest;
    assert(a.skip(1) =~= rest);
    lemma_words_skip(a, 1, 1);
    let n = word.len() as int;
    assert(!is_white(word[0]));
    lemma_word_end_at(word, 0, n);
    lemma_word_end(word, 1);
    assert(word.subrange(0, n) =~= word);
    assert(words_from(word, n) =~= Seq::empty());
    assert(words(word) =~= seq![word]);
    let b = word + seq![blank] + rest;
    assert(b[n] == blank);
    assert forall|k: int| 0 <= k < n implies !is_white(#[trigger] b[k]) by {
        assert(b[k] == word[k]);
    }
    lemma_word_end_at(b, 0, n);
    lemma_word_end(b, 1);
    assert(b[0] == word[0]);
    assert(b.subrange(0, n) =~= word);
    lemma_words_skip(b, n + 1, n + 1);
    assert(b.skip(n + 1) =~= rest);
    assert(words_from(b, n) == words_from(b, n + 1));
}

proof fn lemma_without_slashes(s: Seq<char>)
    ensures
        without_slashes(s).len() <= s.len(),
        without_slashes(s) == s.take(without_slashes(s).len() as int),
        without_slashes(s).len() > 0 ==> without_slashes(s).last() != '/',
    decreases s.len(),
{
    if s.len() > 0 && s.last() == '/' {
        lemma_without_slashes(s.drop_last());
    }
}

/// A path lies under itself, under the root, and under every directory that it goes on
/// from behind a slash; it does not lie under one whose name its own merely begins
/// with.
pub proof fn law_a_path_lies_under_its_ancestors(
    dir: Seq<char>,
    rest: Seq<char>,
    next: char,
    path: Seq<char>,
)
    requires
        dir.len() > 0,
        dir.last() != '/',
        rest.len() > 0,
        rest.last() != '/',
        next != '/',
    ensures
        is_under(path, path),
        is_under(path, seq!['/']),
        is_under(dir + seq!['/'] + rest, dir),
        is_under(dir + seq!['/'] + rest, dir.push('/')),
        !is_under(dir + seq![next] + rest, dir),
        !is_under(dir, dir + seq!['/'] + rest),
{
    lemma_without_slashes(path);
    reveal_with_fuel(without_slashes, 3);
    assert(seq!['/'].drop_last() =~= Seq::<char>::empty());
    let below = dir + seq!['/'] + rest;
    assert(below.last() == rest.last());
    assert(without_slashes(below) == below);
    assert(without_slashes(dir) == dir);
    assert(dir.push('/').drop_last() =~= dir);
    assert(below.take(dir.len() as int + 1) =~= dir + seq!['/']);
    let beside = dir + seq![next] + rest;
    assert(beside.last() == rest.last());
    assert(without_slashes(beside) == beside);
    if begins(beside, dir + seq!['/']) {
        assert(beside.take(dir.len() as int + 1)[dir.len() as int] == '/');
    }
}

proof fn lemma_unescaped_skip(s: Seq<char>, i: int, k: int)
    requires
        0 <= i <= k <= s.len(),
    ensures
        unescaped_from(s, k) == unescaped_from(s.skip(i), k - i),
    decreases s.len() - k,
{
    let t = s.skip(i);
    if k < s.len() {
        assert(t[k - i] == s[k]);
        if k + 3 < s.len() {
            assert(t[k - i + 1] == s[k + 1]);
            assert(t[k - i + 2] == s[k + 2]);
            assert(t[k - i + 3] == s[k + 3]);
            lemma_unescaped_skip(s, i, k + 4);
        }
        lemma_unescaped_skip(s, i, k + 1);
    }
}

/// A backslash and three octal digits stand for the character they name, and every
/// other character that is no backslash for itself.
pub proof fn law_octal_escapes_are_decoded(b: u8, c: char, rest: Seq<char>)
    requires
        c != '\\',
    ensures
        ({
            let x = (48 + b / 64) as char;
            let y = (48 + b / 8 % 8) as char;
            let z = (48 + b % 8) as char;
            unescaped(seq!['\\', x, y, z] + rest) == seq![b as char] + unescaped(rest)
        }),
        unescaped(seq![c] + rest) == seq![c] + unescaped(rest),
        unescaped(Seq::empty()).len() == 0,
{
    let x = (48 + b / 64) as char;
    let y = (48 + b / 8 % 8) as char;
    let z = (48 + b % 8) as char;
    let s = seq!['\\', x, y, z] + rest;
    assert(64 * (b / 64) + 8 * (b / 8 % 8) + b % 8 == b) by (nonlinear_arith);
    assert(octal3(x, y, z) == Some(b as char));
    lemma_unescaped_skip(s, 4, 4);
    assert(s.skip(4) =~= rest);
    let t = seq![c] + rest;
    lemma_unescaped_skip(t, 1, 1);
    assert(t.skip(1) =~= rest);
}

/// A line of the mount table is split at its first separator: the fifth word before it
/// is the mount point, its escapes decoded, and the first word behind it the type. A
/// line without one, or with too few words, describes no mount.
pub proof fn law_a_mount_line_is_split_at_its_separator(left: Seq<char>, right: Seq<char>)
    requires
        forall|k: int| 0 <= k < left.len() ==> !begins(
            #[trigger] (left + " - "@ + right).skip(k),
            " - "@,
        ),
    ensures
        ({
            let line = left + " - "@ + right;
            &&& words(left).len() >= 5 && words(right).len() >= 1 ==> {
                &&& line_mount(line) matches Some(m)
                &&& m.point == unescaped(words(left)[4])
                &&& m.fstype == words(right)[0]
            }
            &&& words(left).len() < 5 || words(right).len() == 0 ==> line_mount(line) is None
        }),
{
    let sep = " - "@;
    let line = left + sep + right;
    let n = left.len() as int;
    assert(line.skip(n) =~= sep + right);
    assert((sep + right).take(sep.len() as int) =~= sep);
    law_the_first_place_is_found(line, sep, 0);
    match find_text(line, sep, 0) {
        Some(k) => {
            if k < n {
                assert(line.skip(k).take(sep.len() as int) =~= line.subrange(k, k + sep.len()));
                assert(begins(line.skip(k), sep));
            }
            if k > n {
                assert(!begins(line.skip(n), sep));
            }
            assert(line.take(n) =~= left);
            assert(line.skip(n + sep.len()) =~= right);
        },
        None => {
            assert(!begins(line.skip(n), sep));
        },
    }
}

/// The mount that holds a path is one of the table, and the path lies under it; there
/// is none only where the path lies under no mount of the table.
pub proof fn law_the_holding_mount_is_in_the_table(table: Texts, path: Seq<char>)
    ensures
        holding_mount(table, path) matches Some(m) ==> is_under(path, m.point) && exists|k: int|
            0 <= k < table.len() && line_mount(#[trigger] table[k]) == Some(m),
        holding_mount(table, path) is None ==> forall|k: int|
            0 <= k < table.len() ==> (line_mount(#[trigger] table[k]) matches Some(m) ==> !is_under(
                path,
                m.point,
            )),
    decreases table.len(),
{
    if table.len() > 0 {
        let part = table.drop_last();
        law_the_holding_mount_is_in_the_table(part, path);
        let last = table.len() - 1;
        assert(table[last] == table.last());
        if let Some(m) = holding_mount(table, path) {
            if line_mount(table.last()) != Some(m) {
                let k = choose|k: int|
                    0 <= k < part.len() && line_mount(#[trigger] part[k]) == Some(m);
                assert(line_mount(table[k]) == Some(m));
            }
        } else {
            assert forall|k: int| 0 <= k < table.len() implies (line_mount(
                #[trigger] table[k],
            ) matches Some(m) ==> !is_under(path, m.point)) by {
                if k < last {
                    assert(part[k] == table[k]);
                }
            }
        }
    }
}

/// The file systems that count as served over the network.
pub proof fn law_network_file_systems_are_these(t: Seq<char>)
    ensures
        network_fs(t) <==> seq![
            "nfs"@,
            "nfs4"@,
            "cifs"@,
            "smb3"@,
            "smbfs"@,
            "9p"@,
            "ceph"@,
            "afs"@,
            "ncpfs"@,
            "glusterfs"@,
            "fuse.glusterfs"@,
            "sshfs"@,
            "fuse.sshfs"@,
            "fuse.rclone"@,
            "davfs"@,
            "fuse.davfs2"@,
        ].contains(t),
{
    let all = seq![
        "nfs"@,
        "nfs4"@,
        "cifs"@,
        "smb3"@,
        "smbfs"@,
        "9p"@,
        "ceph"@,
        "afs"@,
        "ncpfs"@,
        "glusterfs"@,
        "fuse.glusterfs"@,
        "sshfs"@,
        "fuse.sshfs"@,
        "fuse.rclone"@,
        "davfs"@,
        "fuse.davfs2"@,
    ];
    if network_fs(t) {
        assert(all[0] == t || all[1] == t || all[2] == t || all[3] == t || all[4] == t || all[5]
            == t || all[6] == t || all[7] == t || all[8] == t || all[9] == t || all[10] == t
            || all[11] == t || all[12] == t || all[13] == t || all[14] == t || all[15] == t);
    }
}

/// Of several mounts that hold a path with mount points of the same length, the first
/// of the table is taken.
pub proof fn law_the_first_longest_mount_is_taken(table: Texts, path: Seq<char>, k: int)
    requires
        0 <= k < table.len(),
        line_mount(table[k]) is Some,
        is_under(path, line_mount(table[k])->0.point),
        forall|j: int|
            0 <= j < table.len() && j != k ==> (line_mount(#[trigger] table[j]) matches Some(m)
                ==> is_under(path, m.point) ==> {
                let n = encode_utf8(m.point).len();
                let best = encode_utf8(line_mount(table[k])->0.point).len();
                if j < k {
                    n < best
                } else {
                    n <= best
                }
            }),
    ensures
        holding_mount(table, path) == line_mount(table[k]),
    decreases table.len(),
{
    let part = table.drop_last();
    let last = table.len() - 1;
    assert(table[last] == table.last());
    if k < last {
        assert(part[k] == table[k]);
        assert forall|j: int| 0 <= j < part.len() && j != k implies (line_mount(
            #[trigger] part[j],
        ) matches Some(m) ==> is_under(path, m.point) ==> {
            let n = encode_utf8(m.point).len();
            let best = encode_utf8(line_mount(part[k])->0.point).len();
            if j < k {
                n < best
            } else {
                n <= best
            }
        }) by {
            assert(part[j] == table[j]);
        }
        law_the_first_longest_mount_is_taken(part, path, k);
    } else {
        law_the_holding_mount_is_in_the_table(part, path);
        if let Some(b) = holding_mount(part, path) {
            let j = choose|j: int|
                0 <= j < part.len() && line_mount(#[trigger] part[j]) == Some(b);
            assert(table[j] == part[j]);
        }
    }
}

/// Three characters are an octal escape where they are octal digits of a number below
/// 256, and no others are.
pub proof fn law_octal_escapes_name_one_byte(x: char, y: char, z: char)
    ensures
        octal3(x, y, z) is Some <==> '0' <= x <= '3' && '0' <= y <= '7' && '0' <= z <= '7',
{
}

} // verus!
