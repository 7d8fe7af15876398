//! Text primitives shared by every module: strings as sequences of characters,
//! trimming, line splitting, numerals and comparison.

use vstd::prelude::*;
use vstd::string::*;
use vstd::utf8::*;

verus! {

/// Appends one character; `String::push` of the standard library. Trusted to
/// leave the earlier characters alone and to add `c` at the end.
#[verifier::external_body]
pub(crate) fn push_char(s: &mut String, c: char)
    ensures
        final(s)@ == old(s)@.push(c),
{
    s.push(c);
}

/// The characters of each string of a list.
pub open spec fn views(v: Seq<String>) -> Seq<Seq<char>> {
    Seq::new(v.len(), |i: int| v[i]@)
}

/// The characters of `s`, in order.
pub fn chars_of(s: &str) -> (r: Vec<char>)
    ensures
        r@ == s@,
{
    let mut out: Vec<char> = Vec::new();
    for c in it: s.chars()
        invariant
            it.seq() == s@,
            out@ == s@.take(it.index() as int),
    {
        out.push(c);
    }
    assert(s@.take(s@.len() as int) == s@);
    out
}

/// The string made of `v[from..to]`.
pub fn string_of(v: &Vec<char>, from: usize, to: usize) -> (r: String)
    requires
        from <= to <= v@.len(),
    ensures
        r@ == v@.subrange(from as int, to as int),
{
    let mut out = String::new();
    let mut i: usize = from;
    while i < to
        invariant
            from <= i <= to <= v@.len(),
            out@ == v@.subrange(from as int, i as int),
        decreases to - i,
    {
        push_char(&mut out, v[i]);
        i += 1;
    }
    out
}

/// Whether two strings hold the same characters.
pub fn same_text(a: &str, b: &str) -> (r: bool)
    ensures
        r == (a@ == b@),
{
    let x = a.as_bytes();
    let y = b.as_bytes();
    proof {
        encode_utf8_decode_utf8(a@);
        encode_utf8_decode_utf8(b@);
    }
    if x.len() != y.len() {
        return false;
    }
    let mut i: usize = 0;
    while i < x.len()
        invariant
            i <= x@.len(),
            x@.len() == y@.len(),
            x@ == encode_utf8(a@),
            y@ == encode_utf8(b@),
            forall|k: int| 0 <= k < i ==> x@[k] == y@[k],
        decreases x@.len() - i,
    {
        if x[i] != y[i] {
            return false;
        }
        i += 1;
    }
    assert(x@ == y@);
    true
}

/// The characters that Unicode gives the `White_Space` property.
pub open spec fn is_white(c: char) -> bool {
    ||| 0x09 <= c as u32 <= 0x0d
    ||| c as u32 == 0x20
    ||| c as u32 == 0x85
    ||| c as u32 == 0xa0
    ||| c as u32 == 0x1680
    ||| 0x2000 <= c as u32 <= 0x200a
    ||| c as u32 == 0x2028
    ||| c as u32 == 0x2029
    ||| c as u32 == 0x202f
    ||| c as u32 == 0x205f
    ||| c as u32 == 0x3000
}

/// Whether `c` is white space.
pub fn white(c: char) -> (r: bool)
    ensures
        r == is_white(c),
{
    let n: u32 = c as u32;
    (0x09 <= n && n <= 0x0d) || n == 0x20 || n == 0x85 || n == 0xa0 || n == 0x1680 || (0x2000 <= n
        && n <= 0x200a) || n == 0x2028 || n == 0x2029 || n == 0x202f || n == 0x205f || n == 0x3000
}

/// `s` without its leading white space.
pub open spec fn trim_start(s: Seq<char>) -> Seq<char>
    decreases s.len(),
{
    if s.len() > 0 && is_white(s[0]) {
        trim_start(s.drop_first())
    } else {
        s
    }
}

/// `s` without its trailing white space.
pub open spec fn trim_end(s: Seq<char>) -> Seq<char>
    decreases s.len(),
{
    if s.len() > 0 && is_white(s.last()) {
        trim_end(s.drop_last())
    } else {
        s
    }
}

/// `s` without the white space around it.
pub open spec fn trimmed(s: Seq<char>) -> Seq<char> {
    trim_end(trim_start(s))
}

/// A text whose first and last characters are not white space is its own trim.
pub proof fn lemma_trimmed_fixed(s: Seq<char>)
    requires
        s.len() == 0 || (!is_white(s[0]) && !is_white(s.last())),
    ensures
        trimmed(s) == s,
{
}

/// What `trimmed` keeps is a stretch of the text between white space.
pub proof fn lemma_trimmed_shape(s: Seq<char>)
    ensures
        trimmed(s).len() == 0 || (!is_white(trimmed(s)[0]) && !is_white(trimmed(s).last())),
        trimmed(trimmed(s)) == trimmed(s),
{
    lemma_trim_start_shape(s);
    lemma_trim_end_shape(trim_start(s));
    lemma_trimmed_fixed(trimmed(s));
}

proof fn lemma_trim_start_shape(s: Seq<char>)
    ensures
        trim_start(s).len() == 0 || !is_white(trim_start(s)[0]),
    decreases s.len(),
{
    if s.len() > 0 && is_white(s[0]) {
        lemma_trim_start_shape(s.drop_first());
    }
}

proof fn lemma_trim_end_shape(s: Seq<char>)
    ensures
        trim_end(s).len() == 0 || (!is_white(trim_end(s).last()) && trim_end(s)[0] == s[0]),
        trim_end(s).len() <= s.len(),
    decreases s.len(),
{
    if s.len() > 0 && is_white(s.last()) {
        lemma_trim_end_shape(s.drop_last());
    }
}

proof fn lemma_trim_start_place(s: Seq<char>) -> (p: int)
    ensures
        0 <= p <= s.len(),
        trim_start(s) == s.skip(p),
    decreases s.len(),
{
    if s.len() > 0 && is_white(s[0]) {
        let p = lemma_trim_start_place(s.drop_first());
        assert(s.drop_first().skip(p) =~= s.skip(p + 1));
        p + 1
    } else {
        assert(s.skip(0) =~= s);
        0
    }
}

proof fn lemma_trim_end_place(s: Seq<char>)
    ensures
        trim_end(s).len() <= s.len(),
        trim_end(s) == s.take(trim_end(s).len() as int),
    decreases s.len(),
{
    if s.len() > 0 && is_white(s.last()) {
        lemma_trim_end_place(s.drop_last());
        let n = trim_end(s).len() as int;
        assert(s.drop_last().take(n) =~= s.take(n));
    } else {
        assert(s.take(s.len() as int) =~= s);
    }
}

/// Where in a text its trimmed part starts.
pub proof fn lemma_trimmed_place(s: Seq<char>) -> (p: int)
    ensures
        0 <= p,
        p + trimmed(s).len() <= s.len(),
        trimmed(s) == s.subrange(p, p + trimmed(s).len()),
{
    let p = lemma_trim_start_place(s);
    lemma_trim_end_place(trim_start(s));
    assert(s.skip(p).take(trimmed(s).len() as int) =~= s.subrange(p, p + trimmed(s).len()));
    p
}

proof fn lemma_trim_start_at(s: Seq<char>, i: int)
    requires
        0 <= i <= s.len(),
        forall|k: int| 0 <= k < i ==> is_white(#[trigger] s[k]),
        i < s.len() ==> !is_white(s[i]),
    ensures
        trim_start(s) == s.skip(i),
    decreases i,
{
    if i > 0 {
        assert(is_white(s[0]));
        let t = s.drop_first();
        assert forall|k: int| 0 <= k < i - 1 implies is_white(#[trigger] t[k]) by {
            assert(t[k] == s[k + 1]);
        }
        lemma_trim_start_at(t, i - 1);
        assert(t.skip(i - 1) == s.skip(i));
    } else {
        assert(s.skip(0) == s);
    }
}

proof fn lemma_trim_end_at(s: Seq<char>, j: int)
    requires
        0 <= j <= s.len(),
        forall|k: int| j <= k < s.len() ==> is_white(#[trigger] s[k]),
        j > 0 ==> !is_white(s[j - 1]),
    ensures
        trim_end(s) == s.take(j),
    decreases s.len() - j,
{
    if j < s.len() {
        assert(is_white(s[s.len() - 1]));
        let t = s.drop_last();
        assert forall|k: int| j <= k < t.len() implies is_white(#[trigger] t[k]) by {
            assert(t[k] == s[k]);
        }
        lemma_trim_end_at(t, j);
        assert(t.take(j) == s.take(j));
    } else {
        assert(s.take(j) == s);
    }
}

/// `v[from..to]` without the white space around it.
pub fn trim_range(v: &Vec<char>, from: usize, to: usize) -> (r: String)
    requires
        from <= to <= v@.len(),
    ensures
        r@ == trimmed(v@.subrange(from as int, to as int)),
{
    let ghost s = v@.subrange(from as int, to as int);
    let mut i: usize = from;
    while i < to && white(v[i])
        invariant
            from <= i <= to <= v@.len(),
            s == v@.subrange(from as int, to as int),
            forall|k: int| 0 <= k < i - from ==> is_white(#[trigger] s[k]),
        decreases to - i,
    {
        assert(s[i - from] == v@[i as int]);
        i += 1;
    }
    let mut j: usize = to;
    let ghost t = s.skip(i - from);
    proof {
        assert(i < to ==> s[i - from] == v@[i as int]);
        lemma_trim_start_at(s, i - from);
    }
    while i < j && white(v[j - 1])
        invariant
            from <= i <= j <= to <= v@.len(),
            t == s.skip(i - from),
            s == v@.subrange(from as int, to as int),
            forall|k: int| j - i <= k < t.len() ==> is_white(#[trigger] t[k]),
        decreases j - i,
    {
        assert(t[j - i - 1] == v@[j - 1]);
        j -= 1;
    }
    proof {
        assert(i < j ==> t[j - i - 1] == v@[j - 1]);
        lemma_trim_end_at(t, j - i);
        assert(t.take(j - i) == v@.subrange(i as int, j as int));
    }
    string_of(v, i, j)
}

/// `s` without the white space around it.
pub fn trim(s: &str) -> (r: String)
    ensures
        r@ == trimmed(s@),
{
    let v = chars_of(s);
    assert(v@.subrange(0, v@.len() as int) == v@);
    trim_range(&v, 0, v.len())
}

/// The first position at or after `i` that holds `c`, or the length of `s`.
pub open spec fn find_from(s: Seq<char>, c: char, i: int) -> int
    decreases s.len() - i,
{
    if i < 0 || i >= s.len() {
        s.len() as int
    } else if s[i] == c {
        i
    } else {
        find_from(s, c, i + 1)
    }
}

/// A line without the carriage return that may end it.
pub open spec fn strip_cr(s: Seq<char>) -> Seq<char> {
    if s.len() > 0 && s.last() == '\r' {
        s.drop_last()
    } else {
        s
    }
}

/// The lines of `s` from position `i` on: a line ends at a line feed, with the
/// carriage return before it if there is one; the last line needs no line feed,
/// and nothing after the last line feed is no line.
pub open spec fn lines_from(s: Seq<char>, i: int) -> Seq<Seq<char>>
    decreases s.len() - i,
{
    if i < 0 || i >= s.len() {
        Seq::empty()
    } else {
        let k = find_from(s, '\n', i);
        if k < i || k >= s.len() {
            seq![s.subrange(i, s.len() as int)]
        } else {
            seq![strip_cr(s.subrange(i, k))] + lines_from(s, k + 1)
        }
    }
}

/// The lines of `s`.
pub open spec fn lines(s: Seq<char>) -> Seq<Seq<char>> {
    lines_from(s, 0)
}

proof fn lemma_find_from(s: Seq<char>, c: char, i: int)
    requires
        0 <= i <= s.len(),
    ensures
        i <= find_from(s, c, i) <= s.len(),
        find_from(s, c, i) < s.len() ==> s[find_from(s, c, i)] == c,
        forall|k: int| i <= k < find_from(s, c, i) ==> s[k] != c,
    decreases s.len() - i,
{
    if i < s.len() && s[i] != c {
        lemma_find_from(s, c, i + 1);
    }
}

/// The first position at or after `i` that holds `c`, or the length of `v`.
pub fn find_char(v: &Vec<char>, c: char, i: usize) -> (r: usize)
    requires
        i <= v@.len(),
    ensures
        r == find_from(v@, c, i as int),
        i <= r <= v@.len(),
        r < v@.len() ==> v@[r as int] == c,
        forall|k: int| i <= k < r ==> v@[k] != c,
{
    let mut k: usize = i;
    while k < v.len() && v[k] != c
        invariant
            i <= k <= v@.len(),
            find_from(v@, c, i as int) == find_from(v@, c, k as int),
        decreases v@.len() - k,
    {
        k += 1;
    }
    proof {
        lemma_find_from(v@, c, i as int);
    }
    k
}

/// The lines of `s`.
pub fn lines_of(s: &str) -> (r: Vec<String>)
    ensures
        views(r@) == lines(s@),
{
    let v = chars_of(s);
    let mut out: Vec<String> = Vec::new();
    let mut i: usize = 0;
    assert(views(out@) + lines_from(v@, 0) =~= lines(s@));
    while i < v.len()
        invariant
            i <= v@.len(),
            v@ == s@,
            views(out@) + lines_from(v@, i as int) == lines(s@),
        decreases v@.len() - i,
    {
        let k = find_char(&v, '\n', i);
        let ghost before = out@;
        if k == v.len() {
            let line = string_of(&v, i, k);
            out.push(line);
            proof {
                assert(lines_from(v@, i as int) == seq![line@]);
                assert(views(out@) =~= views(before) + seq![line@]);
                assert(lines_from(v@, k as int) == Seq::<Seq<char>>::empty());
                assert(views(out@) + lines_from(v@, k as int) =~= views(before) + seq![line@]);
            }
            i = k;
        } else {
            let end: usize = if i < k && v[k - 1] == '\r' {
                k - 1
            } else {
                k
            };
            let line = string_of(&v, i, end);
            out.push(line);
            proof {
                let whole = v@.subrange(i as int, k as int);
                if i < k {
                    assert(whole.last() == v@[k - 1]);
                    assert(whole.drop_last() == v@.subrange(i as int, k - 1));
                }
                assert(line@ == strip_cr(whole));
                assert(views(out@) =~= views(before).push(line@));
                assert(views(out@) + lines_from(v@, k + 1) =~= views(before) + (seq![line@]
                    + lines_from(v@, k + 1)));
            }
            i = k + 1;
        }
    }
    assert(lines_from(v@, i as int) == Seq::<Seq<char>>::empty());
    assert(views(out@) + Seq::<Seq<char>>::empty() =~= views(out@));
    out
}

/// The digit of value `d`, in lower case.
pub open spec fn digit(d: int) -> char {
    if d < 10 {
        (48 + d) as char
    } else {
        (87 + d) as char
    }
}

/// The decimal numeral of `n`.
pub open spec fn dec(n: nat) -> Seq<char>
    decreases n,
{
    if n < 10 {
        seq![digit(n as int)]
    } else {
        dec(n / 10).push(digit((n % 10) as int))
    }
}

/// The hexadecimal numeral of `n`.
pub open spec fn hex(n: nat) -> Seq<char>
    decreases n,
{
    if n < 16 {
        seq![digit(n as int)]
    } else {
        hex(n / 16).push(digit((n % 16) as int))
    }
}

/// `s` with zeros in front up to a width of `w`.
pub open spec fn zero_pad(s: Seq<char>, w: nat) -> Seq<char> {
    if s.len() < w {
        Seq::new((w - s.len()) as nat, |i: int| '0') + s
    } else {
        s
    }
}

/// The digit of value `d`.
pub fn digit_char(d: u8) -> (r: char)
    requires
        d < 16,
    ensures
        r == digit(d as int),
{
    if d < 10 {
        (48 + d) as char
    } else {
        (87 + d) as char
    }
}

/// Writes the decimal numeral of `n` after what `s` holds.
pub fn push_decimal(s: &mut String, n: u128)
    ensures
        final(s)@ == old(s)@ + dec(n as nat),
    decreases n,
{
    if n >= 10 {
        push_decimal(s, n / 10);
    }
    push_char(s, digit_char((n % 10) as u8));
    assert(final(s)@ =~= old(s)@ + dec(n as nat));
}

/// The decimal numeral of `n`.
pub fn decimal(n: u128) -> (r: String)
    ensures
        r@ == dec(n as nat),
{
    let mut s = String::new();
    push_decimal(&mut s, n);
    assert(s@ =~= dec(n as nat));
    s
}

/// Writes the hexadecimal numeral of `n` after what `s` holds.
fn push_hex(s: &mut String, n: usize)
    ensures
        final(s)@ == old(s)@ + hex(n as nat),
    decreases n,
{
    if n >= 16 {
        push_hex(s, n / 16);
    }
    push_char(s, digit_char((n % 16) as u8));
    assert(final(s)@ =~= old(s)@ + hex(n as nat));
}

/// Writes `n` in hexadecimal, with zeros in front up to a width of `w`.
pub fn push_hex_padded(s: &mut String, n: usize, w: usize)
    ensures
        final(s)@ == old(s)@ + zero_pad(hex(n as nat), w as nat),
{
    let mut body = String::new();
    push_hex(&mut body, n);
    assert(body@ =~= hex(n as nat));
    let len = body.as_str().unicode_len();
    let ghost start = s@;
    let mut k: usize = len;
    while k < w
        invariant
            len <= k,
            len <= w ==> k <= w,
            w < len ==> k == len,
            s@ == start + Seq::new((k - len) as nat, |i: int| '0'),
        decreases w - k,
    {
        push_char(s, '0');
        k += 1;
        assert(s@ =~= start + Seq::new((k - len) as nat, |i: int| '0'));
    }
    let ghost padded = s@;
    s.append(body.as_str());
    assert(s@ == padded + hex(n as nat));
    assert(s@ =~= start + zero_pad(hex(n as nat), w as nat));
}

/// Two characters of a byte: its hexadecimal numeral, zero-padded.
pub open spec fn hex2(b: u8) -> Seq<char> {
    seq![digit(b as int / 16), digit(b as int % 16)]
}

/// Writes `b` as two hexadecimal digits.
pub fn push_hex2(s: &mut String, b: u8)
    ensures
        final(s)@ == old(s)@ + hex2(b),
{
    push_char(s, digit_char(b / 16));
    push_char(s, digit_char(b % 16));
    assert(final(s)@ =~= old(s)@ + hex2(b));
}

/// `s` begins with `word`.
pub open spec fn begins(s: Seq<char>, word: Seq<char>) -> bool {
    word.len() <= s.len() && s.take(word.len() as int) == word
}

/// Whether `v` holds `word` at position `i`.
pub fn holds_at(v: &Vec<char>, i: usize, word: &str) -> (r: bool)
    requires
        i <= v@.len(),
    ensures
        r == begins(v@.skip(i as int), word@),
{
    let w = chars_of(word);
    let n = v.len();
    if w.len() > n - i {
        return false;
    }
    let mut k: usize = 0;
    while k < w.len()
        invariant
            n == v@.len(),
            k <= w@.len(),
            w@ == word@,
            i + w@.len() <= v@.len(),
            forall|j: int| 0 <= j < k ==> v@[i + j] == #[trigger] w@[j],
        decreases w@.len() - k,
    {
        if v[i + k] != w[k] {
            assert(v@.skip(i as int).take(w@.len() as int)[k as int] != w@[k as int]);
            return false;
        }
        k += 1;
    }
    assert(v@.skip(i as int).take(w@.len() as int) =~= w@);
    true
}

/// Whether `s` begins with `word`.
pub fn starts_with(s: &str, word: &str) -> (r: bool)
    ensures
        r == begins(s@, word@),
{
    let v = chars_of(s);
    assert(v@.skip(0) == v@);
    holds_at(&v, 0, word)
}

/// `needle` stands somewhere in `s`.
pub open spec fn has_part(s: Seq<char>, needle: Seq<char>) -> bool {
    exists|i: int| 0 <= i <= s.len() && begins(#[trigger] s.skip(i), needle)
}

/// Whether `needle` stands somewhere in `s`.
pub fn contains_text(s: &str, needle: &str) -> (r: bool)
    ensures
        r == has_part(s@, needle@),
{
    let v = chars_of(s);
    let mut i: usize = 0;
    while i < v.len()
        invariant
            i <= v@.len(),
            v@ == s@,
            forall|j: int| 0 <= j < i ==> !begins(#[trigger] v@.skip(j), needle@),
        decreases v@.len() - i,
    {
        if holds_at(&v, i, needle) {
            assert(begins(s@.skip(i as int), needle@));
            return true;
        }
        i += 1;
    }
    let found = holds_at(&v, i, needle);
    proof {
        if found {
            assert(begins(s@.skip(i as int), needle@));
        }
    }
    found
}

/// The lower-case form of a text.
pub uninterp spec fn lowercase(s: Seq<char>) -> Seq<char>;

/// `str::to_lowercase` of the standard library. Trusted to be a function of the
/// characters; the case mapping itself is Unicode's and is not stated.
#[verifier::external_body]
pub(crate) fn to_lowercase(s: &str) -> (r: String)
    ensures
        r@ == lowercase(s@),
{
    s.to_lowercase()
}

/// The texts of a list one after the other, with `sep` between them.
pub open spec fn joined(parts: Seq<Seq<char>>, sep: Seq<char>) -> Seq<char>
    decreases parts.len(),
{
    if parts.len() == 0 {
        Seq::empty()
    } else if parts.len() == 1 {
        parts[0]
    } else {
        joined(parts.drop_last(), sep) + sep + parts.last()
    }
}

/// The texts of `parts` one after the other, with `sep` between them.
pub fn join(parts: &Vec<String>, sep: &str) -> (r: String)
    ensures
        r@ == joined(views(parts@), sep@),
{
    let mut out = String::new();
    let mut i: usize = 0;
    let ghost all = views(parts@);
    assert(out@ =~= joined(all.take(0), sep@));
    while i < parts.len()
        invariant
            i <= parts@.len(),
            all == views(parts@),
            out@ == joined(all.take(i as int), sep@),
        decreases parts@.len() - i,
    {
        proof {
            assert(all.take(i + 1).drop_last() == all.take(i as int));
            assert(all.take(i + 1).last() == parts@[i as int]@);
        }
        if i > 0 {
            out.append(sep);
        }
        out.append(parts[i].as_str());
        i += 1;
        assert(out@ =~= joined(all.take(i as int), sep@));
    }
    assert(all.take(i as int) == all);
    out
}

/// The same text again, or none.
pub fn copy_opt(s: &Option<String>) -> (r: Option<String>)
    ensures
        r == *s,
{
    match s {
        Some(t) => Some(t.clone()),
        None => None,
    }
}

/// A text of its own with the characters of `s`.
pub fn copy(s: &str) -> (r: String)
    ensures
        r@ == s@,
{
    s.to_owned()
}

/// The numeral of `n` has a digit, and only digits.
pub proof fn lemma_dec_digits(n: nat)
    ensures
        dec(n).len() > 0,
        forall|i: int| 0 <= i < dec(n).len() ==> 48 <= (#[trigger] dec(n)[i]) as int <= 57,
    decreases n,
{
    if n >= 10 {
        lemma_dec_digits(n / 10);
    }
}

/// Different numbers have different numerals.
pub proof fn lemma_dec_injective(a: nat, b: nat)
    requires
        dec(a) == dec(b),
    ensures
        a == b,
    decreases a,
{
    lemma_dec_digits(a / 10);
    lemma_dec_digits(b / 10);
    assert(dec(a).last() == digit((a % 10) as int));
    assert(dec(b).last() == digit((b % 10) as int));
    if a >= 10 {
        assert(dec(a).len() >= 2);
        assert(b >= 10);
        assert(dec(a).drop_last() =~= dec(a / 10));
        assert(dec(b).drop_last() =~= dec(b / 10));
        lemma_dec_injective(a / 10, b / 10);
    } else if b >= 10 {
        assert(dec(b).len() >= 2);
    }
}

/// A decimal digit.
pub open spec fn is_digit(c: char) -> bool {
    48 <= c as u32 <= 57
}

/// Digits, at least one.
pub open spec fn all_digits(s: Seq<char>) -> bool {
    s.len() > 0 && forall|i: int| 0 <= i < s.len() ==> is_digit(#[trigger] s[i])
}

/// The number that a row of digits writes.
pub open spec fn digits_value(s: Seq<char>) -> nat
    decreases s.len(),
{
    if s.len() == 0 {
        0
    } else {
        10 * digits_value(s.drop_last()) + ((s.last() as u32 - 48) as nat)
    }
}

/// The `u32` that a text writes: digits, behind at most a plus sign, in range.
pub open spec fn u32_in(s: Seq<char>) -> Option<u32> {
    let t = if s.len() > 0 && s[0] == '+' {
        s.drop_first()
    } else {
        s
    };
    if all_digits(t) && digits_value(t) <= u32::MAX {
        Some(digits_value(t) as u32)
    } else {
        None
    }
}

/// The `i32` that a text writes: digits, behind at most one sign, in range.
pub open spec fn i32_in(s: Seq<char>) -> Option<i32> {
    let negative = s.len() > 0 && s[0] == '-';
    let t = if s.len() > 0 && (s[0] == '+' || s[0] == '-') {
        s.drop_first()
    } else {
        s
    };
    if !all_digits(t) {
        None
    } else if negative {
        if digits_value(t) <= 2147483648 {
            Some((-digits_value(t)) as i32)
        } else {
            None
        }
    } else if digits_value(t) <= i32::MAX {
        Some(digits_value(t) as i32)
    } else {
        None
    }
}

/// The value of the digits from position `from` on, if they are all digits and
/// the value is at most `limit`.
fn digits_from(v: &Vec<char>, from: usize, limit: u64) -> (r: Option<u64>)
    requires
        from <= v@.len(),
        limit <= u32::MAX,
    ensures
        ({
            let t = v@.skip(from as int);
            r == if all_digits(t) && digits_value(t) <= limit {
                Some(digits_value(t) as u64)
            } else {
                None
            }
        }),
{
    let ghost t = v@.skip(from as int);
    let n = v.len();
    if from == n {
        return None;
    }
    let mut value: u64 = 0;
    let mut over = false;
    let mut i: usize = from;
    while i < n
        invariant
            from <= i <= n,
            n == v@.len(),
            t == v@.skip(from as int),
            limit <= u32::MAX,
            forall|k: int| 0 <= k < i - from ==> is_digit(#[trigger] t[k]),
            !over ==> value == digits_value(t.take(i - from)) && value <= limit,
            over ==> digits_value(t.take(i - from)) > limit,
        decreases n - i,
    {
        let c = v[i];
        let code: u32 = c as u32;
        assert(t[i - from] == c);
        if code < 48 || code > 57 {
            assert(!is_digit(t[i - from]));
            return None;
        }
        proof {
            assert(t.take(i + 1 - from).drop_last() =~= t.take(i - from));
        }
        if !over {
            value = 10 * value + (code - 48) as u64;
            if value > limit {
                over = true;
            }
        }
        i += 1;
    }
    assert(t.take(n - from) =~= t);
    if over {
        None
    } else {
        Some(value)
    }
}

/// Reads a `u32`.
pub fn parse_u32(s: &str) -> (r: Option<u32>)
    ensures
        r == u32_in(s@),
{
    let v = chars_of(s);
    let from: usize = if v.len() > 0 && v[0] == '+' {
        1
    } else {
        0
    };
    proof {
        assert(v@.skip(0) =~= v@);
        if v@.len() > 0 {
            assert(v@.skip(1) =~= v@.drop_first());
        }
    }
    match digits_from(&v, from, 0xffff_ffff) {
        Some(value) => Some(value as u32),
        None => None,
    }
}

/// Reads an `i32`.
pub fn parse_i32(s: &str) -> (r: Option<i32>)
    ensures
        r == i32_in(s@),
{
    let v = chars_of(s);
    let negative = v.len() > 0 && v[0] == '-';
    let from: usize = if v.len() > 0 && (v[0] == '+' || v[0] == '-') {
        1
    } else {
        0
    };
    proof {
        assert(v@.skip(0) =~= v@);
        if v@.len() > 0 {
            assert(v@.skip(1) =~= v@.drop_first());
        }
    }
    if negative {
        match digits_from(&v, from, 2147483648) {
            Some(value) => Some((-(value as i64)) as i32),
            None => None,
        }
    } else {
        match digits_from(&v, from, 2147483647) {
            Some(value) => Some(value as i32),
            None => None,
        }
    }
}

/// Writing a number and reading it back gives the number.
pub proof fn lemma_dec_reads_back(n: nat)
    ensures
        all_digits(dec(n)),
        digits_value(dec(n)) == n,
    decreases n,
{
    lemma_dec_digits(n);
    assert forall|i: int| 0 <= i < dec(n).len() implies is_digit(#[trigger] dec(n)[i]) by {
        assert(48 <= dec(n)[i] as int <= 57);
    }
    if n >= 10 {
        lemma_dec_reads_back(n / 10);
        assert(dec(n).drop_last() =~= dec(n / 10));
    } else {
        assert(dec(n).drop_last() =~= Seq::<char>::empty());
        assert(digits_value(dec(n).drop_last()) == 0);
    }
}

/// Trimming takes away white space at both ends and nothing else: `p` is where what
/// is kept starts, all before and behind it is white space, and it neither starts nor
/// ends with any.
pub proof fn law_trimming_takes_white_space_only(s: Seq<char>) -> (p: int)
    ensures
        0 <= p <= p + trimmed(s).len() <= s.len(),
        trimmed(s) == s.subrange(p, p + trimmed(s).len()),
        forall|k: int|
            0 <= k < p || p + trimmed(s).len() <= k < s.len() ==> is_white(#[trigger] s[k]),
        trimmed(s).len() > 0 ==> !is_white(trimmed(s)[0]) && !is_white(trimmed(s).last()),
{
    lemma_trimmed_shape(s);
    lemma_trimmed_place(s);
    lemma_trim_start_white(s);
    let t = trim_start(s);
    lemma_trim_end_white(t);
    let p = s.len() - t.len();
    lemma_trim_end_place(t);
    assert(s.skip(p).take(trimmed(s).len() as int) =~= s.subrange(p, p + trimmed(s).len()));
    assert forall|k: int| 0 <= k < p || p + trimmed(s).len() <= k < s.len() implies is_white(
        #[trigger] s[k],
    ) by {
        if k >= p {
            assert(t[k - p] == s[k]);
        }
    }
    p
}

proof fn lemma_trim_start_white(s: Seq<char>)
    ensures
        trim_start(s).len() <= s.len(),
        trim_start(s) == s.skip(s.len() - trim_start(s).len()),
        forall|k: int| 0 <= k < s.len() - trim_start(s).len() ==> is_white(#[trigger] s[k]),
    decreases s.len(),
{
    if s.len() > 0 && is_white(s[0]) {
        let rest = s.drop_first();
        lemma_trim_start_white(rest);
        assert forall|k: int| 0 <= k < s.len() - trim_start(s).len() implies is_white(
            #[trigger] s[k],
        ) by {
            if k > 0 {
                assert(rest[k - 1] == s[k]);
            }
        }
    }
}

proof fn lemma_trim_end_white(s: Seq<char>)
    ensures
        trim_end(s).len() <= s.len(),
        forall|k: int| trim_end(s).len() <= k < s.len() ==> is_white(#[trigger] s[k]),
    decreases s.len(),
{
    if s.len() > 0 && is_white(s.last()) {
        let rest = s.drop_last();
        lemma_trim_end_white(rest);
        assert forall|k: int| trim_end(s).len() <= k < s.len() implies is_white(
            #[trigger] s[k],
        ) by {
            if k < rest.len() {
                assert(rest[k] == s[k]);
            }
        }
    }
}

/// The sixteen digits, in order.
pub proof fn law_digits_are_these(d: int)
    requires
        0 <= d < 16,
    ensures
        digit(d) == seq![
            '0',
            '1',
            '2',
            '3',
            '4',
            '5',
            '6',
            '7',
            '8',
            '9',
            'a',
            'b',
            'c',
            'd',
            'e',
            'f',
        ][d],
{
}

/// The number that hexadecimal digits write.
pub open spec fn hex_value(s: Seq<char>) -> nat
    decreases s.len(),
{
    if s.len() == 0 {
        0
    } else {
        let c = s.last();
        let d = if c <= '9' {
            c as int - '0' as int
        } else {
            c as int - 'a' as int + 10
        };
        (16 * hex_value(s.drop_last()) + d) as nat
    }
}

/// A hexadecimal numeral writes its number, with no zero in front.
pub proof fn law_hexadecimal_reads_back(n: nat)
    ensures
        hex_value(hex(n)) == n,
        hex(n).len() > 0,
        n > 0 ==> hex(n)[0] != '0',
    decreases n,
{
    if n >= 16 {
        law_hexadecimal_reads_back(n / 16);
        assert(hex(n).drop_last() =~= hex(n / 16));
        assert(hex(n).last() == digit((n % 16) as int));
    } else {
        assert(hex(n).drop_last() =~= Seq::<char>::empty());
        assert(hex_value(Seq::<char>::empty()) == 0);
        assert(hex(n).last() == digit(n as int));
    }
}

/// A decimal numeral has no zero in front.
pub proof fn law_decimal_is_shortest(n: nat)
    ensures
        n > 0 ==> dec(n)[0] != '0',
        n == 0 ==> dec(n) == seq!['0'],
    decreases n,
{
    if n >= 10 {
        law_decimal_is_shortest(n / 10);
        lemma_dec_digits(n / 10);
    }
}

/// Two hexadecimal digits write their byte.
pub proof fn law_a_byte_reads_back(b: u8)
    ensures
        hex2(b).len() == 2,
        hex_value(hex2(b)) == b,
{
    reveal_with_fuel(hex_value, 3);
    let s = hex2(b);
    assert(s.drop_last().drop_last() =~= Seq::<char>::empty());
    assert(s.drop_last().last() == digit(b as int / 16));
}

/// Padding puts zeros in front, as many as the width lacks, and keeps the text.
pub proof fn law_padding_puts_zeros_in_front(s: Seq<char>, w: nat)
    ensures
        zero_pad(s, w).len() == if s.len() < w {
            w
        } else {
            s.len()
        },
        zero_pad(s, w).skip(zero_pad(s, w).len() - s.len()) == s,
        forall|k: int| 0 <= k < zero_pad(s, w).len() - s.len() ==> #[trigger] zero_pad(s, w)[k]
            == '0',
{
}

/// A text begins with a word where the rest of it follows the word.
pub proof fn law_beginning_is_a_prefix(s: Seq<char>, word: Seq<char>, rest: Seq<char>)
    ensures
        begins(word + rest, word),
        begins(s, word) ==> s == word + s.skip(word.len() as int),
        has_part(s + word + rest, word),
{
    assert((word + rest).take(word.len() as int) =~= word);
    if begins(s, word) {
        assert(s =~= s.take(word.len() as int) + s.skip(word.len() as int));
    }
    let all = s + word + rest;
    let n = s.len() as int;
    assert(all.skip(n) =~= word + rest);
    assert(begins(all.skip(n), word));
}

/// A text has a part exactly where it falls into what stands before the part, the
/// part, and what stands behind it.
pub proof fn law_a_part_stands_in_the_text(s: Seq<char>, needle: Seq<char>) -> (at: int)
    requires
        has_part(s, needle),
    ensures
        0 <= at <= at + needle.len() <= s.len(),
        s == s.take(at) + needle + s.skip(at + needle.len()),
{
    let at = choose|i: int| 0 <= i <= s.len() && begins(#[trigger] s.skip(i), needle);
    let n = needle.len() as int;
    assert(s.skip(at).take(n) == needle);
    assert forall|k: int| 0 <= k < n implies #[trigger] needle[k] == s[at + k] by {
        assert(s.skip(at).take(n)[k] == s[at + k]);
    }
    assert(s =~= s.take(at) + needle + s.skip(at + n));
    at
}

/// Joining puts the separator between the texts: the first text, the separator, and
/// the others joined.
pub proof fn law_joining_puts_the_separator_between(
    first: Seq<char>,
    rest: Seq<Seq<char>>,
    sep: Seq<char>,
)
    ensures
        rest.len() == 0 ==> joined(seq![first] + rest, sep) == first,
        rest.len() > 0 ==> joined(seq![first] + rest, sep) == first + sep + joined(rest, sep),
        joined(Seq::empty(), sep).len() == 0,
    decreases rest.len(),
{
    let all = seq![first] + rest;
    if rest.len() == 1 {
        assert(all.drop_last() =~= seq![first]);
        assert(joined(seq![first], sep) == first);
    } else if rest.len() > 1 {
        assert(all.drop_last() =~= seq![first] + rest.drop_last());
        law_joining_puts_the_separator_between(first, rest.drop_last(), sep);
        assert(all.last() == rest.last());
        assert(first + sep + joined(rest.drop_last(), sep) + sep + rest.last() =~= first + sep + (
        joined(rest.drop_last(), sep) + sep + rest.last()));
    }
}

/// The lines of a text without carriage returns, with line feeds between them, are
/// the text again but for a last line feed.
pub proof fn law_lines_join_back(s: Seq<char>)
    requires
        forall|k: int| 0 <= k < s.len() ==> #[trigger] s[k] != '\r',
    ensures
        s.len() == 0 <==> lines(s).len() == 0,
        s.len() > 0 && s.last() != '\n' ==> joined(lines(s), seq!['\n']) == s,
        s.len() > 0 && s.last() == '\n' ==> joined(lines(s), seq!['\n']) == s.drop_last(),
{
    lemma_lines_from_join(s, 0);
    assert(s.skip(0) =~= s);
}

proof fn lemma_lines_from_join(s: Seq<char>, i: int)
    requires
        0 <= i <= s.len(),
        forall|k: int| 0 <= k < s.len() ==> #[trigger] s[k] != '\r',
    ensures
        i == s.len() <==> lines_from(s, i).len() == 0,
        i < s.len() && s.last() != '\n' ==> joined(lines_from(s, i), seq!['\n']) == s.skip(i),
        i < s.len() && s.last() == '\n' ==> joined(lines_from(s, i), seq!['\n']) == s.skip(
            i,
        ).drop_last(),
    decreases s.len() - i,
{
    if i < s.len() {
        lemma_find_from(s, '\n', i);
        let k = find_from(s, '\n', i);
        if k >= s.len() {
            let line = s.subrange(i, s.len() as int);
            assert(lines_from(s, i) == seq![line]);
            assert(joined(seq![line], seq!['\n']) == line);
            assert(line =~= s.skip(i));
            assert(s.last() != '\n');
        } else {
            let line = s.subrange(i, k);
            if line.len() > 0 {
                assert(line.last() == s[k - 1]);
            }
            assert(strip_cr(line) == line);
            lemma_lines_from_join(s, k + 1);
            let rest = lines_from(s, k + 1);
            law_joining_puts_the_separator_between(line, rest, seq!['\n']);
            assert(lines_from(s, i) == seq![line] + rest);
            if k + 1 == s.len() {
                assert(s.last() == s[k]);
                assert(line =~= s.skip(i).drop_last());
            } else if s.last() != '\n' {
                assert(line + seq!['\n'] + s.skip(k + 1) =~= s.skip(i));
            } else {
                assert(line + seq!['\n'] + s.skip(k + 1).drop_last() =~= s.skip(i).drop_last());
            }
        }
    }
}

/// No line holds a line feed.
pub proof fn law_lines_hold_no_line_feed(s: Seq<char>, i: int, j: int)
    requires
        0 <= i <= s.len(),
        0 <= j < lines_from(s, i).len(),
    ensures
        !lines_from(s, i)[j].contains('\n'),
    decreases s.len() - i,
{
    if i < s.len() {
        lemma_find_from(s, '\n', i);
        let k = find_from(s, '\n', i);
        if k < s.len() {
            if j > 0 {
                law_lines_hold_no_line_feed(s, k + 1, j - 1);
                assert(lines_from(s, i)[j] == lines_from(s, k + 1)[j - 1]);
            }
        }
    }
}

/// A carriage return before a line feed belongs to the line's end: a text with `\r\n`
/// and the text with `\n` in its place have the same line there.
pub proof fn law_a_carriage_return_ends_a_line_too(line: Seq<char>, rest: Seq<char>)
    requires
        !line.contains('\n'),
    ensures
        lines(line + seq!['\r', '\n'] + rest)[0] == line,
        line.len() == 0 || line.last() != '\r' ==> lines(line + seq!['\n'] + rest)[0] == line,
{
    let a = line + seq!['\r', '\n'] + rest;
    let n = line.len() as int;
    lemma_find_from(a, '\n', 0);
    let k = find_from(a, '\n', 0);
    assert(a[n + 1] == '\n');
    assert(a[n] == '\r');
    if k < n {
        assert(a[k] == line[k]);
        assert(line.contains(line[k]));
    }
    assert(k == n + 1);
    assert(a.subrange(0, k).last() == '\r');
    assert(a.subrange(0, k).drop_last() =~= line);
    assert(lines(a)[0] == line);
    let b = line + seq!['\n'] + rest;
    lemma_find_from(b, '\n', 0);
    let m = find_from(b, '\n', 0);
    assert(b[n] == '\n');
    if m < n {
        assert(b[m] == line[m]);
        assert(line.contains(line[m]));
    }
    assert(b.subrange(0, n) =~= line);
    assert(lines(b)[0] == strip_cr(line));
}

/// A number in range reads back from its numeral, with or without a plus sign, and one
/// out of range does not.
pub proof fn law_numerals_are_read(n: nat)
    ensures
        n <= u32::MAX ==> u32_in(dec(n)) == Some(n as u32) && u32_in(seq!['+'] + dec(n)) == Some(
            n as u32,
        ),
        n > u32::MAX ==> u32_in(dec(n)) is None && u32_in(seq!['+'] + dec(n)) is None,
        n <= i32::MAX ==> i32_in(dec(n)) == Some(n as i32) && i32_in(seq!['+'] + dec(n)) == Some(
            n as i32,
        ),
        n > i32::MAX ==> i32_in(dec(n)) is None && i32_in(seq!['+'] + dec(n)) is None,
        n <= 2147483648 ==> (i32_in(seq!['-'] + dec(n)) matches Some(v) && v == -n),
        n > 2147483648 ==> i32_in(seq!['-'] + dec(n)) is None,
        u32_in(seq!['-'] + dec(n)) is None,
        u32_in(Seq::empty()) is None && i32_in(Seq::empty()) is None,
{
    lemma_dec_reads_back(n);
    lemma_dec_digits(n);
    let d = dec(n);
    assert(is_digit(d[0]));
    assert((seq!['+'] + d).drop_first() =~= d);
    assert((seq!['-'] + d).drop_first() =~= d);
    assert(!is_digit((seq!['-'] + d)[0]));
}

/// The characters that count as white space, one by one.
pub proof fn law_white_space_is_these(c: char)
    ensures
        is_white(c) <==> {
            ||| c == '\t'
            ||| c == '\n'
            ||| c as int == 11
            ||| c as int == 12
            ||| c == '\r'
            ||| c == ' '
            ||| c as int == 133
            ||| c as int == 160
            ||| c as int == 5760
            ||| 8192 <= c as int <= 8202
            ||| 8232 <= c as int <= 8233
            ||| c as int == 8239
            ||| c as int == 8287
            ||| c as int == 12288
        },
{
}

/// Only digits are read as a number, behind a sign at most.
pub proof fn law_only_digits_are_numbers(s: Seq<char>, i: int)
    requires
        0 <= i < s.len(),
        (s[i] as u32) < 48 || s[i] as u32 > 57,
    ensures
        i > 0 ==> u32_in(s) is None && i32_in(s) is None,
        s[i] != '+' ==> u32_in(s) is None,
        s[i] != '+' && s[i] != '-' ==> i32_in(s) is None,
        s.len() == 1 ==> u32_in(s) is None && i32_in(s) is None,
{
    let c = s[i];
    assert(!is_digit(c));
    let rest = s.drop_first();
    if i > 0 {
        assert(rest[i - 1] == c);
    }
    if i == 0 && c != '+' {
        assert(!all_digits(s));
    }
}

} // verus!
