//! The desktop menu entry: what the launcher file holds, where it and the icon
//! go, and when they are written.

use vstd::prelude::*;
use vstd::string::*;

use crate::recent::Texts;
use crate::text::{chars_of, contains_text, copy, has_part, push_char, same_text, views};

verus! {

/// The line that claims a launcher file as ours to update.
pub const MARKER: &'static str = "X-Dedup-Managed=true";

/// Whether a character is a letter or a digit of some script.
pub uninterp spec fn alphanumeric(c: char) -> bool;

/// `char::is_alphanumeric` of the standard library. Trusted to be a function of
/// the character and, as its documentation says of ASCII, true of the ASCII
/// letters and digits and of no other ASCII character. Which other characters it
/// counts is Unicode's and is not stated.
#[verifier::external_body]
fn is_alphanumeric(c: char) -> (r: bool)
    ensures
        r == alphanumeric(c),
        c <= '\x7f' ==> r == is_ascii_word(c),
{
    c.is_alphanumeric()
}

/// An ASCII letter or digit.
pub open spec fn is_ascii_word(c: char) -> bool {
    '0' <= c <= '9' || 'A' <= c <= 'Z' || 'a' <= c <= 'z'
}

/// A sign that needs no quotes in an `Exec` line.
pub open spec fn is_path_sign(c: char) -> bool {
    c == '/' || c == '.' || c == '_' || c == '-' || c == '+' || c == ':' || c == '@'
}

/// A character that needs no quotes in an `Exec` line.
pub open spec fn is_plain(c: char) -> bool {
    alphanumeric(c) || is_path_sign(c)
}

/// A character that is escaped between quotes.
pub open spec fn is_reserved(c: char) -> bool {
    c == '"' || c == '\\' || c == '$' || c == '`'
}

/// The first `n` characters with a backslash before each reserved one.
pub open spec fn escaped(s: Seq<char>, n: int) -> Seq<char>
    decreases n,
{
    if n <= 0 {
        Seq::empty()
    } else if is_reserved(s[n - 1]) {
        escaped(s, n - 1) + seq!['\\', s[n - 1]]
    } else {
        escaped(s, n - 1) + seq![s[n - 1]]
    }
}

/// A path as an `Exec` line writes it.
pub open spec fn quoted(path: Seq<char>) -> Seq<char> {
    if forall|i: int| 0 <= i < path.len() ==> is_plain(#[trigger] path[i]) {
        path
    } else {
        seq!['"'] + escaped(path, path.len() as int) + seq!['"']
    }
}

/// Quotes a path for an `Exec` line: a plain path stays as it is, any other is
/// put in double quotes with the reserved characters escaped.
pub fn quote_exec(path: &str) -> (r: String)
    ensures
        r@ == quoted(path@),
        (forall|i: int|
            0 <= i < path@.len() ==> is_ascii_word(#[trigger] path@[i]) || is_path_sign(path@[i]))
            ==> r@ == path@,
        (exists|i: int|
            0 <= i < path@.len() && #[trigger] path@[i] <= '\x7f' && !is_ascii_word(path@[i])
                && !is_path_sign(path@[i])) ==> r@ == seq!['"'] + escaped(
            path@,
            path@.len() as int,
        ) + seq!['"'],
{
    let v = chars_of(path);
    let mut plain = true;
    let mut i: usize = 0;
    while i < v.len()
        invariant
            i <= v@.len(),
            v@ == path@,
            plain == (forall|k: int| 0 <= k < i ==> is_plain(#[trigger] path@[k])),
            forall|k: int|
                0 <= k < i && #[trigger] path@[k] <= '\x7f' ==> alphanumeric(path@[k])
                    == is_ascii_word(path@[k]),
        decreases v@.len() - i,
    {
        let c = v[i];
        if !(is_alphanumeric(c) || c == '/' || c == '.' || c == '_' || c == '-' || c == '+' || c
            == ':' || c == '@') {
            plain = false;
            assert(!is_plain(path@[i as int]));
        }
        i += 1;
    }
    if plain {
        return copy(path);
    }
    let mut out = String::new();
    push_char(&mut out, '"');
    let mut k: usize = 0;
    assert(out@ =~= seq!['"'] + escaped(v@, 0));
    while k < v.len()
        invariant
            k <= v@.len(),
            out@ == seq!['"'] + escaped(v@, k as int),
        decreases v@.len() - k,
    {
        let ghost before = out@;
        let c = v[k];
        if c == '"' || c == '\\' || c == '$' || c == '`' {
            push_char(&mut out, '\\');
        }
        push_char(&mut out, c);
        k += 1;
        assert(out@ =~= seq!['"'] + escaped(v@, k as int));
    }
    push_char(&mut out, '"');
    out
}

/// Reads an escaped text back: a backslash stands for the character after it.
pub open spec fn unquoted(s: Seq<char>) -> Seq<char>
    decreases s.len(),
{
    if s.len() == 0 {
        Seq::empty()
    } else if s[0] == '\\' && s.len() > 1 {
        seq![s[1]] + unquoted(s.skip(2))
    } else {
        seq![s[0]] + unquoted(s.drop_first())
    }
}

proof fn lemma_unquoted_append(s: Seq<char>, n: int, tail: Seq<char>)
    requires
        0 <= n <= s.len(),
    ensures
        unquoted(escaped(s, n) + tail) == s.take(n) + unquoted(tail),
    decreases n,
{
    if n == 0 {
        assert(escaped(s, 0) + tail =~= tail);
        assert(s.take(0) + unquoted(tail) =~= unquoted(tail));
    } else {
        let c = s[n - 1];
        let own = if is_reserved(c) {
            seq!['\\', c]
        } else {
            seq![c]
        };
        assert(escaped(s, n) + tail =~= escaped(s, n - 1) + (own + tail));
        lemma_unquoted_append(s, n - 1, own + tail);
        let t = own + tail;
        if is_reserved(c) {
            assert(t.skip(2) =~= tail);
        } else {
            assert(t.drop_first() =~= tail);
        }
        assert(unquoted(t) =~= seq![c] + unquoted(tail));
        assert(s.take(n - 1) + (seq![c] + unquoted(tail)) =~= s.take(n) + unquoted(tail));
    }
}

/// Quoting loses nothing: between the quotes the path reads back as it was.
pub proof fn law_quoting_keeps_the_path(path: Seq<char>)
    ensures
        unquoted(escaped(path, path.len() as int)) == path,
{
    let none = Seq::<char>::empty();
    lemma_unquoted_append(path, path.len() as int, none);
    assert(escaped(path, path.len() as int) + none =~= escaped(path, path.len() as int));
    assert(path.take(path.len() as int) + unquoted(none) =~= path);
}

/// The launcher file for an executable.
pub open spec fn launcher(exec: Seq<char>) -> Seq<char> {
    "[Desktop Entry]\nType=Application\nName=dedup\nGenericName=Deduplication Triage\nComment=Manage your (media) files\nTryExec="@
        + exec + "\nExec="@ + quoted(exec)
        + "\nIcon=dedup\nTerminal=false\nCategories=Utility;FileTools;\nStartupWMClass=dedup\n"@
        + MARKER@ + "\n"@
}

/// The launcher file's content for an executable.
pub fn desktop_entry(exec: &str) -> (r: String)
    ensures
        r@ == launcher(exec@),
{
    let mut s =
        "[Desktop Entry]\nType=Application\nName=dedup\nGenericName=Deduplication Triage\nComment=Manage your (media) files\nTryExec=".to_string();
    s.append(exec);
    s.append("\nExec=");
    s.append(quote_exec(exec).as_str());
    s.append(
        "\nIcon=dedup\nTerminal=false\nCategories=Utility;FileTools;\nStartupWMClass=dedup\n",
    );
    s.append(MARKER);
    s.append("\n");
    s
}

/// What to write when the launcher is registered.
pub struct Registration {
    pub write_icon: bool,
    /// The launcher's new content, where it has to be written.
    pub launcher: Option<String>,
}

/// The launcher is to be written: there is none, or it is ours and says something
/// else.
pub open spec fn launcher_stale(current: Option<Seq<char>>, exec: Seq<char>) -> bool {
    match current {
        None => true,
        Some(text) => has_part(text, MARKER@) && text != launcher(exec),
    }
}

fn same_bytes(a: &[u8], b: &[u8]) -> (r: bool)
    ensures
        r == (a@ == b@),
{
    if a.len() != b.len() {
        return false;
    }
    let mut i: usize = 0;
    while i < a.len()
        invariant
            i <= a@.len(),
            a@.len() == b@.len(),
            forall|k: int| 0 <= k < i ==> a@[k] == b@[k],
        decreases a@.len() - i,
    {
        if a[i] != b[i] {
            return false;
        }
        i += 1;
    }
    assert(a@ =~= b@);
    true
}

/// Decides what to write, given the icon and the launcher as they are on disk
/// (`None` where they cannot be read): a current file is not rewritten, and a
/// launcher without the marker is never touched.
pub fn register(
    icon: &[u8],
    icon_on_disk: Option<&[u8]>,
    launcher_on_disk: Option<&str>,
    exec: &str,
) -> (r: Registration)
    ensures
        r.write_icon == (match icon_on_disk {
            Some(bytes) => bytes@ != icon@,
            None => true,
        }),
        (r.launcher is Some) == launcher_stale(
            match launcher_on_disk {
                Some(text) => Some(text@),
                None => None,
            },
            exec@,
        ),
        r.launcher matches Some(text) ==> text@ == launcher(exec@),
{
    let write_icon = match icon_on_disk {
        Some(bytes) => !same_bytes(bytes, icon),
        None => true,
    };
    let desired = desktop_entry(exec);
    let write = match launcher_on_disk {
        Some(text) => contains_text(text, MARKER) && !same_text(text, desired.as_str()),
        None => true,
    };
    Registration {
        write_icon,
        launcher: if write {
            Some(desired)
        } else {
            None
        },
    }
}

/// Registering again for the same executable rewrites nothing: the launcher that
/// was written is current.
pub proof fn law_second_registration_changes_nothing(exec: Seq<char>)
    ensures
        !launcher_stale(Some(launcher(exec)), exec),
{
}

/// A launcher that does not carry the marker is never overwritten.
pub proof fn law_foreign_launcher_is_kept(current: Seq<char>, exec: Seq<char>)
    requires
        !has_part(current, MARKER@),
    ensures
        !launcher_stale(Some(current), exec),
{
}

/// A launcher of ours for another executable is updated.
pub proof fn law_moved_binary_is_updated(current: Seq<char>, exec: Seq<char>)
    requires
        has_part(current, MARKER@),
        current != launcher(exec),
    ensures
        launcher_stale(Some(current), exec),
{
}

/// Where `rest` lies below the directory `dir`.
pub open spec fn below(dir: Seq<char>, rest: Seq<char>) -> Seq<char> {
    if dir.len() == 0 || dir.last() == '/' {
        dir + rest
    } else {
        dir.push('/') + rest
    }
}

/// The directory for the user's data: the configured one unless it is empty,
/// else `.local/share` below the home directory.
pub fn data_home(configured: Option<String>, home: Option<String>) -> (r: Option<String>)
    ensures
        match configured {
            Some(dir) if dir@.len() > 0 => r == Some(dir),
            _ => match home {
                Some(h) => r is Some && r->0@ == below(h@, ".local/share"@),
                None => r is None,
            },
        },
{
    if let Some(dir) = configured {
        if !dir.as_str().is_empty() {
            return Some(dir);
        }
    }
    match home {
        Some(h) => {
            let chars = chars_of(h.as_str());
            let n: usize = chars.len();
            let mut s = h;
            if n > 0 && chars[n - 1] != '/' {
                push_char(&mut s, '/');
            }
            s.append(".local/share");
            assert(s@ =~= below(h@, ".local/share"@));
            Some(s)
        },
        None => None,
    }
}

/// What the launcher executes: the AppImage when running from one, else the
/// stable link to the running executable, else the executable itself.
pub fn exec_path(
    appimage: Option<String>,
    exe: Option<String>,
    stable: Option<String>,
) -> (r: Option<String>)
    ensures
        match appimage {
            Some(image) if image@.len() > 0 => r == Some(image),
            _ => r == if exe is Some && stable is Some {
                stable
            } else {
                exe
            },
        },
{
    if let Some(image) = appimage {
        if !image.as_str().is_empty() {
            return Some(image);
        }
    }
    match exe {
        Some(path) => match stable {
            Some(link) => Some(link),
            None => Some(path),
        },
        None => None,
    }
}

/// The last component named `Cellar`.
pub open spec fn cellar_at(parts: Texts, n: int) -> Option<int>
    decreases n,
{
    if n <= 0 {
        None
    } else if parts[n - 1] == "Cellar"@ {
        Some(n - 1)
    } else {
        cellar_at(parts, n - 1)
    }
}

/// The components of the stable link for an executable inside a Homebrew Cellar:
/// `bin` and the executable's name beside the Cellar. `None` for an executable
/// elsewhere.
pub fn stable_brew_path(parts: &Vec<String>) -> (r: Option<Vec<String>>)
    ensures
        match cellar_at(views(parts@), parts@.len() as int) {
            Some(k) => r is Some && views(r->0@) == views(parts@).take(k) + seq![
                "bin"@,
                views(parts@).last(),
            ],
            None => r is None,
        },
{
    let ghost all = views(parts@);
    let mut n: usize = parts.len();
    while n > 0 && !same_text(parts[n - 1].as_str(), "Cellar")
        invariant
            n <= parts@.len(),
            all == views(parts@),
            cellar_at(all, parts@.len() as int) == cellar_at(all, n as int),
        decreases n,
    {
        n -= 1;
    }
    if n == 0 {
        return None;
    }
    let mut out: Vec<String> = Vec::new();
    let mut i: usize = 0;
    while i < n - 1
        invariant
            i <= n - 1,
            n <= parts@.len(),
            all == views(parts@),
            views(out@) =~= all.take(i as int),
        decreases n - 1 - i,
    {
        let ghost before = out@;
        out.push(parts[i].clone());
        assert(views(out@) =~= views(before).push(all[i as int]));
        i += 1;
    }
    let last = parts[parts.len() - 1].clone();
    out.push("bin".to_string());
    out.push(last);
    assert(views(out@) =~= all.take(n - 1) + seq!["bin"@, all.last()]);
    Some(out)
}

/// A path of letters, digits and the plain signs is written as it is; any other stands
/// between quotation marks, with a backslash before each reserved character.
pub proof fn law_paths_are_quoted_where_needed(path: Seq<char>, i: int)
    ensures
        (forall|k: int|
            0 <= k < path.len() ==> alphanumeric(#[trigger] path[k]) || path[k] == '/' || path[k]
                == '.' || path[k] == '_' || path[k] == '-' || path[k] == '+' || path[k] == ':'
                || path[k] == '@') ==> quoted(path) == path,
        0 <= i < path.len() && !alphanumeric(path[i]) && path[i] != '/' && path[i] != '.'
            && path[i] != '_' && path[i] != '-' && path[i] != '+' && path[i] != ':' && path[i]
            != '@' ==> quoted(path) == seq!['"'] + escaped(path, path.len() as int) + seq!['"'],
{
    if forall|k: int|
        0 <= k < path.len() ==> alphanumeric(#[trigger] path[k]) || path[k] == '/' || path[k] == '.'
            || path[k] == '_' || path[k] == '-' || path[k] == '+' || path[k] == ':' || path[k]
            == '@' {
        assert forall|k: int| 0 <= k < path.len() implies is_plain(#[trigger] path[k]) by {}
    }
    if 0 <= i < path.len() && !alphanumeric(path[i]) && !is_path_sign(path[i]) {
        assert(!is_plain(path[i]));
    }
}

/// Each character is written once, behind a backslash exactly where it is a quotation
/// mark, a backslash, a dollar sign or a backtick.
pub proof fn law_reserved_characters_are_escaped(s: Seq<char>, n: int)
    requires
        0 < n <= s.len(),
    ensures
        s[n - 1] == '"' || s[n - 1] == '\\' || s[n - 1] == '$' || s[n - 1] == '`' ==> escaped(s, n)
            == escaped(s, n - 1) + seq!['\\', s[n - 1]],
        s[n - 1] != '"' && s[n - 1] != '\\' && s[n - 1] != '$' && s[n - 1] != '`' ==> escaped(s, n)
            == escaped(s, n - 1) + seq![s[n - 1]],
        escaped(s, 0).len() == 0,
{
}

/// A launcher names its executable, as a path to try and, quoted, as a command, and
/// claims itself as ours.
pub proof fn law_a_launcher_names_its_executable(exec: Seq<char>)
    ensures
        has_part(launcher(exec), "TryExec="@ + exec + "\n"@),
        has_part(launcher(exec), "\nExec="@ + quoted(exec) + "\n"@),
        has_part(launcher(exec), MARKER@),
        launcher_stale(None, exec),
{
    let head =
        "[Desktop Entry]\nType=Application\nName=dedup\nGenericName=Deduplication Triage\nComment=Manage your (media) files\nTryExec="@;
    let tail =
        "\nIcon=dedup\nTerminal=false\nCategories=Utility;FileTools;\nStartupWMClass=dedup\n"@;
    let all = launcher(exec);
    assert(all == head + exec + "\nExec="@ + quoted(exec) + tail + MARKER@ + "\n"@);
    reveal_strlit("\n");
    reveal_strlit("TryExec=");
    reveal_strlit("\nExec=");
    reveal_strlit(
        "[Desktop Entry]\nType=Application\nName=dedup\nGenericName=Deduplication Triage\nComment=Manage your (media) files\nTryExec=",
    );
    reveal_strlit(
        "\nIcon=dedup\nTerminal=false\nCategories=Utility;FileTools;\nStartupWMClass=dedup\n",
    );
    let k = head.len() - 8;
    let one = "TryExec="@ + exec + "\n"@;
    assert(head =~= head.take(k) + "TryExec="@);
    let rest1 = all.skip(k + one.len());
    assert(all =~= head.take(k) + one + rest1);
    crate::text::law_beginning_is_a_prefix(head.take(k), one, rest1);
    let two = "\nExec="@ + quoted(exec) + "\n"@;
    let front = head + exec;
    let rest2 = all.skip((front.len() + two.len()) as int);
    assert(tail[0] == '\n');
    assert(all =~= front + two + rest2);
    crate::text::law_beginning_is_a_prefix(front, two, rest2);
    let front3 = head + exec + "\nExec="@ + quoted(exec) + tail;
    crate::text::law_beginning_is_a_prefix(front3, MARKER@, "\n"@);
}

/// What lies below a directory is its path, one slash, and the rest.
pub proof fn law_one_slash_stands_below_a_directory(dir: Seq<char>, rest: Seq<char>)
    ensures
        dir.len() == 0 ==> below(dir, rest) == rest,
        dir.len() > 0 && dir.last() == '/' ==> below(dir, rest) == dir + rest,
        dir.len() > 0 && dir.last() != '/' ==> below(dir, rest) == dir + seq!['/'] + rest,
{
    if dir.len() == 0 {
        assert(dir + rest =~= rest);
    }
    assert(dir.push('/') =~= dir + seq!['/']);
}

/// The last component of the name is the one that is found.
pub proof fn law_the_last_cellar_is_found(parts: Texts, n: int)
    requires
        0 <= n <= parts.len(),
    ensures
        cellar_at(parts, n) matches Some(k) ==> {
            &&& 0 <= k < n
            &&& parts[k] == "Cellar"@
            &&& forall|j: int| k < j < n ==> #[trigger] parts[j] != "Cellar"@
        },
        cellar_at(parts, n) is None ==> forall|j: int|
            0 <= j < n ==> #[trigger] parts[j] != "Cellar"@,
    decreases n,
{
    if n > 0 && parts[n - 1] != "Cellar"@ {
        law_the_last_cellar_is_found(parts, n - 1);
    }
}

} // verus!
