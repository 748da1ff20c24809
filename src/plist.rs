//! A scanner that takes a product name and version out of a small property-list file,
//! line by line, without general markup parsing.
use crate::text::{append_chars, from_chars, lines_of, opt_view, split_lines, to_chars, trim, trim_of, views};
use vstd::prelude::*;

verus! {

/// Where the scanner stands between two lines.
pub enum ScanState {
    Idle,
    AwaitVersion,
    AwaitName,
}

/// The line that announces the version value.
pub open spec fn version_key() -> Seq<char> {
    "<key>ProductUserVisibleVersion</key>"@
}

/// The line that announces the product name value.
pub open spec fn name_key() -> Seq<char> {
    "<key>ProductName</key>"@
}

/// The value held by a wrapper line: what lies between its first 8 and its last 9
/// characters, or nothing where the line is too short to hold both.
pub open spec fn inner_value(t: Seq<char>) -> Seq<char> {
    if t.len() >= 17 {
        t.subrange(8, t.len() - 9)
    } else {
        Seq::empty()
    }
}

/// `"{name} ({version})"`.
pub open spec fn label(name: Seq<char>, version: Seq<char>) -> Seq<char> {
    name + seq![' ', '('] + version + seq![')']
}

/// The scan of `lines` from index `i` on, in state `st`, with what was captured so far.
pub open spec fn scan_from(
    lines: Seq<Seq<char>>,
    i: int,
    st: ScanState,
    name: Option<Seq<char>>,
    version: Option<Seq<char>>,
) -> Option<Seq<char>>
    decreases lines.len() - i,
{
    if name is Some && version is Some {
        Some(label(name->0, version->0))
    } else if i < 0 || i >= lines.len() {
        None
    } else {
        let t = trim_of(lines[i]);
        match st {
            ScanState::Idle => {
                if t == version_key() {
                    scan_from(lines, i + 1, ScanState::AwaitVersion, name, version)
                } else if t == name_key() {
                    scan_from(lines, i + 1, ScanState::AwaitName, name, version)
                } else {
                    scan_from(lines, i + 1, ScanState::Idle, name, version)
                }
            },
            ScanState::AwaitVersion => {
                if t.len() < 10 {
                    None
                } else {
                    scan_from(lines, i + 1, ScanState::Idle, name, Some(inner_value(t)))
                }
            },
            ScanState::AwaitName => {
                if t.len() < 10 {
                    None
                } else {
                    scan_from(lines, i + 1, ScanState::Idle, Some(inner_value(t)), version)
                }
            },
        }
    }
}

/// The label that the scanner gives for a sequence of lines.
pub open spec fn plist_label(lines: Seq<Seq<char>>) -> Option<Seq<char>> {
    scan_from(lines, 0, ScanState::Idle, None, None)
}

/// Whether no line of `lines` in `[from, to)` is a key line once trimmed.
pub open spec fn no_keys(lines: Seq<Seq<char>>, from: int, to: int) -> bool {
    forall|k: int| from <= k < to ==> trim_of(#[trigger] lines[k]) != version_key()
        && trim_of(lines[k]) != name_key()
}

proof fn lemma_keys_differ()
    ensures
        name_key() != version_key(),
{
    reveal_strlit("<key>ProductName</key>");
    reveal_strlit("<key>ProductUserVisibleVersion</key>");
    assert(name_key().len() != version_key().len());
}

/// Lines that are no key lines leave an idle scan where it was.
proof fn lemma_skip(
    lines: Seq<Seq<char>>,
    i: int,
    j: int,
    name: Option<Seq<char>>,
    version: Option<Seq<char>>,
)
    requires
        0 <= i <= j <= lines.len(),
        no_keys(lines, i, j),
        !(name is Some && version is Some),
    ensures
        scan_from(lines, i, ScanState::Idle, name, version) == scan_from(
            lines,
            j,
            ScanState::Idle,
            name,
            version,
        ),
    decreases j - i,
{
    if i < j {
        assert(trim_of(lines[i]) != version_key() && trim_of(lines[i]) != name_key());
        lemma_skip(lines, i + 1, j, name, version);
    }
}

/// Where a text holds the name key line followed by a value line, and later the
/// version key line followed by a value line, both values at least 10 characters
/// long once trimmed and no other key line before them, the scanner gives
/// `"{name} ({version})"` with each value cut out of its wrapper.
pub proof fn lemma_name_then_version(
    pre: Seq<Seq<char>>,
    name_line: Seq<char>,
    name_value: Seq<char>,
    mid: Seq<Seq<char>>,
    version_line: Seq<char>,
    version_value: Seq<char>,
    post: Seq<Seq<char>>,
)
    requires
        no_keys(pre, 0, pre.len() as int),
        no_keys(mid, 0, mid.len() as int),
        trim_of(name_line) == name_key(),
        trim_of(version_line) == version_key(),
        trim_of(name_value).len() >= 10,
        trim_of(version_value).len() >= 10,
    ensures
        plist_label(pre + seq![name_line, name_value] + mid + seq![version_line, version_value] + post)
            == Some(label(inner_value(trim_of(name_value)), inner_value(trim_of(version_value)))),
{
    let l = pre + seq![name_line, name_value] + mid + seq![version_line, version_value] + post;
    let a = pre.len() as int;
    let b = a + 2 + mid.len();
    lemma_keys_differ();
    assert(l[a] == name_line && l[a + 1] == name_value);
    assert(l[b] == version_line && l[b + 1] == version_value);
    assert forall|k: int| 0 <= k < a implies trim_of(#[trigger] l[k]) != version_key() && trim_of(
        l[k],
    ) != name_key() by {
        assert(l[k] == pre[k]);
    }
    assert forall|k: int| a + 2 <= k < b implies trim_of(#[trigger] l[k]) != version_key()
        && trim_of(l[k]) != name_key() by {
        assert(l[k] == mid[k - a - 2]);
    }
    let n = Some(inner_value(trim_of(name_value)));
    let v = Some(inner_value(trim_of(version_value)));
    lemma_skip(l, 0, a, None, None);
    lemma_skip(l, a + 2, b, n, None);
    assert(scan_from(l, b + 2, ScanState::Idle, n, v) == Some(label(n->0, v->0)));
    assert(scan_from(l, b + 1, ScanState::AwaitVersion, n, None) == scan_from(l, b + 2, ScanState::Idle, n, v));
    assert(scan_from(l, b, ScanState::Idle, n, None) == scan_from(l, b + 1, ScanState::AwaitVersion, n, None));
    assert(scan_from(l, a + 1, ScanState::AwaitName, None, None) == scan_from(l, a + 2, ScanState::Idle, n, None));
    assert(scan_from(l, a, ScanState::Idle, None, None) == scan_from(l, a + 1, ScanState::AwaitName, None, None));
}

/// The same law with the version given before the name.
pub proof fn lemma_version_then_name(
    pre: Seq<Seq<char>>,
    version_line: Seq<char>,
    version_value: Seq<char>,
    mid: Seq<Seq<char>>,
    name_line: Seq<char>,
    name_value: Seq<char>,
    post: Seq<Seq<char>>,
)
    requires
        no_keys(pre, 0, pre.len() as int),
        no_keys(mid, 0, mid.len() as int),
        trim_of(name_line) == name_key(),
        trim_of(version_line) == version_key(),
        trim_of(name_value).len() >= 10,
        trim_of(version_value).len() >= 10,
    ensures
        plist_label(pre + seq![version_line, version_value] + mid + seq![name_line, name_value] + post)
            == Some(label(inner_value(trim_of(name_value)), inner_value(trim_of(version_value)))),
{
    let l = pre + seq![version_line, version_value] + mid + seq![name_line, name_value] + post;
    let a = pre.len() as int;
    let b = a + 2 + mid.len();
    lemma_keys_differ();
    assert(l[a] == version_line && l[a + 1] == version_value);
    assert(l[b] == name_line && l[b + 1] == name_value);
    assert forall|k: int| 0 <= k < a implies trim_of(#[trigger] l[k]) != version_key() && trim_of(
        l[k],
    ) != name_key() by {
        assert(l[k] == pre[k]);
    }
    assert forall|k: int| a + 2 <= k < b implies trim_of(#[trigger] l[k]) != version_key()
        && trim_of(l[k]) != name_key() by {
        assert(l[k] == mid[k - a - 2]);
    }
    let n = Some(inner_value(trim_of(name_value)));
    let v = Some(inner_value(trim_of(version_value)));
    lemma_skip(l, 0, a, None, None);
    lemma_skip(l, a + 2, b, None, v);
    assert(scan_from(l, b + 2, ScanState::Idle, n, v) == Some(label(n->0, v->0)));
    assert(scan_from(l, b + 1, ScanState::AwaitName, None, v) == scan_from(l, b + 2, ScanState::Idle, n, v));
    assert(scan_from(l, b, ScanState::Idle, None, v) == scan_from(l, b + 1, ScanState::AwaitName, None, v));
    assert(scan_from(l, a + 1, ScanState::AwaitVersion, None, None) == scan_from(l, a + 2, ScanState::Idle, None, v));
    assert(scan_from(l, a, ScanState::Idle, None, None) == scan_from(l, a + 1, ScanState::AwaitVersion, None, None));
}

/// Where the first key line of a text is followed by a value line shorter than 10
/// characters once trimmed, the scanner gives nothing.
pub proof fn lemma_short_value(
    pre: Seq<Seq<char>>,
    key_line: Seq<char>,
    value_line: Seq<char>,
    post: Seq<Seq<char>>,
)
    requires
        no_keys(pre, 0, pre.len() as int),
        trim_of(key_line) == name_key() || trim_of(key_line) == version_key(),
        trim_of(value_line).len() < 10,
    ensures
        plist_label(pre + seq![key_line, value_line] + post) is None,
{
    let l = pre + seq![key_line, value_line] + post;
    let a = pre.len() as int;
    lemma_keys_differ();
    assert(l[a] == key_line && l[a + 1] == value_line);
    assert forall|k: int| 0 <= k < a implies trim_of(#[trigger] l[k]) != version_key() && trim_of(
        l[k],
    ) != name_key() by {
        assert(l[k] == pre[k]);
    }
    lemma_skip(l, 0, a, None, None);
    assert(scan_from(l, a + 1, ScanState::AwaitName, None, None) is None);
    assert(scan_from(l, a + 1, ScanState::AwaitVersion, None, None) is None);
}

/// A scan that stands idle at a key line, before both values are captured, and finds
/// a value line shorter than 10 characters after it ends with nothing, whatever the
/// lines after that hold.
pub proof fn lemma_short_value_at(
    lines: Seq<Seq<char>>,
    i: int,
    name: Option<Seq<char>>,
    version: Option<Seq<char>>,
)
    requires
        0 <= i,
        i + 1 < lines.len(),
        !(name is Some && version is Some),
        trim_of(lines[i]) == name_key() || trim_of(lines[i]) == version_key(),
        trim_of(lines[i + 1]).len() < 10,
    ensures
        scan_from(lines, i, ScanState::Idle, name, version) is None,
{
    lemma_keys_differ();
    assert(scan_from(lines, i + 1, ScanState::AwaitName, name, version) is None);
    assert(scan_from(lines, i + 1, ScanState::AwaitVersion, name, version) is None);
}

spec fn chars_opt(o: Option<Vec<char>>) -> Option<Seq<char>> {
    match o {
        Some(v) => Some(v@),
        None => None,
    }
}

fn inner_exec(t: &Vec<char>) -> (r: Vec<char>)
    ensures
        r@ == inner_value(t@),
{
    let mut out: Vec<char> = Vec::new();
    if t.len() >= 17 {
        let end: usize = t.len() - 9;
        let mut k: usize = 8;
        while k < end
            invariant
                t.len() >= 17,
                end == t.len() - 9,
                8 <= k <= end,
                out@ == t@.subrange(8, k as int),
            decreases end - k,
        {
            out.push(t[k]);
            k = k + 1;
            proof {
                assert(t@.subrange(8, k as int) == t@.subrange(8, k - 1 as int).push(t@[k - 1]));
            }
        }
    }
    out
}

fn label_exec(name: &Vec<char>, version: &Vec<char>) -> (r: String)
    ensures
        r@ == label(name@, version@),
{
    let mut out: Vec<char> = Vec::new();
    append_chars(&mut out, name);
    out.push(' ');
    out.push('(');
    append_chars(&mut out, version);
    out.push(')');
    proof {
        assert(out@ == label(name@, version@));
    }
    from_chars(&out)
}

/// Scans the lines of a property list for the product name and its version, and
/// gives `"{name} ({version})"`; `None` where either is missing or a value line is
/// shorter than 10 characters.
pub fn parse_plist_lines(lines: &Vec<String>) -> (r: Option<String>)
    ensures
        opt_view(r) == plist_label(views(lines@)),
{
    let ghost ls = views(lines@);
    let mut st = ScanState::Idle;
    let mut name: Option<Vec<char>> = None;
    let mut version: Option<Vec<char>> = None;
    let vkey: String = "<key>ProductUserVisibleVersion</key>".to_owned();
    let nkey: String = "<key>ProductName</key>".to_owned();
    let mut i: usize = 0;
    while i < lines.len()
        invariant
            0 <= i <= lines.len(),
            ls == views(lines@),
            vkey@ == version_key(),
            nkey@ == name_key(),
            !(name is Some && version is Some),
            scan_from(ls, i as int, st, chars_opt(name), chars_opt(version)) == plist_label(ls),
        decreases lines.len() - i,
    {
        let t = trim(lines[i].as_str());
        proof {
            assert(ls[i as int] == lines@[i as int]@);
        }
        match st {
            ScanState::Idle => {
                let ts: String = t.to_owned();
                if ts == vkey {
                    st = ScanState::AwaitVersion;
                } else if ts == nkey {
                    st = ScanState::AwaitName;
                }
            },
            ScanState::AwaitVersion => {
                let cs = to_chars(t);
                if cs.len() < 10 {
                    return None;
                }
                version = Some(inner_exec(&cs));
                st = ScanState::Idle;
            },
            ScanState::AwaitName => {
                let cs = to_chars(t);
                if cs.len() < 10 {
                    return None;
                }
                name = Some(inner_exec(&cs));
                st = ScanState::Idle;
            },
        }
        i = i + 1;
        match (&name, &version) {
            (Some(n), Some(v)) => {
                return Some(label_exec(n, v));
            },
            _ => {},
        }
    }
    None
}

/// Scans a property-list text for the product name and its version; see
/// [`parse_plist_lines`].
pub fn parse_plist(content: &str) -> (r: Option<String>)
    ensures
        opt_view(r) == plist_label(lines_of(content@)),
{
    let lines = split_lines(content);
    parse_plist_lines(&lines)
}

} // verus!
