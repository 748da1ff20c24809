//! Which `os-release` texts the release parser takes: a line with a known key whose
//! value, trimmed, is a lone quote character is one it cannot take.
use crate::text::{chars_from, from_chars, to_chars, trim, trim_of, views};
use vstd::prelude::*;

verus! {

/// The keys that the release parser reads into fields, in its order.
pub open spec fn release_keys() -> Seq<Seq<char>> {
    seq![
        "NAME="@,
        "VERSION="@,
        "ID="@,
        "ID_LIKE="@,
        "PRETTY_NAME="@,
        "VERSION_ID="@,
        "HOME_URL="@,
        "SUPPORT_URL="@,
        "BUG_REPORT_URL="@,
        "PRIVACY_POLICY_URL="@,
        "VERSION_CODENAME="@,
    ]
}

/// Whether `t` starts with `k`.
pub open spec fn has_prefix(t: Seq<char>, k: Seq<char>) -> bool {
    k.len() <= t.len() && t.subrange(0, k.len() as int) == k
}

/// The value of a trimmed line after the key `k`, trimmed.
pub open spec fn value_after(t: Seq<char>, k: Seq<char>) -> Seq<char> {
    trim_of(t.subrange(k.len() as int, t.len() as int))
}

/// A lone double or single quote.
pub open spec fn lone_quote(v: Seq<char>) -> bool {
    v == seq!['"'] || v == seq!['\'']
}

/// Whether the release parser takes a line: no known key of it has a lone quote as
/// its value.
pub open spec fn release_line_ok(line: Seq<char>) -> bool {
    forall|j: int|
        0 <= j < release_keys().len() ==> (#[trigger] has_prefix(trim_of(line), release_keys()[j])
            ==> !lone_quote(value_after(trim_of(line), release_keys()[j])))
}

/// Whether the release parser takes every line of a text.
pub open spec fn release_ok(lines: Seq<Seq<char>>) -> bool {
    forall|i: int| 0 <= i < lines.len() ==> release_line_ok(#[trigger] lines[i])
}

fn release_key(j: usize) -> (r: &'static str)
    requires
        j < 11,
    ensures
        r@ == release_keys()[j as int],
{
    if j == 0 {
        "NAME="
    } else if j == 1 {
        "VERSION="
    } else if j == 2 {
        "ID="
    } else if j == 3 {
        "ID_LIKE="
    } else if j == 4 {
        "PRETTY_NAME="
    } else if j == 5 {
        "VERSION_ID="
    } else if j == 6 {
        "HOME_URL="
    } else if j == 7 {
        "SUPPORT_URL="
    } else if j == 8 {
        "BUG_REPORT_URL="
    } else if j == 9 {
        "PRIVACY_POLICY_URL="
    } else {
        "VERSION_CODENAME="
    }
}

fn starts_with_chars(t: &Vec<char>, k: &Vec<char>) -> (r: bool)
    ensures
        r == has_prefix(t@, k@),
{
    if k.len() > t.len() {
        return false;
    }
    let mut m: usize = 0;
    while m < k.len()
        invariant
            k.len() <= t.len(),
            0 <= m <= k.len(),
            forall|q: int| 0 <= q < m ==> t@[q] == k@[q],
        decreases k.len() - m,
    {
        if t[m] != k[m] {
            proof {
                assert(t@.subrange(0, k@.len() as int)[m as int] != k@[m as int]);
            }
            return false;
        }
        m = m + 1;
    }
    proof {
        assert(t@.subrange(0, k@.len() as int) =~= k@);
    }
    true
}

/// Whether the release parser takes a line.
pub fn check_release_line(line: &str) -> (r: bool)
    ensures
        r == release_line_ok(line@),
{
    let t = trim(line);
    let cs = to_chars(t);
    let mut j: usize = 0;
    while j < 11
        invariant
            0 <= j <= 11,
            cs@ == trim_of(line@),
            release_keys().len() == 11,
            forall|q: int|
                0 <= q < j ==> (#[trigger] has_prefix(trim_of(line@), release_keys()[q])
                    ==> !lone_quote(value_after(trim_of(line@), release_keys()[q]))),
        decreases 11 - j,
    {
        let k = to_chars(release_key(j));
        if starts_with_chars(&cs, &k) {
            let rest = from_chars(&chars_from(&cs, k.len()));
            let v = to_chars(trim(rest.as_str()));
            if v.len() == 1 && (v[0] == '"' || v[0] == '\'') {
                proof {
                    assert(v@ =~= seq![v@[0]]);
                    assert(has_prefix(trim_of(line@), release_keys()[j as int]));
                }
                return false;
            }
            proof {
                if lone_quote(v@) {
                    assert(v@.len() == 1);
                }
            }
        }
        j = j + 1;
    }
    true
}

/// Whether the release parser takes every line of a text.
pub fn check_release(lines: &Vec<String>) -> (r: bool)
    ensures
        r == release_ok(views(lines@)),
{
    let mut i: usize = 0;
    while i < lines.len()
        invariant
            0 <= i <= lines.len(),
            forall|q: int| 0 <= q < i ==> release_line_ok(#[trigger] views(lines@)[q]),
        decreases lines.len() - i,
    {
        proof {
            assert(views(lines@)[i as int] == lines@[i as int]@);
        }
        if !check_release_line(lines[i].as_str()) {
            return false;
        }
        i = i + 1;
    }
    true
}

} // verus!
