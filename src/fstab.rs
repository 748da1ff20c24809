//! The mount-table parser: which partitions hold `/home`, `/boot/efi` and `/recovery`.
use crate::text::{chars_from, from_chars, opt_view, split_words, to_chars, trim, trim_of, views, words_of};
use vstd::prelude::*;

verus! {

/// Identifiers of the home, EFI and recovery partitions, each where it was found.
pub type Parts = (Option<Seq<char>>, Option<Seq<char>>, Option<Seq<char>>);

pub open spec fn home_target() -> Seq<char> {
    "/home"@
}

pub open spec fn efi_target() -> Seq<char> {
    "/boot/efi"@
}

pub open spec fn recovery_target() -> Seq<char> {
    "/recovery"@
}

/// The source and target of a mount-table line: its first two words once trimmed,
/// unless it is a comment or has fewer than two words.
pub open spec fn entry_of(line: Seq<char>) -> Option<(Seq<char>, Seq<char>)> {
    let t = trim_of(line);
    if t.len() > 0 && t[0] == '#' {
        None
    } else {
        let w = words_of(t);
        if w.len() >= 2 {
            Some((w[0], w[1]))
        } else {
            None
        }
    }
}

/// A comment line, one that starts with `#` once trimmed, is no entry, whatever
/// follows the `#`.
pub proof fn lemma_comment_line(line: Seq<char>)
    requires
        trim_of(line).len() > 0,
        trim_of(line)[0] == '#',
    ensures
        entry_of(line) is None,
{
}

/// Whether a line is an entry for `target`.
pub open spec fn targets(line: Seq<char>, target: Seq<char>) -> bool {
    match entry_of(line) {
        Some(e) => e.1 == target,
        None => false,
    }
}

/// The source of a line that is an entry.
pub open spec fn source_of(line: Seq<char>) -> Seq<char> {
    match entry_of(line) {
        Some(e) => e.0,
        None => Seq::empty(),
    }
}

/// Whether a source starts with `UUID`.
pub open spec fn is_uuid_source(source: Seq<char>) -> bool {
    source.len() >= 4 && source[0] == 'U' && source[1] == 'U' && source[2] == 'I' && source[3]
        == 'D'
}

/// The identifier of a mount source: for a device path, what the device lookup gave
/// (`device_id`); for `UUID` and a separator, the characters after the fifth; else none.
pub open spec fn resolve_spec(source: Seq<char>, device_id: Option<Seq<char>>) -> Option<
    Seq<char>,
> {
    if source.len() > 0 && source[0] == '/' {
        device_id
    } else if is_uuid_source(source) && source.len() >= 5 {
        Some(source.subrange(5, source.len() as int))
    } else {
        None
    }
}

/// The index of the first of the first `n` lines that is an entry for `target`.
pub open spec fn first_upto(lines: Seq<Seq<char>>, target: Seq<char>, n: int) -> Option<int>
    decreases n,
{
    if n <= 0 {
        None
    } else {
        match first_upto(lines, target, n - 1) {
            Some(k) => Some(k),
            None => if targets(lines[n - 1], target) {
                Some(n - 1)
            } else {
                None
            },
        }
    }
}

/// The identifier for `target` that the first `n` lines give: the first line for the
/// target decides, and gives what its source resolves to (none included), where
/// `devices[k]` is what the device lookup gave for line `k`.
pub open spec fn part_of(
    lines: Seq<Seq<char>>,
    devices: Seq<Option<Seq<char>>>,
    target: Seq<char>,
    n: int,
) -> Option<Seq<char>> {
    match first_upto(lines, target, n) {
        Some(k) => resolve_spec(source_of(lines[k]), devices[k]),
        None => None,
    }
}

/// The home, EFI and recovery identifiers of a whole mount table.
pub open spec fn parts_upto(lines: Seq<Seq<char>>, devices: Seq<Option<Seq<char>>>, n: int) -> Parts {
    (
        part_of(lines, devices, home_target(), n),
        part_of(lines, devices, efi_target(), n),
        part_of(lines, devices, recovery_target(), n),
    )
}

/// Relies on `partition_identity::PartitionID::get_uuid`: the UUID of the device at a
/// path, where `/dev/disk/by-uuid` has one. It depends on the disks of the machine.
#[verifier::external_body]
fn device_uuid(path: &str) -> (r: Option<String>) {
    partition_identity::PartitionID::get_uuid(path).map(|id| id.id)
}

/// Splits a mount-table line into its source and target.
pub fn fstab_entry(line: &str) -> (r: Option<(String, String)>)
    ensures
        match r {
            Some(e) => entry_of(line@) == Some((e.0@, e.1@)),
            None => entry_of(line@) is None,
        },
{
    let t = trim(line);
    let cs = to_chars(t);
    if cs.len() > 0 && cs[0] == '#' {
        return None;
    }
    let words = split_words(t);
    proof {
        assert(views(words@).len() == words@.len());
    }
    if words.len() >= 2 {
        let source = words[0].clone();
        let target = words[1].clone();
        proof {
            assert(views(words@)[0] == words@[0]@);
            assert(views(words@)[1] == words@[1]@);
        }
        Some((source, target))
    } else {
        None
    }
}

/// The identifier of a mount source, given what the device lookup gave for it.
pub fn resolve_source(source: &str, device_id: Option<String>) -> (r: Option<String>)
    ensures
        opt_view(r) == resolve_spec(source@, opt_view(device_id)),
{
    let cs = to_chars(source);
    if cs.len() > 0 && cs[0] == '/' {
        device_id
    } else if cs.len() >= 5 && cs[0] == 'U' && cs[1] == 'U' && cs[2] == 'I' && cs[3] == 'D' {
        let rest = chars_from(&cs, 5);
        Some(from_chars(&rest))
    } else {
        None
    }
}

/// Whether a source names a device path.
fn is_device_path(source: &str) -> (r: bool)
    ensures
        r == (source@.len() > 0 && source@[0] == '/'),
{
    let cs = to_chars(source);
    cs.len() > 0 && cs[0] == '/'
}

/// The identifiers of the home, EFI and recovery partitions that a mount table's
/// lines give, in that order. For each target the first line for it decides, and
/// later lines for it are ignored; a device path is resolved through the machine's
/// disks, each time to some identifier or to none.
pub fn find_linux_parts(lines: &Vec<String>) -> (r: (Option<String>, Option<String>, Option<String>))
    ensures
        exists|devices: Seq<Option<Seq<char>>>|
            #![trigger parts_upto(views(lines@), devices, lines@.len() as int)]
            devices.len() == lines@.len() && (opt_view(r.0), opt_view(r.1), opt_view(r.2))
                == parts_upto(views(lines@), devices, lines@.len() as int),
{
    let ghost ls = views(lines@);
    let ghost mut devices: Seq<Option<Seq<char>>> = Seq::empty();
    let mut home: Option<String> = None;
    let mut efi: Option<String> = None;
    let mut recovery: Option<String> = None;
    let mut seen_home = false;
    let mut seen_efi = false;
    let mut seen_recovery = false;
    let home_s: String = "/home".to_owned();
    let efi_s: String = "/boot/efi".to_owned();
    let recovery_s: String = "/recovery".to_owned();
    let mut i: usize = 0;
    while i < lines.len()
        invariant
            0 <= i <= lines.len(),
            ls == views(lines@),
            home_s@ == home_target(),
            efi_s@ == efi_target(),
            recovery_s@ == recovery_target(),
            devices.len() == i,
            seen_home == first_upto(ls, home_target(), i as int) is Some,
            seen_efi == first_upto(ls, efi_target(), i as int) is Some,
            seen_recovery == first_upto(ls, recovery_target(), i as int) is Some,
            opt_view(home) == part_of(ls, devices, home_target(), i as int),
            opt_view(efi) == part_of(ls, devices, efi_target(), i as int),
            opt_view(recovery) == part_of(ls, devices, recovery_target(), i as int),
        decreases lines.len() - i,
    {
        proof {
            assert(ls[i as int] == lines@[i as int]@);
            lemma_targets_differ();
        }
        let ghost old_home = opt_view(home);
        let ghost old_efi = opt_view(efi);
        let ghost old_recovery = opt_view(recovery);
        let mut device: Option<String> = None;
        match fstab_entry(lines[i].as_str()) {
            None => {},
            Some((source, target)) => {
                let slot: u8 = if !seen_home && target == home_s {
                    0
                } else if !seen_efi && target == efi_s {
                    1
                } else if !seen_recovery && target == recovery_s {
                    2
                } else {
                    3
                };
                if slot < 3 {
                    if is_device_path(source.as_str()) {
                        device = device_uuid(source.as_str());
                    }
                    let id = resolve_source(source.as_str(), device.clone());
                    if slot == 0 {
                        home = id;
                        seen_home = true;
                    } else if slot == 1 {
                        efi = id;
                        seen_efi = true;
                    } else {
                        recovery = id;
                        seen_recovery = true;
                    }
                }
            },
        }
        proof {
            let old_devices = devices;
            devices = devices.push(opt_view(device));
            assert(devices[i as int] == opt_view(device));
            lemma_part_step(ls, old_devices, devices, home_target(), i as int);
            lemma_part_step(ls, old_devices, devices, efi_target(), i as int);
            lemma_part_step(ls, old_devices, devices, recovery_target(), i as int);
        }
        i = i + 1;
    }
    assert((opt_view(home), opt_view(efi), opt_view(recovery)) == parts_upto(ls, devices, i as int));
    (home, efi, recovery)
}

proof fn lemma_targets_differ()
    ensures
        home_target() != efi_target(),
        home_target() != recovery_target(),
        efi_target() != recovery_target(),
{
    reveal_strlit("/home");
    reveal_strlit("/boot/efi");
    reveal_strlit("/recovery");
    assert(home_target().len() != efi_target().len());
    assert(home_target().len() != recovery_target().len());
    assert(efi_target()[1] != recovery_target()[1]);
}

/// Where `first_upto` finds a line, it is an entry for the target; where it finds
/// none, no line before `n` is.
proof fn lemma_first_bounds(lines: Seq<Seq<char>>, target: Seq<char>, n: int)
    requires
        0 <= n <= lines.len(),
    ensures
        match first_upto(lines, target, n) {
            Some(k) => 0 <= k < n && targets(lines[k], target) && forall|m: int|
                0 <= m < k ==> !#[trigger] targets(lines[m], target),
            None => forall|m: int| 0 <= m < n ==> !#[trigger] targets(lines[m], target),
        },
    decreases n,
{
    if n > 0 {
        lemma_first_bounds(lines, target, n - 1);
    }
}

/// One more line, with one more lookup outcome: the slot of `target` keeps what it had
/// where a line for it was seen before, and else takes what the new line gives.
proof fn lemma_part_step(
    lines: Seq<Seq<char>>,
    old_devices: Seq<Option<Seq<char>>>,
    devices: Seq<Option<Seq<char>>>,
    target: Seq<char>,
    i: int,
)
    requires
        0 <= i < lines.len(),
        old_devices.len() == i,
        devices.len() == i + 1,
        forall|k: int| 0 <= k < i ==> devices[k] == old_devices[k],
    ensures
        first_upto(lines, target, i + 1) == (if first_upto(lines, target, i) is Some {
            first_upto(lines, target, i)
        } else if targets(lines[i], target) {
            Some(i)
        } else {
            None::<int>
        }),
        part_of(lines, devices, target, i + 1) == (if first_upto(lines, target, i) is Some {
            part_of(lines, old_devices, target, i)
        } else if targets(lines[i], target) {
            resolve_spec(source_of(lines[i]), devices[i])
        } else {
            None
        }),
{
    lemma_first_bounds(lines, target, i);
}

/// The first line for a target decides its slot: where line `i` is the first entry for
/// `target`, the table gives for it what that line's source resolves to, none included,
/// whatever the lines after it hold.
pub proof fn lemma_first_line_decides(
    lines: Seq<Seq<char>>,
    devices: Seq<Option<Seq<char>>>,
    target: Seq<char>,
    i: int,
)
    requires
        0 <= i < lines.len(),
        devices.len() == lines.len(),
        targets(lines[i], target),
        forall|k: int| 0 <= k < i ==> !#[trigger] targets(lines[k], target),
    ensures
        part_of(lines, devices, target, lines.len() as int) == resolve_spec(
            source_of(lines[i]),
            devices[i],
        ),
{
    lemma_first_from(lines, target, i, lines.len() as int);
}

proof fn lemma_first_from(lines: Seq<Seq<char>>, target: Seq<char>, i: int, n: int)
    requires
        0 <= i < lines.len(),
        0 <= n <= lines.len(),
        targets(lines[i], target),
        forall|k: int| 0 <= k < i ==> !#[trigger] targets(lines[k], target),
    ensures
        n <= i ==> first_upto(lines, target, n) is None,
        n > i ==> first_upto(lines, target, n) == Some(i),
    decreases n,
{
    if n > 0 {
        lemma_first_from(lines, target, i, n - 1);
        if n - 1 < i {
            assert(!targets(lines[n - 1], target));
        }
    }
}

/// Where the first entry for a target has a source that starts with `UUID` and holds at
/// least five characters, the table gives for it the characters after the fifth.
pub proof fn lemma_first_uuid_line(
    lines: Seq<Seq<char>>,
    devices: Seq<Option<Seq<char>>>,
    target: Seq<char>,
    i: int,
)
    requires
        0 <= i < lines.len(),
        devices.len() == lines.len(),
        targets(lines[i], target),
        forall|k: int| 0 <= k < i ==> !#[trigger] targets(lines[k], target),
        is_uuid_source(source_of(lines[i])),
        source_of(lines[i]).len() >= 5,
    ensures
        part_of(lines, devices, target, lines.len() as int) == Some(
            source_of(lines[i]).subrange(5, source_of(lines[i]).len() as int),
        ),
{
    lemma_first_line_decides(lines, devices, target, i);
}

/// A comment line, inserted anywhere in a mount table (or, read the other way, taken
/// out of one), leaves what the table gives unchanged, whatever the lookup gave for it.
pub proof fn lemma_comment_insert(
    lines: Seq<Seq<char>>,
    devices: Seq<Option<Seq<char>>>,
    p: int,
    comment: Seq<char>,
    device_id: Option<Seq<char>>,
)
    requires
        0 <= p <= lines.len(),
        devices.len() == lines.len(),
        trim_of(comment).len() > 0,
        trim_of(comment)[0] == '#',
    ensures
        parts_upto(lines.insert(p, comment), devices.insert(p, device_id), lines.len() + 1int)
            == parts_upto(lines, devices, lines.len() as int),
{
    lemma_comment_part(lines, devices, p, comment, device_id, home_target());
    lemma_comment_part(lines, devices, p, comment, device_id, efi_target());
    lemma_comment_part(lines, devices, p, comment, device_id, recovery_target());
}

proof fn lemma_comment_part(
    lines: Seq<Seq<char>>,
    devices: Seq<Option<Seq<char>>>,
    p: int,
    comment: Seq<char>,
    device_id: Option<Seq<char>>,
    target: Seq<char>,
)
    requires
        0 <= p <= lines.len(),
        devices.len() == lines.len(),
        trim_of(comment).len() > 0,
        trim_of(comment)[0] == '#',
    ensures
        part_of(lines.insert(p, comment), devices.insert(p, device_id), target, lines.len() + 1int)
            == part_of(lines, devices, target, lines.len() as int),
{
    let l2 = lines.insert(p, comment);
    let d2 = devices.insert(p, device_id);
    let n = lines.len() as int;
    lemma_comment_first(lines, p, comment, target, n + 1);
    lemma_first_bounds(lines, target, n);
    match first_upto(lines, target, n) {
        Some(k) => {
            if k < p {
                assert(l2[k] == lines[k] && d2[k] == devices[k]);
            } else {
                assert(l2[k + 1] == lines[k] && d2[k + 1] == devices[k]);
            }
        },
        None => {},
    }
}

/// Where the first entries for a target stand once a comment line is inserted at `p`.
proof fn lemma_comment_first(
    lines: Seq<Seq<char>>,
    p: int,
    comment: Seq<char>,
    target: Seq<char>,
    n: int,
)
    requires
        0 <= p <= lines.len(),
        0 <= n <= lines.len() + 1,
        trim_of(comment).len() > 0,
        trim_of(comment)[0] == '#',
    ensures
        n <= p ==> first_upto(lines.insert(p, comment), target, n) == first_upto(lines, target, n),
        n > p ==> first_upto(lines.insert(p, comment), target, n) == match first_upto(
            lines,
            target,
            n - 1,
        ) {
            Some(k) => Some(if k < p { k } else { k + 1 }),
            None => None,
        },
    decreases n,
{
    let l2 = lines.insert(p, comment);
    if n > 0 {
        lemma_comment_first(lines, p, comment, target, n - 1);
        lemma_first_bounds(lines, target, n - 1);
        if n - 1 < p {
            assert(l2[n - 1] == lines[n - 1]);
        } else if n - 1 == p {
            lemma_comment_line(comment);
            assert(l2[p] == comment);
            assert(!targets(comment, target));
        } else {
            assert(l2[n - 1] == lines[n - 2]);
        }
    }
}

} // verus!
