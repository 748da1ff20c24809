//! The probe chain: Linux, then Windows, then macOS, from what was read under a root.
use crate::fstab::{find_linux_parts, parts_upto, Parts};
use crate::plist::{parse_plist, plist_label};
use crate::release::{check_release, release_ok};
use crate::text::{lines_of, opt_view, split_lines, views};
use os_release::OsRelease;
use vstd::prelude::*;

verus! {

#[verifier::external_type_specification]
#[verifier::external_body]
pub struct ExOsRelease(OsRelease);

/// Relies on `os_release::OsRelease`'s derived `Clone`, which the result type's own
/// `Clone` calls.
pub assume_specification[ <OsRelease as Clone>::clone ](r: &OsRelease) -> OsRelease;

/// Relies on `os_release::OsRelease`'s `FromIterator<String>`: the release descriptor
/// read from the lines of an `os-release` file. It panics on a line with a known key
/// whose trimmed value is a lone quote, which `requires` leaves out.
#[verifier::external_body]
fn parse_os_release(lines: Vec<String>) -> (r: OsRelease)
    requires
        release_ok(views(lines@)),
{
    lines.into_iter().collect()
}

/// The operating system found under a root.
#[derive(Debug, Clone)]
pub enum OS {
    Windows(String),
    Linux { info: OsRelease, efi: Option<String>, home: Option<String>, recovery: Option<String> },
    MacOs(String),
}

/// What the probes read under a filesystem root: the text of `etc/os-release` and of
/// `etc/fstab` where they could be read, and whether
/// `Windows/System32/ntoskrnl.exe` exists.
pub struct RootFiles {
    pub os_release: Option<String>,
    pub fstab: Option<String>,
    pub has_ntoskrnl: bool,
}

/// The label of a Windows result.
pub open spec fn windows_label(o: Option<OS>) -> Option<Seq<char>> {
    match o {
        Some(OS::Windows(s)) => Some(s@),
        _ => None,
    }
}

/// The label of a macOS result.
pub open spec fn macos_label(o: Option<OS>) -> Option<Seq<char>> {
    match o {
        Some(OS::MacOs(s)) => Some(s@),
        _ => None,
    }
}

/// The home, EFI and recovery identifiers of a Linux result.
pub open spec fn linux_parts(o: Option<OS>) -> Option<Parts> {
    match o {
        Some(OS::Linux { home, efi, recovery, .. }) => Some(
            (opt_view(home), opt_view(efi), opt_view(recovery)),
        ),
        _ => None,
    }
}

/// Whether `p` is what the mount table `fstab` gives where `devices` are the outcomes
/// of the device lookups, one per line.
pub open spec fn parts_with(table: Seq<char>, devices: Seq<Option<Seq<char>>>, p: Parts) -> bool {
    devices.len() == lines_of(table).len() && p == parts_upto(
        lines_of(table),
        devices,
        lines_of(table).len() as int,
    )
}

/// The characters of an optional text.
pub open spec fn opt_str_view(o: Option<&str>) -> Option<Seq<char>> {
    match o {
        Some(s) => Some(s@),
        None => None,
    }
}

/// Whether the Linux probe finds a system from the release descriptor's text: it was
/// read, and the release parser takes it.
pub open spec fn linux_found(os_release: Option<Seq<char>>) -> bool {
    os_release is Some && release_ok(lines_of(os_release->0))
}

/// The label that the macOS probe gives for a descriptor's text.
pub open spec fn macos_label_of(content: Seq<char>) -> Seq<char> {
    match plist_label(lines_of(content)) {
        Some(l) => l,
        None => "Mac OS (Unknown)"@,
    }
}

/// Linux is found where the release descriptor could be read and the release parser
/// takes it; its partitions come from the mount table, if there is one.
pub fn detect_linux(os_release: Option<&str>, fstab: Option<&str>) -> (r: Option<OS>)
    ensures
        r is Some <==> linux_found(opt_str_view(os_release)),
        r is Some ==> linux_parts(r) is Some,
        r is Some && fstab is None ==> linux_parts(r) == Some(
            (None::<Seq<char>>, None::<Seq<char>>, None::<Seq<char>>),
        ),
        r is Some && fstab is Some ==> exists|devices: Seq<Option<Seq<char>>>|
            #[trigger] parts_with(fstab->0@, devices, linux_parts(r)->0),
{
    match os_release {
        None => None,
        Some(text) => {
            let release_lines = split_lines(text);
            if !check_release(&release_lines) {
                return None;
            }
            let info = parse_os_release(release_lines);
            let (home, efi, recovery) = match fstab {
                None => (None, None, None),
                Some(table) => {
                    let lines = split_lines(table);
                    let parts = find_linux_parts(&lines);
                    proof {
                        let ls = views(lines@);
                        assert(ls == lines_of(table@));
                        let d = choose|d: Seq<Option<Seq<char>>>|
                            #![trigger parts_upto(ls, d, lines@.len() as int)]
                            d.len() == lines@.len() && (
                                opt_view(parts.0),
                                opt_view(parts.1),
                                opt_view(parts.2),
                            ) == parts_upto(ls, d, lines@.len() as int);
                        assert(parts_with(
                            table@,
                            d,
                            (opt_view(parts.0), opt_view(parts.1), opt_view(parts.2)),
                        ));
                    }
                    parts
                },
            };
            let r = Some(OS::Linux { info, efi, home, recovery });
            proof {
                if fstab is Some {
                    let p = (opt_view(home), opt_view(efi), opt_view(recovery));
                    let d = choose|d: Seq<Option<Seq<char>>>| #[trigger] parts_with(fstab->0@, d, p);
                    assert(linux_parts(r)->0 == p);
                    assert(parts_with(fstab->0@, d, linux_parts(r)->0));
                }
            }
            r
        },
    }
}

/// Windows is found where its kernel image exists.
pub fn detect_windows(has_ntoskrnl: bool) -> (r: Option<OS>)
    ensures
        r is Some <==> has_ntoskrnl,
        has_ntoskrnl ==> windows_label(r) == Some("Windows"@),
{
    if has_ntoskrnl {
        Some(OS::Windows("Windows".to_owned()))
    } else {
        None
    }
}

/// macOS is found where the descriptor could be read: labelled with its product name
/// and version, or with a fixed label where those cannot be found in it.
pub fn detect_macos(descriptor: Option<&str>) -> (r: Option<OS>)
    ensures
        r is Some <==> descriptor is Some,
        descriptor is Some ==> macos_label(r) == Some(macos_label_of(descriptor->0@)),
{
    match descriptor {
        None => None,
        Some(text) => {
            let label = match parse_plist(text) {
                Some(l) => l,
                None => "Mac OS (Unknown)".to_owned(),
            };
            Some(OS::MacOs(label))
        },
    }
}

/// Tries Linux, then Windows, then macOS, and gives the first found.
pub fn detect_os_from_path(root: &RootFiles) -> (r: Option<OS>)
    ensures
        linux_found(opt_view(root.os_release)) ==> linux_parts(r) is Some,
        linux_found(opt_view(root.os_release)) && root.fstab is None ==> linux_parts(r) == Some(
            (None::<Seq<char>>, None::<Seq<char>>, None::<Seq<char>>),
        ),
        linux_found(opt_view(root.os_release)) && root.fstab is Some ==> exists|
            devices: Seq<Option<Seq<char>>>,
        | #[trigger] parts_with(root.fstab->0@, devices, linux_parts(r)->0),
        !linux_found(opt_view(root.os_release)) && root.has_ntoskrnl ==> windows_label(r) == Some(
            "Windows"@,
        ),
        !linux_found(opt_view(root.os_release)) && !root.has_ntoskrnl && root.os_release is Some
            ==> macos_label(r) == Some(macos_label_of(root.os_release->0@)),
        root.os_release is None && !root.has_ntoskrnl ==> r is None,
{
    let os_release = match &root.os_release {
        Some(s) => Some(s.as_str()),
        None => None,
    };
    let fstab = match &root.fstab {
        Some(s) => Some(s.as_str()),
        None => None,
    };
    let linux = detect_linux(os_release, fstab);
    if linux.is_some() {
        return linux;
    }
    let windows = detect_windows(root.has_ntoskrnl);
    if windows.is_some() {
        return windows;
    }
    detect_macos(os_release)
}

} // verus!
