//! Finds which operating system, if any, is installed under a filesystem root.
//!
//! The library decides from what was read under the root: the text of
//! `etc/os-release` and `etc/fstab`, and whether the Windows kernel image exists.
pub mod detect;
pub mod fstab;
pub mod plist;
pub mod release;
pub mod text;
pub use detect::{detect_linux, detect_macos, detect_os_from_path, detect_windows, RootFiles, OS};
pub use fstab::{find_linux_parts, fstab_entry, resolve_source};
pub use plist::{parse_plist, parse_plist_lines};
pub use release::{check_release, check_release_line};
