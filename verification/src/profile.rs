//! Profile types. Paths are layer-relative, `/`-separated; the scanner fills
//! them.

use vstd::prelude::*;

verus! {

/// The complete inventory of a layer root file system.
#[derive(Clone, Debug, PartialEq, Eq)]
pub struct LayerProfile {
    /// The C runtime, derived from the first dynamic binary's PT_INTERP.
    /// The `name` is the loader file-name stem, not a glibc/musl verdict.
    pub libc: Option<Libc>,
    /// Every distinct loader found across binaries, first occurrence first;
    /// the first entry is the same as `libc`.
    pub all_libcs: Vec<Libc>,
    /// Populated directories under `var/lib` and `var/db` with file counts.
    /// Policy picks the package manager, not the scanner.
    pub pm_dirs: Vec<(String, usize)>,
    /// Whether the root follows the file-system hierarchy standard.
    pub fhs: bool,
    /// Dynamic and static executables, and scripts, under bin roots.
    pub bin: Vec<Bin>,
    /// Shared libraries (.so files under lib roots).
    pub lib: Vec<Lib>,
    /// Application launcher entries from .desktop files.
    pub apps: Vec<Desktop>,
    /// Display manager and desktop session entries.
    pub sessions: Vec<Session>,
    /// Icon files under an icons/ tree.
    pub icons: Vec<Icon>,
    /// Cursor theme directories under an icons/ tree.
    pub cursors: Vec<Cursor>,
    /// Theme directories under a themes/ tree.
    pub themes: Vec<Theme>,
    /// Font files under a fonts/ tree.
    pub fonts: Vec<Font>,
    /// Service entries: supervised dirs, executable scripts, text units.
    pub services: Vec<Service>,
    /// Locale trees (language from the directory name).
    pub locale: Vec<Locale>,
    /// Kernel modules (.ko files under lib/modules/).
    pub modules: Vec<Module>,
    /// Compiler toolchains detected by their artifacts.
    pub toolchains: Vec<Toolchain>,
    /// Count of xml mime-type files under usr/share/mime.
    pub mime: usize,
    /// The xml mime-type files that `mime` counts.
    pub mime_paths: Vec<String>,
    /// Count of firmware blobs under a firmware/ tree of a lib root.
    pub firmware: usize,
    /// The firmware blobs that `firmware` counts.
    pub firmware_paths: Vec<String>,
    /// udev rule files (`*.rules` in a udev rules.d directory).
    pub udev_rules: Vec<String>,
    /// udev hardware database files (`*.hwdb` in a udev hwdb.d directory).
    pub udev_hwdb: Vec<String>,
    /// polkit rule files (`*.rules` in a polkit-1 rules.d directory).
    pub polkit_rules: Vec<String>,
    /// polkit action files (`*.policy` in polkit-1/actions).
    pub polkit_actions: Vec<String>,
    /// Man pages found under a man/ tree.
    pub man: Vec<ManPage>,
}

/// The C runtime identity: the loader's file-name stem and its full path.
#[derive(Clone, Debug, PartialEq, Eq)]
pub struct Libc {
    pub name: String,
    /// The full PT_INTERP path inside the layer, same fact as `Bin::interp`.
    pub interp: String,
}

/// A binary executable found under a bin root.
#[derive(Clone, Debug, PartialEq, Eq)]
pub struct Bin {
    pub path: String,
    /// The PT_INTERP path if the binary is dynamically linked. None for static.
    pub interp: Option<String>,
    /// Whether a PT_DYNAMIC segment is present. False for scripts.
    pub dynamic: bool,
    /// The shebang interpreter path when the file is not an ELF but starts
    /// with `#!`. None for ELF binaries and non-script files.
    pub script: Option<String>,
    /// DT_NEEDED entries of an ELF binary; empty for static ones and scripts.
    pub needed: Vec<String>,
}

/// A shared library (.so) under a lib root.
#[derive(Clone, Debug, PartialEq, Eq)]
pub struct Lib {
    pub path: String,
    /// The DT_SONAME entry, if the library declares one.
    pub soname: Option<String>,
    /// DT_NEEDED entries: the libraries this one depends on.
    pub needed: Vec<String>,
}

/// A freedesktop .desktop file (application launcher entry).
#[derive(Clone, Debug, PartialEq, Eq)]
pub struct Desktop {
    pub path: String,
    /// The Name key from the primary group.
    pub name: Option<String>,
    /// The Icon key.
    pub icon: Option<String>,
    /// The Exec key: the command line the entry launches.
    pub command: Option<String>,
}

/// A display-manager or desktop-session .desktop file.
#[derive(Clone, Debug, PartialEq, Eq)]
pub struct Session {
    pub path: String,
    pub name: Option<String>,
    pub command: Option<String>,
    /// "x11" for xsessions, "wayland" for wayland-sessions.
    pub kind: String,
}

/// An icon file at theme/size/name inside an icons/ tree. No format
/// whitelist: the file's position under icons/ makes it an icon.
#[derive(Clone, Debug, PartialEq, Eq)]
pub struct Icon {
    pub path: String,
    pub theme: String,
    pub size: String,
    pub name: String,
}

/// A cursor theme directory under an icons/ tree.
#[derive(Clone, Debug, PartialEq, Eq)]
pub struct Cursor {
    pub path: String,
    pub name: String,
    /// Number of cursor files in this directory.
    pub count: usize,
}

/// A theme directory under a themes/ tree.
#[derive(Clone, Debug, PartialEq, Eq)]
pub struct Theme {
    pub path: String,
    pub name: String,
    /// Comma-separated engine names derived from subdirectory names.
    pub kind: String,
}

/// A font file under a fonts/ tree: the extension is the format, the token
/// after the last separator is the weight.
#[derive(Clone, Debug, PartialEq, Eq)]
pub struct Font {
    pub path: String,
    pub name: String,
    pub format: String,
    pub weight: Option<String>,
}

/// A service entry: a supervised dir with a run file, an executable script,
/// or a text unit. The kind is the file extension, the name is the stem.
#[derive(Clone, Debug, PartialEq, Eq)]
pub struct Service {
    pub path: String,
    pub kind: String,
    pub name: String,
}

/// A locale directory under a locale/ tree; lang is the directory name.
#[derive(Clone, Debug, PartialEq, Eq)]
pub struct Locale {
    pub path: String,
    pub lang: String,
}

/// A kernel module (.ko) under lib/modules/.
#[derive(Clone, Debug, PartialEq, Eq)]
pub struct Module {
    pub path: String,
    pub name: String,
    /// The kernel version from the directory name under lib/modules/.
    pub kernel: String,
}

/// A compiler toolchain detected by its artifacts (crt*.o or *.a): name is
/// the parent directory, version the subdirectory.
#[derive(Clone, Debug, PartialEq, Eq)]
pub struct Toolchain {
    pub path: String,
    pub name: String,
    pub version: String,
}

/// A man page under a man/ tree: section from the directory name (man1 is
/// "1"), lang from an optional locale directory between man/ and the section.
#[derive(Clone, Debug, PartialEq, Eq)]
pub struct ManPage {
    pub path: String,
    pub name: String,
    pub section: String,
    pub lang: Option<String>,
}

/// The view of an optional string.
pub open spec fn opt_view(o: Option<String>) -> Option<Seq<char>> {
    match o {
        Some(s) => Some(s@),
        None => None,
    }
}

/// The views of a vector of strings.
pub open spec fn strs_view(v: Seq<String>) -> Seq<Seq<char>> {
    v.map_values(|s: String| s@)
}

impl LayerProfile {
    /// The empty profile of a layer.
    pub fn empty(fhs: bool) -> (p: LayerProfile)
        ensures
            p.is_empty(),
            p.fhs == fhs,
    {
        LayerProfile {
            libc: None,
            all_libcs: Vec::new(),
            pm_dirs: Vec::new(),
            fhs,
            bin: Vec::new(),
            lib: Vec::new(),
            apps: Vec::new(),
            sessions: Vec::new(),
            icons: Vec::new(),
            cursors: Vec::new(),
            themes: Vec::new(),
            fonts: Vec::new(),
            services: Vec::new(),
            locale: Vec::new(),
            modules: Vec::new(),
            toolchains: Vec::new(),
            mime: 0,
            mime_paths: Vec::new(),
            firmware: 0,
            firmware_paths: Vec::new(),
            udev_rules: Vec::new(),
            udev_hwdb: Vec::new(),
            polkit_rules: Vec::new(),
            polkit_actions: Vec::new(),
            man: Vec::new(),
        }
    }

    /// Nothing has been recorded.
    pub open spec fn is_empty(&self) -> bool {
        &&& self.libc is None
        &&& self.all_libcs@.len() == 0
        &&& self.pm_dirs@.len() == 0
        &&& self.bin@.len() == 0
        &&& self.lib@.len() == 0
        &&& self.apps@.len() == 0
        &&& self.sessions@.len() == 0
        &&& self.icons@.len() == 0
        &&& self.cursors@.len() == 0
        &&& self.themes@.len() == 0
        &&& self.fonts@.len() == 0
        &&& self.services@.len() == 0
        &&& self.locale@.len() == 0
        &&& self.modules@.len() == 0
        &&& self.toolchains@.len() == 0
        &&& self.mime == 0
        &&& self.mime_paths@.len() == 0
        &&& self.firmware == 0
        &&& self.firmware_paths@.len() == 0
        &&& self.udev_rules@.len() == 0
        &&& self.udev_hwdb@.len() == 0
        &&& self.polkit_rules@.len() == 0
        &&& self.polkit_actions@.len() == 0
        &&& self.man@.len() == 0
    }

    /// The counters agree with the paths they count.
    pub open spec fn counts_ok(&self) -> bool {
        &&& self.mime == self.mime_paths@.len()
        &&& self.firmware == self.firmware_paths@.len()
    }
}

} // verus!
