//! Classification of layer-relative paths: which directories are walked,
//! probed or recorded, and what a file is, by its position in the tree.

use crate::ScanConfig;
use crate::profile::{Bin, Font, Icon, Lib, Locale, ManPage, Module, Theme};
use crate::text::{
    chars_of, contains, first_char, first_char_exec, contains_lit, ends_lit, ends_with, eq_lit, ext_is, extension, find,
    find_lit, first_seg, first_seg_exec, last_seg, last_seg_exec, lemma_find, parent,
    rfind_char_exec, slice_chars, starts_lit, starts_with, starts_with_exec, string_of,
};
use vstd::prelude::*;

verus! {

// ------------------------------------------------------------ path roots

/// Where the part of `rel` after its kernel-module tree begins: after a
/// leading `lib/modules/`, else after the first `/lib/modules/`; None when
/// `rel` lies in no such tree.
pub open spec fn modules_rest(rel: Seq<char>) -> Option<int> {
    if starts_with(rel, "lib/modules/"@) {
        Some(12)
    } else {
        match find(rel, "/lib/modules/"@) {
            Some(i) => Some(i + 13),
            None => None,
        }
    }
}

pub fn modules_rest_exec(rel: &[char]) -> (r: Option<usize>)
    ensures
        r matches Some(k) ==> modules_rest(rel@) == Some(k as int) && k <= rel@.len(),
        r is None ==> modules_rest(rel@) is None,
{
    proof {
        reveal_strlit("lib/modules/");
        reveal_strlit("/lib/modules/");
        lemma_find(rel@, "/lib/modules/"@);
    }
    if starts_lit(rel, "lib/modules/") {
        return Some(12);
    }
    match find_lit(rel, "/lib/modules/") {
        Some(i) => {
            let n = rel.len();
            assert(i + 13 <= n);
            Some(i + 13)
        },
        None => None,
    }
}

/// `rel` is `root` or lies under it, matched on a segment boundary
/// (`usr/bin` matches `usr/bin/foo`, not `usr/binfoo`).
pub open spec fn under(rel: Seq<char>, root: Seq<char>) -> bool {
    starts_with(rel, root) && (rel.len() == root.len() || rel[root.len() as int] == '/')
}

/// `rel` is a direct child of `root`: a name right under it, with no
/// further `/`.
pub open spec fn child_of(rel: Seq<char>, root: Seq<char>) -> bool {
    &&& under(rel, root)
    &&& rel.len() > root.len() + 1
    &&& first_char(rel.skip(root.len() + 1int), '/') == rel.len() - root.len() - 1
}

/// `rel` is a direct child of one of `roots`.
pub open spec fn child_of_roots(rel: Seq<char>, roots: Seq<Seq<char>>) -> bool {
    exists|i: int| 0 <= i < roots.len() && child_of(rel, #[trigger] roots[i])
}

/// `rel` lies under one of `roots`.
pub open spec fn under_roots(rel: Seq<char>, roots: Seq<Seq<char>>) -> bool {
    exists|i: int| 0 <= i < roots.len() && under(rel, #[trigger] roots[i])
}

/// The built-in bin roots.
pub open spec fn under_builtin_bin(rel: Seq<char>) -> bool {
    ||| under(rel, "usr/bin"@)
    ||| under(rel, "usr/sbin"@)
    ||| under(rel, "usr/local/bin"@)
    ||| under(rel, "usr/local/sbin"@)
    ||| under(rel, "usr/games"@)
    ||| under(rel, "usr/libexec"@)
    ||| under(rel, "bin"@)
    ||| under(rel, "sbin"@)
    ||| under(rel, "opt/bin"@)
}

/// The built-in lib roots.
pub open spec fn under_builtin_lib(rel: Seq<char>) -> bool {
    ||| under(rel, "usr/lib"@)
    ||| under(rel, "lib"@)
    ||| under(rel, "usr/lib64"@)
    ||| under(rel, "lib64"@)
    ||| under(rel, "usr/local/lib"@)
}

/// Top-level kernel mount points, never walked.
pub open spec fn is_kernel_vfs(rel: Seq<char>) -> bool {
    rel == "proc"@ || rel == "sys"@ || rel == "dev"@ || rel == "run"@ || rel == "tmp"@
}

/// Package-manager data directories, counted separately and never walked.
pub open spec fn is_pm_data(rel: Seq<char>) -> bool {
    rel == "var/lib"@ || rel == "var/db"@ || starts_with(rel, "var/lib/"@) || starts_with(
        rel,
        "var/db/"@,
    )
}

/// Role of a file outside the standard hierarchy, from its parent directory.
#[derive(Clone, Copy, Debug, PartialEq, Eq, Structural)]
pub enum Role {
    Bin,
    Lib,
}

/// The segment before the last one, when there is one.
pub open spec fn parent_name(rel: Seq<char>) -> Option<Seq<char>> {
    match parent(rel) {
        Some(p) => Some(last_seg(p)),
        None => None,
    }
}

pub open spec fn non_fhs_role(rel: Seq<char>) -> Option<Role> {
    match parent_name(rel) {
        Some(p) => if p == "bin"@ || p == "sbin"@ {
            Some(Role::Bin)
        } else if p == "lib"@ || p == "lib64"@ {
            Some(Role::Lib)
        } else {
            None
        },
        None => None,
    }
}

/// A directory whose whole subtree is walked without probing.
pub open spec fn is_resource_dir(
    rel: Seq<char>,
    bin_roots: Seq<Seq<char>>,
    lib_roots: Seq<Seq<char>>,
) -> bool {
    let leaf = last_seg(rel);
    ||| leaf == "bin"@
    ||| leaf == "sbin"@
    ||| leaf == "libexec"@
    ||| leaf == "games"@
    ||| leaf == "lib"@
    ||| leaf == "lib64"@
    ||| leaf == "modules"@
    ||| leaf == "firmware"@
    ||| modules_rest(rel) is Some
    ||| contains(rel, "/share/"@)
    ||| starts_with(rel, "share/"@)
    ||| under_roots(rel, bin_roots)
    ||| under_roots(rel, lib_roots)
}

/// The first segment after `prefix`, when `rel` starts with it and that
/// segment is not empty.
pub open spec fn name_after_prefix(rel: Seq<char>, prefix: Seq<char>) -> Option<Seq<char>> {
    if starts_with(rel, prefix) && first_seg(rel.skip(prefix.len() as int)).len() > 0 {
        Some(first_seg(rel.skip(prefix.len() as int)))
    } else {
        None
    }
}

/// What follows the icons/ directory of a share tree.
pub open spec fn icons_rest(rel: Seq<char>) -> Option<Seq<char>> {
    if starts_with(rel, "usr/share/icons/"@) {
        Some(rel.skip(16))
    } else {
        match find(rel, "/share/icons/"@) {
            Some(i) => Some(rel.skip(i + 13)),
            None => None,
        }
    }
}

/// The theme of a `<theme>/cursors` directory under an icons/ tree.
pub open spec fn cursors_theme(rel: Seq<char>) -> Option<Seq<char>> {
    match icons_rest(rel) {
        Some(rest) => match parent(rest) {
            Some(p) => if last_seg(rest) == "cursors"@ && last_seg(p).len() > 0 {
                Some(last_seg(p))
            } else {
                None
            },
            None => None,
        },
        None => None,
    }
}

/// The route of a directory.
#[derive(Clone, Debug, PartialEq, Eq)]
pub enum DirRoute<S> {
    /// A theme directory, with the theme name.
    Theme(S),
    /// A locale directory, with the language.
    Locale(S),
    /// A cursor theme directory, with the theme name.
    Cursors(S),
    /// A resource directory: walked in full.
    Descend,
    /// Anything else: probed.
    Unknown,
}

pub open spec fn dir_route_view(d: DirRoute<String>) -> DirRoute<Seq<char>> {
    match d {
        DirRoute::Theme(s) => DirRoute::Theme(s@),
        DirRoute::Locale(s) => DirRoute::Locale(s@),
        DirRoute::Cursors(s) => DirRoute::Cursors(s@),
        DirRoute::Descend => DirRoute::Descend,
        DirRoute::Unknown => DirRoute::Unknown,
    }
}

/// Theme and locale directories of a share tree outside the standard
/// hierarchy.
pub open spec fn nonfhs_share_dir(rel: Seq<char>) -> Option<DirRoute<Seq<char>>> {
    match parent(rel) {
        Some(p) => if contains(rel, "/share/"@) && ends_with(p, "/share/themes"@) && last_seg(
            rel,
        ).len() > 0 {
            Some(DirRoute::Theme(last_seg(rel)))
        } else if contains(rel, "/share/"@) && ends_with(p, "/share/locale"@) && last_seg(
            rel,
        ).len() > 0 {
            Some(DirRoute::Locale(last_seg(rel)))
        } else {
            None
        },
        None => None,
    }
}

pub open spec fn dir_route(
    rel: Seq<char>,
    fhs: bool,
    bin_roots: Seq<Seq<char>>,
    lib_roots: Seq<Seq<char>>,
) -> DirRoute<Seq<char>> {
    if let Some(n) = name_after_prefix(rel, "usr/share/themes/"@) {
        DirRoute::Theme(n)
    } else if let Some(l) = name_after_prefix(rel, "usr/share/locale/"@) {
        DirRoute::Locale(l)
    } else if let Some(t) = cursors_theme(rel) {
        DirRoute::Cursors(t)
    } else if !fhs && nonfhs_share_dir(rel) is Some {
        nonfhs_share_dir(rel)->0
    } else if is_resource_dir(rel, bin_roots, lib_roots) {
        DirRoute::Descend
    } else {
        DirRoute::Unknown
    }
}

// ------------------------------------------------------------ files

pub open spec fn is_shared_library(rel: Seq<char>) -> bool {
    ends_with(last_seg(rel), ".so"@) || contains(last_seg(rel), ".so."@)
}

pub open spec fn is_desktop(rel: Seq<char>) -> bool {
    extension(rel) == Some("desktop"@)
}

pub open spec fn is_firmware(rel: Seq<char>) -> bool {
    contains(rel, "/firmware/"@) || starts_with(rel, "firmware/"@)
}

/// Kinds of files under a share tree.
#[derive(Clone, Copy, Debug, PartialEq, Eq, Structural)]
pub enum Share {
    App,
    X11Session,
    WaylandSession,
    Icon,
    Font,
    ManPage,
}

pub open spec fn fhs_share(rel: Seq<char>) -> Option<Share> {
    if starts_with(rel, "usr/share/applications/"@) {
        Some(Share::App)
    } else if starts_with(rel, "usr/share/xsessions/"@) {
        Some(Share::X11Session)
    } else if starts_with(rel, "usr/share/wayland-sessions/"@) {
        Some(Share::WaylandSession)
    } else if starts_with(rel, "usr/share/icons/"@) {
        Some(Share::Icon)
    } else if under(rel, "usr/share/fonts"@) || under(rel, "usr/local/share/fonts"@) {
        Some(Share::Font)
    } else if under(rel, "usr/share/man"@) {
        Some(Share::ManPage)
    } else {
        None
    }
}

pub open spec fn nonfhs_share(rel: Seq<char>) -> Option<Share> {
    if !contains(rel, "/share/"@) {
        None
    } else if contains(rel, "/xsessions/"@) {
        Some(Share::X11Session)
    } else if contains(rel, "/wayland-sessions/"@) {
        Some(Share::WaylandSession)
    } else if ends_with(rel, ".desktop"@) {
        Some(Share::App)
    } else if contains(rel, "/icons/"@) {
        Some(Share::Icon)
    } else if contains(rel, "/fonts/"@) {
        Some(Share::Font)
    } else if contains(rel, "/man/"@) {
        Some(Share::ManPage)
    } else {
        None
    }
}

/// Configuration files of the device manager and of the authorization
/// framework, recognised by their directory and extension.
#[derive(Clone, Copy, Debug, PartialEq, Eq, Structural)]
pub enum SysConf {
    UdevRule,
    UdevHwdb,
    PolkitRule,
    PolkitAction,
}

pub open spec fn in_dir(rel: Seq<char>, dir: Seq<char>) -> bool {
    parent(rel) == Some(dir)
}

pub open spec fn sys_conf(rel: Seq<char>) -> Option<SysConf> {
    if (in_dir(rel, "etc/udev/rules.d"@) || in_dir(rel, "usr/lib/udev/rules.d"@) || in_dir(
        rel,
        "lib/udev/rules.d"@,
    )) && extension(rel) == Some("rules"@) {
        Some(SysConf::UdevRule)
    } else if (in_dir(rel, "etc/udev/hwdb.d"@) || in_dir(rel, "usr/lib/udev/hwdb.d"@) || in_dir(
        rel,
        "lib/udev/hwdb.d"@,
    )) && extension(rel) == Some("hwdb"@) {
        Some(SysConf::UdevHwdb)
    } else if (in_dir(rel, "etc/polkit-1/rules.d"@) || in_dir(rel, "usr/share/polkit-1/rules.d"@))
        && extension(rel) == Some("rules"@) {
        Some(SysConf::PolkitRule)
    } else if in_dir(rel, "usr/share/polkit-1/actions"@) && extension(rel) == Some("policy"@) {
        Some(SysConf::PolkitAction)
    } else {
        None
    }
}

// ------------------------------------------------------------ exec

/// Whether `rel` lies under `root` on a segment boundary.
pub fn under_exec(rel: &[char], root: &[char]) -> (b: bool)
    ensures
        b == under(rel@, root@),
{
    if !starts_with_exec(rel, root) {
        return false;
    }
    rel.len() == root.len() || rel[root.len()] == '/'
}

pub fn child_of_exec(rel: &[char], root: &[char]) -> (b: bool)
    ensures
        b == child_of(rel@, root@),
{
    if !under_exec(rel, root) {
        return false;
    }
    if rel.len() - root.len() <= 1 {
        return false;
    }
    let rest = slice_chars(rel, root.len() + 1, rel.len());
    assert(rest@ == rel@.skip(root@.len() + 1int));
    first_char_exec(rest.as_slice(), '/') == rest.len()
}

/// Whether `rel` is a direct child of one of the configured `roots`.
pub fn child_of_custom(rel: &[char], roots: &Vec<String>) -> (b: bool)
    ensures
        b == child_of_roots(rel@, crate::profile::strs_view(roots@)),
{
    let ghost rv = crate::profile::strs_view(roots@);
    let mut i: usize = 0;
    while i < roots.len()
        invariant
            i <= roots@.len(),
            rv == crate::profile::strs_view(roots@),
            forall|j: int| 0 <= j < i ==> !child_of(rel@, #[trigger] rv[j]),
        decreases roots@.len() - i,
    {
        let r = chars_of(roots[i].as_str());
        if child_of_exec(rel, r.as_slice()) {
            assert(rv[i as int] == roots@[i as int]@);
            return true;
        }
        assert(rv[i as int] == roots@[i as int]@);
        i += 1;
    }
    false
}

/// Whether `rel` lies under the literal root `root`.
pub fn under_lit(rel: &[char], root: &str) -> (b: bool)
    ensures
        b == under(rel@, root@),
{
    let r = chars_of(root);
    under_exec(rel, r.as_slice())
}

/// Whether `rel` lies under one of `roots`.
pub fn under_custom(rel: &[char], roots: &Vec<String>) -> (b: bool)
    ensures
        b == under_roots(rel@, crate::profile::strs_view(roots@)),
{
    let ghost rv = crate::profile::strs_view(roots@);
    let mut i: usize = 0;
    while i < roots.len()
        invariant
            i <= roots@.len(),
            rv == crate::profile::strs_view(roots@),
            forall|j: int| 0 <= j < i ==> !under(rel@, #[trigger] rv[j]),
        decreases roots@.len() - i,
    {
        let r = chars_of(roots[i].as_str());
        if under_exec(rel, r.as_slice()) {
            assert(rv[i as int] == roots@[i as int]@);
            return true;
        }
        assert(rv[i as int] == roots@[i as int]@);
        i += 1;
    }
    false
}

pub fn under_builtin_bin_exec(rel: &[char]) -> (b: bool)
    ensures
        b == under_builtin_bin(rel@),
{
    under_lit(rel, "usr/bin") || under_lit(rel, "usr/sbin") || under_lit(rel, "usr/local/bin")
        || under_lit(rel, "usr/local/sbin") || under_lit(rel, "usr/games") || under_lit(
        rel,
        "usr/libexec",
    ) || under_lit(rel, "bin") || under_lit(rel, "sbin") || under_lit(rel, "opt/bin")
}

pub fn under_builtin_lib_exec(rel: &[char]) -> (b: bool)
    ensures
        b == under_builtin_lib(rel@),
{
    under_lit(rel, "usr/lib") || under_lit(rel, "lib") || under_lit(rel, "usr/lib64")
        || under_lit(rel, "lib64") || under_lit(rel, "usr/local/lib")
}

/// Whether a top-level name is a kernel mount point.
pub fn is_kernel_vfs_exec(rel: &[char]) -> (b: bool)
    ensures
        b == is_kernel_vfs(rel@),
{
    eq_lit(rel, "proc") || eq_lit(rel, "sys") || eq_lit(rel, "dev") || eq_lit(rel, "run")
        || eq_lit(rel, "tmp")
}

pub fn is_pm_data_exec(rel: &[char]) -> (b: bool)
    ensures
        b == is_pm_data(rel@),
{
    eq_lit(rel, "var/lib") || eq_lit(rel, "var/db") || starts_lit(rel, "var/lib/") || starts_lit(
        rel,
        "var/db/",
    )
}

/// Everything before the last `/`, when there is one.
pub fn parent_exec(s: &[char]) -> (r: Option<Vec<char>>)
    ensures
        r matches Some(v) ==> parent(s@) == Some(v@),
        r is None ==> parent(s@) is None,
{
    match rfind_char_exec(s, '/') {
        Some(k) => Some(slice_chars(s, 0, k)),
        None => None,
    }
}

pub fn non_fhs_role_exec(rel: &[char]) -> (r: Option<Role>)
    ensures
        r == non_fhs_role(rel@),
{
    match parent_exec(rel) {
        Some(p) => {
            let name = last_seg_exec(p.as_slice());
            let n = name.as_slice();
            if eq_lit(n, "bin") || eq_lit(n, "sbin") {
                Some(Role::Bin)
            } else if eq_lit(n, "lib") || eq_lit(n, "lib64") {
                Some(Role::Lib)
            } else {
                None
            }
        },
        None => None,
    }
}

pub fn is_resource_dir_exec(rel: &[char], bin_roots: &Vec<String>, lib_roots: &Vec<String>) -> (b:
    bool)
    ensures
        b == is_resource_dir(
            rel@,
            crate::profile::strs_view(bin_roots@),
            crate::profile::strs_view(lib_roots@),
        ),
{
    let leaf = last_seg_exec(rel);
    let l = leaf.as_slice();
    eq_lit(l, "bin") || eq_lit(l, "sbin") || eq_lit(l, "libexec") || eq_lit(l, "games") || eq_lit(
        l,
        "lib",
    ) || eq_lit(l, "lib64") || eq_lit(l, "modules") || eq_lit(l, "firmware")
        || modules_rest_exec(rel).is_some() || contains_lit(rel, "/share/") || starts_lit(rel, "share/") || under_custom(rel, bin_roots)
        || under_custom(rel, lib_roots)
}

pub fn name_after_prefix_exec(rel: &[char], prefix: &str) -> (r: Option<Vec<char>>)
    ensures
        r matches Some(v) ==> name_after_prefix(rel@, prefix@) == Some(v@),
        r is None ==> name_after_prefix(rel@, prefix@) is None,
{
    let p = chars_of(prefix);
    if !starts_with_exec(rel, p.as_slice()) {
        return None;
    }
    let rest = slice_chars(rel, p.len(), rel.len());
    assert(rest@ == rel@.skip(prefix@.len() as int));
    let name = first_seg_exec(rest.as_slice());
    if name.len() == 0 {
        None
    } else {
        Some(name)
    }
}

pub fn icons_rest_exec(rel: &[char]) -> (r: Option<Vec<char>>)
    ensures
        r matches Some(v) ==> icons_rest(rel@) == Some(v@),
        r is None ==> icons_rest(rel@) is None,
{
    proof {
        reveal_strlit("usr/share/icons/");
        reveal_strlit("/share/icons/");
    }
    if starts_lit(rel, "usr/share/icons/") {
        let r = slice_chars(rel, 16, rel.len());
        return Some(r);
    }
    let n = rel.len();
    match find_lit(rel, "/share/icons/") {
        Some(i) => {
            proof {
                lemma_find(rel@, "/share/icons/"@);
            }
            assert(i + 13 <= n);
            Some(slice_chars(rel, i + 13, n))
        },
        None => None,
    }
}

pub fn cursors_theme_exec(rel: &[char]) -> (r: Option<Vec<char>>)
    ensures
        r matches Some(v) ==> cursors_theme(rel@) == Some(v@),
        r is None ==> cursors_theme(rel@) is None,
{
    let rest = match icons_rest_exec(rel) {
        Some(r) => r,
        None => return None,
    };
    let p = match parent_exec(rest.as_slice()) {
        Some(p) => p,
        None => return None,
    };
    let leaf = last_seg_exec(rest.as_slice());
    if !eq_lit(leaf.as_slice(), "cursors") {
        return None;
    }
    let theme = last_seg_exec(p.as_slice());
    if theme.len() == 0 {
        None
    } else {
        Some(theme)
    }
}

pub fn nonfhs_share_dir_exec(rel: &[char]) -> (r: Option<DirRoute<String>>)
    ensures
        r matches Some(d) ==> nonfhs_share_dir(rel@) == Some(dir_route_view(d)),
        r is None ==> nonfhs_share_dir(rel@) is None,
{
    let p = match parent_exec(rel) {
        Some(p) => p,
        None => return None,
    };
    if !contains_lit(rel, "/share/") {
        return None;
    }
    let last = last_seg_exec(rel);
    if last.len() == 0 {
        return None;
    }
    if ends_lit(p.as_slice(), "/share/themes") {
        Some(DirRoute::Theme(string_of(last.as_slice())))
    } else if ends_lit(p.as_slice(), "/share/locale") {
        Some(DirRoute::Locale(string_of(last.as_slice())))
    } else {
        None
    }
}

/// The route of a directory.
pub fn dir_route_exec(rel: &[char], fhs: bool, bin_roots: &Vec<String>, lib_roots: &Vec<String>) -> (r:
    DirRoute<String>)
    ensures
        dir_route_view(r) == dir_route(
            rel@,
            fhs,
            crate::profile::strs_view(bin_roots@),
            crate::profile::strs_view(lib_roots@),
        ),
{
    if let Some(n) = name_after_prefix_exec(rel, "usr/share/themes/") {
        return DirRoute::Theme(string_of(n.as_slice()));
    }
    if let Some(l) = name_after_prefix_exec(rel, "usr/share/locale/") {
        return DirRoute::Locale(string_of(l.as_slice()));
    }
    if let Some(t) = cursors_theme_exec(rel) {
        return DirRoute::Cursors(string_of(t.as_slice()));
    }
    if !fhs {
        if let Some(d) = nonfhs_share_dir_exec(rel) {
            return d;
        }
    }
    if is_resource_dir_exec(rel, bin_roots, lib_roots) {
        DirRoute::Descend
    } else {
        DirRoute::Unknown
    }
}

pub fn is_shared_library_exec(rel: &[char]) -> (b: bool)
    ensures
        b == is_shared_library(rel@),
{
    let name = last_seg_exec(rel);
    ends_lit(name.as_slice(), ".so") || contains_lit(name.as_slice(), ".so.")
}

pub fn is_desktop_exec(rel: &[char]) -> (b: bool)
    ensures
        b == is_desktop(rel@),
{
    ext_is(rel, "desktop")
}

pub fn is_firmware_exec(rel: &[char]) -> (b: bool)
    ensures
        b == is_firmware(rel@),
{
    contains_lit(rel, "/firmware/") || starts_lit(rel, "firmware/")
}

pub fn fhs_share_exec(rel: &[char]) -> (r: Option<Share>)
    ensures
        r == fhs_share(rel@),
{
    if starts_lit(rel, "usr/share/applications/") {
        Some(Share::App)
    } else if starts_lit(rel, "usr/share/xsessions/") {
        Some(Share::X11Session)
    } else if starts_lit(rel, "usr/share/wayland-sessions/") {
        Some(Share::WaylandSession)
    } else if starts_lit(rel, "usr/share/icons/") {
        Some(Share::Icon)
    } else if under_lit(rel, "usr/share/fonts") || under_lit(rel, "usr/local/share/fonts") {
        Some(Share::Font)
    } else if under_lit(rel, "usr/share/man") {
        Some(Share::ManPage)
    } else {
        None
    }
}

pub fn nonfhs_share_exec(rel: &[char]) -> (r: Option<Share>)
    ensures
        r == nonfhs_share(rel@),
{
    if !contains_lit(rel, "/share/") {
        None
    } else if contains_lit(rel, "/xsessions/") {
        Some(Share::X11Session)
    } else if contains_lit(rel, "/wayland-sessions/") {
        Some(Share::WaylandSession)
    } else if ends_lit(rel, ".desktop") {
        Some(Share::App)
    } else if contains_lit(rel, "/icons/") {
        Some(Share::Icon)
    } else if contains_lit(rel, "/fonts/") {
        Some(Share::Font)
    } else if contains_lit(rel, "/man/") {
        Some(Share::ManPage)
    } else {
        None
    }
}

pub fn in_dir_exec(rel: &[char], dir: &str) -> (b: bool)
    ensures
        b == in_dir(rel@, dir@),
{
    match parent_exec(rel) {
        Some(p) => eq_lit(p.as_slice(), dir),
        None => false,
    }
}

pub fn sys_conf_exec(rel: &[char]) -> (r: Option<SysConf>)
    ensures
        r == sys_conf(rel@),
{
    if (in_dir_exec(rel, "etc/udev/rules.d") || in_dir_exec(rel, "usr/lib/udev/rules.d")
        || in_dir_exec(rel, "lib/udev/rules.d")) && ext_is(rel, "rules") {
        Some(SysConf::UdevRule)
    } else if (in_dir_exec(rel, "etc/udev/hwdb.d") || in_dir_exec(rel, "usr/lib/udev/hwdb.d")
        || in_dir_exec(rel, "lib/udev/hwdb.d")) && ext_is(rel, "hwdb") {
        Some(SysConf::UdevHwdb)
    } else if (in_dir_exec(rel, "etc/polkit-1/rules.d") || in_dir_exec(
        rel,
        "usr/share/polkit-1/rules.d",
    )) && ext_is(rel, "rules") {
        Some(SysConf::PolkitRule)
    } else if in_dir_exec(rel, "usr/share/polkit-1/actions") && ext_is(rel, "policy") {
        Some(SysConf::PolkitAction)
    } else {
        None
    }
}

// ------------------------------------------------------------ file routes

/// What a file's path makes of it.
#[derive(Clone, Copy, Debug, PartialEq, Eq, Structural)]
pub enum FileAct {
    /// In a kernel-module tree (`lib/modules/` at the start of the path or
    /// after a slash): a kernel module, when it is one.
    Module,
    /// A device-manager or authorization configuration file.
    Sys(SysConf),
    /// A binary, read at the end of the walk.
    Bin,
    /// Under a lib root: a shared library is read; toolchain artifacts and
    /// firmware are recorded.
    LibRoot,
    /// In a lib directory outside the standard hierarchy: a shared library
    /// is read, anything else may be a toolchain artifact or firmware.
    NonFhsLib,
    /// A file of a share tree.
    Share(Share),
    /// A mime-type definition.
    Mime,
    /// Nothing the scanner records.
    Nothing,
}

/// The route of a file, the first rule that applies:
/// 1. a kernel-module tree: a kernel module;
/// 2. a device-manager or authorization configuration file (udev rules and
///    hwdb, polkit rules and actions): recorded as such, ahead of every bin
///    and lib root, the built-in ones and those of the configuration alike,
///    since `usr/lib/udev/...` and `usr/share/polkit-1/...` lie under them
///    and are configuration, not libraries;
/// 3. a bin root, built-in or configured: a binary;
/// 4. a lib root, built-in or configured: a library, toolchain artifact or
///    firmware;
/// 5. a share tree of the hierarchy;
/// 6. a mime-type definition under `usr/share/mime/`;
/// 7. in a layer that does not follow the hierarchy: the binary, lib and
///    share directories it keeps elsewhere.
pub open spec fn file_act(
    rel: Seq<char>,
    fhs: bool,
    bin_roots: Seq<Seq<char>>,
    lib_roots: Seq<Seq<char>>,
) -> FileAct {
    if modules_rest(rel) is Some {
        FileAct::Module
    } else if sys_conf(rel) is Some {
        FileAct::Sys(sys_conf(rel)->0)
    } else if under_builtin_bin(rel) || child_of_roots(rel, bin_roots) {
        FileAct::Bin
    } else if under_builtin_lib(rel) || child_of_roots(rel, lib_roots) {
        FileAct::LibRoot
    } else if fhs_share(rel) is Some {
        FileAct::Share(fhs_share(rel)->0)
    } else if starts_with(rel, "usr/share/mime/"@) && extension(rel) == Some("xml"@) {
        FileAct::Mime
    } else if !fhs {
        match non_fhs_role(rel) {
            Some(Role::Bin) => FileAct::Bin,
            Some(Role::Lib) => FileAct::NonFhsLib,
            None => match nonfhs_share(rel) {
                Some(k) => FileAct::Share(k),
                None => FileAct::Nothing,
            },
        }
    } else {
        FileAct::Nothing
    }
}

pub fn file_act_exec(rel: &[char], fhs: bool, config: &ScanConfig) -> (a: FileAct)
    ensures
        a == file_act(
            rel@,
            fhs,
            config.bin_roots_view(),
            config.lib_roots_view(),
        ),
{
    if modules_rest_exec(rel).is_some() {
        return FileAct::Module;
    }
    if let Some(k) = sys_conf_exec(rel) {
        return FileAct::Sys(k);
    }
    if under_builtin_bin_exec(rel) || child_of_custom(rel, &config.bin_roots) {
        return FileAct::Bin;
    }
    if under_builtin_lib_exec(rel) || child_of_custom(rel, &config.lib_roots) {
        return FileAct::LibRoot;
    }
    if let Some(k) = fhs_share_exec(rel) {
        return FileAct::Share(k);
    }
    if starts_lit(rel, "usr/share/mime/") && ext_is(rel, "xml") {
        return FileAct::Mime;
    }
    if !fhs {
        match non_fhs_role_exec(rel) {
            Some(Role::Bin) => FileAct::Bin,
            Some(Role::Lib) => FileAct::NonFhsLib,
            None => match nonfhs_share_exec(rel) {
                Some(k) => FileAct::Share(k),
                None => FileAct::Nothing,
            },
        }
    } else {
        FileAct::Nothing
    }
}

} // verus!
