//! What holds of every record a scan makes: its fields are what its path
//! says, and a scan only ever adds records.

use crate::fsio::Entry;
use crate::parse::fonts::font_of;
use crate::parse::icons::icon_of;
use crate::parse::man::man_of;
use crate::parse::modules::module_of;
use crate::parse::services::{kind_or, service_name};
use crate::profile::{
    Bin, Cursor, Desktop, Font, Icon, LayerProfile, Lib, Locale, ManPage, Module, Service, Session,
    Theme, Toolchain, opt_view,
};
use crate::route::{
    DirRoute, FileAct, Share, SysConf, dir_route, file_act, is_desktop, is_firmware,
    is_shared_library, sys_conf,
};
use crate::text::{extension, starts_with};
use crate::toolchains::toolchain_of;
use vstd::prelude::*;

verus! {

/// `b` begins with `a`.
pub open spec fn extends<T>(a: Seq<T>, b: Seq<T>) -> bool {
    &&& a.len() <= b.len()
    &&& forall|i: int| 0 <= i < a.len() ==> #[trigger] b[i] == a[i]
}

/// `b` holds every record `a` held, in the same places, and maybe more
/// after them; the layer facts are unchanged.
pub open spec fn grows(a: LayerProfile, b: LayerProfile) -> bool {
    &&& extends(a.bin@, b.bin@)
    &&& extends(a.lib@, b.lib@)
    &&& extends(a.apps@, b.apps@)
    &&& extends(a.sessions@, b.sessions@)
    &&& extends(a.icons@, b.icons@)
    &&& extends(a.cursors@, b.cursors@)
    &&& extends(a.themes@, b.themes@)
    &&& extends(a.fonts@, b.fonts@)
    &&& extends(a.services@, b.services@)
    &&& extends(a.locale@, b.locale@)
    &&& extends(a.modules@, b.modules@)
    &&& extends(a.toolchains@, b.toolchains@)
    &&& extends(a.man@, b.man@)
    &&& extends(a.mime_paths@, b.mime_paths@)
    &&& extends(a.firmware_paths@, b.firmware_paths@)
    &&& extends(a.udev_rules@, b.udev_rules@)
    &&& extends(a.udev_hwdb@, b.udev_hwdb@)
    &&& extends(a.polkit_rules@, b.polkit_rules@)
    &&& extends(a.polkit_actions@, b.polkit_actions@)
    &&& a.fhs == b.fhs
    &&& a.libc == b.libc
    &&& a.all_libcs == b.all_libcs
    &&& a.pm_dirs == b.pm_dirs
}

pub open spec fn under_lib(a: FileAct) -> bool {
    a == FileAct::LibRoot || a == FileAct::NonFhsLib
}

pub open spec fn module_ok(m: Module, fhs: bool, bins: Seq<Seq<char>>, libs: Seq<Seq<char>>) -> bool {
    &&& file_act(m.path@, fhs, bins, libs) == FileAct::Module
    &&& module_of(m.path@) == Some((m.name@, m.kernel@))
}

pub open spec fn icon_ok(i: Icon, fhs: bool, bins: Seq<Seq<char>>, libs: Seq<Seq<char>>) -> bool {
    &&& file_act(i.path@, fhs, bins, libs) == FileAct::Share(Share::Icon)
    &&& icon_of(i.path@) == Some((i.theme@, i.size@, i.name@))
}

pub open spec fn font_ok(f: Font, fhs: bool, bins: Seq<Seq<char>>, libs: Seq<Seq<char>>) -> bool {
    &&& file_act(f.path@, fhs, bins, libs) == FileAct::Share(Share::Font)
    &&& font_of(f.path@) == Some((f.name@, f.format@, opt_view(f.weight)))
}

pub open spec fn man_ok(m: ManPage, fhs: bool, bins: Seq<Seq<char>>, libs: Seq<Seq<char>>) -> bool {
    &&& file_act(m.path@, fhs, bins, libs) == FileAct::Share(Share::ManPage)
    &&& man_of(m.path@) == Some((m.name@, m.section@, opt_view(m.lang)))
}

pub open spec fn toolchain_ok(
    t: Toolchain,
    fhs: bool,
    bins: Seq<Seq<char>>,
    libs: Seq<Seq<char>>,
) -> bool {
    &&& under_lib(file_act(t.path@, fhs, bins, libs))
    &&& toolchain_of(t.path@) == Some((t.name@, t.version@))
}

pub open spec fn lib_ok(l: Lib, fhs: bool, bins: Seq<Seq<char>>, libs: Seq<Seq<char>>) -> bool {
    &&& under_lib(file_act(l.path@, fhs, bins, libs))
    &&& is_shared_library(l.path@)
}

pub open spec fn app_ok(d: Desktop, fhs: bool, bins: Seq<Seq<char>>, libs: Seq<Seq<char>>) -> bool {
    &&& file_act(d.path@, fhs, bins, libs) == FileAct::Share(Share::App)
    &&& is_desktop(d.path@)
}

pub open spec fn session_ok(s: Session, fhs: bool, bins: Seq<Seq<char>>, libs: Seq<Seq<char>>) -> bool {
    &&& is_desktop(s.path@)
    &&& {
        ||| file_act(s.path@, fhs, bins, libs) == FileAct::Share(Share::X11Session) && s.kind@
            == "x11"@
        ||| file_act(s.path@, fhs, bins, libs) == FileAct::Share(Share::WaylandSession) && s.kind@
            == "wayland"@
    }
}

/// A supervised service is named after its directory; a script or a unit
/// after its file stem, with its extension (or the default) as its kind.
pub open spec fn service_ok(s: Service) -> bool {
    ||| s.kind@ == "supervised"@ && s.name@ == service_name(s.path@, true)
    ||| s.kind@ == kind_or(s.path@, "initscript"@) && s.name@ == service_name(s.path@, false)
    ||| s.kind@ == kind_or(s.path@, "unit"@) && s.name@ == service_name(s.path@, false)
}

pub open spec fn mime_ok(p: String, fhs: bool, bins: Seq<Seq<char>>, libs: Seq<Seq<char>>) -> bool {
    &&& file_act(p@, fhs, bins, libs) == FileAct::Mime
    &&& starts_with(p@, "usr/share/mime/"@)
    &&& extension(p@) == Some("xml"@)
}

pub open spec fn firmware_ok(p: String, fhs: bool, bins: Seq<Seq<char>>, libs: Seq<Seq<char>>) -> bool {
    &&& under_lib(file_act(p@, fhs, bins, libs))
    &&& is_firmware(p@)
}

pub open spec fn conf_ok(
    p: String,
    k: SysConf,
    fhs: bool,
    bins: Seq<Seq<char>>,
    libs: Seq<Seq<char>>,
) -> bool {
    &&& file_act(p@, fhs, bins, libs) == FileAct::Sys(k)
    &&& sys_conf(p@) == Some(k)
}

pub open spec fn locale_ok(l: Locale, fhs: bool, bins: Seq<Seq<char>>, libs: Seq<Seq<char>>) -> bool {
    dir_route(l.path@, fhs, bins, libs) == DirRoute::Locale(l.lang@)
}

pub open spec fn theme_ok(t: Theme, fhs: bool, bins: Seq<Seq<char>>, libs: Seq<Seq<char>>) -> bool {
    dir_route(t.path@, fhs, bins, libs) == DirRoute::Theme(t.name@)
}

pub open spec fn cursor_ok(c: Cursor, fhs: bool, bins: Seq<Seq<char>>, libs: Seq<Seq<char>>) -> bool {
    &&& dir_route(c.path@, fhs, bins, libs) == DirRoute::Cursors(c.name@)
    &&& c.count > 0
}

/// Every record of the profile is what the routing makes of its path, and
/// its fields are what the path says.
pub open spec fn records_ok(p: LayerProfile, fhs: bool, bins: Seq<Seq<char>>, libs: Seq<Seq<char>>) -> bool {
    &&& forall|i: int| 0 <= i < p.modules@.len() ==> module_ok(#[trigger] p.modules@[i], fhs, bins, libs)
    &&& forall|i: int| 0 <= i < p.icons@.len() ==> icon_ok(#[trigger] p.icons@[i], fhs, bins, libs)
    &&& forall|i: int| 0 <= i < p.fonts@.len() ==> font_ok(#[trigger] p.fonts@[i], fhs, bins, libs)
    &&& forall|i: int| 0 <= i < p.man@.len() ==> man_ok(#[trigger] p.man@[i], fhs, bins, libs)
    &&& forall|i: int|
        0 <= i < p.toolchains@.len() ==> toolchain_ok(#[trigger] p.toolchains@[i], fhs, bins, libs)
    &&& forall|i: int| 0 <= i < p.lib@.len() ==> lib_ok(#[trigger] p.lib@[i], fhs, bins, libs)
    &&& forall|i: int| 0 <= i < p.apps@.len() ==> app_ok(#[trigger] p.apps@[i], fhs, bins, libs)
    &&& forall|i: int|
        0 <= i < p.sessions@.len() ==> session_ok(#[trigger] p.sessions@[i], fhs, bins, libs)
    &&& forall|i: int| 0 <= i < p.services@.len() ==> service_ok(#[trigger] p.services@[i])
    &&& forall|i: int|
        0 <= i < p.mime_paths@.len() ==> mime_ok(#[trigger] p.mime_paths@[i], fhs, bins, libs)
    &&& forall|i: int|
        0 <= i < p.firmware_paths@.len() ==> firmware_ok(
            #[trigger] p.firmware_paths@[i],
            fhs,
            bins,
            libs,
        )
    &&& forall|i: int|
        0 <= i < p.udev_rules@.len() ==> conf_ok(
            #[trigger] p.udev_rules@[i],
            SysConf::UdevRule,
            fhs,
            bins,
            libs,
        )
    &&& forall|i: int|
        0 <= i < p.udev_hwdb@.len() ==> conf_ok(
            #[trigger] p.udev_hwdb@[i],
            SysConf::UdevHwdb,
            fhs,
            bins,
            libs,
        )
    &&& forall|i: int|
        0 <= i < p.polkit_rules@.len() ==> conf_ok(
            #[trigger] p.polkit_rules@[i],
            SysConf::PolkitRule,
            fhs,
            bins,
            libs,
        )
    &&& forall|i: int|
        0 <= i < p.polkit_actions@.len() ==> conf_ok(
            #[trigger] p.polkit_actions@[i],
            SysConf::PolkitAction,
            fhs,
            bins,
            libs,
        )
    &&& forall|i: int| 0 <= i < p.locale@.len() ==> locale_ok(#[trigger] p.locale@[i], fhs, bins, libs)
    &&& forall|i: int| 0 <= i < p.themes@.len() ==> theme_ok(#[trigger] p.themes@[i], fhs, bins, libs)
    &&& forall|i: int| 0 <= i < p.cursors@.len() ==> cursor_ok(#[trigger] p.cursors@[i], fhs, bins, libs)
}

/// Every entry is routed as a binary.
pub open spec fn bins_routed(s: Seq<Entry>, fhs: bool, bins: Seq<Seq<char>>, libs: Seq<Seq<char>>) -> bool {
    forall|i: int| 0 <= i < s.len() ==> file_act((#[trigger] s[i]).path@, fhs, bins, libs) == FileAct::Bin
}

/// The kinds of records of a profile.
pub enum RecordKind {
    Bin,
    Lib,
    App,
    Session,
    Icon,
    Cursor,
    Theme,
    Font,
    Service,
    Locale,
    Module,
    Toolchain,
    Man,
    Mime,
    Firmware,
    UdevRule,
    UdevHwdb,
    PolkitRule,
    PolkitAction,
}

/// How many records of a kind a profile holds.
pub open spec fn count(p: LayerProfile, k: RecordKind) -> nat {
    match k {
        RecordKind::Bin => p.bin@.len(),
        RecordKind::Lib => p.lib@.len(),
        RecordKind::App => p.apps@.len(),
        RecordKind::Session => p.sessions@.len(),
        RecordKind::Icon => p.icons@.len(),
        RecordKind::Cursor => p.cursors@.len(),
        RecordKind::Theme => p.themes@.len(),
        RecordKind::Font => p.fonts@.len(),
        RecordKind::Service => p.services@.len(),
        RecordKind::Locale => p.locale@.len(),
        RecordKind::Module => p.modules@.len(),
        RecordKind::Toolchain => p.toolchains@.len(),
        RecordKind::Man => p.man@.len(),
        RecordKind::Mime => p.mime_paths@.len(),
        RecordKind::Firmware => p.firmware_paths@.len(),
        RecordKind::UdevRule => p.udev_rules@.len(),
        RecordKind::UdevHwdb => p.udev_hwdb@.len(),
        RecordKind::PolkitRule => p.polkit_rules@.len(),
        RecordKind::PolkitAction => p.polkit_actions@.len(),
    }
}

/// The path of record `i` of a kind.
pub open spec fn path_at(p: LayerProfile, k: RecordKind, i: int) -> Seq<char> {
    match k {
        RecordKind::Bin => p.bin@[i].path@,
        RecordKind::Lib => p.lib@[i].path@,
        RecordKind::App => p.apps@[i].path@,
        RecordKind::Session => p.sessions@[i].path@,
        RecordKind::Icon => p.icons@[i].path@,
        RecordKind::Cursor => p.cursors@[i].path@,
        RecordKind::Theme => p.themes@[i].path@,
        RecordKind::Font => p.fonts@[i].path@,
        RecordKind::Service => p.services@[i].path@,
        RecordKind::Locale => p.locale@[i].path@,
        RecordKind::Module => p.modules@[i].path@,
        RecordKind::Toolchain => p.toolchains@[i].path@,
        RecordKind::Man => p.man@[i].path@,
        RecordKind::Mime => p.mime_paths@[i]@,
        RecordKind::Firmware => p.firmware_paths@[i]@,
        RecordKind::UdevRule => p.udev_rules@[i]@,
        RecordKind::UdevHwdb => p.udev_hwdb@[i]@,
        RecordKind::PolkitRule => p.polkit_rules@[i]@,
        RecordKind::PolkitAction => p.polkit_actions@[i]@,
    }
}

/// `b` is `a` with one record of each kind in `ks` added at the end of
/// its list, each made of the path `rel`; nothing else changed.
pub open spec fn added(a: LayerProfile, b: LayerProfile, ks: Set<RecordKind>, rel: Seq<char>) -> bool {
    &&& grows(a, b)
    &&& forall|k: RecordKind| #[trigger]
        count(b, k) == count(a, k) + if ks.contains(k) {
            1nat
        } else {
            0nat
        }
    &&& forall|k: RecordKind| ks.contains(k) ==> #[trigger] path_at(b, k, count(a, k) as int) == rel
}

/// The record kind of a configuration file.
pub open spec fn conf_kind(k: SysConf) -> RecordKind {
    match k {
        SysConf::UdevRule => RecordKind::UdevRule,
        SysConf::UdevHwdb => RecordKind::UdevHwdb,
        SysConf::PolkitRule => RecordKind::PolkitRule,
        SysConf::PolkitAction => RecordKind::PolkitAction,
    }
}

} // verus!
