// the record parsers and routers on concrete paths, listings and contents

use scanner::fsio::{Entry, Meta, Reply};
use scanner::parse::elf::{self, ElfMode, ElfReader, Stage};
use scanner::parse::services::{self, KindOutcome, KindStep, SvcKind};
use scanner::parse::{bin, cursors, desktop, fonts, icons, libc, libs, man, modules, themes};
use scanner::route::{self, DirRoute, FileAct, Role, Share, SysConf};
use scanner::text::{chars_of, string_of};
use scanner::{Bin, ScanConfig, ScanError};

fn c(s: &str) -> Vec<char> {
    s.chars().collect()
}

fn entry(path: &str, is_dir: bool) -> Entry {
    Entry { path: path.to_string(), raw: path.as_bytes().to_vec(), is_dir, utf8: true }
}

fn bin_with(path: &str, interp: Option<&str>) -> Bin {
    Bin {
        path: path.to_string(),
        interp: interp.map(|s| s.to_string()),
        dynamic: interp.is_some(),
        script: None,
        needed: Vec::new(),
    }
}

#[test]
fn module_paths() {
    let m = modules::parse("usr/lib/modules/6.1.0/kernel/drivers/foo.ko.zst").unwrap();
    assert_eq!((m.name.as_str(), m.kernel.as_str()), ("foo", "6.1.0"));
    assert_eq!(m.path, "usr/lib/modules/6.1.0/kernel/drivers/foo.ko.zst");
    assert!(modules::parse("usr/lib/modules/6.1.0/modules.dep").is_none());
    assert!(modules::parse("usr/lib/modules/foo.ko").is_none());
}

#[test]
fn module_paths_at_root() {
    let m = modules::parse("lib/modules/6.1.0/kernel/drivers/foo.ko").unwrap();
    assert_eq!((m.name.as_str(), m.kernel.as_str()), ("foo", "6.1.0"));
    assert_eq!(m.path, "lib/modules/6.1.0/kernel/drivers/foo.ko");
    assert!(modules::parse("lib/modules/foo.ko").is_none());
    assert!(modules::parse("xlib/modules/6.1.0/foo.ko").is_none());
}

#[test]
fn icon_paths() {
    let i = icons::parse("usr/share/icons/Hicolor/48x48/apps/firefox.png").unwrap();
    assert_eq!((i.theme.as_str(), i.size.as_str(), i.name.as_str()), ("Hicolor", "48x48", "firefox"));
    // theme/size/<name> is required
    assert!(icons::parse("usr/share/icons/Hicolor/index.theme").is_none());
    assert!(icons::parse("usr/share/pixmaps/foo.png").is_none());
}

#[test]
fn font_paths() {
    let f = fonts::parse("usr/share/fonts/DejaVuSans-Bold.ttf").unwrap();
    assert_eq!((f.name.as_str(), f.format.as_str()), ("DejaVuSans-Bold", "ttf"));
    assert_eq!(f.weight.as_deref(), Some("bold"));
    let g = fonts::parse("usr/share/fonts/Noto Sans_Light.OTF").unwrap();
    assert_eq!(g.format, "otf");
    assert_eq!(g.weight.as_deref(), Some("light"));
    assert_eq!(fonts::parse("usr/share/fonts/arial.ttf").unwrap().weight, None);
    // no extension, no format
    assert!(fonts::parse("usr/share/fonts/README").is_none());
}

#[test]
fn man_paths() {
    let m = man::parse("usr/share/man/man1/ls.1.gz").unwrap();
    assert_eq!((m.name.as_str(), m.section.as_str()), ("ls", "1"));
    assert_eq!(m.lang, None);
    let ru = man::parse("usr/share/man/ru/man5/termcap.5").unwrap();
    assert_eq!((ru.name.as_str(), ru.section.as_str()), ("termcap", "5"));
    assert_eq!(ru.lang.as_deref(), Some("ru"));
    // zshall.1 is named up to its first dot
    assert_eq!(man::parse("usr/share/man/man1/zshall.1").unwrap().name, "zshall");
    // a bare "man" directory has no section
    assert!(man::parse("usr/share/man/man/foo.1").is_none());
    assert!(man::parse("usr/share/man/index.db").is_none());
}

#[test]
fn toolchain_paths() {
    let t = scanner::toolchains::detect_toolchain("usr/lib/mylang/2.1/lib/libcore.a").unwrap();
    assert_eq!((t.name.as_str(), t.version.as_str()), ("mylang", "2.1"));
    let g = scanner::toolchains::detect_toolchain("usr/lib/x86_64-linux-gnu/13/crtbegin.o").unwrap();
    assert_eq!((g.name.as_str(), g.version.as_str()), ("x86_64-linux-gnu", "13"));
    assert!(scanner::toolchains::detect_toolchain("usr/lib/python3.11/lib-dynload/_struct.so").is_none());
    assert!(scanner::toolchains::detect_toolchain("usr/lib/foo.o").is_none());
}

#[test]
fn loader_stems() {
    assert_eq!(libc::loader_stem_exec("/lib/ld-musl-x86_64.so.1"), "ld-musl-x86_64");
    assert_eq!(libc::loader_stem_exec("/lib64/ld-linux-x86-64.so.2"), "ld-linux-x86-64");
    assert_eq!(libc::loader_stem_exec("/system/bin/linker64"), "linker64");
}

#[test]
fn libcs_first_occurrence() {
    let bins = vec![
        bin_with("usr/bin/a", Some("/lib/ld-musl-x86_64.so.1")),
        bin_with("usr/bin/b", None),
        bin_with("usr/bin/c", Some("/lib64/ld-linux-x86-64.so.2")),
        bin_with("usr/bin/d", Some("/lib/ld-musl-x86_64.so.1")),
    ];
    let l = libc::from_bins(&bins);
    assert_eq!(l.len(), 2);
    assert_eq!((l[0].name.as_str(), l[0].interp.as_str()), ("ld-musl-x86_64", "/lib/ld-musl-x86_64.so.1"));
    assert_eq!(l[1].name, "ld-linux-x86-64");
    assert!(libc::from_bins(&vec![bin_with("usr/bin/sh", None)]).is_empty());
}

#[test]
fn theme_engines() {
    let es = vec![
        entry("t/openbox-3", true),
        entry("t/index.theme", false),
        entry("t/metacity-1", true),
        entry("t/gtk-3.0", true),
        entry("t/gtk-2.0", true),
    ];
    assert_eq!(themes::kind(&es), "gtk,metacity,openbox");
    assert_eq!(themes::kind(&vec![entry("t/index.theme", false)]), "");
    assert_eq!(string_of(&themes::engine_stem_exec(&c("gtk-3.0"))), "gtk");
    assert_eq!(string_of(&themes::engine_stem_exec(&c("xfwm4-default"))), "xfwm4-default");
}

#[test]
fn cursor_counts() {
    let es = vec![entry("c/left_ptr", false), entry("c/sub", true), entry("c/hand2", false)];
    let cur = cursors::parse("usr/share/icons/X/cursors", &es, "X".to_string()).unwrap();
    assert_eq!((cur.name.as_str(), cur.count), ("X", 2));
    assert!(cursors::parse("usr/share/icons/X/cursors", &vec![entry("c/sub", true)], "X".to_string()).is_none());
}

#[test]
fn desktop_entries() {
    let text = "# c\n[Desktop Entry]\nName[ru]=Фу\nName = Foo\nName=Bar\nIcon=foo\nExec=foo %U\n[Desktop Action x]\nExec=other\n";
    let d = desktop::app("usr/share/applications/foo.desktop", text);
    assert_eq!(d.name.as_deref(), Some("Foo"));
    assert_eq!(d.icon.as_deref(), Some("foo"));
    assert_eq!(d.command.as_deref(), Some("foo %U"));
    let s = desktop::session("usr/share/wayland-sessions/sway.desktop", "[Desktop Entry]\nExec=sway\n", "wayland");
    assert_eq!(s.kind, "wayland");
    assert_eq!(s.name, None);
    assert_eq!(s.command.as_deref(), Some("sway"));
    // keys before the first group are not part of the entry
    let e = desktop::app("x.desktop", "Name=Early\n[Desktop Entry]\n");
    assert_eq!(e.name, None);
}

#[test]
fn unit_text() {
    assert!(services::is_unit_text_exec(b"[Unit]\nDescription=x\n"));
    assert!(services::is_unit_text_exec(b"# comment\n\n; other\n[Custom]\n"));
    assert!(services::is_unit_text_exec(b"type = process\ncommand = /usr/sbin/sshd -D\n"));
    assert!(services::is_unit_text_exec(b"a: b\nc: d\ne f\n"));
    // dotted keys are not directives
    assert!(!services::is_unit_text_exec(b"net.core.somaxconn = 1024\nfs.file-max = 1\n"));
    // one directive is not enough
    assert!(!services::is_unit_text_exec(b"key = value\n"));
    // more prose than directives
    assert!(!services::is_unit_text_exec(b"a = b\nc = d\nsome prose\nmore prose\nthird line\n"));
    assert!(!services::is_unit_text_exec(b"\x00\x01\x02binary"));
    assert!(!services::is_unit_text_exec(b""));
}

#[test]
fn shebangs() {
    assert_eq!(bin::shebang_interp(b"#!/usr/bin/env python3\nprint()\n").as_deref(), Some("/usr/bin/env"));
    assert_eq!(bin::shebang_interp(b"#! /bin/sh\n").as_deref(), Some("/bin/sh"));
    assert_eq!(bin::shebang_interp(b"#!\n"), None);
    assert_eq!(bin::shebang_interp(b"#"), None);
    assert_eq!(bin::shebang_interp(b"\x7fELF"), None);
    // invalid UTF-8 is decoded lossily, not handed back as it was
    assert_eq!(bin::shebang_interp(b"#!/bin/\xffsh\n").as_deref(), Some("/bin/\u{fffd}sh"));
}

#[test]
fn bin_records() {
    let b = bin::parse("usr/bin/s", None, b"#!/bin/sh\n");
    assert_eq!(b.script.as_deref(), Some("/bin/sh"));
    assert!(b.interp.is_none() && !b.dynamic && b.needed.is_empty());
    let info = elf::BinInfo { interp: Some("/lib/ld.so".to_string()), dynamic: true, needed: vec!["libc.so".to_string()] };
    let e = bin::parse("usr/bin/e", Some(info), b"#!/bin/sh\n");
    assert_eq!(e.script, None);
    assert_eq!(e.interp.as_deref(), Some("/lib/ld.so"));
    assert_eq!(e.needed, vec!["libc.so".to_string()]);
}

#[test]
fn lib_records() {
    let l = libs::parse("usr/lib/libz.so.1", None);
    assert_eq!((l.path.as_str(), l.soname.clone(), l.needed.len()), ("usr/lib/libz.so.1", None, 0));
    let d = elf::Dyn { soname: Some("libz.so.1".to_string()), needed: vec!["libc.so.6".to_string()] };
    let l2 = libs::parse("usr/lib/libz.so.1", Some(d));
    assert_eq!(l2.soname.as_deref(), Some("libz.so.1"));
    assert_eq!(l2.needed, vec!["libc.so.6".to_string()]);
}

// a 64-bit little-endian shared object: one PT_LOAD, one PT_DYNAMIC
fn shared_object() -> Vec<u8> {
    let mut h = vec![0u8; 64];
    h[0..4].copy_from_slice(b"\x7fELF");
    h[4] = 2;
    h[5] = 1;
    h[32..40].copy_from_slice(&64u64.to_le_bytes());
    h[54..56].copy_from_slice(&56u16.to_le_bytes());
    h[56..58].copy_from_slice(&2u16.to_le_bytes());
    let dyn_off = 64 + 112u64;
    let strtab_off = dyn_off + 48;
    let strtab = b"\0libdep.so\0libme.so\0".to_vec();
    let total = strtab_off + strtab.len() as u64;
    let ph = |kind: u32, off: u64, sz: u64| {
        let mut b = vec![0u8; 56];
        b[0..4].copy_from_slice(&kind.to_le_bytes());
        b[8..16].copy_from_slice(&off.to_le_bytes());
        b[16..24].copy_from_slice(&off.to_le_bytes());
        b[32..40].copy_from_slice(&sz.to_le_bytes());
        b
    };
    let de = |tag: u64, val: u64| {
        let mut b = vec![0u8; 16];
        b[0..8].copy_from_slice(&tag.to_le_bytes());
        b[8..16].copy_from_slice(&val.to_le_bytes());
        b
    };
    let mut v = h;
    v.extend(ph(1, 0, total));
    v.extend(ph(2, dyn_off, 48));
    v.extend(de(5, strtab_off));
    v.extend(de(1, 1));
    v.extend(de(14, 11));
    v.extend(strtab);
    v
}

fn read_all(mode: ElfMode, file: &[u8]) -> ElfReader {
    let mut r = ElfReader::new(mode);
    while let Some((off, len)) = r.wants() {
        let a = (off as usize).min(file.len());
        let b = a.saturating_add(len).min(file.len());
        r.feed(Some(file[a..b].to_vec()));
    }
    r
}

#[test]
fn elf_reader() {
    let f = shared_object();
    let r = read_all(ElfMode::Lib, &f);
    assert_eq!(r.stage, Stage::Done);
    assert!(r.elf && r.dyn_ok);
    let d = elf::dynamic(r).unwrap();
    assert_eq!(d.soname.as_deref(), Some("libme.so"));
    assert_eq!(d.needed, vec!["libdep.so".to_string()]);

    // a truncated program header: not an ELF file, and no panic
    let r2 = read_all(ElfMode::Bin, &f[..100]);
    assert!(!r2.elf);
    assert!(elf::bin(r2).is_none());

    // a failed read of the header ends the reading
    let mut r3 = ElfReader::new(ElfMode::Bin);
    r3.feed(None);
    assert_eq!(r3.wants(), None);
    assert!(!r3.elf);
}

// a 64-bit little-endian shared object whose dynamic section holds a
// DT_STRTAB entry and then `tags`, with `strtab` as its string table
fn shared_with(tags: &[(u64, u64)], strtab: &[u8]) -> Vec<u8> {
    let mut h = vec![0u8; 64];
    h[0..4].copy_from_slice(b"\x7fELF");
    h[4] = 2;
    h[5] = 1;
    h[32..40].copy_from_slice(&64u64.to_le_bytes());
    h[54..56].copy_from_slice(&56u16.to_le_bytes());
    h[56..58].copy_from_slice(&2u16.to_le_bytes());
    let dyn_off = 64 + 112u64;
    let dyn_size = 16 * (tags.len() as u64 + 1);
    let strtab_off = dyn_off + dyn_size;
    let total = strtab_off + strtab.len() as u64;
    let ph = |kind: u32, off: u64, sz: u64| {
        let mut b = vec![0u8; 56];
        b[0..4].copy_from_slice(&kind.to_le_bytes());
        b[8..16].copy_from_slice(&off.to_le_bytes());
        b[16..24].copy_from_slice(&off.to_le_bytes());
        b[32..40].copy_from_slice(&sz.to_le_bytes());
        b
    };
    let de = |tag: u64, val: u64| {
        let mut b = vec![0u8; 16];
        b[0..8].copy_from_slice(&tag.to_le_bytes());
        b[8..16].copy_from_slice(&val.to_le_bytes());
        b
    };
    let mut v = h;
    v.extend(ph(1, 0, total));
    v.extend(ph(2, dyn_off, dyn_size));
    v.extend(de(5, strtab_off));
    for &(t, x) in tags {
        v.extend(de(t, x));
    }
    v.extend(strtab.to_vec());
    v
}

// the needed strings come out in the section's order; an entry whose
// offset overflows and one naming the empty string are passed over
#[test]
fn needed_strings_in_order() {
    let strtab = b"\0libdep.so\0libme.so\0libz.so\0";
    let f = shared_with(&[(1, 1), (1, u64::MAX), (1, 0), (14, 11), (1, 20)], strtab);
    let r = read_all(ElfMode::Lib, &f);
    assert_eq!(r.stage, Stage::Done);
    assert!(r.elf && r.dyn_ok);
    let d = elf::dynamic(r).unwrap();
    assert_eq!(d.soname.as_deref(), Some("libme.so"));
    assert_eq!(d.needed, vec!["libdep.so".to_string(), "libz.so".to_string()]);
    // without a string table there is no dynamic information
    let mut g = shared_with(&[(1, 1)], strtab);
    g[176..184].copy_from_slice(&0u64.to_le_bytes());
    let r2 = read_all(ElfMode::Lib, &g);
    assert!(r2.elf && !r2.dyn_ok);
    assert!(elf::dynamic(r2).is_none());
}

// an executable with a PT_INTERP segment and no PT_DYNAMIC one: a static
// executable, so no interpreter is read or kept
#[test]
fn interp_only_when_dynamic() {
    let interp = b"/lib/ld-linux-x86-64.so.2\0";
    let mut h = vec![0u8; 64];
    h[0..4].copy_from_slice(b"\x7fELF");
    h[4] = 2;
    h[5] = 1;
    h[32..40].copy_from_slice(&64u64.to_le_bytes());
    h[54..56].copy_from_slice(&56u16.to_le_bytes());
    h[56..58].copy_from_slice(&1u16.to_le_bytes());
    let mut ph = vec![0u8; 56];
    ph[0..4].copy_from_slice(&3u32.to_le_bytes());
    ph[8..16].copy_from_slice(&120u64.to_le_bytes());
    ph[32..40].copy_from_slice(&(interp.len() as u64).to_le_bytes());
    let mut f = h;
    f.extend(ph);
    f.extend(interp.to_vec());
    let r = read_all(ElfMode::Bin, &f);
    assert!(r.elf && !r.dynamic);
    assert_eq!(r.interp, None);
    let info = elf::bin(r).unwrap();
    assert!(info.interp.is_none() && !info.dynamic);
    // a record built from such headers keeps no interpreter either
    let odd = elf::BinInfo { interp: Some("/lib/ld.so".to_string()), dynamic: false, needed: Vec::new() };
    let b = bin::parse("usr/bin/s", Some(odd), b"");
    assert!(b.interp.is_none() && !b.dynamic);
}

#[test]
fn service_judging() {
    let dir = entry("etc/sv/sshd", true);
    assert!(matches!(services::kind_outcome_exec(&dir, KindStep::Start, Reply::Flag(true)), KindOutcome::Found(Some(SvcKind::Supervised))));
    assert!(matches!(services::kind_outcome_exec(&dir, KindStep::Start, Reply::Flag(false)), KindOutcome::Found(None)));
    let f = entry("etc/init.d/net", false);
    let exec = Meta { is_file: true, mode: 0o755 };
    let plain = Meta { is_file: true, mode: 0o644 };
    let fifo = Meta { is_file: false, mode: 0o644 };
    assert!(matches!(services::kind_outcome_exec(&f, KindStep::Start, Reply::Meta(Some(exec))), KindOutcome::Found(Some(SvcKind::Script))));
    assert!(matches!(services::kind_outcome_exec(&f, KindStep::Start, Reply::Meta(Some(fifo))), KindOutcome::Found(None)));
    assert!(matches!(services::kind_outcome_exec(&f, KindStep::Start, Reply::Meta(Some(plain))), KindOutcome::NeedHead(_)));
    assert!(matches!(services::kind_outcome_exec(&f, KindStep::Head(plain), Reply::Bytes(Some(b"[Unit]\n".to_vec()))), KindOutcome::Found(Some(SvcKind::Unit))));

    let s = services::detect(&entry("etc/sv/sshd", true), Some(SvcKind::Supervised)).unwrap();
    assert_eq!((s.name.as_str(), s.kind.as_str()), ("sshd", "supervised"));
    let u = services::detect(&entry("etc/svc/web.service", false), Some(SvcKind::Unit)).unwrap();
    assert_eq!((u.name.as_str(), u.kind.as_str()), ("web", "service"));
    let i = services::detect(&entry("etc/init.d/net", false), Some(SvcKind::Script)).unwrap();
    assert_eq!((i.name.as_str(), i.kind.as_str()), ("net", "initscript"));
    let d = services::detect(&entry("etc/dinit.d/boot", false), Some(SvcKind::Unit)).unwrap();
    assert_eq!(d.kind, "unit");
    assert!(services::detect(&f, None).is_none());
}

#[test]
fn dir_routes() {
    let none: Vec<String> = Vec::new();
    let r = |p: &str, fhs: bool| route::dir_route_exec(&c(p), fhs, &none, &none);
    assert_eq!(r("usr/share/themes/Adwaita", true), DirRoute::Theme("Adwaita".to_string()));
    assert_eq!(r("usr/share/locale/ru", true), DirRoute::Locale("ru".to_string()));
    assert_eq!(r("usr/share/icons/Hicolor/cursors", true), DirRoute::Cursors("Hicolor".to_string()));
    assert_eq!(r("opt/x/share/themes/T", false), DirRoute::Theme("T".to_string()));
    assert_eq!(r("opt/x/share/themes/T", true), DirRoute::Descend);
    assert_eq!(r("usr/lib", true), DirRoute::Descend);
    assert_eq!(r("usr", true), DirRoute::Unknown);
    assert_eq!(r("etc/init.d", true), DirRoute::Unknown);
    let custom = vec!["System/Applications".to_string()];
    assert_eq!(route::dir_route_exec(&c("System/Applications"), true, &custom, &none), DirRoute::Descend);
    assert_eq!(route::dir_route_exec(&c("System/ApplicationsX"), true, &custom, &none), DirRoute::Unknown);
}

#[test]
fn file_routes() {
    let cfg = ScanConfig::new().with_lib_root("System/Libraries");
    let a = |p: &str, fhs: bool| route::file_act_exec(&c(p), fhs, &cfg);
    assert_eq!(a("usr/lib/modules/6.1/k/foo.ko", true), FileAct::Module);
    assert_eq!(a("lib/modules/6.1/k/foo.ko", true), FileAct::Module);
    assert_eq!(a("usr/lib/udev/rules.d/60-block.rules", true), FileAct::Sys(SysConf::UdevRule));
    assert_eq!(a("usr/share/polkit-1/actions/a.policy", true), FileAct::Sys(SysConf::PolkitAction));
    assert_eq!(a("usr/bin/ls", true), FileAct::Bin);
    assert_eq!(a("usr/binfoo/ls", true), FileAct::Nothing);
    assert_eq!(a("usr/lib/libz.so.1", true), FileAct::LibRoot);
    assert_eq!(a("System/Libraries/libz.so.1", true), FileAct::LibRoot);
    // a configured root takes its direct children only
    assert_ne!(a("System/Libraries/sub/libz.so.1", true), FileAct::LibRoot);
    assert_ne!(a("System/Libraries", true), FileAct::LibRoot);
    assert_eq!(a("usr/share/applications/a.desktop", true), FileAct::Share(Share::App));
    assert_eq!(a("usr/share/mime/text/plain.xml", true), FileAct::Mime);
    assert_eq!(a("usr/share/mime/globs2", true), FileAct::Nothing);
    assert_eq!(a("nix/store/x/bin/ls", false), FileAct::Bin);
    assert_eq!(a("nix/store/x/bin/ls", true), FileAct::Nothing);
    assert_eq!(a("nix/store/x/lib/libz.so", false), FileAct::NonFhsLib);
    assert_eq!(a("opt/share/icons/T/32/foo.png", false), FileAct::Share(Share::Icon));
    assert_eq!(route::non_fhs_role_exec(&c("a/sbin/x")), Some(Role::Bin));
    assert!(route::is_kernel_vfs_exec(&c("proc")));
    assert!(!route::is_kernel_vfs_exec(&c("etc/tmp")));
    assert!(route::is_pm_data_exec(&c("var/lib/pacman")));
    assert!(!route::is_pm_data_exec(&c("var/library")));
}

#[test]
fn text_helpers() {
    // characters pushed one by one come out in order
    assert_eq!(string_of(&['a', 'é', 'z']), "aéz");
    assert_eq!(chars_of("ab"), vec!['a', 'b']);
}

#[test]
fn scan_error_message() {
    let e = ScanError::Panic("boom".to_string());
    assert_eq!(e.message(), "scan panicked: boom");
}

#[test]
fn config_builders() {
    let c = ScanConfig::new().with_bin_root("a").with_bin_root("b").with_lib_root("c").with_probe_depth(6);
    assert_eq!(c.bin_roots, vec!["a".to_string(), "b".to_string()]);
    assert_eq!(c.lib_roots, vec!["c".to_string()]);
    assert_eq!(c.probe_limit_exec(), 6);
    assert_eq!(ScanConfig::new().probe_limit_exec(), 4);
}
