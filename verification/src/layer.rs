//! Whole-profile operations: merging the profiles of subtrees, and the
//! final ordering by path.

use crate::order::{
    Keyed, codes, lemma_codes_injective, lex_lt, path_codes, path_lt_exec, sort_keyed, sorted, stable,
    str_lt_exec,
};
use crate::profile::{
    Bin, Cursor, Desktop, Font, Icon, LayerProfile, Lib, Locale, ManPage, Module, Service, Session,
    Theme, Toolchain,
};
use vstd::prelude::*;

verus! {

// ------------------------------------------------------------ keys

impl Keyed for Bin {
    open spec fn key(&self) -> Seq<int> {
        path_codes(self.path@)
    }

    fn before(&self, other: &Self) -> (b: bool) {
        path_lt_exec(&self.path, &other.path)
    }
}

impl Keyed for Lib {
    open spec fn key(&self) -> Seq<int> {
        path_codes(self.path@)
    }

    fn before(&self, other: &Self) -> (b: bool) {
        path_lt_exec(&self.path, &other.path)
    }
}

impl Keyed for Desktop {
    open spec fn key(&self) -> Seq<int> {
        path_codes(self.path@)
    }

    fn before(&self, other: &Self) -> (b: bool) {
        path_lt_exec(&self.path, &other.path)
    }
}

impl Keyed for Session {
    open spec fn key(&self) -> Seq<int> {
        path_codes(self.path@)
    }

    fn before(&self, other: &Self) -> (b: bool) {
        path_lt_exec(&self.path, &other.path)
    }
}

impl Keyed for Icon {
    open spec fn key(&self) -> Seq<int> {
        path_codes(self.path@)
    }

    fn before(&self, other: &Self) -> (b: bool) {
        path_lt_exec(&self.path, &other.path)
    }
}

impl Keyed for Cursor {
    open spec fn key(&self) -> Seq<int> {
        path_codes(self.path@)
    }

    fn before(&self, other: &Self) -> (b: bool) {
        path_lt_exec(&self.path, &other.path)
    }
}

impl Keyed for Theme {
    open spec fn key(&self) -> Seq<int> {
        path_codes(self.path@)
    }

    fn before(&self, other: &Self) -> (b: bool) {
        path_lt_exec(&self.path, &other.path)
    }
}

impl Keyed for Font {
    open spec fn key(&self) -> Seq<int> {
        path_codes(self.path@)
    }

    fn before(&self, other: &Self) -> (b: bool) {
        path_lt_exec(&self.path, &other.path)
    }
}

impl Keyed for Service {
    open spec fn key(&self) -> Seq<int> {
        path_codes(self.path@)
    }

    fn before(&self, other: &Self) -> (b: bool) {
        path_lt_exec(&self.path, &other.path)
    }
}

impl Keyed for Locale {
    open spec fn key(&self) -> Seq<int> {
        path_codes(self.path@)
    }

    fn before(&self, other: &Self) -> (b: bool) {
        path_lt_exec(&self.path, &other.path)
    }
}

impl Keyed for Module {
    open spec fn key(&self) -> Seq<int> {
        path_codes(self.path@)
    }

    fn before(&self, other: &Self) -> (b: bool) {
        path_lt_exec(&self.path, &other.path)
    }
}

impl Keyed for Toolchain {
    open spec fn key(&self) -> Seq<int> {
        path_codes(self.path@)
    }

    fn before(&self, other: &Self) -> (b: bool) {
        path_lt_exec(&self.path, &other.path)
    }
}

impl Keyed for ManPage {
    open spec fn key(&self) -> Seq<int> {
        path_codes(self.path@)
    }

    fn before(&self, other: &Self) -> (b: bool) {
        path_lt_exec(&self.path, &other.path)
    }
}

/// A path held on its own.
impl Keyed for String {
    open spec fn key(&self) -> Seq<int> {
        path_codes(self@)
    }

    fn before(&self, other: &Self) -> (b: bool) {
        path_lt_exec(self, other)
    }
}

/// The key of a package-manager directory: its name, then its file count.
pub open spec fn pm_key(name: Seq<char>, count: usize) -> Seq<int> {
    codes(name) + seq![-1int, count as int]
}

/// A package-manager directory with its file count.
impl Keyed for (String, usize) {
    open spec fn key(&self) -> Seq<int> {
        pm_key(self.0@, self.1)
    }

    fn before(&self, other: &Self) -> (b: bool) {
        let a = crate::text::chars_of(self.0.as_str());
        let c = crate::text::chars_of(other.0.as_str());
        proof {
            lemma_pm_key(self.0@, other.0@, self.1, other.1);
        }
        if crate::text::eq_exec(a.as_slice(), c.as_slice()) {
            self.1 < other.1
        } else {
            str_lt_exec(&self.0, &other.0)
        }
    }
}

proof fn lemma_codes_nonneg(s: Seq<char>)
    ensures
        forall|i: int| 0 <= i < codes(s).len() ==> codes(s)[i] >= 0,
{
}

/// The name decides, then the count.
proof fn lemma_pm_key(a: Seq<char>, b: Seq<char>, x: usize, y: usize)
    ensures
        a == b ==> lex_lt(pm_key(a, x), pm_key(b, y)) == (x < y),
        a != b ==> lex_lt(pm_key(a, x), pm_key(b, y)) == lex_lt(codes(a), codes(b)),
{
    lemma_codes_nonneg(a);
    lemma_codes_nonneg(b);
    lemma_suffix_lex(codes(a), codes(b), seq![-1int, x as int], seq![-1int, y as int]);
    if a != b && codes(a) == codes(b) {
        lemma_codes_injective(a, b);
    }
    let s = seq![-1int, x as int];
    let t = seq![-1int, y as int];
    assert(s.drop_first() == seq![x as int]);
    assert(t.drop_first() == seq![y as int]);
    assert(seq![x as int].drop_first().len() == 0);
    assert(lex_lt(s, t) == lex_lt(seq![x as int], seq![y as int]));
    assert(seq![x as int].drop_first() =~= Seq::<int>::empty());
    assert(seq![y as int].drop_first() =~= Seq::<int>::empty());
    assert(!lex_lt(Seq::<int>::empty(), Seq::<int>::empty()));
    assert(lex_lt(seq![x as int], seq![y as int]) == (x < y));
}

/// Appending suffixes that open with an element below all others keeps the
/// order of different sequences, and leaves equal ones to the suffixes.
proof fn lemma_suffix_lex(a: Seq<int>, b: Seq<int>, s: Seq<int>, t: Seq<int>)
    requires
        forall|i: int| 0 <= i < a.len() ==> a[i] >= 0,
        forall|i: int| 0 <= i < b.len() ==> b[i] >= 0,
        s.len() > 0,
        t.len() > 0,
        s[0] == -1,
        t[0] == -1,
    ensures
        a == b ==> lex_lt(a + s, b + t) == lex_lt(s, t),
        a != b ==> lex_lt(a + s, b + t) == lex_lt(a, b),
    decreases a.len(),
{
    if a.len() == 0 {
        if b.len() == 0 {
            assert(a + s == s);
            assert(b + t == t);
            assert(a =~= b);
        } else {
            assert((a + s)[0] == -1);
            assert((b + t)[0] == b[0]);
            assert(b[0] >= 0);
            assert(lex_lt(a + s, b + t));
            assert(lex_lt(a, b));
        }
    } else if b.len() == 0 {
        assert((a + s)[0] == a[0]);
        assert((b + t)[0] == -1);
        assert(a[0] >= 0);
        assert(!lex_lt(a + s, b + t));
        assert(!lex_lt(a, b));
    } else {
        assert((a + s)[0] == a[0]);
        assert((b + t)[0] == b[0]);
        assert(forall|i: int| 0 <= i < a.drop_first().len() ==> a.drop_first()[i] == a[i + 1]);
        assert(forall|i: int| 0 <= i < b.drop_first().len() ==> b.drop_first()[i] == b[i + 1]);
        if a[0] != b[0] {
            assert(lex_lt(a + s, b + t) == (a[0] < b[0]));
            assert(lex_lt(a, b) == (a[0] < b[0]));
        } else {
            assert((a + s).drop_first() == a.drop_first() + s);
            assert((b + t).drop_first() == b.drop_first() + t);
            lemma_suffix_lex(a.drop_first(), b.drop_first(), s, t);
            assert(lex_lt(a + s, b + t) == lex_lt(a.drop_first() + s, b.drop_first() + t));
            assert(lex_lt(a, b) == lex_lt(a.drop_first(), b.drop_first()));
            if a.drop_first() == b.drop_first() {
                assert(a == seq![a[0]] + a.drop_first());
                assert(b == seq![b[0]] + b.drop_first());
            } else {
                assert(a != b);
            }
        }
    }
}

// ------------------------------------------------------------ merge

/// `dst` holds `a`'s records followed by `b`'s, field by field, counters
/// summed.
pub open spec fn merged(dst: LayerProfile, a: LayerProfile, b: LayerProfile) -> bool {
    &&& dst.bin@ == a.bin@ + b.bin@
    &&& dst.lib@ == a.lib@ + b.lib@
    &&& dst.apps@ == a.apps@ + b.apps@
    &&& dst.sessions@ == a.sessions@ + b.sessions@
    &&& dst.icons@ == a.icons@ + b.icons@
    &&& dst.cursors@ == a.cursors@ + b.cursors@
    &&& dst.themes@ == a.themes@ + b.themes@
    &&& dst.fonts@ == a.fonts@ + b.fonts@
    &&& dst.services@ == a.services@ + b.services@
    &&& dst.locale@ == a.locale@ + b.locale@
    &&& dst.modules@ == a.modules@ + b.modules@
    &&& dst.toolchains@ == a.toolchains@ + b.toolchains@
    &&& dst.man@ == a.man@ + b.man@
    &&& dst.mime == a.mime + b.mime
    &&& dst.mime_paths@ == a.mime_paths@ + b.mime_paths@
    &&& dst.firmware == a.firmware + b.firmware
    &&& dst.firmware_paths@ == a.firmware_paths@ + b.firmware_paths@
    &&& dst.udev_rules@ == a.udev_rules@ + b.udev_rules@
    &&& dst.udev_hwdb@ == a.udev_hwdb@ + b.udev_hwdb@
    &&& dst.polkit_rules@ == a.polkit_rules@ + b.polkit_rules@
    &&& dst.polkit_actions@ == a.polkit_actions@ + b.polkit_actions@
    &&& dst.libc == a.libc
    &&& dst.all_libcs == a.all_libcs
    &&& dst.pm_dirs == a.pm_dirs
    &&& dst.fhs == a.fhs
}

/// Appends the records and counters of a subtree's profile to `dst`.
///
/// Both profiles keep `counts_ok`: the mime and firmware counters are the
/// lengths of their path lists, as every profile the walks build has them,
/// and the merged counters are taken as the merged lists' lengths. That
/// keeps the sum of two counters in range without a check of its own.
pub fn merge_profile(dst: &mut LayerProfile, src: LayerProfile)
    requires
        old(dst).counts_ok(),
        src.counts_ok(),
    ensures
        merged(*final(dst), *old(dst), src),
        final(dst).counts_ok(),
{
    let mut src = src;
    dst.bin.append(&mut src.bin);
    dst.lib.append(&mut src.lib);
    dst.apps.append(&mut src.apps);
    dst.sessions.append(&mut src.sessions);
    dst.icons.append(&mut src.icons);
    dst.cursors.append(&mut src.cursors);
    dst.themes.append(&mut src.themes);
    dst.fonts.append(&mut src.fonts);
    dst.services.append(&mut src.services);
    dst.locale.append(&mut src.locale);
    dst.modules.append(&mut src.modules);
    dst.toolchains.append(&mut src.toolchains);
    dst.man.append(&mut src.man);
    dst.mime_paths.append(&mut src.mime_paths);
    dst.mime = dst.mime_paths.len();
    dst.firmware_paths.append(&mut src.firmware_paths);
    dst.firmware = dst.firmware_paths.len();
    dst.udev_rules.append(&mut src.udev_rules);
    dst.udev_hwdb.append(&mut src.udev_hwdb);
    dst.polkit_rules.append(&mut src.polkit_rules);
    dst.polkit_actions.append(&mut src.polkit_actions);
}

// ------------------------------------------------------------ ordering

/// Every list of the profile is ordered by path (package-manager
/// directories by name, then count).
pub open spec fn profile_sorted(p: LayerProfile) -> bool {
    &&& sorted(p.bin@)
    &&& sorted(p.lib@)
    &&& sorted(p.apps@)
    &&& sorted(p.sessions@)
    &&& sorted(p.icons@)
    &&& sorted(p.cursors@)
    &&& sorted(p.themes@)
    &&& sorted(p.fonts@)
    &&& sorted(p.services@)
    &&& sorted(p.locale@)
    &&& sorted(p.modules@)
    &&& sorted(p.toolchains@)
    &&& sorted(p.man@)
    &&& sorted(p.mime_paths@)
    &&& sorted(p.firmware_paths@)
    &&& sorted(p.udev_rules@)
    &&& sorted(p.udev_hwdb@)
    &&& sorted(p.polkit_rules@)
    &&& sorted(p.polkit_actions@)
    &&& sorted(p.pm_dirs@)
}

/// `q` holds the records of `p` but its binaries, each list reordered, and
/// its counters and flag; the C runtimes aside.
pub open spec fn same_lists_but_bin(q: LayerProfile, p: LayerProfile) -> bool {
    &&& q.lib@.to_multiset() == p.lib@.to_multiset()
    &&& q.apps@.to_multiset() == p.apps@.to_multiset()
    &&& q.sessions@.to_multiset() == p.sessions@.to_multiset()
    &&& q.icons@.to_multiset() == p.icons@.to_multiset()
    &&& q.cursors@.to_multiset() == p.cursors@.to_multiset()
    &&& q.themes@.to_multiset() == p.themes@.to_multiset()
    &&& q.fonts@.to_multiset() == p.fonts@.to_multiset()
    &&& q.services@.to_multiset() == p.services@.to_multiset()
    &&& q.locale@.to_multiset() == p.locale@.to_multiset()
    &&& q.modules@.to_multiset() == p.modules@.to_multiset()
    &&& q.toolchains@.to_multiset() == p.toolchains@.to_multiset()
    &&& q.man@.to_multiset() == p.man@.to_multiset()
    &&& q.mime_paths@.to_multiset() == p.mime_paths@.to_multiset()
    &&& q.firmware_paths@.to_multiset() == p.firmware_paths@.to_multiset()
    &&& q.udev_rules@.to_multiset() == p.udev_rules@.to_multiset()
    &&& q.udev_hwdb@.to_multiset() == p.udev_hwdb@.to_multiset()
    &&& q.polkit_rules@.to_multiset() == p.polkit_rules@.to_multiset()
    &&& q.polkit_actions@.to_multiset() == p.polkit_actions@.to_multiset()
    &&& q.pm_dirs@.to_multiset() == p.pm_dirs@.to_multiset()
    &&& q.mime == p.mime
    &&& q.firmware == p.firmware
    &&& q.fhs == p.fhs
}

/// `q` holds the records of `p`, each list reordered, and its counters and
/// flag; the C runtimes aside.
pub open spec fn same_lists(q: LayerProfile, p: LayerProfile) -> bool {
    &&& same_lists_but_bin(q, p)
    &&& q.bin@.to_multiset() == p.bin@.to_multiset()
}

/// `q` holds the records of `p`, each list reordered.
pub open spec fn same_records(q: LayerProfile, p: LayerProfile) -> bool {
    &&& same_lists(q, p)
    &&& q.libc == p.libc
    &&& q.all_libcs == p.all_libcs
}

/// Every list of `q` but its binaries keeps the order its records with
/// equal keys have in `p`.
pub open spec fn keeps_ties_but_bin(q: LayerProfile, p: LayerProfile) -> bool {
    &&& stable(q.lib@, p.lib@)
    &&& stable(q.apps@, p.apps@)
    &&& stable(q.sessions@, p.sessions@)
    &&& stable(q.icons@, p.icons@)
    &&& stable(q.cursors@, p.cursors@)
    &&& stable(q.themes@, p.themes@)
    &&& stable(q.fonts@, p.fonts@)
    &&& stable(q.services@, p.services@)
    &&& stable(q.locale@, p.locale@)
    &&& stable(q.modules@, p.modules@)
    &&& stable(q.toolchains@, p.toolchains@)
    &&& stable(q.man@, p.man@)
    &&& stable(q.mime_paths@, p.mime_paths@)
    &&& stable(q.firmware_paths@, p.firmware_paths@)
    &&& stable(q.udev_rules@, p.udev_rules@)
    &&& stable(q.udev_hwdb@, p.udev_hwdb@)
    &&& stable(q.polkit_rules@, p.polkit_rules@)
    &&& stable(q.polkit_actions@, p.polkit_actions@)
    &&& stable(q.pm_dirs@, p.pm_dirs@)
}

/// Every list of `q` keeps the order its records with equal keys have in
/// `p`.
pub open spec fn keeps_ties(q: LayerProfile, p: LayerProfile) -> bool {
    &&& keeps_ties_but_bin(q, p)
    &&& stable(q.bin@, p.bin@)
}

/// Orders every list of a profile by path: one sort per profile.
pub fn sort_profile(p: LayerProfile) -> (q: LayerProfile)
    ensures
        profile_sorted(q),
        same_records(q, p),
        keeps_ties(q, p),
{
    let LayerProfile {
        libc,
        all_libcs,
        pm_dirs,
        fhs,
        bin,
        lib,
        apps,
        sessions,
        icons,
        cursors,
        themes,
        fonts,
        services,
        locale,
        modules,
        toolchains,
        mime,
        mime_paths,
        firmware,
        firmware_paths,
        udev_rules,
        udev_hwdb,
        polkit_rules,
        polkit_actions,
        man,
    } = p;
    LayerProfile {
        libc,
        all_libcs,
        pm_dirs: sort_keyed(pm_dirs),
        fhs,
        bin: sort_keyed(bin),
        lib: sort_keyed(lib),
        apps: sort_keyed(apps),
        sessions: sort_keyed(sessions),
        icons: sort_keyed(icons),
        cursors: sort_keyed(cursors),
        themes: sort_keyed(themes),
        fonts: sort_keyed(fonts),
        services: sort_keyed(services),
        locale: sort_keyed(locale),
        modules: sort_keyed(modules),
        toolchains: sort_keyed(toolchains),
        mime,
        mime_paths: sort_keyed(mime_paths),
        firmware,
        firmware_paths: sort_keyed(firmware_paths),
        udev_rules: sort_keyed(udev_rules),
        udev_hwdb: sort_keyed(udev_hwdb),
        polkit_rules: sort_keyed(polkit_rules),
        polkit_actions: sort_keyed(polkit_actions),
        man: sort_keyed(man),
    }
}

} // verus!
