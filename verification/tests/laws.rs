// the library's laws on concrete values

use scanner::fsio::Entry;
use scanner::layer::{merge_profile, sort_profile};
use scanner::parse::{fonts, icons, libc, man, modules};
use scanner::route::{self, FileAct, Share};
use scanner::vote::{self, Vote};
use scanner::{Bin, Icon, LayerProfile, Libc, Module, ScanConfig};

fn entry(path: &str, is_dir: bool) -> Entry {
    Entry { path: path.to_string(), raw: path.as_bytes().to_vec(), is_dir, utf8: true }
}

// the early-exit vote over a sample of hits
fn early_vote(hits: &[bool]) -> bool {
    let n = hits.len();
    let (mut seen, mut svc) = (0usize, 0usize);
    while seen < n {
        match vote::vote_step_exec(n, seen, svc, hits[seen]) {
            Vote::Yes => return true,
            Vote::No => return false,
            Vote::Go => {
                if hits[seen] {
                    svc += 1;
                }
                seen += 1;
            }
        }
    }
    n > 1 && svc >= 1 && svc * 2 >= n
}

fn majority(hits: &[bool]) -> bool {
    let k = hits.iter().filter(|h| **h).count();
    !hits.is_empty() && 2 * k >= hits.len()
}

#[test]
fn vote_early_exit_matches_full_count() {
    // every sample of up to 12 entries
    for n in 0..=12usize {
        for bits in 0..(1u32 << n) {
            let hits: Vec<bool> = (0..n).map(|i| bits & (1 << i) != 0).collect();
            assert_eq!(early_vote(&hits), majority(&hits), "{hits:?}");
        }
    }
}

#[test]
fn diversity_counts_distinct_shapes() {
    // eleven distinct extensions in the sample are too many, ten are not
    let many: Vec<Entry> = (0..11).map(|i| entry(&format!("d/f.e{i}"), false)).collect();
    assert!(vote::too_diverse_exec(&many));
    let ten: Vec<Entry> = (0..10).map(|i| entry(&format!("d/f.e{i}"), false)).collect();
    assert!(!vote::too_diverse_exec(&ten));
    // only the first 12 entries are sampled
    let mut late: Vec<Entry> = (0..12).map(|i| entry(&format!("d/u{i}.service"), false)).collect();
    late.extend((0..20).map(|i| entry(&format!("d/f.x{i}"), false)));
    assert!(!vote::too_diverse_exec(&late));
}

fn icon(path: &str) -> Icon {
    icons::parse(path).unwrap()
}

#[test]
fn merge_concatenates() {
    let mut a = LayerProfile::empty(true);
    a.icons.push(icon("usr/share/icons/A/1/x.png"));
    a.mime_paths.push("usr/share/mime/a.xml".to_string());
    a.mime = 1;
    let mut b = LayerProfile::empty(true);
    b.icons.push(icon("usr/share/icons/B/1/y.png"));
    b.mime_paths.push("usr/share/mime/b.xml".to_string());
    b.mime = 1;
    b.firmware_paths.push("lib/firmware/f.bin".to_string());
    b.firmware = 1;
    merge_profile(&mut a, b);
    let names: Vec<&str> = a.icons.iter().map(|i| i.name.as_str()).collect();
    assert_eq!(names, vec!["x", "y"]);
    assert_eq!((a.mime, a.mime_paths.len()), (2, 2));
    assert_eq!((a.firmware, a.firmware_paths.len()), (1, 1));
}

#[test]
fn sort_orders_by_path_and_keeps_records() {
    let mut p = LayerProfile::empty(false);
    for path in ["usr/share/icons/B/1/b.png", "usr/share/icons/A/1/a.png", "usr/share/icons/A-x/1/c.png", "usr/share/icons/A/1/a.png"] {
        p.icons.push(icon(path));
    }
    p.pm_dirs.push(("pacman".to_string(), 5));
    p.pm_dirs.push(("apk".to_string(), 9));
    p.pm_dirs.push(("apk".to_string(), 2));
    let q = sort_profile(p.clone());
    let paths: Vec<&str> = q.icons.iter().map(|i| i.path.as_str()).collect();
    // paths compare component-wise: "A/" sorts before "A-x/"
    assert_eq!(
        paths,
        vec![
            "usr/share/icons/A/1/a.png",
            "usr/share/icons/A/1/a.png",
            "usr/share/icons/A-x/1/c.png",
            "usr/share/icons/B/1/b.png",
        ]
    );
    assert_eq!(q.pm_dirs, vec![("apk".to_string(), 2), ("apk".to_string(), 9), ("pacman".to_string(), 5)]);
    let mut before: Vec<String> = p.icons.iter().map(|i| i.path.clone()).collect();
    before.sort();
    let mut after: Vec<String> = q.icons.iter().map(|i| i.path.clone()).collect();
    after.sort();
    assert_eq!(before, after);
}

#[test]
fn libc_is_first_of_all_libcs() {
    let bins = vec![
        Bin { path: "usr/bin/a".into(), interp: None, dynamic: false, script: Some("/bin/sh".into()), needed: vec![] },
        Bin { path: "usr/bin/b".into(), interp: Some("/lib/ld-musl-x86_64.so.1".into()), dynamic: true, script: None, needed: vec![] },
        Bin { path: "usr/bin/c".into(), interp: Some("/lib/ld-musl-x86_64.so.1".into()), dynamic: true, script: None, needed: vec![] },
    ];
    let all: Vec<Libc> = libc::from_bins(&bins);
    assert_eq!(all.len(), 1);
    assert_eq!(all[0].name, "ld-musl-x86_64");
}

#[test]
fn records_agree_with_their_paths() {
    // each parser's record is what its path says, and the router sends the
    // path to that parser
    let cfg = ScanConfig::new();
    let c = |p: &str| p.chars().collect::<Vec<char>>();
    let m: Module = modules::parse("usr/lib/modules/6.9.0/k/foo.ko").unwrap();
    assert_eq!(route::file_act_exec(&c(&m.path), true, &cfg), FileAct::Module);
    let f = fonts::parse("usr/share/fonts/Inter-Bold.otf").unwrap();
    assert_eq!(route::file_act_exec(&c(&f.path), true, &cfg), FileAct::Share(Share::Font));
    let pg = man::parse("usr/share/man/man8/mount.8").unwrap();
    assert_eq!(route::file_act_exec(&c(&pg.path), true, &cfg), FileAct::Share(Share::ManPage));
    assert_eq!((pg.name.as_str(), pg.section.as_str()), ("mount", "8"));
}

#[test]
fn probe_depth_is_configurable() {
    assert_eq!(ScanConfig::new().with_probe_depth(0).probe_limit_exec(), scanner::PROBE_DEPTH);
    assert_eq!(ScanConfig::new().with_probe_depth(9).probe_limit_exec(), 9);
}

// records with equal paths keep their order through the sort
#[test]
fn sort_keeps_equal_paths_in_order() {
    let mut p = LayerProfile::empty(true);
    let b = |path: &str, interp: &str| Bin {
        path: path.to_string(),
        interp: Some(interp.to_string()),
        dynamic: true,
        script: None,
        needed: Vec::new(),
    };
    p.bin.push(b("usr/bin/z", "/lib/ld-a.so"));
    p.bin.push(b("usr/bin/a", "/lib/ld-first.so"));
    p.bin.push(b("usr/bin/m", "/lib/ld-b.so"));
    p.bin.push(b("usr/bin/a", "/lib/ld-second.so"));
    p.bin.push(b("usr/bin/a", "/lib/ld-third.so"));
    let q = sort_profile(p);
    let got: Vec<(&str, &str)> =
        q.bin.iter().map(|x| (x.path.as_str(), x.interp.as_deref().unwrap())).collect();
    assert_eq!(
        got,
        vec![
            ("usr/bin/a", "/lib/ld-first.so"),
            ("usr/bin/a", "/lib/ld-second.so"),
            ("usr/bin/a", "/lib/ld-third.so"),
            ("usr/bin/m", "/lib/ld-b.so"),
            ("usr/bin/z", "/lib/ld-a.so"),
        ]
    );
}
