use tytm::env::{init, InitError, Layout, Probe};
use tytm::lists::{InstalledPkgList, PkgList};
use tytm::manifest::{manifest_file, FetchError, Git, Manifest, ManifestError, Source, SubPackage, Zip};
use tytm::mover::MoveOp;
use tytm::paths::{join, ObjName};
use tytm::pkg::{InstalledPackage, InstalledSubPackage, Package, PkgError, RecordAction};
use tytm::registry::{RegistryAction, ShareDir};
use tytm::UrlType;

fn name(s: &str) -> ObjName {
    ObjName::new(s).unwrap()
}

fn zip_source() -> Source {
    Source::Zip(Zip {
        url: "https://example.com/t.zip".to_string(),
        content: "t-main/theme".to_string(),
        excludes: vec!["docs".to_string(), "./x/../y.css".to_string()],
    })
}

fn sub(id: &str, file: &str) -> SubPackage {
    SubPackage { id: id.to_string(), file: name(file) }
}

fn manifest(id: &str, assets: &[&str]) -> Manifest {
    Manifest::new(
        id.to_string(),
        "Night".to_string(),
        "1.0".to_string(),
        zip_source(),
        assets.iter().map(|a| name(a)).collect(),
        vec![sub("s1", "night.css"), sub("s2", "night-dark.css")],
        vec!["s1".to_string()],
    )
    .unwrap()
}

fn staged(id: &str, assets: &[&str]) -> Package {
    Package::new(manifest(id, assets), "/tmp/stage".to_string())
}

#[test]
fn install_then_uninstall_leaves_nothing() {
    let pkg = staged("night", &["A", "B"]);
    let (mut inst, places) = pkg.install("/themes");
    assert_eq!(places.len(), 2);
    assert_eq!(places[0].dir, "/themes/A");
    assert_eq!(places[0].from, "/tmp/stage/A");
    assert_eq!(places[1].dir, "/themes/B");
    assert!(inst.pkgs().is_empty());
    for d in pkg.manifest().defaults() {
        let plan = inst.add_sub(d, &pkg, "/themes").unwrap();
        assert_eq!(plan.dest, "/themes/night.css");
    }
    assert_eq!(inst.pkgs().len(), 1);
    match inst.sync_record("/store") {
        RecordAction::Write { path } => assert_eq!(path, "/store/night.json"),
        RecordAction::Delete { .. } => panic!("record must be written"),
    }
    let out = inst.uninstall();
    assert_eq!(out.files, vec!["/themes/night.css".to_string()]);
    assert_eq!(out.released, vec!["/themes/A".to_string(), "/themes/B".to_string()]);
    assert!(inst.pkgs().is_empty());
    assert!(inst.assets().is_empty());
    match inst.sync_record("/store") {
        RecordAction::Delete { path } => assert_eq!(path, "/store/night.json"),
        RecordAction::Write { .. } => panic!("record must be deleted"),
    }
    for a in &out.released {
        let mut d = ShareDir::new(a);
        d.used_by("night");
        assert_eq!(d.removed_by("night"), RegistryAction::DeleteDir);
    }
}

#[test]
fn remove_absent_sub_changes_nothing() {
    let pkg = staged("night", &["A"]);
    let (mut inst, _) = pkg.install("/themes");
    inst.add_sub("s1", &pkg, "/themes").unwrap();
    let r = inst.remove_sub("s2");
    assert!(r.removed.is_none());
    assert!(r.released.is_empty());
    assert_eq!(inst.pkgs().len(), 1);
    assert_eq!(inst.assets().clone(), vec!["/themes/A".to_string()]);
}

#[test]
fn removing_last_sub_deletes_record_and_releases_assets() {
    let pkg = staged("night", &["A"]);
    let (mut inst, _) = pkg.install("/themes");
    inst.add_sub("s1", &pkg, "/themes").unwrap();
    inst.add_sub("s2", &pkg, "/themes").unwrap();
    assert_eq!(inst.save("/store"), "/store/night.json");
    let r = inst.remove_sub("s1");
    assert_eq!(r.removed, Some("/themes/night.css".to_string()));
    assert!(r.released.is_empty());
    assert!(matches!(inst.sync_record("/store"), RecordAction::Write { .. }));
    let r = inst.remove_sub("s2");
    assert_eq!(r.removed, Some("/themes/night-dark.css".to_string()));
    assert_eq!(r.released, vec!["/themes/A".to_string()]);
    assert!(matches!(inst.sync_record("/store"), RecordAction::Delete { .. }));
}

#[test]
fn adding_an_undeclared_sub_fails() {
    let pkg = staged("night", &["A"]);
    let (mut inst, _) = pkg.install("/themes");
    assert_eq!(inst.add_sub("nope", &pkg, "/themes").unwrap_err(), PkgError::SubNotFound);
    assert!(inst.pkgs().is_empty());
}

#[test]
fn adding_a_sub_twice_keeps_one_record() {
    let pkg = staged("night", &["A"]);
    let (mut inst, _) = pkg.install("/themes");
    inst.add_sub("s1", &pkg, "/themes").unwrap();
    let plan = inst.add_sub("s1", &pkg, "/themes").unwrap();
    assert_eq!(plan.ops.len(), 1);
    assert_eq!(inst.pkgs().len(), 1);
}

#[test]
fn two_packages_share_one_icons_directory() {
    let p1 = staged("p1", &["icons"]);
    let p2 = staged("p2", &["icons"]);
    let (i1, pl1) = p1.install("/themes");
    let (i2, pl2) = p2.install("/themes");
    assert_eq!(pl1[0].dir, pl2[0].dir);
    let mut d = ShareDir::new(&pl1[0].dir);
    d.used_by(i1.id());
    d.used_by(i2.id());
    assert_eq!(d.removed_by(i1.id()), RegistryAction::Persist);
    assert_eq!(d.removed_by(i2.id()), RegistryAction::DeleteDir);
}

#[test]
fn defaults_must_be_declared() {
    let r = Manifest::new(
        "x".to_string(),
        "X".to_string(),
        "1".to_string(),
        zip_source(),
        vec![],
        vec![sub("s1", "a.css")],
        vec!["s9".to_string()],
    );
    assert_eq!(r.unwrap_err(), ManifestError::UnknownDefault);
}

#[test]
fn duplicate_installed_sub_is_rejected() {
    let subs = vec![
        InstalledSubPackage { id: "s".to_string(), file: "/a".to_string() },
        InstalledSubPackage { id: "s".to_string(), file: "/b".to_string() },
    ];
    let r = InstalledPackage::from_parts(
        "x".to_string(),
        "X".to_string(),
        "1".to_string(),
        vec![],
        subs,
    );
    assert_eq!(r.unwrap_err(), PkgError::DuplicateSub);
}

#[test]
fn fetch_plan_normalizes_paths() {
    let plan = zip_source().fetch_plan().unwrap();
    assert_eq!(plan.kind, UrlType::Zip);
    assert_eq!(plan.url, "https://example.com/t.zip");
    assert_eq!(plan.content, "t-main/theme");
    assert_eq!(
        plan.excludes,
        vec!["t-main/theme/docs".to_string(), "t-main/theme/y.css".to_string()]
    );
    let git = Source::Git(Git {
        url: "https://example.com/t.git".to_string(),
        content: "./a/../b".to_string(),
        excludes: vec![],
    });
    let plan = git.fetch_plan().unwrap();
    assert_eq!(plan.kind, UrlType::Git);
    assert_eq!(plan.content, "b");
    assert!(plan.excludes.is_empty());
}

#[test]
fn object_names_are_single_segments() {
    assert!(ObjName::new("icons").is_some());
    assert!(ObjName::new("").is_none());
    assert!(ObjName::new(".").is_none());
    assert!(ObjName::new("..").is_none());
    assert!(ObjName::new("a/b").is_none());
    assert!(ObjName::new("a\\b").is_none());
    assert!(ObjName::new("...").is_some());
    assert_eq!(ObjName::new(".fonts").unwrap().as_str(), ".fonts");
}

#[test]
fn paths_join_with_slash() {
    assert_eq!(join("/a", "b"), "/a/b");
    assert_eq!(manifest_file("/store", "night"), "/store/night.json");
}

#[test]
fn url_type_from_ending() {
    assert_eq!(UrlType::from_url("https://x/y.git"), Some(UrlType::Git));
    assert_eq!(UrlType::from_url("https://x/y.zip"), Some(UrlType::Zip));
    assert_eq!(UrlType::from_url("https://x/y"), None);
    assert_eq!(UrlType::from_url("zip"), None);
}

#[test]
fn layout_and_init() {
    let l = Layout::new("/data", "Typora");
    assert_eq!(l.typora, "/data/Typora");
    assert_eq!(l.themes, "/data/Typora/themes");
    assert_eq!(l.installed, "/data/Typora/themes/tytm-pkgs");
    assert_eq!(l.tytm, "/data/tytm");
    assert_eq!(l.manifests, "/data/tytm/manifest");
    let all = Probe { typora: true, themes: true, installed: true, tytm: true, manifests: true };
    assert!(init(&l, all).unwrap().is_empty());
    let fresh = Probe { installed: false, tytm: false, manifests: false, ..all };
    assert_eq!(
        init(&l, fresh).unwrap(),
        vec![l.installed.clone(), l.tytm.clone(), l.manifests.clone()]
    );
    assert_eq!(init(&l, Probe { typora: false, ..all }).unwrap_err(), InitError::EditorMissing);
    assert_eq!(init(&l, Probe { themes: false, ..all }).unwrap_err(), InitError::ThemesMissing);
}

#[test]
fn lists_find_add_and_remove() {
    let list = PkgList { version: 1, pkgs: vec![manifest("a", &[]), manifest("b", &[])] };
    assert_eq!(list.get_pkg("b").unwrap().id(), "b");
    assert!(list.get_pkg("c").is_none());
    let mut inst = InstalledPkgList::new();
    for id in ["a", "b", "a"] {
        let (p, _) = staged(id, &[]).install("/themes");
        inst.add_pkg(p);
    }
    assert_eq!(inst.get_pkg("b").unwrap().id(), "b");
    inst.rm_pkg("a");
    assert_eq!(inst.pkgs.len(), 1);
    assert!(inst.get_pkg("a").is_none());
}

#[test]
fn sub_file_move_is_planned() {
    let pkg = staged("night", &[]);
    let (mut inst, _) = pkg.install("/themes");
    let plan = inst.add_sub("s2", &pkg, "/themes").unwrap();
    match &plan.ops[0] {
        MoveOp::Rename { from, to } => {
            assert_eq!(from, "/tmp/stage/night-dark.css");
            assert_eq!(to, "/themes/night-dark.css");
        }
        _ => panic!("a file is renamed"),
    }
}

#[test]
fn fetch_plan_refuses_paths_leaving_the_fetch_dir() {
    let up = Source::Zip(Zip {
        url: "u".to_string(),
        content: "theme".to_string(),
        excludes: vec!["../../..".to_string()],
    });
    assert_eq!(up.fetch_plan().unwrap_err(), FetchError::LeavesFetchDir);
    let outside = Source::Git(Git {
        url: "u".to_string(),
        content: "../x".to_string(),
        excludes: vec![],
    });
    assert_eq!(outside.fetch_plan().unwrap_err(), FetchError::LeavesFetchDir);
    let inside = Source::Git(Git {
        url: "u".to_string(),
        content: "a".to_string(),
        excludes: vec!["b/../c".to_string(), "..d".to_string()],
    });
    let plan = inside.fetch_plan().unwrap();
    assert_eq!(plan.excludes, vec!["a/c".to_string(), "a/..d".to_string()]);
}

#[test]
fn duplicate_asset_names_are_rejected() {
    let r = Manifest::new(
        "x".to_string(),
        "X".to_string(),
        "1".to_string(),
        zip_source(),
        vec![name("icons"), name("fonts"), name("icons")],
        vec![sub("s1", "a.css")],
        vec!["s1".to_string()],
    );
    assert_eq!(r.unwrap_err(), ManifestError::DuplicateAsset);
}

#[test]
fn duplicate_installed_asset_is_rejected() {
    let r = InstalledPackage::from_parts(
        "x".to_string(),
        "X".to_string(),
        "1".to_string(),
        vec!["/t/a".to_string(), "/t/a".to_string()],
        vec![InstalledSubPackage { id: "s".to_string(), file: "/f".to_string() }],
    );
    assert_eq!(r.unwrap_err(), PkgError::DuplicateAsset);
}

#[test]
fn selected_subs_follow_defaults_then_asked() {
    let m = manifest("night", &[]);
    let asked = vec!["s2".to_string()];
    assert_eq!(m.selected_subs(&asked, false), vec!["s1".to_string(), "s2".to_string()]);
    assert_eq!(m.selected_subs(&asked, true), vec!["s2".to_string()]);
    assert_eq!(m.selected_subs(&vec![], false), vec!["s1".to_string()]);
}

#[test]
fn valid_record_loads_back() {
    let subs = vec![InstalledSubPackage { id: "s1".to_string(), file: "/t/n.css".to_string() }];
    let p = InstalledPackage::from_parts(
        "night".to_string(),
        "Night".to_string(),
        "1.0".to_string(),
        vec!["/t/A".to_string()],
        subs,
    )
    .unwrap();
    assert_eq!(p.id(), "night");
    assert_eq!(p.name(), "Night");
    assert_eq!(p.version(), "1.0");
    assert_eq!(p.assets().clone(), vec!["/t/A".to_string()]);
    assert_eq!(p.pkgs()[0].file, "/t/n.css");
}
