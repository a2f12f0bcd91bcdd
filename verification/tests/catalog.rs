use tango::loadout::{patch_names_for, GameId, PatchOffer};
use tango::package::{
    candidate, catalog_candidates, limit_sources, take_in, write_batch, BatchError, CatalogBuilder, Issue, PackageFacts, Source, MAX_BYTES, MAX_PACKAGES,
};
use tango::patch::{
    display_authors, index_path, index_validator, install_downloaded, installed_patches, is_package_file, package_path,
    store_index, uninstall as patch_uninstall, Download, DownloadError, Progress,
};
use tango::paths::StorePath;
use tango::package::install::{
    archive_path, existing_output, plan_install, uninstall, Existing, InstallError, OutputStep, UninstallError,
};
use tango::storage::{Entry, Listing, Memory, Storage, StorageError};

fn p(s: &str) -> StorePath {
    StorePath::parse(s)
}

fn v(s: &str) -> semver::Version {
    semver::Version::parse(s).unwrap()
}

fn facts(name: &str, version: &str, digest: u8, len: usize) -> PackageFacts {
    PackageFacts {
        name: name.to_string(),
        version: v(version),
        digest: vec![digest],
        byte_len: len,
        dependencies: Vec::new(),
    }
}

#[test]
fn candidates_follow_the_library_layout() {
    let root = p("packages");
    let dev = candidate(&root, &p("packages/directory/package.toml")).unwrap();
    assert!(dev.path.same(&p("packages/directory")));
    assert_eq!(dev.name, "directory");
    assert!(dev.version.is_none());
    let archive = candidate(&root, &p("packages/other/2.0.0.tangopkg")).unwrap();
    assert!(archive.path.same(&p("packages/other/2.0.0.tangopkg")));
    assert_eq!(archive.name, "other");
    assert_eq!(archive.version, Some(v("2.0.0")));
    assert!(candidate(&root, &p("packages/nested/other/1.0.0.tangopkg")).is_none());
    assert!(candidate(&root, &p("outside/other/1.0.0.tangopkg")).is_none());
    assert!(candidate(&root, &p("packages/other/notes.txt")).is_none());
    assert!(candidate(&root, &p("packages/other/not-a-version.tangopkg")).is_none());
    assert!(candidate(&root, &p("packages/loose.tangopkg")).is_none());
}

#[test]
fn conflicting_identities_are_quarantined_once() {
    let mut b = CatalogBuilder::new();
    b.add_package(facts("common", "1.0.0", 1, 10), Source::Bundled);
    b.add_package(facts("common", "1.0.0", 2, 10), Source::Archive(p("/pkgs/common/1.0.0.tangopkg")));
    b.add_package(facts("common", "1.0.0", 3, 10), Source::Directory(p("/pkgs/common")));
    b.add_package(facts("independent", "1.0.0", 1, 5), Source::Bundled);
    let catalog = b.finish();
    let entries = catalog.entries();
    assert_eq!(entries.len(), 2);
    assert!(entries[0].conflicted);
    assert_eq!(entries[0].facts.digest, vec![1]);
    assert_eq!(entries[0].sources.len(), 3);
    assert!(!entries[1].conflicted);
    let conflicts = catalog.issues().iter().filter(|i| matches!(i, Issue::Conflict { .. })).count();
    assert_eq!(conflicts, 1);
}

#[test]
fn the_same_package_found_twice_is_one_entry() {
    let mut b = CatalogBuilder::new();
    b.add_package(facts("a", "1.0.0", 7, 10), Source::Bundled);
    b.add_package(facts("a", "1.0.0", 7, 10), Source::Bundled);
    b.add_package(facts("a", "2.0.0", 7, 10), Source::Bundled);
    let catalog = b.finish();
    assert_eq!(catalog.entries().len(), 2);
    assert_eq!(catalog.entries()[0].sources.len(), 1);
    assert!(catalog.issues().is_empty());
}

#[test]
fn the_library_limits_hold() {
    let mut b = CatalogBuilder::new();
    b.add_package(facts("big", "1.0.0", 1, MAX_BYTES - 1), Source::Bundled);
    b.add_package(facts("more", "1.0.0", 1, 2), Source::Bundled);
    b.add_package(facts("fits", "1.0.0", 1, 1), Source::Bundled);
    assert!(b.within_limits());
    let catalog = b.finish();
    assert_eq!(catalog.entries().len(), 2);
    assert!(matches!(&catalog.issues()[0], Issue::OverLimits { name, .. } if name == "more"));

    let mut b = CatalogBuilder::new();
    for n in 0..MAX_PACKAGES + 1 {
        b.add_package(facts(&format!("p{n}"), "1.0.0", 1, 1), Source::Bundled);
    }
    let catalog = b.finish();
    assert_eq!(catalog.entries().len(), MAX_PACKAGES);
    assert_eq!(catalog.issues().len(), 1);
}

#[test]
fn removal_rechecks_exact_dependents_and_protects_non_archive_sources() {
    let mut ext = facts("extension", "1.0.0", 1, 1);
    ext.dependencies.push(("common".to_string(), v("1.0.0")));
    let mut other = facts("other", "1.0.0", 1, 1);
    other.dependencies.push(("common".to_string(), v("2.0.0")));
    let mut b = CatalogBuilder::new();
    b.add_package(facts("common", "1.0.0", 1, 1), Source::Archive(p("/pkgs/common/1.0.0.tangopkg")));
    b.add_package(ext, Source::Archive(p("/pkgs/extension/1.0.0.tangopkg")));
    b.add_package(other, Source::Archive(p("/pkgs/other/1.0.0.tangopkg")));
    b.add_package(facts("shared", "1.0.0", 1, 1), Source::Bundled);
    let catalog = b.finish();
    let blockers = catalog.removal_blockers(&"common".to_string(), &v("1.0.0"));
    assert_eq!(blockers, vec![("extension".to_string(), v("1.0.0"))]);
    assert!(catalog.removal_blockers(&"shared".to_string(), &v("1.0.0")).is_empty());
    assert!(catalog.dependents(&"common".to_string(), &v("2.0.0")).len() == 1);
}

/// A store in memory whose renames onto one path fail.
#[derive(Default)]
struct Injected {
    files: std::collections::BTreeMap<String, Vec<u8>>,
    fail_rename_to: Option<String>,
}

impl Storage for Injected {
    fn read(&self, path: &StorePath) -> Result<Vec<u8>, StorageError> {
        self.files.get(&path.to_string()).cloned().ok_or(StorageError::NotFound)
    }

    fn write(&mut self, path: &StorePath, data: &[u8]) -> Result<(), StorageError> {
        self.files.insert(path.to_string(), data.to_vec());
        Ok(())
    }

    fn remove_file(&mut self, path: &StorePath) -> Result<(), StorageError> {
        self.files.remove(&path.to_string()).map(|_| ()).ok_or(StorageError::NotFound)
    }

    fn create_dir_all(&mut self, _path: &StorePath) -> Result<(), StorageError> {
        Ok(())
    }

    fn rename(&mut self, from: &StorePath, to: &StorePath) -> Result<(), StorageError> {
        if self.fail_rename_to.as_deref() == Some(to.to_string().as_str()) {
            return Err(StorageError::Other("injected rename failure".to_string()));
        }
        let data = self.files.remove(&from.to_string()).ok_or(StorageError::NotFound)?;
        self.files.insert(to.to_string(), data);
        Ok(())
    }

    fn is_file(&self, path: &StorePath) -> bool {
        self.files.contains_key(&path.to_string())
    }
}

/// Plan an install of `selected` into `root`, keep what is already there,
/// and write the rest as one batch. An archive's "contents" here are its
/// digest.
fn install(store: &mut Injected, root: &StorePath, selected: &[PackageFacts]) -> Result<(), String> {
    let catalog = CatalogBuilder::new().finish();
    let listing = listing_of(&[]);
    let plan = plan_install(&catalog, &listing, root, selected).map_err(|e| e.message())?;
    let mut outputs = Vec::new();
    for (i, path) in plan {
        let existing = match store.read(&path) {
            Ok(bytes) => Existing::Found(bytes),
            Err(StorageError::NotFound) => Existing::Missing,
            Err(StorageError::Other(m)) => Existing::Unreadable(m),
        };
        match existing_output(&path, existing, &selected[i].digest) {
            OutputStep::Keep => {},
            OutputStep::Write => outputs.push((path, selected[i].digest.clone())),
            OutputStep::Refuse(m) | OutputStep::Fail(m) => return Err(m),
        }
    }
    write_batch(store, &outputs).map_err(|e| match e {
        BatchError::Write { error: StorageError::Other(m), .. } => m,
        other => format!("{other:?}"),
    })
}

#[test]
fn failed_batch_rolls_back_only_new_archives() {
    let root = p("packages");
    let mut store = Injected::default();
    store.write(&p("sources/common.tangopkg"), b"source").unwrap();
    let sources = [facts("common", "1.0.0", 7, 10), dep("extension", "1.0.0", "common", "1.0.0")];
    store.fail_rename_to = Some("packages/extension/1.0.0.tangopkg".to_string());
    let before = store.files.clone();
    let err = install(&mut store, &root, &sources).unwrap_err();
    assert!(err.contains("injected rename failure"));
    assert_eq!(store.files, before);
    // Retrying with a preexisting identical library must keep it.
    install(&mut store, &root, &sources[..1]).unwrap();
    assert_eq!(store.read(&p("packages/common/1.0.0.tangopkg")).unwrap(), vec![7]);
    let before = store.files.clone();
    assert!(install(&mut store, &root, &sources).is_err());
    assert_eq!(store.files, before);
}

#[test]
fn an_install_keeps_the_same_archive_and_refuses_other_contents() {
    let path = p("packages/common/1.0.0.tangopkg");
    assert!(matches!(existing_output(&path, Existing::Found(vec![7]), &[7]), OutputStep::Keep));
    assert!(matches!(existing_output(&path, Existing::Missing, &[7]), OutputStep::Write));
    assert!(matches!(existing_output(&path, Existing::Found(vec![8]), &[7]),
        OutputStep::Refuse(ref m) if m == "packages/common/1.0.0.tangopkg already has different contents"));
    assert!(matches!(existing_output(&path, Existing::Unreadable("bad archive".to_string()), &[7]),
        OutputStep::Fail(ref m) if m == "bad archive"));
}

#[test]
fn a_failed_batch_write_leaves_the_store_as_it_was() {
    let mut store = Memory::default();
    store.write(&p("/pkgs/old/1.0.0.tangopkg"), b"old").unwrap();
    let outputs = vec![
        (p("/pkgs/a/1.0.0.tangopkg"), b"a".to_vec()),
        (p("/pkgs/b/1.0.0.tangopkg"), b"b".to_vec()),
    ];
    write_batch(&mut store, &outputs).unwrap();
    assert_eq!(store.read(&p("/pkgs/a/1.0.0.tangopkg")).unwrap(), b"a");
    assert_eq!(store.len(), 3);

    let failing = vec![(p("/pkgs/c/1.0.0.tangopkg"), b"c".to_vec()), (p("/"), b"x".to_vec())];
    let err = write_batch(&mut store, &failing).unwrap_err();
    assert!(matches!(err, BatchError::Write { index: 1, .. }));
    assert_eq!(store.len(), 3);
    assert!(matches!(store.read(&p("/pkgs/c/1.0.0.tangopkg")), Err(StorageError::NotFound)));
    assert_eq!(store.read(&p("/pkgs/old/1.0.0.tangopkg")).unwrap(), b"old");
    assert_eq!(store.read(&p("/pkgs/a/1.0.0.tangopkg")).unwrap(), b"a");
    assert_eq!(store.read(&p("/pkgs/b/1.0.0.tangopkg")).unwrap(), b"b");
}

#[test]
fn authors_show_by_name() {
    let shown = display_authors(&[
        "Someone <someone@example.com>".to_string(),
        "plain@example.com".to_string(),
        "A <a@x.com>, b@y.com".to_string(),
        "not an address".to_string(),
    ]);
    assert_eq!(shown[0], "Someone");
    assert_eq!(shown[1], "plain@example.com");
    assert_eq!(shown[2], "A, b@y.com");
    assert_eq!(shown[3], "not an address");
}

fn game(f: &str, v: u8) -> GameId {
    GameId {
        family: f.to_string(),
        variant: v,
    }
}

#[test]
fn picker_names_favorites_first_then_alphabetical() {
    let offers = vec![
        PatchOffer {
            name: "zeta".to_string(),
            versions: vec![vec![game("bn6", 0)]],
        },
        PatchOffer {
            name: "alpha".to_string(),
            versions: vec![vec![game("bn5", 0)], vec![game("bn6", 1)]],
        },
        PatchOffer {
            name: "beta".to_string(),
            versions: vec![vec![game("bn6", 0)]],
        },
        PatchOffer {
            name: "unrelated".to_string(),
            versions: vec![vec![game("bn3", 0)]],
        },
        PatchOffer {
            name: "beta".to_string(),
            versions: vec![vec![game("bn6", 0)]],
        },
    ];
    let games = [game("bn6", 0), game("bn6", 1)];
    let names = patch_names_for(&offers, &games, &["zeta".to_string()]);
    assert_eq!(names, vec!["zeta", "alpha", "beta"]);
    assert!(patch_names_for(&offers, &[], &[]).is_empty());
}

fn dep(name: &str, version: &str, on: &str, on_version: &str) -> PackageFacts {
    let mut f = facts(name, version, 1, 10);
    f.dependencies.push((on.to_string(), v(on_version)));
    f
}

fn listing_of(paths: &[&str]) -> Listing {
    Listing::new(paths.iter().map(|s| Entry { path: p(s), len: 1, modified: None }).collect())
}

#[test]
fn archives_live_under_their_name_and_version() {
    let path = archive_path(&p("packages"), "common", &v("1.2.3-beta.1"));
    assert!(path.same(&p("packages/common/1.2.3-beta.1.tangopkg")));
}

#[test]
fn a_selection_must_name_between_one_and_the_limit_of_packages() {
    let catalog = CatalogBuilder::new().finish();
    let none = plan_install(&catalog, &listing_of(&[]), &p("packages"), &[]);
    assert!(matches!(none, Err(InstallError::SelectionSize)));
    assert_eq!(InstallError::SelectionSize.message(), "select between 1 and 256 packages");
    let many: Vec<PackageFacts> = (0..=MAX_PACKAGES).map(|i| facts(&format!("p{i}"), "1.0.0", 1, 1)).collect();
    let too_many = plan_install(&catalog, &listing_of(&[]), &p("packages"), &many);
    assert!(matches!(too_many, Err(InstallError::SelectionSize)));
}

#[test]
fn a_plan_installs_in_name_then_version_order() {
    let catalog = CatalogBuilder::new().finish();
    let selected = [
        dep("extension", "1.0.0", "common", "1.0.0"),
        facts("common", "2.0.0", 9, 10),
        facts("common", "1.0.0", 7, 10),
    ];
    let plan = plan_install(&catalog, &listing_of(&[]), &p("packages"), &selected).unwrap();
    let order: Vec<usize> = plan.iter().map(|(i, _)| *i).collect();
    assert_eq!(order, vec![2, 1, 0]);
    assert!(plan[0].1.same(&p("packages/common/1.0.0.tangopkg")));
    assert!(plan[1].1.same(&p("packages/common/2.0.0.tangopkg")));
    assert!(plan[2].1.same(&p("packages/extension/1.0.0.tangopkg")));
}

#[test]
fn picking_the_same_package_twice_installs_it_once() {
    let catalog = CatalogBuilder::new().finish();
    let selected = [facts("common", "1.0.0", 7, 10), facts("common", "1.0.0", 7, 10)];
    let plan = plan_install(&catalog, &listing_of(&[]), &p("packages"), &selected).unwrap();
    assert_eq!(plan.len(), 1);
    assert_eq!(plan[0].0, 1);
}

#[test]
fn a_pick_with_other_contents_than_the_library_is_refused() {
    let mut b = CatalogBuilder::new();
    b.add_package(facts("common", "1.0.0", 7, 10), Source::Bundled);
    let catalog = b.finish();
    let same = plan_install(&catalog, &listing_of(&[]), &p("packages"), &[facts("common", "1.0.0", 7, 10)]);
    assert!(same.is_ok());
    let altered = plan_install(&catalog, &listing_of(&[]), &p("packages"), &[facts("common", "1.0.0", 8, 10)]);
    let err = altered.unwrap_err();
    assert!(matches!(&err, InstallError::DifferentContents { name, .. } if name == "common"));
    assert_eq!(err.message(), "common 1.0.0 already has different contents; increment the package version");
    // Picks are checked against the ones before them too.
    let clash = plan_install(
        &catalog,
        &listing_of(&[]),
        &p("packages"),
        &[facts("other", "1.0.0", 1, 1), facts("other", "1.0.0", 2, 1)],
    );
    assert!(matches!(clash, Err(InstallError::DifferentContents { .. })));
}

#[test]
fn a_quarantined_identity_cannot_be_installed_over() {
    let mut b = CatalogBuilder::new();
    b.add_package(facts("common", "1.0.0", 1, 10), Source::Bundled);
    b.add_package(facts("common", "1.0.0", 2, 10), Source::Directory(p("packages/common")));
    let catalog = b.finish();
    let r = plan_install(&catalog, &listing_of(&[]), &p("packages"), &[facts("common", "1.0.0", 1, 10)]);
    assert!(matches!(r, Err(InstallError::DifferentContents { .. })));
}

#[test]
fn selections_and_libraries_stay_within_their_limits() {
    let catalog = CatalogBuilder::new().finish();
    let half = MAX_BYTES / 2 + 1;
    let big = plan_install(
        &catalog,
        &listing_of(&[]),
        &p("packages"),
        &[facts("a", "1.0.0", 1, half), facts("b", "1.0.0", 1, half)],
    );
    assert!(matches!(big, Err(InstallError::SelectionTooLarge)));
    let mut b = CatalogBuilder::new();
    b.add_package(facts("bundled", "1.0.0", 1, MAX_BYTES - 1), Source::Bundled);
    let full = b.finish();
    let over = plan_install(&full, &listing_of(&[]), &p("packages"), &[facts("new", "1.0.0", 1, 2)]);
    assert!(matches!(over, Err(InstallError::OverLimits)));
    assert_eq!(InstallError::OverLimits.message(), "installation exceeds the package library limits");
}

#[test]
fn removal_protects_dependents_and_non_archive_copies() {
    let root = p("packages");
    let archive = p("packages/common/1.0.0.tangopkg");
    let mut b = CatalogBuilder::new();
    b.add_package(facts("common", "1.0.0", 7, 10), Source::Archive(archive.copy()));
    b.add_package(dep("extension", "1.0.0", "common", "1.0.0"), Source::Bundled);
    let catalog = b.finish();
    let mut store = Memory::default();
    store.write(&archive, b"pkg").unwrap();
    let blocked = uninstall(&mut store, &catalog, &root, &"common".to_string(), &v("1.0.0")).unwrap_err();
    assert_eq!(blocked.message(), "package is required by extension 1.0.0");
    assert_eq!(store.read(&archive).unwrap(), b"pkg".to_vec());
    let bundled = uninstall(&mut store, &catalog, &root, &"extension".to_string(), &v("1.0.0")).unwrap_err();
    assert!(matches!(bundled, UninstallError::NotAnArchive));
    let missing = uninstall(&mut store, &catalog, &root, &"nothing".to_string(), &v("1.0.0")).unwrap_err();
    assert_eq!(missing.message(), "package is not installed");

    let mut b = CatalogBuilder::new();
    b.add_package(facts("common", "1.0.0", 7, 10), Source::Archive(archive.copy()));
    let alone = b.finish();
    uninstall(&mut store, &alone, &root, &"common".to_string(), &v("1.0.0")).unwrap();
    assert!(store.read(&archive).is_err());
}

#[test]
fn patch_packages_live_beside_each_other() {
    let path = package_path(&p("patches"), "bn6_test", &v("1.0.0"));
    assert!(path.same(&p("patches/bn6_test-1.0.0.tangopatch")));
    assert!(is_package_file(&path));
    assert!(!is_package_file(&p("patches/index.json")));
    assert!(!is_package_file(&p("patches/README")));
}

#[test]
fn a_scan_groups_packages_by_name_then_version() {
    let keys = vec![
        ("b".to_string(), v("1.0.0")),
        ("a".to_string(), v("2.0.0")),
        ("a".to_string(), v("1.0.0")),
        ("b".to_string(), v("1.0.0")),
        ("a".to_string(), v("1.10.0")),
    ];
    let patches = installed_patches(&keys);
    assert_eq!(patches.len(), 2);
    assert_eq!(patches[0].name, "a");
    assert_eq!(patches[0].versions, vec![2, 4, 1]);
    assert_eq!(patches[1].name, "b");
    // The later package of the same version takes the earlier one's place.
    assert_eq!(patches[1].versions, vec![3]);
}

#[test]
fn the_index_validator_needs_the_index_it_describes() {
    let patches = p("/patches");
    let mut store = Memory::default();
    store.write(&p("/patches/index.etag"), b"  \"abc\"\n").unwrap();
    assert_eq!(index_validator(&store, &patches).unwrap(), None);
    store.write(&index_path(&patches), b"{}").unwrap();
    assert_eq!(index_validator(&store, &patches).unwrap(), Some("\"abc\"".to_string()));
}

#[test]
fn a_fetched_index_is_kept_with_its_etag() {
    let patches = p("/patches");
    let mut store = Memory::default();
    store_index(&mut store, &patches, Some("v1".to_string()), b"{\"a\":1}").unwrap();
    assert_eq!(store.read(&p("/patches/index.json")).unwrap(), b"{\"a\":1}".to_vec());
    assert_eq!(store.read(&p("/patches/index.etag")).unwrap(), b"v1".to_vec());
    store_index(&mut store, &patches, None, b"{}").unwrap();
    assert!(!store.is_file(&p("/patches/index.etag")));
    assert_eq!(index_validator(&store, &patches).unwrap(), None);
}

#[test]
fn a_download_must_be_what_it_says_it_is() {
    let patches = p("/patches");
    let mut store = Memory::default();
    let err = install_downloaded(&mut store, &patches, "bn6_one", Ok(()), &v("1.0.0"), b"pkg", "bn6_two", &v("1.0.0"))
        .unwrap_err();
    assert!(matches!(err, DownloadError::WrongPackage { ref actual, .. } if actual == "bn6_two 1.0.0"));
    assert!(!store.is_file(&p("/patches/bn6_one-1.0.0.tangopatch")));
    install_downloaded(&mut store, &patches, "bn6_one", Ok(()), &v("1.0.0"), b"pkg", "bn6_one", &v("1.0.0")).unwrap();
    assert_eq!(store.read(&p("/patches/bn6_one-1.0.0.tangopatch")).unwrap(), b"pkg".to_vec());
    patch_uninstall(&mut store, &patches, "bn6_one", Ok(()), &v("1.0.0")).unwrap();
    assert!(!store.is_file(&p("/patches/bn6_one-1.0.0.tangopatch")));
}

#[test]
fn a_bad_patch_name_is_refused_before_any_path_is_built() {
    let patches = p("/patches");
    let mut store = Memory::default();
    let err = install_downloaded(
        &mut store,
        &patches,
        "../escape",
        Err("name has a separator".to_string()),
        &v("1.0.0"),
        b"pkg",
        "../escape",
        &v("1.0.0"),
    )
    .unwrap_err();
    assert!(matches!(err, DownloadError::BadName(ref m) if m == "name has a separator"));
    assert_eq!(store.len(), 0);
    install_downloaded(&mut store, &patches, "bn6_one", Ok(()), &v("1.0.0"), b"pkg", "bn6_one", &v("1.0.0")).unwrap();
    let err = patch_uninstall(&mut store, &patches, "bn6_one", Err("bad".to_string()), &v("1.0.0")).unwrap_err();
    assert!(matches!(err, DownloadError::BadName(ref m) if m == "bad"));
    assert!(store.is_file(&p("/patches/bn6_one-1.0.0.tangopatch")));
}

#[test]
fn download_progress_reads_in_whole_percent() {
    assert_eq!(Download::Running(Progress { downloaded: 50, total: 200 }).percent(), Some(25));
    assert_eq!(Download::Running(Progress { downloaded: 50, total: 0 }).percent(), None);
    assert_eq!(Download::Failed.percent(), None);
    assert!(Download::Running(Progress { downloaded: 0, total: 0 }).is_running());
    assert!(!Download::Failed.is_running());
}

#[test]
fn a_path_without_a_file_name_is_refused_by_name() {
    let mut store = Memory::default();
    let err = tango::storage::write_atomic(&mut store, &p("/"), b"x").unwrap_err();
    assert_eq!(err, StorageError::Other("no file name".to_string()));
    assert_eq!(store.len(), 0);
}

#[test]
fn a_listing_offers_each_source_once_in_path_order() {
    let listing = listing_of(&[
        "packages/b/1.0.0.tangopkg",
        "packages/a/package.toml",
        "packages/a/1.0.0.tangopkg",
        "packages/a/package.toml",
        "packages/a/readme.txt",
        "elsewhere/c/1.0.0.tangopkg",
    ]);
    let found = catalog_candidates(&p("packages"), &listing);
    assert_eq!(found.len(), 3);
    assert!(found[0].path.same(&p("packages/a")));
    assert!(found[0].version.is_none());
    assert!(found[1].path.same(&p("packages/a/1.0.0.tangopkg")));
    assert_eq!(found[1].version, Some(v("1.0.0")));
    assert!(found[2].path.same(&p("packages/b/1.0.0.tangopkg")));
    assert_eq!(found[2].name, "b");
}

#[test]
fn sources_beyond_the_limit_are_dropped_and_reported() {
    let names: Vec<String> = (0..MAX_PACKAGES + 2).map(|n| format!("packages/p{n:04}/1.0.0.tangopkg")).collect();
    let refs: Vec<&str> = names.iter().map(|s| s.as_str()).collect();
    let mut found = catalog_candidates(&p("packages"), &listing_of(&refs));
    assert_eq!(found.len(), MAX_PACKAGES + 2);
    let mut b = CatalogBuilder::new();
    limit_sources(&mut b, &mut found);
    assert_eq!(found.len(), MAX_PACKAGES);
    assert_eq!(found[0].name, "p0000");
    assert_eq!(found[MAX_PACKAGES - 1].name, format!("p{:04}", MAX_PACKAGES - 1));
    let catalog = b.finish();
    assert_eq!(catalog.issues().len(), 1);
    assert!(matches!(catalog.issues()[0], Issue::TooManySources));

    let mut few = catalog_candidates(&p("packages"), &listing_of(&refs[..3]));
    let mut b = CatalogBuilder::new();
    limit_sources(&mut b, &mut few);
    assert_eq!(few.len(), 3);
    assert!(b.finish().issues().is_empty());
}

#[test]
fn a_package_is_taken_in_only_under_its_own_name_and_version() {
    let root = p("packages");
    let archive = candidate(&root, &p("packages/common/1.0.0.tangopkg")).unwrap();
    let dev = candidate(&root, &p("packages/tool/package.toml")).unwrap();
    let mut b = CatalogBuilder::new();
    take_in(&mut b, &archive, Err("syntax error".to_string()));
    take_in(&mut b, &archive, Ok(facts("common", "2.0.0", 1, 10)));
    take_in(&mut b, &archive, Ok(facts("other", "1.0.0", 1, 10)));
    take_in(&mut b, &dev, Ok(facts("tool", "3.1.0", 1, 10)));
    take_in(&mut b, &archive, Ok(facts("common", "1.0.0", 1, 10)));
    let catalog = b.finish();
    let issues = catalog.issues();
    assert_eq!(issues.len(), 3);
    assert!(matches!(&issues[0], Issue::Unloadable { path, message }
        if path.same(&p("packages/common/1.0.0.tangopkg")) && message == "syntax error"));
    for issue in &issues[1..] {
        assert!(matches!(issue, Issue::Unloadable { message, .. }
            if message == "package name/version does not match its installed path"));
    }
    let entries = catalog.entries();
    assert_eq!(entries.len(), 2);
    let common = entries.iter().find(|e| e.facts.name == "common").unwrap();
    assert_eq!(common.facts.version, v("1.0.0"));
    assert!(matches!(&common.sources[0], Source::Archive(path) if path.same(&p("packages/common/1.0.0.tangopkg"))));
    let tool = entries.iter().find(|e| e.facts.name == "tool").unwrap();
    assert!(matches!(&tool.sources[0], Source::Directory(path) if path.same(&p("packages/tool"))));
}

#[test]
fn a_catalog_lists_packages_by_name_then_version() {
    let mut b = CatalogBuilder::new();
    b.add_package(facts("b", "1.0.0", 1, 1), Source::Bundled);
    b.add_package(facts("a", "2.0.0", 1, 1), Source::Bundled);
    b.add_package(facts("a", "1.10.0", 1, 1), Source::Bundled);
    b.add_package(facts("a", "1.2.0", 1, 1), Source::Bundled);
    b.add_package(facts("a", "1.2.0-rc.1", 1, 1), Source::Bundled);
    let catalog = b.finish();
    let keys: Vec<(String, String)> =
        catalog.entries().iter().map(|e| (e.facts.name.clone(), e.facts.version.to_string())).collect();
    let expected = [("a", "1.2.0-rc.1"), ("a", "1.2.0"), ("a", "1.10.0"), ("a", "2.0.0"), ("b", "1.0.0")];
    assert_eq!(keys, expected.iter().map(|(n, v)| (n.to_string(), v.to_string())).collect::<Vec<_>>());
}

#[test]
fn issues_read_as_the_library_reports_them() {
    let conflict = Issue::Conflict { name: "common".to_string(), version: v("1.0.0") };
    assert_eq!(conflict.message(), "common 1.0.0 has conflicting contents; use a new version");
    let over = Issue::OverLimits { name: "big".to_string(), version: v("2.0.0-rc.1") };
    assert_eq!(over.message(), "big 2.0.0-rc.1 exceeds the package library limits");
    assert_eq!(Issue::TooManySources.message(), format!("package library contains more than {MAX_PACKAGES} sources"));
    let unloadable = Issue::Unloadable { path: p("packages/common/1.0.0.tangopkg"), message: "bad manifest".to_string() };
    assert_eq!(unloadable.message(), "packages/common/1.0.0.tangopkg: bad manifest");
}
