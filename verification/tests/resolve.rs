use vpai::environment::Environment;
use vpai::headers::Headers;
use vpai::manifest::{Dependency, PackageManifest};
use vpai::range::{Comparator, ComparatorSet, Operator, VersionRange, VersionSelector};
use vpai::repository::LocalCachedRepository;
use vpai::resolver::{AddPackageErr, LockedPackage, PackageRequest, UnityProject};
use vpai::version::{Identifier, VersionNumber};

fn v(major: u64, minor: u64, patch: u64) -> VersionNumber {
    VersionNumber::new(major, minor, patch)
}

fn at_least(low: VersionNumber) -> VersionRange {
    VersionRange::new(vec![ComparatorSet::new(vec![Comparator::new(Operator::GreaterEq, low)])])
}

fn between(low: VersionNumber, high: VersionNumber) -> VersionRange {
    VersionRange::new(vec![ComparatorSet::new(vec![
        Comparator::new(Operator::GreaterEq, low),
        Comparator::new(Operator::Less, high),
    ])])
}

fn manifest(name: &str, version: VersionNumber, deps: Vec<(&str, VersionRange)>) -> PackageManifest {
    let dependencies = deps
        .into_iter()
        .map(|(n, r)| Dependency::new(n.to_string(), r))
        .collect();
    PackageManifest::new(
        name.to_string(),
        version,
        dependencies,
        vec![],
        vec![],
        format!("https://example.com/{}.zip", name),
    )
    .unwrap()
}

fn with_legacy(mut m: PackageManifest, folders: &[&str], files: &[&str]) -> PackageManifest {
    m.legacy_folders = folders.iter().map(|s| s.to_string()).collect();
    m.legacy_files = files.iter().map(|s| s.to_string()).collect();
    m
}

fn env_of(repositories: Vec<Vec<PackageManifest>>) -> Environment {
    let mut env = Environment::new(None, vec![], vec![]);
    for (i, packages) in repositories.into_iter().enumerate() {
        let repo = LocalCachedRepository::new(packages, None, Headers::new()).unwrap();
        env.repo_holder.insert(format!("Repos/{}.json", i), repo);
    }
    env
}

fn project(locked: Vec<(&str, VersionNumber)>) -> UnityProject {
    let locked = locked
        .into_iter()
        .map(|(n, version)| LockedPackage { name: n.to_string(), version })
        .collect();
    UnityProject::new(locked, vec![], "/project".to_string()).unwrap()
}

fn ask(name: &str, selector: VersionSelector) -> PackageRequest {
    PackageRequest { name: name.to_string(), selector }
}

fn names_and_versions(plan: &vpai::resolver::AddPackageRequest) -> Vec<(String, String)> {
    plan.locked()
        .iter()
        .map(|p| (p.name.clone(), p.version.to_text()))
        .collect()
}

fn pair(name: &str, version: &str) -> (String, String) {
    (name.to_string(), version.to_string())
}

#[test]
fn range_request_resolves_to_the_greatest_version_in_range() {
    let env = env_of(vec![vec![
        manifest("Foo", v(1, 0, 0), vec![]),
        manifest("Foo", v(1, 2, 0), vec![]),
    ]]);
    let found = env
        .find_package_by_name(
            &"Foo".to_string(),
            &VersionSelector::range(between(v(1, 0, 0), v(2, 0, 0)), false),
        )
        .unwrap();
    assert_eq!(found.version().to_text(), "1.2.0");

    let project = project(vec![]);
    let requests = vec![ask("Foo", VersionSelector::range(between(v(1, 0, 0), v(2, 0, 0)), false))];
    let plan = project.add_package_request(&env, &requests, false, &vec![]).unwrap();
    assert_eq!(names_and_versions(&plan), vec![pair("Foo", "1.2.0")]);
    assert_eq!(plan.dependencies().len(), 1);
    assert_eq!(plan.dependencies()[0].name, "Foo");
    assert_eq!(plan.dependencies()[0].range.to_text(), ">=1.0.0 <2.0.0");
    assert!(plan.legacy_folders().is_empty());
    assert!(plan.legacy_files().is_empty());
}

#[test]
fn dependency_outside_of_a_locked_version_is_a_conflict() {
    let env = env_of(vec![vec![
        manifest("Bar", v(1, 0, 0), vec![("Foo", at_least(v(2, 0, 0)))]),
        manifest("Foo", v(1, 0, 0), vec![]),
        manifest("Foo", v(2, 0, 0), vec![]),
    ]]);
    let project = project(vec![("Foo", v(1, 0, 0))]);
    let requests = vec![ask("Bar", VersionSelector::exact(v(1, 0, 0)))];
    match project.add_package_request(&env, &requests, false, &vec![]) {
        Err(AddPackageErr::VersionConflict { name, range, locked }) => {
            assert_eq!(name, "Foo");
            assert_eq!(range.to_text(), ">=2.0.0");
            assert_eq!(locked.to_text(), "1.0.0");
        }
        other => panic!("expected a conflict, got {:?}", other),
    }
}

#[test]
fn request_without_a_repository_entry_is_not_found() {
    let env = env_of(vec![vec![manifest("Foo", v(1, 0, 0), vec![])]]);
    let project = project(vec![]);
    let requests = vec![ask("Nope", VersionSelector::latest(false))];
    match project.add_package_request(&env, &requests, false, &vec![]) {
        Err(AddPackageErr::PackageNotFound { name, selector }) => {
            assert_eq!(name, "Nope");
            assert!(matches!(selector.kind, vpai::range::SelectorKind::Latest));
        }
        other => panic!("expected not found, got {:?}", other),
    }
    // a version that no repository holds
    let requests = vec![ask("Foo", VersionSelector::exact(v(9, 0, 0)))];
    assert!(matches!(
        project.add_package_request(&env, &requests, false, &vec![]),
        Err(AddPackageErr::PackageNotFound { .. })
    ));
    // no repositories at all
    let empty = env_of(vec![]);
    let requests = vec![ask("Foo", VersionSelector::latest(true))];
    assert!(matches!(
        project.add_package_request(&empty, &requests, false, &vec![]),
        Err(AddPackageErr::PackageNotFound { .. })
    ));
}

#[test]
fn missing_dependency_is_not_found() {
    let env = env_of(vec![vec![manifest("Bar", v(1, 0, 0), vec![("Gone", at_least(v(1, 0, 0)))])]]);
    let project = project(vec![]);
    let requests = vec![ask("Bar", VersionSelector::latest(false))];
    match project.add_package_request(&env, &requests, false, &vec![]) {
        Err(AddPackageErr::PackageNotFound { name, selector }) => {
            assert_eq!(name, "Gone");
            assert!(!selector.include_prerelease);
            assert_eq!(selector.to_range().to_text(), ">=1.0.0");
        }
        other => panic!("expected not found, got {:?}", other),
    }
}

#[test]
fn request_that_matches_the_lock_needs_no_changes() {
    let env = env_of(vec![vec![manifest("Foo", v(1, 0, 0), vec![])]]);
    let project = project(vec![("Foo", v(1, 0, 0))]);
    let requests = vec![ask("Foo", VersionSelector::exact(v(1, 0, 0)))];
    assert!(matches!(
        project.add_package_request(&env, &requests, false, &vec!["Assets/OldFoo".to_string()]),
        Err(AddPackageErr::NoChangesNeeded)
    ));
    // nothing asked for: nothing to do
    assert!(matches!(
        project.add_package_request(&env, &vec![], false, &vec![]),
        Err(AddPackageErr::NoChangesNeeded)
    ));
}

#[test]
fn existing_unclaimed_legacy_folder_is_removed() {
    let foo = with_legacy(
        manifest("Foo", v(1, 0, 0), vec![]),
        &["Assets/OldFoo", "Assets/Absent", "Packages/Foo/Old", "Packages/Foo", "Assets/OldFoo"],
        &["Assets/old.dll", "Assets/absent.dll"],
    );
    let env = env_of(vec![vec![foo]]);
    let project = project(vec![]);
    let requests = vec![ask("Foo", VersionSelector::latest(false))];
    let existing = vec![
        "Assets/OldFoo".to_string(),
        "Assets/old.dll".to_string(),
        "Packages/Foo/Old".to_string(),
        "Packages/Foo".to_string(),
        "Assets/Unrelated".to_string(),
    ];
    let plan = project.add_package_request(&env, &requests, false, &existing).unwrap();
    assert_eq!(plan.legacy_folders(), &vec!["Assets/OldFoo".to_string()]);
    assert_eq!(plan.legacy_files(), &vec!["Assets/old.dll".to_string()]);
}

#[test]
fn legacy_paths_of_packages_that_stay_as_they_are_remain() {
    let foo = with_legacy(manifest("Foo", v(1, 0, 0), vec![]), &["Assets/OldFoo"], &[]);
    let bar = manifest("Bar", v(1, 0, 0), vec![]);
    let env = env_of(vec![vec![foo, bar]]);
    let project = project(vec![("Foo", v(1, 0, 0))]);
    let requests = vec![
        ask("Foo", VersionSelector::latest(false)),
        ask("Bar", VersionSelector::latest(false)),
    ];
    let plan = project
        .add_package_request(&env, &requests, false, &vec!["Assets/OldFoo".to_string()])
        .unwrap();
    assert!(plan.legacy_folders().is_empty());
    assert_eq!(names_and_versions(&plan), vec![pair("Foo", "1.0.0"), pair("Bar", "1.0.0")]);
    let new: Vec<String> = plan.new_packages(&project).iter().map(|p| p.name.clone()).collect();
    assert_eq!(new, vec!["Bar"]);
    assert_eq!(project.locked_packages().len(), 1);
    assert_eq!(project.root_path(), "/project");
    assert!(project.direct_dependencies().is_empty());
}

#[test]
fn plan_is_closed_under_dependencies() {
    let env = env_of(vec![
        vec![
            manifest("A", v(1, 0, 0), vec![("B", at_least(v(1, 0, 0))), ("C", between(v(1, 0, 0), v(2, 0, 0)))]),
            manifest("B", v(1, 0, 0), vec![("D", at_least(v(0, 1, 0)))]),
            manifest("B", v(1, 5, 0), vec![("D", at_least(v(0, 2, 0))), ("C", at_least(v(1, 0, 0)))]),
        ],
        vec![
            manifest("C", v(1, 1, 0), vec![]),
            manifest("C", v(2, 0, 0), vec![]),
            manifest("D", v(0, 2, 0), vec![("A", at_least(v(1, 0, 0)))]),
            manifest("D", v(0, 1, 0), vec![]),
        ],
    ]);
    let project = project(vec![("Keep", v(3, 0, 0))]);
    let requests = vec![ask("A", VersionSelector::latest(false))];
    let plan = project.add_package_request(&env, &requests, false, &vec![]).unwrap();
    assert_eq!(
        names_and_versions(&plan),
        vec![
            pair("Keep", "3.0.0"),
            pair("A", "1.0.0"),
            pair("B", "1.5.0"),
            pair("C", "1.1.0"),
            pair("D", "0.2.0"),
        ]
    );
    for package in plan.locked() {
        if let Some(m) = package.manifest {
            assert_eq!(m.name(), package.name);
            assert!(m.version().equals(package.version));
            for dependency in m.dependencies() {
                assert!(plan
                    .locked()
                    .iter()
                    .any(|p| *p.name == dependency.name && dependency.range.matches(p.version)));
            }
        }
    }
    assert!(plan.locked()[0].manifest.is_none());
}

#[test]
fn resolving_twice_gives_the_same_plan() {
    let env = env_of(vec![vec![
        with_legacy(
            manifest("A", v(1, 0, 0), vec![("B", at_least(v(1, 0, 0)))]),
            &["Assets/A"],
            &["Assets/a.txt"],
        ),
        manifest("B", v(1, 0, 0), vec![]),
        manifest("B", v(1, 1, 0), vec![]),
    ]]);
    let project = project(vec![("Z", v(1, 0, 0))]);
    let requests = vec![ask("A", VersionSelector::latest(false))];
    let existing = vec!["Assets/A".to_string(), "Assets/a.txt".to_string()];
    let first = project.add_package_request(&env, &requests, false, &existing).unwrap();
    let second = project.add_package_request(&env, &requests, false, &existing).unwrap();
    assert_eq!(format!("{:?}", first), format!("{:?}", second));
    assert_eq!(names_and_versions(&first), names_and_versions(&second));
}

#[test]
fn a_request_lifts_a_locked_package_in_its_place() {
    let env = env_of(vec![vec![
        manifest("Foo", v(1, 0, 0), vec![]),
        manifest("Foo", v(1, 2, 0), vec![]),
    ]]);
    let project = project(vec![("First", v(1, 0, 0)), ("Foo", v(1, 0, 0)), ("Last", v(1, 0, 0))]);
    let requests = vec![ask("Foo", VersionSelector::latest(false))];
    let plan = project.add_package_request(&env, &requests, false, &vec![]).unwrap();
    assert_eq!(
        names_and_versions(&plan),
        vec![pair("First", "1.0.0"), pair("Foo", "1.2.0"), pair("Last", "1.0.0")]
    );
}

#[test]
fn a_dependency_keeps_the_version_that_is_locked() {
    let env = env_of(vec![vec![
        manifest("Bar", v(1, 0, 0), vec![("Foo", at_least(v(1, 0, 0)))]),
        manifest("Foo", v(1, 0, 0), vec![]),
        manifest("Foo", v(1, 9, 0), vec![]),
    ]]);
    let project = project(vec![("Foo", v(1, 0, 0))]);
    let requests = vec![ask("Bar", VersionSelector::latest(false))];
    let plan = project.add_package_request(&env, &requests, false, &vec![]).unwrap();
    assert_eq!(names_and_versions(&plan), vec![pair("Foo", "1.0.0"), pair("Bar", "1.0.0")]);
}

#[test]
fn a_package_asked_for_twice_is_looked_up_once() {
    let env = env_of(vec![vec![
        manifest("Foo", v(1, 0, 0), vec![]),
        manifest("Foo", v(1, 2, 0), vec![]),
    ]]);
    let project = project(vec![]);
    let requests = vec![
        ask("Foo", VersionSelector::exact(v(1, 0, 0))),
        ask("Foo", VersionSelector::latest(false)),
    ];
    let plan = project.add_package_request(&env, &requests, false, &vec![]).unwrap();
    assert_eq!(names_and_versions(&plan), vec![pair("Foo", "1.0.0")]);
    assert_eq!(plan.dependencies().len(), 1);
    let clash = vec![
        ask("Foo", VersionSelector::exact(v(1, 0, 0))),
        ask("Foo", VersionSelector::exact(v(1, 2, 0))),
    ];
    match project.add_package_request(&env, &clash, false, &vec![]) {
        Err(AddPackageErr::VersionConflict { name, range, locked }) => {
            assert_eq!(name, "Foo");
            assert_eq!(range.to_text(), "=1.2.0");
            assert_eq!(locked.to_text(), "1.0.0");
        }
        other => panic!("expected a conflict, got {:?}", other),
    }
}

#[test]
fn dependencies_take_prereleases_only_when_told_to() {
    let beta = v(2, 0, 0).with_prerelease(vec![Identifier::Text(b"beta".to_vec())]);
    let env = env_of(vec![vec![
        manifest("Bar", v(1, 0, 0), vec![("Foo", at_least(v(1, 0, 0)))]),
        manifest("Foo", v(1, 0, 0), vec![]),
        manifest("Foo", beta, vec![]),
    ]]);
    let project = project(vec![]);
    let requests = vec![ask("Bar", VersionSelector::latest(false))];
    let without = project.add_package_request(&env, &requests, false, &vec![]).unwrap();
    assert_eq!(names_and_versions(&without), vec![pair("Bar", "1.0.0"), pair("Foo", "1.0.0")]);
    let with = project.add_package_request(&env, &requests, true, &vec![]).unwrap();
    assert_eq!(names_and_versions(&with), vec![pair("Bar", "1.0.0"), pair("Foo", "2.0.0-beta")]);
}

#[test]
fn of_two_repositories_with_one_version_the_first_wins() {
    let mut first = manifest("Foo", v(1, 0, 0), vec![]);
    first.download_location = "https://first.example/Foo.zip".to_string();
    let mut second = manifest("Foo", v(1, 0, 0), vec![]);
    second.download_location = "https://second.example/Foo.zip".to_string();
    let env = env_of(vec![vec![manifest("Foo", v(0, 9, 0), vec![]), first], vec![second]]);
    let found = env
        .find_package_by_name(&"Foo".to_string(), &VersionSelector::latest(false))
        .unwrap();
    assert_eq!(found.download_location(), "https://first.example/Foo.zip");
    assert!(env
        .find_package_by_name(&"foo".to_string(), &VersionSelector::latest(false))
        .is_none());
}

#[test]
fn a_project_cannot_lock_a_package_twice() {
    let twice = vec![
        LockedPackage { name: "Foo".to_string(), version: v(1, 0, 0) },
        LockedPackage { name: "Foo".to_string(), version: v(2, 0, 0) },
    ];
    assert!(UnityProject::new(twice, vec![], "/p".to_string()).is_none());
    assert!(PackageManifest::new(
        "A".to_string(),
        v(1, 0, 0),
        vec![
            Dependency::new("B".to_string(), at_least(v(1, 0, 0))),
            Dependency::new("B".to_string(), at_least(v(2, 0, 0))),
        ],
        vec![],
        vec![],
        "u".to_string()
    )
    .is_none());
}

#[test]
fn a_cycle_of_dependencies_ends() {
    let env = env_of(vec![vec![
        manifest("A", v(1, 0, 0), vec![("B", at_least(v(1, 0, 0))), ("A", at_least(v(1, 0, 0)))]),
        manifest("B", v(1, 0, 0), vec![("A", at_least(v(1, 0, 0))), ("B", at_least(v(1, 0, 0)))]),
    ]]);
    let project = project(vec![]);
    let requests = vec![ask("A", VersionSelector::latest(false))];
    let plan = project.add_package_request(&env, &requests, false, &vec![]).unwrap();
    assert_eq!(names_and_versions(&plan), vec![pair("A", "1.0.0"), pair("B", "1.0.0")]);
}
