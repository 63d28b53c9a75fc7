use vpai::environment::Environment;
use vpai::headers::Headers;
use vpai::http::Url;
use vpai::installer::{
    after_resolution, confirm_message, failure_report, invalid_config_dialog, plan_install,
    unexpected_error_dialog, InstallStep, VpaiConfig, VpaiRepository,
};
use vpai::interop::{Dialog, HostCall};
use vpai::manifest::{Dependency, PackageManifest};
use vpai::range::{Comparator, ComparatorSet, Operator, SelectorKind, VersionRange, VersionSelector};
use vpai::repository::LocalCachedRepository;
use vpai::resolver::{AddPackageErr, LockedPackage, PackageRequest, UnityProject};
use vpai::version::VersionNumber;

fn v(major: u64, minor: u64, patch: u64) -> VersionNumber {
    VersionNumber::new(major, minor, patch)
}

fn at_least(low: VersionNumber) -> VersionRange {
    VersionRange::new(vec![ComparatorSet::new(vec![Comparator::new(Operator::GreaterEq, low)])])
}

fn manifest(name: &str, version: VersionNumber, deps: Vec<(&str, VersionRange)>, folders: &[&str]) -> PackageManifest {
    PackageManifest::new(
        name.to_string(),
        version,
        deps.into_iter().map(|(n, r)| Dependency::new(n.to_string(), r)).collect(),
        folders.iter().map(|s| s.to_string()).collect(),
        vec!["Assets/old.dll".to_string()],
        "https://example.com/p.zip".to_string(),
    )
    .unwrap()
}

fn env() -> Environment {
    let mut env = Environment::new(None, vec![], vec![]);
    let repo = LocalCachedRepository::new(
        vec![
            manifest("Bar", v(1, 0, 0), vec![("Foo", at_least(v(1, 0, 0)))], &["Assets/OldBar"]),
            manifest("Foo", v(1, 0, 0), vec![], &[]),
            manifest("Foo", v(1, 2, 0), vec![], &["Assets/OldFoo"]),
        ],
        None,
        Headers::new(),
    )
    .unwrap();
    env.repo_holder.insert("Repos/main.json".to_string(), repo);
    env
}

fn project(locked: Vec<(&str, VersionNumber)>) -> UnityProject {
    UnityProject::new(
        locked
            .into_iter()
            .map(|(n, version)| LockedPackage { name: n.to_string(), version })
            .collect(),
        vec![],
        "/project".to_string(),
    )
    .unwrap()
}

fn dialog(call: &HostCall) -> &Dialog {
    match call {
        HostCall::DisplayDialog(d) => d,
        other => panic!("expected a dialog, got {:?}", other),
    }
}

#[test]
fn the_configuration_asks_for_its_dependencies_in_order() {
    let config = VpaiConfig {
        vpm_repositories: vec![VpaiRepository {
            url: Url::parse("https://example.com/r.json").unwrap(),
            headers: Headers::new(),
        }],
        include_prerelease: true,
        vpm_dependencies: vec![
            Dependency::new("Foo".to_string(), at_least(v(1, 0, 0))),
            Dependency::new("Bar".to_string(), VersionRange::any()),
        ],
    };
    let requests = config.requests();
    assert_eq!(requests.len(), 2);
    assert_eq!(requests[0].name, "Foo");
    assert!(requests[0].selector.include_prerelease);
    assert_eq!(requests[0].selector.to_range().to_text(), ">=1.0.0");
    assert!(matches!(requests[0].selector.kind, SelectorKind::Range(_)));
    assert_eq!(requests[1].name, "Bar");
    assert_eq!(requests[1].selector.to_range().to_text(), "*");
}

#[test]
fn the_confirm_message_lists_packages_repositories_and_removals() {
    let mut env = env();
    env.add_pending_repository(
        Url::parse("https://example.com/extra.json").unwrap(),
        Headers::new(),
        "Repos/extra.json".to_string(),
        Ok(LocalCachedRepository::new(vec![], None, Headers::new()).unwrap()),
    )
    .unwrap();
    let project = project(vec![("Kept", v(9, 0, 0))]);
    let requests = vec![PackageRequest {
        name: "Bar".to_string(),
        selector: VersionSelector::range(at_least(v(1, 0, 0)), false),
    }];
    let existing = vec!["Assets/OldFoo".to_string(), "Assets/OldBar".to_string(), "Assets/old.dll".to_string()];
    let plan = project.add_package_request(&env, &requests, false, &existing).unwrap();
    let message = confirm_message(&plan, &project, env.pending_repositories());
    assert_eq!(
        message,
        "You're installing the following packages:\n\
         Bar version 1.0.0\n\
         Foo version 1.2.0\n\
         Bar version >=1.0.0\n\
         \n\
         This will add following repositories:\n\
         https://example.com/extra.json\n\
         \n\
         You're also deleting the following files/folders:\n\
         Assets/OldBar\n\
         Assets/OldFoo\n\
         Assets/old.dll"
    );
}

#[test]
fn the_confirm_message_leaves_out_empty_parts() {
    let env = env();
    let project = project(vec![]);
    let requests =
        vec![PackageRequest { name: "Foo".to_string(), selector: VersionSelector::exact(v(1, 0, 0)) }];
    let plan = project.add_package_request(&env, &requests, false, &vec![]).unwrap();
    assert_eq!(
        confirm_message(&plan, &project, &vec![]),
        "You're installing the following packages:\nFoo version 1.0.0\nFoo version =1.0.0"
    );
}

#[test]
fn a_plan_is_confirmed_where_the_host_asks_for_it() {
    let env = env();
    let project = project(vec![]);
    let requests =
        vec![PackageRequest { name: "Foo".to_string(), selector: VersionSelector::latest(false) }];
    match plan_install(&project, &env, &requests, false, &vec![], true) {
        InstallStep::Confirm { plan, dialog: call } => {
            assert_eq!(plan.locked().len(), 1);
            let d = dialog(&call);
            assert_eq!(d.title, "Confirm");
            assert_eq!(d.ok, "Install");
            assert_eq!(d.cancel, "Cancel");
            assert_eq!(
                d.message,
                "You're installing the following packages:\nFoo version 1.2.0\nFoo version *"
            );
        }
        other => panic!("expected a confirmation, got {:?}", other),
    }
    match plan_install(&project, &env, &requests, false, &vec![], false) {
        InstallStep::Proceed(plan) => assert_eq!(plan.locked()[0].version.to_text(), "1.2.0"),
        other => panic!("expected to proceed, got {:?}", other),
    }
}

#[test]
fn nothing_to_do_and_failures_are_shown() {
    let env = env();
    let locked = project(vec![("Foo", v(1, 2, 0))]);
    let requests =
        vec![PackageRequest { name: "Foo".to_string(), selector: VersionSelector::latest(false) }];
    match plan_install(&locked, &env, &requests, false, &vec![], true) {
        InstallStep::Abort(call) => {
            let d = dialog(&call);
            assert_eq!(d.title, "Nothing TO DO!");
            assert_eq!(d.message, "All Packages are Installed!");
            assert_eq!((d.ok.as_str(), d.cancel.as_str()), ("OK", ""));
        }
        other => panic!("expected nothing to do, got {:?}", other),
    }
    let missing = vec![PackageRequest {
        name: "Nope".to_string(),
        selector: VersionSelector::range(at_least(v(1, 0, 0)), false),
    }];
    match plan_install(&locked, &env, &missing, false, &vec![], false) {
        InstallStep::Abort(call) => {
            let d = dialog(&call);
            assert_eq!(d.title, "ERROR");
            assert_eq!(d.message, "Package not found: Nope version >=1.0.0");
        }
        other => panic!("expected an error, got {:?}", other),
    }
    let old = project(vec![("Foo", v(0, 5, 0))]);
    let bar = vec![PackageRequest { name: "Bar".to_string(), selector: VersionSelector::latest(false) }];
    match after_resolution(old.add_package_request(&env, &bar, false, &vec![]), &old, &vec![], true) {
        InstallStep::Abort(call) => {
            assert_eq!(
                dialog(&call).message,
                "Version conflict: Foo is locked at version 0.5.0 but >=1.0.0 is needed"
            );
        }
        other => panic!("expected an error, got {:?}", other),
    }
}

#[test]
fn failures_in_words() {
    assert_eq!(AddPackageErr::NoChangesNeeded.message(), "All Packages are Installed!");
    assert_eq!(
        AddPackageErr::PackageNotFound {
            name: "X".to_string(),
            selector: VersionSelector::exact(v(1, 2, 3))
        }
        .message(),
        "Package not found: X version 1.2.3"
    );
    assert_eq!(
        AddPackageErr::PackageNotFound { name: "X".to_string(), selector: VersionSelector::latest(true) }
            .message(),
        "Package not found: X version latest"
    );
}

#[test]
fn reports_of_errors() {
    let d = invalid_config_dialog();
    assert_eq!(dialog(&d).message, "invalid config.json");
    assert_eq!(dialog(&d).title, "ERROR");
    let d = unexpected_error_dialog("index out of bounds");
    assert_eq!(dialog(&d).message, "Unexpected error: index out of bounds");
    assert_eq!(dialog(&d).ok, "OK");
    let (logged, shown) = failure_report("loading env", "file not found");
    assert!(matches!(logged, HostCall::LogError(m) if m == "Error: loading env, file not found"));
    let d = dialog(&shown);
    assert_eq!(d.title, "ERROR");
    assert_eq!(d.message, "Error installing packages: loading env, file not found");
    assert_eq!((d.ok.as_str(), d.cancel.as_str()), ("ok", ""));
}
