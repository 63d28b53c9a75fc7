//! The installer: from what a configuration asks for to what the host is to
//! show and do. The host makes the calls and hands back their answers.

use crate::environment::{source_views, Environment};
use crate::headers::Headers;
use crate::http::Url;
use crate::interop::{display_dialog, log_error, DialogView, HostCall, HostCallView};
use crate::manifest::{dependency_views, string_views, Dependency, DependencyView};
use crate::notation::{range_text, version_text};
use crate::range::{SelectorKind, SelectorKindView, SelectorView, VersionSelector};
use crate::repository::{RepoSource, SourceView};
use crate::resolution::{dependency_selector, EntryView, FailureView, RequestView};
use crate::resolver::{
    is_new, locked_views, locks, request_views, resolution, result_view, AddPackageErr,
    AddPackageRequest, LockedPackage, PackageRequest, PlanView, PlannedPackage, UnityProject,
};
use crate::text::push_char;
use crate::version::VersionView;
use vstd::prelude::*;
use vstd::string::*;

verus! {

/// A repository that a configuration names: its URL, and the headers that
/// go with every request to it.
#[derive(Debug)]
pub struct VpaiRepository {
    pub url: Url,
    pub headers: Headers,
}

/// What a configuration asks for: repositories to add, packages to install,
/// and whether prereleases may be chosen.
#[derive(Debug)]
pub struct VpaiConfig {
    pub vpm_repositories: Vec<VpaiRepository>,
    pub include_prerelease: bool,
    pub vpm_dependencies: Vec<Dependency>,
}

/// The requests that ask for `dependencies`: one for each, for the versions
/// in its range.
pub open spec fn requests_for(dependencies: Seq<DependencyView>, include_prerelease: bool) -> Seq<
    RequestView,
> {
    Seq::new(
        dependencies.len(),
        |i: int|
            RequestView {
                name: dependencies[i].name,
                selector: dependency_selector(dependencies[i].range, include_prerelease),
            },
    )
}

impl VpaiConfig {
    /// The requests that the configuration makes, in the order of its
    /// dependencies.
    pub fn requests(&self) -> (r: Vec<PackageRequest>)
        ensures
            request_views(r@) == requests_for(
                dependency_views(self.vpm_dependencies@),
                self.include_prerelease,
            ),
    {
        let mut r: Vec<PackageRequest> = Vec::new();
        let mut i: usize = 0;
        while i < self.vpm_dependencies.len()
            invariant
                i <= self.vpm_dependencies.len(),
                r@.len() == i,
                forall|k: int|
                    0 <= k < i ==> (#[trigger] r@[k])@ == requests_for(
                        dependency_views(self.vpm_dependencies@),
                        self.include_prerelease,
                    )[k],
            decreases self.vpm_dependencies.len() - i,
        {
            let dependency = &self.vpm_dependencies[i];
            r.push(
                PackageRequest {
                    name: dependency.name.clone(),
                    selector: VersionSelector::range(
                        dependency.range.clone(),
                        self.include_prerelease,
                    ),
                },
            );
            i += 1;
        }
        assert(request_views(r@) =~= requests_for(
            dependency_views(self.vpm_dependencies@),
            self.include_prerelease,
        ));
        r
    }
}

/// The text of a selector.
pub open spec fn selector_text(selector: SelectorView) -> Seq<char> {
    match selector.kind {
        SelectorKindView::Exact(v) => version_text(v),
        SelectorKindView::Range(r) => range_text(r),
        SelectorKindView::Latest => "latest"@,
    }
}

/// Why no plan was made, in words.
pub open spec fn failure_message(failure: FailureView) -> Seq<char> {
    match failure {
        FailureView::PackageNotFound { name, selector } => "Package not found: "@ + name
            + " version "@ + selector_text(selector),
        FailureView::VersionConflict { name, range, locked } => "Version conflict: "@ + name
            + " is locked at version "@ + version_text(locked) + " but "@ + range_text(range)
            + " is needed"@,
        FailureView::NoChangesNeeded => "All Packages are Installed!"@,
    }
}

impl VersionSelector {
    /// Writes the text of the selector at the end of `out`.
    pub fn push_text(&self, out: &mut String)
        ensures
            final(out)@ == old(out)@ + selector_text(self@),
    {
        match &self.kind {
            SelectorKind::Exact(v) => v.push_text(out),
            SelectorKind::Range(r) => r.push_text(out),
            SelectorKind::Latest => out.append("latest"),
        }
    }
}

impl AddPackageErr {
    /// Why no plan was made, in words.
    pub fn message(&self) -> (r: String)
        ensures
            r@ == failure_message(self@),
    {
        match self {
            AddPackageErr::PackageNotFound { name, selector } => {
                let mut out = "Package not found: ".to_owned();
                out.append(name.as_str());
                out.append(" version ");
                selector.push_text(&mut out);
                out
            },
            AddPackageErr::VersionConflict { name, range, locked } => {
                let mut out = "Version conflict: ".to_owned();
                out.append(name.as_str());
                out.append(" is locked at version ");
                locked.push_text(&mut out);
                out.append(" but ");
                range.push_text(&mut out);
                out.append(" is needed");
                out
            },
            AddPackageErr::NoChangesNeeded => "All Packages are Installed!".to_owned(),
        }
    }
}

/// One line for each new package among the first `n` of `entries`: its name
/// and its version.
pub open spec fn package_lines(
    entries: Seq<EntryView>,
    locked: Seq<(Seq<char>, VersionView)>,
    n: int,
) -> Seq<char>
    decreases n,
{
    if n <= 0 {
        Seq::empty()
    } else if is_new(locked, entries[n - 1]) {
        package_lines(entries, locked, n - 1) + seq!['\n'] + entries[n - 1].name + " version "@
            + version_text(entries[n - 1].version)
    } else {
        package_lines(entries, locked, n - 1)
    }
}

/// One line for each of the first `n` of `added`: its name and its range.
pub open spec fn dependency_lines(added: Seq<DependencyView>, n: int) -> Seq<char>
    decreases n,
{
    if n <= 0 {
        Seq::empty()
    } else {
        dependency_lines(added, n - 1) + seq!['\n'] + added[n - 1].name + " version "@
            + range_text(added[n - 1].range)
    }
}

/// One line for each of the first `n` of `texts`.
pub open spec fn text_lines(texts: Seq<Seq<char>>, n: int) -> Seq<char>
    decreases n,
{
    if n <= 0 {
        Seq::empty()
    } else {
        text_lines(texts, n - 1) + seq!['\n'] + texts[n - 1]
    }
}

/// One line for the URL of each of the first `n` of `sources` that has
/// one.
pub open spec fn source_lines(sources: Seq<SourceView>, n: int) -> Seq<char>
    decreases n,
{
    if n <= 0 {
        Seq::empty()
    } else {
        match sources[n - 1].remote_url {
            Some(url) => source_lines(sources, n - 1) + seq!['\n'] + url,
            None => source_lines(sources, n - 1),
        }
    }
}

/// The part of the message that names the repositories that will be added:
/// nothing where there are none.
pub open spec fn repositories_part(pending: Seq<SourceView>) -> Seq<char> {
    if pending.len() == 0 {
        Seq::empty()
    } else {
        "\n\nThis will add following repositories:"@ + source_lines(pending, pending.len() as int)
    }
}

/// The part of the message that names what will be removed: nothing where
/// nothing will.
pub open spec fn removals_part(folders: Seq<Seq<char>>, files: Seq<Seq<char>>) -> Seq<char> {
    if folders.len() == 0 && files.len() == 0 {
        Seq::empty()
    } else {
        "\n\nYou're also deleting the following files/folders:"@ + text_lines(
            folders,
            folders.len() as int,
        ) + text_lines(files, files.len() as int)
    }
}

/// The message that asks the user to confirm a plan: the new packages and
/// the requests, then the repositories that will be added, then what will
/// be removed.
pub open spec fn confirm_text(
    plan: PlanView,
    locked: Seq<(Seq<char>, VersionView)>,
    pending: Seq<SourceView>,
) -> Seq<char> {
    "You're installing the following packages:"@ + package_lines(
        plan.locked,
        locked,
        plan.locked.len() as int,
    ) + dependency_lines(plan.added_dependencies, plan.added_dependencies.len() as int)
        + repositories_part(pending) + removals_part(plan.legacy_folders, plan.legacy_files)
}

/// Writes one line for each of `texts` at the end of `out`.
fn push_lines(out: &mut String, texts: &Vec<String>)
    ensures
        final(out)@ == old(out)@ + text_lines(string_views(texts@), texts@.len() as int),
{
    let ghost views = string_views(texts@);
    let mut i: usize = 0;
    assert(out@ =~= old(out)@ + text_lines(views, 0));
    while i < texts.len()
        invariant
            i <= texts.len(),
            views == string_views(texts@),
            out@ == old(out)@ + text_lines(views, i as int),
        decreases texts.len() - i,
    {
        push_char(out, '\n');
        out.append(texts[i].as_str());
        assert(views[i as int] == texts@[i as int]@);
        assert(out@ =~= old(out)@ + (text_lines(views, i as int) + seq!['\n'] + views[i as int]));
        i += 1;
    }
}

/// Whether the project holds the package `name` with the version `version`.
fn holds(locked: &Vec<LockedPackage>, entry: &PlannedPackage) -> (r: bool)
    ensures
        r == locks(locked_views(locked@), entry@.name, entry@.version),
{
    let mut i: usize = 0;
    while i < locked.len()
        invariant
            i <= locked.len(),
            forall|k: int|
                0 <= k < i ==> (#[trigger] locked_views(locked@)[k]) != (
                    entry@.name,
                    entry@.version,
                ),
        decreases locked.len() - i,
    {
        if locked[i].name == *entry.name && locked[i].version.equals(entry.version) {
            assert(locked_views(locked@)[i as int] == (entry@.name, entry@.version));
            return true;
        }
        i += 1;
    }
    false
}

/// The message that asks the user to confirm `plan`.
pub fn confirm_message(plan: &AddPackageRequest, project: &UnityProject, pending: &Vec<RepoSource>) -> (r:
    String)
    ensures
        r@ == confirm_text(plan@, project@.locked, source_views(pending@)),
{
    let ghost locked = locked_views(project.locked_packages@);
    let ghost entries = plan@.locked;
    let ghost head = "You're installing the following packages:"@;
    let mut out = "You're installing the following packages:".to_owned();
    let mut i: usize = 0;
    assert(out@ =~= head + package_lines(entries, locked, 0));
    while i < plan.locked.len()
        invariant
            i <= plan.locked.len(),
            entries == plan@.locked,
            locked == locked_views(project.locked_packages@),
            head == "You're installing the following packages:"@,
            out@ == head + package_lines(entries, locked, i as int),
        decreases plan.locked.len() - i,
    {
        let entry = &plan.locked[i];
        assert(entries[i as int] == entry@);
        if entry.manifest.is_some() && !holds(&project.locked_packages, entry) {
            push_char(&mut out, '\n');
            out.append(entry.name.as_str());
            out.append(" version ");
            entry.version.push_text(&mut out);
            assert(out@ =~= head + (package_lines(entries, locked, i as int) + seq!['\n']
                + entry@.name + " version "@ + version_text(entry@.version)));
        }
        i += 1;
    }
    let ghost packages_part = head + package_lines(entries, locked, entries.len() as int);
    let ghost added = plan@.added_dependencies;
    let mut j: usize = 0;
    assert(out@ =~= packages_part + dependency_lines(added, 0));
    while j < plan.added_dependencies.len()
        invariant
            j <= plan.added_dependencies.len(),
            added == plan@.added_dependencies,
            out@ == packages_part + dependency_lines(added, j as int),
        decreases plan.added_dependencies.len() - j,
    {
        let dependency = &plan.added_dependencies[j];
        assert(added[j as int] == dependency@);
        push_char(&mut out, '\n');
        out.append(dependency.name.as_str());
        out.append(" version ");
        dependency.range.push_text(&mut out);
        assert(out@ =~= packages_part + (dependency_lines(added, j as int) + seq!['\n']
            + dependency@.name + " version "@ + range_text(dependency@.range)));
        j += 1;
    }
    let ghost installing = packages_part + dependency_lines(added, added.len() as int);
    let ghost sources = source_views(pending@);
    if pending.len() != 0 {
        out.append("\n\nThis will add following repositories:");
        let ghost title = installing + "\n\nThis will add following repositories:"@;
        let mut k: usize = 0;
        assert(out@ =~= title + source_lines(sources, 0));
        while k < pending.len()
            invariant
                k <= pending.len(),
                sources == source_views(pending@),
                out@ == title + source_lines(sources, k as int),
            decreases pending.len() - k,
        {
            assert(sources[k as int] == pending@[k as int]@);
            if let Some(url) = pending[k].remote_url() {
                push_char(&mut out, '\n');
                out.append(url.as_str());
                assert(out@ =~= title + (source_lines(sources, k as int) + seq!['\n'] + url@));
            }
            k += 1;
        }
        assert(out@ =~= installing + repositories_part(sources));
    }
    assert(out@ =~= installing + repositories_part(sources));
    let ghost upto_repositories = installing + repositories_part(sources);
    if plan.legacy_folders.len() != 0 || plan.legacy_files.len() != 0 {
        out.append("\n\nYou're also deleting the following files/folders:");
        push_lines(&mut out, &plan.legacy_folders);
        push_lines(&mut out, &plan.legacy_files);
        assert(out@ =~= upto_repositories + removals_part(
            plan@.legacy_folders,
            plan@.legacy_files,
        ));
    }
    assert(out@ =~= upto_repositories + removals_part(plan@.legacy_folders, plan@.legacy_files));
    out
}

/// What the installer does once the resolution has ended.
#[derive(Debug)]
pub enum InstallStep<'a> {
    /// Nothing is installed; the host shows why.
    Abort(HostCall),
    /// The host asks the user to confirm the plan, and installs where the
    /// user accepts.
    Confirm { plan: AddPackageRequest<'a>, dialog: HostCall },
    /// The plan is installed without asking.
    Proceed(AddPackageRequest<'a>),
}

/// What an [`InstallStep`] stands for.
pub enum InstallStepView {
    Abort(HostCallView),
    Confirm { plan: PlanView, dialog: HostCallView },
    Proceed(PlanView),
}

impl<'a> View for InstallStep<'a> {
    type V = InstallStepView;

    open spec fn view(&self) -> InstallStepView {
        match self {
            InstallStep::Abort(call) => InstallStepView::Abort(call@),
            InstallStep::Confirm { plan, dialog } => InstallStepView::Confirm {
                plan: plan@,
                dialog: dialog@,
            },
            InstallStep::Proceed(plan) => InstallStepView::Proceed(plan@),
        }
    }
}

/// The dialog with the given texts.
pub open spec fn dialog(title: Seq<char>, message: Seq<char>, ok: Seq<char>, cancel: Seq<char>) -> HostCallView {
    HostCallView::DisplayDialog(DialogView { title, message, ok, cancel })
}

/// What the installer does with the outcome of a resolution: it tells the
/// user that nothing is to be done, or why no plan was made; or it goes on
/// with the plan, asking the user first where the host wants that.
pub open spec fn install_step(
    resolved: Result<PlanView, FailureView>,
    locked: Seq<(Seq<char>, VersionView)>,
    pending: Seq<SourceView>,
    prompt: bool,
) -> InstallStepView {
    match resolved {
        Err(FailureView::NoChangesNeeded) => InstallStepView::Abort(
            dialog("Nothing TO DO!"@, "All Packages are Installed!"@, "OK"@, ""@),
        ),
        Err(failure) => InstallStepView::Abort(
            dialog("ERROR"@, failure_message(failure), "OK"@, ""@),
        ),
        Ok(plan) => if prompt {
            InstallStepView::Confirm {
                plan,
                dialog: dialog(
                    "Confirm"@,
                    confirm_text(plan, locked, pending),
                    "Install"@,
                    "Cancel"@,
                ),
            }
        } else {
            InstallStepView::Proceed(plan)
        },
    }
}

/// What the installer does with what a resolution returned.
pub fn after_resolution<'a>(
    resolved: Result<AddPackageRequest<'a>, AddPackageErr>,
    project: &UnityProject,
    pending: &Vec<RepoSource>,
    prompt: bool,
) -> (r: InstallStep<'a>)
    ensures
        r@ == install_step(
            result_view(resolved),
            project@.locked,
            source_views(pending@),
            prompt,
        ),
{
    match resolved {
        Err(AddPackageErr::NoChangesNeeded) => InstallStep::Abort(
            display_dialog("Nothing TO DO!", "All Packages are Installed!", "OK", ""),
        ),
        Err(failure) => {
            let message = failure.message();
            InstallStep::Abort(display_dialog("ERROR", message.as_str(), "OK", ""))
        },
        Ok(plan) => {
            if prompt {
                let message = confirm_message(&plan, project, pending);
                let dialog = display_dialog("Confirm", message.as_str(), "Install", "Cancel");
                InstallStep::Confirm { plan, dialog }
            } else {
                InstallStep::Proceed(plan)
            }
        },
    }
}

/// Resolves `requests` and says what the installer does next.
pub fn plan_install<'a>(
    project: &'a UnityProject,
    env: &'a Environment,
    requests: &'a Vec<PackageRequest>,
    include_prerelease: bool,
    existing_paths: &Vec<String>,
    prompt: bool,
) -> (r: InstallStep<'a>)
    ensures
        r@ == install_step(
            resolution(
                env@.packages(),
                project@.locked,
                request_views(requests@),
                include_prerelease,
                string_views(existing_paths@),
            ),
            project@.locked,
            env@.pending,
            prompt,
        ),
{
    let resolved = project.add_package_request(env, requests, include_prerelease, existing_paths);
    after_resolution(resolved, project, env.pending_repositories(), prompt)
}

/// The dialog that tells the user that the configuration cannot be read.
pub fn invalid_config_dialog() -> (call: HostCall)
    ensures
        call@ == dialog("ERROR"@, "invalid config.json"@, "OK"@, ""@),
{
    display_dialog("ERROR", "invalid config.json", "OK", "")
}

/// The dialog that tells the user of an error that nothing provided for.
pub fn unexpected_error_dialog(message: &str) -> (call: HostCall)
    ensures
        call@ == dialog("ERROR"@, "Unexpected error: "@ + message@, "OK"@, ""@),
{
    let mut text = "Unexpected error: ".to_owned();
    text.append(message);
    display_dialog("ERROR", text.as_str(), "OK", "")
}

/// What is made known of an error that ended the installation: `context`
/// says what was being done, and `error` what went wrong. The error goes to
/// the log and then to the user.
pub fn failure_report(context: &str, error: &str) -> (r: (HostCall, HostCall))
    ensures
        r.0@ == HostCallView::LogError("Error: "@ + context@ + ", "@ + error@),
        r.1@ == dialog(
            "ERROR"@,
            "Error installing packages: "@ + context@ + ", "@ + error@,
            "ok"@,
            ""@,
        ),
{
    let mut logged = "Error: ".to_owned();
    logged.append(context);
    logged.append(", ");
    logged.append(error);
    let mut shown = "Error installing packages: ".to_owned();
    shown.append(context);
    shown.append(", ");
    shown.append(error);
    (log_error(logged.as_str()), display_dialog("ERROR", shown.as_str(), "ok", ""))
}

} // verus!
