//! Package manifests: what one version of a package declares about itself.

use crate::range::{ComparatorView, VersionRange};
use crate::version::{VersionNumber, VersionView};
use vstd::prelude::*;

verus! {

/// The views of a list of strings, in order.
pub open spec fn string_views(strings: Seq<String>) -> Seq<Seq<char>> {
    Seq::new(strings.len(), |i: int| strings[i]@)
}

/// Whether `list` holds a string that reads `text`.
pub fn contains_string(list: &Vec<String>, text: &String) -> (r: bool)
    ensures
        r == string_views(list@).contains(text@),
{
    let mut i: usize = 0;
    while i < list.len()
        invariant
            i <= list.len(),
            forall|k: int| 0 <= k < i ==> string_views(list@)[k] != text@,
        decreases list.len() - i,
    {
        if list[i] == *text {
            assert(string_views(list@)[i as int] == text@);
            return true;
        }
        i += 1;
    }
    false
}

/// A package that a manifest needs, and the versions of it that will do.
#[derive(Debug)]
pub struct Dependency {
    pub name: String,
    pub range: VersionRange,
}

/// What a [`Dependency`] stands for.
pub struct DependencyView {
    pub name: Seq<char>,
    pub range: Seq<Seq<ComparatorView>>,
}

impl View for Dependency {
    type V = DependencyView;

    open spec fn view(&self) -> DependencyView {
        DependencyView { name: self.name@, range: self.range@ }
    }
}

impl Dependency {
    /// The dependency on `name` within `range`.
    pub fn new(name: String, range: VersionRange) -> (d: Dependency)
        ensures
            d@ == (DependencyView { name: name@, range: range@ }),
    {
        Dependency { name, range }
    }
}

impl Clone for Dependency {
    fn clone(&self) -> (r: Self)
        ensures
            r@ == self@,
    {
        Dependency { name: self.name.clone(), range: self.range.clone() }
    }
}

/// The views of a list of dependencies, in order.
pub open spec fn dependency_views(dependencies: Seq<Dependency>) -> Seq<DependencyView> {
    Seq::new(dependencies.len(), |i: int| dependencies[i]@)
}

/// Whether no package is named twice among `dependencies`.
pub open spec fn distinct_dependencies(dependencies: Seq<DependencyView>) -> bool {
    forall|i: int, j: int|
        0 <= i < j < dependencies.len() ==> (#[trigger] dependencies[i]).name != (
        #[trigger] dependencies[j]).name
}

/// The description of one version of a package.
#[derive(Debug)]
pub struct PackageManifest {
    pub name: String,
    pub version: VersionNumber,
    /// The packages that this one needs, each named once.
    pub dependencies: Vec<Dependency>,
    /// Folders of an older form of the package, relative to the project.
    pub legacy_folders: Vec<String>,
    /// Files of an older form of the package, relative to the project.
    pub legacy_files: Vec<String>,
    /// Where the package can be had.
    pub download_location: String,
}

/// What a [`PackageManifest`] stands for.
pub struct ManifestView {
    pub name: Seq<char>,
    pub version: VersionView,
    pub dependencies: Seq<DependencyView>,
    pub legacy_folders: Seq<Seq<char>>,
    pub legacy_files: Seq<Seq<char>>,
    pub download_location: Seq<char>,
}

impl View for PackageManifest {
    type V = ManifestView;

    open spec fn view(&self) -> ManifestView {
        ManifestView {
            name: self.name@,
            version: self.version@,
            dependencies: dependency_views(self.dependencies@),
            legacy_folders: string_views(self.legacy_folders@),
            legacy_files: string_views(self.legacy_files@),
            download_location: self.download_location@,
        }
    }
}

/// Whether `dependencies` names a package twice.
fn has_repeated_dependency(dependencies: &Vec<Dependency>) -> (r: bool)
    ensures
        r == !distinct_dependencies(dependency_views(dependencies@)),
{
    let ghost views = dependency_views(dependencies@);
    let mut j: usize = 0;
    while j < dependencies.len()
        invariant
            j <= dependencies.len(),
            views == dependency_views(dependencies@),
            forall|a: int, b: int|
                0 <= a < b < j ==> (#[trigger] views[a]).name != (#[trigger] views[b]).name,
        decreases dependencies.len() - j,
    {
        let mut i: usize = 0;
        while i < j
            invariant
                i <= j < dependencies.len(),
                views == dependency_views(dependencies@),
                forall|a: int| 0 <= a < i ==> (#[trigger] views[a]).name != views[j as int].name,
            decreases j - i,
        {
            if dependencies[i].name == dependencies[j].name {
                assert(views[i as int].name == views[j as int].name);
                return true;
            }
            i += 1;
        }
        j += 1;
    }
    false
}

impl PackageManifest {
    /// Whether no dependency is named twice.
    pub open spec fn wf(&self) -> bool {
        distinct_dependencies(self@.dependencies)
    }

    /// The manifest of the given parts, or `None` where `dependencies`
    /// names a package twice.
    pub fn new(
        name: String,
        version: VersionNumber,
        dependencies: Vec<Dependency>,
        legacy_folders: Vec<String>,
        legacy_files: Vec<String>,
        download_location: String,
    ) -> (r: Option<PackageManifest>)
        ensures
            r is Some <==> distinct_dependencies(dependency_views(dependencies@)),
            r matches Some(m) ==> m.wf() && m@ == (ManifestView {
                name: name@,
                version: version@,
                dependencies: dependency_views(dependencies@),
                legacy_folders: string_views(legacy_folders@),
                legacy_files: string_views(legacy_files@),
                download_location: download_location@,
            }),
    {
        if has_repeated_dependency(&dependencies) {
            None
        } else {
            Some(
                PackageManifest {
                    name,
                    version,
                    dependencies,
                    legacy_folders,
                    legacy_files,
                    download_location,
                },
            )
        }
    }

    /// The package's name.
    pub fn name(&self) -> (r: &String)
        ensures
            r@ == self@.name,
    {
        &self.name
    }

    /// The package's version.
    pub fn version(&self) -> (r: &VersionNumber)
        ensures
            r@ == self@.version,
    {
        &self.version
    }

    /// The packages that this one needs.
    pub fn dependencies(&self) -> (r: &Vec<Dependency>)
        ensures
            dependency_views(r@) == self@.dependencies,
    {
        &self.dependencies
    }

    /// The folders of an older form of the package.
    pub fn legacy_folders(&self) -> (r: &Vec<String>)
        ensures
            string_views(r@) == self@.legacy_folders,
    {
        &self.legacy_folders
    }

    /// The files of an older form of the package.
    pub fn legacy_files(&self) -> (r: &Vec<String>)
        ensures
            string_views(r@) == self@.legacy_files,
    {
        &self.legacy_files
    }

    /// Where the package can be had.
    pub fn download_location(&self) -> (r: &String)
        ensures
            r@ == self@.download_location,
    {
        &self.download_location
    }
}

} // verus!
