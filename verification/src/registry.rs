//! Choosing a file among what a registry offers for a project.
//!
//! The registries are not reached from here: what they list for a project
//! comes in as it was received. Which of the listed files is the latest
//! compatible one is decided by `libium`; what is asked of it, and what is
//! made of its answer, is decided here.

use vstd::prelude::*;
use crate::resolve::{Candidate, CandidateView, Lookup, LookupView};
use crate::structs::{Loader, Mod, ModId, ModIdView, ModView};
use ferinth::structures::version::{DependencyType, Version};
use furse::structures::file_structs::File;
use libium::config::structs::ModLoader;
use libium::upgrade::mod_downloadable::{get_latest_compatible_file, get_latest_compatible_version};

verus! {

/// A file as CurseForge lists it.
#[verifier::external_type_specification]
#[verifier::external_body]
pub struct ExFile(File);

/// A version of a project as Modrinth lists it.
#[verifier::external_type_specification]
#[verifier::external_body]
pub struct ExVersion(Version);

/// The number by which CurseForge marks a dependency as required.
pub const REQUIRED_DEPENDENCY: u8 = 3;

/// What is read of a file that CurseForge lists.
#[derive(Debug)]
pub struct CurseForgeFile {
    /// Absent where the author has disabled distribution.
    pub download_url: Option<String>,
    pub file_name: String,
    pub file_length: usize,
    /// The projects that the file relates to, each with the number of
    /// its relation.
    pub dependencies: Vec<(i32, u8)>,
}

/// What a [`CurseForgeFile`] stands for.
pub struct CurseForgeFileView {
    pub download_url: Option<Seq<char>>,
    pub file_name: Seq<char>,
    pub file_length: nat,
    pub dependencies: Seq<(i32, u8)>,
}

impl View for CurseForgeFile {
    type V = CurseForgeFileView;

    open spec fn view(&self) -> CurseForgeFileView {
        CurseForgeFileView {
            download_url: match self.download_url {
                Some(url) => Some(url@),
                None => None,
            },
            file_name: self.file_name@,
            file_length: self.file_length as nat,
            dependencies: self.dependencies@,
        }
    }
}

/// How a version on Modrinth relates to another project.
#[derive(Debug, Clone, Copy, PartialEq, Eq, Structural)]
pub enum DependencyKind {
    Required,
    Optional,
    Incompatible,
    Embedded,
    Other,
}

/// A dependency as Modrinth lists it: a project, a version of one, or both.
#[derive(Debug)]
pub struct VersionDependency {
    pub version_id: Option<String>,
    pub project_id: Option<String>,
    pub kind: DependencyKind,
}

/// What a [`VersionDependency`] stands for.
pub struct VersionDependencyView {
    pub version_id: Option<Seq<char>>,
    pub project_id: Option<Seq<char>>,
    pub kind: DependencyKind,
}

impl View for VersionDependency {
    type V = VersionDependencyView;

    open spec fn view(&self) -> VersionDependencyView {
        VersionDependencyView {
            version_id: match self.version_id {
                Some(id) => Some(id@),
                None => None,
            },
            project_id: match self.project_id {
                Some(id) => Some(id@),
                None => None,
            },
            kind: self.kind,
        }
    }
}

impl DeepView for VersionDependency {
    type V = VersionDependencyView;

    open spec fn deep_view(&self) -> VersionDependencyView {
        self@
    }
}

/// What is read of a version that Modrinth lists, and of its main file.
#[derive(Debug)]
pub struct ModrinthFile {
    pub url: String,
    pub filename: String,
    pub size: usize,
    pub dependencies: Vec<VersionDependency>,
}

/// What a [`ModrinthFile`] stands for.
pub struct ModrinthFileView {
    pub url: Seq<char>,
    pub filename: Seq<char>,
    pub size: nat,
    pub dependencies: Seq<VersionDependencyView>,
}

impl View for ModrinthFile {
    type V = ModrinthFileView;

    open spec fn view(&self) -> ModrinthFileView {
        ModrinthFileView {
            url: self.url@,
            filename: self.filename@,
            size: self.size as nat,
            dependencies: self.dependencies.deep_view(),
        }
    }
}

/// A project that a file cannot work without: known by its own id, or
/// only by the id of one of its versions, which the registry has to be
/// asked about.
#[derive(Debug)]
pub enum Requirement {
    Project(String),
    Version(String),
}

/// What a [`Requirement`] stands for.
pub enum RequirementView {
    Project(Seq<char>),
    Version(Seq<char>),
}

impl View for Requirement {
    type V = RequirementView;

    open spec fn view(&self) -> RequirementView {
        match self {
            Requirement::Project(id) => RequirementView::Project(id@),
            Requirement::Version(id) => RequirementView::Version(id@),
        }
    }
}

impl DeepView for Requirement {
    type V = RequirementView;

    open spec fn deep_view(&self) -> RequirementView {
        self@
    }
}

/// The latest file among `files` that fits the game version and the
/// loader, where one is given, as `libium` chooses it.
pub uninterp spec fn latest_curseforge(
    files: Seq<File>,
    game_version: Option<Seq<char>>,
    loader: Option<Loader>,
) -> Option<CurseForgeFileView>;

/// The latest version among `versions` that fits the game version and
/// the loader, where one is given, as `libium` chooses it.
pub uninterp spec fn latest_modrinth(
    versions: Seq<Version>,
    game_version: Option<Seq<char>>,
    loader: Option<Loader>,
) -> Option<ModrinthFileView>;

/// How many files a version holds.
pub uninterp spec fn file_count(version: Version) -> nat;

/// The versions that hold a file, in order.
pub open spec fn with_files(versions: Seq<Version>) -> Seq<Version> {
    versions.filter(|version: Version| file_count(version) > 0)
}

/// The characters of a text that may be missing.
pub open spec fn text_of(text: Option<&str>) -> Option<Seq<char>> {
    match text {
        Some(s) => Some(s@),
        None => None,
    }
}

/// The game version that a file for a reference has to fit: none where
/// the reference says to ignore it.
pub open spec fn version_constraint(reference: ModView, mc_version: Seq<char>) -> Option<
    Seq<char>,
> {
    if reference.ignore_version {
        None
    } else {
        Some(mc_version)
    }
}

/// The loader that a file for a reference has to fit: none where the
/// reference says to ignore it.
pub open spec fn loader_constraint(reference: ModView, loader: Loader) -> Option<Loader> {
    if reference.ignore_loader {
        None
    } else {
        Some(loader)
    }
}

/// The file that is chosen for a reference among what CurseForge lists.
pub open spec fn curseforge_choice(
    files: Seq<File>,
    reference: ModView,
    mc_version: Seq<char>,
    loader: Loader,
) -> Option<CurseForgeFileView> {
    latest_curseforge(
        files,
        version_constraint(reference, mc_version),
        loader_constraint(reference, loader),
    )
}

/// The version that is chosen for a reference among what Modrinth lists.
pub open spec fn modrinth_choice(
    versions: Seq<Version>,
    reference: ModView,
    mc_version: Seq<char>,
    loader: Loader,
) -> Option<ModrinthFileView> {
    latest_modrinth(
        versions,
        version_constraint(reference, mc_version),
        loader_constraint(reference, loader),
    )
}

/// The ids of the projects that a CurseForge file requires, in order.
pub open spec fn required_ids(dependencies: Seq<(i32, u8)>) -> Seq<ModIdView>
    decreases dependencies.len(),
{
    if dependencies.len() == 0 {
        Seq::empty()
    } else if dependencies.last().1 == REQUIRED_DEPENDENCY {
        required_ids(dependencies.drop_last()).push(
            ModIdView::CurseForge((dependencies.last().0 as u32) as nat),
        )
    } else {
        required_ids(dependencies.drop_last())
    }
}

/// What a file that CurseForge lists gives to a resolution.
pub open spec fn curseforge_candidate_of(file: CurseForgeFileView) -> CandidateView {
    CandidateView {
        download_url: file.download_url,
        filename: file.file_name,
        length: file.file_length,
        dependencies: required_ids(file.dependencies),
    }
}

/// What the answer of CurseForge for a reference comes to (`None`: the
/// query failed).
pub open spec fn curseforge_lookup_of(
    files: Option<Seq<File>>,
    reference: ModView,
    mc_version: Seq<char>,
    loader: Loader,
) -> LookupView {
    match files {
        None => LookupView::Failed,
        Some(files) => match curseforge_choice(files, reference, mc_version, loader) {
            None => LookupView::NoMatch,
            Some(file) => LookupView::Found(curseforge_candidate_of(file)),
        },
    }
}

/// Whether a listed dependency is one that a file cannot work without
/// and that can be found: it names a project or a version.
pub open spec fn is_requirement(dependency: VersionDependencyView) -> bool {
    dependency.kind == DependencyKind::Required && (dependency.project_id is Some
        || dependency.version_id is Some)
}

/// The requirement that such a dependency stands for: the project where
/// it is named, else the version.
pub open spec fn requirement_of(dependency: VersionDependencyView) -> RequirementView {
    match dependency.project_id {
        Some(id) => RequirementView::Project(id),
        None => RequirementView::Version(dependency.version_id->0),
    }
}

/// The requirements among the dependencies of a version, in order.
pub open spec fn requirements_of(dependencies: Seq<VersionDependencyView>) -> Seq<RequirementView>
    decreases dependencies.len(),
{
    if dependencies.len() == 0 {
        Seq::empty()
    } else if is_requirement(dependencies.last()) {
        requirements_of(dependencies.drop_last()).push(requirement_of(dependencies.last()))
    } else {
        requirements_of(dependencies.drop_last())
    }
}

/// What a version that Modrinth lists gives to a resolution, once the
/// projects that it requires are known.
pub open spec fn modrinth_candidate_of(
    file: ModrinthFileView,
    projects: Seq<Seq<char>>,
) -> CandidateView {
    CandidateView {
        download_url: Some(file.url),
        filename: file.filename,
        length: file.size,
        dependencies: projects.map_values(|id: Seq<char>| ModIdView::Modrinth(id)),
    }
}

/// A reference that says to ignore the game version gets the same file
/// whatever the game version is, and one that says to ignore the loader
/// gets the same file whatever the loader is.
pub proof fn lemma_constraint_bypass(
    reference: ModView,
    files: Seq<File>,
    versions: Seq<Version>,
    mc_version: Seq<char>,
    other_version: Seq<char>,
    loader: Loader,
    other_loader: Loader,
)
    ensures
        reference.ignore_version ==> version_constraint(reference, mc_version) is None,
        reference.ignore_loader ==> loader_constraint(reference, loader) is None,
        reference.ignore_version ==> curseforge_choice(files, reference, mc_version, loader)
            == curseforge_choice(files, reference, other_version, loader),
        reference.ignore_version ==> modrinth_choice(versions, reference, mc_version, loader)
            == modrinth_choice(versions, reference, other_version, loader),
        reference.ignore_loader ==> curseforge_choice(files, reference, mc_version, loader)
            == curseforge_choice(files, reference, mc_version, other_loader),
        reference.ignore_loader ==> modrinth_choice(versions, reference, mc_version, loader)
            == modrinth_choice(versions, reference, mc_version, other_loader),
{
}

/// Trusted: `libium::upgrade::mod_downloadable::get_latest_compatible_file`.
/// The contract gives the chosen file a name and claims nothing else of
/// it: the same list, game version and loader give the same file. Of the
/// chosen file the url, the name, the length and the dependencies are
/// handed on, each dependency with the number that `furse` gives its
/// relation.
#[verifier::external_body]
fn latest_curseforge_file(
    files: Vec<File>,
    game_version: Option<&str>,
    loader: Option<Loader>,
) -> (r: Option<CurseForgeFile>)
    ensures
        match r {
            Some(file) => latest_curseforge(files@, text_of(game_version), loader) == Some(file@),
            None => latest_curseforge(files@, text_of(game_version), loader) is None,
        },
{
    let loader = loader.map(|l| match l {
        Loader::Forge => ModLoader::Forge,
        Loader::Fabric => ModLoader::Fabric,
        Loader::Quilt => ModLoader::Quilt,
    });
    get_latest_compatible_file(files, game_version, loader.as_ref()).map(|(file, _)| CurseForgeFile {
        download_url: file.download_url.map(String::from),
        file_name: file.file_name,
        file_length: file.file_length,
        dependencies: file.dependencies.into_iter().map(|d| (d.mod_id, d.relation_type as u8)).collect(),
    })
}

/// Trusted: the length of the field `files` of a `ferinth` `Version`. The
/// contract gives that number a name.
#[verifier::external_body]
fn count_files(version: &Version) -> (r: usize)
    ensures
        r == file_count(*version),
{
    version.files.len()
}

/// Trusted: `libium::upgrade::mod_downloadable::get_latest_compatible_version`.
/// The contract gives the chosen version a name and claims nothing else
/// of it. Of the chosen version the dependencies are handed on, and of
/// its main file the url, the name and the size. A version without a
/// file has no main file, and is kept away from the call.
#[verifier::external_body]
fn latest_modrinth_file(
    versions: &Vec<Version>,
    game_version: Option<&str>,
    loader: Option<Loader>,
) -> (r: Option<ModrinthFile>)
    requires
        forall|i: int| 0 <= i < versions.len() ==> file_count(#[trigger] versions[i]) > 0,
    ensures
        match r {
            Some(file) => latest_modrinth(versions@, text_of(game_version), loader) == Some(file@),
            None => latest_modrinth(versions@, text_of(game_version), loader) is None,
        },
{
    let loader = loader.map(|l| match l {
        Loader::Forge => ModLoader::Forge, Loader::Fabric => ModLoader::Fabric, Loader::Quilt => ModLoader::Quilt,
    });
    get_latest_compatible_version(versions, game_version, loader.as_ref()).map(|(file, version, _)| ModrinthFile {
        url: String::from(file.url), filename: file.filename, size: file.size,
        dependencies: version.dependencies.into_iter().map(|d| VersionDependency {
            version_id: d.version_id, project_id: d.project_id,
            kind: match d.dependency_type {
                DependencyType::Required => DependencyKind::Required, DependencyType::Optional => DependencyKind::Optional,
                DependencyType::Incompatible => DependencyKind::Incompatible, DependencyType::Embedded => DependencyKind::Embedded,
                _ => DependencyKind::Other,
            },
        }).collect(),
    })
}

/// The game version that a file for a reference has to fit.
pub fn version_to_check<'a>(reference: &Mod, mc_version: &'a str) -> (r: Option<&'a str>)
    ensures
        text_of(r) == version_constraint(reference@, mc_version@),
{
    if reference.ignore_version {
        None
    } else {
        Some(mc_version)
    }
}

/// The loader that a file for a reference has to fit.
pub fn loader_to_check(reference: &Mod, loader: Loader) -> (r: Option<Loader>)
    ensures
        r == loader_constraint(reference@, loader),
{
    if reference.ignore_loader {
        None
    } else {
        Some(loader)
    }
}

/// The number under which CurseForge is asked about a project: none
/// where the id is beyond what the registry can be asked about.
pub fn curseforge_project(id: u32) -> (r: Option<i32>)
    ensures
        match r {
            Some(n) => n == id,
            None => id > i32::MAX,
        },
{
    if id <= 0x7fff_ffff {
        Some(id as i32)
    } else {
        None
    }
}

/// Chooses, among the files that CurseForge lists for a reference, the
/// latest one that fits the pack, as far as the reference asks for that.
pub fn select_curseforge(reference: &Mod, files: Vec<File>, mc_version: &str, loader: Loader) -> (r:
    Option<CurseForgeFile>)
    ensures
        match r {
            Some(file) => curseforge_choice(files@, reference@, mc_version@, loader) == Some(
                file@,
            ),
            None => curseforge_choice(files@, reference@, mc_version@, loader) is None,
        },
{
    latest_curseforge_file(
        files,
        version_to_check(reference, mc_version),
        loader_to_check(reference, loader),
    )
}

/// The versions of a list that hold a file, in order.
pub fn versions_with_files(versions: Vec<Version>) -> (r: Vec<Version>)
    ensures
        r@ == with_files(versions@),
{
    let ghost all = versions@;
    let ghost holds = |version: Version| file_count(version) > 0;
    let mut r: Vec<Version> = Vec::new();
    proof {
        reveal(Seq::filter);
        assert(all.take(0) =~= Seq::empty());
    }
    for version in iter: versions
        invariant
            iter.seq() == all,
            holds == |version: Version| file_count(version) > 0,
            r@ == all.take(iter.index() as int).filter(holds),
    {
        let ghost before = r@;
        proof {
            reveal(Seq::filter);
            assert(all.take(iter.index() + 1).drop_last() =~= all.take(iter.index() as int));
        }
        if count_files(&version) > 0 {
            r.push(version);
        }
    }
    assert(all.take(all.len() as int) =~= all);
    r
}

/// Chooses, among the versions that Modrinth lists for a reference, the
/// latest one that fits the pack, as far as the reference asks for that.
/// A version that holds no file is not looked at.
pub fn select_modrinth(reference: &Mod, versions: Vec<Version>, mc_version: &str, loader: Loader)
    -> (r: Option<ModrinthFile>)
    ensures
        match r {
            Some(file) => modrinth_choice(with_files(versions@), reference@, mc_version@, loader)
                == Some(file@),
            None => modrinth_choice(with_files(versions@), reference@, mc_version@, loader)
                is None,
        },
{
    let ghost holds = |version: Version| file_count(version) > 0;
    let usable = versions_with_files(versions);
    proof {
        assert forall|i: int| 0 <= i < usable.len() implies file_count(#[trigger] usable[i])
            > 0 by {
            versions@.lemma_filter_pred(holds, i);
        }
    }
    latest_modrinth_file(
        &usable,
        version_to_check(reference, mc_version),
        loader_to_check(reference, loader),
    )
}

/// What a file that CurseForge lists gives to a resolution: its required
/// dependencies are kept, the others are left out.
pub fn curseforge_candidate(file: CurseForgeFile) -> (r: Candidate)
    ensures
        r@ == curseforge_candidate_of(file@),
{
    let ghost all = file.dependencies@;
    let mut dependencies: Vec<ModId> = Vec::new();
    let mut i: usize = 0;
    proof {
        assert(all.take(0) =~= Seq::empty());
        assert(dependencies.deep_view() =~= Seq::empty());
    }
    while i < file.dependencies.len()
        invariant
            i <= file.dependencies.len(),
            all == file.dependencies@,
            dependencies.deep_view() == required_ids(all.take(i as int)),
        decreases file.dependencies.len() - i,
    {
        let ghost before = dependencies.deep_view();
        let dependency = file.dependencies[i];
        proof {
            assert(all.take(i + 1).drop_last() =~= all.take(i as int));
        }
        if dependency.1 == REQUIRED_DEPENDENCY {
            let id = ModId::CurseForgeId(#[verifier::truncate] (dependency.0 as u32));
            dependencies.push(id);
            assert(dependencies.deep_view() =~= before.push(id@));
        }
        i = i + 1;
    }
    assert(all.take(all.len() as int) =~= all);
    Candidate {
        download_url: file.download_url,
        filename: file.file_name,
        length: file.file_length as u64,
        dependencies,
    }
}

/// What the answer of CurseForge for a reference comes to. `files` is
/// what the registry lists for the project, or `None` where asking it
/// failed.
pub fn curseforge_lookup(
    reference: &Mod,
    files: Option<Vec<File>>,
    mc_version: &str,
    loader: Loader,
) -> (r: Lookup)
    ensures
        r@ == curseforge_lookup_of(
            match files {
                Some(files) => Some(files@),
                None => None,
            },
            reference@,
            mc_version@,
            loader,
        ),
{
    match files {
        None => Lookup::Failed,
        Some(files) => match select_curseforge(reference, files, mc_version, loader) {
            None => Lookup::NoMatch,
            Some(file) => Lookup::Found(curseforge_candidate(file)),
        },
    }
}

/// The projects that a version on Modrinth cannot work without, each
/// by its own id where the registry names it and by the id of a version
/// where it does not.
pub fn required_dependencies(dependencies: &Vec<VersionDependency>) -> (r: Vec<Requirement>)
    ensures
        r.deep_view() == requirements_of(dependencies.deep_view()),
{
    let ghost all = dependencies.deep_view();
    let mut r: Vec<Requirement> = Vec::new();
    let mut i: usize = 0;
    proof {
        assert(all.take(0) =~= Seq::empty());
        assert(r.deep_view() =~= Seq::empty());
    }
    while i < dependencies.len()
        invariant
            i <= dependencies.len(),
            all == dependencies.deep_view(),
            r.deep_view() == requirements_of(all.take(i as int)),
        decreases dependencies.len() - i,
    {
        let ghost before = r.deep_view();
        proof {
            assert(all.take(i + 1).drop_last() =~= all.take(i as int));
            assert(all.take(i + 1).last() == dependencies[i as int]@);
        }
        let dependency = &dependencies[i];
        if dependency.kind == DependencyKind::Required {
            match &dependency.project_id {
                Some(id) => {
                    let requirement = Requirement::Project(id.clone());
                    r.push(requirement);
                    assert(r.deep_view() =~= before.push(requirement@));
                },
                None => match &dependency.version_id {
                    Some(id) => {
                        let requirement = Requirement::Version(id.clone());
                        r.push(requirement);
                        assert(r.deep_view() =~= before.push(requirement@));
                    },
                    None => {},
                },
            }
        }
        i = i + 1;
    }
    assert(all.take(all.len() as int) =~= all);
    r
}

/// What a version that Modrinth lists gives to a resolution, once the
/// projects that it requires are known by their ids.
pub fn modrinth_candidate(file: ModrinthFile, projects: Vec<String>) -> (r: Candidate)
    ensures
        r@ == modrinth_candidate_of(file@, projects.deep_view()),
{
    let mut dependencies: Vec<ModId> = Vec::new();
    let mut i: usize = 0;
    while i < projects.len()
        invariant
            i <= projects.len(),
            dependencies.len() == i,
            forall|j: int|
                0 <= j < i ==> dependencies[j]@ == ModIdView::Modrinth(#[trigger] projects[j]@),
        decreases projects.len() - i,
    {
        dependencies.push(ModId::ModrinthId(projects[i].clone()));
        i = i + 1;
    }
    assert(dependencies.deep_view() =~= projects.deep_view().map_values(
        |id: Seq<char>| ModIdView::Modrinth(id),
    ));
    Candidate {
        download_url: Some(file.url),
        filename: file.filename,
        length: file.size as u64,
        dependencies,
    }
}

} // verus!
