//! The data a pack is made of: entries, their identifiers and sides.

use vstd::prelude::*;
use vstd::std_specs::cmp::PartialEqSpecImpl;

verus! {

/// Which installation a pack entry is meant for.
#[derive(Debug, Clone, Copy, PartialEq, Eq, Structural)]
pub enum ModSide {
    Client,
    Server,
    All,
    Resourcepack,
    Shaderpack,
}

impl ModSide {
    /// The sides that an installation can be made for.
    pub fn value_variants() -> (r: [ModSide; 3])
        ensures
            r@ == seq![ModSide::Client, ModSide::Server, ModSide::All],
    {
        let r = [ModSide::Client, ModSide::Server, ModSide::All];
        assert(r@ =~= seq![ModSide::Client, ModSide::Server, ModSide::All]);
        r
    }
}

/// The mod loader a pack targets.
#[derive(Debug, Clone, Copy, PartialEq, Eq, Structural)]
pub enum Loader {
    Forge,
    Fabric,
    Quilt,
}

/// What a [`ModId`] stands for: a number in the CurseForge namespace or a
/// slug in the Modrinth namespace.
pub enum ModIdView {
    CurseForge(nat),
    Modrinth(Seq<char>),
}

/// The identifier of a project in one of the two registries.
#[derive(Debug)]
pub enum ModId {
    /// CurseForge project number
    CurseForgeId(u32),
    /// Modrinth project id or slug
    ModrinthId(String),
}

impl View for ModId {
    type V = ModIdView;

    open spec fn view(&self) -> ModIdView {
        match self {
            ModId::CurseForgeId(n) => ModIdView::CurseForge(*n as nat),
            ModId::ModrinthId(s) => ModIdView::Modrinth(s@),
        }
    }
}

impl DeepView for ModId {
    type V = ModIdView;

    open spec fn deep_view(&self) -> ModIdView {
        self@
    }
}

impl Clone for ModId {
    fn clone(&self) -> (r: Self)
        ensures
            r == *self,
    {
        match self {
            ModId::CurseForgeId(n) => ModId::CurseForgeId(*n),
            ModId::ModrinthId(s) => ModId::ModrinthId(s.clone()),
        }
    }
}

impl PartialEq for ModId {
    fn eq(&self, other: &Self) -> (r: bool) {
        match (self, other) {
            (ModId::CurseForgeId(a), ModId::CurseForgeId(b)) => *a == *b,
            (ModId::ModrinthId(a), ModId::ModrinthId(b)) => *a == *b,
            _ => false,
        }
    }
}

impl Eq for ModId {

}

impl PartialEqSpecImpl for ModId {
    open spec fn obeys_eq_spec() -> bool {
        true
    }

    open spec fn eq_spec(&self, other: &Self) -> bool {
        self@ == other@
    }
}

/// One named entry of a pack. Two entries are the same entry when they
/// point at the same project: the name is only there to be shown.
#[derive(Debug)]
pub struct Mod {
    pub name: String,
    pub id: ModId,
    pub side: ModSide,
    pub ignore_loader: bool,
    pub ignore_version: bool,
}

/// What a [`Mod`] stands for.
pub struct ModView {
    pub name: Seq<char>,
    pub id: ModIdView,
    pub side: ModSide,
    pub ignore_loader: bool,
    pub ignore_version: bool,
}

impl View for Mod {
    type V = ModView;

    open spec fn view(&self) -> ModView {
        ModView {
            name: self.name@,
            id: self.id@,
            side: self.side,
            ignore_loader: self.ignore_loader,
            ignore_version: self.ignore_version,
        }
    }
}

impl DeepView for Mod {
    type V = ModView;

    open spec fn deep_view(&self) -> ModView {
        self@
    }
}

impl Clone for Mod {
    fn clone(&self) -> (r: Self)
        ensures
            r == *self,
    {
        Mod {
            name: self.name.clone(),
            id: self.id.clone(),
            side: self.side,
            ignore_loader: self.ignore_loader,
            ignore_version: self.ignore_version,
        }
    }
}

impl PartialEq for Mod {
    fn eq(&self, other: &Self) -> (r: bool) {
        self.id == other.id
    }
}

impl PartialEqSpecImpl for Mod {
    open spec fn obeys_eq_spec() -> bool {
        true
    }

    open spec fn eq_spec(&self, other: &Self) -> bool {
        self.id@ == other.id@
    }
}

/// A file to fetch: where it comes from, where it goes below the output
/// root, and how many bytes it holds.
#[derive(Debug)]
pub struct Downloadable {
    pub download_url: String,
    /// The sub-directory of the output root that the file goes to.
    pub directory: String,
    pub filename: String,
    pub length: u64,
}

/// What a [`Downloadable`] stands for.
pub struct DownloadableView {
    pub download_url: Seq<char>,
    pub directory: Seq<char>,
    pub filename: Seq<char>,
    pub length: nat,
}

impl View for Downloadable {
    type V = DownloadableView;

    open spec fn view(&self) -> DownloadableView {
        DownloadableView {
            download_url: self.download_url@,
            directory: self.directory@,
            filename: self.filename@,
            length: self.length as nat,
        }
    }
}

impl DeepView for Downloadable {
    type V = DownloadableView;

    open spec fn deep_view(&self) -> DownloadableView {
        self@
    }
}

impl Clone for Downloadable {
    fn clone(&self) -> (r: Self)
        ensures
            r == *self,
    {
        Downloadable {
            download_url: self.download_url.clone(),
            directory: self.directory.clone(),
            filename: self.filename.clone(),
            length: self.length,
        }
    }
}

impl Downloadable {
    /// The name of the file, without its directory.
    pub fn filename(&self) -> (r: String)
        ensures
            r@ == self@.filename,
    {
        self.filename.clone()
    }
}

/// A pack: what to install, for which loader and game version.
#[derive(Debug)]
pub struct Pack {
    pub name: String,
    pub version: String,
    pub loader: Loader,
    pub mc_version: String,
    pub mods: Vec<Mod>,
    pub resourcepacks: Vec<Mod>,
    pub shaderpacks: Vec<Mod>,
}

} // verus!
