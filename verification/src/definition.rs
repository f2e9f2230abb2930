//! From a pack as it is written down to a [`Pack`].
//!
//! A written pack holds tables from names to entries; each table comes in
//! as the list of its lines, in whatever order its reader walked them.

use vstd::prelude::*;
use crate::errors::{BreezeError, BreezeErrorView};
use crate::resolve::{lists, mod_ids};
use crate::structs::{Loader, Mod, ModId, ModIdView, ModSide, ModView, Pack};
use crate::text::{lowercase, same_text, to_lowercase};

verus! {

/// An entry as it is written: the bare id, or a table with the id and the
/// constraints to leave out.
#[derive(Debug)]
pub enum TomlMod {
    Id(ModId),
    Tabled { id: ModId, ignore_loader: Option<bool>, ignore_version: Option<bool> },
}

/// What a [`TomlMod`] stands for.
pub enum TomlModView {
    Id(ModIdView),
    Tabled { id: ModIdView, ignore_loader: Option<bool>, ignore_version: Option<bool> },
}

impl View for TomlMod {
    type V = TomlModView;

    open spec fn view(&self) -> TomlModView {
        match self {
            TomlMod::Id(id) => TomlModView::Id(id@),
            TomlMod::Tabled { id, ignore_loader, ignore_version } => TomlModView::Tabled {
                id: id@,
                ignore_loader: *ignore_loader,
                ignore_version: *ignore_version,
            },
        }
    }
}

/// One line of a table: the name that an entry is written under, and the
/// entry.
#[derive(Debug)]
pub struct Entry {
    pub name: String,
    pub value: TomlMod,
}

/// What an [`Entry`] stands for.
pub struct EntryView {
    pub name: Seq<char>,
    pub value: TomlModView,
}

impl View for Entry {
    type V = EntryView;

    open spec fn view(&self) -> EntryView {
        EntryView { name: self.name@, value: self.value@ }
    }
}

impl DeepView for Entry {
    type V = EntryView;

    open spec fn deep_view(&self) -> EntryView {
        self@
    }
}

/// The tables of mods of a written pack, one for each side.
#[derive(Debug)]
pub struct Mods {
    pub client: Option<Vec<Entry>>,
    pub server: Option<Vec<Entry>>,
    pub common: Option<Vec<Entry>>,
}

/// A pack as it is written down.
#[derive(Debug)]
pub struct Data {
    pub name: String,
    pub version: String,
    pub loader: String,
    pub mc_version: String,
    pub mods: Mods,
    pub resourcepacks: Option<Vec<Entry>>,
    pub shaderpacks: Option<Vec<Entry>>,
}

/// What a [`Pack`] stands for.
pub struct PackView {
    pub name: Seq<char>,
    pub version: Seq<char>,
    pub loader: Loader,
    pub mc_version: Seq<char>,
    pub mods: Seq<ModView>,
    pub resourcepacks: Seq<ModView>,
    pub shaderpacks: Seq<ModView>,
}

impl View for Pack {
    type V = PackView;

    open spec fn view(&self) -> PackView {
        PackView {
            name: self.name@,
            version: self.version@,
            loader: self.loader,
            mc_version: self.mc_version@,
            mods: self.mods.deep_view(),
            resourcepacks: self.resourcepacks.deep_view(),
            shaderpacks: self.shaderpacks.deep_view(),
        }
    }
}

/// The loader that a lower-case name stands for.
pub open spec fn loader_named(name: Seq<char>) -> Option<Loader> {
    if name == "forge"@ {
        Some(Loader::Forge)
    } else if name == "fabric"@ {
        Some(Loader::Fabric)
    } else if name == "quilt"@ {
        Some(Loader::Quilt)
    } else {
        None
    }
}

/// The reference that a written entry of a side's table stands for. A
/// bare id keeps both constraints, but for resource packs and shader
/// packs, which no loader constrains.
pub open spec fn converted(entry: EntryView, side: ModSide) -> ModView {
    match entry.value {
        TomlModView::Id(id) => ModView {
            name: entry.name,
            id,
            side,
            ignore_loader: side == ModSide::Resourcepack || side == ModSide::Shaderpack,
            ignore_version: false,
        },
        TomlModView::Tabled { id, ignore_loader, ignore_version } => ModView {
            name: entry.name,
            id,
            side,
            ignore_loader: match ignore_loader {
                Some(flag) => flag,
                None => false,
            },
            ignore_version: match ignore_version {
                Some(flag) => flag,
                None => false,
            },
        },
    }
}

/// The lines of a table that may be missing.
pub open spec fn lines(table: Option<Vec<Entry>>) -> Seq<EntryView> {
    match table {
        Some(entries) => entries.deep_view(),
        None => Seq::empty(),
    }
}

/// The references that a table stands for, in the order of its lines.
pub open spec fn table_mods(table: Seq<EntryView>, side: ModSide) -> Seq<ModView> {
    table.map_values(|entry: EntryView| converted(entry, side))
}

/// The references of a table whose id the list had before the table.
pub open spec fn table_duplicates(
    mods: Seq<ModView>,
    table: Seq<EntryView>,
    side: ModSide,
) -> Seq<ModView> {
    table_mods(table, side).filter(|m: ModView| mod_ids(mods).contains(m.id))
}

/// A list of references after a table was added to it: the references of
/// the table follow, but for those whose id the list had before.
pub open spec fn with_table(mods: Seq<ModView>, table: Seq<EntryView>, side: ModSide) -> Seq<
    ModView,
> {
    mods + table_mods(table, side).filter(|m: ModView| !mod_ids(mods).contains(m.id))
}

/// The references that are not CurseForge projects.
pub open spec fn without_curseforge(mods: Seq<ModView>) -> Seq<ModView> {
    mods.filter(|m: ModView| !(m.id is CurseForge))
}

/// The mods of a written pack: client, server, then common.
pub open spec fn pack_mods(data: Data) -> Seq<ModView> {
    with_table(
        with_table(
            with_table(Seq::empty(), lines(data.mods.client), ModSide::Client),
            lines(data.mods.server),
            ModSide::Server,
        ),
        lines(data.mods.common),
        ModSide::All,
    )
}

/// The resource packs of a written pack.
pub open spec fn pack_resourcepacks(data: Data) -> Seq<ModView> {
    with_table(Seq::empty(), lines(data.resourcepacks), ModSide::Resourcepack)
}

/// The shader packs of a written pack: those that CurseForge hosts cannot
/// be fetched, and are left out.
pub open spec fn pack_shaderpacks(data: Data) -> Seq<ModView> {
    without_curseforge(with_table(Seq::empty(), lines(data.shaderpacks), ModSide::Shaderpack))
}

/// What a written pack comes to: an error where its loader has no known
/// name or where it holds nothing, and else the pack.
pub open spec fn pack_of(data: Data) -> Result<PackView, BreezeErrorView> {
    match loader_named(lowercase(data.loader@)) {
        None => Err(BreezeErrorView::InvalidLoader),
        Some(loader) => if pack_mods(data).len() == 0 && pack_resourcepacks(data).len() == 0
            && pack_shaderpacks(data).len() == 0 {
            Err(BreezeErrorView::EmptyPack)
        } else {
            Ok(
                PackView {
                    name: data.name@,
                    version: data.version@,
                    loader,
                    mc_version: data.mc_version@,
                    mods: pack_mods(data),
                    resourcepacks: pack_resourcepacks(data),
                    shaderpacks: pack_shaderpacks(data),
                },
            )
        },
    }
}

impl Loader {
    /// The loader that a name in lower case stands for.
    pub fn from_lowercase(name: &str) -> (r: Option<Loader>)
        ensures
            r == loader_named(name@),
    {
        if same_text(name, "forge") {
            Some(Loader::Forge)
        } else if same_text(name, "fabric") {
            Some(Loader::Fabric)
        } else if same_text(name, "quilt") {
            Some(Loader::Quilt)
        } else {
            None
        }
    }

    /// The loader that a name stands for, whatever the case of its letters.
    pub fn parse(name: &str) -> (r: Option<Loader>)
        ensures
            r == loader_named(lowercase(name@)),
    {
        let lower = to_lowercase(name);
        Loader::from_lowercase(lower.as_str())
    }
}

/// The reference that a written entry of a side's table stands for.
pub fn convert_entry(entry: &Entry, side: ModSide) -> (r: Mod)
    ensures
        r@ == converted(entry@, side),
{
    match &entry.value {
        TomlMod::Id(id) => Mod {
            name: entry.name.clone(),
            id: id.clone(),
            side,
            ignore_loader: side == ModSide::Resourcepack || side == ModSide::Shaderpack,
            ignore_version: false,
        },
        TomlMod::Tabled { id, ignore_loader, ignore_version } => Mod {
            name: entry.name.clone(),
            id: id.clone(),
            side,
            ignore_loader: match ignore_loader {
                Some(flag) => *flag,
                None => false,
            },
            ignore_version: match ignore_version {
                Some(flag) => *flag,
                None => false,
            },
        },
    }
}

/// Adds the references of a table to a list. A reference whose id the
/// list had before the table is not added; those are handed back, so that
/// they can be told to the user.
pub fn convert_mods(mods: &mut Vec<Mod>, raw: Option<Vec<Entry>>, side: ModSide) -> (r: Vec<Mod>)
    ensures
        final(mods).deep_view() == with_table(old(mods).deep_view(), lines(raw), side),
        r.deep_view() == table_duplicates(old(mods).deep_view(), lines(raw), side),
{
    let ghost before = mods.deep_view();
    let ghost fresh = |m: ModView| !mod_ids(before).contains(m.id);
    let ghost known = |m: ModView| mod_ids(before).contains(m.id);
    let mut duplicates: Vec<Mod> = Vec::new();
    proof {
        reveal(Seq::filter);
        assert(duplicates.deep_view() =~= Seq::empty());
    }
    let entries = match raw {
        None => {
            assert(mods.deep_view() =~= before + Seq::<ModView>::empty().filter(fresh));
            return duplicates;
        },
        Some(entries) => entries,
    };
    let ghost table = table_mods(entries.deep_view(), side);
    let mut added: Vec<Mod> = Vec::new();
    let mut i: usize = 0;
    proof {
        assert(table.take(0) =~= Seq::empty());
        assert(added.deep_view() =~= Seq::empty());
    }
    while i < entries.len()
        invariant
            i <= entries.len(),
            mods.deep_view() == before,
            table == table_mods(entries.deep_view(), side),
            fresh == |m: ModView| !mod_ids(before).contains(m.id),
            known == |m: ModView| mod_ids(before).contains(m.id),
            added.deep_view() == table.take(i as int).filter(fresh),
            duplicates.deep_view() == table.take(i as int).filter(known),
        decreases entries.len() - i,
    {
        let ghost so_far = added.deep_view();
        let ghost skipped = duplicates.deep_view();
        let m = convert_entry(&entries[i], side);
        proof {
            reveal(Seq::filter);
            assert(table.take(i + 1).drop_last() =~= table.take(i as int));
            assert(table.take(i + 1).last() == m@);
        }
        if lists(mods, &m.id) {
            duplicates.push(m);
            assert(duplicates.deep_view() =~= skipped.push(m@));
        } else {
            added.push(m);
            assert(added.deep_view() =~= so_far.push(m@));
        }
        i = i + 1;
    }
    assert(table.take(entries.len() as int) =~= table);
    let ghost all_added = added.deep_view();
    mods.append(&mut added);
    assert(mods.deep_view() =~= before + all_added);
    duplicates
}

/// The references of a list that are not CurseForge projects.
pub fn drop_curseforge(mods: &Vec<Mod>) -> (r: Vec<Mod>)
    ensures
        r.deep_view() == without_curseforge(mods.deep_view()),
{
    let ghost all = mods.deep_view();
    let ghost wanted = |m: ModView| !(m.id is CurseForge);
    let mut r: Vec<Mod> = Vec::new();
    let mut i: usize = 0;
    proof {
        reveal(Seq::filter);
        assert(all.take(0) =~= Seq::empty());
        assert(r.deep_view() =~= Seq::empty());
    }
    while i < mods.len()
        invariant
            i <= mods.len(),
            all == mods.deep_view(),
            wanted == |m: ModView| !(m.id is CurseForge),
            r.deep_view() == all.take(i as int).filter(wanted),
        decreases mods.len() - i,
    {
        let ghost before = r.deep_view();
        proof {
            reveal(Seq::filter);
            assert(all.take(i + 1).drop_last() =~= all.take(i as int));
        }
        let keep = match &mods[i].id {
            ModId::CurseForgeId(_) => false,
            ModId::ModrinthId(_) => true,
        };
        if keep {
            r.push(mods[i].clone());
            assert(r.deep_view() =~= before.push(all[i as int]));
        }
        i = i + 1;
    }
    assert(all.take(all.len() as int) =~= all);
    r
}

impl Pack {
    /// Makes a pack of a written pack. That fails where the loader has no
    /// known name, and where the pack holds no mod, no resource pack and
    /// no shader pack.
    pub fn try_from(data: Data) -> (r: Result<Pack, BreezeError>)
        ensures
            match r {
                Ok(pack) => pack_of(data) == Ok::<PackView, BreezeErrorView>(pack@),
                Err(e) => pack_of(data) == Err::<PackView, BreezeErrorView>(e@),
            },
    {
        let loader = match Loader::parse(data.loader.as_str()) {
            Some(loader) => loader,
            None => {
                return Err(BreezeError::InvalidLoader);
            },
        };
        let mut mods: Vec<Mod> = Vec::new();
        assert(mods.deep_view() =~= Seq::empty());
        let _ = convert_mods(&mut mods, data.mods.client, ModSide::Client);
        let _ = convert_mods(&mut mods, data.mods.server, ModSide::Server);
        let _ = convert_mods(&mut mods, data.mods.common, ModSide::All);
        let mut resourcepacks: Vec<Mod> = Vec::new();
        assert(resourcepacks.deep_view() =~= Seq::empty());
        let _ = convert_mods(&mut resourcepacks, data.resourcepacks, ModSide::Resourcepack);
        let mut listed: Vec<Mod> = Vec::new();
        assert(listed.deep_view() =~= Seq::empty());
        let _ = convert_mods(&mut listed, data.shaderpacks, ModSide::Shaderpack);
        let shaderpacks = drop_curseforge(&listed);
        if mods.len() == 0 && resourcepacks.len() == 0 && shaderpacks.len() == 0 {
            return Err(BreezeError::EmptyPack);
        }
        Ok(
            Pack {
                name: data.name,
                version: data.version,
                loader,
                mc_version: data.mc_version,
                mods,
                resourcepacks,
                shaderpacks,
            },
        )
    }
}

} // verus!
