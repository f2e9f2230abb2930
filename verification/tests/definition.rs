use modbreeze::{
    convert_entry, convert_mods, BreezeError, Data, Entry, Loader, Mod, ModId, ModSide, Mods, Pack,
    TomlMod,
};

fn bare(name: &str, id: ModId) -> Entry {
    Entry { name: String::from(name), value: TomlMod::Id(id) }
}

fn tabled(name: &str, id: ModId, ignore_loader: Option<bool>, ignore_version: Option<bool>) -> Entry {
    Entry { name: String::from(name), value: TomlMod::Tabled { id, ignore_loader, ignore_version } }
}

fn modrinth(id: &str) -> ModId {
    ModId::ModrinthId(String::from(id))
}

fn written(loader: &str) -> Data {
    Data {
        name: String::from("a pack"),
        version: String::from("1.2.3"),
        loader: String::from(loader),
        mc_version: String::from("1.19.2"),
        mods: Mods { client: None, server: None, common: None },
        resourcepacks: None,
        shaderpacks: None,
    }
}

#[test]
fn a_loader_is_known_by_its_name_in_any_case() {
    assert_eq!(Loader::parse("forge"), Some(Loader::Forge));
    assert_eq!(Loader::parse("Fabric"), Some(Loader::Fabric));
    assert_eq!(Loader::parse("QUILT"), Some(Loader::Quilt));
    assert_eq!(Loader::parse("rift"), None);
    assert_eq!(Loader::parse(""), None);
    assert_eq!(Loader::parse(" forge"), None);
    assert_eq!(Loader::from_lowercase("forge"), Some(Loader::Forge));
    assert_eq!(Loader::from_lowercase("fabric"), Some(Loader::Fabric));
    assert_eq!(Loader::from_lowercase("quilt"), Some(Loader::Quilt));
    assert_eq!(Loader::from_lowercase("Forge"), None);
}

#[test]
fn an_unknown_loader_is_refused() {
    let mut data = written("liteloader");
    data.mods.common = Some(vec![bare("jei", ModId::CurseForgeId(238222))]);
    assert!(matches!(Pack::try_from(data), Err(BreezeError::InvalidLoader)));
}

#[test]
fn an_unknown_loader_is_told_before_an_empty_pack() {
    assert!(matches!(Pack::try_from(written("")), Err(BreezeError::InvalidLoader)));
}

#[test]
fn a_pack_without_entries_is_refused() {
    assert!(matches!(Pack::try_from(written("forge")), Err(BreezeError::EmptyPack)));
    let mut data = written("forge");
    data.mods = Mods { client: Some(Vec::new()), server: Some(Vec::new()), common: Some(Vec::new()) };
    data.resourcepacks = Some(Vec::new());
    data.shaderpacks = Some(Vec::new());
    assert!(matches!(Pack::try_from(data), Err(BreezeError::EmptyPack)));
}

#[test]
fn a_pack_of_curseforge_shaders_alone_is_empty() {
    let mut data = written("fabric");
    data.shaderpacks = Some(vec![bare("bsl", ModId::CurseForgeId(322506))]);
    assert!(matches!(Pack::try_from(data), Err(BreezeError::EmptyPack)));
}

#[test]
fn the_tables_of_a_pack_become_its_lists() {
    let mut data = written("Quilt");
    data.mods.client = Some(vec![bare("sodium", modrinth("AANobbMI"))]);
    data.mods.server = Some(vec![tabled("lithium", modrinth("gvQqBUqZ"), Some(true), None)]);
    data.mods.common = Some(vec![tabled("jei", ModId::CurseForgeId(238222), None, Some(true))]);
    data.resourcepacks = Some(vec![bare("faithful", modrinth("faithful-32x"))]);
    data.shaderpacks = Some(vec![
        bare("bsl", ModId::CurseForgeId(322506)),
        tabled("complementary", modrinth("R6NEzAwj"), Some(false), Some(false)),
    ]);
    let pack = Pack::try_from(data).unwrap();
    assert_eq!(pack.name, "a pack");
    assert_eq!(pack.version, "1.2.3");
    assert_eq!(pack.loader, Loader::Quilt);
    assert_eq!(pack.mc_version, "1.19.2");
    let mods: Vec<(&str, ModSide, bool, bool)> =
        pack.mods.iter().map(|m| (m.name.as_str(), m.side, m.ignore_loader, m.ignore_version)).collect();
    assert_eq!(
        mods,
        vec![
            ("sodium", ModSide::Client, false, false),
            ("lithium", ModSide::Server, true, false),
            ("jei", ModSide::All, false, true),
        ]
    );
    assert_eq!(pack.mods[2].id, ModId::CurseForgeId(238222));
    assert_eq!(pack.resourcepacks.len(), 1);
    assert_eq!(pack.resourcepacks[0].side, ModSide::Resourcepack);
    assert!(pack.resourcepacks[0].ignore_loader);
    assert!(!pack.resourcepacks[0].ignore_version);
    assert_eq!(pack.shaderpacks.len(), 1);
    assert_eq!(pack.shaderpacks[0].name, "complementary");
    assert_eq!(pack.shaderpacks[0].side, ModSide::Shaderpack);
    assert!(!pack.shaderpacks[0].ignore_loader);
}

#[test]
fn an_id_of_an_earlier_table_is_not_taken_again() {
    let mut data = written("forge");
    data.mods.client = Some(vec![bare("jei", ModId::CurseForgeId(238222))]);
    data.mods.server = Some(vec![bare("jei for servers", ModId::CurseForgeId(238222)), bare("ftb", ModId::CurseForgeId(4))]);
    data.mods.common = Some(vec![bare("ftb again", ModId::CurseForgeId(4))]);
    let pack = Pack::try_from(data).unwrap();
    let names: Vec<&str> = pack.mods.iter().map(|m| m.name.as_str()).collect();
    assert_eq!(names, vec!["jei", "ftb"]);
    assert_eq!(pack.mods[0].side, ModSide::Client);
    assert_eq!(pack.mods[1].side, ModSide::Server);
}

#[test]
fn duplicates_are_handed_back() {
    let mut mods = vec![Mod {
        name: String::from("jei"),
        id: ModId::CurseForgeId(238222),
        side: ModSide::Client,
        ignore_loader: false,
        ignore_version: false,
    }];
    let table = vec![
        bare("waila", ModId::CurseForgeId(73488)),
        bare("jei again", ModId::CurseForgeId(238222)),
        bare("waila again", ModId::CurseForgeId(73488)),
    ];
    let skipped = convert_mods(&mut mods, Some(table), ModSide::All);
    assert_eq!(skipped.len(), 1);
    assert_eq!(skipped[0].name, "jei again");
    // Within one table nothing is looked for: names are what a table keeps apart.
    let names: Vec<&str> = mods.iter().map(|m| m.name.as_str()).collect();
    assert_eq!(names, vec!["jei", "waila", "waila again"]);
    assert!(convert_mods(&mut mods, None, ModSide::All).is_empty());
    assert_eq!(mods.len(), 3);
}

#[test]
fn a_bare_id_keeps_its_constraints_but_for_packs_of_resources() {
    for (side, ignores) in [
        (ModSide::Client, false),
        (ModSide::Server, false),
        (ModSide::All, false),
        (ModSide::Resourcepack, true),
        (ModSide::Shaderpack, true),
    ] {
        let m = convert_entry(&bare("x", modrinth("x")), side);
        assert_eq!(m.side, side);
        assert_eq!(m.ignore_loader, ignores);
        assert!(!m.ignore_version);
    }
    let m = convert_entry(&tabled("y", modrinth("y"), None, None), ModSide::Resourcepack);
    assert!(!m.ignore_loader);
    assert!(!m.ignore_version);
    let m = convert_entry(&tabled("y", modrinth("y"), Some(true), Some(true)), ModSide::Client);
    assert!(m.ignore_loader);
    assert!(m.ignore_version);
    assert_eq!(m.name, "y");
    assert_eq!(m.id, modrinth("y"));
}
