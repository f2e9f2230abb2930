use modbreeze::{BreezeError, Downloadable, Mod, ModId, ModSide};

fn entry(name: &str, id: ModId, side: ModSide) -> Mod {
    Mod { name: String::from(name), id, side, ignore_loader: false, ignore_version: false }
}

#[test]
fn entries_are_equal_when_their_ids_are() {
    let a = entry("sodium", ModId::ModrinthId(String::from("AANobbMI")), ModSide::Client);
    let mut b = entry("another name", ModId::ModrinthId(String::from("AANobbMI")), ModSide::Server);
    b.ignore_loader = true;
    b.ignore_version = true;
    assert!(a == b);
}

#[test]
fn entries_differ_when_their_ids_do() {
    let a = entry("jei", ModId::CurseForgeId(238222), ModSide::All);
    let b = entry("jei", ModId::CurseForgeId(238223), ModSide::All);
    let c = entry("jei", ModId::ModrinthId(String::from("238222")), ModSide::All);
    assert!(a != b);
    assert!(a != c);
}

#[test]
fn ids_of_the_two_registries_never_meet() {
    assert_ne!(ModId::CurseForgeId(7), ModId::ModrinthId(String::from("7")));
    assert_eq!(ModId::CurseForgeId(7), ModId::CurseForgeId(7));
    assert_eq!(ModId::ModrinthId(String::from("P7dR8mSH")), ModId::ModrinthId(String::from("P7dR8mSH")));
    assert_ne!(ModId::ModrinthId(String::from("P7dR8mSH")), ModId::ModrinthId(String::from("p7dR8mSH")));
}

#[test]
fn a_clone_is_the_same_entry() {
    let mut a = entry("lithium", ModId::ModrinthId(String::from("gvQqBUqZ")), ModSide::Server);
    a.ignore_version = true;
    let b = a.clone();
    assert_eq!(b.name, "lithium");
    assert_eq!(b.id, ModId::ModrinthId(String::from("gvQqBUqZ")));
    assert_eq!(b.side, ModSide::Server);
    assert!(!b.ignore_loader);
    assert!(b.ignore_version);
}

#[test]
fn ids_are_shown_with_their_registry() {
    assert_eq!(ModId::CurseForgeId(238222).to_text(), "[CurseForge]238222");
    assert_eq!(ModId::CurseForgeId(0).to_text(), "[CurseForge]0");
    assert_eq!(ModId::CurseForgeId(10).to_text(), "[CurseForge]10");
    assert_eq!(ModId::CurseForgeId(u32::MAX).to_text(), "[CurseForge]4294967295");
    assert_eq!(ModId::ModrinthId(String::from("AANobbMI")).to_text(), "[Modrinth]AANobbMI");
    assert_eq!(ModId::ModrinthId(String::new()).to_text(), "[Modrinth]");
}

#[test]
fn errors_are_told_in_words() {
    assert_eq!(
        BreezeError::InvalidLoader.message(),
        "invalid mod loader specified. valid options are: forge, fabric, quilt"
    );
    assert_eq!(BreezeError::EmptyPack.message(), "no mods in the pack");
    assert_eq!(
        BreezeError::NoCompatFile(String::from("jei"), ModId::CurseForgeId(238222)).message(),
        "couldn't find compatible file for mod jei, id: [CurseForge]238222"
    );
    assert_eq!(
        BreezeError::DistributionDenied(String::from("sodium"), ModId::ModrinthId(String::from("AANobbMI")))
            .message(),
        "distribution denied for mod sodium, id: [Modrinth]AANobbMI"
    );
}

#[test]
fn an_installation_is_made_for_one_of_three_sides() {
    assert_eq!(ModSide::value_variants(), [ModSide::Client, ModSide::Server, ModSide::All]);
}

#[test]
fn a_file_to_fetch_knows_its_name() {
    let d = Downloadable {
        download_url: String::from("https://cdn.modrinth.com/data/AANobbMI/sodium.jar"),
        directory: String::from("mods"),
        filename: String::from("sodium.jar"),
        length: 1024,
    };
    assert_eq!(d.filename(), "sodium.jar");
    let e = d.clone();
    assert_eq!(e.download_url, d.download_url);
    assert_eq!(e.directory, "mods");
    assert_eq!(e.length, 1024);
}
