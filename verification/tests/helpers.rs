use modbreeze::clean::{listed, names_file};
use modbreeze::resolve::{dependency_references, knows, lists, offer_into};
use modbreeze::text::{decimal_text, joined, same_text};
use modbreeze::{Downloadable, Mod, ModId, ModSide};

fn named(name: &str, id: &str) -> Mod {
    Mod {
        name: String::from(name),
        id: ModId::ModrinthId(String::from(id)),
        side: ModSide::All,
        ignore_loader: false,
        ignore_version: false,
    }
}

fn slug(id: &str) -> ModId {
    ModId::ModrinthId(String::from(id))
}

#[test]
fn numbers_are_written_in_decimal() {
    assert_eq!(decimal_text(0), "0");
    assert_eq!(decimal_text(7), "7");
    assert_eq!(decimal_text(10), "10");
    assert_eq!(decimal_text(109), "109");
    assert_eq!(decimal_text(1234567890), "1234567890");
    assert_eq!(decimal_text(u32::MAX), "4294967295");
}

#[test]
fn texts_are_joined_and_told_apart() {
    assert_eq!(joined("Dependency of ", "jei"), "Dependency of jei");
    assert_eq!(joined("", ""), "");
    assert_eq!(joined("a", ""), "a");
    assert!(same_text("forge", "forge"));
    assert!(!same_text("forge", "Forge"));
    assert!(!same_text("forge", "forge "));
    assert!(same_text("", ""));
}

#[test]
fn an_id_is_looked_for_in_a_list() {
    let ids = vec![slug("a"), ModId::CurseForgeId(1), slug("b")];
    assert!(knows(&ids, &slug("b")));
    assert!(knows(&ids, &ModId::CurseForgeId(1)));
    assert!(!knows(&ids, &slug("1")));
    assert!(!knows(&Vec::new(), &slug("a")));
    let mods = vec![named("x", "a"), named("y", "b")];
    assert!(lists(&mods, &slug("a")));
    assert!(!lists(&mods, &slug("x")));
    assert!(!lists(&Vec::new(), &slug("a")));
}

#[test]
fn what_is_known_or_waiting_is_not_taken_again() {
    let known = vec![slug("seen")];
    let mut frontier = vec![named("waiting", "w")];
    let offered = vec![
        named("new", "n"),
        named("seen again", "seen"),
        named("waiting again", "w"),
        named("new again", "n"),
        named("other", "o"),
    ];
    offer_into(&known, &mut frontier, &offered);
    let names: Vec<&str> = frontier.iter().map(|m| m.name.as_str()).collect();
    assert_eq!(names, vec!["waiting", "new", "other"]);
    offer_into(&known, &mut frontier, &Vec::new());
    assert_eq!(frontier.len(), 3);
}

#[test]
fn dependencies_are_named_after_their_parent() {
    let mut parent = named("sodium", "AANobbMI");
    parent.side = ModSide::Client;
    parent.ignore_version = true;
    let dependencies = dependency_references(&parent, &vec![slug("fabric-api"), ModId::CurseForgeId(3)]);
    assert_eq!(dependencies.len(), 2);
    for dependency in &dependencies {
        assert_eq!(dependency.name, "Dependency of sodium");
        assert_eq!(dependency.side, ModSide::Client);
        assert!(!dependency.ignore_loader);
        assert!(dependency.ignore_version);
    }
    assert_eq!(dependencies[0].id, slug("fabric-api"));
    assert_eq!(dependencies[1].id, ModId::CurseForgeId(3));
    assert!(dependency_references(&parent, &Vec::new()).is_empty());
}

#[test]
fn a_name_is_looked_for_among_files() {
    let target = |filename: &str| Downloadable {
        download_url: String::new(),
        directory: String::from("mods"),
        filename: String::from(filename),
        length: 0,
    };
    let targets = vec![target("a.jar"), target("b.jar"), target("c.jar")];
    assert!(names_file(&targets, 3, &String::from("c.jar")));
    assert!(!names_file(&targets, 2, &String::from("c.jar")));
    assert!(names_file(&targets, 1, &String::from("a.jar")));
    assert!(!names_file(&targets, 0, &String::from("a.jar")));
    let listing = vec![String::from("a.jar"), String::from("b.jar")];
    assert!(listed(&listing, &String::from("b.jar")));
    assert!(!listed(&listing, &String::from("B.jar")));
    assert!(!listed(&Vec::new(), &String::from("b.jar")));
}
