use modbreeze::{
    resolve_reference, BreezeError, Candidate, Lookup, Mod, ModId, ModSide, Recorded, Resolver,
    Step, PERMITS,
};

fn reference(name: &str, id: u32) -> Mod {
    Mod {
        name: String::from(name),
        id: ModId::CurseForgeId(id),
        side: ModSide::All,
        ignore_loader: false,
        ignore_version: false,
    }
}

fn found(filename: &str, length: u64, dependencies: &[u32]) -> Candidate {
    Candidate {
        download_url: Some(format!("https://edge.forgecdn.net/files/{}", filename)),
        filename: String::from(filename),
        length,
        dependencies: dependencies.iter().map(|id| ModId::CurseForgeId(*id)).collect(),
    }
}

fn denied(filename: &str, dependencies: &[u32]) -> Candidate {
    let mut candidate = found(filename, 1, dependencies);
    candidate.download_url = None;
    candidate
}

/// Asks about every reference of the generation under way, in order, and
/// records what `registry` answers.
fn answer_generation(resolver: &mut Resolver, registry: &dyn Fn(&ModId) -> Lookup, asked: &mut Vec<ModId>) {
    while let Some((index, entry)) = resolver.next() {
        asked.push(entry.id.clone());
        resolver.record(index, registry(&entry.id));
    }
}

#[test]
fn nothing_compatible_is_told_with_name_and_id() {
    let parent = reference("jei", 238222);
    match resolve_reference(&parent, None, "mods") {
        Err(BreezeError::NoCompatFile(name, id)) => {
            assert_eq!(name, "jei");
            assert_eq!(id, ModId::CurseForgeId(238222));
        }
        other => panic!("unexpected: {:?}", other),
    }
}

#[test]
fn a_denied_file_is_told_with_name_and_id() {
    let parent = reference("optifine", 55);
    match resolve_reference(&parent, Some(denied("optifine.jar", &[9])), "mods") {
        Err(BreezeError::DistributionDenied(name, id)) => {
            assert_eq!(name, "optifine");
            assert_eq!(id, ModId::CurseForgeId(55));
        }
        other => panic!("unexpected: {:?}", other),
    }
}

#[test]
fn a_selected_file_becomes_a_file_to_fetch() {
    let parent = reference("jei", 238222);
    let resolution = resolve_reference(&parent, Some(found("jei-1.19.jar", 7001, &[])), "mods").unwrap();
    assert_eq!(resolution.downloadable.download_url, "https://edge.forgecdn.net/files/jei-1.19.jar");
    assert_eq!(resolution.downloadable.directory, "mods");
    assert_eq!(resolution.downloadable.filename, "jei-1.19.jar");
    assert_eq!(resolution.downloadable.length, 7001);
    assert!(resolution.dependencies.is_empty());
}

#[test]
fn a_jar_goes_to_the_mods_whatever_asked_for_it() {
    let parent = reference("a pack with a jar", 1);
    let jar = resolve_reference(&parent, Some(found("helper.jar", 1, &[])), "resourcepacks").unwrap();
    assert_eq!(jar.downloadable.directory, "mods");
    let zip = resolve_reference(&parent, Some(found("faithful.zip", 1, &[])), "resourcepacks").unwrap();
    assert_eq!(zip.downloadable.directory, "resourcepacks");
    let shader = resolve_reference(&parent, Some(found("bsl.zip", 1, &[])), "shaderpacks").unwrap();
    assert_eq!(shader.downloadable.directory, "shaderpacks");
    let bare = resolve_reference(&parent, Some(found("jar", 1, &[])), "shaderpacks").unwrap();
    assert_eq!(bare.downloadable.directory, "shaderpacks");
    let upper = resolve_reference(&parent, Some(found("helper.JAR", 1, &[])), "resourcepacks").unwrap();
    assert_eq!(upper.downloadable.directory, "resourcepacks");
}

#[test]
fn dependencies_inherit_from_their_parent() {
    let mut parent = reference("create", 328085);
    parent.side = ModSide::Client;
    parent.ignore_loader = true;
    parent.ignore_version = false;
    let resolution = resolve_reference(&parent, Some(found("create.jar", 1, &[486392, 5])), "mods").unwrap();
    assert_eq!(resolution.dependencies.len(), 2);
    let first = &resolution.dependencies[0];
    assert_eq!(first.name, "Dependency of create");
    assert_eq!(first.id, ModId::CurseForgeId(486392));
    assert_eq!(first.side, ModSide::Client);
    assert!(first.ignore_loader);
    assert!(!first.ignore_version);
    assert_eq!(resolution.dependencies[1].id, ModId::CurseForgeId(5));
    assert_eq!(resolution.dependencies[1].name, "Dependency of create");
}

#[test]
fn two_mods_one_dependency_three_files_two_generations() {
    let registry = |id: &ModId| match id {
        ModId::CurseForgeId(1) => Lookup::Found(found("a.jar", 10, &[3])),
        ModId::CurseForgeId(2) => Lookup::Found(found("b.jar", 20, &[])),
        ModId::CurseForgeId(3) => Lookup::Found(found("c.jar", 30, &[])),
        _ => Lookup::Failed,
    };
    let mut resolver = Resolver::new(&vec![reference("A", 1), reference("B", 2)], "mods", PERMITS);
    let mut asked = Vec::new();
    assert_eq!(resolver.generations(), 1);
    answer_generation(&mut resolver, &registry, &mut asked);
    assert_eq!(resolver.downloads().len(), 2);
    assert_eq!(resolver.advance(), Step::Next);
    assert_eq!(resolver.generations(), 2);
    let third = resolver.reference(0).unwrap();
    assert_eq!(third.id, ModId::CurseForgeId(3));
    assert_eq!(third.name, "Dependency of A");
    assert!(resolver.reference(1).is_none());
    answer_generation(&mut resolver, &registry, &mut asked);
    assert_eq!(resolver.advance(), Step::Finished);
    assert!(resolver.is_finished());
    assert_eq!(resolver.generations(), 2);
    assert_eq!(asked, vec![ModId::CurseForgeId(1), ModId::CurseForgeId(2), ModId::CurseForgeId(3)]);
    assert_eq!(resolver.queried(), asked);
    let downloads = resolver.finish();
    assert_eq!(downloads.len(), 3);
    let names: Vec<&str> = downloads.iter().map(|d| d.filename.as_str()).collect();
    assert_eq!(names, vec!["a.jar", "b.jar", "c.jar"]);
    assert_eq!(downloads[2].length, 30);
}

#[test]
fn a_cycle_comes_to_an_end() {
    let registry = |id: &ModId| match id {
        ModId::CurseForgeId(1) => Lookup::Found(found("a.jar", 1, &[2])),
        ModId::CurseForgeId(2) => Lookup::Found(found("b.jar", 1, &[1])),
        _ => Lookup::Failed,
    };
    let mut resolver = Resolver::new(&vec![reference("A", 1)], "mods", PERMITS);
    let mut asked = Vec::new();
    answer_generation(&mut resolver, &registry, &mut asked);
    assert_eq!(resolver.advance(), Step::Next);
    answer_generation(&mut resolver, &registry, &mut asked);
    assert_eq!(resolver.advance(), Step::Finished);
    assert_eq!(asked, vec![ModId::CurseForgeId(1), ModId::CurseForgeId(2)]);
    assert_eq!(resolver.generations(), 2);
    assert_eq!(resolver.finish().len(), 2);
}

#[test]
fn a_project_that_requires_itself_is_asked_about_once() {
    let registry = |_: &ModId| Lookup::Found(found("a.jar", 1, &[1]));
    let mut resolver = Resolver::new(&vec![reference("A", 1)], "mods", PERMITS);
    let mut asked = Vec::new();
    answer_generation(&mut resolver, &registry, &mut asked);
    assert_eq!(resolver.advance(), Step::Finished);
    assert_eq!(asked.len(), 1);
}

#[test]
fn an_id_reached_through_two_parents_is_asked_about_once() {
    let registry = |id: &ModId| match id {
        ModId::CurseForgeId(1) => Lookup::Found(found("a.jar", 1, &[9])),
        ModId::CurseForgeId(2) => Lookup::Found(found("b.jar", 1, &[9, 9])),
        ModId::CurseForgeId(9) => Lookup::Found(found("lib.jar", 1, &[])),
        _ => Lookup::Failed,
    };
    let mut resolver = Resolver::new(&vec![reference("A", 1), reference("B", 2)], "mods", PERMITS);
    let mut asked = Vec::new();
    answer_generation(&mut resolver, &registry, &mut asked);
    assert_eq!(resolver.advance(), Step::Next);
    assert_eq!(resolver.reference(0).unwrap().name, "Dependency of A");
    assert!(resolver.reference(1).is_none());
    answer_generation(&mut resolver, &registry, &mut asked);
    assert_eq!(resolver.advance(), Step::Finished);
    assert_eq!(asked, vec![ModId::CurseForgeId(1), ModId::CurseForgeId(2), ModId::CurseForgeId(9)]);
    assert_eq!(resolver.finish().len(), 3);
}

#[test]
fn a_direct_entry_wins_over_a_later_dependency() {
    let registry = |id: &ModId| match id {
        ModId::CurseForgeId(1) => Lookup::Found(found("a.jar", 1, &[2])),
        ModId::CurseForgeId(2) => Lookup::Found(found("b.jar", 1, &[])),
        _ => Lookup::Failed,
    };
    let mut direct = reference("B", 2);
    direct.ignore_version = true;
    let mut resolver = Resolver::new(&vec![reference("A", 1), direct], "mods", PERMITS);
    let mut asked = Vec::new();
    answer_generation(&mut resolver, &registry, &mut asked);
    assert_eq!(resolver.advance(), Step::Finished);
    assert_eq!(asked, vec![ModId::CurseForgeId(1), ModId::CurseForgeId(2)]);
    assert_eq!(resolver.generations(), 1);
}

#[test]
fn the_first_of_two_references_to_an_id_is_kept() {
    let mut second = reference("again", 1);
    second.ignore_loader = true;
    let mut resolver = Resolver::new(&vec![reference("first", 1), second, reference("other", 2)], "mods", PERMITS);
    let (index, entry) = resolver.next().unwrap();
    assert_eq!(index, 0);
    assert_eq!(entry.name, "first");
    assert!(!entry.ignore_loader);
    let (index, entry) = resolver.next().unwrap();
    assert_eq!(index, 1);
    assert_eq!(entry.name, "other");
    assert!(resolver.next().is_none());
}

#[test]
fn failures_are_kept_to_the_reference_they_concern() {
    let registry = |id: &ModId| match id {
        ModId::CurseForgeId(1) => Lookup::Failed,
        ModId::CurseForgeId(2) => Lookup::NoMatch,
        ModId::CurseForgeId(3) => Lookup::Found(denied("c.jar", &[7])),
        ModId::CurseForgeId(4) => Lookup::Found(found("d.jar", 4, &[])),
        _ => Lookup::Failed,
    };
    let references = vec![reference("A", 1), reference("B", 2), reference("C", 3), reference("D", 4)];
    let mut resolver = Resolver::new(&references, "mods", PERMITS);
    let mut outcomes = Vec::new();
    while let Some((index, entry)) = resolver.next() {
        outcomes.push(resolver.record(index, registry(&entry.id)));
    }
    assert!(matches!(outcomes[0], Recorded::QueryFailed));
    match &outcomes[1] {
        Recorded::Rejected(BreezeError::NoCompatFile(name, id)) => {
            assert_eq!(name, "B");
            assert_eq!(*id, ModId::CurseForgeId(2));
        }
        other => panic!("unexpected: {:?}", other),
    }
    match &outcomes[2] {
        Recorded::Rejected(BreezeError::DistributionDenied(name, id)) => {
            assert_eq!(name, "C");
            assert_eq!(*id, ModId::CurseForgeId(3));
        }
        other => panic!("unexpected: {:?}", other),
    }
    assert!(matches!(outcomes[3], Recorded::Resolved));
    // What a denied file requires is not looked at.
    assert_eq!(resolver.advance(), Step::Finished);
    let downloads = resolver.finish();
    assert_eq!(downloads.len(), 1);
    assert_eq!(downloads[0].filename, "d.jar");
}

#[test]
fn no_more_queries_are_under_way_than_allowed() {
    let references: Vec<Mod> = (1..=5).map(|id| reference("m", id)).collect();
    let mut resolver = Resolver::new(&references, "mods", 2);
    assert_eq!(resolver.in_flight(), 0);
    assert_eq!(resolver.next().unwrap().0, 0);
    assert_eq!(resolver.next().unwrap().0, 1);
    assert!(resolver.next().is_none());
    assert_eq!(resolver.in_flight(), 2);
    assert!(matches!(resolver.record(1, Lookup::Failed), Recorded::QueryFailed));
    assert_eq!(resolver.in_flight(), 1);
    assert_eq!(resolver.next().unwrap().0, 2);
    assert!(resolver.next().is_none());
    assert_eq!(resolver.in_flight(), 2);
}

#[test]
fn an_answer_that_is_not_awaited_changes_nothing() {
    let mut resolver = Resolver::new(&vec![reference("A", 1), reference("B", 2)], "mods", PERMITS);
    // Not handed out yet.
    assert!(matches!(resolver.record(0, Lookup::Found(found("a.jar", 1, &[5]))), Recorded::Ignored));
    assert_eq!(resolver.downloads().len(), 0);
    let (index, _) = resolver.next().unwrap();
    assert!(matches!(resolver.record(index, Lookup::Found(found("a.jar", 1, &[5]))), Recorded::Resolved));
    // Answered already.
    assert!(matches!(resolver.record(index, Lookup::Found(found("a.jar", 1, &[6]))), Recorded::Ignored));
    // Beyond the generation.
    assert!(matches!(resolver.record(17, Lookup::Failed), Recorded::Ignored));
    assert_eq!(resolver.downloads().len(), 1);
    assert_eq!(resolver.in_flight(), 0);
}

#[test]
fn a_generation_has_to_be_complete_before_the_next_begins() {
    let mut resolver = Resolver::new(&vec![reference("A", 1), reference("B", 2)], "mods", PERMITS);
    assert!(!resolver.is_complete());
    assert_eq!(resolver.advance(), Step::Waiting);
    let (first, _) = resolver.next().unwrap();
    let (second, _) = resolver.next().unwrap();
    resolver.record(first, Lookup::Found(found("a.jar", 1, &[3])));
    assert_eq!(resolver.advance(), Step::Waiting);
    assert_eq!(resolver.generations(), 1);
    resolver.record(second, Lookup::NoMatch);
    assert!(resolver.is_complete());
    assert_eq!(resolver.advance(), Step::Next);
    assert_eq!(resolver.reference(0).unwrap().id, ModId::CurseForgeId(3));
}

#[test]
fn nothing_to_resolve_is_finished_at_once() {
    let mut resolver = Resolver::new(&Vec::new(), "mods", PERMITS);
    assert!(resolver.is_finished());
    assert!(resolver.is_complete());
    assert_eq!(resolver.generations(), 0);
    assert!(resolver.next().is_none());
    assert_eq!(resolver.advance(), Step::Finished);
    assert!(resolver.queried().is_empty());
    assert!(resolver.finish().is_empty());
}

#[test]
fn answers_may_come_in_any_order() {
    let references = vec![reference("A", 1), reference("B", 2)];
    let mut resolver = Resolver::new(&references, "mods", PERMITS);
    let (first, _) = resolver.next().unwrap();
    let (second, _) = resolver.next().unwrap();
    resolver.record(second, Lookup::Found(found("b.jar", 2, &[8, 9])));
    resolver.record(first, Lookup::Found(found("a.jar", 1, &[9, 7])));
    assert_eq!(resolver.advance(), Step::Next);
    let names: Vec<String> = resolver.downloads().iter().map(|d| d.filename.clone()).collect();
    assert_eq!(names, vec!["b.jar", "a.jar"]);
    let next: Vec<(ModId, String)> =
        (0..3).map(|i| resolver.reference(i).unwrap()).map(|m| (m.id, m.name)).collect();
    assert_eq!(
        next,
        vec![
            (ModId::CurseForgeId(8), String::from("Dependency of B")),
            (ModId::CurseForgeId(9), String::from("Dependency of B")),
            (ModId::CurseForgeId(7), String::from("Dependency of A")),
        ]
    );
    assert!(resolver.reference(3).is_none());
}

#[test]
fn seventy_five_queries_may_be_under_way() {
    assert_eq!(PERMITS, 75);
}
