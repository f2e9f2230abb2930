use modbreeze::{
    clean, find_dupes_by_filename, quarantine_directory, remove_dupes, Downloadable, FileAction,
};

fn target(directory: &str, filename: &str) -> Downloadable {
    Downloadable {
        download_url: format!("https://example.org/{}/{}", directory, filename),
        directory: String::from(directory),
        filename: String::from(filename),
        length: 1,
    }
}

fn listing(names: &[&str]) -> Vec<String> {
    names.iter().map(|name| String::from(*name)).collect()
}

fn names_of(targets: &[Downloadable]) -> Vec<String> {
    targets.iter().map(|d| d.filename.clone()).collect()
}

#[test]
fn of_two_files_with_one_name_one_is_kept() {
    let mut targets = vec![target("mods", "a.jar"), target("mods", "a.jar")];
    targets[1].download_url = String::from("https://example.org/elsewhere/a.jar");
    let dropped = remove_dupes(&mut targets);
    assert_eq!(dropped, vec!["a.jar"]);
    assert_eq!(targets.len(), 1);
    assert_eq!(targets[0].download_url, "https://example.org/mods/a.jar");
}

#[test]
fn the_first_of_several_files_with_one_name_stays() {
    let mut targets = vec![
        target("mods", "a.jar"),
        target("mods", "b.jar"),
        target("resourcepacks", "a.jar"),
        target("mods", "c.jar"),
        target("mods", "b.jar"),
        target("mods", "a.jar"),
    ];
    assert_eq!(find_dupes_by_filename(&targets), vec![5, 4, 2]);
    let dropped = remove_dupes(&mut targets);
    assert_eq!(dropped, vec!["a.jar", "b.jar", "a.jar"]);
    assert_eq!(names_of(&targets), vec!["a.jar", "b.jar", "c.jar"]);
    assert_eq!(targets[0].directory, "mods");
    assert!(find_dupes_by_filename(&targets).is_empty());
}

#[test]
fn a_list_without_repetitions_is_left_alone() {
    let mut targets = vec![target("mods", "a.jar"), target("mods", "A.jar"), target("mods", "a.jar.zip")];
    assert!(find_dupes_by_filename(&targets).is_empty());
    assert!(remove_dupes(&mut targets).is_empty());
    assert_eq!(names_of(&targets), vec!["a.jar", "A.jar", "a.jar.zip"]);
    let mut none: Vec<Downloadable> = Vec::new();
    assert!(find_dupes_by_filename(&none).is_empty());
    assert!(remove_dupes(&mut none).is_empty());
}

#[test]
fn a_file_that_is_there_is_not_fetched_again() {
    let mut targets = vec![target("mods", "a.jar"), target("mods", "b.jar"), target("mods", "c.jar")];
    let report = clean(&listing(&["b.jar"]), &mut targets, true);
    assert_eq!(report.actions, vec![FileAction::Keep]);
    assert!(report.duplicates.is_empty());
    assert_eq!(names_of(&targets), vec!["a.jar", "c.jar"]);
}

#[test]
fn a_second_run_fetches_nothing() {
    let mut targets = vec![target("mods", "a.jar"), target("mods", "b.jar"), target("mods", "c.jar")];
    let report = clean(&listing(&["c.jar", "a.jar", "b.jar"]), &mut targets, true);
    assert!(targets.is_empty());
    assert_eq!(report.actions, vec![FileAction::Keep, FileAction::Keep, FileAction::Keep]);
}

#[test]
fn an_unrelated_file_is_moved_aside_where_that_is_wanted() {
    let mut targets = vec![target("mods", "a.jar")];
    let report = clean(&listing(&["old-mod.jar", "notes.txt"]), &mut targets, true);
    assert_eq!(report.actions, vec![FileAction::Quarantine, FileAction::Quarantine]);
    assert_eq!(names_of(&targets), vec!["a.jar"]);
}

#[test]
fn an_unrelated_file_is_removed_where_nothing_is_moved_aside() {
    let mut targets = vec![target("resourcepacks", "faithful.zip")];
    let report = clean(&listing(&["old-pack.zip", "faithful.zip"]), &mut targets, false);
    assert_eq!(report.actions, vec![FileAction::Delete, FileAction::Keep]);
    assert!(targets.is_empty());
}

#[test]
fn a_partial_download_is_always_removed() {
    let mut targets = vec![target("mods", "a.jar")];
    let listed = listing(&["a.part", "b.jar.part", ".part", "counterpart", "part", "a.PART", "a.part.jar"]);
    let kept = clean(&listed, &mut targets, true);
    assert_eq!(
        kept.actions,
        vec![
            FileAction::Delete,
            FileAction::Delete,
            FileAction::Delete,
            FileAction::Quarantine,
            FileAction::Quarantine,
            FileAction::Quarantine,
            FileAction::Quarantine,
        ]
    );
    let gone = clean(&listed, &mut targets, false);
    assert!(gone.actions.iter().all(|action| *action == FileAction::Delete));
    assert_eq!(names_of(&targets), vec!["a.jar"]);
}

#[test]
fn a_wanted_partial_name_stays() {
    let mut targets = vec![target("mods", "world.part")];
    let report = clean(&listing(&["world.part"]), &mut targets, false);
    assert_eq!(report.actions, vec![FileAction::Keep]);
    assert!(targets.is_empty());
}

#[test]
fn repetitions_are_dropped_before_the_directory_is_looked_at() {
    let mut targets = vec![target("mods", "a.jar"), target("mods", "b.jar"), target("mods", "a.jar")];
    let report = clean(&listing(&["c.jar"]), &mut targets, true);
    assert_eq!(report.duplicates, vec!["a.jar"]);
    assert_eq!(report.actions, vec![FileAction::Quarantine]);
    assert_eq!(names_of(&targets), vec!["a.jar", "b.jar"]);
}

#[test]
fn a_name_listed_twice_is_kept_both_times() {
    let mut targets = vec![target("mods", "a.jar")];
    let report = clean(&listing(&["a.jar", "a.jar"]), &mut targets, true);
    assert_eq!(report.actions, vec![FileAction::Keep, FileAction::Keep]);
    assert!(targets.is_empty());
}

#[test]
fn an_empty_directory_leaves_everything_to_fetch() {
    let mut targets = vec![target("mods", "a.jar"), target("mods", "b.jar")];
    let report = clean(&Vec::new(), &mut targets, true);
    assert!(report.actions.is_empty());
    assert_eq!(names_of(&targets), vec!["a.jar", "b.jar"]);
}

#[test]
fn a_file_is_wanted_by_its_name_alone() {
    let mut targets = vec![target("mods", "a.jar")];
    let report = clean(&listing(&["a.jar"]), &mut targets, false);
    assert_eq!(report.actions, vec![FileAction::Keep]);
    assert!(targets.is_empty());
    let mut other = vec![target("mods", "a.jar")];
    let report = clean(&listing(&["A.jar"]), &mut other, false);
    assert_eq!(report.actions, vec![FileAction::Delete]);
    assert_eq!(other.len(), 1);
}

#[test]
fn a_file_that_cannot_be_moved_aside_is_removed() {
    assert_eq!(FileAction::Quarantine.after_failed_move(), FileAction::Delete);
    assert_eq!(FileAction::Delete.after_failed_move(), FileAction::Delete);
    assert_eq!(FileAction::Keep.after_failed_move(), FileAction::Keep);
}

#[test]
fn files_are_moved_aside_to_a_hidden_directory() {
    assert_eq!(quarantine_directory(), ".old");
}
