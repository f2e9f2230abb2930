//! Resolution, reconciliation and download scheduling for declarative mod packs.

pub mod clean;
pub mod definition;
pub mod download;
pub mod errors;
pub mod flags;
pub mod pipeline;
pub mod registry;
pub mod resolve;
pub mod structs;
pub mod text;

pub use clean::{
    clean, find_dupes_by_filename, quarantine_directory, remove_dupes, Cleaning, FileAction,
};
pub use definition::{convert_entry, convert_mods, Data, Entry, Mods, TomlMod};
pub use download::{checked_count_bytes, count_bytes, Scheduler};
pub use errors::BreezeError;
pub use pipeline::{filter_side, find_answer, get_downloadables, resolve, Listing, Resolved};
pub use registry::{
    curseforge_candidate, curseforge_lookup, curseforge_project, loader_to_check,
    modrinth_candidate, required_dependencies, select_curseforge, select_modrinth,
    version_to_check, versions_with_files, CurseForgeFile, DependencyKind, ModrinthFile, Requirement,
    VersionDependency, REQUIRED_DEPENDENCY,
};
pub use resolve::{
    resolve_reference, Candidate, Lookup, Recorded, Resolution, Resolver, Step, PERMITS,
};
pub use structs::{Downloadable, Loader, Mod, ModId, ModSide, Pack};
