//! The conditions under which reading a pack or resolving an entry fails.

use vstd::prelude::*;
use vstd::string::StringExecFns;
use crate::structs::{ModId, ModIdView};
use crate::text::decimal;

verus! {

/// What can go wrong with a pack or with one of its entries.
#[derive(Debug)]
pub enum BreezeError {
    /// The pack names a loader other than forge, fabric or quilt.
    InvalidLoader,
    /// The pack has no entry at all.
    EmptyPack,
    /// The registry offers no file that fits the entry (name, id).
    NoCompatFile(String, ModId),
    /// The chosen file may not be fetched by third parties (name, id).
    DistributionDenied(String, ModId),
}

/// What a [`BreezeError`] stands for.
pub enum BreezeErrorView {
    InvalidLoader,
    EmptyPack,
    NoCompatFile(Seq<char>, ModIdView),
    DistributionDenied(Seq<char>, ModIdView),
}

impl View for BreezeError {
    type V = BreezeErrorView;

    open spec fn view(&self) -> BreezeErrorView {
        match self {
            BreezeError::InvalidLoader => BreezeErrorView::InvalidLoader,
            BreezeError::EmptyPack => BreezeErrorView::EmptyPack,
            BreezeError::NoCompatFile(name, id) => BreezeErrorView::NoCompatFile(name@, id@),
            BreezeError::DistributionDenied(name, id) => BreezeErrorView::DistributionDenied(
                name@,
                id@,
            ),
        }
    }
}

/// An identifier as it is shown: the registry in brackets, then the id.
pub open spec fn id_text(id: ModIdView) -> Seq<char> {
    match id {
        ModIdView::CurseForge(n) => "[CurseForge]"@ + decimal(n),
        ModIdView::Modrinth(s) => "[Modrinth]"@ + s,
    }
}

/// The line that tells a user about an error.
pub open spec fn error_text(e: BreezeErrorView) -> Seq<char> {
    match e {
        BreezeErrorView::InvalidLoader =>
            "invalid mod loader specified. valid options are: forge, fabric, quilt"@,
        BreezeErrorView::EmptyPack => "no mods in the pack"@,
        BreezeErrorView::NoCompatFile(name, id) => "couldn't find compatible file for mod "@ + name
            + ", id: "@ + id_text(id),
        BreezeErrorView::DistributionDenied(name, id) => "distribution denied for mod "@ + name
            + ", id: "@ + id_text(id),
    }
}

impl ModId {
    /// The identifier as it is shown to a user.
    pub fn to_text(&self) -> (r: String)
        ensures
            r@ == id_text(self@),
    {
        match self {
            ModId::CurseForgeId(n) => {
                let digits = crate::text::decimal_text(*n);
                String::from_str("[CurseForge]").concat(digits.as_str())
            },
            ModId::ModrinthId(s) => String::from_str("[Modrinth]").concat(s.as_str()),
        }
    }
}

impl BreezeError {
    /// The line that tells a user about this error.
    pub fn message(&self) -> (r: String)
        ensures
            r@ == error_text(self@),
    {
        match self {
            BreezeError::InvalidLoader => String::from_str(
                "invalid mod loader specified. valid options are: forge, fabric, quilt",
            ),
            BreezeError::EmptyPack => String::from_str("no mods in the pack"),
            BreezeError::NoCompatFile(name, id) => {
                let shown = id.to_text();
                String::from_str("couldn't find compatible file for mod ").concat(
                    name.as_str(),
                ).concat(", id: ").concat(shown.as_str())
            },
            BreezeError::DistributionDenied(name, id) => {
                let shown = id.to_text();
                String::from_str("distribution denied for mod ").concat(name.as_str()).concat(
                    ", id: ",
                ).concat(shown.as_str())
            },
        }
    }
}

} // verus!
