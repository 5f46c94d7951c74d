//! World metadata.

use vstd::prelude::*;
use vstd::string::StringExecFns;

use crate::ids::WorldId;

verus! {

/// Metadata for a single world in the registry.
#[derive(Debug, Clone, PartialEq)]
pub struct WorldMetadata {
    id: WorldId,
    slug: String,
    name: String,
    short_description: String,
}

impl WorldMetadata {
    /// The world's identifier.
    pub closed spec fn ident(&self) -> WorldId {
        self.id
    }

    /// The world's slug.
    pub closed spec fn slug_text(&self) -> Seq<char> {
        self.slug@
    }

    /// The world's display name.
    pub closed spec fn name_text(&self) -> Seq<char> {
        self.name@
    }

    /// The world's one-line description.
    pub closed spec fn description_text(&self) -> Seq<char> {
        self.short_description@
    }

    /// Metadata with a fresh identifier.
    pub fn new(slug: &str, name: &str, short_description: &str) -> (w: Self)
        ensures
            w.slug_text() == slug@,
            w.name_text() == name@,
            w.description_text() == short_description@,
    {
        Self {
            id: WorldId::new(),
            slug: String::from_str(slug),
            name: String::from_str(name),
            short_description: String::from_str(short_description),
        }
    }

    /// The world's identifier.
    pub fn id(&self) -> (id: WorldId)
        ensures
            id == self.ident(),
    {
        self.id
    }

    /// The world's slug.
    pub fn slug(&self) -> (s: &str)
        ensures
            s@ == self.slug_text(),
    {
        self.slug.as_str()
    }

    /// The world's display name.
    pub fn name(&self) -> (s: &str)
        ensures
            s@ == self.name_text(),
    {
        self.name.as_str()
    }

    /// The world's one-line description.
    pub fn short_description(&self) -> (s: &str)
        ensures
            s@ == self.description_text(),
    {
        self.short_description.as_str()
    }
}

} // verus!
