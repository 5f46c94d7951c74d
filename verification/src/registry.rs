//! World registry: the in-memory list of worlds, and the validation of the
//! entries read from the registry file.

use vstd::prelude::*;
use vstd::string::StringExecFns;

use crate::error::Error;
use crate::metadata::WorldMetadata;
use crate::text;
use crate::text::{decimal, trimmed};

verus! {

broadcast use vstd::string::group_string_axioms;

/// One `[[world]]` entry of the registry file, as read.
#[derive(Debug, Clone)]
pub struct WorldEntry {
    pub slug: String,
    pub name: String,
    pub short: String,
}

/// What is wrong with entry `i` of `entries`, given that the earlier
/// entries are valid: an empty (trimmed) field, or a slug that an earlier
/// entry already has.
pub open spec fn entry_problem(entries: Seq<WorldEntry>, i: int) -> Option<Seq<char>> {
    let slug = trimmed(entries[i].slug@);
    if slug.len() == 0 {
        Some("slug is empty"@)
    } else if trimmed(entries[i].name@).len() == 0 {
        Some("name is empty"@)
    } else if trimmed(entries[i].short@).len() == 0 {
        Some("short description is empty"@)
    } else if exists|j: int| 0 <= j < i && #[trigger] trimmed(entries[j].slug@) == slug {
        Some("duplicate slug '"@ + slug + "'"@)
    } else {
        None
    }
}

/// The message for a problem with the entry at 1-based position `pos`.
pub open spec fn entry_message(pos: nat, problem: Seq<char>) -> Seq<char> {
    "entry "@ + decimal(pos) + ": "@ + problem
}

/// Are all entries before `k` free of problems?
pub open spec fn entries_ok_before(entries: Seq<WorldEntry>, k: int) -> bool {
    forall|i: int| 0 <= i < k ==> #[trigger] entry_problem(entries, i) is None
}

/// Does world `w` carry the trimmed fields of entry `e`?
pub open spec fn world_from_entry(w: WorldMetadata, e: WorldEntry) -> bool {
    &&& w.slug_text() == trimmed(e.slug@)
    &&& w.name_text() == trimmed(e.name@)
    &&& w.description_text() == trimmed(e.short@)
}

/// Validates registry entries in declaration order: trims each field and
/// rejects the first entry with an empty field or a duplicate slug. On
/// success the worlds keep the entries' order and carry trimmed fields.
pub fn validate_world_entries(entries: &Vec<WorldEntry>) -> (r: core::result::Result<
    Vec<WorldMetadata>,
    String,
>)
    ensures
        match r {
            Ok(worlds) => {
                &&& entries_ok_before(entries@, entries@.len() as int)
                &&& worlds@.len() == entries@.len()
                &&& forall|i: int|
                    0 <= i < entries@.len() ==> world_from_entry(#[trigger] worlds@[i], entries@[i])
            },
            Err(msg) => exists|k: int|
                0 <= k < entries@.len() && entries_ok_before(entries@, k) && (
                #[trigger] entry_problem(entries@, k)) is Some && msg@ == entry_message(
                    (k + 1) as nat,
                    entry_problem(entries@, k)->Some_0,
                ),
        },
{
    let mut worlds: Vec<WorldMetadata> = Vec::new();
    let mut i: usize = 0;
    while i < entries.len()
        invariant
            i <= entries@.len(),
            worlds@.len() == i,
            entries_ok_before(entries@, i as int),
            forall|j: int| 0 <= j < i ==> world_from_entry(#[trigger] worlds@[j], entries@[j]),
        decreases entries@.len() - i,
    {
        let entry = &entries[i];
        let slug = text::trim(entry.slug.as_str());
        let name = text::trim(entry.name.as_str());
        let short = text::trim(entry.short.as_str());
        let problem: Option<String> = if slug.is_empty() {
            Some(String::from_str("slug is empty"))
        } else if name.is_empty() {
            Some(String::from_str("name is empty"))
        } else if short.is_empty() {
            Some(String::from_str("short description is empty"))
        } else {
            let mut dup = false;
            let mut j: usize = 0;
            while j < i
                invariant
                    j <= i,
                    i < entries@.len(),
                    worlds@.len() == i,
                    forall|k: int|
                        0 <= k < i ==> world_from_entry(#[trigger] worlds@[k], entries@[k]),
                    slug@ == trimmed(entries@[i as int].slug@),
                    !dup ==> forall|k: int|
                        0 <= k < j ==> trimmed(#[trigger] entries@[k].slug@) != slug@,
                    dup ==> exists|k: int|
                        0 <= k < i && trimmed(#[trigger] entries@[k].slug@) == slug@,
                decreases i - j,
            {
                if !dup && text::same_text(worlds[j].slug(), slug) {
                    assert(world_from_entry(worlds@[j as int], entries@[j as int]));
                    dup = true;
                }
                j = j + 1;
            }
            if dup {
                let mut m = String::from_str("duplicate slug '");
                m.append(slug);
                m.append("'");
                Some(m)
            } else {
                None
            }
        };
        assert(match problem {
            Some(p) => entry_problem(entries@, i as int) == Some(p@),
            None => entry_problem(entries@, i as int) is None,
        });
        match problem {
            Some(p) => {
                let mut msg = String::from_str("entry ");
                text::append_decimal(&mut msg, i + 1);
                msg.append(": ");
                msg.append(p.as_str());
                assert(msg@ =~= entry_message((i + 1) as nat, p@));
                return Err(msg);
            },
            None => {
                let w = WorldMetadata::new(slug, name, short);
                worlds.push(w);
                proof {
                    assert(entry_problem(entries@, i as int) is None);
                    assert forall|k: int| 0 <= k < i + 1 implies #[trigger] entry_problem(
                        entries@,
                        k,
                    ) is None by {
                        if k < i {
                            assert(entries_ok_before(entries@, i as int));
                        }
                    }
                }
            },
        }
        i = i + 1;
    }
    Ok(worlds)
}

/// An in-memory registry of available worlds.
#[derive(Debug, Clone)]
pub struct WorldRegistry {
    worlds: Vec<WorldMetadata>,
}

impl View for WorldRegistry {
    type V = Seq<WorldMetadata>;

    closed spec fn view(&self) -> Seq<WorldMetadata> {
        self.worlds@
    }
}

impl WorldRegistry {
    /// A registry of the given worlds, in order.
    pub fn new(worlds: Vec<WorldMetadata>) -> (r: Self)
        ensures
            r@ == worlds@,
    {
        Self { worlds }
    }

    /// A registry built from the entries of the registry file at `source`:
    /// fails with a world error if an entry is invalid, or if there are no
    /// worlds.
    pub fn from_entries(entries: &Vec<WorldEntry>, source: &str) -> (r: core::result::Result<
        Self,
        Error,
    >)
        ensures
            match r {
                Ok(reg) => {
                    &&& entries_ok_before(entries@, entries@.len() as int)
                    &&& entries@.len() > 0
                    &&& reg@.len() == entries@.len()
                    &&& forall|i: int|
                        0 <= i < entries@.len() ==> world_from_entry(
                            #[trigger] reg@[i],
                            entries@[i],
                        )
                },
                Err(Error::World(msg)) => {
                    ||| (entries@.len() == 0 && msg@ == "world registry is empty: "@ + source@)
                    ||| exists|k: int|
                        0 <= k < entries@.len() && entries_ok_before(entries@, k) && (
                        #[trigger] entry_problem(entries@, k)) is Some && msg@ == "parsing "@
                            + source@ + ": "@ + entry_message(
                            (k + 1) as nat,
                            entry_problem(entries@, k)->Some_0,
                        )
                },
                Err(_) => false,
            },
    {
        match validate_world_entries(entries) {
            Err(e) => {
                let mut msg = String::from_str("parsing ");
                msg.append(source);
                msg.append(": ");
                msg.append(e.as_str());
                let ghost m = msg@;
                assert(m =~= "parsing "@ + source@ + ": "@ + e@);
                Err(Error::World(msg))
            },
            Ok(worlds) => {
                if worlds.len() == 0 {
                    let mut msg = String::from_str("world registry is empty: ");
                    msg.append(source);
                    Err(Error::World(msg))
                } else {
                    Ok(Self::new(worlds))
                }
            },
        }
    }

    /// The number of worlds.
    pub fn len(&self) -> (n: usize)
        ensures
            n == self@.len(),
    {
        self.worlds.len()
    }

    /// Whether there are no worlds.
    pub fn is_empty(&self) -> (b: bool)
        ensures
            b == (self@.len() == 0),
    {
        self.worlds.len() == 0
    }

    /// The worlds, in order.
    pub fn worlds(&self) -> (w: &[WorldMetadata])
        ensures
            w@ == self@,
    {
        self.worlds.as_slice()
    }

    /// The world at 1-based display position `one_based_index`; `None` when
    /// the position is out of range (0, or past the end).
    pub fn get_by_position(&self, one_based_index: usize) -> (r: Option<&WorldMetadata>)
        ensures
            r == (if 1 <= one_based_index <= self@.len() {
                Some(&self@[one_based_index - 1])
            } else {
                None::<&WorldMetadata>
            }),
    {
        if one_based_index == 0 || one_based_index > self.worlds.len() {
            return None;
        }
        Some(&self.worlds[one_based_index - 1])
    }
}

impl Default for WorldRegistry {
    /// The empty registry.
    fn default() -> (r: Self)
        ensures
            r@.len() == 0,
    {
        Self { worlds: Vec::new() }
    }
}

} // verus!
