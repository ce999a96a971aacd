//! The model registry: an immutable table resolving a hardware
//! identifier to a human-readable model name. Built once at startup,
//! read-only thereafter; lookup is exact-match only, and absence of an
//! identifier simply yields "not found".

use vstd::prelude::*;

verus! {

/// Static mapping from hardware-identifier string to model name.
pub struct ModelRegistry {
    entries: Vec<(String, String)>,
}

/// The mapping that a sequence of (identifier, model) entries denotes;
/// a later entry for the same identifier supersedes an earlier one.
pub open spec fn spec_entries_map(s: Seq<(String, String)>) -> Map<Seq<char>, Seq<char>>
    decreases s.len(),
{
    if s.len() == 0 {
        Map::empty()
    } else {
        spec_entries_map(s.drop_last()).insert(s.last().0@, s.last().1@)
    }
}

/// Appending one entry inserts its pair into the denoted mapping.
proof fn lemma_entries_map_push(s: Seq<(String, String)>, p: (String, String))
    ensures
        spec_entries_map(s.push(p)) == spec_entries_map(s).insert(p.0@, p.1@),
{
    assert(s.push(p).drop_last() =~= s);
    assert(s.push(p).last() == p);
}

/// Entries whose identifiers differ from `id` leave the resolution of
/// `id` unchanged: the denoted mapping agrees with the one denoted by
/// the first `i` entries alone.
proof fn lemma_lookup_skips_suffix(s: Seq<(String, String)>, id: Seq<char>, i: int)
    requires
        0 <= i <= s.len(),
        forall|j: int| i <= j < s.len() ==> (#[trigger] s[j]).0@ != id,
    ensures
        spec_entries_map(s).contains_key(id) == spec_entries_map(s.take(i)).contains_key(id),
        spec_entries_map(s).contains_key(id) ==> spec_entries_map(s)[id] == spec_entries_map(
            s.take(i),
        )[id],
    decreases s.len() - i,
{
    if i == s.len() {
        assert(s.take(i) =~= s);
    } else {
        lemma_lookup_skips_suffix(s, id, i + 1);
        assert(s.take(i + 1).drop_last() =~= s.take(i));
        assert(s.take(i + 1).last() == s[i]);
        assert(spec_entries_map(s.take(i + 1)) == spec_entries_map(s.take(i)).insert(
            s[i].0@,
            s[i].1@,
        ));
    }
}

/// Whether `r` is the resolution of `id` under the mapping `m`: the
/// exact associated model name when `id` is present, "not found"
/// otherwise.
pub open spec fn spec_resolves_to(
    m: Map<Seq<char>, Seq<char>>,
    id: Seq<char>,
    r: Option<Seq<char>>,
) -> bool {
    match r {
        Some(model) => m.contains_key(id) && model == m[id],
        None => !m.contains_key(id),
    }
}

/// Resolving the same identifier against the same mapping twice yields
/// the same classification both times: the resolution relation is a
/// function of the mapping and the identifier.
pub proof fn lemma_resolution_deterministic(
    m: Map<Seq<char>, Seq<char>>,
    id: Seq<char>,
    r1: Option<Seq<char>>,
    r2: Option<Seq<char>>,
)
    requires
        spec_resolves_to(m, id, r1),
        spec_resolves_to(m, id, r2),
    ensures
        r1 == r2,
{
}

/// The fixed table of hardware identifiers observed in the field.
pub open spec fn spec_standard_models() -> Map<Seq<char>, Seq<char>> {
    Map::empty().insert("7AA"@, "Axis W800"@).insert("7DC.1"@, "Axis W100"@).insert(
        "908"@,
        "Axis W101 Alpha"@,
    ).insert("908.1"@, "Axis W101 Alpha"@).insert("908.2"@, "Axis W101 PS"@).insert(
        "908.21"@,
        "Axis W101 Black"@,
    ).insert("908.22"@, "Axis W101 White"@).insert("95F"@, "Axis W110 Alpha"@).insert(
        "95F.1"@,
        "Axis W110 Black"@,
    ).insert("95F.2"@, "Axis W110 Gray"@)
}

impl View for ModelRegistry {
    type V = Map<Seq<char>, Seq<char>>;

    closed spec fn view(&self) -> Map<Seq<char>, Seq<char>> {
        spec_entries_map(self.entries@)
    }
}

impl ModelRegistry {
    /// The registry of all known hardware identifiers.
    pub fn standard() -> (r: ModelRegistry)
        ensures
            r@ == spec_standard_models(),
    {
        let mut entries: Vec<(String, String)> = Vec::new();
        Self::push_entry(&mut entries, "7AA", "Axis W800");
        Self::push_entry(&mut entries, "7DC.1", "Axis W100");
        Self::push_entry(&mut entries, "908", "Axis W101 Alpha");
        Self::push_entry(&mut entries, "908.1", "Axis W101 Alpha");
        Self::push_entry(&mut entries, "908.2", "Axis W101 PS");
        Self::push_entry(&mut entries, "908.21", "Axis W101 Black");
        Self::push_entry(&mut entries, "908.22", "Axis W101 White");
        Self::push_entry(&mut entries, "95F", "Axis W110 Alpha");
        Self::push_entry(&mut entries, "95F.1", "Axis W110 Black");
        Self::push_entry(&mut entries, "95F.2", "Axis W110 Gray");
        ModelRegistry { entries }
    }

    /// Records one identifier-to-model entry.
    fn push_entry(entries: &mut Vec<(String, String)>, id: &str, model: &str)
        ensures
            spec_entries_map(final(entries)@) == spec_entries_map(old(entries)@).insert(
                id@,
                model@,
            ),
    {
        let pair = (id.to_owned(), model.to_owned());
        proof {
            lemma_entries_map_push(entries@, pair);
        }
        entries.push(pair);
    }

    /// Exact-match resolution of a hardware identifier: the associated
    /// model name when present, `None` otherwise.
    pub fn lookup(&self, id: &str) -> (r: Option<&String>)
        ensures
            spec_resolves_to(
                self@,
                id@,
                match r {
                    Some(m) => Some(m@),
                    None => None,
                },
            ),
    {
        let key: String = id.to_owned();
        let n = self.entries.len();
        let mut i: usize = n;
        while i > 0
            invariant
                i <= n,
                n == self.entries@.len(),
                key@ == id@,
                forall|j: int| i <= j < n ==> (#[trigger] self.entries@[j]).0@ != id@,
            decreases i,
        {
            i -= 1;
            if self.entries[i].0 == key {
                proof {
                    lemma_lookup_skips_suffix(self.entries@, id@, i + 1);
                    assert(self.entries@.take(i + 1).drop_last() =~= self.entries@.take(i as int));
                    assert(self.entries@.take(i + 1).last() == self.entries@[i as int]);
                }
                return Some(&self.entries[i].1);
            }
        }
        proof {
            lemma_lookup_skips_suffix(self.entries@, id@, 0);
            assert(self.entries@.take(0) =~= Seq::<(String, String)>::empty());
        }
        None
    }
}

} // verus!
