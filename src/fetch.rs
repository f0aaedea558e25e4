//! The decisions of version resolution: which pages to ask a source host for,
//! when to retry and how long to wait, what a batch of tags resolves to, and
//! the per-process cache of fetched tags. Fetching itself happens outside.
use vstd::prelude::*;

use crate::config::VersionFrom;
use crate::error::Error;
use crate::lock::SingleVersioned;
use crate::text::strings_view;
use crate::version::{find_tag, find_tag_spec};

verus! {

/// Pages fetched together in one batch.
pub const MAX_PAGES: u32 = 4;

/// Attempts made, both for one batch and for batches in a search.
pub const MAX_RETRIES: u32 = 5;

/// The first backoff, in seconds.
pub const BASE_BACKOFF_S: u64 = 1;

pub open spec fn pow2(n: nat) -> nat
    decreases n,
{
    if n == 0 { 1 } else { 2 * pow2((n - 1) as nat) }
}

/// Seconds to wait before retry `attempt`: the base backoff doubled per attempt.
pub fn backoff_seconds(attempt: u32) -> (r: u64)
    requires
        attempt < 63,
    ensures
        r == BASE_BACKOFF_S * pow2(attempt as nat),
{
    let mut r: u64 = BASE_BACKOFF_S;
    let mut i: u32 = 0;
    proof { lemma_pow2_mono(0, 62); }
    while i < attempt
        invariant
            i <= attempt < 63,
            r == pow2(i as nat),
            pow2(i as nat) <= pow2(62),
        decreases attempt - i,
    {
        proof {
            lemma_pow2_mono(i as nat + 1, 62);
            lemma_pow2_62();
        }
        r = r * 2;
        i += 1;
    }
    r
}

proof fn lemma_pow2_mono(a: nat, b: nat)
    requires
        a <= b,
    ensures
        pow2(a) <= pow2(b),
    decreases b,
{
    if a < b {
        lemma_pow2_mono(a, (b - 1) as nat);
    }
}

proof fn lemma_pow2_62()
    ensures
        pow2(62) == 0x4000_0000_0000_0000,
{
    reveal_with_fuel(pow2, 63);
}

/// After a failed fetch at `attempt` (counting from zero): the delay before
/// the next attempt, or `None` when the attempts are used up.
pub fn retry_delay(attempt: u32) -> (r: Option<u64>)
    ensures
        attempt + 1 < MAX_RETRIES ==> r == Some((BASE_BACKOFF_S * pow2(attempt as nat + 1)) as u64),
        attempt + 1 >= MAX_RETRIES ==> r is None,
{
    if attempt < MAX_RETRIES - 1 {
        Some(backoff_seconds(attempt + 1))
    } else {
        None
    }
}

/// The tag pages of batch `offset`: `[MAX_PAGES * offset, MAX_PAGES * (offset + 1))`.
pub fn tag_pages(offset: u32) -> (r: (u32, u32))
    requires
        offset < MAX_RETRIES,
    ensures
        r.0 == MAX_PAGES * offset,
        r.1 == MAX_PAGES * (offset + 1),
{
    (MAX_PAGES * offset, MAX_PAGES * (offset + 1))
}

/// The branch pages of batch `offset`, counted back from the newest page:
/// `None` when the batch lies past the oldest page, otherwise the (zero-based)
/// range `[num_pages - MAX_PAGES * (offset + 1), num_pages - MAX_PAGES * offset)`,
/// cut at the first page.
pub fn branch_pages(num_pages: u32, offset: u32) -> (r: Option<(u32, u32)>)
    requires
        offset < MAX_RETRIES,
    ensures
        num_pages <= MAX_PAGES * offset ==> r is None,
        num_pages > MAX_PAGES * offset ==> (r matches Some((first, last)) && last == num_pages - MAX_PAGES * offset
            && first == if num_pages >= MAX_PAGES * (offset + 1) { num_pages - MAX_PAGES * (offset + 1) } else { 0 }),
{
    let skipped = MAX_PAGES * offset;
    if num_pages <= skipped {
        return None;
    }
    let last = num_pages - skipped;
    let first = if last >= MAX_PAGES { last - MAX_PAGES } else { 0 };
    Some((first, last))
}

/// Branches arrive oldest first; the search wants the newest first.
pub fn newest_first(branches: &Vec<String>) -> (r: Vec<String>)
    ensures
        r@ == branches@.reverse(),
{
    let mut r: Vec<String> = Vec::new();
    let mut i: usize = branches.len();
    while i > 0
        invariant
            i <= branches.len(),
            r@ == branches@.subrange(i as int, branches@.len() as int).reverse(),
        decreases i,
    {
        i -= 1;
        r.push(branches[i].clone());
        assert(r@ =~= branches@.subrange(i as int, branches@.len() as int).reverse());
    }
    assert(branches@.subrange(0, branches@.len() as int) == branches@);
    r
}

/// What to do after searching one batch of tags.
#[derive(Debug)]
pub enum SearchStep {
    /// The version was found.
    Found(String),
    /// Search the next batch.
    Next { offset: u32 },
    /// Every batch was searched in vain.
    Exhausted,
}

/// Searches batch `offset` for `target`, and decides what comes next.
pub fn search_step(target: &str, batch: &Vec<String>, offset: u32) -> (r: SearchStep)
    ensures
        find_tag_spec(target@, strings_view(batch@)) matches Some(t) ==> (r matches SearchStep::Found(x) && x@ == t),
        find_tag_spec(target@, strings_view(batch@)) is None && offset + 1 < MAX_RETRIES ==> (r == (SearchStep::Next { offset: (offset + 1) as u32 })),
        find_tag_spec(target@, strings_view(batch@)) is None && offset + 1 >= MAX_RETRIES ==> (r is Exhausted),
{
    match find_tag(target, batch) {
        Ok(t) => SearchStep::Found(t),
        Err(_) => if offset < MAX_RETRIES - 1 {
            SearchStep::Next { offset: offset + 1 }
        } else {
            SearchStep::Exhausted
        },
    }
}

/// What a batch of a project's tags or branches gives, in the order to search:
/// tags as listed, branches newest first.
pub fn batch_in_search_order(fetched: &Vec<String>, version_from: VersionFrom) -> (r: Vec<String>)
    ensures
        version_from == VersionFrom::Tag ==> r@ == fetched@,
        version_from == VersionFrom::Branch ==> r@ == fetched@.reverse(),
{
    match version_from {
        VersionFrom::Tag => crate::docker_file::clone_strings(fetched),
        VersionFrom::Branch => newest_first(fetched),
    }
}

/// Tags fetched per `(org, project, offset)`, kept for the life of a process.
/// `insert` replaces what is held for a key, so each key is held once; a
/// lookup takes the first entry for its key.
pub struct TagCache {
    entries: Vec<(String, String, u32, Vec<String>)>,
}

/// Index of the first cached batch for the key.
pub open spec fn cache_index(entries: Seq<(String, String, u32, Vec<String>)>, org: Seq<char>, project: Seq<char>, offset: u32) -> Option<int>
    decreases entries.len(),
{
    if entries.len() == 0 {
        None
    } else {
        match cache_index(entries.drop_last(), org, project, offset) {
            Some(i) => Some(i),
            None => if entries.last().0@ == org && entries.last().1@ == project && entries.last().2 == offset {
                Some(entries.len() - 1)
            } else {
                None
            },
        }
    }
}

proof fn lemma_cache_prefix(entries: Seq<(String, String, u32, Vec<String>)>, org: Seq<char>, project: Seq<char>, offset: u32, k: int)
    requires
        0 <= k <= entries.len(),
        cache_index(entries.subrange(0, k), org, project, offset) is Some,
    ensures
        cache_index(entries, org, project, offset) == cache_index(entries.subrange(0, k), org, project, offset),
    decreases entries.len() - k,
{
    if k < entries.len() {
        assert(entries.subrange(0, k + 1).drop_last() == entries.subrange(0, k));
        lemma_cache_prefix(entries, org, project, offset, k + 1);
    } else {
        assert(entries.subrange(0, k) == entries);
    }
}

proof fn lemma_cache_bound(entries: Seq<(String, String, u32, Vec<String>)>, org: Seq<char>, project: Seq<char>, offset: u32)
    ensures
        cache_index(entries, org, project, offset) matches Some(i) ==> 0 <= i < entries.len()
            && entries[i].0@ == org && entries[i].1@ == project && entries[i].2 == offset,
    decreases entries.len(),
{
    if entries.len() > 0 {
        lemma_cache_bound(entries.drop_last(), org, project, offset);
    }
}

impl TagCache {
    /// The batches held.
    pub closed spec fn entries_spec(&self) -> Seq<(String, String, u32, Vec<String>)> {
        self.entries@
    }

    /// What the cache holds for a key.
    pub open spec fn lookup(&self, org: Seq<char>, project: Seq<char>, offset: u32) -> Option<Seq<Seq<char>>> {
        match cache_index(self.entries_spec(), org, project, offset) {
            Some(i) => Some(strings_view(self.entries_spec()[i].3@)),
            None => None,
        }
    }

    /// An empty cache.
    pub fn new() -> (r: TagCache)
        ensures
            forall|o: Seq<char>, p: Seq<char>, n: u32| r.lookup(o, p, n) is None,
    {
        TagCache { entries: Vec::new() }
    }

    fn find(&self, org: &String, project: &String, offset: u32) -> (r: Option<usize>)
        ensures
            r matches Some(i) ==> cache_index(self.entries_spec(), org@, project@, offset) == Some(i as int) && i < self.entries_spec().len(),
            r is None ==> cache_index(self.entries_spec(), org@, project@, offset) is None,
    {
        let mut i: usize = 0;
        while i < self.entries.len()
            invariant
                i <= self.entries.len(),
                cache_index(self.entries@.subrange(0, i as int), org@, project@, offset) is None,
            decreases self.entries.len() - i,
        {
            assert(self.entries@.subrange(0, i + 1).drop_last() == self.entries@.subrange(0, i as int));
            if self.entries[i].0 == *org && self.entries[i].1 == *project && self.entries[i].2 == offset {
                proof { lemma_cache_prefix(self.entries@, org@, project@, offset, i + 1); }
                return Some(i);
            }
            i += 1;
        }
        assert(self.entries@.subrange(0, i as int) == self.entries@);
        None
    }

    /// The tags cached for a key.
    pub fn get(&self, org: &String, project: &String, offset: u32) -> (r: Option<Vec<String>>)
        ensures
            r is Some <==> self.lookup(org@, project@, offset) is Some,
            r matches Some(t) ==> strings_view(t@) == self.lookup(org@, project@, offset)->0,
    {
        match self.find(org, project, offset) {
            Some(i) => Some(crate::docker_file::clone_strings(&self.entries[i].3)),
            None => None,
        }
    }

    /// Caches the tags for a key, replacing what was held for it.
    pub fn insert(&mut self, org: &String, project: &String, offset: u32, tags: Vec<String>)
        ensures
            final(self).lookup(org@, project@, offset) == Some(strings_view(tags@)),
            forall|o: Seq<char>, p: Seq<char>, n: u32|
                !(o == org@ && p == project@ && n == offset) ==> #[trigger] final(self).lookup(o, p, n) == old(self).lookup(o, p, n),
    {
        let ghost before = self.entries@;
        let ghost tv = strings_view(tags@);
        match self.find(org, project, offset) {
            Some(i) => {
                proof { lemma_cache_bound(before, org@, project@, offset); }
                self.entries.set(i, (org.clone(), project.clone(), offset, tags));
                proof {
                    assert(self.entries@ == before.update(i as int, self.entries@[i as int]));
                    assert forall|o: Seq<char>, p: Seq<char>, n: u32| !(o == org@ && p == project@ && n == offset) implies #[trigger] self.lookup(o, p, n) == old(self).lookup(o, p, n) by {
                        lemma_cache_update(before, i as int, self.entries@[i as int], o, p, n);
                        lemma_cache_bound(before, o, p, n);
                    }
                    lemma_cache_update(before, i as int, self.entries@[i as int], org@, project@, offset);
                }
            },
            None => {
                self.entries.push((org.clone(), project.clone(), offset, tags));
                proof {
                    assert(self.entries@.drop_last() == before);
                    assert forall|o: Seq<char>, p: Seq<char>, n: u32| !(o == org@ && p == project@ && n == offset) implies #[trigger] self.lookup(o, p, n) == old(self).lookup(o, p, n) by {
                        lemma_cache_bound(before, o, p, n);
                        assert(cache_index(self.entries@, o, p, n) == cache_index(before, o, p, n));
                        match cache_index(before, o, p, n) {
                            Some(j) => assert(self.entries@[j] == before[j]),
                            None => {},
                        }
                    }
                    lemma_cache_bound(before, org@, project@, offset);
                }
            },
        }
    }
}

/// Replacing an entry by one with the same key leaves every lookup's position alone.
proof fn lemma_cache_update(
    entries: Seq<(String, String, u32, Vec<String>)>,
    i: int,
    e: (String, String, u32, Vec<String>),
    o: Seq<char>,
    p: Seq<char>,
    n: u32,
)
    requires
        0 <= i < entries.len(),
        e.0@ == entries[i].0@ && e.1@ == entries[i].1@ && e.2 == entries[i].2,
    ensures
        cache_index(entries.update(i, e), o, p, n) == cache_index(entries, o, p, n),
    decreases entries.len(),
{
    if entries.len() > 0 {
        if i < entries.len() - 1 {
            assert(entries.update(i, e).drop_last() == entries.drop_last().update(i, e));
            lemma_cache_update(entries.drop_last(), i, e, o, p, n);
        } else {
            assert(entries.update(i, e).drop_last() == entries.drop_last());
        }
    }
}

/// The version that a command printed: its last output line.
pub fn version_from_output(image: &str, output: &Vec<String>) -> (r: Result<String, Error>)
    ensures
        output@.len() > 0 ==> (r matches Ok(v) && v@ == output@.last()@),
        output@.len() == 0 ==> (r matches Err(Error::NoOutput { image: i }) && i@ == image@),
{
    if output.len() == 0 {
        Err(Error::NoOutput { image: String::from_str(image) })
    } else {
        Ok(output[output.len() - 1].clone())
    }
}

/// Adds a definition's resolved versions to the table, keyed by its name and
/// each abstract version.
pub fn record_versions(table: &mut Vec<(SingleVersioned, String)>, name: &String, resolved: &Vec<(String, String)>)
    ensures
        final(table)@.len() == old(table)@.len() + resolved@.len(),
        forall|j: int| 0 <= j < old(table)@.len() ==> #[trigger] final(table)@[j] == old(table)@[j],
        forall|j: int| 0 <= j < resolved@.len() ==> (#[trigger] final(table)@[old(table)@.len() + j]).0.name@ == name@
            && final(table)@[old(table)@.len() + j].0.version@ == resolved@[j].0@
            && final(table)@[old(table)@.len() + j].1@ == resolved@[j].1@,
{
    let ghost n0 = table@.len();
    let mut i: usize = 0;
    while i < resolved.len()
        invariant
            i <= resolved.len(),
            table@.len() == n0 + i,
            n0 == old(table)@.len(),
            forall|j: int| 0 <= j < n0 ==> #[trigger] table@[j] == old(table)@[j],
            forall|j: int| 0 <= j < i ==> (#[trigger] table@[n0 + j]).0.name@ == name@
                && table@[n0 + j].0.version@ == resolved@[j].0@ && table@[n0 + j].1@ == resolved@[j].1@,
        decreases resolved.len() - i,
    {
        table.push((SingleVersioned { name: name.clone(), version: resolved[i].0.clone() }, resolved[i].1.clone()));
        i += 1;
    }
}

/// Each version standing for itself.
pub fn identity_versions(versions: &Vec<String>) -> (r: Vec<(String, String)>)
    ensures
        r@.len() == versions@.len(),
        forall|j: int| 0 <= j < versions@.len() ==> (#[trigger] r@[j]).0@ == versions@[j]@ && r@[j].1@ == versions@[j]@,
{
    let mut r: Vec<(String, String)> = Vec::new();
    let mut i: usize = 0;
    while i < versions.len()
        invariant
            i <= versions.len(),
            r@.len() == i,
            forall|j: int| 0 <= j < i ==> (#[trigger] r@[j]).0@ == versions@[j]@ && r@[j].1@ == versions@[j]@,
        decreases versions.len() - i,
    {
        r.push((versions[i].clone(), versions[i].clone()));
        i += 1;
    }
    r
}

} // verus!
