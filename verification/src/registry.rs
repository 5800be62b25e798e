//! The extraction strategy registry: a per-domain override table that is
//! rebuilt in full and published atomically, and resolution of the processor
//! that applies to a URL.
use vstd::prelude::*;

use crate::models::ContentProcessor;
use crate::text::lower_ascii;
use crate::text::lower_spec;

verus! {

/// One override record: a lowercase hostname and the processor forced for it.
#[derive(Clone, Debug)]
pub struct OverrideEntry {
    pub domain: String,
    pub processor: ContentProcessor,
}

/// A complete override table. It is never mutated in place: a new table is
/// built and published as a whole.
#[derive(Clone, Debug)]
pub struct OverrideTable {
    pub entries: Vec<OverrideEntry>,
}

/// The processor of the last entry whose domain equals `host`, if any: when
/// one domain is bound twice, the later record wins.
pub open spec fn lookup_in(entries: Seq<OverrideEntry>, host: Seq<char>) -> Option<
    ContentProcessor,
>
    decreases entries.len(),
{
    if entries.len() == 0 {
        None
    } else if entries.last().domain@ == host {
        Some(entries.last().processor)
    } else {
        lookup_in(entries.drop_last(), host)
    }
}

impl OverrideTable {
    /// Every stored domain is already ASCII-lowercase.
    pub open spec fn wf(self) -> bool {
        forall|i: int|
            0 <= i < self.entries@.len() ==> self.entries@[i].domain@ == lower_spec(
                self.entries@[i].domain@,
            )
    }

    /// An empty table: no host is overridden.
    pub fn empty() -> (r: OverrideTable)
        ensures
            r.entries@.len() == 0,
            r.wf(),
    {
        OverrideTable { entries: Vec::new() }
    }

    /// Builds a table from raw override records, case-folding each domain.
    pub fn build(records: Vec<(String, ContentProcessor)>) -> (r: OverrideTable)
        ensures
            r.entries@.len() == records@.len(),
            forall|i: int|
                0 <= i < records@.len() ==> r.entries@[i].domain@ == lower_spec(records@[i].0@)
                    && r.entries@[i].processor == records@[i].1,
            r.wf(),
    {
        let mut entries: Vec<OverrideEntry> = Vec::new();
        let mut k: usize = 0;
        while k < records.len()
            invariant
                k <= records@.len(),
                entries@.len() == k,
                forall|i: int|
                    0 <= i < k ==> entries@[i].domain@ == lower_spec(records@[i].0@)
                        && entries@[i].processor == records@[i].1,
            decreases records@.len() - k,
        {
            let domain = lower_ascii(records[k].0.as_str());
            let processor = records[k].1.clone();
            entries.push(OverrideEntry { domain, processor });
            k += 1;
        }
        proof {
            assert forall|i: int|
                0 <= i < entries@.len() implies entries@[i].domain@ == lower_spec(
                entries@[i].domain@,
            ) by {
                assert(entries@[i].domain@ == lower_spec(records@[i].0@));
                lemma_lower_idempotent(records@[i].0@);
            }
        }
        OverrideTable { entries }
    }

    /// The processor overridden for `host`, if any; of several records for
    /// one domain the last one decides.
    pub fn get(&self, host: &str) -> (r: Option<&ContentProcessor>)
        ensures
            match r {
                Some(p) => lookup_in(self.entries@, host@) == Some(*p),
                None => lookup_in(self.entries@, host@) is None,
            },
    {
        let mut k: usize = self.entries.len();
        proof {
            assert(self.entries@.take(k as int) =~= self.entries@);
        }
        while k > 0
            invariant
                k <= self.entries@.len(),
                lookup_in(self.entries@, host@) == lookup_in(self.entries@.take(k as int), host@),
            decreases k,
        {
            let ghost pre = self.entries@.take(k as int);
            proof {
                assert(pre.last() == self.entries@[k as int - 1]);
                assert(pre.drop_last() =~= self.entries@.take(k as int - 1));
            }
            if crate::text::str_eq(self.entries[k - 1].domain.as_str(), host) {
                return Some(&self.entries[k - 1].processor);
            }
            k -= 1;
        }
        None
    }
}

/// An atomically swappable cell holding one published override table.
/// Verus cannot declare `arc_swap`'s strategy types (they live in a private
/// module), so the cell is held opaquely and spoken of through
/// [`stored_cell`].
#[verifier::external_body]
pub struct OverrideCell {
    cell: arc_swap::ArcSwap<OverrideTable>,
}

/// The entries of the table currently published in an override cell.
pub uninterp spec fn stored_cell(c: OverrideCell) -> Seq<OverrideEntry>;

/// Relies on arc_swap::ArcSwapAny::new: the cell starts out publishing `t`.
#[verifier::external_body]
fn cell_new(t: OverrideTable) -> (c: OverrideCell)
    ensures
        stored_cell(c) == t.entries@,
{
    OverrideCell { cell: arc_swap::ArcSwap::from_pointee(t) }
}

/// Relies on arc_swap::ArcSwapAny::store: replaces the published table by `t`
/// as one atomic whole; a concurrent reader observes the old complete table
/// or the new complete table, never a mixture.
#[verifier::external_body]
fn cell_store(c: &mut OverrideCell, t: OverrideTable)
    ensures
        stored_cell(*final(c)) == t.entries@,
{
    c.cell.store(std::sync::Arc::new(t))
}

/// Relies on arc_swap::ArcSwapAny::load: a lock-free read that returns the
/// complete table published in the cell.
#[verifier::external_body]
fn cell_load(c: &OverrideCell) -> (t: OverrideTable)
    ensures
        t.entries@ == stored_cell(*c),
{
    OverrideTable { entries: c.cell.load().entries.clone() }
}

/// The lowercase host of a URL, when the text parses as an absolute URL with
/// a host; a function of the URL text alone.
pub uninterp spec fn url_host(url: Seq<char>) -> Option<Seq<char>>;

/// Relies on url::Url::parse and url::Url::host_str: the host of an absolute
/// URL, case-folded; `None` when the text does not parse or has no host.
#[verifier::external_body]
pub fn extract_domain(url: &str) -> (r: Option<String>)
    ensures
        match r {
            Some(h) => url_host(url@) == Some(h@),
            None => url_host(url@) is None,
        },
{
    url::Url::parse(url).ok().and_then(|u| u.host_str().map(|h| h.to_lowercase()))
}

/// The live registry: an atomically swappable override table. Readers take a
/// complete snapshot without blocking a concurrent writer.
pub struct Registry {
    cell: OverrideCell,
}

impl Registry {
    /// The entries of the currently published table.
    pub closed spec fn table(self) -> Seq<OverrideEntry> {
        stored_cell(self.cell)
    }

    /// A registry with no overrides.
    pub fn new() -> (r: Registry)
        ensures
            r.table().len() == 0,
    {
        Registry { cell: cell_new(OverrideTable::empty()) }
    }

    /// Rebuilds the override table from `overrides` and publishes it as one
    /// atomic whole, replacing the previous table. The records are kept in
    /// order and lookup takes the last match, so of two records for one
    /// domain the later one wins.
    pub fn refresh_domain_overrides(&mut self, overrides: Vec<(String, ContentProcessor)>)
        ensures
            final(self).table().len() == overrides@.len(),
            forall|i: int|
                0 <= i < overrides@.len() ==> final(self).table()[i].domain@ == lower_spec(
                    overrides@[i].0@,
                ) && final(self).table()[i].processor == overrides@[i].1,
    {
        let t = OverrideTable::build(overrides);
        cell_store(&mut self.cell, t);
    }

    /// The override configured for the host of `url`, if the URL has a host
    /// and the current table holds an entry for it.
    pub fn get_domain_override(&self, url: &str) -> (r: Option<ContentProcessor>)
        ensures
            match url_host(url@) {
                Some(h) => r == lookup_in(self.table(), h),
                None => r is None,
            },
    {
        match extract_domain(url) {
            Some(host) => {
                let t = cell_load(&self.cell);
                match t.get(host.as_str()) {
                    Some(p) => Some(p.clone()),
                    None => None,
                }
            },
            None => None,
        }
    }
}

/// The fallback as an owned option.
pub open spec fn opt_value(p: Option<&ContentProcessor>) -> Option<ContentProcessor> {
    match p {
        Some(q) => Some(*q),
        None => None,
    }
}

/// The processor that resolution selects: a configured override for the
/// URL's host strictly wins; otherwise the caller's fallback.
pub open spec fn resolve_spec(
    table: Seq<OverrideEntry>,
    url: Seq<char>,
    fallback: Option<ContentProcessor>,
) -> Option<ContentProcessor> {
    match url_host(url) {
        Some(h) => match lookup_in(table, h) {
            Some(p) => Some(p),
            None => fallback,
        },
        None => fallback,
    }
}

/// Law: for every URL whose host has an override configured, resolution
/// returns that override's processor, whatever fallback the caller supplies.
pub proof fn lemma_override_wins(
    table: Seq<OverrideEntry>,
    url: Seq<char>,
    f1: Option<ContentProcessor>,
    f2: Option<ContentProcessor>,
)
    requires
        url_host(url) is Some,
        lookup_in(table, url_host(url)->Some_0) is Some,
    ensures
        resolve_spec(table, url, f1) == lookup_in(table, url_host(url)->Some_0),
        resolve_spec(table, url, f1) == resolve_spec(table, url, f2),
{
}

/// The processor selected for `url`: the overriding processor of the URL's
/// host if one is configured, else the caller's fallback.
pub fn resolve_processor(reg: &Registry, url: &str, fallback: Option<&ContentProcessor>) -> (r:
    Option<ContentProcessor>)
    ensures
        r == resolve_spec(reg.table(), url@, opt_value(fallback)),
{
    match reg.get_domain_override(url) {
        Some(p) => Some(p),
        None => match fallback {
            Some(p) => Some(p.clone()),
            None => None,
        },
    }
}

/// ASCII case folding is idempotent.
pub proof fn lemma_lower_idempotent(s: Seq<char>)
    ensures
        lower_spec(lower_spec(s)) == lower_spec(s),
{
    assert(lower_spec(lower_spec(s)) =~= lower_spec(s)) by {
        assert forall|i: int| 0 <= i < s.len() implies lower_spec(lower_spec(s))[i] == lower_spec(
            s,
        )[i] by {
            assert(lower_spec(s)[i] == crate::text::lower_char(s[i]));
        }
    }
}

} // verus!
