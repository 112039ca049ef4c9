//! Size discovery before the transfers start, and the planning of each
//! transfer from what it found.

use vstd::prelude::*;
use crate::hf::DownloadItem;
use crate::naming::{candidate_for, final_name, generate_actual_filename, needs_fallback};

verus! {

/// How many prescan failures are reported one by one.
pub const PRESCAN_WARNING_LIMIT: usize = 5;

/// The part of a probe's response that size discovery reads.
#[derive(Debug, Clone, Copy, PartialEq, Eq, Structural)]
pub struct ProbeAnswer {
    /// The status was a success (2xx).
    pub success: bool,
    /// The `Content-Length` header, when present.
    pub content_length: Option<u64>,
}

/// The size that a metadata-only (HEAD) probe gives: a successful answer with
/// a nonzero length. `None` (no answer, or no usable length) calls for a GET.
pub fn size_from_head(head: Option<ProbeAnswer>) -> (r: Option<u64>)
    ensures
        r == (match head {
            Some(a) => match a.content_length {
                Some(l) => if a.success && l > 0 { Some(l) } else { None },
                None => None,
            },
            None => None,
        }),
{
    match head {
        Some(a) => match a.content_length {
            Some(l) => if a.success && l > 0 { Some(l) } else { None },
            None => None,
        },
        None => None,
    }
}

/// The size that the fallback GET gives: a successful answer with a length,
/// even 0. `None` means the size could not be found.
pub fn size_from_get(get: Option<ProbeAnswer>) -> (r: Option<u64>)
    ensures
        r == (match get {
            Some(a) => if a.success { a.content_length } else { None },
            None => None,
        }),
{
    match get {
        Some(a) => if a.success { a.content_length } else { None },
        None => None,
    }
}

/// What to print when a probe fails.
#[derive(Debug, Clone, Copy, PartialEq, Eq, Structural)]
pub enum WarningAction {
    /// Print a warning for this item.
    Print,
    /// Print, once, that further warnings are suppressed.
    AnnounceSuppression,
    /// Print nothing; the failure is only counted.
    Silent,
}

/// Throttles prescan warnings: the first five failures are printed; after
/// that, failures are only counted, with one notice when `announce` is set.
/// `earlier_failures` is the count before this failure.
pub fn prescan_warning(earlier_failures: usize, announce: bool) -> (r: WarningAction)
    ensures
        earlier_failures < PRESCAN_WARNING_LIMIT ==> r == WarningAction::Print,
        earlier_failures == PRESCAN_WARNING_LIMIT && announce ==> r
            == WarningAction::AnnounceSuppression,
        earlier_failures > PRESCAN_WARNING_LIMIT || (earlier_failures == PRESCAN_WARNING_LIMIT
            && !announce) ==> r == WarningAction::Silent,
{
    if earlier_failures < PRESCAN_WARNING_LIMIT {
        WarningAction::Print
    } else if earlier_failures == PRESCAN_WARNING_LIMIT && announce {
        WarningAction::AnnounceSuppression
    } else {
        WarningAction::Silent
    }
}

/// Sizes found by the prescan, by URL. A URL that was never recorded has
/// size 0 (unknown); a URL recorded twice keeps its last size.
pub struct SizeMap {
    entries: Vec<(String, u64)>,
}

pub open spec fn lookup(entries: Seq<(String, u64)>, url: Seq<char>) -> u64
    decreases entries.len(),
{
    if entries.len() == 0 {
        0
    } else if entries.last().0@ == url {
        entries.last().1
    } else {
        lookup(entries.drop_last(), url)
    }
}

impl SizeMap {
    /// The size recorded for a URL, 0 when none was.
    pub closed spec fn size_of(&self, url: Seq<char>) -> u64 {
        lookup(self.entries@, url)
    }

    pub fn new() -> (r: Self)
        ensures
            forall|u: Seq<char>| r.size_of(u) == 0,
    {
        SizeMap { entries: Vec::new() }
    }

    /// Records the size found for `url`.
    pub fn insert(&mut self, url: String, size: u64)
        ensures
            forall|u: Seq<char>|
                #[trigger] final(self).size_of(u) == if u == url@ {
                    size
                } else {
                    old(self).size_of(u)
                },
    {
        let ghost before = self.entries@;
        let ghost key = url@;
        self.entries.push((url, size));
        assert(self.entries@.drop_last() =~= before);
        assert forall|u: Seq<char>|
            #[trigger] lookup(self.entries@, u) == if u == key {
                size
            } else {
                lookup(before, u)
            } by {
            assert(self.entries@.last().0@ == key);
        }
    }

    /// The size recorded for `url`, 0 when none was.
    pub fn get(&self, url: &String) -> (r: u64)
        ensures
            r == self.size_of(url@),
    {
        let mut i: usize = self.entries.len();
        assert(self.entries@.subrange(0, i as int) =~= self.entries@);
        while i > 0
            invariant
                i <= self.entries@.len(),
                lookup(self.entries@, url@) == lookup(self.entries@.subrange(0, i as int), url@),
            decreases i,
        {
            let ghost pre = self.entries@.subrange(0, i as int);
            assert(pre.drop_last() =~= self.entries@.subrange(0, i - 1));
            assert(pre.last() == self.entries@[i - 1]);
            if self.entries[i - 1].0 == *url {
                return self.entries[i - 1].1;
            }
            i = i - 1;
        }
        0
    }
}

/// The sum of the known sizes of the items' URLs.
pub open spec fn sizes_total(items: Seq<DownloadItem>, sizes: SizeMap) -> nat
    decreases items.len(),
{
    if items.len() == 0 {
        0
    } else {
        sizes_total(items.drop_last(), sizes) + sizes.size_of(items.last().url@) as nat
    }
}

/// The length of the overall counter: the sum of all known sizes, held at
/// `u64::MAX`.
pub fn total_download_size(items: &Vec<DownloadItem>, sizes: &SizeMap) -> (r: u64)
    ensures
        r == if sizes_total(items@, *sizes) <= u64::MAX {
            sizes_total(items@, *sizes)
        } else {
            u64::MAX as nat
        },
{
    let mut total: u64 = 0;
    let mut i: usize = 0;
    while i < items.len()
        invariant
            i <= items@.len(),
            total == if sizes_total(items@.subrange(0, i as int), *sizes) <= u64::MAX {
                sizes_total(items@.subrange(0, i as int), *sizes)
            } else {
                u64::MAX as nat
            },
        decreases items@.len() - i,
    {
        assert(items@.subrange(0, i + 1).drop_last() =~= items@.subrange(0, i as int));
        total = total.saturating_add(sizes.get(&items[i].url));
        i = i + 1;
    }
    assert(items@.subrange(0, i as int) =~= items@);
    total
}

/// One planned transfer.
pub struct TransferTask {
    pub url: String,
    /// The name of the file inside the destination directory.
    pub file_name: String,
    /// The size the prescan found, 0 when unknown.
    pub expected: u64,
    /// The preferred name was unsafe and was cut to its base name.
    pub unsafe_preferred: bool,
    /// The name was generated.
    pub fallback: bool,
}

pub open spec fn preferred_view(item: DownloadItem) -> Option<Seq<char>> {
    match item.preferred_filename {
        Some(p) => Some(p@),
        None => None,
    }
}

/// The name under which an item is stored (see `generate_actual_filename`).
pub open spec fn stored_name(item: DownloadItem, timestamp: nat) -> Seq<char> {
    final_name(candidate_for(item.url@, preferred_view(item)).0, timestamp)
}

/// Plans the transfer of one item: its stored name and its expected size.
pub fn plan_transfer(item: &DownloadItem, sizes: &SizeMap, timestamp: u128) -> (r: TransferTask)
    ensures
        r.url@ == item.url@,
        r.file_name@ == stored_name(*item, timestamp as nat),
        r.expected == sizes.size_of(item.url@),
        r.unsafe_preferred == candidate_for(item.url@, preferred_view(*item)).1,
        r.fallback == needs_fallback(candidate_for(item.url@, preferred_view(*item)).0),
{
    let preferred: Option<&str> = match &item.preferred_filename {
        Some(p) => Some(p.as_str()),
        None => None,
    };
    let g = generate_actual_filename(item.url.as_str(), preferred, timestamp);
    TransferTask {
        url: item.url.clone(),
        file_name: g.name,
        expected: sizes.get(&item.url),
        unsafe_preferred: g.unsafe_preferred,
        fallback: g.fallback,
    }
}

} // verus!
