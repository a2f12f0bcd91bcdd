//! What every content scan sits behind: the last items, and the check in front of the next scan.
//!
//! A [`Scanner`] holds the last scan's items, whether a scan is in
//! flight, and the listing the items were scanned from. A rescan is two
//! steps around the scan itself, which runs outside: `begin` decides
//! whether to scan at all, `finish` adopts what the scan returned. A scan
//! already in flight wins, and a rescan keyed to its listing is skipped
//! when nothing changed on disk since the items were scanned.
use vstd::prelude::*;
use crate::storage::{Listing, entries_sorted};
use crate::paths::CompView;

verus! {

/// The last scan's items and whether the next scan runs.
pub struct Scanner<T> {
    items: T,
    scanning: bool,
    /// The listing the current items were scanned from, if they came
    /// through a rescan keyed to a listing.
    listing: Option<Listing>,
}

/// Whether a scan is in flight, and what the items were scanned from.
pub struct ScanState {
    pub scanning: bool,
    pub listing: Option<Seq<(Seq<CompView>, u64, Option<u64>)>>,
}

pub open spec fn listing_view(l: Option<Listing>) -> Option<Seq<(Seq<CompView>, u64, Option<u64>)>> {
    match l {
        Some(x) => Some(x@),
        None => None,
    }
}

impl<T> Scanner<T> {
    pub closed spec fn items(&self) -> T {
        self.items
    }

    pub closed spec fn state(&self) -> ScanState {
        ScanState { scanning: self.scanning, listing: listing_view(self.listing) }
    }

    /// A scanner holding the default (empty) items, with no scan in
    /// flight and no listing.
    pub fn new() -> (r: Scanner<T>)
        where
            T: Default,
        ensures
            r.state() == (ScanState { scanning: false, listing: None }),
    {
        Scanner { items: T::default(), scanning: false, listing: None }
    }

    /// The last scan's items.
    pub fn read(&self) -> (r: &T)
        ensures
            *r == self.items(),
    {
        &self.items
    }

    /// Whether to run a scan now: not while one is in flight. When it says
    /// yes, the scan counts as in flight until [`Self::finish_rescan`].
    pub fn begin_rescan(&mut self) -> (r: bool)
        ensures
            r == !old(self).state().scanning,
            final(self).items() == old(self).items(),
            final(self).state() == (ScanState { scanning: true, ..old(self).state() }),
    {
        if self.scanning {
            return false;
        }
        self.scanning = true;
        true
    }

    /// Adopt what a scan begun by [`Self::begin_rescan`] returned: its
    /// items, or (`None`) the old ones kept.
    pub fn finish_rescan(&mut self, items: Option<T>)
        ensures
            final(self).items() == match items {
                Some(x) => x,
                None => old(self).items(),
            },
            final(self).state() == (ScanState { scanning: false, ..old(self).state() }),
    {
        if let Some(x) = items {
            self.items = x;
        }
        self.scanning = false;
    }

    /// Whether to run a scan of `listing` now: not while one is in
    /// flight, and not when the current items were scanned from the same
    /// listing. When it says yes, the scan counts as in flight until
    /// [`Self::finish_rescan_if_changed`].
    pub fn begin_rescan_if_changed(&mut self, listing: &Listing) -> (r: bool)
        ensures
            r == !(old(self).state().scanning || old(self).state().listing == Some(listing@)),
            final(self).items() == old(self).items(),
            final(self).state() == (if r {
                ScanState { scanning: true, ..old(self).state() }
            } else {
                old(self).state()
            }),
    {
        if self.scanning {
            return false;
        }
        let same = match &self.listing {
            Some(l) => l.same(listing),
            None => false,
        };
        if same {
            return false;
        }
        self.scanning = true;
        true
    }

    /// Adopt what a scan of `listing` returned: its items, remembered as
    /// scanned from `listing`; or (`None`) the old items and listing kept.
    /// The listing predates the reads, so a file changing mid-scan errs
    /// toward one extra rescan, never a missed one.
    pub fn finish_rescan_if_changed(&mut self, items: Option<T>, listing: Listing)
        ensures
            match items {
                Some(x) => final(self).items() == x && final(self).state() == (ScanState {
                    scanning: false,
                    listing: Some(listing@),
                }),
                None => final(self).items() == old(self).items() && final(self).state() == (ScanState {
                    scanning: false,
                    ..old(self).state()
                }),
            },
    {
        if let Some(x) = items {
            self.items = x;
            self.listing = Some(listing);
        }
        self.scanning = false;
    }
}

/// Once a listing-keyed scan of some files has been adopted, a keyed rescan of a
/// fresh listing of the same files, whatever order the walk found them
/// in, is skipped.
pub proof fn law_unchanged_files_skip_the_rescan(
    adopted: Seq<(Seq<CompView>, u64, Option<u64>)>,
    fresh: Seq<(Seq<CompView>, u64, Option<u64>)>,
    state: ScanState,
)
    requires
        entries_sorted(adopted),
        entries_sorted(fresh),
        adopted.to_multiset() == fresh.to_multiset(),
        state.listing == Some(adopted),
    ensures
        state.scanning || state.listing == Some(fresh),
{
    crate::storage::law_listing_ignores_walk_order(adopted, fresh);
}

} // verus!
