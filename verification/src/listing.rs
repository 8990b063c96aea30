//! The flat listing of one directory: scan, sort, format.

use vstd::prelude::*;
use crate::entry::{entry_views, EntryView, ListError, ResolvedOptions};
use crate::format::{render, rendered, Rendering, RenderingView};
use crate::scan::{scan, scan_outcome, DirectoryRead};
use crate::sort::{is_stable_sort, lemma_stable_sort_unique, sort};

verus! {

/// Whether `output` is the flat listing of a directory that was read: the
/// failure of the scan where it fails, else the rendering, in the mode of
/// the options, of the scanned entries in stable order by their sort key.
pub open spec fn is_listing_of(
    output: Result<RenderingView, ListError>,
    path: Seq<char>,
    read: DirectoryRead,
    options: ResolvedOptions,
) -> bool {
    let scanned = scan_outcome(read, options.show_hidden);
    if scanned is Err {
        output is Err && output->Err_0 == scanned->Err_0
    } else {
        output is Ok && is_sorted_rendering(
            output->Ok_0,
            path,
            scanned->Ok_0,
            options,
        )
    }
}

/// Whether `output` renders, in the mode of the options, the stable order
/// of `entries` by their sort key.
pub open spec fn is_sorted_rendering(
    output: RenderingView,
    path: Seq<char>,
    entries: Seq<EntryView>,
    options: ResolvedOptions,
) -> bool {
    exists|sorted: Seq<EntryView>| #[trigger]
        is_stable_sort(options.sort_key, entries, sorted) && output == rendered(
            options.mode,
            path,
            sorted,
        )
}

/// The outcome of a listing as the contracts see it.
pub open spec fn listing_view(outcome: Result<Rendering, ListError>) -> Result<
    RenderingView,
    ListError,
> {
    match outcome {
        Ok(output) => Ok(output@),
        Err(e) => Err(e),
    }
}

/// Lists one directory that was read: scans its children under the hidden
/// filter of the options, orders the entries by their sort key and renders
/// them in their mode. A failure of the scan is handed on and nothing is
/// rendered.
pub fn list_directory(path: &str, read: &DirectoryRead, options: &ResolvedOptions) -> (outcome:
    Result<Rendering, ListError>)
    ensures
        is_listing_of(listing_view(outcome), path@, *read, *options),
{
    match scan(read, options.show_hidden) {
        Err(e) => Err(e),
        Ok(entries) => {
            let ghost scanned = entry_views(entries@);
            let sorted = sort(entries, options.sort_key);
            let output = render(options.mode, path, &sorted);
            assert(is_stable_sort(options.sort_key, scanned, entry_views(sorted@)));
            assert(is_sorted_rendering(output@, path@, scanned, *options));
            Ok(output)
        },
    }
}

/// A directory has one listing under given options: two outputs that are
/// both its listing are equal.
pub proof fn lemma_listing_unique(
    first: Result<RenderingView, ListError>,
    second: Result<RenderingView, ListError>,
    path: Seq<char>,
    read: DirectoryRead,
    options: ResolvedOptions,
)
    requires
        is_listing_of(first, path, read, options),
        is_listing_of(second, path, read, options),
    ensures
        first == second,
{
    let scanned = scan_outcome(read, options.show_hidden);
    if scanned is Ok {
        let entries = scanned->Ok_0;
        let a = choose|sorted: Seq<EntryView>| #[trigger]
            is_stable_sort(options.sort_key, entries, sorted) && first->Ok_0 == rendered(
                options.mode,
                path,
                sorted,
            );
        let b = choose|sorted: Seq<EntryView>| #[trigger]
            is_stable_sort(options.sort_key, entries, sorted) && second->Ok_0 == rendered(
                options.mode,
                path,
                sorted,
            );
        lemma_stable_sort_unique(options.sort_key, entries, a, b);
    }
}

} // verus!
