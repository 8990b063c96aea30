//! The directory scanner: from the children that reading a directory gave to
//! the entries of a listing.
//!
//! Reading is the caller's part. The scanner decides what the read amounts
//! to: which children are listed, and which failure ends the scan.

use vstd::prelude::*;
use vstd::string::*;
use crate::entry::{
    is_base_name, is_hidden, is_listed, well_formed, Entry, EntryView, ListError, Timestamp, HIDDEN_MARKER,
    SEPARATOR,
};
use crate::text::{contains_char, starts_with_char};

verus! {

/// The attributes of one child, as far as a listing shows them.
#[derive(Clone, Copy, Debug, PartialEq, Eq)]
pub struct Attributes {
    pub size: u64,
    pub modified: Timestamp,
    pub is_directory: bool,
}

/// One child as the contracts see it: its name, and the entry that it makes
/// where its attributes were read.
pub struct ChildView {
    pub name: Seq<char>,
    pub entry: Option<EntryView>,
}

/// The child that a name and the outcome of reading its attributes describe.
pub open spec fn described(name: Seq<char>, attributes: Option<Attributes>) -> ChildView {
    ChildView {
        name,
        entry: match attributes {
            Some(a) => Some(
                EntryView {
                    name,
                    size: a.size as nat,
                    modified: a.modified@,
                    is_directory: a.is_directory,
                },
            ),
            None => None,
        },
    }
}

/// One immediate child of a directory that was read: its base name, and its
/// attributes unless reading them failed.
#[derive(Debug, PartialEq, Eq)]
pub struct Child {
    name: String,
    attributes: Option<Attributes>,
}

impl View for Child {
    type V = ChildView;

    closed spec fn view(&self) -> ChildView {
        described(self.name@, self.attributes)
    }
}

impl Child {
    #[verifier::type_invariant]
    spec fn valid(self) -> bool {
        is_base_name(self.name@)
    }

    /// Makes a child, or nothing where `name` holds a path separator.
    pub fn new(name: String, attributes: Option<Attributes>) -> (made: Option<Child>)
        ensures
            made is Some <==> is_base_name(name@),
            made matches Some(c) ==> c@ == described(name@, attributes),
    {
        if contains_char(name.as_str(), SEPARATOR) {
            None
        } else {
            Some(Child { name, attributes })
        }
    }

    /// The base name.
    pub fn name(&self) -> (name: &str)
        ensures
            name@ == self@.name,
            is_base_name(name@),
    {
        proof {
            use_type_invariant(self);
        }
        self.name.as_str()
    }

    /// Whether the child is listed under the given filter flag.
    pub fn is_listed(&self, show_hidden: bool) -> (listed: bool)
        ensures
            listed == is_listed(self@.name, show_hidden),
    {
        show_hidden || !starts_with_char(self.name.as_str(), HIDDEN_MARKER)
    }

    /// The entry that the child makes, or nothing where its attributes could
    /// not be read.
    pub fn entry(&self) -> (entry: Option<Entry>)
        ensures
            entry is Some <==> self@.entry is Some,
            entry matches Some(e) ==> Some(e@) == self@.entry && well_formed(e@),
    {
        proof {
            use_type_invariant(self);
        }
        match self.attributes {
            Some(a) => Entry::new(self.name.clone(), a.size, a.modified, a.is_directory),
            None => None,
        }
    }
}

/// The views of a sequence of children, in order.
pub open spec fn child_views(children: Seq<Child>) -> Seq<ChildView> {
    Seq::new(children.len(), |i: int| children[i]@)
}

/// What reading a directory gave.
#[derive(Debug, PartialEq, Eq)]
pub enum DirectoryRead {
    /// The path does not exist.
    Missing,
    /// The path exists and cannot be read as a directory.
    Denied,
    /// The immediate children, in the order in which the filesystem gave
    /// them.
    Children(Vec<Child>),
}

/// Whether a child is listed under the given filter flag.
pub open spec fn child_listed(show_hidden: bool) -> spec_fn(ChildView) -> bool {
    |c: ChildView| is_listed(c.name, show_hidden)
}

/// The children that are listed, in their order.
pub open spec fn listed(children: Seq<ChildView>, show_hidden: bool) -> Seq<ChildView> {
    children.filter(child_listed(show_hidden))
}

/// Whether a child ends the scan: it is listed and its attributes could not
/// be read.
pub open spec fn ends_scan(child: ChildView, show_hidden: bool) -> bool {
    is_listed(child.name, show_hidden) && child.entry is None
}

/// What a scan of the given children yields: the failure where a listed
/// child has no attributes, else the entries of the listed children in
/// their order.
pub open spec fn scanned(children: Seq<ChildView>, show_hidden: bool) -> Result<
    Seq<EntryView>,
    ListError,
> {
    if exists|i: int| 0 <= i < children.len() && ends_scan(#[trigger] children[i], show_hidden) {
        Err(ListError::MetadataUnavailable)
    } else {
        Ok(listed(children, show_hidden).map_values(|c: ChildView| c.entry->0))
    }
}

/// What a scan yields for each outcome of reading the directory.
pub open spec fn scan_outcome(read: DirectoryRead, show_hidden: bool) -> Result<
    Seq<EntryView>,
    ListError,
> {
    match read {
        DirectoryRead::Missing => Err(ListError::NotFound),
        DirectoryRead::Denied => Err(ListError::PermissionDenied),
        DirectoryRead::Children(children) => scanned(child_views(children@), show_hidden),
    }
}

/// The outcome of a scan as the contracts see it.
pub open spec fn outcome_view(outcome: Result<Vec<Entry>, ListError>) -> Result<
    Seq<EntryView>,
    ListError,
> {
    match outcome {
        Ok(entries) => Ok(crate::entry::entry_views(entries@)),
        Err(e) => Err(e),
    }
}

/// Scans one directory that was read: the immediate children that are
/// listed under `show_hidden`, in the order in which they were read.
///
/// A missing path fails with `NotFound` and an unreadable one with
/// `PermissionDenied`. A listed child whose attributes could not be read
/// fails the whole scan with `MetadataUnavailable`; a child that the filter
/// leaves out never does. The scan orders nothing.
pub fn scan(read: &DirectoryRead, show_hidden: bool) -> (outcome: Result<Vec<Entry>, ListError>)
    ensures
        outcome_view(outcome) == scan_outcome(*read, show_hidden),
        outcome matches Ok(entries) ==> forall|i: int|
            0 <= i < entries.len() ==> well_formed(#[trigger] entries[i]@),
{
    match read {
        DirectoryRead::Missing => Err(ListError::NotFound),
        DirectoryRead::Denied => Err(ListError::PermissionDenied),
        DirectoryRead::Children(children) => scan_children(children, show_hidden),
    }
}

/// Scans the children of a directory: the listed ones in their order, or
/// the failure where one of them has no attributes.
pub fn scan_children(children: &Vec<Child>, show_hidden: bool) -> (outcome: Result<
    Vec<Entry>,
    ListError,
>)
    ensures
        outcome_view(outcome) == scanned(child_views(children@), show_hidden),
        outcome matches Ok(entries) ==> forall|i: int|
            0 <= i < entries.len() ==> well_formed(#[trigger] entries[i]@),
{
    let ghost all = child_views(children@);
    let ghost keep = child_listed(show_hidden);
    let ghost to_entry = |c: ChildView| c.entry->0;
    let mut entries: Vec<Entry> = Vec::new();
    let mut at: usize = 0;
    while at < children.len()
        invariant
            0 <= at <= children.len(),
            all == child_views(children@),
            keep == child_listed(show_hidden),
            to_entry == |c: ChildView| c.entry->0,
            forall|i: int| 0 <= i < at ==> !ends_scan(#[trigger] all[i], show_hidden),
            crate::entry::entry_views(entries@) == all.take(at as int).filter(keep).map_values(
                to_entry,
            ),
            forall|i: int| 0 <= i < entries.len() ==> well_formed(#[trigger] entries[i]@),
        decreases children.len() - at,
    {
        let child = &children[at];
        proof {
            let before = all.take(at as int);
            let upto = all.take(at as int + 1);
            assert(upto.drop_last() =~= before);
            assert(upto.last() == all[at as int]);
            assert(all[at as int] == child@);
            reveal(Seq::filter);
            assert(upto.filter(keep) == if keep(child@) {
                before.filter(keep).push(child@)
            } else {
                before.filter(keep)
            });
        }
        if child.is_listed(show_hidden) {
            match child.entry() {
                Some(entry) => {
                    let ghost old_views = crate::entry::entry_views(entries@);
                    entries.push(entry);
                    assert(crate::entry::entry_views(entries@) =~= old_views.push(entry@));
                    assert(all.take(at as int).filter(keep).push(child@).map_values(to_entry)
                        =~= all.take(at as int).filter(keep).map_values(to_entry).push(entry@));
                },
                None => {
                    assert(ends_scan(all[at as int], show_hidden));
                    return Err(ListError::MetadataUnavailable);
                },
            }
        }
        at = at + 1;
    }
    assert(all.take(at as int) =~= all);
    Ok(entries)
}

/// A scan that hides nothing lists every child: where it succeeds, it
/// yields as many entries as there are children, each the entry of the
/// child at its place, hidden ones included.
pub proof fn lemma_scan_shows_all(children: Seq<Child>)
    requires
        scanned(child_views(children), true) is Ok,
    ensures
        scanned(child_views(children), true)->Ok_0.len() == children.len(),
        forall|i: int|
            0 <= i < children.len() ==> children[i]@.entry == Some(
                #[trigger] scanned(child_views(children), true)->Ok_0[i],
            ),
{
    let all = child_views(children);
    lemma_filter_keeps_all(all);
    assert forall|i: int| 0 <= i < children.len() implies children[i]@.entry == Some(
        #[trigger] scanned(all, true)->Ok_0[i],
    ) by {
        assert(!ends_scan(all[i], true));
    }
}

/// A scan that hides the hidden yields no entry whose name begins with the
/// hidden marker, whatever the directory holds.
pub proof fn lemma_scan_hides_dotted(children: Seq<Child>)
    requires
        scanned(child_views(children), false) is Ok,
    ensures
        forall|i: int|
            0 <= i < scanned(child_views(children), false)->Ok_0.len() ==> !is_hidden(
                (#[trigger] scanned(child_views(children), false)->Ok_0[i]).name,
            ),
{
    let all = child_views(children);
    let keep = child_listed(false);
    let kept = all.filter(keep);
    broadcast use Seq::lemma_filter_pred, Seq::lemma_filter_contains_rev;

    assert forall|i: int| 0 <= i < scanned(all, false)->Ok_0.len() implies !is_hidden(
        (#[trigger] scanned(all, false)->Ok_0[i]).name,
    ) by {
        assert(keep(kept[i]));
        assert(kept.contains(kept[i]));
        assert(all.contains(kept[i]));
        let j = choose|j: int| 0 <= j < all.len() && all[j] == kept[i];
        assert(!ends_scan(all[j], false));
    }
}

/// Under a filter that keeps everything, the listed children are all the
/// children.
proof fn lemma_filter_keeps_all(children: Seq<ChildView>)
    ensures
        listed(children, true) == children,
    decreases children.len(),
{
    reveal(Seq::filter);
    if children.len() > 0 {
        lemma_filter_keeps_all(children.drop_last());
        assert(children.drop_last().push(children.last()) =~= children);
    }
}

} // verus!
