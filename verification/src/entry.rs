//! The entry model: what the engine knows of one filesystem object, and the
//! options that a listing is made under.

use vstd::prelude::*;
use vstd::string::*;
use crate::text::{contains_char, has_char, starts_with_char};

verus! {

/// Seconds from the Unix epoch to the first instant that has a calendar
/// date: the start of the year -262143.
pub const MIN_SECONDS: i64 = -8_334_601_228_800;

/// Seconds from the Unix epoch to the last second that has a calendar
/// date: the end of the year 262142.
pub const MAX_SECONDS: i64 = 8_210_266_876_799;

/// The character that separates the components of a path.
pub const SEPARATOR: char = '/';

/// The character that a hidden entry's name begins with.
pub const HIDDEN_MARKER: char = '.';

/// A point in time as the contracts see it.
pub struct TimestampView {
    /// Whole seconds since the Unix epoch, leap seconds not counted.
    pub seconds: int,
    /// Nanoseconds into that second.
    pub nanos: int,
    /// Seconds that local time is ahead of UTC at this instant.
    pub offset: int,
}

/// A point in time together with the UTC offset that the local timezone has
/// at it, which is what resolves the instant to a local calendar date.
#[derive(Clone, Copy, Debug, PartialEq, Eq)]
pub struct Timestamp {
    seconds: i64,
    nanos: u32,
    offset: i32,
}

/// Whether an instant has a calendar representation: the second lies in the
/// years -262143 to 262142, the nanoseconds within one second and the
/// offset within one day.
pub open spec fn resolvable(t: TimestampView) -> bool {
    &&& MIN_SECONDS <= t.seconds <= MAX_SECONDS
    &&& 0 <= t.nanos < 1_000_000_000
    &&& -86_400 < t.offset < 86_400
}

/// Whether `a` is no later than `b`. The offset plays no part: it says how
/// an instant is written, not when it is.
pub open spec fn time_le(a: TimestampView, b: TimestampView) -> bool {
    a.seconds < b.seconds || (a.seconds == b.seconds && a.nanos <= b.nanos)
}

impl View for Timestamp {
    type V = TimestampView;

    closed spec fn view(&self) -> TimestampView {
        TimestampView {
            seconds: self.seconds as int,
            nanos: self.nanos as int,
            offset: self.offset as int,
        }
    }
}

impl Timestamp {
    #[verifier::type_invariant]
    spec fn valid(self) -> bool {
        resolvable(self@)
    }

    /// Makes a timestamp, or nothing where the instant has no calendar
    /// representation.
    pub fn new(seconds: i64, nanos: u32, offset: i32) -> (made: Option<Timestamp>)
        ensures
            made is Some <==> resolvable(
                (TimestampView {
                    seconds: seconds as int,
                    nanos: nanos as int,
                    offset: offset as int,
                }),
            ),
            made matches Some(t) ==> t@ == (TimestampView {
                seconds: seconds as int,
                nanos: nanos as int,
                offset: offset as int,
            }),
    {
        if MIN_SECONDS <= seconds && seconds <= MAX_SECONDS && nanos < 1_000_000_000 && -86_400
            < offset && offset < 86_400 {
            Some(Timestamp { seconds, nanos, offset })
        } else {
            None
        }
    }

    /// Whole seconds since the Unix epoch.
    pub fn seconds(&self) -> (seconds: i64)
        ensures
            seconds == self@.seconds,
            MIN_SECONDS <= seconds <= MAX_SECONDS,
    {
        proof {
            use_type_invariant(self);
        }
        self.seconds
    }

    /// Nanoseconds into the second.
    pub fn nanos(&self) -> (nanos: u32)
        ensures
            nanos == self@.nanos,
            nanos < 1_000_000_000,
    {
        proof {
            use_type_invariant(self);
        }
        self.nanos
    }

    /// Seconds that local time is ahead of UTC at this instant.
    pub fn offset(&self) -> (offset: i32)
        ensures
            offset == self@.offset,
            -86_400 < offset < 86_400,
    {
        proof {
            use_type_invariant(self);
        }
        self.offset
    }

    /// Whether this instant is no later than `other`.
    pub fn no_later_than(&self, other: &Timestamp) -> (le: bool)
        ensures
            le == time_le(self@, other@),
    {
        self.seconds < other.seconds || (self.seconds == other.seconds && self.nanos
            <= other.nanos)
    }
}

/// Whether a name is a base name: one component, with no path separator.
pub open spec fn is_base_name(name: Seq<char>) -> bool {
    !has_char(name, SEPARATOR)
}

/// Whether a name marks its entry as hidden.
pub open spec fn is_hidden(name: Seq<char>) -> bool {
    name.len() > 0 && name[0] == HIDDEN_MARKER
}

/// Whether an entry of this name is listed under the given filter flag.
pub open spec fn is_listed(name: Seq<char>, show_hidden: bool) -> bool {
    show_hidden || !is_hidden(name)
}

/// One filesystem object as the contracts see it.
pub struct EntryView {
    pub name: Seq<char>,
    pub size: nat,
    pub modified: TimestampView,
    pub is_directory: bool,
}

/// One filesystem object within a listed directory. It is made once and
/// never changed.
#[derive(Debug, PartialEq, Eq)]
pub struct Entry {
    name: String,
    size: u64,
    modified: Timestamp,
    is_directory: bool,
}

impl View for Entry {
    type V = EntryView;

    closed spec fn view(&self) -> EntryView {
        EntryView {
            name: self.name@,
            size: self.size as nat,
            modified: self.modified@,
            is_directory: self.is_directory,
        }
    }
}

/// Whether an entry is one that a scan can yield: its name is a base name,
/// its size fits 64 bits and its time has a calendar representation.
pub open spec fn well_formed(e: EntryView) -> bool {
    &&& is_base_name(e.name)
    &&& e.size <= u64::MAX
    &&& resolvable(e.modified)
}

impl Entry {
    #[verifier::type_invariant]
    spec fn valid(self) -> bool {
        is_base_name(self.name@)
    }

    /// Makes an entry, or nothing where `name` holds a path separator.
    pub fn new(name: String, size: u64, modified: Timestamp, is_directory: bool) -> (made:
        Option<Entry>)
        ensures
            made is Some <==> is_base_name(name@),
            made matches Some(e) ==> e@ == (EntryView {
                name: name@,
                size: size as nat,
                modified: modified@,
                is_directory,
            }) && well_formed(e@),
    {
        if contains_char(name.as_str(), SEPARATOR) {
            None
        } else {
            proof {
                use_type_invariant(modified);
            }
            Some(Entry { name, size, modified, is_directory })
        }
    }

    /// The base name.
    pub fn name(&self) -> (name: &str)
        ensures
            name@ == self@.name,
            is_base_name(name@),
    {
        proof {
            use_type_invariant(self);
        }
        self.name.as_str()
    }

    /// The size in bytes as the filesystem reports it.
    pub fn size(&self) -> (size: u64)
        ensures
            size == self@.size,
    {
        self.size
    }

    /// The time of the last modification.
    pub fn modified(&self) -> (modified: Timestamp)
        ensures
            modified@ == self@.modified,
            resolvable(modified@),
    {
        proof {
            use_type_invariant(self.modified);
        }
        self.modified
    }

    /// Whether the object is a directory.
    pub fn is_directory(&self) -> (is_directory: bool)
        ensures
            is_directory == self@.is_directory,
    {
        self.is_directory
    }

    /// Whether the name begins with the hidden marker.
    pub fn is_hidden(&self) -> (hidden: bool)
        ensures
            hidden == is_hidden(self@.name),
    {
        starts_with_char(self.name.as_str(), HIDDEN_MARKER)
    }
}

impl Clone for Entry {
    fn clone(&self) -> (copy: Entry)
        ensures
            copy@ == self@,
    {
        proof {
            use_type_invariant(self);
        }
        Entry {
            name: self.name.clone(),
            size: self.size,
            modified: self.modified,
            is_directory: self.is_directory,
        }
    }
}

/// The views of a sequence of entries, in order.
pub open spec fn entry_views(entries: Seq<Entry>) -> Seq<EntryView> {
    Seq::new(entries.len(), |i: int| entries[i]@)
}

/// The key that a listing is ordered by.
#[derive(Clone, Copy, Debug, PartialEq, Eq, Structural)]
pub enum SortKey {
    Name,
    Size,
    Time,
}

impl Default for SortKey {
    fn default() -> (key: SortKey)
        ensures
            key == SortKey::Name,
    {
        SortKey::Name
    }
}

/// The rendering of a flat listing.
#[derive(Clone, Copy, Debug, PartialEq, Eq, Structural)]
pub enum OutputMode {
    ShortColumns,
    LongTable,
    StructuredRecords,
}

/// Why a listing failed.
#[derive(Clone, Copy, Debug, PartialEq, Eq, Structural)]
pub enum ListError {
    /// The target path does not exist.
    NotFound,
    /// The directory cannot be read.
    PermissionDenied,
    /// The attributes of a child to be listed cannot be read.
    MetadataUnavailable,
}

/// The path that is listed where none is given: the current directory.
pub const DEFAULT_PATH: &'static str = ".";

/// The mode that the two format flags select: structured records where
/// they are asked for, else the long table where it is, else short columns.
pub open spec fn mode_of_flags(long: bool, structured: bool) -> OutputMode {
    if structured {
        OutputMode::StructuredRecords
    } else if long {
        OutputMode::LongTable
    } else {
        OutputMode::ShortColumns
    }
}

impl OutputMode {
    /// The mode that the two format flags select.
    pub fn from_flags(long: bool, structured: bool) -> (mode: OutputMode)
        ensures
            mode == mode_of_flags(long, structured),
    {
        if structured {
            OutputMode::StructuredRecords
        } else if long {
            OutputMode::LongTable
        } else {
            OutputMode::ShortColumns
        }
    }
}

/// The configuration of one run, resolved from the command line. The
/// engine reads it and never changes it.
#[derive(Debug, PartialEq, Eq)]
pub struct ResolvedOptions {
    /// Whether hidden entries are listed.
    pub show_hidden: bool,
    /// The rendering of a flat listing.
    pub mode: OutputMode,
    /// The key that a flat listing is ordered by.
    pub sort_key: SortKey,
    /// Whether each path is walked as a tree, which overrides `mode`.
    pub recursive: bool,
    /// The target paths, in the order in which they are listed.
    pub paths: Vec<String>,
}

/// The views of a sequence of paths, in order.
pub open spec fn path_views(paths: Seq<String>) -> Seq<Seq<char>> {
    Seq::new(paths.len(), |i: int| paths[i]@)
}

impl ResolvedOptions {
    /// Resolves the flags and positional paths of a command line. Without a
    /// path the current directory is the one target.
    pub fn from_flags(
        all: bool,
        long: bool,
        recursive: bool,
        structured: bool,
        sort_key: SortKey,
        paths: Vec<String>,
    ) -> (options: ResolvedOptions)
        ensures
            options.show_hidden == all,
            options.mode == mode_of_flags(long, structured),
            options.sort_key == sort_key,
            options.recursive == recursive,
            path_views(options.paths@) == if paths.len() == 0 {
                seq![DEFAULT_PATH@]
            } else {
                path_views(paths@)
            },
    {
        let mut paths = paths;
        if paths.len() == 0 {
            paths.push(String::from_str(DEFAULT_PATH));
            assert(path_views(paths@) =~= seq![DEFAULT_PATH@]);
        }
        ResolvedOptions {
            show_hidden: all,
            mode: OutputMode::from_flags(long, structured),
            sort_key,
            recursive,
            paths,
        }
    }
}

} // verus!
