//! The recursive walker: a depth-first tree rendering of a directory and
//! its descendants.
//!
//! The walk visits one directory at a time. A visit turns the children that
//! were read into steps: one line per listed child, and for a directory the
//! path to visit next, one level deeper. Reading the next directory is the
//! caller's part. A failed read or scan ends the walk: nothing is skipped.
//! The walk follows what it is given and keeps no record of the directories
//! that it has seen, so links that form a cycle make it endless.

use vstd::prelude::*;
use vstd::string::*;
use crate::entry::{entry_views, is_listed, Entry, EntryView, ListError};
use crate::format::{append_display_name, display_name, HEADER_MARK, LINE_END};
use crate::scan::{scan, scan_outcome, DirectoryRead};
use crate::text::{append_repeated, ends_with_char, repeated};

verus! {

/// The indentation of one level of depth: two spaces.
pub const INDENT_UNIT: &'static str = "  ";

/// Written before the name of each child in the tree.
pub const BRANCH_MARK: &'static str = "\u{251C}\u{2500}\u{2500} ";

/// Written between a directory's path and the name of a child.
pub const PATH_JOINT: &'static str = "/";

/// The indentation at a depth: one unit per level.
pub open spec fn indent(depth: nat) -> Seq<char> {
    repeated(INDENT_UNIT@, depth)
}

/// The line that opens the visit of a directory: its path, indented by
/// its depth and followed by a colon.
pub open spec fn tree_header(path: Seq<char>, depth: nat) -> Seq<char> {
    indent(depth) + path + HEADER_MARK@ + LINE_END@
}

/// The line of one child of a directory at `depth`: the branch mark and the
/// name as text modes show it, indented by the depth.
pub open spec fn tree_line(e: EntryView, depth: nat) -> Seq<char> {
    indent(depth) + BRANCH_MARK@ + display_name(e) + LINE_END@
}

/// The path of the child `name` of the directory `parent`: the two joined
/// by one separator, which an empty parent or one that ends in a separator
/// does not need.
pub open spec fn child_path(parent: Seq<char>, name: Seq<char>) -> Seq<char> {
    if parent.len() == 0 || parent.last() == crate::entry::SEPARATOR {
        parent + name
    } else {
        parent + PATH_JOINT@ + name
    }
}

/// The directory that a step sends the walk into, as the contracts see it.
pub struct DescentView {
    pub path: Seq<char>,
    pub depth: nat,
}

/// One step of a visit as the contracts see it.
pub struct TreeStepView {
    pub line: Seq<char>,
    pub enter: Option<DescentView>,
}

/// The directory that a step sends the walk into.
#[derive(Debug, PartialEq, Eq)]
pub struct Descent {
    /// The path of the directory.
    pub path: String,
    /// Its depth: one more than that of the directory it was found in.
    pub depth: usize,
}

/// One step of a visit: the line to print for a child, and for a directory
/// where the walk goes before the next step.
#[derive(Debug, PartialEq, Eq)]
pub struct TreeStep {
    pub line: String,
    pub enter: Option<Descent>,
}

impl View for TreeStep {
    type V = TreeStepView;

    open spec fn view(&self) -> TreeStepView {
        TreeStepView {
            line: self.line@,
            enter: match self.enter {
                Some(d) => Some(DescentView { path: d.path@, depth: d.depth as nat }),
                None => None,
            },
        }
    }
}

/// The views of a sequence of steps, in order.
pub open spec fn step_views(steps: Seq<TreeStep>) -> Seq<TreeStepView> {
    Seq::new(steps.len(), |i: int| steps[i]@)
}

/// The step for one child of the directory `path` at `depth`: its line at
/// that depth, and for a directory the descent into it at the next depth.
pub open spec fn step_of(path: Seq<char>, depth: nat, e: EntryView) -> TreeStepView {
    TreeStepView {
        line: tree_line(e, depth),
        enter: if e.is_directory {
            Some(DescentView { path: child_path(path, e.name), depth: depth + 1 })
        } else {
            None
        },
    }
}

/// The steps for the entries of the directory `path` at `depth`, in order.
pub open spec fn steps_of(path: Seq<char>, depth: nat, entries: Seq<EntryView>) -> Seq<
    TreeStepView,
> {
    entries.map_values(|e: EntryView| step_of(path, depth, e))
}

/// The line that opens the visit of the directory `path` at `depth`.
pub fn tree_header_line(path: &str, depth: usize) -> (line: String)
    ensures
        line@ == tree_header(path@, depth as nat),
{
    let mut line: String = String::new();
    append_repeated(&mut line, INDENT_UNIT, depth);
    line.append(path);
    line.append(HEADER_MARK);
    line.append(LINE_END);
    assert(line@ =~= tree_header(path@, depth as nat));
    line
}

/// The line of one child of a directory at `depth`.
pub fn tree_entry_line(entry: &Entry, depth: usize) -> (line: String)
    ensures
        line@ == tree_line(entry@, depth as nat),
{
    let mut line: String = String::new();
    append_repeated(&mut line, INDENT_UNIT, depth);
    line.append(BRANCH_MARK);
    append_display_name(&mut line, entry);
    line.append(LINE_END);
    assert(line@ =~= tree_line(entry@, depth as nat));
    line
}

/// The path of the child `name` of the directory `parent`.
pub fn join_path(parent: &str, name: &str) -> (path: String)
    ensures
        path@ == child_path(parent@, name@),
{
    let mut path: String = String::from_str(parent);
    if !(parent.is_empty() || ends_with_char(parent, crate::entry::SEPARATOR)) {
        path.append(PATH_JOINT);
    }
    path.append(name);
    assert(path@ =~= child_path(parent@, name@));
    path
}

/// The step for one child of the directory `path` at `depth`.
pub fn tree_step(path: &str, depth: usize, entry: &Entry) -> (step: TreeStep)
    requires
        depth < usize::MAX,
    ensures
        step@ == step_of(path@, depth as nat, entry@),
{
    let line: String = tree_entry_line(entry, depth);
    let enter: Option<Descent> = if entry.is_directory() {
        Some(Descent { path: join_path(path, entry.name()), depth: depth + 1 })
    } else {
        None
    };
    TreeStep { line, enter }
}

/// Whether `outcome` is the visit of the directory `path` at `depth` that
/// was read: the failure of the scan where it fails, else one step for each
/// listed child, in the order in which the children were read.
pub open spec fn is_visit_of(
    outcome: Result<Seq<TreeStepView>, ListError>,
    path: Seq<char>,
    depth: nat,
    read: DirectoryRead,
    show_hidden: bool,
) -> bool {
    let scanned = scan_outcome(read, show_hidden);
    if scanned is Err {
        outcome is Err && outcome->Err_0 == scanned->Err_0
    } else {
        outcome is Ok && outcome->Ok_0 == steps_of(path, depth, scanned->Ok_0)
    }
}

/// The outcome of a visit as the contracts see it.
pub open spec fn visit_view(outcome: Result<Vec<TreeStep>, ListError>) -> Result<
    Seq<TreeStepView>,
    ListError,
> {
    match outcome {
        Ok(steps) => Ok(step_views(steps@)),
        Err(e) => Err(e),
    }
}

/// Visits the directory `path` at `depth` that was read: scans its children
/// under the hidden filter and gives one step for each entry, in the order
/// of the scan. A file's step is its line. A directory's step is its line
/// and the descent into it, one level deeper, which the walk makes before
/// the next step. A failure of the scan is handed on and ends the walk.
///
/// The header line of the directory is not among the steps: it is printed
/// before the directory is read.
pub fn list_recursive(path: &str, depth: usize, read: &DirectoryRead, show_hidden: bool) -> (outcome:
    Result<Vec<TreeStep>, ListError>)
    requires
        depth < usize::MAX,
    ensures
        is_visit_of(visit_view(outcome), path@, depth as nat, *read, show_hidden),
{
    match scan(read, show_hidden) {
        Err(e) => Err(e),
        Ok(entries) => {
            let mut steps: Vec<TreeStep> = Vec::new();
            let mut at: usize = 0;
            while at < entries.len()
                invariant
                    at <= entries.len(),
                    depth < usize::MAX,
                    steps.len() == at,
                    forall|i: int|
                        0 <= i < at ==> (#[trigger] steps[i])@ == step_of(
                            path@,
                            depth as nat,
                            entries[i]@,
                        ),
                decreases entries.len() - at,
            {
                steps.push(tree_step(path, depth, &entries[at]));
                at = at + 1;
            }
            assert(step_views(steps@) =~= steps_of(path@, depth as nat, entry_views(entries@)));
            Ok(steps)
        },
    }
}

/// A directory tree held in memory: an entry and, for a directory, the
/// nodes of its children in the order in which a read gives them. Every
/// node is reached on one way from the root, so the tree holds no cycle.
#[derive(Debug, PartialEq, Eq)]
pub struct TreeNode {
    pub entry: Entry,
    pub children: Vec<TreeNode>,
}

/// A descendant that a walk finds.
pub struct Found {
    /// The entry that was found.
    pub entry: EntryView,
    /// How many directories lie between the root and the entry.
    pub level: nat,
    /// The path of the directory that holds the entry.
    pub parent: Seq<char>,
}

/// The descendants that a walk of `nodes` finds, depth first: each listed
/// node in order, a directory followed at once by what the walk finds
/// below it. What lies below a node that is not listed is not found.
pub open spec fn descendants(
    parent: Seq<char>,
    level: nat,
    nodes: Seq<TreeNode>,
    show_hidden: bool,
) -> Seq<Found>
    decreases nodes,
{
    if nodes.len() == 0 {
        Seq::empty()
    } else {
        let node = nodes.last();
        let before = descendants(parent, level, nodes.drop_last(), show_hidden);
        let found = Found { entry: node.entry@, level, parent };
        if !is_listed(node.entry@.name, show_hidden) {
            before
        } else if !node.entry@.is_directory {
            before.push(found)
        } else {
            before.push(found) + descendants(
                child_path(parent, node.entry@.name),
                level + 1,
                node.children@,
                show_hidden,
            )
        }
    }
}

/// The lines that the walk prints for one descendant when the root is at
/// `depth`: its line, indented by its level below the root, and for a
/// directory the header that opens its visit, one level deeper.
pub open spec fn found_lines(depth: nat, f: Found) -> Seq<Seq<char>> {
    if f.entry.is_directory {
        seq![
            tree_line(f.entry, depth + f.level),
            tree_header(child_path(f.parent, f.entry.name), depth + f.level + 1),
        ]
    } else {
        seq![tree_line(f.entry, depth + f.level)]
    }
}

/// The lines of the descendants, in the order in which they are found.
pub open spec fn lines_of(depth: nat, found: Seq<Found>) -> Seq<Seq<char>>
    decreases found.len(),
{
    if found.len() == 0 {
        Seq::empty()
    } else {
        lines_of(depth, found.drop_last()) + found_lines(depth, found.last())
    }
}

/// The lines of a walk of the directory `path` at `depth` whose children
/// are `nodes`: its header, then the lines of every descendant that the
/// walk finds.
pub open spec fn walk_lines(
    path: Seq<char>,
    depth: nat,
    nodes: Seq<TreeNode>,
    show_hidden: bool,
) -> Seq<Seq<char>> {
    seq![tree_header(path, depth)] + lines_of(depth, descendants(path, 0, nodes, show_hidden))
}

/// The number of levels of a forest: none where it is empty, else one more
/// than the levels below its deepest node.
pub open spec fn tree_height(nodes: Seq<TreeNode>) -> nat
    decreases nodes,
{
    if nodes.len() == 0 {
        0
    } else {
        let rest = tree_height(nodes.drop_last());
        let last = 1 + tree_height(nodes.last().children@);
        if rest >= last {
            rest
        } else {
            last
        }
    }
}

/// The views of a sequence of lines, in order.
pub open spec fn line_views(lines: Seq<String>) -> Seq<Seq<char>> {
    Seq::new(lines.len(), |i: int| lines[i]@)
}

/// A forest is higher than what lies below any of its nodes.
proof fn lemma_height_above_children(nodes: Seq<TreeNode>, i: int)
    requires
        0 <= i < nodes.len(),
    ensures
        1 + tree_height(nodes[i].children@) <= tree_height(nodes),
    decreases nodes.len(),
{
    if i < nodes.len() - 1 {
        lemma_height_above_children(nodes.drop_last(), i);
    }
}

/// The lines of two runs of descendants, one after the other, are the lines
/// of the first and then those of the second.
proof fn lemma_lines_of_concat(depth: nat, first: Seq<Found>, second: Seq<Found>)
    ensures
        lines_of(depth, first + second) == lines_of(depth, first) + lines_of(depth, second),
    decreases second.len(),
{
    if second.len() == 0 {
        assert(first + second =~= first);
        assert(lines_of(depth, first) + lines_of(depth, second) =~= lines_of(depth, first));
    } else {
        lemma_lines_of_concat(depth, first, second.drop_last());
        assert((first + second).drop_last() =~= first + second.drop_last());
        assert((first + second).last() == second.last());
        assert(lines_of(depth, first + second) =~= lines_of(depth, first) + lines_of(
            depth,
            second,
        ));
    }
}

/// Walks the nodes of one directory and all that lies below them, and
/// appends the lines. `depth` is the depth of the directory, `level` how far
/// it lies below the root of the walk.
fn walk_below(
    path: &str,
    depth: usize,
    nodes: &Vec<TreeNode>,
    show_hidden: bool,
    lines: &mut Vec<String>,
    Ghost(level): Ghost<nat>,
)
    requires
        level <= depth,
        depth + tree_height(nodes@) < usize::MAX,
    ensures
        line_views(final(lines)@) == line_views(old(lines)@) + lines_of(
            (depth - level) as nat,
            descendants(path@, level, nodes@, show_hidden),
        ),
    decreases nodes@,
{
    let ghost base = (depth - level) as nat;
    let ghost start = line_views(lines@);
    let mut at: usize = 0;
    proof {
        assert(nodes@.take(0) =~= Seq::<TreeNode>::empty());
        assert(line_views(lines@) =~= start + lines_of(
            base,
            descendants(path@, level, nodes@.take(0), show_hidden),
        ));
    }
    while at < nodes.len()
        invariant
            at <= nodes.len(),
            level <= depth,
            base == depth - level,
            depth + tree_height(nodes@) < usize::MAX,
            line_views(lines@) == start + lines_of(
                base,
                descendants(path@, level, nodes@.take(at as int), show_hidden),
            ),
        decreases nodes.len() - at,
    {
        let node = &nodes[at];
        let ghost before = descendants(path@, level, nodes@.take(at as int), show_hidden);
        let ghost found = Found { entry: node.entry@, level, parent: path@ };
        let ghost upto = nodes@.take(at as int + 1);
        proof {
            assert(upto.drop_last() =~= nodes@.take(at as int));
            assert(upto.last() == nodes@[at as int]);
            lemma_height_above_children(nodes@, at as int);
        }
        if show_hidden || !node.entry.is_hidden() {
            let step = tree_step(path, depth, &node.entry);
            let TreeStep { line, enter } = step;
            let ghost shown = line_views(lines@);
            lines.push(line);
            assert(line_views(lines@) =~= shown.push(tree_line(node.entry@, depth as nat)));
            match enter {
                Some(descent) => {
                    let header: String = tree_header_line(descent.path.as_str(), descent.depth);
                    let ghost lined = line_views(lines@);
                    lines.push(header);
                    assert(line_views(lines@) =~= lined.push(header@));
                    walk_below(
                        descent.path.as_str(),
                        descent.depth,
                        &node.children,
                        show_hidden,
                        lines,
                        Ghost(level + 1),
                    );
                    proof {
                        let below = descendants(
                            descent.path@,
                            level + 1,
                            node.children@,
                            show_hidden,
                        );
                        assert(descendants(path@, level, upto, show_hidden) == before.push(found)
                            + below);
                        lemma_lines_of_concat(base, before.push(found), below);
                        assert(before.push(found).drop_last() =~= before);
                        assert(line_views(lines@) =~= start + lines_of(
                            base,
                            descendants(path@, level, upto, show_hidden),
                        ));
                    }
                },
                None => {
                    proof {
                        assert(before.push(found).drop_last() =~= before);
                        assert(line_views(lines@) =~= start + lines_of(
                            base,
                            descendants(path@, level, upto, show_hidden),
                        ));
                    }
                },
            }
        }
        at = at + 1;
    }
    assert(nodes@.take(at as int) =~= nodes@);
}

/// Walks a directory tree held in memory: the lines of a walk of the
/// directory `path` at `depth` whose children are `nodes`. The header of
/// the directory comes first. Then each listed node gets its line, indented
/// by its depth, and a directory is followed at once by its own header and
/// its descendants, one level deeper.
pub fn walk_tree(path: &str, depth: usize, nodes: &Vec<TreeNode>, show_hidden: bool) -> (lines:
    Vec<String>)
    requires
        depth + tree_height(nodes@) < usize::MAX,
    ensures
        line_views(lines@) == walk_lines(path@, depth as nat, nodes@, show_hidden),
{
    let mut lines: Vec<String> = Vec::new();
    let header: String = tree_header_line(path, depth);
    lines.push(header);
    assert(line_views(lines@) =~= seq![tree_header(path@, depth as nat)]);
    walk_below(path, depth, nodes, show_hidden, &mut lines, Ghost(0));
    lines
}

/// The directories among the descendants, in order.
pub open spec fn directories_in(found: Seq<Found>) -> Seq<Found> {
    found.filter(|f: Found| f.entry.is_directory)
}

/// Every descendant that a walk finds gets one line, and every directory
/// among them one header besides: the walk prints its own header, then as
/// many lines as it finds descendants and directories.
pub proof fn lemma_walk_line_count(
    path: Seq<char>,
    depth: nat,
    nodes: Seq<TreeNode>,
    show_hidden: bool,
)
    ensures
        walk_lines(path, depth, nodes, show_hidden).len() == 1 + descendants(
            path,
            0,
            nodes,
            show_hidden,
        ).len() + directories_in(descendants(path, 0, nodes, show_hidden)).len(),
{
    lemma_lines_of_count(depth, descendants(path, 0, nodes, show_hidden));
}

/// The lines of a run of descendants: one for each, and one more for each
/// directory.
proof fn lemma_lines_of_count(depth: nat, found: Seq<Found>)
    ensures
        lines_of(depth, found).len() == found.len() + directories_in(found).len(),
    decreases found.len(),
{
    reveal(Seq::filter);
    if found.len() > 0 {
        lemma_lines_of_count(depth, found.drop_last());
    }
}

/// A walk takes the nodes of a directory in order, and what it finds from
/// one node does not depend on the others: the descendants of two runs of
/// nodes, one after the other, are those of the first and then those of
/// the second.
pub proof fn lemma_descendants_concat(
    parent: Seq<char>,
    level: nat,
    first: Seq<TreeNode>,
    second: Seq<TreeNode>,
    show_hidden: bool,
)
    ensures
        descendants(parent, level, first + second, show_hidden) == descendants(
            parent,
            level,
            first,
            show_hidden,
        ) + descendants(parent, level, second, show_hidden),
    decreases second.len(),
{
    let whole = descendants(parent, level, first + second, show_hidden);
    let left = descendants(parent, level, first, show_hidden);
    let right = descendants(parent, level, second, show_hidden);
    if second.len() == 0 {
        assert(first + second =~= first);
        assert(left + right =~= left);
    } else {
        lemma_descendants_concat(parent, level, first, second.drop_last(), show_hidden);
        assert((first + second).drop_last() =~= first + second.drop_last());
        assert((first + second).last() == second.last());
        assert(whole =~= left + right);
    }
}

/// What a walk finds from one node alone: nothing where the node is not
/// listed, else the node itself and, for a directory, what the walk finds
/// below it, one level deeper.
pub open spec fn found_from(parent: Seq<char>, level: nat, node: TreeNode, show_hidden: bool) -> Seq<
    Found,
> {
    let found = Found { entry: node.entry@, level, parent };
    if !is_listed(node.entry@.name, show_hidden) {
        Seq::empty()
    } else if !node.entry@.is_directory {
        seq![found]
    } else {
        seq![found] + descendants(
            child_path(parent, node.entry@.name),
            level + 1,
            node.children@,
            show_hidden,
        )
    }
}

/// A walk finds every listed node once: what it finds is what it finds
/// from the nodes before the one at place `i`, then that node itself and
/// all below it, then what it finds from the nodes after it.
pub proof fn lemma_each_node_found_once(
    parent: Seq<char>,
    level: nat,
    nodes: Seq<TreeNode>,
    show_hidden: bool,
    i: int,
)
    requires
        0 <= i < nodes.len(),
    ensures
        descendants(parent, level, nodes, show_hidden) == descendants(
            parent,
            level,
            nodes.take(i),
            show_hidden,
        ) + found_from(parent, level, nodes[i], show_hidden) + descendants(
            parent,
            level,
            nodes.skip(i + 1),
            show_hidden,
        ),
{
    let upto = nodes.take(i + 1);
    assert(nodes =~= upto + nodes.skip(i + 1));
    lemma_descendants_concat(parent, level, upto, nodes.skip(i + 1), show_hidden);
    assert(upto.drop_last() =~= nodes.take(i));
    assert(upto.last() == nodes[i]);
    let before = descendants(parent, level, nodes.take(i), show_hidden);
    let found = Found { entry: nodes[i].entry@, level, parent };
    assert(descendants(parent, level, upto, show_hidden) =~= before + found_from(
        parent,
        level,
        nodes[i],
        show_hidden,
    )) by {
        assert(before.push(found) =~= before + seq![found]);
    }
}

/// Indentation grows by one unit with each level: an entry that a walk
/// finds either lies in the directory that the walk began in, at the level
/// of the walk, or in a directory that the walk found before it, and then
/// one level below that directory, its line indented by one unit more.
pub proof fn lemma_entry_one_level_below_directory(
    parent: Seq<char>,
    level: nat,
    nodes: Seq<TreeNode>,
    show_hidden: bool,
    depth: nat,
    k: int,
)
    requires
        0 <= k < descendants(parent, level, nodes, show_hidden).len(),
    ensures
        ({
            let found = descendants(parent, level, nodes, show_hidden);
            ||| found[k].level == level && found[k].parent == parent
            ||| exists|j: int|
                {
                    &&& 0 <= j < k
                    &&& (#[trigger] found[j]).entry.is_directory
                    &&& found[k].level == found[j].level + 1
                    &&& found[k].parent == child_path(found[j].parent, found[j].entry.name)
                    &&& indent(depth + found[k].level) == indent(depth + found[j].level)
                        + INDENT_UNIT@
                }
        }),
    decreases nodes,
{
    let found = descendants(parent, level, nodes, show_hidden);
    let node = nodes.last();
    let before = descendants(parent, level, nodes.drop_last(), show_hidden);
    if k < before.len() {
        lemma_entry_one_level_below_directory(
            parent,
            level,
            nodes.drop_last(),
            show_hidden,
            depth,
            k,
        );
        if !(before[k].level == level && before[k].parent == parent) {
            let j = choose|j: int|
                {
                    &&& 0 <= j < k
                    &&& (#[trigger] before[j]).entry.is_directory
                    &&& before[k].level == before[j].level + 1
                    &&& before[k].parent == child_path(before[j].parent, before[j].entry.name)
                    &&& indent(depth + before[k].level) == indent(depth + before[j].level)
                        + INDENT_UNIT@
                };
            assert(found[j] == before[j]);
        }
    } else if k > before.len() {
        let inner = child_path(parent, node.entry@.name);
        let below = descendants(inner, level + 1, node.children@, show_hidden);
        let at = before.len() as int;
        let i = k - at - 1;
        assert(found[k] == below[i]);
        assert(found[at].entry.is_directory);
        lemma_entry_one_level_below_directory(
            inner,
            level + 1,
            node.children@,
            show_hidden,
            depth,
            i,
        );
        if below[i].level == level + 1 && below[i].parent == inner {
            assert(indent(depth + level + 1) == indent(depth + level) + INDENT_UNIT@);
            assert(found[at].level == level);
        } else {
            let j = choose|j: int|
                {
                    &&& 0 <= j < i
                    &&& (#[trigger] below[j]).entry.is_directory
                    &&& below[i].level == below[j].level + 1
                    &&& below[i].parent == child_path(below[j].parent, below[j].entry.name)
                    &&& indent(depth + below[i].level) == indent(depth + below[j].level)
                        + INDENT_UNIT@
                };
            assert(found[at + 1 + j] == below[j]);
        }
    }
}

/// What following the step of one node prints: nothing for a node that is
/// not listed, else the line of the step and, where the step enters a
/// directory, the whole walk of that directory.
pub open spec fn step_lines(path: Seq<char>, depth: nat, node: TreeNode, show_hidden: bool) -> Seq<
    Seq<char>,
> {
    let step = step_of(path, depth, node.entry@);
    if !is_listed(node.entry@.name, show_hidden) {
        Seq::empty()
    } else if step.enter is Some {
        seq![step.line] + walk_lines(
            step.enter->0.path,
            step.enter->0.depth,
            node.children@,
            show_hidden,
        )
    } else {
        seq![step.line]
    }
}

/// Lines do not change when the root of a walk moves one level down and
/// every descendant one level up.
proof fn lemma_lines_shift(
    parent: Seq<char>,
    level: nat,
    nodes: Seq<TreeNode>,
    show_hidden: bool,
    depth: nat,
)
    ensures
        lines_of(depth, descendants(parent, level + 1, nodes, show_hidden)) == lines_of(
            depth + 1,
            descendants(parent, level, nodes, show_hidden),
        ),
    decreases nodes,
{
    if nodes.len() > 0 {
        let node = nodes.last();
        let inner = child_path(parent, node.entry@.name);
        let low = descendants(parent, level + 1, nodes.drop_last(), show_hidden);
        let high = descendants(parent, level, nodes.drop_last(), show_hidden);
        let found_low = Found { entry: node.entry@, level: level + 1, parent };
        let found_high = Found { entry: node.entry@, level, parent };
        lemma_lines_shift(parent, level, nodes.drop_last(), show_hidden, depth);
        assert(low.push(found_low).drop_last() =~= low);
        assert(high.push(found_high).drop_last() =~= high);
        assert(found_lines(depth, found_low) =~= found_lines(depth + 1, found_high));
        if is_listed(node.entry@.name, show_hidden) && node.entry@.is_directory {
            let below_low = descendants(inner, level + 2, node.children@, show_hidden);
            let below_high = descendants(inner, level + 1, node.children@, show_hidden);
            lemma_lines_shift(inner, level + 1, node.children@, show_hidden, depth);
            lemma_lines_of_concat(depth, low.push(found_low), below_low);
            lemma_lines_of_concat(depth + 1, high.push(found_high), below_high);
        }
    }
}

/// A walk is what following the steps gives. The walk of a directory
/// without children is its header. Each further child adds what following
/// its step prints: its line, and for a directory the walk of that
/// directory at the path and the depth that the step names.
pub proof fn lemma_walk_follows_steps(
    path: Seq<char>,
    depth: nat,
    nodes: Seq<TreeNode>,
    node: TreeNode,
    show_hidden: bool,
)
    ensures
        walk_lines(path, depth, Seq::empty(), show_hidden) == seq![tree_header(path, depth)],
        walk_lines(path, depth, nodes.push(node), show_hidden) == walk_lines(
            path,
            depth,
            nodes,
            show_hidden,
        ) + step_lines(path, depth, node, show_hidden),
{
    assert(walk_lines(path, depth, Seq::empty(), show_hidden) =~= seq![tree_header(path, depth)]);
    let before = descendants(path, 0, nodes, show_hidden);
    let found = Found { entry: node.entry@, level: 0, parent: path };
    let inner = child_path(path, node.entry@.name);
    assert(nodes.push(node).drop_last() =~= nodes);
    assert(before.push(found).drop_last() =~= before);
    if is_listed(node.entry@.name, show_hidden) && node.entry@.is_directory {
        let below = descendants(inner, 1, node.children@, show_hidden);
        lemma_lines_of_concat(depth, before.push(found), below);
        lemma_lines_shift(inner, 0, node.children@, show_hidden, depth);
    }
    assert(walk_lines(path, depth, nodes.push(node), show_hidden) =~= walk_lines(
        path,
        depth,
        nodes,
        show_hidden,
    ) + step_lines(path, depth, node, show_hidden));
}

} // verus!
