//! Expanding sources that are directories into the files below them.

use crate::config::Files;
use crate::strmap::StrMap;
use crate::target::{FileTarget, TargetKind, TargetView};
use crate::text::{join_path, joined};
use vstd::prelude::*;
use vstd::string::StringExecFns;

verus! {

/// What stands at a source path, as far as expansion looks at it.
#[derive(Debug, PartialEq, Eq)]
pub enum SourceNode {
    /// A regular file.
    File,
    /// A directory and what it holds, in the order in which it was read.
    Directory(Vec<DirEntry>),
    /// Nothing that could be looked at.
    Missing,
    /// A directory whose contents could not be read.
    Unreadable,
    /// A directory that lies on the way down to itself.
    Cycle,
}

/// An entry of a directory.
#[derive(Debug, PartialEq, Eq)]
pub struct DirEntry {
    pub name: String,
    pub node: SourceNode,
}

/// What can be wrong with a source.
#[derive(Debug, Clone, Copy, PartialEq, Eq)]
pub enum SourceFault {
    /// The source could not be looked at.
    Metadata,
    /// The contents of the directory could not be read.
    ReadDir,
    /// A directory with a target that is not plain.
    ComplexTarget,
    /// A directory that holds itself, through a link.
    Cycle,
}

/// A failed expansion: the sources that were being expanded, outermost
/// first, and what was wrong with the last of them.
#[derive(Debug, Clone, PartialEq, Eq)]
pub struct ExpandError {
    pub steps: Vec<String>,
    pub fault: SourceFault,
}

/// The content of an [`ExpandError`].
pub struct ExpandErrorView {
    pub steps: Seq<Seq<char>>,
    pub fault: SourceFault,
}

/// The content of each string.
pub open spec fn text_views(texts: Seq<String>) -> Seq<Seq<char>> {
    Seq::new(texts.len(), |i: int| texts[i]@)
}

impl View for ExpandError {
    type V = ExpandErrorView;

    open spec fn view(&self) -> ExpandErrorView {
        ExpandErrorView { steps: text_views(self.steps@), fault: self.fault }
    }
}

impl SourceFault {
    /// The fault in words.
    pub open spec fn text(self) -> Seq<char> {
        match self {
            SourceFault::Metadata => "read file's metadata"@,
            SourceFault::ReadDir => "read contents of directory"@,
            SourceFault::ComplexTarget => "complex file target not implemented for directories"@,
            SourceFault::Cycle => "directory holds itself"@,
        }
    }

    /// The fault in words.
    pub fn describe(self) -> (s: &'static str)
        ensures
            s@ == self.text(),
    {
        match self {
            SourceFault::Metadata => "read file's metadata",
            SourceFault::ReadDir => "read contents of directory",
            SourceFault::ComplexTarget => "complex file target not implemented for directories",
            SourceFault::Cycle => "directory holds itself",
        }
    }
}

/// The failure in words: each source that was being expanded, outermost
/// first, then the fault.
pub open spec fn chain_text(steps: Seq<Seq<char>>, fault: SourceFault) -> Seq<char>
    decreases steps.len(),
{
    if steps.len() == 0 {
        fault.text()
    } else {
        "expand file "@ + steps[0] + ": "@ + chain_text(steps.skip(1), fault)
    }
}

impl ExpandErrorView {
    /// The failure in words.
    pub open spec fn message(self) -> Seq<char> {
        chain_text(self.steps, self.fault)
    }

    /// The fault, with no source named yet.
    pub open spec fn of(fault: SourceFault) -> ExpandErrorView {
        ExpandErrorView { steps: Seq::empty(), fault }
    }

    /// The same failure, met while `source` was expanded.
    pub open spec fn within(self, source: Seq<char>) -> ExpandErrorView {
        ExpandErrorView { steps: seq![source] + self.steps, fault: self.fault }
    }
}

impl ExpandError {
    /// The fault, with no source named yet.
    pub fn of(fault: SourceFault) -> (out: ExpandError)
        ensures
            out@ == ExpandErrorView::of(fault),
    {
        let out = ExpandError { steps: Vec::new(), fault };
        assert(text_views(out.steps@) =~= Seq::<Seq<char>>::empty());
        out
    }

    /// The failure in words.
    pub fn message(&self) -> (text: String)
        ensures
            text@ == self@.message(),
    {
        let ghost steps = text_views(self.steps@);
        let mut text = String::new();
        let n = self.steps.len();
        let mut i: usize = 0;
        assert(steps.skip(0) =~= steps);
        while i < n
            invariant
                i <= n,
                n == self.steps@.len(),
                steps == text_views(self.steps@),
                text@ + chain_text(steps.skip(i as int), self.fault) == chain_text(
                    steps,
                    self.fault,
                ),
            decreases n - i,
        {
            let ghost before = text@;
            text = text.concat("expand file ").concat(self.steps[i].as_str()).concat(": ");
            proof {
                let rest = steps.skip(i as int);
                assert(rest[0] == self.steps@[i as int]@);
                assert(rest.skip(1) =~= steps.skip(i + 1));
                assert(text@ + chain_text(steps.skip(i + 1), self.fault) =~= before + chain_text(
                    rest,
                    self.fault,
                ));
            }
            i += 1;
        }
        text.concat(self.fault.describe())
    }

    /// The same failure, met while `source` was expanded.
    pub fn within(self, source: String) -> (out: ExpandError)
        ensures
            out@ == self@.within(source@),
    {
        let ExpandError { mut steps, fault } = self;
        steps.insert(0, source);
        assert(text_views(steps@) =~= seq![source@] + text_views(self.steps@));
        ExpandError { steps, fault }
    }
}

/// Source path and target, in the order of expansion.
pub type Entries = Seq<(Seq<char>, TargetView)>;

/// The entries that a source expands to. A file is its own entry. A
/// directory, which needs a plain target, gives the entries of what it
/// holds, each expanded below the source and below the target.
pub open spec fn expand_entries(source: Seq<char>, target: TargetView, node: SourceNode) -> Result<
    Entries,
    ExpandErrorView,
>
    decreases node,
{
    match node {
        SourceNode::File => Ok(seq![(source, target)]),
        SourceNode::Missing => Err(ExpandErrorView::of(SourceFault::Metadata)),
        SourceNode::Unreadable => Err(ExpandErrorView::of(SourceFault::ReadDir)),
        SourceNode::Cycle => Err(ExpandErrorView::of(SourceFault::Cycle)),
        SourceNode::Directory(children) => if target.kind is Automatic {
            children_entries(source, target.path, children@, children@.len())
        } else {
            Err(ExpandErrorView::of(SourceFault::ComplexTarget))
        },
    }
}

/// The entries that the first `n` entries of a directory expand to, or the
/// failure of the first of them that fails, met while that one was
/// expanded.
pub open spec fn children_entries(
    source: Seq<char>,
    target: Seq<char>,
    children: Seq<DirEntry>,
    n: nat,
) -> Result<Entries, ExpandErrorView>
    decreases children, n,
{
    if n == 0 || n > children.len() {
        Ok(Seq::empty())
    } else {
        match children_entries(source, target, children, (n - 1) as nat) {
            Err(e) => Err(e),
            Ok(before) => {
                let child = children[n - 1];
                match expand_entries(
                    joined(source, child.name@),
                    TargetView::automatic(joined(target, child.name@)),
                    child.node,
                ) {
                    Err(e) => Err(e.within(joined(source, child.name@))),
                    Ok(more) => Ok(before + more),
                }
            },
        }
    }
}

/// The map that entries are collected into: of two entries for one source
/// the later stands.
pub open spec fn collect(entries: Entries) -> Map<Seq<char>, TargetView>
    decreases entries.len(),
{
    if entries.len() == 0 {
        Map::empty()
    } else {
        collect(entries.drop_last()).insert(entries.last().0, entries.last().1)
    }
}

/// The content of each target.
pub open spec fn files_view(files: Map<Seq<char>, FileTarget>) -> Map<Seq<char>, TargetView> {
    files.map_values(|t: FileTarget| t@)
}

/// Whether the outcome `r` of an expansion stands for `expected`.
pub open spec fn expansion_outcome(
    r: Result<Files, ExpandError>,
    expected: Result<Entries, ExpandErrorView>,
) -> bool {
    match r {
        Ok(files) => expected matches Ok(entries) && files_view(files@) == collect(entries),
        Err(e) => expected == Err::<Entries, ExpandErrorView>(e@),
    }
}

/// One entry is collected into the map that binds it.
pub proof fn collect_one(source: Seq<char>, target: TargetView)
    ensures
        collect(seq![(source, target)]) == Map::<Seq<char>, TargetView>::empty().insert(
            source,
            target,
        ),
{
    let entries = seq![(source, target)];
    assert(entries.drop_last() =~= Seq::<(Seq<char>, TargetView)>::empty());
    assert(collect(entries.drop_last()) == Map::<Seq<char>, TargetView>::empty());
}

/// Collecting two runs of entries lays the second over the first.
pub proof fn collect_concat(a: Entries, b: Entries)
    ensures
        collect(a + b) == collect(a).union_prefer_right(collect(b)),
    decreases b.len(),
{
    if b.len() == 0 {
        assert(a + b =~= a);
        assert(collect(a).union_prefer_right(collect(b)) =~= collect(a));
    } else {
        collect_concat(a, b.drop_last());
        assert((a + b).drop_last() =~= a + b.drop_last());
        assert((a + b).last() == b.last());
        assert(collect(a + b) =~= collect(a).union_prefer_right(collect(b)));
    }
}

/// Once an entry of a directory fails, the entries after it do not matter.
pub proof fn children_stay_failed(
    source: Seq<char>,
    target: Seq<char>,
    children: Seq<DirEntry>,
    n: nat,
)
    requires
        n <= children.len(),
        children_entries(source, target, children, n) is Err,
    ensures
        children_entries(source, target, children, children.len()) == children_entries(
            source,
            target,
            children,
            n,
        ),
    decreases children.len() - n,
{
    if n < children.len() {
        children_stay_failed(source, target, children, n + 1);
    }
}

/// Expands one source. A file gives one entry, the source with its target.
/// A directory with a plain target gives the entries of everything below
/// it, each at the same place below the target.
pub fn expand_directory(source: &str, target: FileTarget, node: &SourceNode) -> (r: Result<
    Files,
    ExpandError,
>)
    ensures
        expansion_outcome(r, expand_entries(source@, target@, *node)),
    decreases node,
{
    match node {
        SourceNode::File => {
            let mut files: Files = StrMap::new();
            files.insert(String::from_str(source), target);
            proof {
                collect_one(source@, target@);
                assert(files_view(files@) =~= collect(seq![(source@, target@)]));
            }
            Ok(files)
        },
        SourceNode::Missing => Err(ExpandError::of(SourceFault::Metadata)),
        SourceNode::Unreadable => Err(ExpandError::of(SourceFault::ReadDir)),
        SourceNode::Cycle => Err(ExpandError::of(SourceFault::Cycle)),
        SourceNode::Directory(children) => {
            match target {
                FileTarget::Automatic(path) => expand_children(source, path.as_str(), children),
                _ => Err(ExpandError::of(SourceFault::ComplexTarget)),
            }
        },
    }
}

/// Expands what a directory holds, entry by entry.
fn expand_children(source: &str, target: &str, children: &Vec<DirEntry>) -> (r: Result<
    Files,
    ExpandError,
>)
    ensures
        expansion_outcome(
            r,
            children_entries(source@, target@, children@, children@.len()),
        ),
    decreases children,
{
    let mut files: Files = StrMap::new();
    let ghost mut entries: Entries = Seq::empty();
    let n = children.len();
    let mut i: usize = 0;
    assert(files_view(files@) =~= collect(entries));
    while i < n
        invariant
            i <= n,
            n == children@.len(),
            children_entries(source@, target@, children@, i as nat) == Ok::<
                Entries,
                ExpandErrorView,
            >(entries),
            files_view(files@) == collect(entries),
        decreases n - i,
    {
        let child = &children[i];
        let child_source = join_path(source, child.name.as_str());
        let child_target = join_path(target, child.name.as_str());
        match expand_directory(
            child_source.as_str(),
            FileTarget::Automatic(child_target),
            &child.node,
        ) {
            Err(e) => {
                proof {
                    children_stay_failed(source@, target@, children@, (i + 1) as nat);
                }
                return Err(e.within(child_source));
            },
            Ok(more) => {
                let ghost before = files@;
                files.extend(more);
                proof {
                    let got = expand_entries(
                        child_source@,
                        TargetView::automatic(child_target@),
                        child.node,
                    )->Ok_0;
                    collect_concat(entries, got);
                    assert(files_view(files@) =~= files_view(before).union_prefer_right(
                        files_view(more@),
                    ));
                    entries = entries + got;
                }
            },
        }
        i += 1;
    }
    Ok(files)
}

/// What the snapshot holds at a source: what is not in it is missing.
pub open spec fn node_at(tree: Map<Seq<char>, SourceNode>, source: Seq<char>) -> SourceNode {
    if tree.contains_key(source) {
        tree[source]
    } else {
        SourceNode::Missing
    }
}

/// The entries that the first `n` files of a listing expand to, or the
/// failure of the first of them that fails, met while that one was
/// expanded.
pub open spec fn all_entries(
    listing: Seq<(String, FileTarget)>,
    tree: Map<Seq<char>, SourceNode>,
    n: nat,
) -> Result<Entries, ExpandErrorView>
    decreases n,
{
    if n == 0 || n > listing.len() {
        Ok(Seq::empty())
    } else {
        match all_entries(listing, tree, (n - 1) as nat) {
            Err(e) => Err(e),
            Ok(before) => {
                let (from, to) = listing[n - 1];
                match expand_entries(from@, to@, node_at(tree, from@)) {
                    Err(e) => Err(e.within(from@)),
                    Ok(more) => Ok(before + more),
                }
            },
        }
    }
}

/// Once a file fails, the files after it do not matter.
pub proof fn files_stay_failed(
    listing: Seq<(String, FileTarget)>,
    tree: Map<Seq<char>, SourceNode>,
    n: nat,
)
    requires
        n <= listing.len(),
        all_entries(listing, tree, n) is Err,
    ensures
        all_entries(listing, tree, listing.len()) == all_entries(listing, tree, n),
    decreases listing.len() - n,
{
    if n < listing.len() {
        files_stay_failed(listing, tree, n + 1);
    }
}

/// Expands every file of a plan by ascending source path. `tree` holds
/// what stands at each source; a source that it does not hold is missing.
/// Of two entries for one file the later stands.
pub fn expand_directories(files: Files, tree: &StrMap<SourceNode>) -> (r: Result<
    Files,
    ExpandError,
>)
    ensures
        expansion_outcome(r, all_entries(files.listing(), tree@, files.listing().len())),
{
    let missing = SourceNode::Missing;
    let mut out: Files = StrMap::new();
    let ghost mut entries: Entries = Seq::empty();
    let list = files.into_entries();
    let ghost all = list@;
    assert(files_view(out@) =~= collect(entries));
    for entry in it: list
        invariant
            it.seq() == all,
            all == files.listing(),
            missing == SourceNode::Missing,
            all_entries(all, tree@, it.index() as nat) == Ok::<Entries, ExpandErrorView>(entries),
            files_view(out@) == collect(entries),
    {
        let ghost i = it.index() as int;
        let (from, to) = entry;
        assert(all[i] == (from, to));
        let node = match tree.get(from.as_str()) {
            Some(node) => node,
            None => &missing,
        };
        assert(*node == node_at(tree@, from@));
        match expand_directory(from.as_str(), to, node) {
            Err(e) => {
                proof {
                    files_stay_failed(all, tree@, (i + 1) as nat);
                }
                return Err(e.within(from));
            },
            Ok(more) => {
                let ghost before = out@;
                out.extend(more);
                proof {
                    let got = expand_entries(from@, to@, *node)->Ok_0;
                    collect_concat(entries, got);
                    assert(files_view(out@) =~= files_view(before).union_prefer_right(
                        files_view(more@),
                    ));
                    entries = entries + got;
                }
            },
        }
    }
    Ok(out)
}

/// A regular file expands to exactly one entry: itself, with its target.
pub proof fn file_expands_to_itself(source: Seq<char>, target: TargetView)
    ensures
        expand_entries(source, target, SourceNode::File) == Ok::<Entries, ExpandErrorView>(
            seq![(source, target)],
        ),
        collect(seq![(source, target)]) == Map::<Seq<char>, TargetView>::empty().insert(
            source,
            target,
        ),
{
    collect_one(source, target);
}

/// The path that a chain of names leads to below `path`.
pub open spec fn descend(path: Seq<char>, names: Seq<Seq<char>>) -> Seq<char>
    decreases names.len(),
{
    if names.len() == 0 {
        path
    } else {
        descend(joined(path, names[0]), names.skip(1))
    }
}

/// Whether the chain of names leads from `node` down to a regular file.
pub open spec fn leads_to_file(node: SourceNode, names: Seq<Seq<char>>) -> bool
    decreases names.len(),
{
    if names.len() == 0 {
        node is File
    } else {
        node matches SourceNode::Directory(children) && exists|i: int|
            0 <= i < children@.len() && (#[trigger] children@[i]).name@ == names[0]
                && leads_to_file(children@[i].node, names.skip(1))
    }
}

/// Where a directory expands, each of its entries expands, and what that
/// entry expands to is among what the directory expands to.
pub proof fn child_entries_are_included(
    source: Seq<char>,
    target: Seq<char>,
    children: Seq<DirEntry>,
    n: nat,
    i: int,
)
    requires
        n <= children.len(),
        0 <= i < n,
        children_entries(source, target, children, n) is Ok,
    ensures
        expand_entries(
            joined(source, children[i].name@),
            TargetView::automatic(joined(target, children[i].name@)),
            children[i].node,
        ) matches Ok(part) && forall|x: (Seq<char>, TargetView)|
            part.contains(x) ==> children_entries(source, target, children, n)->Ok_0.contains(x),
    decreases n,
{
    let whole = children_entries(source, target, children, n)->Ok_0;
    let before = children_entries(source, target, children, (n - 1) as nat)->Ok_0;
    let last = expand_entries(
        joined(source, children[n - 1].name@),
        TargetView::automatic(joined(target, children[n - 1].name@)),
        children[n - 1].node,
    )->Ok_0;
    assert(whole == before + last);
    if i == n - 1 {
        assert forall|x: (Seq<char>, TargetView)| last.contains(x) implies whole.contains(x) by {
            let j = choose|j: int| 0 <= j < last.len() && last[j] == x;
            assert(whole[before.len() + j] == x);
        }
    } else {
        child_entries_are_included(source, target, children, (n - 1) as nat, i);
        let part = expand_entries(
            joined(source, children[i].name@),
            TargetView::automatic(joined(target, children[i].name@)),
            children[i].node,
        )->Ok_0;
        assert forall|x: (Seq<char>, TargetView)| part.contains(x) implies whole.contains(x) by {
            assert(before.contains(x));
            let j = choose|j: int| 0 <= j < before.len() && before[j] == x;
            assert(whole[j] == x);
        }
    }
}

/// Expansion keeps the structure: where a directory with the plain target
/// `target` expands, every file below it, at whatever depth, has an entry
/// whose target lies at the same place below `target`, and the plan binds
/// its source.
pub proof fn descendants_keep_their_place(
    source: Seq<char>,
    target: Seq<char>,
    node: SourceNode,
    names: Seq<Seq<char>>,
)
    requires
        leads_to_file(node, names),
        expand_entries(source, TargetView::automatic(target), node) is Ok,
    ensures
        expand_entries(source, TargetView::automatic(target), node)->Ok_0.contains(
            (descend(source, names), TargetView::automatic(descend(target, names))),
        ),
        collect(expand_entries(source, TargetView::automatic(target), node)->Ok_0).contains_key(
            descend(source, names),
        ),
    decreases names.len(),
{
    let entries = expand_entries(source, TargetView::automatic(target), node)->Ok_0;
    let entry = (descend(source, names), TargetView::automatic(descend(target, names)));
    descendants_have_their_entry(source, target, node, names);
    let i = choose|i: int| 0 <= i < entries.len() && entries[i] == entry;
    collect_binds_entries(entries, i);
}

/// The entry of a file below a directory, by induction along the way down
/// to it.
proof fn descendants_have_their_entry(
    source: Seq<char>,
    target: Seq<char>,
    node: SourceNode,
    names: Seq<Seq<char>>,
)
    requires
        leads_to_file(node, names),
        expand_entries(source, TargetView::automatic(target), node) is Ok,
    ensures
        expand_entries(source, TargetView::automatic(target), node)->Ok_0.contains(
            (descend(source, names), TargetView::automatic(descend(target, names))),
        ),
    decreases names.len(),
{
    let entries = expand_entries(source, TargetView::automatic(target), node)->Ok_0;
    if names.len() == 0 {
        assert(entries[0] == (source, TargetView::automatic(target)));
    } else {
        let children = node->Directory_0@;
        let i = choose|i: int|
            0 <= i < children.len() && (#[trigger] children[i]).name@ == names[0] && leads_to_file(
                children[i].node,
                names.skip(1),
            );
        child_entries_are_included(source, target, children, children.len(), i);
        descendants_have_their_entry(
            joined(source, names[0]),
            joined(target, names[0]),
            children[i].node,
            names.skip(1),
        );
    }
}

/// Every entry is collected: its source is bound, and bound to its target
/// unless a later entry has the same source.
pub proof fn collect_binds_entries(entries: Entries, i: int)
    requires
        0 <= i < entries.len(),
    ensures
        collect(entries).contains_key(entries[i].0),
        (forall|j: int| i < j < entries.len() ==> (#[trigger] entries[j]).0 != entries[i].0)
            ==> collect(entries)[entries[i].0] == entries[i].1,
    decreases entries.len(),
{
    if i < entries.len() - 1 {
        let front = entries.drop_last();
        collect_binds_entries(front, i);
        assert(front[i] == entries[i]);
        if forall|j: int| i < j < entries.len() ==> (#[trigger] entries[j]).0 != entries[i].0 {
            assert(entries[entries.len() - 1].0 != entries[i].0);
            assert forall|j: int| i < j < front.len() implies (#[trigger] front[j]).0
                != front[i].0 by {
                assert(front[j] == entries[j]);
            }
        }
    }
}

} // verus!
