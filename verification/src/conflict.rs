//! Trees that hold a conflict as structure.
//!
//! When a commit is picked onto another and the two sides do not merge, the commit is still
//! made. Its tree holds every side under a directory of its own, and the result of the
//! merge, in which the side called ours wins each conflict, under another. No file gets
//! conflict markers written into it.
//!
//! A tree is taken as the list of its files, each a path and the identifier of its
//! content. Merging goes path by path: a path conflicts if both sides differ from the base
//! and from each other.

use crate::ids::ObjectId;
use crate::names::{bytes_equal, name_bytes};
use vstd::prelude::*;
use vstd::string::*;

verus! {

/// A file of a tree.
#[derive(Clone, Debug, PartialEq, Eq)]
pub struct TreeEntry {
    pub path: Vec<u8>,
    pub id: ObjectId,
}

/// A [`TreeEntry`] as a mathematical value.
pub struct TreeEntryView {
    pub path: Seq<u8>,
    pub id: ObjectId,
}

impl View for TreeEntry {
    type V = TreeEntryView;

    open spec fn view(&self) -> TreeEntryView {
        TreeEntryView { path: self.path@, id: self.id }
    }
}

impl DeepView for TreeEntry {
    type V = TreeEntryView;

    open spec fn deep_view(&self) -> TreeEntryView {
        self@
    }
}

/// Whether one of the first `n` files has the path.
pub open spec fn listed_below(tree: Seq<TreeEntryView>, path: Seq<u8>, n: int) -> bool {
    exists|j: int| 0 <= j < n && j < tree.len() && (#[trigger] tree[j]).path == path
}

/// The file at position `j` is the first with the path.
pub open spec fn is_first(tree: Seq<TreeEntryView>, path: Seq<u8>, j: int) -> bool {
    &&& 0 <= j < tree.len()
    &&& tree[j].path == path
    &&& !listed_below(tree, path, j)
}

/// The content at a path of a tree, `None` if the tree has no such file. Where a path is
/// listed twice, the first listing counts.
pub open spec fn blob_at(tree: Seq<TreeEntryView>, path: Seq<u8>) -> Option<ObjectId> {
    if exists|j: int| is_first(tree, path, j) {
        Some(tree[choose|j: int| is_first(tree, path, j)].id)
    } else {
        None
    }
}

/// The content that merging gives at a path whose contents in base, ours and theirs are
/// `b`, `o` and `t`: what both sides agree on; else what the one side made of it that
/// changed it; else, in a conflict, what ours has.
pub open spec fn merged(b: Option<ObjectId>, o: Option<ObjectId>, t: Option<ObjectId>) -> Option<
    ObjectId,
> {
    if o == t {
        o
    } else if o == b {
        t
    } else {
        o
    }
}

/// Whether the contents conflict: each side differs from the base, and the sides differ.
pub open spec fn conflicting(
    b: Option<ObjectId>,
    o: Option<ObjectId>,
    t: Option<ObjectId>,
) -> bool {
    o != t && o != b && t != b
}

/// The decimal digits of a number.
pub open spec fn decimal(n: nat) -> Seq<u8>
    decreases n,
{
    if n < 10 {
        seq![(48 + n) as u8]
    } else {
        decimal(n / 10).push((48 + n % 10) as u8)
    }
}

/// The directory of the merge result.
pub open spec fn auto_dir() -> Seq<u8> {
    name_bytes(".auto-resolution/"@)
}

/// The directory of the base of conflict group `group`.
pub open spec fn base_dir(group: nat) -> Seq<u8> {
    name_bytes(".conflict-base-"@) + decimal(group) + seq![47u8]
}

/// The directory of a side: 0 for ours, 1 for theirs.
pub open spec fn side_dir(side: nat) -> Seq<u8> {
    name_bytes(".conflict-side-"@) + decimal(side) + seq![47u8]
}

/// No file, or one file at `dir` followed by `path`.
pub open spec fn placed(dir: Seq<u8>, path: Seq<u8>, id: Option<ObjectId>) -> Seq<TreeEntryView> {
    match id {
        Some(id) => seq![TreeEntryView { path: dir + path, id }],
        None => Seq::empty(),
    }
}

/// The files that stand for one path in a tree that holds a conflict. A file that is the
/// same in base, ours and theirs stays where it is. For any other path the merge result
/// goes under the result directory, and what base, ours and theirs have at the path goes
/// under the directory of each, as far as they have it.
pub open spec fn files_for(
    path: Seq<u8>,
    b: Option<ObjectId>,
    o: Option<ObjectId>,
    t: Option<ObjectId>,
    group: nat,
) -> Seq<TreeEntryView> {
    if b == o && o == t {
        placed(Seq::empty(), path, b)
    } else {
        placed(auto_dir(), path, merged(b, o, t)) + placed(base_dir(group), path, b) + placed(
            side_dir(0),
            path,
            o,
        ) + placed(side_dir(1), path, t)
    }
}

/// The files for the paths of the first `n` entries of `all`, each path once, where it is
/// first listed.
pub open spec fn encoded_upto(
    all: Seq<TreeEntryView>,
    base: Seq<TreeEntryView>,
    ours: Seq<TreeEntryView>,
    theirs: Seq<TreeEntryView>,
    group: nat,
    n: int,
) -> Seq<TreeEntryView>
    decreases n,
{
    if n <= 0 {
        Seq::empty()
    } else if listed_below(all, all[n - 1].path, n - 1) {
        encoded_upto(all, base, ours, theirs, group, n - 1)
    } else {
        encoded_upto(all, base, ours, theirs, group, n - 1) + files_for(
            all[n - 1].path,
            blob_at(base, all[n - 1].path),
            blob_at(ours, all[n - 1].path),
            blob_at(theirs, all[n - 1].path),
            group,
        )
    }
}

/// The tree that holds the conflict between ours and theirs over base: the files for every
/// path of base, then of ours, then of theirs.
pub open spec fn encoded(
    base: Seq<TreeEntryView>,
    ours: Seq<TreeEntryView>,
    theirs: Seq<TreeEntryView>,
    group: nat,
) -> Seq<TreeEntryView> {
    encoded_upto(
        base + ours + theirs,
        base,
        ours,
        theirs,
        group,
        (base + ours + theirs).len() as int,
    )
}

/// Whether some path conflicts.
pub open spec fn has_conflict(
    base: Seq<TreeEntryView>,
    ours: Seq<TreeEntryView>,
    theirs: Seq<TreeEntryView>,
) -> bool {
    exists|k: int|
        0 <= k < (base + ours + theirs).len() && conflicting(
            blob_at(base, (#[trigger] (base + ours + theirs)[k]).path),
            blob_at(ours, (base + ours + theirs)[k].path),
            blob_at(theirs, (base + ours + theirs)[k].path),
        )
}

/// The content at a path of a tree.
pub fn lookup(tree: &Vec<TreeEntry>, path: &Vec<u8>) -> (r: Option<ObjectId>)
    ensures
        r == blob_at(tree.deep_view(), path@),
{
    let ghost t = tree.deep_view();
    let mut j: usize = 0;
    while j < tree.len()
        invariant
            j <= tree.len(),
            t == tree.deep_view(),
            !listed_below(t, path@, j as int),
        decreases tree.len() - j,
    {
        if bytes_equal(tree[j].path.as_slice(), path.as_slice()) {
            proof {
                assert(is_first(t, path@, j as int));
            }
            return Some(tree[j].id);
        }
        j += 1;
    }
    None
}

/// Whether one of the first `n` files of the tree has the path.
fn listed_before(tree: &Vec<TreeEntry>, path: &Vec<u8>, n: usize) -> (r: bool)
    requires
        n <= tree.len(),
    ensures
        r == listed_below(tree.deep_view(), path@, n as int),
{
    let ghost t = tree.deep_view();
    let mut j: usize = 0;
    while j < n
        invariant
            j <= n <= tree.len(),
            t == tree.deep_view(),
            forall|k: int| 0 <= k < j ==> (#[trigger] t[k]).path != path@,
        decreases n - j,
    {
        if bytes_equal(tree[j].path.as_slice(), path.as_slice()) {
            assert(t[j as int].path == path@);
            return true;
        }
        j += 1;
    }
    false
}

/// Appends bytes.
fn append(to: &mut Vec<u8>, bytes: &[u8])
    ensures
        final(to)@ == old(to)@ + bytes@,
{
    let ghost before = to@;
    let mut i: usize = 0;
    while i < bytes.len()
        invariant
            i <= bytes.len(),
            to@ == before + bytes@.subrange(0, i as int),
        decreases bytes.len() - i,
    {
        to.push(bytes[i]);
        i += 1;
    }
}

/// Appends the decimal digits of a number.
fn append_decimal(to: &mut Vec<u8>, n: u32)
    ensures
        final(to)@ == old(to)@ + decimal(n as nat),
    decreases n,
{
    if n < 10 {
        to.push(48 + n as u8);
    } else {
        append_decimal(to, n / 10);
        to.push(48 + (n % 10) as u8);
    }
}

/// The name of the directory of the merge result.
fn auto_dir_name() -> (r: Vec<u8>)
    ensures
        r@ == auto_dir(),
{
    let mut dir: Vec<u8> = Vec::new();
    append(&mut dir, ".auto-resolution/".as_bytes());
    dir
}

/// The name of the directory of the base of a conflict group.
fn base_dir_name(group: u32) -> (r: Vec<u8>)
    ensures
        r@ == base_dir(group as nat),
{
    let mut dir: Vec<u8> = Vec::new();
    append(&mut dir, ".conflict-base-".as_bytes());
    append_decimal(&mut dir, group);
    dir.push(47);
    dir
}

/// The name of the directory of a side.
fn side_dir_name(side: u32) -> (r: Vec<u8>)
    ensures
        r@ == side_dir(side as nat),
{
    let mut dir: Vec<u8> = Vec::new();
    append(&mut dir, ".conflict-side-".as_bytes());
    append_decimal(&mut dir, side);
    dir.push(47);
    dir
}

/// Adds the file at `dir` followed by `path`, if there is content for it.
fn place(out: &mut Vec<TreeEntry>, dir: &Vec<u8>, path: &Vec<u8>, id: Option<ObjectId>)
    ensures
        final(out).deep_view() == old(out).deep_view() + placed(dir@, path@, id),
{
    match id {
        Some(id) => {
            let mut full: Vec<u8> = Vec::new();
            append(&mut full, dir.as_slice());
            append(&mut full, path.as_slice());
            out.push(TreeEntry { path: full, id });
        },
        None => {
        },
    }
}

/// Whether the contents of a path conflict.
fn is_conflicting(b: Option<ObjectId>, o: Option<ObjectId>, t: Option<ObjectId>) -> (r: bool)
    ensures
        r == conflicting(b, o, t),
{
    !same_content(o, t) && !same_content(o, b) && !same_content(t, b)
}

/// Whether two contents are the same, or both missing.
fn same_content(a: Option<ObjectId>, b: Option<ObjectId>) -> (r: bool)
    ensures
        r == (a == b),
{
    match (a, b) {
        (Some(x), Some(y)) => x.same_as(&y),
        (None, None) => true,
        _ => false,
    }
}

/// The content that merging gives at a path.
fn merge_content(b: Option<ObjectId>, o: Option<ObjectId>, t: Option<ObjectId>) -> (r: Option<
    ObjectId,
>)
    ensures
        r == merged(b, o, t),
{
    if same_content(o, t) {
        o
    } else if same_content(o, b) {
        t
    } else {
        o
    }
}

/// All files of the three trees in one list: base, then ours, then theirs.
fn all_files(base: &Vec<TreeEntry>, ours: &Vec<TreeEntry>, theirs: &Vec<TreeEntry>) -> (r: Vec<
    TreeEntry,
>)
    ensures
        r.deep_view() == base.deep_view() + ours.deep_view() + theirs.deep_view(),
{
    let mut all: Vec<TreeEntry> = Vec::new();
    add_files(&mut all, base);
    add_files(&mut all, ours);
    add_files(&mut all, theirs);
    all
}

/// Appends copies of the files of a tree.
fn add_files(to: &mut Vec<TreeEntry>, tree: &Vec<TreeEntry>)
    ensures
        final(to).deep_view() == old(to).deep_view() + tree.deep_view(),
{
    let ghost before = to.deep_view();
    let mut i: usize = 0;
    while i < tree.len()
        invariant
            i <= tree.len(),
            to.deep_view() == before + tree.deep_view().subrange(0, i as int),
        decreases tree.len() - i,
    {
        let ghost so_far = to.deep_view();
        let entry = TreeEntry { path: tree[i].path.clone(), id: tree[i].id };
        to.push(entry);
        assert(to.deep_view() =~= so_far.push(entry@));
        i += 1;
    }
}

/// Whether picking theirs onto ours over base conflicts at some path.
pub fn trees_conflict(base: &Vec<TreeEntry>, ours: &Vec<TreeEntry>, theirs: &Vec<TreeEntry>) -> (r:
    bool)
    ensures
        r == has_conflict(base.deep_view(), ours.deep_view(), theirs.deep_view()),
{
    let all = all_files(base, ours, theirs);
    let ghost a = base.deep_view() + ours.deep_view() + theirs.deep_view();
    let mut k: usize = 0;
    while k < all.len()
        invariant
            k <= all.len(),
            a == all.deep_view(),
            a == base.deep_view() + ours.deep_view() + theirs.deep_view(),
            forall|j: int|
                0 <= j < k ==> !conflicting(
                    blob_at(base.deep_view(), (#[trigger] a[j]).path),
                    blob_at(ours.deep_view(), a[j].path),
                    blob_at(theirs.deep_view(), a[j].path),
                ),
        decreases all.len() - k,
    {
        let path = &all[k].path;
        assert(path@ == a[k as int].path);
        if is_conflicting(lookup(base, path), lookup(ours, path), lookup(theirs, path)) {
            return true;
        }
        k += 1;
    }
    false
}

/// Builds the tree that holds the conflict between ours and theirs over base. `group`
/// numbers the conflict among those of the same commit.
pub fn encode_conflict(
    base: &Vec<TreeEntry>,
    ours: &Vec<TreeEntry>,
    theirs: &Vec<TreeEntry>,
    group: u32,
) -> (r: Vec<TreeEntry>)
    ensures
        r.deep_view() == encoded(
            base.deep_view(),
            ours.deep_view(),
            theirs.deep_view(),
            group as nat,
        ),
{
    let all = all_files(base, ours, theirs);
    let ghost a = all.deep_view();
    let ghost bv = base.deep_view();
    let ghost ov = ours.deep_view();
    let ghost tv = theirs.deep_view();
    let auto = auto_dir_name();
    let base_name = base_dir_name(group);
    let ours_name = side_dir_name(0);
    let theirs_name = side_dir_name(1);
    let top: Vec<u8> = Vec::new();
    let mut out: Vec<TreeEntry> = Vec::new();
    let mut k: usize = 0;
    while k < all.len()
        invariant
            k <= all.len(),
            a == all.deep_view(),
            a == bv + ov + tv,
            bv == base.deep_view(),
            ov == ours.deep_view(),
            tv == theirs.deep_view(),
            auto@ == auto_dir(),
            base_name@ == base_dir(group as nat),
            ours_name@ == side_dir(0),
            theirs_name@ == side_dir(1),
            top@ == Seq::<u8>::empty(),
            out.deep_view() == encoded_upto(a, bv, ov, tv, group as nat, k as int),
        decreases all.len() - k,
    {
        let path = &all[k].path;
        if !listed_before(&all, path, k) {
            let b = lookup(base, path);
            let o = lookup(ours, path);
            let t = lookup(theirs, path);
            if same_content(b, o) && same_content(o, t) {
                place(&mut out, &top, path, b);
            } else {
                place(&mut out, &auto, path, merge_content(b, o, t));
                place(&mut out, &base_name, path, b);
                place(&mut out, &ours_name, path, o);
                place(&mut out, &theirs_name, path, t);
            }
        }
        k += 1;
    }
    out
}

/// The files of the merge result for the paths of the first `n` entries of `all`, each
/// path once, where it is first listed.
pub open spec fn merged_upto(
    all: Seq<TreeEntryView>,
    base: Seq<TreeEntryView>,
    ours: Seq<TreeEntryView>,
    theirs: Seq<TreeEntryView>,
    n: int,
) -> Seq<TreeEntryView>
    decreases n,
{
    if n <= 0 {
        Seq::empty()
    } else if listed_below(all, all[n - 1].path, n - 1) {
        merged_upto(all, base, ours, theirs, n - 1)
    } else {
        merged_upto(all, base, ours, theirs, n - 1) + placed(
            Seq::empty(),
            all[n - 1].path,
            merged(
                blob_at(base, all[n - 1].path),
                blob_at(ours, all[n - 1].path),
                blob_at(theirs, all[n - 1].path),
            ),
        )
    }
}

/// The tree that merging ours and theirs over base gives, path by path.
pub open spec fn merged_tree(
    base: Seq<TreeEntryView>,
    ours: Seq<TreeEntryView>,
    theirs: Seq<TreeEntryView>,
) -> Seq<TreeEntryView> {
    merged_upto(base + ours + theirs, base, ours, theirs, (base + ours + theirs).len() as int)
}

/// The tree of a picked commit, and whether it holds a conflict.
#[derive(Clone, Debug, PartialEq, Eq)]
pub struct Picked {
    pub tree: Vec<TreeEntry>,
    pub conflicted: bool,
}

/// Merges ours and theirs over base, path by path, taking what ours has where they
/// conflict.
pub fn merge_trees(base: &Vec<TreeEntry>, ours: &Vec<TreeEntry>, theirs: &Vec<TreeEntry>) -> (r:
    Vec<TreeEntry>)
    ensures
        r.deep_view() == merged_tree(base.deep_view(), ours.deep_view(), theirs.deep_view()),
{
    let all = all_files(base, ours, theirs);
    let ghost a = all.deep_view();
    let top: Vec<u8> = Vec::new();
    let mut out: Vec<TreeEntry> = Vec::new();
    let mut k: usize = 0;
    while k < all.len()
        invariant
            k <= all.len(),
            a == all.deep_view(),
            a == base.deep_view() + ours.deep_view() + theirs.deep_view(),
            top@ == Seq::<u8>::empty(),
            out.deep_view() == merged_upto(
                a,
                base.deep_view(),
                ours.deep_view(),
                theirs.deep_view(),
                k as int,
            ),
        decreases all.len() - k,
    {
        let path = &all[k].path;
        if !listed_before(&all, path, k) {
            let content = merge_content(
                lookup(base, path),
                lookup(ours, path),
                lookup(theirs, path),
            );
            place(&mut out, &top, path, content);
        }
        k += 1;
    }
    out
}

/// Picks theirs onto ours over base. Where no path conflicts, the tree is the merge result
/// and the pick is clean. Where a path conflicts, the pick still succeeds: the tree holds
/// the conflict, and says so.
pub fn cherry_pick(
    base: &Vec<TreeEntry>,
    ours: &Vec<TreeEntry>,
    theirs: &Vec<TreeEntry>,
    group: u32,
) -> (r: Picked)
    ensures
        r.conflicted == has_conflict(base.deep_view(), ours.deep_view(), theirs.deep_view()),
        r.tree.deep_view() == if r.conflicted {
            encoded(base.deep_view(), ours.deep_view(), theirs.deep_view(), group as nat)
        } else {
            merged_tree(base.deep_view(), ours.deep_view(), theirs.deep_view())
        },
{
    if trees_conflict(base, ours, theirs) {
        Picked { tree: encode_conflict(base, ours, theirs, group), conflicted: true }
    } else {
        Picked { tree: merge_trees(base, ours, theirs), conflicted: false }
    }
}

/// A file is in the tree that holds a conflict exactly if it is one of the files that stand
/// for a path of base, ours or theirs.
pub proof fn lemma_encoded_contains(
    base: Seq<TreeEntryView>,
    ours: Seq<TreeEntryView>,
    theirs: Seq<TreeEntryView>,
    group: nat,
    file: TreeEntryView,
)
    ensures
        encoded(base, ours, theirs, group).contains(file) <==> stands_for_some(
            base,
            ours,
            theirs,
            group,
            file,
            (base + ours + theirs).len() as int,
        ),
{
    lemma_encoded_upto_contains(
        base,
        ours,
        theirs,
        group,
        file,
        (base + ours + theirs).len() as int,
    );
}

/// Whether `file` is one of the files that stand for the path of one of the first `n`
/// entries of base, ours and theirs.
pub open spec fn stands_for_some(
    base: Seq<TreeEntryView>,
    ours: Seq<TreeEntryView>,
    theirs: Seq<TreeEntryView>,
    group: nat,
    file: TreeEntryView,
    n: int,
) -> bool {
    exists|k: int|
        0 <= k < n && k < (base + ours + theirs).len() && files_for(
            (#[trigger] (base + ours + theirs)[k]).path,
            blob_at(base, (base + ours + theirs)[k].path),
            blob_at(ours, (base + ours + theirs)[k].path),
            blob_at(theirs, (base + ours + theirs)[k].path),
            group,
        ).contains(file)
}

proof fn lemma_encoded_upto_contains(
    base: Seq<TreeEntryView>,
    ours: Seq<TreeEntryView>,
    theirs: Seq<TreeEntryView>,
    group: nat,
    file: TreeEntryView,
    n: int,
)
    requires
        0 <= n <= (base + ours + theirs).len(),
    ensures
        encoded_upto(base + ours + theirs, base, ours, theirs, group, n).contains(file)
            <==> stands_for_some(base, ours, theirs, group, file, n),
    decreases n,
{
    let all = base + ours + theirs;
    if n > 0 {
        lemma_encoded_upto_contains(base, ours, theirs, group, file, n - 1);
        let before = encoded_upto(all, base, ours, theirs, group, n - 1);
        let now = encoded_upto(all, base, ours, theirs, group, n);
        let path = all[n - 1].path;
        let own = files_for(
            path,
            blob_at(base, path),
            blob_at(ours, path),
            blob_at(theirs, path),
            group,
        );
        if !listed_below(all, path, n - 1) {
            if before.contains(file) {
                let i = choose|i: int| 0 <= i < before.len() && before[i] == file;
                assert(now[i] == file);
            }
            if own.contains(file) {
                let i = choose|i: int| 0 <= i < own.len() && own[i] == file;
                assert(now[before.len() + i] == file);
            }
        }
    }
}

/// A path at which base, ours and theirs all have content, all different, is stood for by
/// exactly four files: the content of ours under the result directory, and the content of
/// each of the three under its own directory.
pub proof fn lemma_conflicting_path_has_four_files(
    path: Seq<u8>,
    b: ObjectId,
    o: ObjectId,
    t: ObjectId,
    group: nat,
)
    requires
        conflicting(Some(b), Some(o), Some(t)),
    ensures
        files_for(path, Some(b), Some(o), Some(t), group) == seq![
            TreeEntryView { path: auto_dir() + path, id: o },
            TreeEntryView { path: base_dir(group) + path, id: b },
            TreeEntryView { path: side_dir(0) + path, id: o },
            TreeEntryView { path: side_dir(1) + path, id: t },
        ],
{
}

} // verus!
