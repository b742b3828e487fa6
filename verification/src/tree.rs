//! The tree builder: an in-memory directory snapshot, the sort that the
//! format demands, and the bottom-up write that persists every object.

use vstd::prelude::*;

use crate::bytes::{lemma_lex_le_total, lemma_lex_le_trans, lex_le, name_le, sub_vec};
use crate::digest::sha1_of;
use crate::object::{obj_enc, Object, ObjectV, TreeEntry, TreeEntryV};
use crate::store::{spec_record_of, StoreRecord, StoreRecordV};

verus! {

/// An in-memory snapshot of a directory: named nodes, each a file's
/// pending blob or a nested sub-tree.
pub struct Tree(pub Vec<TreeNode>);

/// One directory entry of a snapshot.
pub struct TreeNode {
    pub name: Vec<u8>,
    pub kind: TreeNodeKind,
}

/// What a directory entry holds.
pub enum TreeNodeKind {
    /// A file's content held as a pending blob object, with its
    /// executable permission bit.
    Blob { obj: Object, is_executable: bool },
    /// A nested directory snapshot.
    Tree(Tree),
}

/// The mode a node is recorded with: regular file, executable file, or
/// subdirectory.
pub open spec fn spec_mode(k: TreeNodeKind) -> nat {
    match k {
        TreeNodeKind::Blob { obj: _, is_executable } => if is_executable {
            100755
        } else {
            100644
        },
        TreeNodeKind::Tree(_) => 40000,
    }
}

/// A snapshot the writer can persist: every pending object is a real
/// object (never a tag), recursively.
pub open spec fn tree_wf(t: Tree) -> bool
    decreases t,
{
    forall|i: int| 0 <= i < t.0@.len() ==> node_wf(#[trigger] t.0@[i])
}

/// Well-formedness of one node.
pub open spec fn node_wf(n: TreeNode) -> bool
    decreases n,
{
    match n.kind {
        TreeNodeKind::Blob { obj, is_executable: _ } => !(obj@ is Tag),
        TreeNodeKind::Tree(sub) => tree_wf(sub),
    }
}

/// The tree-entry record a node contributes: its mode, its name, and the
/// hash of the object persisted for it.
pub open spec fn spec_node_entry(n: TreeNode) -> TreeEntryV
    decreases n,
{
    TreeEntryV {
        mode: spec_mode(n.kind),
        name: n.name@,
        hash: match n.kind {
            TreeNodeKind::Blob { obj, is_executable: _ } => sha1_of(obj_enc(obj@)),
            TreeNodeKind::Tree(sub) => sha1_of(obj_enc(spec_tree_obj(sub))),
        },
    }
}

/// The records all nodes contribute, in node order.
pub open spec fn spec_entries(s: Seq<TreeNode>) -> Seq<TreeEntryV>
    decreases s,
{
    if s.len() == 0 {
        Seq::empty()
    } else {
        seq![spec_node_entry(s[0])] + spec_entries(s.skip(1))
    }
}

/// The tree object a snapshot becomes: its nodes' records, sorted by name.
pub open spec fn spec_tree_obj(t: Tree) -> ObjectV
    decreases t,
{
    ObjectV::Tree(sort_entries(spec_entries(t.0@)))
}

/// The 20-byte hash of the tree object a snapshot becomes.
pub open spec fn spec_tree_hash(t: Tree) -> Seq<u8> {
    sha1_of(obj_enc(spec_tree_obj(t)))
}

/// Every record persisted for a snapshot: each node's objects bottom-up,
/// in node order, then the snapshot's own tree object last.
pub open spec fn spec_tree_writes(t: Tree) -> Seq<StoreRecordV>
    decreases t,
{
    spec_node_writes(t.0@) + seq![spec_record_of(obj_enc(spec_tree_obj(t)))]
}

/// The records persisted for a run of nodes, in node order.
pub open spec fn spec_node_writes(s: Seq<TreeNode>) -> Seq<StoreRecordV>
    decreases s,
{
    if s.len() == 0 {
        Seq::empty()
    } else {
        spec_one_node_writes(s[0]) + spec_node_writes(s.skip(1))
    }
}

/// The records persisted for one node: a blob's single record, or all of
/// a sub-tree's records.
pub open spec fn spec_one_node_writes(n: TreeNode) -> Seq<StoreRecordV>
    decreases n,
{
    match n.kind {
        TreeNodeKind::Blob { obj, is_executable: _ } => seq![spec_record_of(obj_enc(obj@))],
        TreeNodeKind::Tree(sub) => spec_tree_writes(sub),
    }
}

/// Peeling the last node off `spec_entries`.
pub proof fn lemma_entries_snoc(s: Seq<TreeNode>)
    requires
        s.len() > 0,
    ensures
        spec_entries(s) == spec_entries(s.drop_last()).push(spec_node_entry(s.last())),
    decreases s.len(),
{
    if s.len() == 1 {
        assert(s.skip(1) =~= Seq::<TreeNode>::empty());
        assert(s.drop_last() =~= Seq::<TreeNode>::empty());
        assert(seq![spec_node_entry(s[0])] + spec_entries(s.skip(1)) =~= Seq::empty().push(
            spec_node_entry(s.last()),
        ));
    } else {
        lemma_entries_snoc(s.skip(1));
        assert(s.skip(1).drop_last() =~= s.drop_last().skip(1));
        assert(s.skip(1).last() == s.last());
        assert(s.drop_last()[0] == s[0]);
        assert(s.drop_last().len() > 0);
        assert(seq![spec_node_entry(s[0])] + spec_entries(s.drop_last().skip(1)).push(
            spec_node_entry(s.last()),
        ) =~= (seq![spec_node_entry(s[0])] + spec_entries(s.drop_last().skip(1))).push(
            spec_node_entry(s.last()),
        ));
    }
}

/// Peeling the last node off `spec_node_writes`.
pub proof fn lemma_node_writes_snoc(s: Seq<TreeNode>)
    requires
        s.len() > 0,
    ensures
        spec_node_writes(s) == spec_node_writes(s.drop_last()) + spec_one_node_writes(s.last()),
    decreases s.len(),
{
    if s.len() == 1 {
        assert(s.skip(1) =~= Seq::<TreeNode>::empty());
        assert(s.drop_last() =~= Seq::<TreeNode>::empty());
        assert(spec_one_node_writes(s[0]) + spec_node_writes(s.skip(1)) =~= spec_node_writes(
            s.drop_last(),
        ) + spec_one_node_writes(s.last()));
    } else {
        lemma_node_writes_snoc(s.skip(1));
        assert(s.skip(1).drop_last() =~= s.drop_last().skip(1));
        assert(s.skip(1).last() == s.last());
        assert(s.drop_last()[0] == s[0]);
        assert(s.drop_last().len() > 0);
        assert(spec_one_node_writes(s[0]) + (spec_node_writes(s.drop_last().skip(1))
            + spec_one_node_writes(s.last())) =~= (spec_one_node_writes(s[0]) + spec_node_writes(
            s.drop_last().skip(1),
        )) + spec_one_node_writes(s.last()));
    }
}

/// Inserts an entry into a run of entries, before the first entry whose
/// name does not come earlier.
pub open spec fn insert_sorted(e: TreeEntryV, s: Seq<TreeEntryV>) -> Seq<TreeEntryV>
    decreases s.len(),
{
    if s.len() == 0 {
        seq![e]
    } else if lex_le(e.name, s[0].name) {
        seq![e] + s
    } else {
        seq![s[0]] + insert_sorted(e, s.skip(1))
    }
}

/// Insertion sort of entries by name, byte-wise.
pub open spec fn sort_entries(s: Seq<TreeEntryV>) -> Seq<TreeEntryV>
    decreases s.len(),
{
    if s.len() == 0 {
        Seq::empty()
    } else {
        insert_sorted(s.last(), sort_entries(s.drop_last()))
    }
}

/// Entries stand in byte-wise name order.
pub open spec fn entries_sorted(s: Seq<TreeEntryV>) -> bool {
    forall|i: int, j: int| 0 <= i < j < s.len() ==> lex_le(s[i].name, s[j].name)
}

/// Inserting keeps a sorted run sorted and adds exactly the new entry.
pub proof fn lemma_insert_sorted_props(e: TreeEntryV, s: Seq<TreeEntryV>)
    ensures
        insert_sorted(e, s).len() == s.len() + 1,
        insert_sorted(e, s).to_multiset() == s.to_multiset().insert(e),
        entries_sorted(s) ==> entries_sorted(insert_sorted(e, s)),
    decreases s.len(),
{
    if s.len() == 0 {
        vstd::seq_lib::to_multiset_insert(s, 0, e);
        assert(seq![e] =~= s.insert(0, e));
    } else if lex_le(e.name, s[0].name) {
        let r = seq![e] + s;
        vstd::seq_lib::to_multiset_insert(s, 0, e);
        assert(r =~= s.insert(0, e));
        if entries_sorted(s) {
            assert forall|i: int, j: int| 0 <= i < j < r.len() implies lex_le(
                r[i].name,
                r[j].name,
            ) by {
                if i == 0 {
                    if j > 1 {
                        lemma_lex_le_trans(e.name, s[0].name, s[j - 1].name);
                    }
                }
            }
        }
    } else {
        lemma_insert_sorted_props(e, s.skip(1));
        let t = insert_sorted(e, s.skip(1));
        let r = seq![s[0]] + t;
        vstd::seq_lib::to_multiset_insert(t, 0, s[0]);
        assert(r =~= t.insert(0, s[0]));
        assert(r.to_multiset() == t.to_multiset().insert(s[0]));
        vstd::seq_lib::to_multiset_insert(s.skip(1), 0, s[0]);
        assert(s =~= s.skip(1).insert(0, s[0]));
        assert(s.to_multiset() == s.skip(1).to_multiset().insert(s[0]));
        assert(r.to_multiset() =~= s.to_multiset().insert(e)) by {
            broadcast use vstd::multiset::group_multiset_axioms;

        };
        if entries_sorted(s) {
            assert forall|i: int, j: int| 0 <= i < j < s.skip(1).len() implies lex_le(
                s.skip(1)[i].name,
                s.skip(1)[j].name,
            ) by {
                assert(lex_le(s[i + 1].name, s[j + 1].name));
            }
            assert(entries_sorted(t));
            // s[0] comes no later than e, and no later than any entry of
            // the tail, so it can stand in front of the inserted run.
            lemma_lex_le_total(e.name, s[0].name);
            assert forall|i: int, j: int| 0 <= i < j < r.len() implies lex_le(
                r[i].name,
                r[j].name,
            ) by {
                if i == 0 {
                    lemma_insert_sorted_element(e, s.skip(1), j - 1);
                    let x = r[j];
                    if x == e {
                    } else {
                        assert(s.skip(1).to_multiset().count(x) > 0);
                        vstd::seq_lib::to_multiset_contains(s.skip(1), x);
                        let k = choose|k: int| 0 <= k < s.skip(1).len() && s.skip(1)[k] == x;
                        assert(lex_le(s[0].name, s[k + 1].name));
                    }
                }
            }
        }
    }
}

/// Every entry of an inserted run is the new entry or one of the old run.
proof fn lemma_insert_sorted_element(e: TreeEntryV, s: Seq<TreeEntryV>, j: int)
    requires
        0 <= j < insert_sorted(e, s).len(),
    ensures
        insert_sorted(e, s)[j] == e || s.to_multiset().count(insert_sorted(e, s)[j]) > 0,
    decreases s.len(),
{
    broadcast use vstd::seq_lib::to_multiset_contains;

    if s.len() == 0 {
    } else if lex_le(e.name, s[0].name) {
        if j > 0 {
            assert(s.contains(s[j - 1]));
        }
    } else {
        if j == 0 {
            assert(s.contains(s[0]));
        } else {
            lemma_insert_sorted_element(e, s.skip(1), j - 1);
            let x = insert_sorted(e, s)[j];
            assert(x == insert_sorted(e, s.skip(1))[j - 1]);
            if x != e {
                assert(s.skip(1).contains(x));
                let k = choose|k: int| 0 <= k < s.skip(1).len() && s.skip(1)[k] == x;
                assert(s[k + 1] == x);
                assert(s.contains(x));
            }
        }
    }
}

/// Sort invariant, first half: the sorted entries stand in byte-wise name
/// order, whatever order they were collected in.
pub proof fn lemma_sort_entries_sorted(s: Seq<TreeEntryV>)
    ensures
        entries_sorted(sort_entries(s)),
    decreases s.len(),
{
    if s.len() > 0 {
        lemma_sort_entries_sorted(s.drop_last());
        lemma_insert_sorted_props(s.last(), sort_entries(s.drop_last()));
    }
}

/// Sort invariant, second half: sorting only reorders; the sorted entries
/// are exactly the collected ones.
pub proof fn lemma_sort_entries_multiset(s: Seq<TreeEntryV>)
    ensures
        sort_entries(s).to_multiset() == s.to_multiset(),
        sort_entries(s).len() == s.len(),
    decreases s.len(),
{
    if s.len() == 0 {
        assert(sort_entries(s) =~= s);
    } else {
        lemma_sort_entries_multiset(s.drop_last());
        lemma_insert_sorted_props(s.last(), sort_entries(s.drop_last()));
        vstd::seq_lib::to_multiset_insert(s.drop_last(), s.drop_last().len() as int, s.last());
        assert(s =~= s.drop_last().insert(s.drop_last().len() as int, s.last()));
        assert(s.to_multiset() == s.drop_last().to_multiset().insert(s.last()));
    }
}

/// Builds a fresh copy of a tree entry.
fn clone_entry(e: &TreeEntry) -> (r: TreeEntry)
    ensures
        r@ == e@,
{
    let name = sub_vec(e.name.as_slice(), 0, e.name.len());
    let hash = sub_vec(e.hash.as_slice(), 0, e.hash.len());
    proof {
        assert(name@ =~= e.name@);
        assert(hash@ =~= e.hash@);
    }
    TreeEntry { mode: e.mode, name, hash }
}

/// Inserts an entry into a name-sorted vector at its place.
fn insert_entry(acc: &mut Vec<TreeEntry>, e: TreeEntry)
    ensures
        final(acc)@.map_values(|x: TreeEntry| x@) == insert_sorted(
            e@,
            old(acc)@.map_values(|x: TreeEntry| x@),
        ),
{
    let mut j: usize = 0;
    while j < acc.len()
        invariant
            0 <= j <= acc@.len(),
            acc@ == old(acc)@,
            forall|k: int| 0 <= k < j ==> !lex_le(e@.name, (#[trigger] acc@[k])@.name),
        ensures
            0 <= j <= acc@.len(),
            acc@ == old(acc)@,
            forall|k: int| 0 <= k < j ==> !lex_le(e@.name, (#[trigger] acc@[k])@.name),
            j < acc@.len() ==> lex_le(e@.name, acc@[j as int]@.name),
        decreases acc@.len() - j,
    {
        if name_le(&e.name, &acc[j].name) {
            break;
        }
        j = j + 1;
    }
    proof {
        let s = old(acc)@.map_values(|x: TreeEntry| x@);
        assert forall|k: int| 0 <= k < j implies !lex_le(e@.name, s[k].name) by {
            assert(s[k] == old(acc)@[k]@);
        }
        if j < old(acc)@.len() {
            assert(s[j as int] == old(acc)@[j as int]@);
        }
        lemma_insert_sorted_at(e@, s, j as int);
    }
    acc.insert(j, e);
    proof {
        let s = old(acc)@.map_values(|x: TreeEntry| x@);
        assert(acc@.map_values(|x: TreeEntry| x@) =~= s.take(j as int) + seq![e@] + s.skip(
            j as int,
        ));
    }
}

/// Where the first admissible position is known, `insert_sorted` splits
/// the run there.
proof fn lemma_insert_sorted_at(e: TreeEntryV, s: Seq<TreeEntryV>, j: int)
    requires
        0 <= j <= s.len(),
        forall|k: int| 0 <= k < j ==> !lex_le(e.name, s[k].name),
        j < s.len() ==> lex_le(e.name, s[j].name),
    ensures
        insert_sorted(e, s) == s.take(j) + seq![e] + s.skip(j),
    decreases s.len(),
{
    if s.len() == 0 {
        assert(seq![e] =~= s.take(0) + seq![e] + s.skip(0));
    } else if j == 0 {
        assert(lex_le(e.name, s[0].name));
        assert(seq![e] + s =~= s.take(0) + seq![e] + s.skip(0));
    } else {
        assert(!lex_le(e.name, s[0].name));
        assert forall|k: int| 0 <= k < j - 1 implies !lex_le(e.name, s.skip(1)[k].name) by {
            assert(s.skip(1)[k] == s[k + 1]);
        }
        lemma_insert_sorted_at(e, s.skip(1), j - 1);
        assert(seq![s[0]] + (s.skip(1).take(j - 1) + seq![e] + s.skip(1).skip(j - 1)) =~= s.take(j)
            + seq![e] + s.skip(j));
    }
}

/// Sorts entries by name, byte-wise.
fn sort_entries_exec(v: &Vec<TreeEntry>) -> (r: Vec<TreeEntry>)
    ensures
        r@.map_values(|x: TreeEntry| x@) == sort_entries(v@.map_values(|x: TreeEntry| x@)),
{
    let ghost s = v@.map_values(|x: TreeEntry| x@);
    let mut acc: Vec<TreeEntry> = Vec::new();
    let mut i: usize = 0;
    proof {
        assert(acc@.map_values(|x: TreeEntry| x@) =~= sort_entries(s.take(0)));
    }
    while i < v.len()
        invariant
            0 <= i <= v@.len(),
            s == v@.map_values(|x: TreeEntry| x@),
            acc@.map_values(|x: TreeEntry| x@) == sort_entries(s.take(i as int)),
        decreases v@.len() - i,
    {
        let e = clone_entry(&v[i]);
        insert_entry(&mut acc, e);
        proof {
            assert(s.take(i + 1).drop_last() =~= s.take(i as int));
            assert(s.take(i + 1).last() == s[i as int]);
        }
        i = i + 1;
    }
    proof {
        assert(s.take(s.len() as int) =~= s);
    }
    acc
}

impl TreeNodeKind {
    /// The mode this node is recorded with.
    pub fn mode(&self) -> (r: usize)
        ensures
            r as nat == spec_mode(*self),
    {
        match self {
            TreeNodeKind::Blob { obj: _, is_executable } => {
                if *is_executable {
                    100755
                } else {
                    100644
                }
            },
            TreeNodeKind::Tree(_) => 40000,
        }
    }
}

impl Tree {
    /// Persists a snapshot bottom-up.  Records for every blob and nested
    /// tree are appended to `out` in node order, each sub-tree's own
    /// records (its tree object last) before this tree's record, which
    /// comes at the very end; returns this tree's 20-byte hash.
    pub fn write(&self, out: &mut Vec<StoreRecord>) -> (r: Vec<u8>)
        requires
            tree_wf(*self),
        ensures
            final(out)@.map_values(|x: StoreRecord| x@) == old(out)@.map_values(
                |x: StoreRecord| x@,
            ) + spec_tree_writes(*self),
            r@ == spec_tree_hash(*self),
            r@.len() == 20,
        decreases *self,
    {
        let mut entries: Vec<TreeEntry> = Vec::new();
        let mut i: usize = 0;
        proof {
            assert(out@.map_values(|x: StoreRecord| x@) =~= old(out)@.map_values(
                |x: StoreRecord| x@,
            ) + spec_node_writes(self.0@.take(0)));
            assert(entries@.map_values(|x: TreeEntry| x@) =~= spec_entries(self.0@.take(0)));
        }
        while i < self.0.len()
            invariant
                tree_wf(*self),
                0 <= i <= self.0@.len(),
                out@.map_values(|x: StoreRecord| x@) == old(out)@.map_values(|x: StoreRecord| x@)
                    + spec_node_writes(self.0@.take(i as int)),
                entries@.map_values(|x: TreeEntry| x@) == spec_entries(self.0@.take(i as int)),
            decreases self.0@.len() - i,
        {
            let node = &self.0[i];
            proof {
                assert(node_wf(self.0@[i as int]));
            }
            let mode = node.kind.mode();
            let ghost out_pre = out@.map_values(|x: StoreRecord| x@);
            let hash = match &node.kind {
                TreeNodeKind::Blob { obj, is_executable: _ } => {
                    let rec = obj.write();
                    out.push(rec);
                    proof {
                        assert(out@.map_values(|x: StoreRecord| x@) =~= out_pre
                            + spec_one_node_writes(self.0@[i as int]));
                    }
                    obj.hash()
                },
                TreeNodeKind::Tree(sub) => {
                    proof {
                        assert(decreases_to!(*self => self.0));
                        assert(decreases_to!(self.0 => self.0@));
                        assert(decreases_to!(self.0@ => self.0@[i as int]));
                        assert(decreases_to!(self.0@[i as int] => *sub));
                    }
                    sub.write(out)
                },
            };
            let name = sub_vec(node.name.as_slice(), 0, node.name.len());
            proof {
                assert(name@ =~= self.0@[i as int].name@);
            }
            let entry = TreeEntry { mode, name, hash };
            proof {
                assert(entry@ == spec_node_entry(self.0@[i as int]));
            }
            let ghost entries_pre = entries@.map_values(|x: TreeEntry| x@);
            entries.push(entry);
            proof {
                lemma_node_writes_snoc(self.0@.take(i + 1));
                assert(self.0@.take(i + 1).drop_last() =~= self.0@.take(i as int));
                assert(self.0@.take(i + 1).last() == self.0@[i as int]);
                assert(out@.map_values(|x: StoreRecord| x@) =~= old(out)@.map_values(
                    |x: StoreRecord| x@,
                ) + spec_node_writes(self.0@.take(i + 1)));
                lemma_entries_snoc(self.0@.take(i + 1));
                assert(entries@.map_values(|x: TreeEntry| x@) =~= entries_pre.push(entry@));
            }
            i = i + 1;
        }
        proof {
            assert(self.0@.take(self.0@.len() as int) =~= self.0@);
        }
        let sorted = sort_entries_exec(&entries);
        let tree_obj = Object::Tree(sorted);
        proof {
            assert(tree_obj@ == spec_tree_obj(*self));
        }
        let hash = tree_obj.hash();
        let rec = tree_obj.write();
        let ghost before = out@.map_values(|x: StoreRecord| x@);
        out.push(rec);
        proof {
            assert(out@.map_values(|x: StoreRecord| x@) =~= before.push(rec@));
            assert(before.push(rec@) =~= old(out)@.map_values(|x: StoreRecord| x@)
                + spec_tree_writes(*self));
        }
        hash
    }
}

/// Whether the directory walk takes an entry: names beginning with a dot
/// are skipped.
pub fn tree_walk_keeps(name: &[u8]) -> (r: bool)
    ensures
        r == !(name@.len() > 0 && name@[0] == 46),
{
    !(name.len() > 0 && name[0] == 46)
}

/// Whether a file's permission bits mark it executable: any of the three
/// execute bits is set.
pub fn is_executable_mode(mode: u32) -> (r: bool)
    ensures
        r == (mode & 0o111 != 0),
{
    mode & 0o111 != 0
}

/// Sort invariant: the tree object a snapshot becomes holds exactly the
/// records its nodes contribute, standing in byte-wise name order,
/// whatever order the nodes were listed in.
pub proof fn lemma_tree_obj_sorted(t: Tree)
    ensures
        spec_tree_obj(t) matches ObjectV::Tree(es) && entries_sorted(es) && es.to_multiset()
            == spec_entries(t.0@).to_multiset() && es.len() == spec_entries(t.0@).len(),
{
    lemma_sort_entries_sorted(spec_entries(t.0@));
    lemma_sort_entries_multiset(spec_entries(t.0@));
}

/// Nested persistence: a snapshot's own tree record comes last, and every
/// subdirectory's tree object has a record of its own somewhere before it.
pub proof fn lemma_subtree_written_before_parent(t: Tree, i: int)
    requires
        0 <= i < t.0@.len(),
        t.0@[i].kind is Tree,
    ensures
        spec_tree_writes(t).len() > 0,
        spec_tree_writes(t).last() == spec_record_of(obj_enc(spec_tree_obj(t))),
        exists|j: int|
            0 <= j < spec_tree_writes(t).len() - 1 && spec_tree_writes(t)[j] == spec_record_of(
                obj_enc(spec_tree_obj(t.0@[i].kind->Tree_0)),
            ),
{
    lemma_node_writes_has_subtree(t.0@, i);
    let w = spec_node_writes(t.0@);
    let j = choose|j: int|
        0 <= j < w.len() && w[j] == spec_record_of(obj_enc(spec_tree_obj(t.0@[i].kind->Tree_0)));
    assert(spec_tree_writes(t)[j] == w[j]);
}

/// The records of a run of nodes hold, for each subdirectory node, a
/// record of that subdirectory's own tree object.
proof fn lemma_node_writes_has_subtree(s: Seq<TreeNode>, i: int)
    requires
        0 <= i < s.len(),
        s[i].kind is Tree,
    ensures
        exists|j: int|
            0 <= j < spec_node_writes(s).len() && spec_node_writes(s)[j] == spec_record_of(
                obj_enc(spec_tree_obj(s[i].kind->Tree_0)),
            ),
    decreases s.len(),
{
    if i == 0 {
        let sub = s[0].kind->Tree_0;
        let own = spec_one_node_writes(s[0]);
        assert(own == spec_tree_writes(sub));
        let j = own.len() - 1;
        assert(own[j] == spec_record_of(obj_enc(spec_tree_obj(sub))));
        assert(spec_node_writes(s)[j] == own[j]);
    } else {
        assert(s.skip(1)[i - 1] == s[i]);
        lemma_node_writes_has_subtree(s.skip(1), i - 1);
        let sub = s[i].kind->Tree_0;
        let w = spec_node_writes(s.skip(1));
        let j = choose|j: int|
            0 <= j < w.len() && w[j] == spec_record_of(obj_enc(spec_tree_obj(sub)));
        let off = spec_one_node_writes(s[0]).len();
        assert(spec_node_writes(s)[off + j] == w[j]);
    }
}

} // verus!
