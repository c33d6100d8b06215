//! Breadth-first listing of the files under a folder. The walk keeps a queue
//! of folders still to read and the files found so far; reading a folder is
//! the caller's work, which hands the folder's entries back.
use vstd::prelude::*;

use vstd::multiset::Multiset;
use vstd::multiset::lemma_multiset_empty_len;
use vstd::seq_lib::lemma_multiset_commutative;
use vstd::seq_lib::to_multiset_len;

verus! {

/// The folders among `paths` (those flagged in `is_dir`), in order.
pub open spec fn folders_of(paths: Seq<Seq<char>>, is_dir: Seq<bool>) -> Seq<Seq<char>>
    decreases paths.len(),
{
    if paths.len() == 0 {
        Seq::empty()
    } else {
        let rest = folders_of(paths.drop_last(), is_dir.take(paths.len() - 1));
        if is_dir[paths.len() - 1] {
            rest.push(paths.last())
        } else {
            rest
        }
    }
}

/// The other entries among `paths`, in order.
pub open spec fn files_of(paths: Seq<Seq<char>>, is_dir: Seq<bool>) -> Seq<Seq<char>>
    decreases paths.len(),
{
    if paths.len() == 0 {
        Seq::empty()
    } else {
        let rest = files_of(paths.drop_last(), is_dir.take(paths.len() - 1));
        if is_dir[paths.len() - 1] {
            rest
        } else {
            rest.push(paths.last())
        }
    }
}

/// The state of a walk: the folders still to read, first to last, and the
/// files found so far, in the order found.
pub struct WalkView {
    pub pending: Seq<Seq<char>>,
    pub files: Seq<Seq<char>>,
}

pub struct FolderWalk {
    queue: Vec<String>,
    files: Vec<String>,
}

impl View for FolderWalk {
    type V = WalkView;

    closed spec fn view(&self) -> WalkView {
        WalkView {
            pending: self.queue@.map_values(|s: String| s@),
            files: self.files@.map_values(|s: String| s@),
        }
    }
}

impl FolderWalk {
    /// A walk of `root`: only `root` is left to read.
    pub fn new(root: String) -> (w: Self)
        ensures
            w@.pending == seq![root@],
            w@.files == Seq::<Seq<char>>::empty(),
    {
        let mut queue: Vec<String> = Vec::new();
        queue.push(root);
        let w = FolderWalk { queue, files: Vec::new() };
        assert(w@.pending =~= seq![root@]);
        assert(w@.files =~= Seq::<Seq<char>>::empty());
        w
    }

    /// The next folder to read, taken off the front of the queue; `None`
    /// when the walk is done.
    pub fn next_folder(&mut self) -> (r: Option<String>)
        ensures
            old(self)@.pending.len() == 0 ==> r is None && final(self)@ == old(self)@,
            old(self)@.pending.len() > 0 ==> {
                &&& r matches Some(d)
                &&& d@ == old(self)@.pending[0]
                &&& final(self)@.pending == old(self)@.pending.drop_first()
                &&& final(self)@.files == old(self)@.files
            },
    {
        if self.queue.len() == 0 {
            return None;
        }
        let ghost before = self@;
        let d = self.queue.remove(0);
        proof {
            assert(self@.pending =~= before.pending.drop_first());
        }
        Some(d)
    }

    /// Takes in the entries of a folder just read: folders join the back of
    /// the queue, everything else joins the files, each in the given order.
    pub fn add_entries(&mut self, paths: &Vec<String>, is_dir: &Vec<bool>)
        requires
            paths@.len() == is_dir@.len(),
        ensures
            final(self)@.pending == old(self)@.pending + folders_of(
                paths@.map_values(|s: String| s@),
                is_dir@,
            ),
            final(self)@.files == old(self)@.files + files_of(
                paths@.map_values(|s: String| s@),
                is_dir@,
            ),
    {
        let ghost start = self@;
        let ghost pv = paths@.map_values(|s: String| s@);
        let mut i: usize = 0;
        while i < paths.len()
            invariant
                i <= paths@.len(),
                paths@.len() == is_dir@.len(),
                pv == paths@.map_values(|s: String| s@),
                self@.pending == start.pending + folders_of(pv.take(i as int), is_dir@.take(
                    i as int,
                )),
                self@.files == start.files + files_of(pv.take(i as int), is_dir@.take(i as int)),
            decreases paths@.len() - i,
        {
            let ghost before = self@;
            proof {
                let t = pv.take(i + 1);
                let d = is_dir@.take(i + 1);
                assert(t.drop_last() =~= pv.take(i as int));
                assert(d.take(i as int) =~= is_dir@.take(i as int));
                assert(t.last() == paths@[i as int]@);
                assert(d[i as int] == is_dir@[i as int]);
            }
            let p = paths[i].clone();
            if is_dir[i] {
                self.queue.push(p);
                proof {
                    assert(self@.pending =~= before.pending.push(paths@[i as int]@));
                    assert(self@.files =~= before.files);
                }
            } else {
                self.files.push(p);
                proof {
                    assert(self@.files =~= before.files.push(paths@[i as int]@));
                    assert(self@.pending =~= before.pending);
                }
            }
            i = i + 1;
            proof {
                let t = pv.take(i as int);
                let d = is_dir@.take(i as int);
                assert(self@.pending =~= start.pending + folders_of(t, d));
                assert(self@.files =~= start.files + files_of(t, d));
            }
        }
        proof {
            assert(pv.take(paths@.len() as int) =~= pv);
            assert(is_dir@.take(paths@.len() as int) =~= is_dir@);
        }
    }

    /// The files found, in the order found.
    pub fn into_files(self) -> (r: Vec<String>)
        ensures
            r@.map_values(|s: String| s@) == self@.files,
    {
        self.files
    }
}


// ---------------------------------------------------------------------------
// The walk of a whole folder tree
// ---------------------------------------------------------------------------

/// A model of a folder tree: each entry carries its full path, as reading
/// its folder gives it.
pub enum Node {
    File(Seq<char>),
    Folder(Seq<char>, Seq<Node>),
}

pub open spec fn path_of(n: Node) -> Seq<char> {
    match n {
        Node::File(p) => p,
        Node::Folder(p, _) => p,
    }
}

/// The paths of the entries of a folder, as the walk is handed them.
pub open spec fn names(s: Seq<Node>) -> Seq<Seq<char>> {
    s.map_values(|n: Node| path_of(n))
}

/// Which entries of a folder are folders, as the walk is handed them.
pub open spec fn kinds(s: Seq<Node>) -> Seq<bool> {
    s.map_values(|n: Node| n is Folder)
}

/// The folders among the entries `s`, in order.
pub open spec fn subfolders(s: Seq<Node>) -> Seq<Node>
    decreases s.len(),
{
    if s.len() == 0 {
        Seq::empty()
    } else if s.last() is Folder {
        subfolders(s.drop_last()).push(s.last())
    } else {
        subfolders(s.drop_last())
    }
}

/// How many folders the entries `s` hold, themselves and at any depth below.
pub open spec fn folders_in(s: Seq<Node>) -> nat
    decreases s,
{
    if s.len() == 0 {
        0
    } else {
        folders_in(s.drop_last()) + match s.last() {
            Node::File(_) => 0,
            Node::Folder(_, ch) => 1 + folders_in(ch),
        }
    }
}

/// The files among the entries `s` and at any depth below them.
pub open spec fn files_in(s: Seq<Node>) -> Seq<Seq<char>>
    decreases s,
{
    if s.len() == 0 {
        Seq::empty()
    } else {
        files_in(s.drop_last()) + match s.last() {
            Node::File(p) => seq![p],
            Node::Folder(_, ch) => files_in(ch),
        }
    }
}

/// The walk run for `steps` folder reads over a tree: the folder at the
/// front of the queue is read, its folders join the back of the queue and
/// its files join the files found, as [`FolderWalk::next_folder`] and
/// [`FolderWalk::add_entries`] do with the folder's entries.
pub open spec fn walk_run(queue: Seq<Node>, files: Seq<Seq<char>>, steps: nat) -> (
    Seq<Node>,
    Seq<Seq<char>>,
)
    decreases steps,
{
    if steps == 0 || queue.len() == 0 {
        (queue, files)
    } else {
        match queue[0] {
            Node::Folder(_, ch) => walk_run(
                queue.drop_first() + subfolders(ch),
                files + files_of(names(ch), kinds(ch)),
                (steps - 1) as nat,
            ),
            Node::File(_) => walk_run(queue.drop_first(), files, (steps - 1) as nat),
        }
    }
}

pub open spec fn all_folders(s: Seq<Node>) -> bool {
    forall|i: int| 0 <= i < s.len() ==> #[trigger] s[i] is Folder
}

proof fn lemma_names_drop_last(s: Seq<Node>)
    requires
        s.len() > 0,
    ensures
        names(s).drop_last() == names(s.drop_last()),
        kinds(s).take(s.len() - 1) == kinds(s.drop_last()),
        names(s).len() == s.len(),
        kinds(s).len() == s.len(),
        names(s).last() == path_of(s.last()),
        kinds(s)[s.len() - 1] == s.last() is Folder,
{
    assert(names(s).drop_last() =~= names(s.drop_last()));
    assert(kinds(s).take(s.len() - 1) =~= kinds(s.drop_last()));
}

/// Reading a folder of the tree into the walk queues exactly its
/// subfolders, in order, and finds its files.
pub proof fn lemma_listing_queues_subfolders(s: Seq<Node>)
    ensures
        folders_of(names(s), kinds(s)) == names(subfolders(s)),
        all_folders(subfolders(s)),
        folders_in(subfolders(s)) == folders_in(s),
        files_in(s).to_multiset() == files_of(names(s), kinds(s)).to_multiset().add(
            files_in(subfolders(s)).to_multiset(),
        ),
    decreases s.len(),
{
    if s.len() == 0 {
        assert(names(s) =~= Seq::<Seq<char>>::empty());
        assert(names(subfolders(s)) =~= Seq::<Seq<char>>::empty());
        assert(files_of(names(s), kinds(s)) =~= Seq::<Seq<char>>::empty());
        lemma_empty_multiset(files_in(s));
    } else {
        let d = s.drop_last();
        lemma_listing_queues_subfolders(d);
        lemma_names_drop_last(s);
        let sd = subfolders(d);
        let fd = files_of(names(d), kinds(d));
        match s.last() {
            Node::Folder(p, ch) => {
                assert(names(sd.push(s.last())) =~= names(sd).push(p));
                assert(subfolders(s) == sd.push(s.last()));
                assert(files_of(names(s), kinds(s)) == fd);
                lemma_concat_counts(sd, seq![s.last()]);
                assert(sd + seq![s.last()] =~= sd.push(s.last()));
                lemma_single_counts(s.last());
                lemma_multiset_commutative(files_in(d), files_in(ch));
                lemma_multiset_commutative(files_in(sd), files_in(ch));
                assert(files_in(s) == files_in(d) + files_in(ch));
                assert(files_in(subfolders(s)) == files_in(sd) + files_in(ch));
            },
            Node::File(p) => {
                assert(subfolders(s) == sd);
                assert(files_of(names(s), kinds(s)) == fd.push(p));
                assert(files_in(s) == files_in(d) + seq![p]);
                lemma_multiset_commutative(files_in(d), seq![p]);
                lemma_multiset_commutative(fd, seq![p]);
                assert(fd.push(p) =~= fd + seq![p]);
            },
        }
        assert(all_folders(subfolders(s)));
    }
}

proof fn lemma_empty_multiset(s: Seq<Seq<char>>)
    requires
        s.len() == 0,
    ensures
        s.to_multiset() == Multiset::<Seq<char>>::empty(),
{
    to_multiset_len(s);
    lemma_multiset_empty_len(s.to_multiset());
}

proof fn lemma_single_counts(x: Node)
    ensures
        folders_in(seq![x]) == match x {
            Node::File(_) => 0,
            Node::Folder(_, ch) => 1 + folders_in(ch),
        },
        files_in(seq![x]) == match x {
            Node::File(p) => seq![p],
            Node::Folder(_, ch) => files_in(ch),
        },
{
    let s = seq![x];
    let e = Seq::<Node>::empty();
    assert(s.drop_last() =~= e);
    assert(s.last() == x);
    assert(folders_in(e) == 0);
    assert(files_in(e) == Seq::<Seq<char>>::empty());
    match x {
        Node::File(p) => {
            assert(Seq::<Seq<char>>::empty() + seq![p] =~= seq![p]);
        },
        Node::Folder(_, ch) => {
            assert(Seq::<Seq<char>>::empty() + files_in(ch) =~= files_in(ch));
        },
    }
}

proof fn lemma_concat_counts(a: Seq<Node>, b: Seq<Node>)
    ensures
        folders_in(a + b) == folders_in(a) + folders_in(b),
        files_in(a + b) == files_in(a) + files_in(b),
    decreases b.len(),
{
    if b.len() == 0 {
        assert(a + b =~= a);
        assert(files_in(a) + files_in(b) =~= files_in(a));
    } else {
        lemma_concat_counts(a, b.drop_last());
        assert((a + b).drop_last() =~= a + b.drop_last());
        assert((a + b).last() == b.last());
        let tail = match b.last() {
            Node::File(p) => seq![p],
            Node::Folder(_, ch) => files_in(ch),
        };
        assert(files_in(a) + files_in(b.drop_last()) + tail =~= files_in(a) + (files_in(
            b.drop_last(),
        ) + tail));
    }
}

proof fn lemma_walk_run(queue: Seq<Node>, files: Seq<Seq<char>>)
    requires
        all_folders(queue),
    ensures
        walk_run(queue, files, folders_in(queue)).0.len() == 0,
        walk_run(queue, files, folders_in(queue)).1.to_multiset() == files.to_multiset().add(
            files_in(queue).to_multiset(),
        ),
    decreases folders_in(queue),
{
    if queue.len() == 0 {
        lemma_empty_multiset(files_in(queue));
        assert(files.to_multiset().add(Multiset::empty()) =~= files.to_multiset());
    } else {
        let x = queue[0];
        let rest = queue.drop_first();
        assert(queue =~= seq![x] + rest);
        lemma_concat_counts(seq![x], rest);
        lemma_single_counts(x);
        assert(x is Folder);
        match x {
            Node::Folder(_, ch) => {
                let sub = subfolders(ch);
                let found = files_of(names(ch), kinds(ch));
                lemma_listing_queues_subfolders(ch);
                lemma_concat_counts(rest, sub);
                let next = rest + sub;
                assert(all_folders(next)) by {
                    assert forall|i: int| 0 <= i < next.len() implies #[trigger] next[i] is Folder by {
                        if i < rest.len() {
                            assert(next[i] == queue[i + 1]);
                        } else {
                            assert(next[i] == sub[i - rest.len()]);
                        }
                    }
                }
                assert(folders_in(next) == folders_in(queue) - 1);
                lemma_walk_run(next, files + found);
                lemma_multiset_commutative(files, found);
                lemma_multiset_commutative(rest, sub);
                lemma_multiset_commutative(files_in(rest), files_in(sub));
                lemma_multiset_commutative(files_in(seq![x]), files_in(rest));
                assert(files_in(queue) == files_in(ch) + files_in(rest));
                assert(walk_run(queue, files, folders_in(queue)) == walk_run(
                    next,
                    files + found,
                    folders_in(next),
                ));
                assert(files.to_multiset().add(found.to_multiset()).add(
                    files_in(rest).to_multiset().add(files_in(sub).to_multiset()),
                ) =~= files.to_multiset().add(
                    found.to_multiset().add(files_in(sub).to_multiset()).add(
                        files_in(rest).to_multiset(),
                    ),
                ));
            },
            Node::File(_) => {},
        }
    }
}

/// Walking a folder tree breadth first lists every file below its root,
/// each once: after one read per folder nothing is left to read, and the
/// files found are, counted with repetition, the files of the tree.
pub proof fn lemma_walk_lists_every_file(root: Seq<char>, children: Seq<Node>)
    ensures
        walk_run(seq![Node::Folder(root, children)], Seq::empty(), 1 + folders_in(children)).0.len()
            == 0,
        walk_run(seq![Node::Folder(root, children)], Seq::empty(), 1 + folders_in(
            children,
        )).1.to_multiset() == files_in(children).to_multiset(),
{
    let q = seq![Node::Folder(root, children)];
    lemma_single_counts(Node::Folder(root, children));
    assert(all_folders(q));
    lemma_walk_run(q, Seq::empty());
    lemma_empty_multiset(Seq::<Seq<char>>::empty());
    assert(Multiset::<Seq<char>>::empty().add(files_in(children).to_multiset()) =~= files_in(
        children,
    ).to_multiset());
}

} // verus!
