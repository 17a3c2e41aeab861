//! Files to upload, and the local and remote directory paths derived from them.
use vstd::prelude::*;

verus! {

/// One file to upload: its local path, as the transport reads it, and its path
/// relative to the scanned root, one component per element (the last one is
/// the file's own name).
pub struct UploadTask {
    pub local: String,
    pub relative: Vec<String>,
}

impl UploadTask {
    /// A task names a file: its relative path has at least the file name.
    pub open spec fn wf(&self) -> bool {
        self.relative@.len() > 0
    }

    /// The relative path, component by component.
    pub open spec fn components(&self) -> Seq<Seq<char>> {
        self.relative.deep_view()
    }

    /// The directories above the file, relative to the scanned root.
    pub open spec fn parent(&self) -> Seq<Seq<char>> {
        parent_dirs(self.components())
    }

    /// The file's own name.
    pub open spec fn name(&self) -> Seq<char> {
        self.components().last()
    }

    /// Builds a task; `None` when the relative path is empty.
    pub fn new(local: String, relative: Vec<String>) -> (r: Option<UploadTask>)
        ensures
            r is Some <==> relative@.len() > 0,
            r matches Some(t) ==> t.local == local && t.relative == relative && t.wf(),
    {
        if relative.len() == 0 {
            None
        } else {
            Some(UploadTask { local, relative })
        }
    }

    /// The file's own name, the last component of its relative path.
    pub fn file_name(&self) -> (r: String)
        requires
            self.wf(),
        ensures
            r@ == self.name(),
    {
        self.relative[self.relative.len() - 1].clone()
    }
}

/// The directories above a relative file path: all components but the last.
pub open spec fn parent_dirs(path: Seq<Seq<char>>) -> Seq<Seq<char>> {
    if path.len() == 0 {
        path
    } else {
        path.drop_last()
    }
}

/// Whether a directory entry with this name is hidden: its name starts with a dot.
/// A name that is not valid Unicode is not hidden.
pub open spec fn spec_is_hidden(name: Option<Seq<char>>) -> bool {
    match name {
        Some(n) => n.len() > 0 && n[0] == '.',
        None => false,
    }
}

/// Tells whether a directory entry, given by its name, is hidden.
pub fn is_hidden(name: Option<&str>) -> (r: bool)
    ensures
        r == spec_is_hidden(
            match name {
                Some(n) => Some(n@),
                None => None,
            },
        ),
{
    match name {
        Some(n) => n.unicode_len() > 0 && n.get_char(0) == '.',
        None => false,
    }
}

/// The directory paths `dir[..1]`, `dir[..2]`, ..., `dir`, outermost first.
pub open spec fn prefixes(dir: Seq<Seq<char>>) -> Seq<Seq<Seq<char>>> {
    Seq::new(dir.len(), |k: int| dir.take(k + 1))
}

/// The prefixes `dir[..1]`, ..., `dir[..n]` that `known` does not hold, outermost first.
pub open spec fn fresh_prefixes(known: Seq<Seq<Seq<char>>>, dir: Seq<Seq<char>>, n: nat) -> Seq<
    Seq<Seq<char>>,
>
    decreases n,
{
    if n == 0 {
        Seq::empty()
    } else {
        let earlier = fresh_prefixes(known, dir, (n - 1) as nat);
        if known.contains(dir.take(n as int)) {
            earlier
        } else {
            earlier.push(dir.take(n as int))
        }
    }
}

/// One step of collecting every directory that holds a file: when the parent of
/// `cur` is not the root and was not met before, those of its prefixes that
/// were not met before are added, outermost first.
pub open spec fn spec_fold_parents(prev: Seq<Seq<Seq<char>>>, cur: Seq<Seq<char>>) -> Seq<
    Seq<Seq<char>>,
> {
    let p = parent_dirs(cur);
    if p.len() > 0 && !prev.contains(p) {
        prev + fresh_prefixes(prev, p, p.len())
    } else {
        prev
    }
}

/// The fresh prefixes are not known, and each is longer than the one before.
proof fn lemma_fresh_prefixes(known: Seq<Seq<Seq<char>>>, dir: Seq<Seq<char>>, n: nat)
    requires
        n <= dir.len(),
    ensures
        ({
            let f = fresh_prefixes(known, dir, n);
            &&& forall|i: int| 0 <= i < f.len() ==> !known.contains(#[trigger] f[i])
            &&& forall|i: int| 0 <= i < f.len() ==> (#[trigger] f[i]).len() <= n
            &&& forall|i: int, j: int|
                0 <= i < j < f.len() ==> (#[trigger] f[i]).len() < (#[trigger] f[j]).len()
        }),
    decreases n,
{
    if n > 0 {
        lemma_fresh_prefixes(known, dir, (n - 1) as nat);
        let e = fresh_prefixes(known, dir, (n - 1) as nat);
        let f = fresh_prefixes(known, dir, n);
        let d = dir.take(n as int);
        assert(d.len() == n);
        if !known.contains(d) {
            assert(f == e.push(d));
            assert forall|i: int, j: int| 0 <= i < j < f.len() implies (#[trigger] f[i]).len() < (
            #[trigger] f[j]).len() by {
                assert(f[i] == e[i]);
                if j < e.len() {
                    assert(f[j] == e[j]);
                }
            }
            assert forall|i: int| 0 <= i < f.len() implies (#[trigger] f[i]).len() <= n
                && !known.contains(f[i]) by {
                if i < e.len() {
                    assert(f[i] == e[i]);
                }
            }
        }
    }
}

/// Collecting directories never lists one twice: a step keeps a list without
/// duplicates free of them.
pub proof fn lemma_fold_parents_no_duplicates(prev: Seq<Seq<Seq<char>>>, cur: Seq<Seq<char>>)
    requires
        prev.no_duplicates(),
    ensures
        spec_fold_parents(prev, cur).no_duplicates(),
{
    let p = parent_dirs(cur);
    if p.len() > 0 && !prev.contains(p) {
        let f = fresh_prefixes(prev, p, p.len());
        let r = prev + f;
        lemma_fresh_prefixes(prev, p, p.len());
        assert forall|i: int, j: int| 0 <= i < r.len() && 0 <= j < r.len() && i != j implies r[i]
            != r[j] by {
            if i < prev.len() && j >= prev.len() {
                assert(r[j] == f[j - prev.len()]);
                assert(prev.contains(r[i]));
            } else if j < prev.len() && i >= prev.len() {
                assert(r[i] == f[i - prev.len()]);
                assert(prev.contains(r[j]));
            } else if i >= prev.len() && j >= prev.len() {
                if i < j {
                    assert(f[i - prev.len()].len() < f[j - prev.len()].len());
                } else {
                    assert(f[j - prev.len()].len() < f[i - prev.len()].len());
                }
            }
        }
    }
}

/// Whether two relative paths have the same components.
pub fn same_path(a: &Vec<String>, b: &Vec<String>) -> (r: bool)
    ensures
        r == (a.deep_view() == b.deep_view()),
{
    if a.len() != b.len() {
        assert(a.deep_view().len() != b.deep_view().len());
        return false;
    }
    let mut i: usize = 0;
    while i < a.len()
        invariant
            a@.len() == b@.len(),
            i <= a@.len(),
            forall|k: int| 0 <= k < i ==> a@[k]@ == b@[k]@,
        decreases a@.len() - i,
    {
        if a[i] != b[i] {
            assert(a.deep_view()[i as int] != b.deep_view()[i as int]);
            return false;
        }
        i = i + 1;
    }
    assert(a.deep_view() =~= b.deep_view());
    true
}

/// The first `n` components of `path`.
pub(crate) fn take_components(path: &Vec<String>, n: usize) -> (r: Vec<String>)
    requires
        n <= path@.len(),
    ensures
        r.deep_view() == path.deep_view().take(n as int),
{
    let mut r: Vec<String> = Vec::new();
    let mut i: usize = 0;
    while i < n
        invariant
            i <= n,
            n <= path@.len(),
            r@.len() == i,
            r.deep_view() == path.deep_view().take(i as int),
        decreases n - i,
    {
        let ghost before = r@;
        let c = path[i].clone();
        r.push(c);
        proof {
            assert(r@ == before.push(c));
            assert forall|k: int| 0 <= k < i + 1 implies r.deep_view()[k] == path.deep_view().take(
                i + 1,
            )[k] by {
                if k < i {
                    assert(r@[k] == before[k]);
                }
            }
        }
        i = i + 1;
        assert(r.deep_view() =~= path.deep_view().take(i as int));
    }
    r
}

/// One step of a fold over the files' relative paths that collects every
/// directory holding a file, each with all its ancestors, outermost first and
/// each once.
pub fn fold_parents(prev: Vec<Vec<String>>, cur: &Vec<String>) -> (r: Vec<Vec<String>>)
    ensures
        r.deep_view() == spec_fold_parents(prev.deep_view(), cur.deep_view()),
{
    if cur.len() <= 1 {
        assert(parent_dirs(cur.deep_view()).len() == 0);
        return prev;
    }
    let clen = cur.len();
    let parent = take_components(cur, clen - 1);
    assert(parent.deep_view() =~= parent_dirs(cur.deep_view()));
    let mut i: usize = 0;
    while i < prev.len()
        invariant
            i <= prev@.len(),
            parent.deep_view() == parent_dirs(cur.deep_view()),
            forall|k: int| 0 <= k < i ==> prev.deep_view()[k] != parent.deep_view(),
        decreases prev@.len() - i,
    {
        if same_path(&prev[i], &parent) {
            assert(prev.deep_view()[i as int] == parent.deep_view());
            assert(prev.deep_view().contains(parent.deep_view()));
            return prev;
        }
        i = i + 1;
    }
    let ghost old_prev = prev.deep_view();
    let known = prev.len();
    let mut r = prev;
    let mut k: usize = 1;
    while k <= parent.len()
        invariant
            1 <= k <= parent@.len() + 1,
            parent@.len() < clen,
            known == old_prev.len(),
            known <= r@.len(),
            r.deep_view() == old_prev + fresh_prefixes(old_prev, parent.deep_view(), (k - 1) as nat),
        decreases parent@.len() + 1 - k,
    {
        let dir = take_components(&parent, k);
        let ghost before = r.deep_view();
        assert(before.take(known as int) =~= old_prev);
        if !holds_path(&r, known, &dir) {
            let ghost b = r@;
            r.push(dir);
            proof {
                assert(r@ == b.push(dir));
                assert forall|j: int| 0 <= j < r@.len() implies r.deep_view()[j] == before.push(
                    dir.deep_view(),
                )[j] by {
                    if j < b.len() {
                        assert(r@[j] == b[j]);
                    }
                }
                assert(r.deep_view() =~= before.push(dir.deep_view()));
            }
        }
        assert(r.deep_view() =~= old_prev + fresh_prefixes(old_prev, parent.deep_view(), k as nat));
        k = k + 1;
    }
    r
}

/// Whether `d` is among the first `upto` paths of `list`.
fn holds_path(list: &Vec<Vec<String>>, upto: usize, d: &Vec<String>) -> (r: bool)
    requires
        upto <= list@.len(),
    ensures
        r == list.deep_view().take(upto as int).contains(d.deep_view()),
{
    let mut i: usize = 0;
    while i < upto
        invariant
            i <= upto <= list@.len(),
            forall|k: int| 0 <= k < i ==> list.deep_view()[k] != d.deep_view(),
        decreases upto - i,
    {
        if same_path(&list[i], d) {
            assert(list.deep_view().take(upto as int)[i as int] == d.deep_view());
            return true;
        }
        i = i + 1;
    }
    assert forall|k: int| 0 <= k < upto implies list.deep_view().take(upto as int)[k] != d.deep_view() by {
        assert(list.deep_view().take(upto as int)[k] == list.deep_view()[k]);
    }
    false
}

/// `base` and `seg` joined by one separator; nothing is added where `base` is
/// empty or already ends with one.
pub open spec fn join_seg(base: Seq<char>, seg: Seq<char>) -> Seq<char> {
    if base.len() == 0 {
        seg
    } else if base.last() == '/' {
        base + seg
    } else {
        base + seq!['/'] + seg
    }
}

/// The remote directory for a relative directory path under the remote root.
pub open spec fn remote_dir(root: Seq<char>, dir: Seq<Seq<char>>) -> Seq<char>
    decreases dir.len(),
{
    if dir.len() == 0 {
        root
    } else {
        join_seg(remote_dir(root, dir.drop_last()), dir.last())
    }
}

/// The remote directories from the root down to `dir`, one per level:
/// each one must exist before the next can be created.
pub open spec fn mirror_levels(root: Seq<char>, dir: Seq<Seq<char>>) -> Seq<Seq<char>> {
    Seq::new(dir.len() + 1, |k: int| remote_dir(root, dir.take(k)))
}

/// Joins a path segment onto a remote directory.
pub fn join_segment(base: &String, seg: &String) -> (r: String)
    ensures
        r@ == join_seg(base@, seg@),
{
    let n = base.as_str().unicode_len();
    if n == 0 {
        return seg.clone();
    }
    let mut r = base.clone();
    if base.as_str().get_char(n - 1) != '/' {
        proof {
            reveal_strlit("/");
        }
        r.append("/");
    }
    r.append(seg.as_str());
    r
}

/// The remote directories from `root` down to the directory that mirrors `dir`.
pub fn remote_levels(root: &String, dir: &Vec<String>) -> (r: Vec<String>)
    ensures
        r.deep_view() == mirror_levels(root@, dir.deep_view()),
{
    let ghost d = dir.deep_view();
    let mut r: Vec<String> = Vec::new();
    r.push(root.clone());
    assert(d.take(0) =~= Seq::<Seq<char>>::empty());
    let mut i: usize = 0;
    while i < dir.len()
        invariant
            i <= dir@.len(),
            d == dir.deep_view(),
            r@.len() == i + 1,
            r.deep_view() == mirror_levels(root@, d).take(i + 1),
        decreases dir@.len() - i,
    {
        let next = join_segment(&r[i], &dir[i]);
        assert(d.take(i + 1).drop_last() =~= d.take(i as int));
        let ghost before = r@;
        proof {
            assert(r.deep_view()[i as int] == remote_dir(root@, d.take(i as int)));
        }
        r.push(next);
        proof {
            let want = mirror_levels(root@, d).take(i + 2);
            assert(r@ == before.push(next));
            assert forall|j: int| 0 <= j < r@.len() implies r.deep_view()[j] == want[j] by {
                if j < before.len() {
                    assert(r@[j] == before[j]);
                }
            }
        }
        i = i + 1;
        assert(r.deep_view() =~= mirror_levels(root@, d).take(i + 1));
    }
    assert(mirror_levels(root@, d).take(dir@.len() + 1 as int) =~= mirror_levels(root@, d));
    r
}

} // verus!
