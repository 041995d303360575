//! What the source loader decides: whether the directories can be used, what
//! a file's logical path is, and in which order the modules are taken.

use vstd::prelude::*;
use crate::doc::copy_range;
use crate::model::copy_bytes;
use crate::syntax::{Analysis, AnalysisView};

verus! {

/// What a look at a directory found.
#[derive(Clone, Copy, Debug, PartialEq, Eq, Structural)]
pub enum Probe {
    Readable,
    Missing,
    Unreadable,
}

/// Which directory a failure is about.
#[derive(Clone, Copy, Debug, PartialEq, Eq, Structural)]
pub enum Directory {
    Source,
    Types,
}

/// Why the source tree cannot be loaded.
#[derive(Clone, Copy, Debug, PartialEq, Eq, Structural)]
pub enum FilesystemError {
    NotFound(Directory),
    NotReadable(Directory),
}

/// What is to be loaded.
#[derive(Clone, Copy, Debug, PartialEq, Eq, Structural)]
pub struct LoadPlan {
    /// The types directory is there and is read before the sources.
    pub with_types: bool,
}

/// The decision on the directories: the source directory must be there and
/// readable; a types directory that was not asked for, or is not there, means
/// no extra type declarations; one that is there must be readable.
pub open spec fn plan_spec(source: Probe, types: Option<Probe>) -> Result<
    LoadPlan,
    FilesystemError,
> {
    match source {
        Probe::Missing => Err(FilesystemError::NotFound(Directory::Source)),
        Probe::Unreadable => Err(FilesystemError::NotReadable(Directory::Source)),
        Probe::Readable => match types {
            None => Ok(LoadPlan { with_types: false }),
            Some(Probe::Missing) => Ok(LoadPlan { with_types: false }),
            Some(Probe::Unreadable) => Err(FilesystemError::NotReadable(Directory::Types)),
            Some(Probe::Readable) => Ok(LoadPlan { with_types: true }),
        },
    }
}

/// Decides what to load from what the look at the directories found.
pub fn check_directories(source: Probe, types: Option<Probe>) -> (r: Result<
    LoadPlan,
    FilesystemError,
>)
    ensures
        r == plan_spec(source, types),
{
    match source {
        Probe::Missing => Err(FilesystemError::NotFound(Directory::Source)),
        Probe::Unreadable => Err(FilesystemError::NotReadable(Directory::Source)),
        Probe::Readable => match types {
            None => Ok(LoadPlan { with_types: false }),
            Some(Probe::Missing) => Ok(LoadPlan { with_types: false }),
            Some(Probe::Unreadable) => Err(FilesystemError::NotReadable(Directory::Types)),
            Some(Probe::Readable) => Ok(LoadPlan { with_types: true }),
        },
    }
}

/// `file` lies under `root`: it starts with `root` and a slash.
pub open spec fn lies_under(root: Seq<u8>, file: Seq<u8>) -> bool {
    file.len() > root.len() && file.subrange(0, root.len() as int) == root && file[root.len() as int]
        == 47
}

/// The logical path of a file: what follows the root and the slash behind it;
/// a file that does not lie under the root keeps its path.
pub open spec fn logical_path_spec(root: Seq<u8>, file: Seq<u8>) -> Seq<u8> {
    if lies_under(root, file) {
        file.skip(root.len() as int + 1)
    } else {
        file
    }
}

/// Computes the logical path of a file.
pub fn logical_path(root: &Vec<u8>, file: &Vec<u8>) -> (r: Vec<u8>)
    ensures
        r@ == logical_path_spec(root@, file@),
{
    if file.len() <= root.len() {
        return copy_bytes(file);
    }
    let mut i: usize = 0;
    while i < root.len()
        invariant
            i <= root.len() < file.len(),
            forall|j: int| 0 <= j < i ==> root@[j] == file@[j],
        decreases root.len() - i,
    {
        if root[i] != file[i] {
            assert(file@.subrange(0, root.len() as int)[i as int] != root@[i as int]);
            return copy_bytes(file);
        }
        i = i + 1;
    }
    assert(file@.subrange(0, root.len() as int) =~= root@);
    if file[root.len()] == 47 {
        copy_range(file, root.len() + 1, file.len())
    } else {
        copy_bytes(file)
    }
}

/// `a` comes before `b` in the lexicographic order of bytes.
pub open spec fn lex_less(a: Seq<u8>, b: Seq<u8>) -> bool
    decreases a.len(),
{
    if b.len() == 0 {
        false
    } else if a.len() == 0 {
        true
    } else if a[0] != b[0] {
        a[0] < b[0]
    } else {
        lex_less(a.skip(1), b.skip(1))
    }
}

/// No text comes before itself, and of two texts at most one comes before the
/// other.
pub proof fn lemma_lex_asymmetric(a: Seq<u8>, b: Seq<u8>)
    ensures
        !(lex_less(a, b) && lex_less(b, a)),
        a == b ==> !lex_less(a, b),
    decreases a.len(),
{
    if a.len() > 0 && b.len() > 0 && a[0] == b[0] {
        lemma_lex_asymmetric(a.skip(1), b.skip(1));
        if a == b {
            assert(a.skip(1) == b.skip(1));
        }
    }
}

/// Of two different texts one comes before the other.
pub proof fn lemma_lex_total(a: Seq<u8>, b: Seq<u8>)
    ensures
        lex_less(a, b) || lex_less(b, a) || a == b,
    decreases a.len(),
{
    if a.len() > 0 && b.len() > 0 && a[0] == b[0] {
        lemma_lex_total(a.skip(1), b.skip(1));
        if a.skip(1) == b.skip(1) {
            assert(a =~= seq![a[0]] + a.skip(1));
            assert(b =~= seq![b[0]] + b.skip(1));
        }
    } else if a.len() == 0 && b.len() == 0 {
        assert(a =~= b);
    }
}

/// The order is transitive.
pub proof fn lemma_lex_transitive(a: Seq<u8>, b: Seq<u8>, c: Seq<u8>)
    requires
        lex_less(a, b),
        lex_less(b, c),
    ensures
        lex_less(a, c),
    decreases a.len(),
{
    if a.len() > 0 && a[0] == b[0] && b[0] == c[0] {
        lemma_lex_transitive(a.skip(1), b.skip(1), c.skip(1));
    }
}

/// Decides [`lex_less`].
pub fn comes_first(a: &Vec<u8>, b: &Vec<u8>) -> (r: bool)
    ensures
        r == lex_less(a@, b@),
{
    let mut i: usize = 0;
    assert(a@.skip(0) =~= a@);
    assert(b@.skip(0) =~= b@);
    while i < a.len() && i < b.len()
        invariant
            i <= a.len(),
            i <= b.len(),
            lex_less(a@, b@) == lex_less(a@.skip(i as int), b@.skip(i as int)),
        decreases a.len() - i,
    {
        if a[i] != b[i] {
            return a[i] < b[i];
        }
        assert(a@.skip(i as int).skip(1) =~= a@.skip(i + 1));
        assert(b@.skip(i as int).skip(1) =~= b@.skip(i + 1));
        i = i + 1;
    }
    i < b.len()
}

/// The module at `i` is taken before the one at `j`: its path comes first, or
/// the paths are equal and it was found first.
pub open spec fn taken_before(paths: Seq<Seq<u8>>, i: int, j: int) -> bool {
    lex_less(paths[i], paths[j]) || (paths[i] == paths[j] && i < j)
}

/// `order` lists every place of `paths` so that the paths ascend, and so that
/// of two modules with one path the one found first stays first.
pub open spec fn is_stable_order(order: Seq<int>, paths: Seq<Seq<u8>>) -> bool {
    &&& order.len() == paths.len()
    &&& forall|i: int| 0 <= i < order.len() ==> 0 <= #[trigger] order[i] < paths.len()
    &&& forall|x: int| 0 <= x < paths.len() ==> order.contains(x)
    &&& forall|i: int, j: int|
        0 <= i < j < order.len() ==> taken_before(paths, #[trigger] order[i], #[trigger] order[j])
}

proof fn lemma_orders_agree_upto(o1: Seq<int>, o2: Seq<int>, paths: Seq<Seq<u8>>, upto: int)
    requires
        is_stable_order(o1, paths),
        is_stable_order(o2, paths),
        0 <= upto <= paths.len(),
    ensures
        forall|j: int| 0 <= j < upto ==> o1[j] == o2[j],
    decreases upto,
{
    if upto > 0 {
        lemma_orders_agree_upto(o1, o2, paths, upto - 1);
        let i = upto - 1;
        let x = o1[i];
        let y = o2[i];
        if x != y {
            assert(o2.contains(x));
            let j = choose|j: int| 0 <= j < o2.len() && o2[j] == x;
            assert(o1.contains(y));
            let m = choose|m: int| 0 <= m < o1.len() && o1[m] == y;
            lemma_lex_asymmetric(paths[x], paths[y]);
            lemma_lex_asymmetric(paths[x], paths[x]);
            lemma_lex_asymmetric(paths[y], paths[y]);
            if j < i {
                assert(taken_before(paths, o1[j], o1[i]));
            } else if m < i {
                assert(taken_before(paths, o2[m], o2[i]));
            } else {
                assert(taken_before(paths, o2[i], o2[j]));
                assert(taken_before(paths, o1[i], o1[m]));
            }
        }
    }
}

/// There is one stable order only.
pub proof fn lemma_stable_order_is_unique(o1: Seq<int>, o2: Seq<int>, paths: Seq<Seq<u8>>)
    requires
        is_stable_order(o1, paths),
        is_stable_order(o2, paths),
    ensures
        o1 == o2,
{
    lemma_orders_agree_upto(o1, o2, paths, paths.len() as int);
    assert(o1 =~= o2);
}

proof fn first_greater(order: Seq<int>, paths: Seq<Seq<u8>>, k: int, from: int) -> (pos: int)
    requires
        0 <= from <= order.len(),
        0 <= k < paths.len(),
        forall|i: int| 0 <= i < order.len() ==> 0 <= #[trigger] order[i] < paths.len(),
        forall|e: int| 0 <= e < from ==> !lex_less(paths[k], paths[#[trigger] order[e]]),
    ensures
        from <= pos <= order.len(),
        forall|e: int| 0 <= e < pos ==> !lex_less(paths[k], paths[#[trigger] order[e]]),
        pos < order.len() ==> lex_less(paths[k], paths[order[pos]]),
    decreases order.len() - from,
{
    if from == order.len() || lex_less(paths[k], paths[order[from]]) {
        from
    } else {
        first_greater(order, paths, k, from + 1)
    }
}

/// Every list of paths has a stable order.
pub proof fn lemma_stable_order_exists(paths: Seq<Seq<u8>>) -> (order: Seq<int>)
    ensures
        is_stable_order(order, paths),
    decreases paths.len(),
{
    if paths.len() == 0 {
        let order = Seq::<int>::empty();
        assert(is_stable_order(order, paths));
        order
    } else {
        let k = paths.len() - 1;
        let shorter = paths.drop_last();
        let old_order = lemma_stable_order_exists(shorter);
        assert forall|i: int, j: int| 0 <= i < j < old_order.len() implies taken_before(
            paths,
            #[trigger] old_order[i],
            #[trigger] old_order[j],
        ) by {
            assert(taken_before(shorter, old_order[i], old_order[j]));
            assert(shorter[old_order[i]] == paths[old_order[i]]);
            assert(shorter[old_order[j]] == paths[old_order[j]]);
        }
        let pos = first_greater(old_order, paths, k, 0);
        let o = old_order.insert(pos, k);
        assert forall|x: int| 0 <= x < paths.len() implies o.contains(x) by {
            if x == k {
                assert(o[pos] == x);
            } else {
                assert(old_order.contains(x));
                let i = choose|i: int| 0 <= i < old_order.len() && old_order[i] == x;
                if i < pos {
                    assert(o[i] == x);
                } else {
                    assert(o[i + 1] == x);
                }
            }
        }
        assert forall|i: int, j: int| 0 <= i < j < o.len() implies taken_before(
            paths,
            #[trigger] o[i],
            #[trigger] o[j],
        ) by {
            if j < pos {
                assert(o[i] == old_order[i] && o[j] == old_order[j]);
            } else if j == pos {
                assert(o[i] == old_order[i]);
                lemma_lex_total(paths[k], paths[old_order[i]]);
            } else if i < pos {
                assert(o[i] == old_order[i] && o[j] == old_order[j - 1]);
            } else if i == pos {
                assert(o[j] == old_order[j - 1]);
                if j - 1 > pos {
                    assert(taken_before(paths, old_order[pos], old_order[j - 1]));
                    if lex_less(paths[old_order[pos]], paths[old_order[j - 1]]) {
                        lemma_lex_transitive(
                            paths[k],
                            paths[old_order[pos]],
                            paths[old_order[j - 1]],
                        );
                    }
                }
            } else {
                assert(o[i] == old_order[i - 1] && o[j] == old_order[j - 1]);
            }
        }
        assert forall|i: int| 0 <= i < o.len() implies 0 <= #[trigger] o[i] < paths.len() by {
            if i < pos {
                assert(o[i] == old_order[i]);
            } else if i > pos {
                assert(o[i] == old_order[i - 1]);
            }
        }
        o
    }
}

/// The paths of a list of analyses.
pub open spec fn paths_of(av: Seq<AnalysisView>) -> Seq<Seq<u8>> {
    Seq::new(av.len(), |i: int| av[i].path)
}

/// A list of places as integers.
pub open spec fn as_ints(v: Seq<usize>) -> Seq<int> {
    Seq::new(v.len(), |i: int| v[i] as int)
}

/// Computes the order in which the modules are taken: ascending by logical
/// path, whatever order the files were found in.
pub fn stable_order(analyses: &Vec<Analysis>) -> (order: Vec<usize>)
    ensures
        is_stable_order(as_ints(order@), paths_of(analyses.deep_view())),
{
    let ghost paths = paths_of(analyses.deep_view());
    let n = analyses.len();
    let mut order: Vec<usize> = Vec::new();
    let mut k: usize = 0;
    while k < n
        invariant
            k <= n,
            n == analyses.len(),
            paths == paths_of(analyses.deep_view()),
            order.len() == k,
            forall|i: int| 0 <= i < k ==> (#[trigger] order[i]) < k,
            forall|x: int| 0 <= x < k ==> as_ints(order@).contains(x),
            forall|i: int, j: int|
                0 <= i < j < k ==> taken_before(
                    paths,
                    (#[trigger] order[i]) as int,
                    (#[trigger] order[j]) as int,
                ),
        decreases n - k,
    {
        let mut pos: usize = 0;
        assert(paths[k as int] == analyses[k as int]@.path);
        while pos < order.len() && !comes_first(&analyses[k].path, &analyses[order[pos]].path)
            invariant
                pos <= order.len(),
                order.len() == k,
                k < n,
                n == analyses.len(),
                paths == paths_of(analyses.deep_view()),
                paths[k as int] == analyses[k as int]@.path,
                forall|i: int| 0 <= i < k ==> (#[trigger] order[i]) < k,
                forall|e: int|
                    0 <= e < pos ==> !lex_less(paths[k as int], paths[(#[trigger] order[e]) as int]),
            decreases order.len() - pos,
        {
            assert(paths[order[pos as int] as int] == analyses[order[pos as int] as int]@.path);
            pos = pos + 1;
        }
        let ghost old_order = order@;
        proof {
            if pos < order.len() {
                assert(paths[order[pos as int] as int] == analyses[order[pos as int] as int]@.path);
            }
        }
        order.insert(pos, k);
        proof {
            let o = order@;
            assert forall|x: int| 0 <= x < k + 1 implies as_ints(o).contains(x) by {
                if x == k {
                    assert(as_ints(o)[pos as int] == x);
                } else {
                    assert(as_ints(old_order).contains(x));
                    let i = choose|i: int| 0 <= i < old_order.len() && as_ints(old_order)[i] == x;
                    if i < pos {
                        assert(as_ints(o)[i] == x);
                    } else {
                        assert(as_ints(o)[i + 1] == x);
                    }
                }
            }
            assert forall|i: int, j: int| 0 <= i < j < k + 1 implies taken_before(
                paths,
                (#[trigger] o[i]) as int,
                (#[trigger] o[j]) as int,
            ) by {
                if j < pos {
                    assert(o[i] == old_order[i] && o[j] == old_order[j]);
                } else if j == pos {
                    assert(o[i] == old_order[i]);
                    lemma_lex_total(paths[k as int], paths[old_order[i] as int]);
                } else if i < pos {
                    assert(o[i] == old_order[i] && o[j] == old_order[j - 1]);
                } else if i == pos {
                    assert(o[j] == old_order[j - 1]);
                    assert(lex_less(paths[k as int], paths[old_order[pos as int] as int]));
                    if j - 1 > pos {
                        assert(taken_before(
                            paths,
                            old_order[pos as int] as int,
                            old_order[j - 1] as int,
                        ));
                        if lex_less(
                            paths[old_order[pos as int] as int],
                            paths[old_order[j - 1] as int],
                        ) {
                            lemma_lex_transitive(
                                paths[k as int],
                                paths[old_order[pos as int] as int],
                                paths[old_order[j - 1] as int],
                            );
                        }
                    }
                } else {
                    assert(o[i] == old_order[i - 1] && o[j] == old_order[j - 1]);
                }
            }
        }
        k = k + 1;
    }
    proof {
        let o = as_ints(order@);
        assert forall|i: int, j: int| 0 <= i < j < o.len() implies taken_before(
            paths,
            #[trigger] o[i],
            #[trigger] o[j],
        ) by {
            assert(taken_before(paths, order[i] as int, order[j] as int));
        }
        assert forall|i: int| 0 <= i < o.len() implies 0 <= #[trigger] o[i] < paths.len() by {
            assert(order[i] < k);
        }
    }
    order
}

} // verus!
