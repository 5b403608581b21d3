//! The order in which files are asked for does not matter.

use vstd::prelude::*;

use crate::loader::{file_spec, load_spec, LoaderView};
use crate::paths::{
    ext_spec, inserted, key_precedes, path_key, path_order_is_total, precedes, sorted,
    sorted_ascends, SourcePath,
};
use crate::scalar::Scalar;

verus! {

/// A file that is asked for: its path, its name and extension, and what it holds.
#[verifier::ext_equal]
pub ghost struct Asked {
    pub key: Seq<(u8, Seq<u8>)>,
    pub shown: Seq<char>,
    pub extension: Seq<char>,
    pub bytes: Seq<u8>,
}

/// The file that a path leads to.
pub open spec fn asked(path: SourcePath, contents: Seq<Vec<u8>>) -> Asked {
    Asked {
        key: path_key(path),
        shown: path.shown@,
        extension: ext_spec(path),
        bytes: contents[path.index as int]@,
    }
}

/// The files that paths lead to.
pub open spec fn all_asked(paths: Seq<SourcePath>, contents: Seq<Vec<u8>>) -> Seq<Asked> {
    Seq::new(paths.len(), |i: int| asked(paths[i], contents))
}

/// One path leads to one file.
pub open spec fn told_apart(files: Seq<Asked>) -> bool {
    forall|i: int, j: int|
        0 <= i < files.len() && 0 <= j < files.len() && (#[trigger] files[i]).key == (
        #[trigger] files[j]).key ==> files[i] == files[j]
}

/// No file comes before one that stands before it.
spec fn keys_ascend(files: Seq<Asked>) -> bool {
    forall|i: int, j: int|
        0 <= i < j < files.len() ==> !key_precedes(
            (#[trigger] files[j]).key,
            (#[trigger] files[i]).key,
        )
}

/// Putting a file at a place adds it and nothing else.
proof fn lemma_insert_adds(files: Seq<Asked>, x: Asked, i: int)
    requires
        0 <= i <= files.len(),
    ensures
        files.insert(i, x).to_multiset() =~= files.to_multiset().insert(x),
{
    broadcast use vstd::seq_lib::group_to_multiset_ensures;

    let longer = files.insert(i, x);
    assert(longer.remove(i) =~= files);
    assert(longer[i] == x);
    assert(longer.contains(x));
    assert(longer.to_multiset().count(x) > 0);
}

/// Inserting a path adds its file and nothing else.
proof fn lemma_inserted_adds(
    paths: Seq<SourcePath>,
    x: SourcePath,
    i: int,
    contents: Seq<Vec<u8>>,
)
    requires
        0 <= i <= paths.len(),
    ensures
        all_asked(inserted(paths, x, i), contents).to_multiset() =~= all_asked(
            paths,
            contents,
        ).to_multiset().insert(asked(x, contents)),
    decreases paths.len() - i,
{
    if i >= paths.len() || !precedes(paths[i], x) {
        let files = all_asked(paths, contents);
        assert(all_asked(paths.insert(i, x), contents) =~= files.insert(i, asked(x, contents)));
        lemma_insert_adds(files, asked(x, contents), i);
    } else {
        lemma_inserted_adds(paths, x, i + 1, contents);
    }
}

/// Sorting paths drops no file and adds none.
proof fn lemma_sorted_asks_the_same(paths: Seq<SourcePath>, contents: Seq<Vec<u8>>)
    ensures
        all_asked(sorted(paths), contents).to_multiset() =~= all_asked(
            paths,
            contents,
        ).to_multiset(),
    decreases paths.len(),
{
    if paths.len() > 0 {
        let rest = paths.drop_first();
        let x = asked(paths[0], contents);
        lemma_sorted_asks_the_same(rest, contents);
        lemma_inserted_adds(sorted(rest), paths[0], 0, contents);
        lemma_insert_adds(all_asked(rest, contents), x, 0);
        assert(all_asked(paths, contents) =~= all_asked(rest, contents).insert(0, x));
    } else {
        assert(sorted(paths) =~= paths);
    }
}

/// Files have only one ascending order, if one path leads to one file.
proof fn lemma_one_order(a: Seq<Asked>, b: Seq<Asked>)
    requires
        a.to_multiset() == b.to_multiset(),
        told_apart(a),
        keys_ascend(a),
        keys_ascend(b),
    ensures
        a == b,
    decreases a.len(),
{
    broadcast use vstd::seq_lib::group_to_multiset_ensures;

    assert(a.len() == a.to_multiset().len() && b.len() == b.to_multiset().len());
    if a.len() > 0 {
        assert(a.contains(a[0]) && b.contains(b[0]));
        assert(b.to_multiset().count(a[0]) > 0 && a.to_multiset().count(b[0]) > 0);
        let i = choose|i: int| 0 <= i < a.len() && a[i] == b[0];
        let j = choose|j: int| 0 <= j < b.len() && b[j] == a[0];
        assert(0 <= i < a.len() && a[i] == b[0]);
        assert(0 <= j < b.len() && b[j] == a[0]);
        path_order_is_total(a[0].key, b[0].key, a[0].key);
        path_order_is_total(a[0].key, a[0].key, a[0].key);
        assert(!key_precedes(a[i].key, a[0].key));
        assert(!key_precedes(b[j].key, b[0].key));
        assert(a[0] == a[i]);
        let x = a.drop_first();
        let y = b.drop_first();
        assert(a.remove(0) =~= x && b.remove(0) =~= y);
        assert(x.to_multiset() =~= y.to_multiset());
        assert(told_apart(x)) by {
            assert forall|i: int, j: int|
                0 <= i < x.len() && 0 <= j < x.len() && (#[trigger] x[i]).key == (
                #[trigger] x[j]).key implies x[i] == x[j] by {
                assert(a[i + 1].key == a[j + 1].key);
            }
        }
        assert(keys_ascend(x)) by {
            assert forall|i: int, j: int| 0 <= i < j < x.len() implies !key_precedes(
                (#[trigger] x[j]).key,
                (#[trigger] x[i]).key,
            ) by {
                assert(!key_precedes(a[j + 1].key, a[i + 1].key));
            }
        }
        assert(keys_ascend(y)) by {
            assert forall|i: int, j: int| 0 <= i < j < y.len() implies !key_precedes(
                (#[trigger] y[j]).key,
                (#[trigger] y[i]).key,
            ) by {
                assert(!key_precedes(b[j + 1].key, b[i + 1].key));
            }
        }
        lemma_one_order(x, y);
        assert(a =~= seq![a[0]] + x);
        assert(b =~= seq![b[0]] + y);
    } else {
        assert(a =~= b);
    }
}

/// Sorted paths lead to files in ascending order.
proof fn lemma_sorted_keys_ascend(paths: Seq<SourcePath>, contents: Seq<Vec<u8>>)
    ensures
        keys_ascend(all_asked(sorted(paths), contents)),
{
    sorted_ascends(paths);
    let files = all_asked(sorted(paths), contents);
    assert forall|i: int, j: int| 0 <= i < j < files.len() implies !key_precedes(
        (#[trigger] files[j]).key,
        (#[trigger] files[i]).key,
    ) by {
        assert(!precedes(sorted(paths)[j], sorted(paths)[i]));
    }
}

/// If one path leads to one file, that is so in whatever order they stand.
proof fn lemma_told_apart_in_any_order(a: Seq<Asked>, b: Seq<Asked>)
    requires
        a.to_multiset() == b.to_multiset(),
        told_apart(a),
    ensures
        told_apart(b),
{
    broadcast use vstd::seq_lib::group_to_multiset_ensures;

    assert forall|i: int, j: int|
        0 <= i < b.len() && 0 <= j < b.len() && (#[trigger] b[i]).key == (
        #[trigger] b[j]).key implies b[i] == b[j] by {
        assert(b.contains(b[i]) && b.contains(b[j]));
        assert(a.to_multiset().count(b[i]) > 0 && a.to_multiset().count(b[j]) > 0);
        let p = choose|p: int| 0 <= p < a.len() && a[p] == b[i];
        let q = choose|q: int| 0 <= q < a.len() && a[q] == b[j];
        assert(a[p].key == a[q].key);
    }
}

/// Two loaders that have loaded the same, and have the same files to load.
spec fn alike<S: Scalar>(
    a: LoaderView<S>,
    from: Seq<Vec<u8>>,
    b: LoaderView<S>,
    to: Seq<Vec<u8>>,
) -> bool {
    &&& all_asked(a.files, from) == all_asked(b.files, to)
    &&& a.done == b.done
    &&& a.frames == b.frames
    &&& a.sources == b.sources
}

/// Loaders that are alike stay so, or fail for the same reason.
proof fn lemma_alike_to_the_end<S: Scalar>(
    a: LoaderView<S>,
    from: Seq<Vec<u8>>,
    b: LoaderView<S>,
    to: Seq<Vec<u8>>,
)
    requires
        alike(a, from, b, to),
    ensures
        match (a.completed(from), b.completed(to)) {
            (Ok(x), Ok(y)) => alike(x, from, y, to),
            (Err(x), Err(y)) => x == y,
            _ => false,
        },
        a.progress(from) == b.progress(to),
    decreases a.files.len() - a.done,
{
    assert(all_asked(a.files, from).len() == a.files.len());
    assert(all_asked(b.files, to).len() == b.files.len());
    if 0 <= a.done < a.files.len() {
        let p = a.files[a.done];
        let q = b.files[b.done];
        assert(all_asked(a.files, from)[a.done] == asked(p, from));
        assert(all_asked(b.files, to)[b.done] == asked(q, to));
        assert(file_spec::<S>(p, asked(p, from).bytes) == file_spec::<S>(q, asked(q, to).bytes));
        if let Ok(x) = a.fed(asked(p, from).bytes) {
            if let Ok(y) = b.fed(asked(q, to).bytes) {
                lemma_alike_to_the_end(x, from, y, to);
            }
        }
    }
}

/// The files are loaded in the order of their paths, not in that in which they are
/// asked for: of the same files, asked for in any order, the frames are the same
/// and come in the same order, and so are their sources, the size and the progress
/// that is told on the way. If loading fails, it fails for the same reason.
pub proof fn the_order_asked_for_does_not_matter<S: Scalar>(
    paths: Seq<SourcePath>,
    contents: Seq<Vec<u8>>,
    other_paths: Seq<SourcePath>,
    other_contents: Seq<Vec<u8>>,
)
    requires
        told_apart(all_asked(paths, contents)),
        all_asked(paths, contents).to_multiset() == all_asked(
            other_paths,
            other_contents,
        ).to_multiset(),
    ensures
        match (
            load_spec::<S>(paths, contents),
            load_spec::<S>(other_paths, other_contents),
        ) {
            (Ok(a), Ok(b)) => {
                &&& a.frames == b.frames
                &&& a.sources == b.sources
                &&& a.width == b.width
                &&& a.height == b.height
                &&& all_asked(a.files, contents) == all_asked(b.files, other_contents)
            },
            (Err(a), Err(b)) => a == b,
            _ => false,
        },
        LoaderView::<S>::started(paths).progress(contents) == LoaderView::<S>::started(
            other_paths,
        ).progress(other_contents),
{
    broadcast use vstd::seq_lib::group_to_multiset_ensures;

    let all = all_asked(paths, contents);
    let other = all_asked(other_paths, other_contents);
    assert(all.len() == all.to_multiset().len() && other.len() == other.to_multiset().len());
    let a = all_asked(sorted(paths), contents);
    let b = all_asked(sorted(other_paths), other_contents);
    lemma_sorted_asks_the_same(paths, contents);
    lemma_sorted_asks_the_same(other_paths, other_contents);
    lemma_sorted_keys_ascend(paths, contents);
    lemma_sorted_keys_ascend(other_paths, other_contents);
    lemma_told_apart_in_any_order(all, a);
    lemma_one_order(a, b);
    lemma_alike_to_the_end(
        LoaderView::<S>::started(paths),
        contents,
        LoaderView::<S>::started(other_paths),
        other_contents,
    );
}

} // verus!
