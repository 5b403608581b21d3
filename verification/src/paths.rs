//! The names of image files: their order and their extensions.

use vstd::prelude::*;

use crate::text::{lower_char, lowercase_of, plain, text_is};

verus! {

/// One component of a path.
#[derive(Debug)]
pub struct PathPart {
    /// The kind of component: 0 for a prefix, 1 for the root, 2 for the current
    /// directory, 3 for the parent directory, 4 for an ordinary name.
    pub rank: u8,
    /// The component's name as bytes.
    pub name: Vec<u8>,
}

/// A path, taken apart.
#[derive(Debug)]
pub struct SourcePath {
    /// The place of the path among those that were asked for.
    pub index: usize,
    /// The path as it is shown to the user.
    pub shown: String,
    /// The file name as it is shown to the user, if the path has one.
    pub file_name: Option<String>,
    /// The extension of the file name, if it has one that is proper text.
    pub extension: Option<String>,
    /// The components, outermost first.
    pub parts: Vec<PathPart>,
}

/// Does the byte string `a` come before `b`?
pub open spec fn bytes_precede(a: Seq<u8>, b: Seq<u8>) -> bool
    decreases a.len(),
{
    if b.len() == 0 {
        false
    } else if a.len() == 0 {
        true
    } else if a[0] != b[0] {
        a[0] < b[0]
    } else {
        bytes_precede(a.drop_first(), b.drop_first())
    }
}

/// A component as a pair of its kind and its name.
pub open spec fn part_key(part: PathPart) -> (u8, Seq<u8>) {
    (part.rank, part.name@)
}

/// A path as the sequence of its components.
pub open spec fn path_key(path: SourcePath) -> Seq<(u8, Seq<u8>)> {
    Seq::new(path.parts@.len(), |i: int| part_key(path.parts@[i]))
}

/// Does the component `a` come before `b`? The kind decides, then the name.
pub open spec fn part_precedes(a: (u8, Seq<u8>), b: (u8, Seq<u8>)) -> bool {
    a.0 < b.0 || a.0 == b.0 && bytes_precede(a.1, b.1)
}

/// Does the path `a` come before `b`? The first component that differs decides;
/// a path comes before those that it begins.
pub open spec fn key_precedes(a: Seq<(u8, Seq<u8>)>, b: Seq<(u8, Seq<u8>)>) -> bool
    decreases a.len(),
{
    if b.len() == 0 {
        false
    } else if a.len() == 0 {
        true
    } else if a[0] != b[0] {
        part_precedes(a[0], b[0])
    } else {
        key_precedes(a.drop_first(), b.drop_first())
    }
}

/// Does the path `a` come before `b`?
pub open spec fn precedes(a: SourcePath, b: SourcePath) -> bool {
    key_precedes(path_key(a), path_key(b))
}

/// The sequence with `x` put before the first path, from the `i`-th on, that
/// does not come before it.
pub open spec fn inserted(paths: Seq<SourcePath>, x: SourcePath, i: int) -> Seq<SourcePath>
    decreases paths.len() - i,
{
    if i < 0 || i >= paths.len() || !precedes(paths[i], x) {
        paths.insert(i, x)
    } else {
        inserted(paths, x, i + 1)
    }
}

/// The paths in ascending order; those that are equal keep their order.
pub open spec fn sorted(paths: Seq<SourcePath>) -> Seq<SourcePath>
    decreases paths.len(),
{
    if paths.len() == 0 {
        Seq::empty()
    } else {
        inserted(sorted(paths.drop_first()), paths[0], 0)
    }
}

/// How two byte strings stand to each other.
#[derive(Clone, Copy, PartialEq, Eq, Structural, Debug)]
enum Standing {
    Before,
    Same,
    After,
}

fn compare_bytes(a: &Vec<u8>, b: &Vec<u8>) -> (r: Standing)
    ensures
        r is Before <==> bytes_precede(a@, b@),
        r is Same <==> a@ == b@,
{
    let mut i: usize = 0;
    assert(a@.skip(0) =~= a@);
    assert(b@.skip(0) =~= b@);
    while i < a.len() && i < b.len()
        invariant
            i <= a@.len(),
            i <= b@.len(),
            a@.take(i as int) == b@.take(i as int),
            bytes_precede(a@, b@) == bytes_precede(a@.skip(i as int), b@.skip(i as int)),
        decreases a@.len() - i,
    {
        if a[i] < b[i] {
            return Standing::Before;
        }
        if a[i] > b[i] {
            return Standing::After;
        }
        proof {
            assert(a@.skip(i as int).drop_first() =~= a@.skip(i + 1));
            assert(b@.skip(i as int).drop_first() =~= b@.skip(i + 1));
            assert(a@.take(i + 1) =~= a@.take(i as int).push(a@[i as int]));
            assert(b@.take(i + 1) =~= b@.take(i as int).push(b@[i as int]));
        }
        i = i + 1;
    }
    if i < b.len() {
        assert(a@.skip(i as int).len() == 0);
        Standing::Before
    } else if i < a.len() {
        Standing::After
    } else {
        assert(a@.take(i as int) =~= a@);
        assert(b@.take(i as int) =~= b@);
        Standing::Same
    }
}

fn compare_parts(a: &PathPart, b: &PathPart) -> (r: Standing)
    ensures
        r is Before <==> part_precedes(part_key(*a), part_key(*b)),
        r is Same <==> part_key(*a) == part_key(*b),
{
    if a.rank < b.rank {
        Standing::Before
    } else if a.rank > b.rank {
        Standing::After
    } else {
        compare_bytes(&a.name, &b.name)
    }
}

/// Does the path `a` come before `b`?
pub fn comes_before(a: &SourcePath, b: &SourcePath) -> (r: bool)
    ensures
        r == precedes(*a, *b),
{
    let ghost ka = path_key(*a);
    let ghost kb = path_key(*b);
    let mut i: usize = 0;
    assert(ka.skip(0) =~= ka);
    assert(kb.skip(0) =~= kb);
    while i < a.parts.len() && i < b.parts.len()
        invariant
            ka == path_key(*a),
            kb == path_key(*b),
            i <= ka.len(),
            i <= kb.len(),
            key_precedes(ka, kb) == key_precedes(ka.skip(i as int), kb.skip(i as int)),
        decreases ka.len() - i,
    {
        let standing = compare_parts(&a.parts[i], &b.parts[i]);
        assert(ka.skip(i as int)[0] == part_key(a.parts@[i as int]));
        assert(kb.skip(i as int)[0] == part_key(b.parts@[i as int]));
        match standing {
            Standing::Before => {
                return true;
            },
            Standing::After => {
                return false;
            },
            Standing::Same => {
                assert(ka.skip(i as int).drop_first() =~= ka.skip(i + 1));
                assert(kb.skip(i as int).drop_first() =~= kb.skip(i + 1));
            },
        }
        i = i + 1;
    }
    i < b.parts.len()
}

/// Sorts paths into ascending order. Equal ones keep their order.
pub fn sort_paths(paths: Vec<SourcePath>) -> (r: Vec<SourcePath>)
    ensures
        r@ == sorted(paths@),
{
    let mut rest = paths;
    let mut out: Vec<SourcePath> = Vec::new();
    let ghost all = rest@;
    assert(all.skip(all.len() as int) =~= Seq::empty());
    while rest.len() > 0
        invariant
            rest@.len() <= all.len(),
            rest@ == all.take(rest@.len() as int),
            out@ == sorted(all.skip(rest@.len() as int)),
        decreases rest@.len(),
    {
        let ghost n = rest@.len() as int;
        match rest.pop() {
            None => {},
            Some(x) => {
                proof {
                    assert(all.skip(n - 1).drop_first() =~= all.skip(n));
                    assert(rest@ =~= all.take(n - 1));
                }
                let mut i: usize = 0;
                while i < out.len() && comes_before(&out[i], &x)
                    invariant
                        i <= out@.len(),
                        inserted(out@, x, 0) == inserted(out@, x, i as int),
                    decreases out@.len() - i,
                {
                    i = i + 1;
                }
                out.insert(i, x);
            },
        }
    }
    assert(all.skip(0) =~= all);
    out
}

/// Inserting a path adds it and nothing else.
proof fn lemma_inserted_holds(paths: Seq<SourcePath>, x: SourcePath, i: int)
    requires
        0 <= i <= paths.len(),
    ensures
        inserted(paths, x, i).to_multiset() =~= paths.to_multiset().insert(x),
        inserted(paths, x, i).len() == paths.len() + 1,
    decreases paths.len() - i,
{
    if i >= paths.len() || !precedes(paths[i], x) {
        lemma_insert_holds(paths, x, i);
    } else {
        lemma_inserted_holds(paths, x, i + 1);
    }
}

/// Putting a path at a place adds it and nothing else.
proof fn lemma_insert_holds(paths: Seq<SourcePath>, x: SourcePath, i: int)
    requires
        0 <= i <= paths.len(),
    ensures
        paths.insert(i, x).to_multiset() =~= paths.to_multiset().insert(x),
{
    broadcast use vstd::seq_lib::group_to_multiset_ensures;

    let longer = paths.insert(i, x);
    assert(longer.remove(i) =~= paths);
    assert(longer[i] == x);
    assert(longer.contains(x));
    assert(longer.to_multiset().count(x) > 0);
}

/// Sorting drops no path and adds none.
pub proof fn sorted_holds_the_same(paths: Seq<SourcePath>)
    ensures
        sorted(paths).to_multiset() == paths.to_multiset(),
        sorted(paths).len() == paths.len(),
        forall|p: SourcePath| #[trigger] sorted(paths).contains(p) <==> paths.contains(p),
    decreases paths.len(),
{
    broadcast use vstd::seq_lib::group_to_multiset_ensures;

    if paths.len() == 0 {
        assert(sorted(paths) =~= paths);
    } else {
        let rest = paths.drop_first();
        sorted_holds_the_same(rest);
        lemma_inserted_holds(sorted(rest), paths[0], 0);
        assert(rest.insert(0, paths[0]) =~= paths);
        lemma_insert_holds(rest, paths[0], 0);
    }
    assert forall|p: SourcePath| #[trigger] sorted(paths).contains(p) <==> paths.contains(p) by {
        assert(sorted(paths).contains(p) <==> sorted(paths).to_multiset().count(p) > 0);
        assert(paths.contains(p) <==> paths.to_multiset().count(p) > 0);
    }
}

/// The order of byte strings is a total one.
proof fn lemma_bytes_order(a: Seq<u8>, b: Seq<u8>, c: Seq<u8>)
    ensures
        !(bytes_precede(a, b) && bytes_precede(b, a)),
        bytes_precede(a, b) || a == b || bytes_precede(b, a),
        bytes_precede(a, b) && bytes_precede(b, c) ==> bytes_precede(a, c),
    decreases a.len() + b.len() + c.len(),
{
    if a.len() > 0 && b.len() > 0 {
        lemma_bytes_order(
            a.drop_first(),
            b.drop_first(),
            if c.len() > 0 {
                c.drop_first()
            } else {
                c
            },
        );
        if a[0] == b[0] && a.drop_first() == b.drop_first() {
            assert(a =~= seq![a[0]] + a.drop_first());
            assert(b =~= seq![b[0]] + b.drop_first());
        }
    } else if a.len() == 0 && b.len() == 0 {
        assert(a =~= b);
    }
}

/// The order of components is a total one.
proof fn lemma_part_order(a: (u8, Seq<u8>), b: (u8, Seq<u8>), c: (u8, Seq<u8>))
    ensures
        !(part_precedes(a, b) && part_precedes(b, a)),
        part_precedes(a, b) || a == b || part_precedes(b, a),
        part_precedes(a, b) && part_precedes(b, c) ==> part_precedes(a, c),
{
    lemma_bytes_order(a.1, b.1, c.1);
}

/// The order of paths, as sequences of components, is a total one: no two come
/// before each other, of two that differ one comes before the other, and what
/// comes before a path comes before all that follow it.
pub proof fn path_order_is_total(
    a: Seq<(u8, Seq<u8>)>,
    b: Seq<(u8, Seq<u8>)>,
    c: Seq<(u8, Seq<u8>)>,
)
    ensures
        !(key_precedes(a, b) && key_precedes(b, a)),
        key_precedes(a, b) || a == b || key_precedes(b, a),
        key_precedes(a, b) && key_precedes(b, c) ==> key_precedes(a, c),
    decreases a.len() + b.len() + c.len(),
{
    if a.len() > 0 && b.len() > 0 {
        let rest = if c.len() > 0 {
            c.drop_first()
        } else {
            c
        };
        path_order_is_total(a.drop_first(), b.drop_first(), rest);
        lemma_part_order(a[0], b[0], c[0]);
        lemma_part_order(a[0], b[0], a[0]);
        if a[0] == b[0] && a.drop_first() == b.drop_first() {
            assert(a =~= seq![a[0]] + a.drop_first());
            assert(b =~= seq![b[0]] + b.drop_first());
        }
    } else if a.len() == 0 && b.len() == 0 {
        assert(a =~= b);
    }
}

/// No path of the sequence comes before one that stands before it.
pub open spec fn ascending(paths: Seq<SourcePath>) -> bool {
    forall|i: int, j: int|
        0 <= i < j < paths.len() ==> !precedes(#[trigger] paths[j], #[trigger] paths[i])
}

/// Inserting a path keeps the order.
proof fn lemma_inserted_ascends(paths: Seq<SourcePath>, x: SourcePath, i: int)
    requires
        0 <= i <= paths.len(),
        ascending(paths),
        forall|k: int| 0 <= k < i ==> precedes(#[trigger] paths[k], x),
    ensures
        ascending(inserted(paths, x, i)),
    decreases paths.len() - i,
{
    if i < paths.len() && precedes(paths[i], x) {
        lemma_inserted_ascends(paths, x, i + 1);
    } else {
        let out = paths.insert(i, x);
        assert forall|p: int, q: int| 0 <= p < q < out.len() implies !precedes(
            #[trigger] out[q],
            #[trigger] out[p],
        ) by {
            let kx = path_key(x);
            if p == i {
                let kf = path_key(paths[i]);
                let kq = path_key(paths[q - 1]);
                if q - 1 > i {
                    assert(!precedes(paths[q - 1], paths[i]));
                }
                path_order_is_total(kq, kx, kf);
                path_order_is_total(kx, kf, kf);
            } else if q == i {
                assert(precedes(paths[p], x));
                path_order_is_total(path_key(paths[p]), kx, kx);
            } else {
                let a = if p < i {
                    p
                } else {
                    p - 1
                };
                let b = if q < i {
                    q
                } else {
                    q - 1
                };
                assert(!precedes(paths[b], paths[a]));
            }
        }
    }
}

/// Sorted paths ascend.
pub proof fn sorted_ascends(paths: Seq<SourcePath>)
    ensures
        ascending(sorted(paths)),
    decreases paths.len(),
{
    if paths.len() > 0 {
        sorted_ascends(paths.drop_first());
        lemma_inserted_ascends(sorted(paths.drop_first()), paths[0], 0);
    }
}

/// The extension of a path in lower case; the empty text if it has none.
pub open spec fn ext_spec(path: SourcePath) -> Seq<char> {
    match path.extension {
        Some(e) => lowercase_of(e@),
        None => ""@,
    }
}

/// The extension of a path in lower case; the empty text if it has none. Of an
/// ASCII extension, every letter from `A` to `Z` becomes its lowercase counterpart.
pub fn ext_of(path: &SourcePath) -> (r: String)
    ensures
        r@ == ext_spec(*path),
        path.extension matches Some(e) && plain(e@) ==> r@ == Seq::new(
            path.extension->0@.len(),
            |i: int| lower_char(path.extension->0@[i]),
        ),
{
    match &path.extension {
        Some(e) => e.as_str().to_lowercase(),
        None => "".to_owned(),
    }
}

/// File extensions that can be opened.
pub open spec fn supported_spec(ext: Seq<char>) -> bool {
    ext == "tif"@ || ext == "tiff"@ || ext == "npy"@
}

/// File extensions that can be opened.
pub fn supported_extensions() -> (r: [&'static str; 3])
    ensures
        r@[0]@ == "tif"@,
        r@[1]@ == "tiff"@,
        r@[2]@ == "npy"@,
        forall|i: int| 0 <= i < 3 ==> supported_spec((#[trigger] r@[i])@),
{
    ["tif", "tiff", "npy"]
}

/// Is this the extension of a file that can be opened?
pub fn supported(ext: &String) -> (r: bool)
    ensures
        r == supported_spec(ext@),
{
    text_is(ext, "tif") || text_is(ext, "tiff") || text_is(ext, "npy")
}

} // verus!
