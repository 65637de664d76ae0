//! Paths as component vectors, and the mapping of a package directory to a
//! root-relative source directory.
//!
//! Absolute, canonicalized directories are held as vectors of plain
//! components. The relative path between two such directories ascends out of
//! the uncommon part of the base and descends into the uncommon part of the
//! target; the textual form joins components with `/`.

use crate::model::str_views;
use vstd::prelude::*;

verus! {

/// A plain path component: nonempty, not `.` or `..`, free of `/`.
pub open spec fn is_plain_component(c: Seq<char>) -> bool {
    &&& c.len() > 0
    &&& c != seq!['.']
    &&& c != seq!['.', '.']
    &&& forall|i: int| 0 <= i < c.len() ==> c[i] != '/'
}

/// A canonical directory: every component plain.
pub open spec fn is_plain_path(p: Seq<Seq<char>>) -> bool {
    forall|i: int| 0 <= i < p.len() ==> is_plain_component(#[trigger] p[i])
}

/// The ascent marker, the component `..`.
pub open spec fn up_marker() -> Seq<char> {
    seq!['.', '.']
}

/// The number of leading components two paths share.
pub open spec fn common_prefix_len(a: Seq<Seq<char>>, b: Seq<Seq<char>>) -> nat
    decreases a.len(),
{
    if a.len() == 0 || b.len() == 0 || a[0] != b[0] {
        0
    } else {
        1 + common_prefix_len(a.drop_first(), b.drop_first())
    }
}

pub proof fn lemma_common_prefix_le(a: Seq<Seq<char>>, b: Seq<Seq<char>>)
    ensures
        common_prefix_len(a, b) <= a.len(),
        common_prefix_len(a, b) <= b.len(),
    decreases a.len(),
{
    if a.len() == 0 || b.len() == 0 || a[0] != b[0] {
    } else {
        lemma_common_prefix_le(a.drop_first(), b.drop_first());
    }
}

/// If `b` is a strict prefix of `a`, the common prefix is all of `b`.
pub proof fn lemma_common_prefix_of_prefix(a: Seq<Seq<char>>, b: Seq<Seq<char>>)
    requires
        b.len() <= a.len(),
        a.subrange(0, b.len() as int) == b,
    ensures
        common_prefix_len(a, b) == b.len(),
    decreases b.len(),
{
    if b.len() == 0 {
    } else {
        assert(a[0] == a.subrange(0, b.len() as int)[0]);
        assert(a.drop_first().subrange(0, b.len() - 1) =~= a.subrange(0, b.len() as int).drop_first());
        lemma_common_prefix_of_prefix(a.drop_first(), b.drop_first());
    }
}

/// The first components the common prefix speaks of really agree.
pub proof fn lemma_common_prefix_agrees(a: Seq<Seq<char>>, b: Seq<Seq<char>>)
    ensures
        forall|i: int|
            0 <= i < common_prefix_len(a, b) ==> #[trigger] a[i] == b[i],
    decreases a.len(),
{
    lemma_common_prefix_le(a, b);
    if a.len() == 0 || b.len() == 0 || a[0] != b[0] {
    } else {
        lemma_common_prefix_agrees(a.drop_first(), b.drop_first());
        assert forall|i: int| 0 <= i < common_prefix_len(a, b) implies #[trigger] a[i] == b[i] by {
            if i > 0 {
                assert(a.drop_first()[i - 1] == b.drop_first()[i - 1]);
            }
        }
    }
}

/// The relative path from `base` to `path`, both canonical absolute
/// component lists: one ascent for each uncommon component of `base`, then
/// the uncommon components of `path`.
pub open spec fn path_diff(path: Seq<Seq<char>>, base: Seq<Seq<char>>) -> Seq<Seq<char>> {
    let common = common_prefix_len(path, base) as int;
    Seq::new((base.len() - common) as nat, |i: int| up_marker()) + path.subrange(
        common,
        path.len() as int,
    )
}

/// Relies on `pathdiff::diff_paths`: for two absolute paths it returns the
/// relative path from the second to the first — one `..` for each component
/// of the base past the common prefix, then the target's components past the
/// common prefix.
#[verifier::external_body]
fn diff_components(path: &Vec<String>, base: &Vec<String>) -> (r: Vec<String>)
    requires
        is_plain_path(str_views(path@)),
        is_plain_path(str_views(base@)),
    ensures
        str_views(r@) == path_diff(str_views(path@), str_views(base@)),
{
    let p: std::path::PathBuf = std::iter::once(String::from("/")).chain(
        path.iter().cloned(),
    ).collect();
    let b: std::path::PathBuf = std::iter::once(String::from("/")).chain(
        base.iter().cloned(),
    ).collect();
    let d = pathdiff::diff_paths(&p, &b).expect("two absolute paths always have a difference");
    d.components().map(|c| c.as_os_str().to_string_lossy().into_owned()).collect()
}

/// The textual form of a relative path: components joined with `/`.
pub open spec fn join_path(cs: Seq<Seq<char>>) -> Seq<char>
    decreases cs.len(),
{
    if cs.len() == 0 {
        Seq::empty()
    } else if cs.len() == 1 {
        cs[0]
    } else {
        join_path(cs.drop_last()) + seq!['/'] + cs.last()
    }
}

/// A joined path begins with its first component.
pub proof fn lemma_join_path_first(cs: Seq<Seq<char>>)
    requires
        cs.len() > 0,
    ensures
        join_path(cs).len() >= cs[0].len(),
        forall|i: int| 0 <= i < cs[0].len() ==> join_path(cs)[i] == cs[0][i],
    decreases cs.len(),
{
    if cs.len() == 1 {
    } else {
        lemma_join_path_first(cs.drop_last());
        assert(cs.drop_last()[0] == cs[0]);
    }
}

/// The root-relative source directory of a package directory:
/// the self-reference marker `./.` when the two coincide; the unmodified
/// relative path when it leaves the root's subtree (it then begins with an
/// ascent); otherwise the relative path behind a same-root marker `./`.
pub open spec fn source_dir(root: Seq<Seq<char>>, dir: Seq<Seq<char>>) -> Seq<char> {
    if dir == root {
        seq!['.', '/', '.']
    } else {
        let diff = path_diff(dir, root);
        if diff.len() > 0 && diff[0] == up_marker() {
            join_path(diff)
        } else {
            seq!['.', '/'] + join_path(diff)
        }
    }
}

/// Whether two component vectors denote the same path.
pub fn vec_str_eq(a: &Vec<String>, b: &Vec<String>) -> (r: bool)
    ensures
        r == (str_views(a@) == str_views(b@)),
{
    if a.len() != b.len() {
        proof {
            assert(str_views(a@).len() != str_views(b@).len());
        }
        return false;
    }
    let mut i: usize = 0;
    while i < a.len()
        invariant
            a@.len() == b@.len(),
            i <= a@.len(),
            forall|j: int| 0 <= j < i ==> str_views(a@)[j] == str_views(b@)[j],
        decreases a.len() - i,
    {
        if !(a[i] == b[i]) {
            proof {
                assert(str_views(a@)[i as int] != str_views(b@)[i as int]);
            }
            return false;
        }
        i = i + 1;
    }
    proof {
        assert(str_views(a@) =~= str_views(b@));
    }
    true
}

/// Join path components with `/` into one textual path.
pub fn join_components(comps: &Vec<String>) -> (r: String)
    ensures
        r@ == join_path(str_views(comps@)),
{
    let mut r = String::new();
    let mut i: usize = 0;
    while i < comps.len()
        invariant
            i <= comps@.len(),
            r@ == join_path(str_views(comps@).subrange(0, i as int)),
        decreases comps.len() - i,
    {
        if i > 0 {
            r.append("/");
            proof {
                reveal_strlit("/");
            }
        }
        r.append(comps[i].as_str());
        proof {
            let views = str_views(comps@);
            assert(views.subrange(0, i + 1 as int).drop_last() =~= views.subrange(0, i as int));
            assert(views.subrange(0, i + 1 as int).last() == views[i as int]);
            if i == 0 {
                assert(r@ =~= join_path(views.subrange(0, 1)));
            } else {
                assert("/"@ =~= seq!['/']);
                assert(r@ =~= join_path(views.subrange(0, i + 1 as int)));
            }
        }
        i = i + 1;
    }
    proof {
        assert(str_views(comps@).subrange(0, comps@.len() as int) =~= str_views(comps@));
    }
    r
}

/// The root-relative source directory of a package directory, textually.
pub fn relative_source_dir(root: &Vec<String>, dir: &Vec<String>) -> (r: String)
    requires
        is_plain_path(str_views(root@)),
        is_plain_path(str_views(dir@)),
    ensures
        r@ == source_dir(str_views(root@), str_views(dir@)),
{
    if vec_str_eq(dir, root) {
        let r = "./.".to_owned();
        proof {
            reveal_strlit("./.");
            assert(r@ =~= seq!['.', '/', '.']);
        }
        return r;
    }
    let diff = diff_components(dir, root);
    let up = "..".to_owned();
    let ascending = diff.len() > 0 && diff[0] == up;
    proof {
        reveal_strlit("..");
        assert(up@ =~= up_marker());
        if diff@.len() > 0 {
            assert(str_views(diff@)[0] == diff@[0]@);
        }
    }
    if ascending {
        join_components(&diff)
    } else {
        let mut r = "./".to_owned();
        let tail = join_components(&diff);
        r.append(tail.as_str());
        proof {
            reveal_strlit("./");
            assert(r@ =~= seq!['.', '/'] + join_path(str_views(diff@)));
        }
        r
    }
}

/// A package directory equal to the root maps to the self-reference marker.
pub proof fn lemma_source_dir_equal(root: Seq<Seq<char>>)
    ensures
        source_dir(root, root) == seq!['.', '/', '.'],
{
}

/// A package directory strictly below the root maps to its path from the
/// root behind the same-root marker `./`.
pub proof fn lemma_source_dir_subdir(root: Seq<Seq<char>>, dir: Seq<Seq<char>>)
    requires
        is_plain_path(dir),
        root.len() < dir.len(),
        dir.subrange(0, root.len() as int) == root,
    ensures
        source_dir(root, dir) == seq!['.', '/'] + join_path(
            dir.subrange(root.len() as int, dir.len() as int),
        ),
{
    lemma_common_prefix_of_prefix(dir, root);
    let diff = path_diff(dir, root);
    assert(diff =~= dir.subrange(root.len() as int, dir.len() as int));
    assert(dir != root);
    if diff.len() > 0 && diff[0] == up_marker() {
        assert(is_plain_component(dir[root.len() as int]));
        assert(false);
    }
}

/// A package directory outside the root's subtree maps to the unmodified
/// relative path, which begins with an ascent out of the root.
pub proof fn lemma_source_dir_outside(root: Seq<Seq<char>>, dir: Seq<Seq<char>>)
    requires
        is_plain_path(root),
        is_plain_path(dir),
        !(dir.len() >= root.len() && dir.subrange(0, root.len() as int) == root),
    ensures
        path_diff(dir, root)[0] == up_marker(),
        source_dir(root, dir) == join_path(path_diff(dir, root)),
        source_dir(root, dir).len() >= 2,
        source_dir(root, dir)[0] == '.',
        source_dir(root, dir)[1] == '.',
{
    let common = common_prefix_len(dir, root) as int;
    lemma_common_prefix_le(dir, root);
    lemma_common_prefix_agrees(dir, root);
    if common == root.len() {
        assert(dir.subrange(0, root.len() as int) =~= root);
        assert(false);
    }
    let diff = path_diff(dir, root);
    assert(diff.len() > 0);
    assert(diff[0] == up_marker());
    if dir == root {
        assert(dir.subrange(0, root.len() as int) =~= root);
        assert(false);
    }
    lemma_join_path_first(diff);
}

} // verus!
