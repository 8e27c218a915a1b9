//! The source walker: given a directory tree as plain data, it lists the
//! paths of the files whose name carries the wanted extension, pruning
//! every directory whose name equals the excluded one.

use vstd::prelude::*;

verus! {

use crate::text::ends_with;
use crate::text::ends_with_spec;
use crate::text::push_char;
use crate::text::str_eq;
use vstd::string::StringExecFns;

/// One node of a directory tree: a file, or a directory with its entries
/// in the order the reader produced them. Names are single path
/// components.
pub enum FsTree {
    File { name: String },
    Dir { name: String, entries: Vec<FsTree> },
}

/// `s` holds no path separator.
pub open spec fn no_slash(s: Seq<char>) -> bool {
    forall|i: int| 0 <= i < s.len() ==> s[i] != '/'
}

/// Every name in the tree is a single path component.
pub open spec fn wf_tree(t: FsTree) -> bool
    decreases t,
{
    match t {
        FsTree::File { name } => no_slash(name@),
        FsTree::Dir { name, entries } => no_slash(name@) && forall|i: int|
            0 <= i < entries@.len() ==> wf_tree(#[trigger] entries@[i]),
    }
}

/// `prefix`, a separator, and `name`.
pub open spec fn path_join(prefix: Seq<char>, name: Seq<char>) -> Seq<char> {
    prefix + seq!['/'] + name
}

/// The paths below `t` that the walk keeps: files whose name ends with
/// `ext`, outside every directory named `excl`.
pub open spec fn files_of(prefix: Seq<char>, t: FsTree, ext: Seq<char>, excl: Seq<char>) -> Seq<
    Seq<char>,
>
    decreases t, 1int,
{
    match t {
        FsTree::File { name } => if ends_with_spec(name@, ext) {
            seq![path_join(prefix, name@)]
        } else {
            Seq::empty()
        },
        FsTree::Dir { name, entries } => if name@ == excl {
            Seq::empty()
        } else {
            files_of_entries(path_join(prefix, name@), entries@, ext, excl)
        },
    }
}

/// The walk's result over a sequence of sibling entries, in order.
pub open spec fn files_of_entries(
    prefix: Seq<char>,
    es: Seq<FsTree>,
    ext: Seq<char>,
    excl: Seq<char>,
) -> Seq<Seq<char>>
    decreases es, 0int, es.len(),
{
    if es.len() == 0 {
        Seq::empty()
    } else {
        files_of(prefix, es[0], ext, excl) + files_of_entries(prefix, es.skip(1), ext, excl)
    }
}

/// A directory component equal to `name` stands in `p` at index `i`: a
/// separator, the characters of `name`, and another separator.
pub open spec fn dir_component_at(p: Seq<char>, name: Seq<char>, i: int) -> bool {
    0 <= i && i + name.len() + 2 <= p.len() && p[i] == '/' && p[i + name.len() + 1] == '/'
        && p.subrange(i + 1, i + 1 + name.len() as int) == name
}

/// Some directory component of `p` beginning at or after index `from`
/// equals `name`.
pub open spec fn has_dir_component_from(p: Seq<char>, name: Seq<char>, from: int) -> bool {
    exists|i: int| from <= i && #[trigger] dir_component_at(p, name, i)
}

/// Law: a path the walk keeps under `t` extends `prefix` with a
/// separator, and beyond `prefix` it passes through no directory named
/// `excl`, at any depth.
pub proof fn lemma_walk_skips_excluded(
    prefix: Seq<char>,
    t: FsTree,
    ext: Seq<char>,
    excl: Seq<char>,
    p: Seq<char>,
)
    requires
        wf_tree(t),
        no_slash(excl),
        files_of(prefix, t, ext, excl).contains(p),
    ensures
        p.len() >= prefix.len() + 1,
        p.subrange(0, prefix.len() as int) == prefix,
        p[prefix.len() as int] == '/',
        !has_dir_component_from(p, excl, prefix.len() as int),
    decreases t, 1int,
{
    let plen = prefix.len() as int;
    match t {
        FsTree::File { name } => {
            let k = choose|k: int|
                0 <= k < files_of(prefix, t, ext, excl).len() && files_of(
                    prefix,
                    t,
                    ext,
                    excl,
                )[k] == p;
            assert(p == path_join(prefix, name@));
            assert(p.subrange(0, plen) =~= prefix);
            assert(p[plen] == '/');
            if has_dir_component_from(p, excl, plen) {
                let i = choose|i: int| plen <= i && #[trigger] dir_component_at(p, excl, i);
                if i > plen {
                    assert(p[i] == name@[i - plen - 1]);
                } else {
                    let k2 = i + excl.len() + 1;
                    assert(p[k2] == name@[k2 - plen - 1]);
                }
                assert(false);
            }
        },
        FsTree::Dir { name, entries } => {
            if name@ == excl {
                assert(false);
            }
            let prefix2 = path_join(prefix, name@);
            let p2len = prefix2.len() as int;
            assert(p2len == plen + 1 + name@.len());
            lemma_walk_skips_excluded_entries(prefix2, entries@, ext, excl, p);
            assert forall|j: int| 0 <= j < p2len implies p[j] == prefix2[j] by {
                assert(p.subrange(0, p2len)[j] == prefix2[j]);
            }
            assert(p.subrange(0, plen) =~= prefix);
            assert(p[plen] == prefix2[plen]);
            assert(prefix2[plen] == '/');
            if has_dir_component_from(p, excl, plen) {
                let i = choose|i: int| plen <= i && #[trigger] dir_component_at(p, excl, i);
                let ll = excl.len() as int;
                if i >= p2len {
                    assert(has_dir_component_from(p, excl, p2len));
                    assert(false);
                } else if i > plen {
                    assert(p[i] == prefix2[i]);
                    assert(prefix2[i] == name@[i - plen - 1]);
                    assert(false);
                } else {
                    assert(i == plen);
                    if ll == name@.len() {
                        assert forall|j: int| 0 <= j < ll implies name@[j] == excl[j] by {
                            assert(p.subrange(i + 1, i + 1 + ll)[j] == excl[j]);
                            assert(p[i + 1 + j] == prefix2[i + 1 + j]);
                            assert(prefix2[plen + 1 + j] == name@[j]);
                        }
                        assert(name@ =~= excl);
                        assert(false);
                    } else if ll < name@.len() {
                        assert(p[i + ll + 1] == prefix2[i + ll + 1]);
                        assert(prefix2[plen + 1 + ll] == name@[ll]);
                        assert(false);
                    } else {
                        let m = name@.len() as int;
                        assert(p.subrange(i + 1, i + 1 + ll)[m] == excl[m]);
                        assert(p[i + 1 + m] == p[p2len]);
                        assert(p[p2len] == '/');
                        assert(excl[m] == '/');
                        assert(false);
                    }
                }
            }
        },
    }
}

/// Law: the same, for the walk over a sequence of sibling entries.
pub proof fn lemma_walk_skips_excluded_entries(
    prefix: Seq<char>,
    es: Seq<FsTree>,
    ext: Seq<char>,
    excl: Seq<char>,
    p: Seq<char>,
)
    requires
        forall|i: int| 0 <= i < es.len() ==> wf_tree(#[trigger] es[i]),
        no_slash(excl),
        files_of_entries(prefix, es, ext, excl).contains(p),
    ensures
        p.len() >= prefix.len() + 1,
        p.subrange(0, prefix.len() as int) == prefix,
        p[prefix.len() as int] == '/',
        !has_dir_component_from(p, excl, prefix.len() as int),
    decreases es, 0int, es.len(),
{
    assert(es.len() > 0);
    let head = files_of(prefix, es[0], ext, excl);
    let rest = files_of_entries(prefix, es.skip(1), ext, excl);
    let r = files_of_entries(prefix, es, ext, excl);
    assert(r == head + rest);
    let k = choose|k: int| 0 <= k < r.len() && r[k] == p;
    if k < head.len() {
        assert(head[k] == p);
        assert(head.contains(p));
        lemma_walk_skips_excluded(prefix, es[0], ext, excl, p);
    } else {
        assert(rest[k - head.len()] == p);
        assert(rest.contains(p));
        assert forall|i: int| 0 <= i < es.skip(1).len() implies wf_tree(#[trigger] es.skip(1)[i]) by {
            assert(es.skip(1)[i] == es[i + 1]);
        }
        lemma_walk_skips_excluded_entries(prefix, es.skip(1), ext, excl, p);
    }
}

/// `es.push(e)` walks to the walk of `es` followed by the walk of `e`.
proof fn lemma_files_of_entries_snoc(
    prefix: Seq<char>,
    es: Seq<FsTree>,
    e: FsTree,
    ext: Seq<char>,
    excl: Seq<char>,
)
    ensures
        files_of_entries(prefix, es.push(e), ext, excl) == files_of_entries(prefix, es, ext, excl)
            + files_of(prefix, e, ext, excl),
    decreases es.len(),
{
    reveal_with_fuel(files_of_entries, 3);
    if es.len() == 0 {
        assert(es.push(e)[0] == e);
        assert(es.push(e).skip(1) =~= Seq::<FsTree>::empty());
        assert(files_of_entries(prefix, es.push(e), ext, excl) =~= files_of_entries(
            prefix,
            es,
            ext,
            excl,
        ) + files_of(prefix, e, ext, excl));
    } else {
        assert(es.push(e)[0] == es[0]);
        assert(es.push(e).skip(1) =~= es.skip(1).push(e));
        lemma_files_of_entries_snoc(prefix, es.skip(1), e, ext, excl);
        assert(files_of_entries(prefix, es.push(e), ext, excl) =~= files_of_entries(
            prefix,
            es,
            ext,
            excl,
        ) + files_of(prefix, e, ext, excl));
    }
}

/// Appends to `out` the kept paths below `t`, with `prefix` as the path
/// of the directory that holds `t`.
fn walk_into(prefix: &String, t: &FsTree, ext: &str, excl: &str, out: &mut Vec<String>)
    ensures
        final(out).deep_view() == old(out).deep_view() + files_of(prefix@, *t, ext@, excl@),
    decreases *t,
{
    let ghost base = out.deep_view();
    match t {
        FsTree::File { name } => {
            if ends_with(name.as_str(), ext) {
                let mut p = prefix.clone();
                push_char(&mut p, '/');
                p.append(name.as_str());
                proof {
                    assert(p@ =~= path_join(prefix@, name@));
                }
                out.push(p);
                proof {
                    assert(out.deep_view() =~= base + files_of(prefix@, *t, ext@, excl@));
                }
            } else {
                proof {
                    assert(out.deep_view() =~= base + files_of(prefix@, *t, ext@, excl@));
                }
            }
        },
        FsTree::Dir { name, entries } => {
            if str_eq(name.as_str(), excl) {
                proof {
                    assert(out.deep_view() =~= base + files_of(prefix@, *t, ext@, excl@));
                }
            } else {
                let mut p = prefix.clone();
                push_char(&mut p, '/');
                p.append(name.as_str());
                proof {
                    assert(p@ =~= path_join(prefix@, name@));
                }
                let mut j: usize = 0;
                while j < entries.len()
                    invariant
                        t is Dir,
                        t->Dir_entries == *entries,
                        p@ == path_join(prefix@, name@),
                        j <= entries@.len(),
                        out.deep_view() == base + files_of_entries(
                            p@,
                            entries@.take(j as int),
                            ext@,
                            excl@,
                        ),
                    decreases entries@.len() - j,
                {
                    proof {
                        broadcast use vstd::std_specs::vec::axiom_vec_index_decreases;

                        assert(t->Dir_entries == *entries);
                        assert(decreases_to!(*t => *entries));
                        assert(decreases_to!(*entries => entries[j as int]));
                        assert(decreases_to!(*t => entries[j as int]));
                    }
                    walk_into(&p, &entries[j], ext, excl, out);
                    proof {
                        assert(entries@.take(j + 1) =~= entries@.take(j as int).push(
                            entries@[j as int],
                        ));
                        lemma_files_of_entries_snoc(
                            p@,
                            entries@.take(j as int),
                            entries@[j as int],
                            ext@,
                            excl@,
                        );
                        assert(base + files_of_entries(p@, entries@.take(j as int), ext@, excl@)
                            + files_of(p@, entries@[j as int], ext@, excl@) =~= base
                            + files_of_entries(p@, entries@.take(j + 1), ext@, excl@));
                    }
                    j = j + 1;
                }
                proof {
                    assert(entries@.take(entries@.len() as int) =~= entries@);
                }
            }
        },
    }
}

/// Lists, in walk order, the path of every file below the root's entries
/// whose name ends with `ext`, never descending into a directory named
/// `excl`. `root` is the path of the directory whose entries are given.
pub fn list_files(root: &String, entries: &Vec<FsTree>, ext: &str, excl: &str) -> (r: Vec<String>)
    ensures
        r.deep_view() == files_of_entries(root@, entries@, ext@, excl@),
{
    let mut out: Vec<String> = Vec::new();
    proof {
        assert(out.deep_view() =~= Seq::<Seq<char>>::empty() + files_of_entries(
            root@,
            entries@.take(0),
            ext@,
            excl@,
        ));
    }
    let mut j: usize = 0;
    while j < entries.len()
        invariant
            j <= entries@.len(),
            out.deep_view() == Seq::<Seq<char>>::empty() + files_of_entries(
                root@,
                entries@.take(j as int),
                ext@,
                excl@,
            ),
        decreases entries@.len() - j,
    {
        walk_into(root, &entries[j], ext, excl, &mut out);
        proof {
            assert(entries@.take(j + 1) =~= entries@.take(j as int).push(entries@[j as int]));
            lemma_files_of_entries_snoc(
                root@,
                entries@.take(j as int),
                entries@[j as int],
                ext@,
                excl@,
            );
            assert(Seq::<Seq<char>>::empty() + files_of_entries(
                root@,
                entries@.take(j as int),
                ext@,
                excl@,
            ) + files_of(root@, entries@[j as int], ext@, excl@) =~= Seq::<Seq<char>>::empty()
                + files_of_entries(root@, entries@.take(j + 1), ext@, excl@));
        }
        j = j + 1;
    }
    proof {
        assert(entries@.take(entries@.len() as int) =~= entries@);
        assert(Seq::<Seq<char>>::empty() + files_of_entries(root@, entries@, ext@, excl@)
            =~= files_of_entries(root@, entries@, ext@, excl@));
    }
    out
}

} // verus!
