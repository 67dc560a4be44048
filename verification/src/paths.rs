//! Paths found while scanning, modelled as lists of components, and the names
//! their entries get inside the archive.
use vstd::prelude::*;

verus! {

/// std's `String::push`, whose documentation says that it appends the given
/// character to the end of the string: the contract claims exactly that the
/// string's characters afterwards are the old ones followed by `ch`.
pub assume_specification[ String::push ](string: &mut String, ch: char)
    ensures
        final(string)@ == old(string)@.push(ch),
;

/// The characters of each component.
pub open spec fn parts(p: Seq<String>) -> Seq<Seq<char>> {
    p.map_values(|c: String| c@)
}

/// `base` is a leading run of the components of `path` (as `Path::strip_prefix`
/// requires).
pub open spec fn has_prefix(path: Seq<Seq<char>>, base: Seq<Seq<char>>) -> bool {
    base.len() <= path.len() && forall|i: int| 0 <= i < base.len() ==> path[i] == base[i]
}

/// `path` lies inside a `.git` directory below `base`: some component after
/// `base` is `.git`.
pub open spec fn in_git_dir(path: Seq<Seq<char>>, base: Seq<Seq<char>>) -> bool {
    has_prefix(path, base) && exists|k: int| base.len() <= k < path.len() && path[k] == ".git"@
}

/// The path is skipped by the scan: the scanned directory itself, or anything
/// inside a `.git` directory.
pub open spec fn walk_excluded(path: Seq<Seq<char>>, base: Seq<Seq<char>>) -> bool {
    path == base || in_git_dir(path, base)
}

/// A character as written in archive names: both `\` and the platform's
/// separator become `/`.
pub open spec fn portable_char(c: char, separator: char) -> char {
    if c == '\\' || c == separator {
        '/'
    } else {
        c
    }
}

/// A component as written in archive names.
pub open spec fn portable_component(c: Seq<char>, separator: char) -> Seq<char> {
    c.map_values(|ch: char| portable_char(ch, separator))
}

/// Components joined by `/`, each written as in archive names.
pub open spec fn joined_name(p: Seq<Seq<char>>, separator: char) -> Seq<char>
    decreases p.len(),
{
    if p.len() == 0 {
        seq![]
    } else if p.len() == 1 {
        portable_component(p[0], separator)
    } else {
        joined_name(p.drop_last(), separator) + seq!['/'] + portable_component(p.last(), separator)
    }
}

/// The archive name of `path` relative to `base`, if `base` is a prefix of it.
pub open spec fn relative_name(path: Seq<Seq<char>>, base: Seq<Seq<char>>, separator: char) -> Option<
    Seq<char>,
> {
    if has_prefix(path, base) {
        Some(joined_name(path.subrange(base.len() as int, path.len() as int), separator))
    } else {
        None
    }
}

/// Archive names never hold a backslash, nor the platform's separator unless
/// that is `/`: readers on every platform see the same folders.
pub proof fn lemma_archive_names_are_portable(p: Seq<Seq<char>>, separator: char)
    ensures
        forall|k: int|
            0 <= k < joined_name(p, separator).len() ==> #[trigger] joined_name(p, separator)[k]
                != '\\' && (joined_name(p, separator)[k] == separator ==> separator == '/'),
    decreases p.len(),
{
    if p.len() > 1 {
        lemma_archive_names_are_portable(p.drop_last(), separator);
        let front = joined_name(p.drop_last(), separator);
        let back = portable_component(p.last(), separator);
        assert forall|k: int| 0 <= k < joined_name(p, separator).len() implies #[trigger] joined_name(
            p,
            separator,
        )[k] != '\\' && (joined_name(p, separator)[k] == separator ==> separator == '/') by {
            if k < front.len() {
                assert(joined_name(p, separator)[k] == front[k]);
            } else if k == front.len() {
                assert(joined_name(p, separator)[k] == '/');
            } else {
                assert(joined_name(p, separator)[k] == back[k - front.len() - 1]);
            }
        }
    }
}

/// The `.git` directory is always excluded: whatever lies at or below a `.git`
/// component under the scanned directory is skipped by the scan, whatever the
/// ignore rules say.
pub proof fn lemma_git_directory_always_excluded(base: Seq<Seq<char>>, rel: Seq<Seq<char>>, k: int)
    requires
        0 <= k < rel.len(),
        rel[k] == ".git"@,
    ensures
        walk_excluded(base + rel, base),
{
    let path = base + rel;
    assert(path[base.len() + k] == rel[k]);
    assert(has_prefix(path, base));
}

/// Writing a component for the archive changes only `\\` and the separator,
/// each into `/`, and keeps every other character in its place.
pub proof fn lemma_portable_component_changes_only_separators(c: Seq<char>, separator: char)
    ensures
        portable_component(c, separator).len() == c.len(),
        forall|i: int|
            0 <= i < c.len() ==> #[trigger] portable_component(c, separator)[i] == if c[i] == '\\'
                || c[i] == separator {
                '/'
            } else {
                c[i]
            },
        joined_name(seq![c], separator) == portable_component(c, separator),
{
}

/// The scan skips exactly the scanned directory and what lies at or below a
/// component `.git` under it: a path below `base` none of whose components
/// after `base` is exactly `.git` (such as a `.gitignore` file) is kept.
pub proof fn lemma_walk_excludes_only_root_and_git(path: Seq<Seq<char>>, base: Seq<Seq<char>>)
    ensures
        walk_excluded(path, base) ==> path == base || (base.len() <= path.len() && (forall|i: int|
            0 <= i < base.len() ==> path[i] == base[i]) && exists|k: int|
            base.len() <= k < path.len() && path[k] == ".git"@),
        path == base ==> walk_excluded(path, base),
        base.len() <= path.len() && (forall|i: int| 0 <= i < base.len() ==> path[i] == base[i])
            && (exists|k: int| base.len() <= k < path.len() && path[k] == ".git"@) ==> walk_excluded(
            path,
            base,
        ),
        base.len() < path.len() && (forall|k: int| base.len() <= k < path.len() ==> path[k]
            != ".git"@) ==> !walk_excluded(path, base),
{
}

fn parts_have_prefix(path: &[String], base: &[String]) -> (r: bool)
    ensures
        r == has_prefix(parts(path@), parts(base@)),
{
    if base.len() > path.len() {
        return false;
    }
    let mut i: usize = 0;
    while i < base.len()
        invariant
            base@.len() <= path@.len(),
            i <= base@.len(),
            forall|j: int| 0 <= j < i ==> path@[j]@ == base@[j]@,
        decreases base@.len() - i,
    {
        if path[i] != base[i] {
            assert(parts(path@)[i as int] != parts(base@)[i as int]);
            return false;
        }
        i = i + 1;
    }
    true
}

/// Whether `path` is inside a `.git` directory below `base`.
pub fn is_git_path(path: &[String], base: &[String]) -> (r: bool)
    ensures
        r == in_git_dir(parts(path@), parts(base@)),
{
    if !parts_have_prefix(path, base) {
        return false;
    }
    let git = String::from_str(".git");
    let mut k = base.len();
    while k < path.len()
        invariant
            base@.len() <= k <= path@.len(),
            git@ == ".git"@,
            has_prefix(parts(path@), parts(base@)),
            forall|j: int| base@.len() <= j < k ==> path@[j]@ != ".git"@,
        decreases path@.len() - k,
    {
        if path[k] == git {
            assert(parts(path@)[k as int] == ".git"@);
            assert(parts(base@).len() <= k < parts(path@).len());
            return true;
        }
        k = k + 1;
    }
    proof {
        assert forall|j: int|
            parts(base@).len() <= j < parts(path@).len() implies parts(path@)[j] != ".git"@ by {
            assert(parts(path@)[j] == path@[j]@);
        }
    }
    false
}

/// Whether the scan skips `path`: it is the scanned directory `base` itself,
/// or lies inside a `.git` directory below it.
pub fn is_walk_excluded(path: &[String], base: &[String]) -> (r: bool)
    ensures
        r == walk_excluded(parts(path@), parts(base@)),
{
    if path.len() == base.len() && parts_have_prefix(path, base) {
        assert(parts(path@) =~= parts(base@));
        return true;
    }
    is_git_path(path, base)
}

fn push_portable(name: &mut String, component: &String, separator: char)
    ensures
        final(name)@ == old(name)@ + portable_component(component@, separator),
{
    let ghost start = name@;
    for ch in it: component.as_str().chars()
        invariant
            it.seq() == component@,
            name@ == start + portable_component(component@, separator).take(it.index()),
    {
        let c = if ch == '\\' || ch == separator {
            '/'
        } else {
            ch
        };
        proof {
            assert(portable_component(component@, separator).take(it.index() + 1) =~= portable_component(
                component@,
                separator,
            ).take(it.index()).push(c));
        }
        name.push(c);
    }
    assert(portable_component(component@, separator).take(component@.len() as int) =~= portable_component(
        component@,
        separator,
    ));
}

/// The name under which `path` is stored in the archive: its components after
/// `base`, joined by `/`, with `\` and `separator` inside components also
/// written as `/`. `None` when `path` does not lie under `base`.
pub fn archive_name(path: &[String], base: &[String], separator: char) -> (r: Option<String>)
    ensures
        match relative_name(parts(path@), parts(base@), separator) {
            Some(n) => r matches Some(s) && s@ == n,
            None => r is None,
        },
{
    if !parts_have_prefix(path, base) {
        return None;
    }
    let ghost rel = parts(path@).subrange(base@.len() as int, path@.len() as int);
    let mut name = String::new();
    let mut k = base.len();
    while k < path.len()
        invariant
            base@.len() <= k <= path@.len(),
            rel == parts(path@).subrange(base@.len() as int, path@.len() as int),
            name@ == joined_name(rel.take(k - base@.len()), separator),
        decreases path@.len() - k,
    {
        let ghost before = name@;
        let ghost done = rel.take(k - base@.len());
        let ghost next = rel.take(k + 1 - base@.len());
        assert(next.drop_last() =~= done);
        assert(next.last() == path@[k as int]@);
        if k > base.len() {
            name.push('/');
        } else {
            assert(done.len() == 0);
            assert(before =~= seq![]);
        }
        push_portable(&mut name, &path[k], separator);
        assert(name@ =~= joined_name(next, separator));
        k = k + 1;
    }
    assert(rel.take(path@.len() - base@.len()) =~= rel);
    Some(name)
}

} // verus!
