//! The entries found in the input directory and the order in which they are
//! archived: sorted by archive name, compared byte by byte as `str` orders.
use vstd::prelude::*;
use vstd::seq_lib::lemma_multiset_commutative;
use vstd::multiset::Multiset;
use std::path::PathBuf;

verus! {

broadcast use vstd::seq_lib::group_to_multiset_ensures;

/// std's `PathBuf`, known to Verus only as an opaque value: an entry carries
/// its source path through sorting and partitioning, and nothing here reads it.
#[verifier::external_type_specification]
#[verifier::external_body]
pub struct ExPathBuf(PathBuf);

/// A file or directory to be put in the archive.
pub struct ArchiveEntry {
    /// Where the entry is read from.
    pub path: PathBuf,
    /// The entry's name inside the archive, with `/` between components.
    pub name: String,
    /// The file's length in bytes (zero for a directory).
    pub size: u64,
    /// Whether the entry is a directory.
    pub is_dir: bool,
}

/// Byte-wise lexicographic order, the order of `str` comparison: a proper
/// prefix comes first, otherwise the first differing byte decides.
pub open spec fn lex_le(a: Seq<u8>, b: Seq<u8>) -> bool
    decreases a.len(),
{
    if a.len() == 0 {
        true
    } else if b.len() == 0 {
        false
    } else if a[0] != b[0] {
        a[0] < b[0]
    } else {
        lex_le(a.drop_first(), b.drop_first())
    }
}

/// The UTF-8 bytes of an entry's archive name.
pub open spec fn name_bytes(e: ArchiveEntry) -> Seq<u8> {
    vstd::utf8::encode_utf8(e.name@)
}

/// Entry `x` comes no later than entry `y` when ordered by name.
pub open spec fn name_le(x: ArchiveEntry, y: ArchiveEntry) -> bool {
    lex_le(name_bytes(x), name_bytes(y))
}

/// Entries in ascending order of name.
pub open spec fn sorted_by_name(s: Seq<ArchiveEntry>) -> bool {
    forall|i: int, j: int| 0 <= i < j < s.len() ==> #[trigger] name_le(s[i], s[j])
}

/// Entries in descending order of name.
pub open spec fn descending_by_name(s: Seq<ArchiveEntry>) -> bool {
    forall|i: int, j: int| 0 <= i < j < s.len() ==> #[trigger] name_le(s[j], s[i])
}

/// Any two byte strings are ordered one way or the other.
pub proof fn lemma_lex_total(a: Seq<u8>, b: Seq<u8>)
    ensures
        lex_le(a, b) || lex_le(b, a),
    decreases a.len(),
{
    if a.len() > 0 && b.len() > 0 && a[0] == b[0] {
        lemma_lex_total(a.drop_first(), b.drop_first());
    }
}

/// The byte-wise order is transitive.
pub proof fn lemma_lex_transitive(a: Seq<u8>, b: Seq<u8>, c: Seq<u8>)
    requires
        lex_le(a, b),
        lex_le(b, c),
    ensures
        lex_le(a, c),
    decreases a.len(),
{
    if a.len() > 0 && a[0] == b[0] && b[0] == c[0] {
        lemma_lex_transitive(a.drop_first(), b.drop_first(), c.drop_first());
    }
}

/// Every byte string comes no later than itself.
pub proof fn lemma_lex_reflexive(a: Seq<u8>)
    ensures
        lex_le(a, a),
    decreases a.len(),
{
    if a.len() > 0 {
        lemma_lex_reflexive(a.drop_first());
    }
}

/// Two byte strings that each come no later than the other are equal.
pub proof fn lemma_lex_antisymmetric(a: Seq<u8>, b: Seq<u8>)
    requires
        lex_le(a, b),
        lex_le(b, a),
    ensures
        a == b,
    decreases a.len(),
{
    if a.len() > 0 {
        lemma_lex_antisymmetric(a.drop_first(), b.drop_first());
        assert(a =~= seq![a[0]] + a.drop_first());
        assert(b =~= seq![b[0]] + b.drop_first());
    } else {
        assert(b.len() == 0);
        assert(a =~= b);
    }
}

/// The byte order is decided by the first differing byte, compared as a raw
/// value: when `a` and `b` agree before index `i` and differ at `i`, `a`
/// comes no later than `b` exactly when `a[i] < b[i]`.
pub proof fn lemma_lex_first_difference(a: Seq<u8>, b: Seq<u8>, i: int)
    requires
        0 <= i < a.len(),
        i < b.len(),
        forall|j: int| 0 <= j < i ==> a[j] == b[j],
        a[i] != b[i],
    ensures
        lex_le(a, b) == (a[i] < b[i]),
    decreases i,
{
    if i > 0 {
        assert(a[0] == b[0]);
        lemma_lex_first_difference(a.drop_first(), b.drop_first(), i - 1);
    }
}

/// A prefix comes first: when `a` is a prefix of `b`, `a` comes no later
/// than `b`; when `b` is a proper prefix of `a`, `a` comes after `b`.
pub proof fn lemma_lex_prefix(a: Seq<u8>, b: Seq<u8>)
    ensures
        a.len() <= b.len() && (forall|j: int| 0 <= j < a.len() ==> a[j] == b[j]) ==> lex_le(a, b),
        b.len() < a.len() && (forall|j: int| 0 <= j < b.len() ==> a[j] == b[j]) ==> !lex_le(a, b),
    decreases a.len(),
{
    if a.len() > 0 && b.len() > 0 && a[0] == b[0] {
        let a1 = a.drop_first();
        let b1 = b.drop_first();
        if a.len() <= b.len() && (forall|j: int| 0 <= j < a.len() ==> a[j] == b[j]) {
            assert forall|j: int| 0 <= j < a1.len() implies a1[j] == b1[j] by {
                assert(a[j + 1] == b[j + 1]);
            }
        }
        if b.len() < a.len() && (forall|j: int| 0 <= j < b.len() ==> a[j] == b[j]) {
            assert forall|j: int| 0 <= j < b1.len() implies a1[j] == b1[j] by {
                assert(a[j + 1] == b[j + 1]);
            }
        }
        lemma_lex_prefix(a1, b1);
    }
}

/// No two entries share a name.
pub open spec fn distinct_names(s: Seq<ArchiveEntry>) -> bool {
    forall|i: int, j: int|
        0 <= i < s.len() && 0 <= j < s.len() && i != j ==> name_bytes(s[i]) != name_bytes(s[j])
}

/// The sorted order is unique: two name-sorted lists of the same entries,
/// whose names are distinct, are the same list. So the archive's entry list
/// does not depend on the order in which the scan reported the entries.
pub proof fn lemma_sorted_order_is_unique(a: Seq<ArchiveEntry>, b: Seq<ArchiveEntry>)
    requires
        sorted_by_name(a),
        sorted_by_name(b),
        a.to_multiset() == b.to_multiset(),
        distinct_names(a),
    ensures
        a == b,
    decreases a.len(),
{
    broadcast use vstd::multiset::group_multiset_axioms;

    if a.len() == 0 {
        assert(b.to_multiset().len() == 0);
        assert(b =~= a);
    } else {
        assert(a.to_multiset().len() == a.len());
        assert(b.to_multiset().len() == b.len());
        assert(b.len() == a.len());
        let x = a.last();
        let y = b.last();
        assert(a =~= a.drop_last().push(x));
        assert(b =~= b.drop_last().push(y));
        // x occurs in b, so it comes no later than b's last entry.
        assert(b.to_multiset().count(x) > 0);
        assert(b.contains(x));
        let j = choose|j: int| 0 <= j < b.len() && b[j] == x;
        if j < b.len() - 1 {
            assert(name_le(b[j], b[b.len() - 1]));
        } else {
            lemma_lex_reflexive(name_bytes(x));
        }
        // y occurs in a, so it comes no later than a's last entry.
        assert(a.to_multiset().count(y) > 0);
        assert(a.contains(y));
        let k = choose|k: int| 0 <= k < a.len() && a[k] == y;
        if k < a.len() - 1 {
            assert(name_le(a[k], a[a.len() - 1]));
        } else {
            lemma_lex_reflexive(name_bytes(y));
        }
        lemma_lex_antisymmetric(name_bytes(x), name_bytes(y));
        assert(k == a.len() - 1);
        assert(x == y);
        assert(a.drop_last().to_multiset() =~= a.to_multiset().remove(x));
        assert(b.drop_last().to_multiset() =~= b.to_multiset().remove(x));
        lemma_sorted_order_is_unique(a.drop_last(), b.drop_last());
    }
}

/// Compares two byte strings in the order of `lex_le`.
pub fn bytes_le(a: &[u8], b: &[u8]) -> (r: bool)
    ensures
        r == lex_le(a@, b@),
{
    let mut i: usize = 0;
    assert(a@.skip(0) =~= a@);
    assert(b@.skip(0) =~= b@);
    while i < a.len() && i < b.len() && a[i] == b[i]
        invariant
            i <= a@.len(),
            i <= b@.len(),
            lex_le(a@, b@) == lex_le(a@.skip(i as int), b@.skip(i as int)),
        decreases a@.len() - i,
    {
        assert(a@.skip(i as int).drop_first() =~= a@.skip(i + 1));
        assert(b@.skip(i as int).drop_first() =~= b@.skip(i + 1));
        i = i + 1;
    }
    if i == a.len() {
        true
    } else if i == b.len() {
        false
    } else {
        a[i] < b[i]
    }
}

/// Whether entry `x` comes no later than entry `y` when ordered by name.
pub fn entry_name_le(x: &ArchiveEntry, y: &ArchiveEntry) -> (r: bool)
    ensures
        r == name_le(*x, *y),
{
    bytes_le(x.name.as_str().as_bytes(), y.name.as_str().as_bytes())
}

/// One step of merging from the back: the last entry of the sorted list
/// `from`, when it is no smaller than the last entry of the sorted list
/// `other`, is no smaller than anything left in either list and no larger than
/// anything already moved to the descending list `moved`; so moving it keeps
/// every ordering fact of the merge.
proof fn lemma_move_largest(from: Seq<ArchiveEntry>, other: Seq<ArchiveEntry>, moved: Seq<ArchiveEntry>)
    requires
        from.len() > 0,
        sorted_by_name(from),
        sorted_by_name(other),
        descending_by_name(moved),
        forall|i: int, k: int|
            0 <= i < moved.len() && 0 <= k < from.len() ==> #[trigger] name_le(from[k], moved[i]),
        forall|i: int, k: int|
            0 <= i < moved.len() && 0 <= k < other.len() ==> #[trigger] name_le(other[k], moved[i]),
        other.len() > 0 ==> name_le(other.last(), from.last()),
    ensures
        sorted_by_name(from.drop_last()),
        descending_by_name(moved.push(from.last())),
        forall|i: int, k: int|
            0 <= i < moved.len() + 1 && 0 <= k < from.len() - 1 ==> #[trigger] name_le(
                from.drop_last()[k],
                moved.push(from.last())[i],
            ),
        forall|i: int, k: int|
            0 <= i < moved.len() + 1 && 0 <= k < other.len() ==> #[trigger] name_le(
                other[k],
                moved.push(from.last())[i],
            ),
{
    let x = from.last();
    let rest = from.drop_last();
    let moved2 = moved.push(x);
    assert forall|k: int| 0 <= k < rest.len() implies #[trigger] name_le(rest[k], x) by {
        assert(name_le(from[k], from[from.len() - 1]));
    }
    assert forall|k: int| 0 <= k < other.len() implies #[trigger] name_le(other[k], x) by {
        if k < other.len() - 1 {
            assert(name_le(other[k], other[other.len() - 1]));
        } else {
            lemma_lex_reflexive(name_bytes(other[k]));
        }
        lemma_lex_transitive(name_bytes(other[k]), name_bytes(other[other.len() - 1]), name_bytes(x));
    }
    assert forall|i: int, j: int| 0 <= i < rest.len() && 0 <= j < rest.len() && i < j implies #[trigger] name_le(
        rest[i],
        rest[j],
    ) by {
        assert(name_le(from[i], from[j]));
    }
    assert forall|i: int, j: int| 0 <= i < j < moved2.len() implies #[trigger] name_le(
        moved2[j],
        moved2[i],
    ) by {
        if j == moved2.len() - 1 {
            assert(name_le(from[from.len() - 1], moved[i]));
        } else {
            assert(name_le(moved[j], moved[i]));
        }
    }
    assert forall|i: int, k: int|
        0 <= i < moved.len() + 1 && 0 <= k < from.len() - 1 implies #[trigger] name_le(
        rest[k],
        moved2[i],
    ) by {
        if i == moved.len() {
            assert(name_le(rest[k], x));
        } else {
            assert(name_le(from[k], moved[i]));
        }
    }
    assert forall|i: int, k: int|
        0 <= i < moved.len() + 1 && 0 <= k < other.len() implies #[trigger] name_le(
        other[k],
        moved2[i],
    ) by {
        if i == moved.len() {
            assert(name_le(other[k], x));
        } else {
            assert(name_le(other[k], moved[i]));
        }
    }
}

/// Merges two name-sorted lists into one.
fn merge_by_name(left: Vec<ArchiveEntry>, right: Vec<ArchiveEntry>) -> (r: Vec<ArchiveEntry>)
    requires
        sorted_by_name(left@),
        sorted_by_name(right@),
    ensures
        r@.to_multiset() == left@.to_multiset().add(right@.to_multiset()),
        sorted_by_name(r@),
{
    let ghost total = left@.to_multiset().add(right@.to_multiset());
    let mut a = left;
    let mut b = right;
    // Largest first: repeatedly move the larger of the two last entries.
    let mut rev: Vec<ArchiveEntry> = Vec::new();
    while a.len() > 0 || b.len() > 0
        invariant
            sorted_by_name(a@),
            sorted_by_name(b@),
            descending_by_name(rev@),
            forall|i: int, k: int|
                0 <= i < rev@.len() && 0 <= k < a@.len() ==> #[trigger] name_le(a@[k], rev@[i]),
            forall|i: int, k: int|
                0 <= i < rev@.len() && 0 <= k < b@.len() ==> #[trigger] name_le(b@[k], rev@[i]),
            rev@.to_multiset().add(a@.to_multiset()).add(b@.to_multiset()) == total,
        decreases a@.len() + b@.len(),
    {
        let take_left = if a.len() == 0 {
            false
        } else if b.len() == 0 {
            true
        } else {
            !entry_name_le(&a[a.len() - 1], &b[b.len() - 1])
        };
        let ghost old_a = a@;
        let ghost old_b = b@;
        let ghost old_rev = rev@;
        if take_left {
            let x = a.pop().unwrap();
            proof {
                assert(a@ =~= old_a.drop_last());
                if old_b.len() > 0 {
                    lemma_lex_total(name_bytes(old_a.last()), name_bytes(old_b.last()));
                }
                lemma_move_largest(old_a, old_b, old_rev);
                assert(old_a =~= a@.push(x));
            }
            rev.push(x);
        } else {
            let x = b.pop().unwrap();
            proof {
                assert(b@ =~= old_b.drop_last());
                lemma_move_largest(old_b, old_a, old_rev);
                assert(old_b =~= b@.push(x));
            }
            rev.push(x);
        }
        assert(rev@.to_multiset().add(a@.to_multiset()).add(b@.to_multiset()) =~= total);
    }
    // Smallest first: reverse by popping.
    let mut out: Vec<ArchiveEntry> = Vec::new();
    while rev.len() > 0
        invariant
            descending_by_name(rev@),
            sorted_by_name(out@),
            forall|i: int, j: int|
                0 <= i < out@.len() && 0 <= j < rev@.len() ==> #[trigger] name_le(
                    out@[i],
                    rev@[j],
                ),
            out@.to_multiset().add(rev@.to_multiset()) == total,
        decreases rev@.len(),
    {
        let ghost old_rev = rev@;
        let ghost old_out = out@;
        let x = rev.pop().unwrap();
        proof {
            assert(old_rev =~= rev@.push(x));
        }
        out.push(x);
        proof {
            assert forall|i: int, j: int| 0 <= i < j < out@.len() implies #[trigger] name_le(
                out@[i],
                out@[j],
            ) by {
                if j == out@.len() - 1 {
                    assert(name_le(old_out[i], old_rev[old_rev.len() - 1]));
                } else {
                    assert(name_le(old_out[i], old_out[j]));
                }
            }
            assert forall|i: int, j: int|
                0 <= i < out@.len() && 0 <= j < rev@.len() implies #[trigger] name_le(
                out@[i],
                rev@[j],
            ) by {
                if i == out@.len() - 1 {
                    assert(name_le(old_rev[old_rev.len() - 1], old_rev[j]));
                } else {
                    assert(name_le(old_out[i], old_rev[j]));
                }
            }
            assert(out@.to_multiset().add(rev@.to_multiset()) =~= total);
        }
    }
    assert(rev@.to_multiset() =~= Multiset::empty());
    assert(out@.to_multiset() =~= total);
    out
}

/// Sorts entries by archive name, as the archive lists them: the result holds
/// exactly the given entries, in ascending byte-wise order of name.
pub fn sort_by_name(entries: Vec<ArchiveEntry>) -> (r: Vec<ArchiveEntry>)
    ensures
        r@.to_multiset() == entries@.to_multiset(),
        sorted_by_name(r@),
    decreases entries@.len(),
{
    let mut left = entries;
    let n = left.len();
    if n <= 1 {
        return left;
    }
    let right = left.split_off(n / 2);
    proof {
        assert(entries@ =~= left@ + right@);
        lemma_multiset_commutative(left@, right@);
    }
    let sorted_left = sort_by_name(left);
    let sorted_right = sort_by_name(right);
    merge_by_name(sorted_left, sorted_right)
}

} // verus!
