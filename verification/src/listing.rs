//! What a directory holds, put in the order in which it is worked through.

use crate::media::{is_supported_audio_path, is_supported_name};
use vstd::prelude::*;

verus! {

/// Whether `a` and `b` agree up to `k`, and `a` is the lesser one there: it ends at `k` where
/// `b` goes on, or has the lesser byte.
pub open spec fn lesser_at(a: Seq<u8>, b: Seq<u8>, k: int) -> bool {
    &&& 0 <= k <= a.len()
    &&& k < b.len()
    &&& forall|i: int| 0 <= i < k ==> #[trigger] a[i] == #[trigger] b[i]
    &&& k == a.len() || a[k] < b[k]
}

/// Whether `a` comes before `b` in lexicographic order.
pub open spec fn name_less(a: Seq<u8>, b: Seq<u8>) -> bool {
    exists|k: int| lesser_at(a, b, k)
}

/// Whether the name at position `a` goes before that at position `b`: by name, and among equal
/// names by position.
pub open spec fn goes_before(names: Seq<Seq<u8>>, a: int, b: int) -> bool {
    name_less(names[a], names[b]) || (names[a] == names[b] && a < b)
}

/// Whether the positions stand in the order of their names.
pub open spec fn is_ordered(names: Seq<Seq<u8>>, positions: Seq<usize>) -> bool {
    forall|i: int, j: int|
        0 <= i < j < positions.len() ==> goes_before(
            names,
            #[trigger] positions[i] as int,
            #[trigger] positions[j] as int,
        )
}

/// Whether `ordered` holds the positions that `chosen` picks among the names, each once, in the
/// order of their names.
pub open spec fn is_ordering(
    names: Seq<Seq<u8>>,
    chosen: spec_fn(int) -> bool,
    ordered: Seq<usize>,
) -> bool {
    &&& is_ordered(names, ordered)
    &&& forall|i: int|
        0 <= i < ordered.len() ==> (#[trigger] ordered[i]) < names.len() && chosen(
            ordered[i] as int,
        )
    &&& forall|p: usize| p < names.len() && chosen(p as int) ==> #[trigger] ordered.contains(p)
}

/// The chosen positions in the order of their names.
pub open spec fn order_of(names: Seq<Seq<u8>>, chosen: spec_fn(int) -> bool) -> Seq<usize> {
    choose|ordered: Seq<usize>| is_ordering(names, chosen, ordered)
}

/// A name does not come before itself.
proof fn name_less_irreflexive(a: Seq<u8>)
    ensures
        !name_less(a, a),
{
}

/// Of two names at most one comes before the other.
proof fn name_less_asymmetric(a: Seq<u8>, b: Seq<u8>)
    requires
        name_less(a, b),
    ensures
        !name_less(b, a),
{
    let k = choose|k: int| lesser_at(a, b, k);
    if name_less(b, a) {
        let m = choose|m: int| lesser_at(b, a, m);
        if m < k {
            assert(a[m] == b[m]);
        } else if k < m {
            assert(b[k] == a[k]);
        }
    }
}

/// The order of names is transitive.
proof fn name_less_transitive(a: Seq<u8>, b: Seq<u8>, c: Seq<u8>)
    requires
        name_less(a, b),
        name_less(b, c),
    ensures
        name_less(a, c),
{
    let k = choose|k: int| lesser_at(a, b, k);
    let m = choose|m: int| lesser_at(b, c, m);
    let n = if k <= m {
        k
    } else {
        m
    };
    assert forall|i: int| 0 <= i < n implies #[trigger] a[i] == #[trigger] c[i] by {
        assert(a[i] == b[i]);
        assert(b[i] == c[i]);
    }
    if k < m {
        assert(b[k] == c[k]);
    } else if m < k {
        assert(a[m] == b[m]);
    }
    assert(lesser_at(a, c, n));
}

/// The order of positions is transitive.
proof fn goes_before_transitive(names: Seq<Seq<u8>>, a: int, b: int, c: int)
    requires
        goes_before(names, a, b),
        goes_before(names, b, c),
    ensures
        goes_before(names, a, c),
{
    if name_less(names[a], names[b]) && name_less(names[b], names[c]) {
        name_less_transitive(names[a], names[b], names[c]);
    }
}

/// Of two positions at most one goes before the other.
proof fn goes_before_asymmetric(names: Seq<Seq<u8>>, a: int, b: int)
    requires
        goes_before(names, a, b),
    ensures
        !goes_before(names, b, a),
{
    if name_less(names[a], names[b]) {
        name_less_asymmetric(names[a], names[b]);
        name_less_irreflexive(names[a]);
    } else {
        name_less_irreflexive(names[a]);
    }
}

/// Of two different names one comes before the other.
proof fn name_less_total(a: Seq<u8>, b: Seq<u8>, k: int)
    requires
        0 <= k <= a.len(),
        k <= b.len(),
        forall|i: int| 0 <= i < k ==> #[trigger] a[i] == #[trigger] b[i],
        a != b,
    ensures
        name_less(a, b) || name_less(b, a),
    decreases a.len() - k,
{
    if k == a.len() && k == b.len() {
        assert(a =~= b);
    } else if k == a.len() || k == b.len() || a[k] != b[k] {
        assert(lesser_at(a, b, k) || lesser_at(b, a, k));
    } else {
        name_less_total(a, b, k + 1);
    }
}

/// Of two different positions one goes before the other.
proof fn goes_before_total(names: Seq<Seq<u8>>, a: int, b: int)
    requires
        a != b,
    ensures
        goes_before(names, a, b) || goes_before(names, b, a),
{
    if names[a] != names[b] {
        name_less_total(names[a], names[b], 0);
    }
}

/// The chosen names can be put in order.
pub proof fn ordering_exists(names: Seq<Seq<u8>>, chosen: spec_fn(int) -> bool)
    requires
        names.len() <= usize::MAX,
    ensures
        is_ordering(names, chosen, order_of(names, chosen)),
{
    let ordered = order_up_to(names, chosen, names.len() as int);
    assert(is_ordering(names, chosen, ordered));
}

/// Puts those of the first `n` names in order that are chosen.
proof fn order_up_to(names: Seq<Seq<u8>>, chosen: spec_fn(int) -> bool, n: int) -> (ordered: Seq<
    usize,
>)
    requires
        0 <= n <= names.len() <= usize::MAX,
    ensures
        is_ordered(names, ordered),
        forall|i: int|
            0 <= i < ordered.len() ==> (#[trigger] ordered[i]) < n && chosen(ordered[i] as int),
        forall|p: usize| p < n && chosen(p as int) ==> #[trigger] ordered.contains(p),
    decreases n,
{
    if n == 0 {
        seq![]
    } else {
        let before = order_up_to(names, chosen, n - 1);
        if !chosen(n - 1) {
            before
        } else {
            let next = (n - 1) as usize;
            let k = place_for(names, before, next, 0);
            let ordered = before.insert(k, next);
            assert forall|p: usize| p < n && chosen(p as int) implies #[trigger] ordered.contains(
                p,
            ) by {
                if p == next {
                    assert(ordered[k] == p);
                } else {
                    assert(before.contains(p));
                    let i = choose|i: int| 0 <= i < before.len() && before[i] == p;
                    if i < k {
                        assert(ordered[i] == p);
                    } else {
                        assert(ordered[i + 1] == p);
                    }
                }
            }
            ordered
        }
    }
}

/// Finds where a further position belongs in an ordered list, given that it belongs behind the
/// first `k` positions.
proof fn place_for(names: Seq<Seq<u8>>, ordered: Seq<usize>, next: usize, k: int) -> (place: int)
    requires
        is_ordered(names, ordered),
        0 <= k <= ordered.len(),
        forall|i: int| 0 <= i < ordered.len() ==> #[trigger] ordered[i] != next,
        forall|i: int|
            0 <= i < k ==> goes_before(names, #[trigger] ordered[i] as int, next as int),
    ensures
        k <= place <= ordered.len(),
        forall|i: int|
            0 <= i < place ==> goes_before(names, #[trigger] ordered[i] as int, next as int),
        forall|i: int|
            place <= i < ordered.len() ==> goes_before(
                names,
                next as int,
                #[trigger] ordered[i] as int,
            ),
    decreases ordered.len() - k,
{
    if k == ordered.len() {
        k
    } else {
        goes_before_total(names, ordered[k] as int, next as int);
        if goes_before(names, ordered[k] as int, next as int) {
            place_for(names, ordered, next, k + 1)
        } else {
            assert forall|i: int| k <= i < ordered.len() implies goes_before(
                names,
                next as int,
                #[trigger] ordered[i] as int,
            ) by {
                if i > k {
                    goes_before_transitive(
                        names,
                        next as int,
                        ordered[k] as int,
                        ordered[i] as int,
                    );
                }
            }
            k
        }
    }
}

/// There is only one way to put the chosen names in order.
pub proof fn ordering_is_unique(
    names: Seq<Seq<u8>>,
    chosen: spec_fn(int) -> bool,
    first: Seq<usize>,
    second: Seq<usize>,
)
    requires
        is_ordering(names, chosen, first),
        is_ordering(names, chosen, second),
    ensures
        first == second,
{
    same_members_same_order(names, first, second, 0);
    assert(first.skip(0) =~= first);
    assert(second.skip(0) =~= second);
}

/// Two ordered lists that hold the same positions and agree up to `k` agree from there on.
proof fn same_members_same_order(
    names: Seq<Seq<u8>>,
    first: Seq<usize>,
    second: Seq<usize>,
    k: int,
)
    requires
        0 <= k <= first.len(),
        k <= second.len(),
        is_ordered(names, first),
        is_ordered(names, second),
        forall|p: usize| #[trigger] first.contains(p) <==> second.contains(p),
        forall|i: int| 0 <= i < k ==> first[i] == second[i],
    ensures
        first.skip(k) == second.skip(k),
    decreases first.len() - k,
{
    if k < first.len() {
        assert(first.contains(first[k]));
        let j = choose|j: int| 0 <= j < second.len() && second[j] == first[k];
        if j < k {
            assert(first[j] == first[k]);
            goes_before_asymmetric(names, first[j] as int, first[k] as int);
        }
        if j > k {
            assert(second.contains(second[k]) && first.contains(second[k]));
            let i = choose|i: int| 0 <= i < first.len() && first[i] == second[k];
            if i < k {
                assert(second[i] == second[k]);
                goes_before_asymmetric(names, second[i] as int, second[k] as int);
            } else if i == k {
                goes_before_asymmetric(names, second[k] as int, second[j] as int);
            } else {
                assert(goes_before(names, first[k] as int, first[i] as int));
                assert(goes_before(names, second[k] as int, second[j] as int));
                goes_before_asymmetric(names, first[k] as int, first[i] as int);
            }
        }
        assert(first[k] == second[k]);
        same_members_same_order(names, first, second, k + 1);
        assert(first.skip(k) =~= seq![first[k]] + first.skip(k + 1));
        assert(second.skip(k) =~= seq![second[k]] + second.skip(k + 1));
    } else if k < second.len() {
        assert(second.contains(second[k]) && first.contains(second[k]));
        let i = choose|i: int| 0 <= i < first.len() && first[i] == second[k];
        assert(second[i] == second[k]);
        goes_before_asymmetric(names, second[i] as int, second[k] as int);
    } else {
        assert(first.skip(k) =~= second.skip(k));
    }
}

/// Whether name `a` comes before name `b`.
pub fn comes_before(a: &[u8], b: &[u8]) -> (r: bool)
    ensures
        r == name_less(a@, b@),
        !r && a@ != b@ ==> name_less(b@, a@),
{
    let mut i: usize = 0;
    while i < a.len() && i < b.len() && a[i] == b[i]
        invariant
            i <= a.len(),
            i <= b.len(),
            forall|j: int| 0 <= j < i ==> #[trigger] a@[j] == #[trigger] b@[j],
        decreases a.len() - i,
    {
        i = i + 1;
    }
    let r: bool = i < b.len() && (i == a.len() || a[i] < b[i]);
    proof {
        if r {
            assert(lesser_at(a@, b@, i as int));
        } else if i == a.len() && i == b.len() {
            assert(a@ =~= b@);
            name_less_irreflexive(a@);
        } else {
            assert(lesser_at(b@, a@, i as int));
            name_less_asymmetric(b@, a@);
        }
    }
    r
}

/// What kind of thing a directory entry is.
#[derive(Clone, Copy, PartialEq, Eq, Structural, Debug)]
pub enum EntryKind {
    Directory,
    File,
    /// Neither: a symbolic link, a socket and the like.
    Other,
}

/// An entry of a directory.
pub struct DirEntry {
    /// The number by which the caller finds the entry's path again.
    pub id: usize,
    /// The bytes of the file name.
    pub name: Vec<u8>,
    pub kind: EntryKind,
}

/// The names of the entries.
pub open spec fn names_of(entries: Seq<DirEntry>) -> Seq<Seq<u8>> {
    entries.map_values(|entry: DirEntry| entry.name@)
}

/// Merges two ordered lists of positions.
fn merge(entries: &Vec<DirEntry>, left: &Vec<usize>, right: &Vec<usize>) -> (merged: Vec<usize>)
    requires
        forall|i: int| 0 <= i < left.len() ==> #[trigger] left@[i] < entries.len(),
        forall|i: int| 0 <= i < right.len() ==> #[trigger] right@[i] < entries.len(),
        is_ordered(names_of(entries@), left@),
        is_ordered(names_of(entries@), right@),
        forall|i: int, j: int|
            0 <= i < left.len() && 0 <= j < right.len() ==> #[trigger] left@[i]
                < #[trigger] right@[j],
    ensures
        is_ordered(names_of(entries@), merged@),
        forall|p: usize| #[trigger]
            merged@.contains(p) <==> left@.contains(p) || right@.contains(p),
{
    let ghost all = names_of(entries@);
    let mut merged: Vec<usize> = Vec::new();
    let mut i: usize = 0;
    let mut j: usize = 0;
    while i < left.len() || j < right.len()
        invariant
            all == names_of(entries@),
            i <= left.len(),
            j <= right.len(),
            forall|i: int| 0 <= i < left.len() ==> #[trigger] left@[i] < entries.len(),
            forall|i: int| 0 <= i < right.len() ==> #[trigger] right@[i] < entries.len(),
            is_ordered(all, left@),
            is_ordered(all, right@),
            forall|i: int, j: int|
                0 <= i < left.len() && 0 <= j < right.len() ==> #[trigger] left@[i]
                    < #[trigger] right@[j],
            is_ordered(all, merged@),
            forall|m: int, k: int|
                0 <= m < merged.len() && i <= k < left.len() ==> goes_before(
                    all,
                    #[trigger] merged@[m] as int,
                    #[trigger] left@[k] as int,
                ),
            forall|m: int, k: int|
                0 <= m < merged.len() && j <= k < right.len() ==> goes_before(
                    all,
                    #[trigger] merged@[m] as int,
                    #[trigger] right@[k] as int,
                ),
            forall|m: int|
                0 <= m < merged.len() ==> left@.contains(#[trigger] merged@[m]) || right@.contains(
                    merged@[m],
                ),
            forall|k: int| 0 <= k < i ==> merged@.contains(#[trigger] left@[k]),
            forall|k: int| 0 <= k < j ==> merged@.contains(#[trigger] right@[k]),
        decreases left.len() - i + right.len() - j,
    {
        let take_right: bool = i == left.len() || (j < right.len() && comes_before(
            entries[right[j]].name.as_slice(),
            entries[left[i]].name.as_slice(),
        ));
        let ghost before = merged@;
        if take_right {
            let next: usize = right[j];
            proof {
                assert forall|k: int| i <= k < left.len() implies goes_before(
                    all,
                    next as int,
                    #[trigger] left@[k] as int,
                ) by {
                    if k > i {
                        goes_before_transitive(
                            all,
                            next as int,
                            left@[i as int] as int,
                            left@[k] as int,
                        );
                    }
                }
            }
            merged.push(next);
            j = j + 1;
            assert(merged@[before.len() as int] == next);
        } else {
            let next: usize = left[i];
            proof {
                assert forall|k: int| j <= k < right.len() implies goes_before(
                    all,
                    next as int,
                    #[trigger] right@[k] as int,
                ) by {
                    assert(goes_before(all, next as int, right@[j as int] as int));
                    if k > j {
                        goes_before_transitive(
                            all,
                            next as int,
                            right@[j as int] as int,
                            right@[k] as int,
                        );
                    }
                }
            }
            merged.push(next);
            i = i + 1;
            assert(merged@[before.len() as int] == next);
        }
        proof {
            assert forall|p: usize| before.contains(p) implies #[trigger] merged@.contains(p) by {
                let m = choose|m: int| 0 <= m < before.len() && before[m] == p;
                assert(merged@[m] == p);
            }
        }
    }
    proof {
        assert forall|p: usize| left@.contains(p) || right@.contains(p) implies #[trigger]
            merged@.contains(p) by {
            if left@.contains(p) {
                let k = choose|k: int| 0 <= k < left.len() && left@[k] == p;
                assert(merged@.contains(left@[k]));
            } else {
                let k = choose|k: int| 0 <= k < right.len() && right@[k] == p;
                assert(merged@.contains(right@[k]));
            }
        }
    }
    merged
}

/// Orders the positions from `from` to `to` of an increasing list of positions.
fn sort_range(entries: &Vec<DirEntry>, positions: &Vec<usize>, from: usize, to: usize) -> (ordered:
    Vec<usize>)
    requires
        from <= to <= positions.len(),
        forall|i: int| 0 <= i < positions.len() ==> #[trigger] positions@[i] < entries.len(),
        forall|i: int, j: int|
            0 <= i < j < positions.len() ==> #[trigger] positions@[i] < #[trigger] positions@[j],
    ensures
        is_ordered(names_of(entries@), ordered@),
        forall|p: usize| #[trigger]
            ordered@.contains(p) <==> positions@.subrange(from as int, to as int).contains(p),
    decreases to - from,
{
    let ghost part = positions@.subrange(from as int, to as int);
    if to - from == 0 {
        return Vec::new();
    }
    if to - from == 1 {
        let mut ordered: Vec<usize> = Vec::new();
        ordered.push(positions[from]);
        assert(ordered@ =~= part);
        return ordered;
    }
    let middle: usize = from + (to - from) / 2;
    let left: Vec<usize> = sort_range(entries, positions, from, middle);
    let right: Vec<usize> = sort_range(entries, positions, middle, to);
    let ghost first = positions@.subrange(from as int, middle as int);
    let ghost second = positions@.subrange(middle as int, to as int);
    proof {
        assert forall|i: int| 0 <= i < left.len() implies (exists|k: int|
            from <= k < middle && positions@[k] == #[trigger] left@[i]) by {
            assert(left@.contains(left@[i]));
            let k = choose|k: int| 0 <= k < first.len() && first[k] == left@[i];
            assert(positions@[from + k] == left@[i]);
        }
        assert forall|i: int| 0 <= i < right.len() implies (exists|k: int|
            middle <= k < to && positions@[k] == #[trigger] right@[i]) by {
            assert(right@.contains(right@[i]));
            let k = choose|k: int| 0 <= k < second.len() && second[k] == right@[i];
            assert(positions@[middle + k] == right@[i]);
        }
    }
    let ordered: Vec<usize> = merge(entries, &left, &right);
    proof {
        assert forall|p: usize| #[trigger] ordered@.contains(p) <==> part.contains(p) by {
            if first.contains(p) {
                let k = choose|k: int| 0 <= k < first.len() && first[k] == p;
                assert(part[k] == p);
            }
            if second.contains(p) {
                let k = choose|k: int| 0 <= k < second.len() && second[k] == p;
                assert(part[middle - from + k] == p);
            }
            if part.contains(p) {
                let k = choose|k: int| 0 <= k < part.len() && part[k] == p;
                if from + k < middle {
                    assert(first[k] == p);
                } else {
                    assert(second[k - (middle - from)] == p);
                }
            }
        }
    }
    ordered
}

/// Whether an entry is a subdirectory.
pub open spec fn is_subdirectory(entry: DirEntry) -> bool {
    entry.kind == EntryKind::Directory
}

/// Whether an entry is an audio file that is worked on.
pub open spec fn is_audio_file(entry: DirEntry) -> bool {
    entry.kind == EntryKind::File && is_supported_name(entry.name@)
}

/// The numbers of the chosen entries, in the order of their names.
pub open spec fn ids_by_name(entries: Seq<DirEntry>, chosen: spec_fn(DirEntry) -> bool) -> Seq<
    usize,
> {
    order_of(names_of(entries), |p: int| chosen(entries[p])).map_values(
        |p: usize| entries[p as int].id,
    )
}

/// What is to be done in a directory.
pub struct DirPlan {
    /// The audio files, by number, in file-name order.
    pub files: Vec<usize>,
    /// The subdirectories, by number, in file-name order.
    pub subdirs: Vec<usize>,
}

/// The numbers of the entries at the given positions, in file-name order.
fn ordered_ids(
    entries: &Vec<DirEntry>,
    positions: &Vec<usize>,
    Ghost(chosen): Ghost<spec_fn(DirEntry) -> bool>,
) -> (ids: Vec<usize>)
    requires
        forall|i: int|
            0 <= i < positions.len() ==> (#[trigger] positions@[i]) < entries.len() && chosen(
                entries@[positions@[i] as int],
            ),
        forall|i: int, j: int|
            0 <= i < j < positions.len() ==> #[trigger] positions@[i] < #[trigger] positions@[j],
        forall|p: usize|
            p < entries.len() && chosen(entries@[p as int]) ==> #[trigger] positions@.contains(p),
    ensures
        ids@ == ids_by_name(entries@, chosen),
{
    let ordered: Vec<usize> = sort_range(entries, positions, 0, positions.len());
    let ghost names = names_of(entries@);
    let ghost picked = |p: int| chosen(entries@[p]);
    proof {
        assert(positions@.subrange(0, positions.len() as int) =~= positions@);
        assert forall|i: int| 0 <= i < ordered.len() implies (#[trigger] ordered@[i]) < names.len()
            && picked(ordered@[i] as int) by {
            assert(ordered@.contains(ordered@[i]));
            assert(positions@.contains(ordered@[i]));
            let k = choose|k: int| 0 <= k < positions.len() && positions@[k] == ordered@[i];
            assert(positions@[k] < entries.len());
        }
        assert(is_ordering(names, picked, ordered@));
        ordering_is_unique(names, picked, ordered@, order_of(names, picked));
    }
    let mut ids: Vec<usize> = Vec::new();
    let mut i: usize = 0;
    while i < ordered.len()
        invariant
            i <= ordered.len(),
            ids.len() == i,
            names.len() == entries.len(),
            forall|i: int| 0 <= i < ordered.len() ==> #[trigger] ordered@[i] < names.len(),
            forall|j: int| 0 <= j < i ==> #[trigger] ids@[j] == entries@[ordered@[j] as int].id,
        decreases ordered.len() - i,
    {
        ids.push(entries[ordered[i]].id);
        i = i + 1;
    }
    assert(ids@ =~= ids_by_name(entries@, chosen));
    ids
}

/// Sorts out what is to be done in a directory: its audio files, then its subdirectories, both
/// in file-name order.
pub fn plan_directory(entries: &Vec<DirEntry>) -> (plan: DirPlan)
    ensures
        plan.files@ == ids_by_name(entries@, |entry: DirEntry| is_audio_file(entry)),
        plan.subdirs@ == ids_by_name(entries@, |entry: DirEntry| is_subdirectory(entry)),
{
    let ghost wanted = |entry: DirEntry| is_audio_file(entry);
    let ghost inner = |entry: DirEntry| is_subdirectory(entry);
    let mut files: Vec<usize> = Vec::new();
    let mut subdirs: Vec<usize> = Vec::new();
    let mut i: usize = 0;
    while i < entries.len()
        invariant
            i <= entries.len(),
            wanted == (|entry: DirEntry| is_audio_file(entry)),
            inner == (|entry: DirEntry| is_subdirectory(entry)),
            forall|k: int|
                0 <= k < files.len() ==> (#[trigger] files@[k]) < i && wanted(
                    entries@[files@[k] as int],
                ),
            forall|k: int|
                0 <= k < subdirs.len() ==> (#[trigger] subdirs@[k]) < i && inner(
                    entries@[subdirs@[k] as int],
                ),
            forall|k: int, m: int|
                0 <= k < m < files.len() ==> #[trigger] files@[k] < #[trigger] files@[m],
            forall|k: int, m: int|
                0 <= k < m < subdirs.len() ==> #[trigger] subdirs@[k] < #[trigger] subdirs@[m],
            forall|p: usize| p < i && wanted(entries@[p as int]) ==> #[trigger] files@.contains(p),
            forall|p: usize| p < i && inner(entries@[p as int]) ==> #[trigger] subdirs@.contains(p),
        decreases entries.len() - i,
    {
        let ghost files_before = files@;
        let ghost subdirs_before = subdirs@;
        let entry: &DirEntry = &entries[i];
        if entry.kind == EntryKind::Directory {
            subdirs.push(i);
            assert(subdirs@[subdirs_before.len() as int] == i);
        } else if entry.kind == EntryKind::File {
            if is_supported_audio_path(entry.name.as_slice()) {
                files.push(i);
                assert(files@[files_before.len() as int] == i);
            }
        }
        proof {
            assert forall|p: usize| files_before.contains(p) implies #[trigger] files@.contains(
                p,
            ) by {
                let k = choose|k: int| 0 <= k < files_before.len() && files_before[k] == p;
                assert(files@[k] == p);
            }
            assert forall|p: usize| subdirs_before.contains(p) implies #[trigger] subdirs@.contains(
                p,
            ) by {
                let k = choose|k: int| 0 <= k < subdirs_before.len() && subdirs_before[k] == p;
                assert(subdirs@[k] == p);
            }
        }
        i = i + 1;
    }
    DirPlan {
        files: ordered_ids(entries, &files, Ghost(wanted)),
        subdirs: ordered_ids(entries, &subdirs, Ghost(inner)),
    }
}

/// Whether no two entries have the same name.
pub open spec fn names_differ(entries: Seq<DirEntry>) -> bool {
    forall|i: int, j: int|
        0 <= i < j < entries.len() ==> (#[trigger] entries[i]).name@ != (
        #[trigger] entries[j]).name@
}

/// A position at which an entry stands.
spec fn position_of(entries: Seq<DirEntry>, entry: DirEntry) -> usize {
    choose|q: usize| q < entries.len() && entries[q as int] == entry
}

/// An entry that is listed has a position.
proof fn entry_has_a_position(entries: Seq<DirEntry>, entry: DirEntry)
    requires
        entries.len() <= usize::MAX,
        entries.contains(entry),
    ensures
        position_of(entries, entry) < entries.len(),
        entries[position_of(entries, entry) as int] == entry,
{
    let i = choose|i: int| 0 <= i < entries.len() && entries[i] == entry;
    let q = i as usize;
    assert(q < entries.len() && entries[q as int] == entry);
}

/// A directory is worked through in the same order however its entries are listed.
pub proof fn order_ignores_the_listing(
    first: Seq<DirEntry>,
    second: Seq<DirEntry>,
    chosen: spec_fn(DirEntry) -> bool,
)
    requires
        first.len() <= usize::MAX,
        second.len() <= usize::MAX,
        names_differ(first),
        names_differ(second),
        forall|entry: DirEntry| #[trigger] first.contains(entry) <==> second.contains(entry),
    ensures
        ids_by_name(first, chosen) == ids_by_name(second, chosen),
{
    let names_one = names_of(first);
    let names_two = names_of(second);
    let picked_one = |p: int| chosen(first[p]);
    let picked_two = |p: int| chosen(second[p]);
    ordering_exists(names_one, picked_one);
    ordering_exists(names_two, picked_two);
    let one = order_of(names_one, picked_one);
    let moved = one.map_values(|p: usize| position_of(second, first[p as int]));
    assert forall|p: int| 0 <= p < first.len() implies {
        let q = position_of(second, #[trigger] first[p]);
        q < second.len() && second[q as int] == first[p]
    } by {
        assert(first.contains(first[p]));
        entry_has_a_position(second, first[p]);
    }
    assert forall|i: int| 0 <= i < moved.len() implies (#[trigger] moved[i]) < names_two.len()
        && picked_two(moved[i] as int) && second[moved[i] as int] == first[one[i] as int] by {
        assert(one[i] < names_one.len() && picked_one(one[i] as int));
        let p = one[i] as int;
        assert(first[p] == first[one[i] as int]);
    }
    assert forall|i: int, j: int| 0 <= i < j < moved.len() implies goes_before(
        names_two,
        #[trigger] moved[i] as int,
        #[trigger] moved[j] as int,
    ) by {
        assert(goes_before(names_one, one[i] as int, one[j] as int));
        assert(first[one[i] as int].name@ == names_one[one[i] as int]);
        assert(first[one[j] as int].name@ == names_one[one[j] as int]);
        assert(names_two[moved[i] as int] == names_one[one[i] as int]);
        assert(names_two[moved[j] as int] == names_one[one[j] as int]);
    }
    assert forall|q: usize| q < names_two.len() && picked_two(q as int) implies
        #[trigger] moved.contains(q) by {
        assert(second.contains(second[q as int]));
        assert(first.contains(second[q as int]));
        let p = choose|p: int| 0 <= p < first.len() && first[p] == second[q as int];
        assert(picked_one(p));
        assert(one.contains(p as usize));
        let i = choose|i: int| 0 <= i < one.len() && one[i] == p as usize;
        assert(second[moved[i] as int] == second[q as int]);
        if moved[i] < q {
            assert(second[moved[i] as int].name@ != second[q as int].name@);
        } else if q < moved[i] {
            assert(second[q as int].name@ != second[moved[i] as int].name@);
        }
        assert(moved[i] == q);
    }
    assert(is_ordering(names_two, picked_two, moved));
    ordering_is_unique(names_two, picked_two, moved, order_of(names_two, picked_two));
    assert(ids_by_name(first, chosen) =~= ids_by_name(second, chosen));
}

/// Names are compared as a dictionary does: the first byte in which they differ decides.
pub proof fn first_difference_decides(
    front: Seq<u8>,
    x: u8,
    y: u8,
    first: Seq<u8>,
    second: Seq<u8>,
)
    requires
        x != y,
    ensures
        name_less(front + seq![x] + first, front + seq![y] + second) <==> x < y,
{
    let a = front + seq![x] + first;
    let b = front + seq![y] + second;
    let k = front.len() as int;
    assert(a[k] == x && b[k] == y);
    assert forall|i: int| 0 <= i < k implies #[trigger] a[i] == #[trigger] b[i] by {
        assert(a[i] == front[i] && b[i] == front[i]);
    }
    if x < y {
        assert(lesser_at(a, b, k));
    } else {
        assert(lesser_at(b, a, k));
        name_less_asymmetric(b, a);
    }
}

/// A name comes before those that it is the start of, and not before itself.
pub proof fn start_of_a_name_comes_first(front: Seq<u8>, rest: Seq<u8>)
    ensures
        name_less(front, front + rest) <==> rest.len() > 0,
        !name_less(front + rest, front),
{
    let all = front + rest;
    if rest.len() > 0 {
        assert(lesser_at(front, all, front.len() as int));
        name_less_asymmetric(front, all);
    } else {
        assert(all =~= front);
        name_less_irreflexive(front);
    }
}

/// The subdirectories of a plan are all entries that are directories, whatever their names, each
/// once and in the order of their names, and nothing else. The positions of these entries in the
/// listing are given back.
pub proof fn every_directory_is_planned(entries: Seq<DirEntry>) -> (positions: Seq<usize>)
    requires
        entries.len() <= usize::MAX,
    ensures
        ids_by_name(entries, |entry: DirEntry| is_subdirectory(entry)).len() == positions.len(),
        forall|k: int|
            0 <= k < positions.len() ==> {
                &&& (#[trigger] positions[k]) < entries.len()
                &&& entries[positions[k] as int].kind == EntryKind::Directory
                &&& ids_by_name(entries, |entry: DirEntry| is_subdirectory(entry))[k]
                    == entries[positions[k] as int].id
            },
        forall|i: int|
            0 <= i < entries.len() && (#[trigger] entries[i]).kind == EntryKind::Directory
                ==> positions.contains(i as usize) && ids_by_name(
                entries,
                |entry: DirEntry| is_subdirectory(entry),
            ).contains(entries[i].id),
        forall|k: int, m: int|
            0 <= k < m < positions.len() ==> {
                let a = #[trigger] positions[k];
                let b = #[trigger] positions[m];
                ||| name_less(entries[a as int].name@, entries[b as int].name@)
                ||| entries[a as int].name@ == entries[b as int].name@ && a < b
            },
{
    let chosen = |entry: DirEntry| is_subdirectory(entry);
    let positions = positions_by_name(entries, chosen);
    let ids = ids_by_name(entries, chosen);
    assert forall|i: int|
        0 <= i < entries.len() && (#[trigger] entries[i]).kind
            == EntryKind::Directory implies positions.contains(i as usize) && ids.contains(
        entries[i].id,
    ) by {
        assert(chosen(entries[i]));
        let k = choose|k: int| 0 <= k < positions.len() && positions[k] == i as usize;
        assert(ids[k] == entries[i].id);
    }
    assert forall|k: int| 0 <= k < positions.len() implies entries[(
    #[trigger] positions[k]) as int].kind == EntryKind::Directory by {
        assert(chosen(entries[positions[k] as int]));
    }
    positions
}

/// The files of a plan are all entries that are regular files with a supported name, each once
/// and in the order of their names, and nothing else. The positions of these entries in the
/// listing are given back.
pub proof fn every_audio_file_is_planned(entries: Seq<DirEntry>) -> (positions: Seq<usize>)
    requires
        entries.len() <= usize::MAX,
    ensures
        ids_by_name(entries, |entry: DirEntry| is_audio_file(entry)).len() == positions.len(),
        forall|k: int|
            0 <= k < positions.len() ==> {
                &&& (#[trigger] positions[k]) < entries.len()
                &&& entries[positions[k] as int].kind == EntryKind::File
                &&& is_supported_name(entries[positions[k] as int].name@)
                &&& ids_by_name(entries, |entry: DirEntry| is_audio_file(entry))[k]
                    == entries[positions[k] as int].id
            },
        forall|i: int|
            0 <= i < entries.len() && (#[trigger] entries[i]).kind == EntryKind::File
                && is_supported_name(entries[i].name@) ==> positions.contains(i as usize)
                && ids_by_name(entries, |entry: DirEntry| is_audio_file(entry)).contains(
                entries[i].id,
            ),
        forall|k: int, m: int|
            0 <= k < m < positions.len() ==> {
                let a = #[trigger] positions[k];
                let b = #[trigger] positions[m];
                ||| name_less(entries[a as int].name@, entries[b as int].name@)
                ||| entries[a as int].name@ == entries[b as int].name@ && a < b
            },
{
    let chosen = |entry: DirEntry| is_audio_file(entry);
    let positions = positions_by_name(entries, chosen);
    let ids = ids_by_name(entries, chosen);
    assert forall|i: int|
        0 <= i < entries.len() && (#[trigger] entries[i]).kind == EntryKind::File
            && is_supported_name(entries[i].name@) implies positions.contains(i as usize)
        && ids.contains(entries[i].id) by {
        assert(chosen(entries[i]));
        let k = choose|k: int| 0 <= k < positions.len() && positions[k] == i as usize;
        assert(ids[k] == entries[i].id);
    }
    assert forall|k: int| 0 <= k < positions.len() implies entries[(
    #[trigger] positions[k]) as int].kind == EntryKind::File && is_supported_name(
        entries[positions[k] as int].name@,
    ) by {
        assert(chosen(entries[positions[k] as int]));
    }
    positions
}

/// The positions of the chosen entries, in the order of their names.
proof fn positions_by_name(entries: Seq<DirEntry>, chosen: spec_fn(DirEntry) -> bool) -> (positions:
    Seq<usize>)
    requires
        entries.len() <= usize::MAX,
    ensures
        ids_by_name(entries, chosen).len() == positions.len(),
        forall|k: int|
            0 <= k < positions.len() ==> {
                &&& (#[trigger] positions[k]) < entries.len()
                &&& chosen(entries[positions[k] as int])
                &&& ids_by_name(entries, chosen)[k] == entries[positions[k] as int].id
            },
        forall|i: int|
            0 <= i < entries.len() && chosen(#[trigger] entries[i]) ==> positions.contains(
                i as usize,
            ),
        forall|k: int, m: int|
            0 <= k < m < positions.len() ==> {
                let a = #[trigger] positions[k];
                let b = #[trigger] positions[m];
                ||| name_less(entries[a as int].name@, entries[b as int].name@)
                ||| entries[a as int].name@ == entries[b as int].name@ && a < b
            },
{
    let names = names_of(entries);
    let picked = |p: int| chosen(entries[p]);
    ordering_exists(names, picked);
    let positions = order_of(names, picked);
    assert(is_ordering(names, picked, positions));
    assert forall|k: int| 0 <= k < positions.len() implies (#[trigger] positions[k])
        < entries.len() && chosen(entries[positions[k] as int]) by {
        assert(picked(positions[k] as int));
    }
    assert forall|i: int| 0 <= i < entries.len() && chosen(
        #[trigger] entries[i],
    ) implies positions.contains(i as usize) by {
        let p = i as usize;
        assert(picked(p as int));
    }
    assert forall|k: int, m: int| 0 <= k < m < positions.len() implies {
        let a = #[trigger] positions[k];
        let b = #[trigger] positions[m];
        ||| name_less(entries[a as int].name@, entries[b as int].name@)
        ||| entries[a as int].name@ == entries[b as int].name@ && a < b
    } by {
        assert(goes_before(names, positions[k] as int, positions[m] as int));
    }
    positions
}

} // verus!
