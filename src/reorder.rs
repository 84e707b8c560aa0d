use vstd::prelude::*;

verus! {

/// Where an element at position `i` ends up when the element at `from` is
/// taken out of the list and put back at `to`.
pub open spec fn moved_index(i: int, from: int, to: int) -> int {
    if i == from {
        to
    } else if from < to && from < i && i <= to {
        i - 1
    } else if to < from && to <= i && i < from {
        i + 1
    } else {
        i
    }
}

/// Where an element at position `i` ends up when the element at `removed`
/// is taken out of the list; `None` for the removed element itself.
pub open spec fn removed_index(i: int, removed: int) -> Option<int> {
    if i == removed {
        None
    } else if i > removed {
        Some(i - 1)
    } else {
        Some(i)
    }
}

/// The list after the element at `from` is moved to position `to`.
pub open spec fn moved_seq<A>(s: Seq<A>, from: int, to: int) -> Seq<A> {
    s.remove(from).insert(to, s[from])
}

/// Remaps a position after the element at `from` was moved to `to`.
pub fn remap_after_move(idx: usize, from: usize, to: usize) -> (r: usize)
    ensures
        r == moved_index(idx as int, from as int, to as int),
{
    if idx == from {
        to
    } else if from < to && from < idx && idx <= to {
        idx - 1
    } else if to < from && to <= idx && idx < from {
        idx + 1
    } else {
        idx
    }
}

/// Remaps a position after the element at `removed` was taken out.
pub fn remap_after_remove(idx: usize, removed: usize) -> (r: Option<usize>)
    ensures
        r matches Some(j) ==> removed_index(idx as int, removed as int) == Some(j as int),
        r is None <==> removed_index(idx as int, removed as int) is None,
{
    if idx == removed {
        None
    } else if idx > removed {
        Some(idx - 1)
    } else {
        Some(idx)
    }
}

/// A reference to the moved element resolves to the destination; references
/// strictly between source and destination shift by one against the move;
/// all others stay where they are.
pub proof fn lemma_move_remaps_references(from: int, to: int, i: int)
    requires
        from != to,
    ensures
        moved_index(from, from, to) == to,
        from < to && from < i <= to ==> moved_index(i, from, to) == i - 1,
        to < from && to <= i < from ==> moved_index(i, from, to) == i + 1,
        i != from && !(from < to && from < i <= to) && !(to < from && to <= i < from)
            ==> moved_index(i, from, to) == i,
{
}

/// A remapped position still names the same element in the reordered list.
pub proof fn lemma_move_keeps_identity<A>(s: Seq<A>, from: int, to: int, i: int)
    requires
        0 <= from < s.len(),
        0 <= to < s.len(),
        0 <= i < s.len(),
    ensures
        0 <= moved_index(i, from, to) < s.len(),
        moved_seq(s, from, to).len() == s.len(),
        moved_seq(s, from, to)[moved_index(i, from, to)] == s[i],
{
}

/// A remapped position still names the same element after a removal.
pub proof fn lemma_remove_keeps_identity<A>(s: Seq<A>, removed: int, i: int)
    requires
        0 <= removed < s.len(),
        0 <= i < s.len(),
        i != removed,
    ensures
        removed_index(i, removed) matches Some(j) && 0 <= j < s.len() - 1 && s.remove(removed)[j]
            == s[i],
{
}

/// Each position of the reordered list holds the element that the reverse
/// move maps there.
pub proof fn lemma_moved_seq_index<A>(s: Seq<A>, from: int, to: int, j: int)
    requires
        0 <= from < s.len(),
        0 <= to < s.len(),
        0 <= j < s.len(),
    ensures
        0 <= moved_index(j, to, from) < s.len(),
        moved_seq(s, from, to)[j] == s[moved_index(j, to, from)],
        moved_index(moved_index(j, to, from), from, to) == j,
{
}

} // verus!
