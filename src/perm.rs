use vstd::prelude::*;

verus! {

/// Every value is an index below the length, and no value repeats: the
/// sequence is a permutation of `0..len`.
pub open spec fn is_permutation(s: Seq<usize>) -> bool {
    &&& forall|k: int| 0 <= k < s.len() ==> (#[trigger] s[k] as int) < s.len()
    &&& forall|a: int, b: int| 0 <= a < s.len() && 0 <= b < s.len() && a != b ==> #[trigger] s[a] != #[trigger] s[b]
}

/// `s` with the values at positions `i` and `j` exchanged.
pub open spec fn swapped(s: Seq<usize>, i: int, j: int) -> Seq<usize> {
    s.update(i, s[j]).update(j, s[i])
}

/// The state reached from `s` by applying the transpositions of `moves` in order.
pub open spec fn apply_moves(s: Seq<usize>, moves: Seq<(usize, usize)>) -> Seq<usize>
    decreases moves.len(),
{
    if moves.len() == 0 {
        s
    } else {
        apply_moves(swapped(s, moves[0].0 as int, moves[0].1 as int), moves.drop_first())
    }
}

/// Every move of `moves` names two positions of a sequence of length `n`.
pub open spec fn moves_in_range(moves: Seq<(usize, usize)>, n: nat) -> bool {
    forall|m: int| 0 <= m < moves.len() ==> (#[trigger] moves[m]).0 < n && moves[m].1 < n
}

/// A transposition of two positions keeps a permutation a permutation.
pub proof fn lemma_swap_keeps_permutation(s: Seq<usize>, i: int, j: int)
    requires
        is_permutation(s),
        0 <= i < s.len(),
        0 <= j < s.len(),
    ensures
        is_permutation(swapped(s, i, j)),
        swapped(s, i, j).len() == s.len(),
{
    let t = swapped(s, i, j);
    assert forall|k: int| 0 <= k < t.len() implies (#[trigger] t[k] as int) < t.len() by {
        if k == j {
        } else if k == i {
        } else {
            assert(t[k] == s[k]);
        }
    }
    assert forall|a: int, b: int| 0 <= a < t.len() && 0 <= b < t.len() && a != b implies #[trigger] t[a] != #[trigger] t[b] by {
        let sa = if a == j { i } else if a == i { j } else { a };
        let sb = if b == j { i } else if b == i { j } else { b };
        assert(t[a] == s[sa]);
        assert(t[b] == s[sb]);
        assert(sa != sb);
    }
}

/// Any sequence of in-range transpositions keeps a permutation a permutation.
pub proof fn lemma_moves_keep_permutation(s: Seq<usize>, moves: Seq<(usize, usize)>)
    requires
        is_permutation(s),
        moves_in_range(moves, s.len()),
    ensures
        is_permutation(apply_moves(s, moves)),
        apply_moves(s, moves).len() == s.len(),
    decreases moves.len(),
{
    if moves.len() > 0 {
        let m = moves[0];
        assert(m.0 < s.len() && m.1 < s.len());
        lemma_swap_keeps_permutation(s, m.0 as int, m.1 as int);
        let rest = moves.drop_first();
        assert forall|k: int| 0 <= k < rest.len() implies (#[trigger] rest[k]).0 < s.len() && rest[k].1 < s.len() by {
            assert(rest[k] == moves[k + 1]);
        }
        lemma_moves_keep_permutation(swapped(s, m.0 as int, m.1 as int), rest);
    }
}

/// The sequence `0, 1, ..., n - 1`.
pub open spec fn identity_seq(n: nat) -> Seq<usize> {
    Seq::new(n, |k: int| k as usize)
}

/// The canonical initial state `0, 1, ..., n - 1`.
pub fn identity_state(n: usize) -> (r: Vec<usize>)
    ensures
        r@ == identity_seq(n as nat),
        is_permutation(r@),
{
    let mut r: Vec<usize> = Vec::new();
    let mut k: usize = 0;
    while k < n
        invariant
            k <= n,
            r@.len() == k,
            forall|m: int| 0 <= m < k ==> #[trigger] r@[m] == m,
        decreases n - k,
    {
        r.push(k);
        k = k + 1;
    }
    assert(r@ =~= identity_seq(n as nat));
    r
}

/// Proposes a neighbouring state: the values at two distinct positions `i`
/// and `j` trade places, so a permutation of two or more values always
/// changes and stays a permutation. A state shorter than two has no
/// neighbour and comes back unchanged.
pub fn permute_state(state: Vec<usize>, i: usize, j: usize) -> (r: Vec<usize>)
    requires
        state.len() >= 2 ==> i < state.len() && j < state.len() && i != j,
    ensures
        state.len() < 2 ==> r@ == state@,
        state.len() >= 2 ==> r@ == swapped(state@, i as int, j as int),
        is_permutation(state@) ==> is_permutation(r@),
        is_permutation(state@) && state.len() >= 2 ==> r@ != state@,
{
    if state.len() < 2 {
        return state;
    }
    let mut r = state;
    let a = r[i];
    let b = r[j];
    r.set(i, b);
    r.set(j, a);
    proof {
        if is_permutation(state@) {
            lemma_swap_keeps_permutation(state@, i as int, j as int);
            assert(r@[i as int] != state@[i as int]);
        }
    }
    r
}

} // verus!
