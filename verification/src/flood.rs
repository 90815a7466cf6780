use vstd::prelude::*;

use crate::grid::{
    adjacent_mine_count, is_adjacent, reveal_cell, GameState, RevealOutcome, Tiles,
};

verus! {

/// How many cells of the board are still covered.
pub open spec fn unclicked_count(b: Seq<Tiles>) -> nat
    decreases b.len(),
{
    if b.len() == 0 {
        0
    } else {
        unclicked_count(b.drop_last()) + (if b.last().clicked {
            0nat
        } else {
            1nat
        })
    }
}

/// Revealing one covered cell lowers the number of covered cells.
proof fn lemma_unclicked_count_update(b: Seq<Tiles>, i: int, t: Tiles)
    requires
        0 <= i < b.len(),
        !b[i].clicked,
        t.clicked,
    ensures
        unclicked_count(b.update(i, t)) < unclicked_count(b),
    decreases b.len(),
{
    let b2 = b.update(i, t);
    if i == b.len() - 1 {
        assert(b2.drop_last() =~= b.drop_last());
    } else {
        assert(b2.drop_last() =~= b.drop_last().update(i, t));
        assert(b2.last() == b.last());
        lemma_unclicked_count_update(b.drop_last(), i, t);
    }
}

/// How a cell may change while a reveal runs: everything is kept but the
/// clicked flag, and, for a mine hit, the marker's active flag; a cell that
/// was already revealed is kept whole.
pub open spec fn cell_reveal_frame(a: Tiles, b: Tiles) -> bool {
    &&& b.board_col == a.board_col
    &&& b.board_row == a.board_row
    &&& b.position == a.position
    &&& b.size == a.size
    &&& b.flagged == a.flagged
    &&& b.spec_has_mine() == a.spec_has_mine()
    &&& (a.clicked ==> b == a)
    &&& (a.mine is None ==> b.mine is None)
    &&& (a.mine matches Some(m) ==> b.mine matches Some(m2) && m2.spec_index() == m.spec_index())
}

/// Some entry of `st` is the board index `i`.
pub open spec fn stack_has(st: Seq<usize>, i: int) -> bool {
    exists|m: int| 0 <= m < st.len() && st[m] == i
}

/// Some reveal event of `events` is about the board index `i`.
pub open spec fn has_event_for(events: Seq<(usize, RevealOutcome)>, i: int) -> bool {
    exists|k: int| 0 <= k < events.len() && (#[trigger] events[k]).0 == i
}

/// Reveals the cell at `start`; whenever a revealed cell reports zero
/// neighbor mines, all its not-yet-revealed neighbors are revealed in turn,
/// until the zero region and its border are open. Returns one event per
/// revealed cell, the directly clicked cell first. Each cell is revealed at
/// most once (the event indices are distinct), so the walk terminates.
/// Revealing an already-revealed cell is a no-op.
#[verifier::loop_isolation(false)]
#[verifier::rlimit(100)]
pub fn reveal_with_propagation(s: &mut GameState, start: usize) -> (events: Vec<
    (usize, RevealOutcome),
>)
    requires
        old(s).well_formed(),
        start < old(s).board@.len(),
    ensures
        final(s).well_formed(),
        final(s).width == old(s).width,
        final(s).length == old(s).length,
        final(s).board@.len() == old(s).board@.len(),
        // each cell is revealed at most once: the event indices are distinct
        forall|k1: int, k2: int|
            0 <= k1 < k2 < events@.len() ==> (#[trigger] events@[k1]).0 != (#[trigger] events@[k2]).0,
        // each event reveals a cell that was covered before the call and is open after it
        forall|k: int|
            0 <= k < events@.len() ==> (#[trigger] events@[k]).0 < old(s).board@.len() && !old(s).board@[events@[k].0 as int].clicked && final(s).board@[events@[k].0 as int].clicked,
        // exactly the cells of the events are newly open
        forall|i: int|
            0 <= i < old(s).board@.len() ==> (final(s).board@[i].clicked <==> (old(s).board@[i].clicked || has_event_for(events@, i))),
        // cells without an event are untouched
        forall|i: int|
            0 <= i < old(s).board@.len() && !has_event_for(events@, i) ==> final(s).board@[i]
                == old(s).board@[i],
        // no reveal moves a cell, flags it, or changes the mine placement
        forall|i: int|
            0 <= i < old(s).board@.len() ==> cell_reveal_frame(
                old(s).board@[i],
                final(s).board@[i],
            ),
        // revealing an already-revealed cell is a no-op
        old(s).board@[start as int].clicked ==> events@.len() == 0,
        !old(s).board@[start as int].clicked ==> events@.len() >= 1 && events@[0].0 == start,
        // only the directly clicked cell can hit a mine, and a mine hit ends the walk
        forall|k: int| 1 <= k < events@.len() ==> (#[trigger] events@[k]).1 is Revealed,
        (!old(s).board@[start as int].clicked && old(s).board@[start as int].spec_has_mine())
            ==> events@.len() == 1 && events@[0].1 is MineHit,
        events@.len() >= 1 ==> (events@[0].1 is MineHit <==> old(s).board@[start as int].spec_has_mine()),
        // an event hits a mine exactly when its cell holds one
        forall|k: int|
            0 <= k < events@.len() ==> ((#[trigger] events@[k]).1 is MineHit <==> old(s).board@[events@[k].0 as int].spec_has_mine()),
        // each reported count is the cell's neighbor mine count
        forall|k: int|
            0 <= k < events@.len() ==> ((#[trigger] events@[k]).1 matches
                RevealOutcome::Revealed(n) ==> n as int == adjacent_mine_count(
                *final(s),
                events@[k].0 as int / old(s).width as int,
                events@[k].0 as int % old(s).width as int,
            )),
        // mine markers are untouched everywhere but at a directly hit mine
        forall|i: int|
            0 <= i < old(s).board@.len() && i != start ==> final(s).board@[i].mine == old(s).board@[i].mine,
        !old(s).board@[start as int].spec_has_mine() ==> final(s).board@[start as int].mine
            == old(s).board@[start as int].mine,
        (events@.len() >= 1 && events@[0].1 is MineHit) ==> (final(s).board@[start as int].mine is Some && final(s).board@[start as int].mine->Some_0.spec_is_active() && old(s).board@[start as int].mine is Some && final(s).board@[start as int].mine->Some_0.spec_index() == old(s).board@[start as int].mine->Some_0.spec_index()),
        // a cell revealed with zero neighbor mines has every neighbor revealed
        forall|k: int, r: int, c: int|
            0 <= k < events@.len() && (#[trigger] events@[k]).1 == RevealOutcome::Revealed(0u8)
                && #[trigger] is_adjacent(
                old(s).width as int,
                old(s).length as int,
                events@[k].0 as int / old(s).width as int,
                events@[k].0 as int % old(s).width as int,
                r,
                c,
            ) ==> final(s).board@[r * old(s).width + c].clicked,
{
    let ghost b0 = old(s).board@;
    let ghost ww = old(s).width as int;
    let ghost ll = old(s).length as int;
    let mut events: Vec<(usize, RevealOutcome)> = Vec::new();
    if s.board[start].clicked {
        return events;
    }
    let ghost s_pre = *s;
    let first = reveal_cell(s, start);
    proof {
        crate::grid::lemma_same_mines_same_count(
            s_pre,
            *s,
            start as int / ww,
            start as int % ww,
        );
    }
    events.push((start, first));
    let ghost b1 = s.board@;
    let mut stack: Vec<usize> = Vec::new();
    let start_zero = matches!(first, RevealOutcome::Revealed(0u8));
    if start_zero {
        push_neighbors(s, &mut stack, start);
    }
    while stack.len() > 0
        invariant
            s.well_formed(),
            s.width == old(s).width,
            s.length == old(s).length,
            s.board@.len() == b0.len(),
            forall|i: int| 0 <= i < b0.len() ==> cell_reveal_frame(b0[i], s.board@[i]),
            forall|k1: int, k2: int|
                0 <= k1 < k2 < events@.len() ==> (#[trigger] events@[k1]).0 != (
                #[trigger] events@[k2]).0,
            forall|k: int|
                0 <= k < events@.len() ==> (#[trigger] events@[k]).0 < b0.len() && !b0[events@[k].0 as int].clicked && s.board@[events@[k].0 as int].clicked,
            forall|i: int|
                0 <= i < b0.len() ==> (s.board@[i].clicked <==> (b0[i].clicked || has_event_for(
                    events@,
                    i,
                ))),
            forall|i: int|
                0 <= i < b0.len() && !has_event_for(events@, i) ==> s.board@[i] == b0[i],
            forall|i: int| 0 <= i < b0.len() ==> (#[trigger] s.board@[i]).mine == b1[i].mine,
            events@.len() >= 1,
            events@[0].0 == start,
            events@[0].1 == first,
            forall|k: int|
                0 <= k < events@.len() ==> ((#[trigger] events@[k]).1 is MineHit <==> b0[
                    events@[k].0 as int].spec_has_mine()),
            forall|k: int| 1 <= k < events@.len() ==> (#[trigger] events@[k]).1 is Revealed,
            b0[start as int].spec_has_mine() ==> events@.len() == 1 && stack@.len() == 0,
            forall|k: int|
                0 <= k < events@.len() ==> ((#[trigger] events@[k]).1 matches
                    RevealOutcome::Revealed(n) ==> n as int == adjacent_mine_count(
                    *s,
                    events@[k].0 as int / ww,
                    events@[k].0 as int % ww,
                )),
            forall|m: int|
                0 <= m < stack@.len() ==> (#[trigger] stack@[m]) < b0.len() && !s.board@[stack@[m] as int].spec_has_mine(),
            forall|k: int, r: int, c: int|
                0 <= k < events@.len() && (#[trigger] events@[k]).1 == RevealOutcome::Revealed(
                    0u8,
                ) && #[trigger] is_adjacent(
                    ww,
                    ll,
                    events@[k].0 as int / ww,
                    events@[k].0 as int % ww,
                    r,
                    c,
                ) ==> (s.board@[r * ww + c].clicked || stack_has(stack@, r * ww + c)),
        decreases unclicked_count(s.board@), stack@.len(),
    {
        let ghost stack_pre = stack@;
        let idx = match stack.pop() {
            Some(i) => i,
            None => {
                proof {
                    // unreachable: the loop runs only on a non-empty stack
                    assert(false);
                }
                0
            },
        };
        let ghost stack_popped = stack@;
        if !s.board[idx].clicked {
            let ghost s_mid = *s;
            let ghost events_pre = events@;
            let out = reveal_cell(s, idx);
            proof {
                lemma_unclicked_count_update(
                    s_mid.board@,
                    idx as int,
                    s.board@[idx as int],
                );
                assert(s.board@ =~= s_mid.board@.update(idx as int, s.board@[idx as int]));
                assert forall|k: int|
                    0 <= k < events@.len() implies ((#[trigger] events@[k]).1 matches
                    RevealOutcome::Revealed(n) ==> n as int == adjacent_mine_count(
                    *s,
                    events@[k].0 as int / ww,
                    events@[k].0 as int % ww,
                )) by {
                    crate::grid::lemma_same_mines_same_count(
                        s_mid,
                        *s,
                        events@[k].0 as int / ww,
                        events@[k].0 as int % ww,
                    );
                }
                crate::grid::lemma_same_mines_same_count(
                    s_mid,
                    *s,
                    idx as int / ww,
                    idx as int % ww,
                );
            }
            events.push((idx, out));
            proof {
                assert(events@ == events_pre.push((idx, out)));
                assert(events@[events@.len() - 1] == (idx, out));
                assert forall|k: int|
                    0 <= k < events@.len() implies (#[trigger] events@[k]).0 < b0.len() && !b0[
                    events@[k].0 as int].clicked && s.board@[events@[k].0 as int].clicked by {
                    if k < events_pre.len() {
                        assert(events@[k] == events_pre[k]);
                        assert(s_mid.board@[events_pre[k].0 as int].clicked);
                    } else {
                        assert(events@[k] == (idx, out));
                    }
                }
                assert forall|i: int|
                    0 <= i < b0.len() implies (s.board@[i].clicked <==> (b0[i].clicked
                    || has_event_for(events@, i))) by {
                    if i == idx {
                        assert(events@[events@.len() - 1].0 == i);
                    } else {
                        assert(s.board@[i] == s_mid.board@[i]);
                        if has_event_for(events@, i) {
                            let k0 = choose|k: int|
                                0 <= k < events@.len() && (#[trigger] events@[k]).0 == i;
                            assert(k0 < events_pre.len());
                            assert(events_pre[k0] == events@[k0]);
                            assert(has_event_for(events_pre, i));
                        }
                        if has_event_for(events_pre, i) {
                            let k0 = choose|k: int|
                                0 <= k < events_pre.len() && (#[trigger] events_pre[k]).0 == i;
                            assert(events@[k0] == events_pre[k0]);
                            assert(has_event_for(events@, i));
                        }
                    }
                }
            }
            let push_zero = matches!(out, RevealOutcome::Revealed(0u8));
            if push_zero {
                push_neighbors(s, &mut stack, idx);
            }
            proof {
                assert forall|k: int, r: int, c: int|
                    0 <= k < events@.len() && (#[trigger] events@[k]).1
                        == RevealOutcome::Revealed(0u8) && #[trigger] is_adjacent(
                        ww,
                        ll,
                        events@[k].0 as int / ww,
                        events@[k].0 as int % ww,
                        r,
                        c,
                    ) implies (s.board@[r * ww + c].clicked || stack_has(
                    stack@,
                    r * ww + c,
                )) by {
                    assert(0 <= r * ww + c < b0.len()) by (nonlinear_arith)
                        requires
                            0 <= r < ll,
                            0 <= c < ww,
                            b0.len() == ww * ll,
                    ;
                    if k < events_pre.len() {
                        assert(events_pre[k] == events@[k]);
                        if !s_mid.board@[r * ww + c].clicked && !s.board@[r * ww + c].clicked {
                            let m0 = choose|m: int|
                                0 <= m < stack_pre.len() && stack_pre[m] == r * ww + c;
                            if m0 < stack_pre.len() - 1 {
                                assert(stack_popped[m0] == stack_pre[m0]);
                                assert(stack_has(stack_popped, r * ww + c));
                                assert(stack_has(stack@, r * ww + c));
                            } else {
                                assert(stack_pre[m0] == idx);
                            }
                        }
                    } else {
                        assert(events@[k] == (idx, out));
                        assert(is_adjacent(
                            s.width as int,
                            s.length as int,
                            idx as int / s.width as int,
                            idx as int % s.width as int,
                            r,
                            c,
                        ));
                        assert(stack_has(stack@, r * (s.width as int) + c));
                    }
                }
            }
        } else {
            proof {
                assert forall|k: int, r: int, c: int|
                    0 <= k < events@.len() && (#[trigger] events@[k]).1
                        == RevealOutcome::Revealed(0u8) && #[trigger] is_adjacent(
                        ww,
                        ll,
                        events@[k].0 as int / ww,
                        events@[k].0 as int % ww,
                        r,
                        c,
                    ) implies (s.board@[r * ww + c].clicked || stack_has(
                    stack@,
                    r * ww + c,
                )) by {
                    assert(0 <= r * ww + c < b0.len()) by (nonlinear_arith)
                        requires
                            0 <= r < ll,
                            0 <= c < ww,
                            b0.len() == ww * ll,
                    ;
                    if !s.board@[r * ww + c].clicked {
                        let m0 = choose|m: int|
                            0 <= m < stack_pre.len() && stack_pre[m] == r * ww + c;
                        if m0 < stack_pre.len() - 1 {
                            assert(stack@[m0] == stack_pre[m0]);
                            assert(stack_has(stack@, r * ww + c));
                        } else {
                            assert(stack_pre[m0] == idx);
                        }
                    }
                }
            }
        }
    }
    events
}

/// A reveal walk that opens each cell at most once cannot make more reveals
/// than the board has cells: distinct event indices below `n` bound the
/// number of events by `n`.
pub proof fn lemma_visit_count_bounded(events: Seq<(usize, RevealOutcome)>, n: int)
    requires
        0 <= n,
        forall|k1: int, k2: int|
            0 <= k1 < k2 < events.len() ==> (#[trigger] events[k1]).0 != (#[trigger] events[k2]).0,
        forall|k: int| 0 <= k < events.len() ==> (#[trigger] events[k]).0 < n,
    ensures
        events.len() <= n,
{
    let idxs = Seq::new(events.len(), |k: int| events[k].0 as int);
    assert(idxs.no_duplicates()) by {
        assert forall|i: int, j: int|
            0 <= i < idxs.len() && 0 <= j < idxs.len() && i != j implies idxs[i] != idxs[j] by {
            if i < j {
                assert(events[i].0 != events[j].0);
            } else {
                assert(events[j].0 != events[i].0);
            }
        }
    }
    idxs.unique_seq_to_set();
    assert(idxs.to_set().subset_of(vstd::set_lib::set_int_range(0, n))) by {
        assert forall|x: int|
            idxs.to_set().contains(x) implies vstd::set_lib::set_int_range(0, n).contains(x) by {
            let k0 = choose|k: int| 0 <= k < idxs.len() && idxs[k] == x;
            assert(events[k0].0 < n);
        }
    }
    vstd::set_lib::lemma_int_range(0, n);
    vstd::set_lib::lemma_len_subset(idxs.to_set(), vstd::set_lib::set_int_range(0, n));
}

/// Pushes every board index adjacent to `center` onto `stack`. The cell at
/// `center` must have no adjacent mine, so every pushed cell is mine-free.
#[verifier::loop_isolation(false)]
#[verifier::rlimit(60)]
fn push_neighbors(s: &GameState, stack: &mut Vec<usize>, center: usize)
    requires
        s.well_formed(),
        center < s.board@.len(),
        adjacent_mine_count(
            *s,
            center as int / s.width as int,
            center as int % s.width as int,
        ) == 0,
        forall|m: int|
            0 <= m < old(stack)@.len() ==> (#[trigger] old(stack)@[m]) < s.board@.len()
                && !s.board@[old(stack)@[m] as int].spec_has_mine(),
    ensures
        // the old stack entries are kept
        forall|i: int| #[trigger] stack_has(old(stack)@, i) ==> stack_has(final(stack)@, i),
        // every pushed entry is a mine-free board index
        forall|m: int|
            0 <= m < final(stack)@.len() ==> (#[trigger] final(stack)@[m]) < s.board@.len()
                && !s.board@[final(stack)@[m] as int].spec_has_mine(),
        // every neighbor of the center is on the stack now
        forall|r: int, c: int|
            #[trigger] is_adjacent(
                s.width as int,
                s.length as int,
                center as int / s.width as int,
                center as int % s.width as int,
                r,
                c,
            ) ==> stack_has(final(stack)@, r * s.width + c),
{
    let width = s.width;
    let row: u32 = (center / (width as usize)) as u32;
    let col: u32 = (center % (width as usize)) as u32;
    proof {
        vstd::arithmetic::div_mod::lemma_fundamental_div_mod(center as int, width as int);
        vstd::arithmetic::div_mod::lemma_multiply_divide_lt(
            center as int,
            width as int,
            s.length as int,
        );
    }
    let nbrs = crate::grid::neighbors(width, s.length, row, col);
    let mut q: usize = 0;
    while q < nbrs.len()
        invariant
            q <= nbrs.len(),
            forall|i: int| stack_has(old(stack)@, i) ==> stack_has(stack@, i),
            forall|m: int|
                0 <= m < stack@.len() ==> (#[trigger] stack@[m]) < s.board@.len() && !s.board@[
                    stack@[m] as int].spec_has_mine(),
            forall|k: int| 0 <= k < q ==> stack_has(stack@, (#[trigger] nbrs@[k]) as int),
        decreases nbrs@.len() - q,
    {
        let e = nbrs[q];
        proof {
            let r = e as int / s.width as int;
            let c = e as int % s.width as int;
            assert(is_adjacent(s.width as int, s.length as int, row as int, col as int, r, c));
            vstd::arithmetic::div_mod::lemma_fundamental_div_mod(e as int, s.width as int);
            // the center has no adjacent mine, so this neighbor is mine-free
            assert(crate::grid::mine_at(*s, r, c) == 0);
            assert(0 <= r * s.width + c < s.board@.len()) by (nonlinear_arith)
                requires
                    0 <= r < s.length,
                    0 <= c < s.width,
                    s.board@.len() == s.width * s.length,
                    1 <= s.width,
            ;
            assert(e as int == r * s.width + c) by (nonlinear_arith)
                requires
                    e as int == s.width * r + c,
            ;
            assert(!s.board@[e as int].spec_has_mine());
        }
        let ghost st_pre = stack@;
        stack.push(e);
        proof {
            assert forall|i: int| stack_has(st_pre, i) implies stack_has(stack@, i) by {
                let m0 = choose|m: int| 0 <= m < st_pre.len() && st_pre[m] == i;
                assert(stack@[m0] == i);
            }
            assert forall|i: int| stack_has(old(stack)@, i) implies stack_has(stack@, i) by {
                let m0 = choose|m: int| 0 <= m < old(stack)@.len() && old(stack)@[m] == i;
                assert(stack_has(st_pre, i));
            }
            assert(stack@[stack@.len() - 1] == e);
        }
        q = q + 1;
    }
    proof {
        assert forall|r: int, c: int|
            #[trigger] is_adjacent(
                s.width as int,
                s.length as int,
                center as int / s.width as int,
                center as int % s.width as int,
                r,
                c,
            ) implies stack_has(stack@, r * s.width + c) by {
            let k0 = choose|k: int|
                0 <= k < nbrs@.len() && (#[trigger] nbrs@[k]) as int == r * s.width + c;
            assert(stack_has(stack@, nbrs@[k0] as int));
        }
    }
}

} // verus!
