//! The laws of the movement engine, stated and proved once over the
//! mathematical model that every contract of this crate speaks.

use vstd::prelude::*;

use crate::entity_store::EntityRec;
use crate::entity_store::is_moveable_at;
use crate::entity_store::immoveable_at;
use crate::entity_store::moveable_at;
use crate::entity_store::unique_moveables;
use crate::entity_store::wf_rec;
use crate::input_system::cell_x;
use crate::input_system::cell_y;
use crate::input_system::chain_len;
use crate::input_system::chain_scan;
use crate::input_system::dist_to_edge;
use crate::input_system::entity_moves;
use crate::input_system::push_blocked;
use crate::input_system::push_result;
use crate::input_system::resolve_result;
use crate::input_system::step_pos;
use crate::input_system::step_rec;
use crate::input_system::tick_store_result;
use crate::resources::Direction;
use crate::resources::Key;

verus! {

/// The scan settles on `n` when the `n` cells from the start are
/// occupied by `Moveable` entities and the next cell is not.
proof fn lemma_chain_scan_value(
    s: Seq<EntityRec>,
    px: int,
    py: int,
    d: Direction,
    from: int,
    max: int,
    n: int,
)
    requires
        0 <= from <= n < max,
        forall|k: int|
            from <= k < n ==> #[trigger] moveable_at(s, cell_x(px, d, k), cell_y(py, d, k)),
        !moveable_at(s, cell_x(px, d, n), cell_y(py, d, n)),
    ensures
        chain_scan(s, px, py, d, from, max) == n,
    decreases n - from,
{
    if from < n {
        assert(moveable_at(s, cell_x(px, d, from), cell_y(py, d, from)));
        lemma_chain_scan_value(s, px, py, d, from + 1, max, n);
    }
}

/// Wall immutability: across any tick of movement resolution, no
/// `Wall` entity's position (nor its tag) changes — walls carry
/// `Immoveable` and never `Moveable`, and only `Moveable` entities are
/// ever shifted.
pub proof fn lemma_wall_immutability(s: Seq<EntityRec>, q: Seq<Key>, w: int, h: int)
    requires
        forall|i: int| 0 <= i < s.len() ==> wf_rec(#[trigger] s[i], w, h),
    ensures
        tick_store_result(s, q, w, h).len() == s.len(),
        forall|i: int|
            0 <= i < s.len() && (#[trigger] s[i]).wall is Some ==> tick_store_result(
                s,
                q,
                w,
                h,
            )[i].position == s[i].position && tick_store_result(s, q, w, h)[i].wall == s[i].wall,
{
    let s1 = tick_store_result(s, q, w, h);
    assert forall|i: int|
        0 <= i < s.len() && (#[trigger] s[i]).wall is Some implies s1[i].position == s[i].position
        && s1[i].wall == s[i].wall by {
        assert(wf_rec(s[i], w, h));
        assert(s[i].moveable is None);
        if s1 != s {
            let px = crate::input_system::player_x(s);
            let py = crate::input_system::player_y(s);
            match q.last() {
                Key::Directional(d) => {
                    if !push_blocked(s, px, py, d, w, h) {
                        let n = chain_len(s, px, py, d, w, h);
                        assert(s1[i] == push_result(s, px, py, d, n)[i]);
                        assert(!entity_moves(s[i], px, py, d, n));
                        assert(s1[i] == s[i]);
                    }
                },
                Key::Other => {},
            }
        }
    }
}

/// Blocked-chain no-op: when the scan from the start cell meets an
/// `Immoveable` entity on the cell right after the chain — before any
/// gap — nothing in the store moves at all.
pub proof fn lemma_blocked_chain_no_op(
    s: Seq<EntityRec>,
    px: int,
    py: int,
    d: Direction,
    n: int,
    w: int,
    h: int,
)
    requires
        0 <= n <= dist_to_edge(px, py, d, w, h),
        forall|k: int|
            0 <= k < n ==> #[trigger] moveable_at(s, cell_x(px, d, k), cell_y(py, d, k)),
        !moveable_at(s, cell_x(px, d, n), cell_y(py, d, n)),
        immoveable_at(s, cell_x(px, d, n), cell_y(py, d, n)),
    ensures
        resolve_result(s, px, py, d, w, h) == s,
{
    lemma_chain_scan_value(s, px, py, d, 0, dist_to_edge(px, py, d, w, h) + 1, n);
    assert(push_blocked(s, px, py, d, w, h));
}

/// Free-step: when the cell immediately ahead of the start cell is an
/// empty gap (no moveable, no blocker), exactly the one `Moveable`
/// entity on the start cell — in play, the player — moves, by exactly
/// one cell; every other entity is unchanged.
pub proof fn lemma_free_step(s: Seq<EntityRec>, px: int, py: int, d: Direction, w: int, h: int)
    requires
        forall|i: int| 0 <= i < s.len() ==> wf_rec(#[trigger] s[i], w, h),
        0 <= px < w <= 256,
        0 <= py < h <= 256,
        moveable_at(s, px, py),
        1 <= dist_to_edge(px, py, d, w, h),
        !moveable_at(s, cell_x(px, d, 1), cell_y(py, d, 1)),
        !immoveable_at(s, cell_x(px, d, 1), cell_y(py, d, 1)),
    ensures
        !push_blocked(s, px, py, d, w, h),
        resolve_result(s, px, py, d, w, h).len() == s.len(),
        forall|i: int|
            0 <= i < s.len() ==> resolve_result(s, px, py, d, w, h)[i] == (
            if is_moveable_at(#[trigger] s[i], px, py) {
                step_rec(s[i], d)
            } else {
                s[i]
            }),
{
    assert(moveable_at(s, cell_x(px, d, 0), cell_y(py, d, 0)));
    lemma_chain_scan_value(s, px, py, d, 0, dist_to_edge(px, py, d, w, h) + 1, 1);
    assert(chain_len(s, px, py, d, w, h) == 1);
    assert forall|i: int| 0 <= i < s.len() implies resolve_result(s, px, py, d, w, h)[i] == (
    if is_moveable_at(s[i], px, py) {
        step_rec(s[i], d)
    } else {
        s[i]
    }) by {
        assert(resolve_result(s, px, py, d, w, h)[i] == push_result(s, px, py, d, 1)[i]);
        assert(entity_moves(s[i], px, py, d, 1) == is_moveable_at(s[i], px, py));
    }
}

/// Chain push: a contiguous run of `n` `Moveable` entities from the
/// start cell outwards, followed by a gap with no `Immoveable` before
/// it, shifts as a whole by exactly one cell: every run entity moves
/// one unit along the direction, every other entity is unchanged, and
/// the run stays contiguous (each cell the run covered, shifted by
/// one, is covered again).
pub proof fn lemma_chain_push(
    s: Seq<EntityRec>,
    px: int,
    py: int,
    d: Direction,
    n: int,
    w: int,
    h: int,
)
    requires
        forall|i: int| 0 <= i < s.len() ==> wf_rec(#[trigger] s[i], w, h),
        unique_moveables(s),
        0 <= px < w <= 256,
        0 <= py < h <= 256,
        1 <= n <= dist_to_edge(px, py, d, w, h),
        forall|k: int|
            0 <= k < n ==> #[trigger] moveable_at(s, cell_x(px, d, k), cell_y(py, d, k)),
        !moveable_at(s, cell_x(px, d, n), cell_y(py, d, n)),
        !immoveable_at(s, cell_x(px, d, n), cell_y(py, d, n)),
    ensures
        !push_blocked(s, px, py, d, w, h),
        chain_len(s, px, py, d, w, h) == n,
        resolve_result(s, px, py, d, w, h).len() == s.len(),
        forall|i: int|
            0 <= i < s.len() ==> resolve_result(s, px, py, d, w, h)[i] == (
            if entity_moves(#[trigger] s[i], px, py, d, n) {
                step_rec(s[i], d)
            } else {
                s[i]
            }),
        forall|k: int|
            1 <= k <= n ==> #[trigger] moveable_at(
                resolve_result(s, px, py, d, w, h),
                cell_x(px, d, k),
                cell_y(py, d, k),
            ),
{
    lemma_chain_scan_value(s, px, py, d, 0, dist_to_edge(px, py, d, w, h) + 1, n);
    assert(chain_len(s, px, py, d, w, h) == n);
    let s1 = resolve_result(s, px, py, d, w, h);
    assert forall|i: int| 0 <= i < s.len() implies s1[i] == (
    if entity_moves(s[i], px, py, d, n) {
        step_rec(s[i], d)
    } else {
        s[i]
    }) by {
        assert(s1[i] == push_result(s, px, py, d, n)[i]);
    }
    assert forall|k: int| 1 <= k <= n implies #[trigger] moveable_at(
        s1,
        cell_x(px, d, k),
        cell_y(py, d, k),
    ) by {
        assert(moveable_at(s, cell_x(px, d, k - 1), cell_y(py, d, k - 1)));
        let i = choose|i: int|
            0 <= i < s.len() && is_moveable_at(s[i], cell_x(px, d, k - 1), cell_y(py, d, k - 1));
        assert(entity_moves(s[i], px, py, d, n));
        assert(s1[i] == step_rec(s[i], d));
        let p = s[i].position.unwrap();
        assert(wf_rec(s[i], w, h));
        assert(step_pos(p, d).x as int == cell_x(px, d, k));
        assert(step_pos(p, d).y as int == cell_y(py, d, k));
        assert(is_moveable_at(s1[i], cell_x(px, d, k), cell_y(py, d, k)));
    }
}

} // verus!
