//! Movement resolution: the push-chain algorithm.
//!
//! On a tick, the newest pending key press is taken from the input
//! queue (older pending presses are discarded) and, when it is
//! directional, resolved against the entity store: the cells from the
//! player's position outwards along the move axis are scanned, the
//! contiguous run of `Moveable` entities is collected, and
//! - if the run ends at a free cell (a gap), every collected entity
//!   shifts by exactly one cell towards the gap;
//! - if the run ends at an `Immoveable` entity, nothing moves;
//! - if the run reaches the edge of the grid without a gap or a
//!   blocker, the move is rejected and nothing moves (so positions can
//!   never leave the grid, even on maps whose boundary is not walled).

use vstd::prelude::*;

use crate::components::Position;
use crate::entity_store::Entity;
use crate::entity_store::EntityRec;
use crate::entity_store::EntityStore;
use crate::entity_store::at_most_one_player;
use crate::entity_store::immoveable_at;
use crate::entity_store::is_immoveable_at;
use crate::entity_store::is_moveable_at;
use crate::entity_store::is_positioned_player;
use crate::entity_store::moveable_at;
use crate::entity_store::wf_rec;
use crate::resources::Direction;
use crate::resources::Gameplay;
use crate::resources::InputQueue;
use crate::resources::Key;

verus! {

/// The `x` coordinate of the cell `k` steps from `px` along `d`.
pub open spec fn cell_x(px: int, d: Direction, k: int) -> int {
    match d {
        Direction::Left => px - k,
        Direction::Right => px + k,
        _ => px,
    }
}

/// The `y` coordinate of the cell `k` steps from `py` along `d`.
pub open spec fn cell_y(py: int, d: Direction, k: int) -> int {
    match d {
        Direction::Up => py - k,
        Direction::Down => py + k,
        _ => py,
    }
}

/// How many steps lie between `(px, py)` and the last grid cell in
/// direction `d`, on a `w` by `h` grid.
pub open spec fn dist_to_edge(px: int, py: int, d: Direction, w: int, h: int) -> int {
    match d {
        Direction::Up => py,
        Direction::Down => h - 1 - py,
        Direction::Left => px,
        Direction::Right => w - 1 - px,
    }
}

/// The first `k` in `[from, max]` whose cell (counted from `(px, py)`
/// along `d`) holds no `Moveable` entity, or `max` if every scanned
/// cell holds one.
pub open spec fn chain_scan(
    s: Seq<EntityRec>,
    px: int,
    py: int,
    d: Direction,
    from: int,
    max: int,
) -> int
    decreases max - from,
{
    if from >= max || !moveable_at(s, cell_x(px, d, from), cell_y(py, d, from)) {
        from
    } else {
        chain_scan(s, px, py, d, from + 1, max)
    }
}

/// The length of the push chain: the number of contiguous `Moveable`
/// entities from `(px, py)` outwards along `d`. The scan covers the
/// cells up to and including the grid edge; a result one past the edge
/// distance means the chain fills the whole scanned range.
pub open spec fn chain_len(s: Seq<EntityRec>, px: int, py: int, d: Direction, w: int, h: int) -> int {
    chain_scan(s, px, py, d, 0, dist_to_edge(px, py, d, w, h) + 1)
}

/// The push is rejected: either the chain runs into the grid edge
/// without a gap, or the first cell after the chain holds an
/// `Immoveable` entity.
pub open spec fn push_blocked(
    s: Seq<EntityRec>,
    px: int,
    py: int,
    d: Direction,
    w: int,
    h: int,
) -> bool {
    let n = chain_len(s, px, py, d, w, h);
    n > dist_to_edge(px, py, d, w, h) || immoveable_at(s, cell_x(px, d, n), cell_y(py, d, n))
}

/// Position `p` lies on one of the first `n` cells of the scan ray
/// from `(px, py)` along `d`.
pub open spec fn in_chain(p: Position, px: int, py: int, d: Direction, n: int) -> bool {
    match d {
        Direction::Up => p.x == px && py - n < p.y <= py,
        Direction::Down => p.x == px && py <= p.y < py + n,
        Direction::Left => p.y == py && px - n < p.x <= px,
        Direction::Right => p.y == py && px <= p.x < px + n,
    }
}

/// The entity takes part in the push: it is `Moveable` and stands on
/// one of the first `n` chain cells.
pub open spec fn entity_moves(e: EntityRec, px: int, py: int, d: Direction, n: int) -> bool {
    &&& e.moveable is Some
    &&& e.position matches Some(p) && in_chain(p, px, py, d, n)
}

/// `p` shifted by exactly one cell along `d` (the draw layer `z` is
/// kept).
pub open spec fn step_pos(p: Position, d: Direction) -> Position {
    Position { x: cell_x(p.x as int, d, 1) as u8, y: cell_y(p.y as int, d, 1) as u8, z: p.z }
}

/// The record with its position shifted by one cell along `d`; all
/// other components are kept.
pub open spec fn step_rec(e: EntityRec, d: Direction) -> EntityRec {
    match e.position {
        Some(p) => EntityRec { position: Some(step_pos(p, d)), ..e },
        None => e,
    }
}

/// The entity records after a successful push of a chain of length `n`
/// from `(px, py)` along `d`: every entity in the chain shifts by one
/// cell, every other entity is unchanged.
pub open spec fn push_result(s: Seq<EntityRec>, px: int, py: int, d: Direction, n: int) -> Seq<
    EntityRec,
> {
    s.map_values(
        |e: EntityRec|
            if entity_moves(e, px, py, d, n) {
                step_rec(e, d)
            } else {
                e
            },
    )
}

/// The entity records after resolving one directional command from
/// `(px, py)`: unchanged when the push is blocked, otherwise the chain
/// shifts by one cell.
pub open spec fn resolve_result(
    s: Seq<EntityRec>,
    px: int,
    py: int,
    d: Direction,
    w: int,
    h: int,
) -> Seq<EntityRec> {
    if push_blocked(s, px, py, d, w, h) {
        s
    } else {
        push_result(s, px, py, d, chain_len(s, px, py, d, w, h))
    }
}

/// Every cell strictly before the scan result holds a `Moveable`
/// entity, and the scan result's own cell holds none (unless the scan
/// exhausted its range).
pub proof fn lemma_chain_scan_props(
    s: Seq<EntityRec>,
    px: int,
    py: int,
    d: Direction,
    from: int,
    max: int,
)
    requires
        0 <= from <= max,
    ensures
        from <= chain_scan(s, px, py, d, from, max) <= max,
        forall|m: int|
            from <= m < chain_scan(s, px, py, d, from, max) ==> #[trigger] moveable_at(
                s,
                cell_x(px, d, m),
                cell_y(py, d, m),
            ),
        chain_scan(s, px, py, d, from, max) < max ==> !moveable_at(
            s,
            cell_x(px, d, chain_scan(s, px, py, d, from, max)),
            cell_y(py, d, chain_scan(s, px, py, d, from, max)),
        ),
    decreases max - from,
{
    if from >= max || !moveable_at(s, cell_x(px, d, from), cell_y(py, d, from)) {
    } else {
        lemma_chain_scan_props(s, px, py, d, from + 1, max);
    }
}

/// Resolves one directional push whose chain starts at the `Moveable`
/// entity (in play, the player) on cell `(px, py)` and applies it to
/// the store. Returns whether anything moved: exactly when the chain
/// ends at a free in-grid cell, every chain entity shifts one cell
/// along `dir`; otherwise the store is unchanged.
pub fn resolve_push(store: &mut EntityStore, px: u8, py: u8, dir: Direction) -> (moved: bool)
    requires
        old(store).wf(),
        moveable_at(old(store).entities@, px as int, py as int),
    ensures
        final(store).width == old(store).width,
        final(store).height == old(store).height,
        final(store).renderables@ == old(store).renderables@,
        final(store).entities@ == resolve_result(
            old(store).entities@,
            px as int,
            py as int,
            dir,
            old(store).width as int,
            old(store).height as int,
        ),
        moved == !push_blocked(
            old(store).entities@,
            px as int,
            py as int,
            dir,
            old(store).width as int,
            old(store).height as int,
        ),
        final(store).wf(),
{
    let ghost s0 = store.entities@;
    let ghost pxi = px as int;
    let ghost pyi = py as int;
    let ghost w = store.width as int;
    let ghost h = store.height as int;
    let ghost dist = dist_to_edge(pxi, pyi, dir, w, h);
    let ghost nlen = chain_len(s0, pxi, pyi, dir, w, h);
    proof {
        let i0 = choose|i: int| 0 <= i < s0.len() && is_moveable_at(s0[i], pxi, pyi);
        assert(wf_rec(s0[i0], w, h));
        assert(0 <= pxi < w && 0 <= pyi < h);
        assert(0 <= dist);
        lemma_chain_scan_props(s0, pxi, pyi, dir, 0, dist + 1);
    }
    let mut to_move: Vec<Entity> = Vec::new();
    let mut x = px;
    let mut y = py;
    let mut k: usize = 0;
    loop
        invariant_except_break
            old(store).wf(),
            s0 == old(store).entities@,
            store.entities@ == s0,
            store.width == old(store).width,
            store.height == old(store).height,
            store.renderables@ == old(store).renderables@,
            w == store.width as int,
            h == store.height as int,
            pxi == px as int,
            pyi == py as int,
            0 <= pxi < w,
            0 <= pyi < h,
            dist == dist_to_edge(pxi, pyi, dir, w, h),
            nlen == chain_len(s0, pxi, pyi, dir, w, h),
            k == to_move@.len(),
            k as int <= dist,
            x as int == cell_x(pxi, dir, k as int),
            y as int == cell_y(pyi, dir, k as int),
            chain_scan(s0, pxi, pyi, dir, k as int, dist + 1) == nlen,
            forall|jj: int|
                0 <= jj < k ==> #[trigger] to_move@[jj] < s0.len() && is_moveable_at(
                    s0[to_move@[jj] as int],
                    cell_x(pxi, dir, jj),
                    cell_y(pyi, dir, jj),
                ),
        ensures
            store.entities@ == s0,
            store.width == old(store).width,
            store.height == old(store).height,
            store.renderables@ == old(store).renderables@,
            k == to_move@.len(),
            k as int == nlen,
            nlen <= dist,
            !immoveable_at(s0, cell_x(pxi, dir, nlen), cell_y(pyi, dir, nlen)),
            forall|jj: int|
                0 <= jj < k ==> #[trigger] to_move@[jj] < s0.len() && is_moveable_at(
                    s0[to_move@[jj] as int],
                    cell_x(pxi, dir, jj),
                    cell_y(pyi, dir, jj),
                ),
        decreases dist - k,
    {
        match store.moveable_entity_at(x, y) {
            Some(i) => {
                to_move.push(i);
                proof {
                    assert(moveable_at(s0, cell_x(pxi, dir, k as int), cell_y(pyi, dir, k as int)));
                    assert(chain_scan(s0, pxi, pyi, dir, k as int, dist + 1) == chain_scan(
                        s0,
                        pxi,
                        pyi,
                        dir,
                        k as int + 1,
                        dist + 1,
                    ));
                }
                match dir {
                    Direction::Up => {
                        if y == 0 {
                            proof {
                                assert(k as int == dist);
                                assert(chain_scan(s0, pxi, pyi, dir, k as int + 1, dist + 1)
                                    == k as int + 1);
                                assert(push_blocked(s0, pxi, pyi, dir, w, h));
                            }
                            return false;
                        }
                        y = y - 1;
                    },
                    Direction::Down => {
                        if y + 1 == store.height {
                            proof {
                                assert(k as int == dist);
                                assert(chain_scan(s0, pxi, pyi, dir, k as int + 1, dist + 1)
                                    == k as int + 1);
                                assert(push_blocked(s0, pxi, pyi, dir, w, h));
                            }
                            return false;
                        }
                        y = y + 1;
                    },
                    Direction::Left => {
                        if x == 0 {
                            proof {
                                assert(k as int == dist);
                                assert(chain_scan(s0, pxi, pyi, dir, k as int + 1, dist + 1)
                                    == k as int + 1);
                                assert(push_blocked(s0, pxi, pyi, dir, w, h));
                            }
                            return false;
                        }
                        x = x - 1;
                    },
                    Direction::Right => {
                        if x + 1 == store.width {
                            proof {
                                assert(k as int == dist);
                                assert(chain_scan(s0, pxi, pyi, dir, k as int + 1, dist + 1)
                                    == k as int + 1);
                                assert(push_blocked(s0, pxi, pyi, dir, w, h));
                            }
                            return false;
                        }
                        x = x + 1;
                    },
                }
                k = k + 1;
            },
            None => {
                proof {
                    assert(chain_scan(s0, pxi, pyi, dir, k as int, dist + 1) == k as int);
                }
                if store.has_immoveable_at(x, y) {
                    proof {
                        assert(push_blocked(s0, pxi, pyi, dir, w, h));
                    }
                    return false;
                } else {
                    break;
                }
            },
        }
    }
    // A gap was found at the cell after the chain: apply the push.
    proof {
        assert(!moveable_at(s0, cell_x(pxi, dir, nlen), cell_y(pyi, dir, nlen)));
        assert(!push_blocked(s0, pxi, pyi, dir, w, h));
    }
    let n = k;
    let mut j: usize = 0;
    while j < n
        invariant
            old(store).wf(),
            s0 == old(store).entities@,
            store.width == old(store).width,
            store.height == old(store).height,
            store.renderables@ == old(store).renderables@,
            store.entities@.len() == s0.len(),
            w == store.width as int,
            h == store.height as int,
            pxi == px as int,
            pyi == py as int,
            0 <= pxi < w,
            0 <= pyi < h,
            dist == dist_to_edge(pxi, pyi, dir, w, h),
            n as int == nlen,
            0 <= nlen <= dist,
            n == to_move@.len(),
            j <= n,
            forall|jj: int|
                0 <= jj < n ==> #[trigger] to_move@[jj] < s0.len() && is_moveable_at(
                    s0[to_move@[jj] as int],
                    cell_x(pxi, dir, jj),
                    cell_y(pyi, dir, jj),
                ),
            forall|i: int|
                0 <= i < s0.len() && entity_moves(#[trigger] s0[i], pxi, pyi, dir, j as int)
                    ==> store.entities@[i] == step_rec(s0[i], dir),
            forall|i: int|
                0 <= i < s0.len() && !entity_moves(#[trigger] s0[i], pxi, pyi, dir, j as int)
                    ==> store.entities@[i] == s0[i],
        decreases n - j,
    {
        let i = to_move[j];
        proof {
            assert(is_moveable_at(s0[i as int], cell_x(pxi, dir, j as int), cell_y(pyi, dir, j as int)));
            assert(!in_chain(s0[i as int].position.unwrap(), pxi, pyi, dir, j as int));
            assert(store.entities@[i as int] == s0[i as int]);
        }
        let rec = store.entities[i];
        let p = rec.position.unwrap();
        proof {
            assert(p.x as int == cell_x(pxi, dir, j as int));
            assert(p.y as int == cell_y(pyi, dir, j as int));
        }
        let np = match dir {
            Direction::Up => Position { x: p.x, y: p.y - 1, z: p.z },
            Direction::Down => Position { x: p.x, y: p.y + 1, z: p.z },
            Direction::Left => Position { x: p.x - 1, y: p.y, z: p.z },
            Direction::Right => Position { x: p.x + 1, y: p.y, z: p.z },
        };
        let mut rec2 = rec;
        rec2.position = Some(np);
        store.entities.set(i, rec2);
        proof {
            assert(rec2 == step_rec(s0[i as int], dir));
            assert(entity_moves(s0[i as int], pxi, pyi, dir, j as int + 1));
            assert forall|ii: int|
                0 <= ii < s0.len() && entity_moves(#[trigger] s0[ii], pxi, pyi, dir, j as int + 1)
                    implies store.entities@[ii] == step_rec(s0[ii], dir) by {
                if ii != i as int {
                    if !entity_moves(s0[ii], pxi, pyi, dir, j as int) {
                        assert(is_moveable_at(
                            s0[ii],
                            cell_x(pxi, dir, j as int),
                            cell_y(pyi, dir, j as int),
                        ));
                        assert(is_moveable_at(
                            s0[i as int],
                            cell_x(pxi, dir, j as int),
                            cell_y(pyi, dir, j as int),
                        ));
                        assert(false);
                    }
                }
            }
            assert forall|ii: int|
                0 <= ii < s0.len() && !entity_moves(#[trigger] s0[ii], pxi, pyi, dir, j as int + 1)
                    implies store.entities@[ii] == s0[ii] by {
                assert(ii != i as int);
                assert(!entity_moves(s0[ii], pxi, pyi, dir, j as int));
            }
        }
        j = j + 1;
    }
    proof {
        let s1 = store.entities@;
        assert forall|ii: int| 0 <= ii < s0.len() implies s1[ii] == push_result(
            s0,
            pxi,
            pyi,
            dir,
            nlen,
        )[ii] by {
            if entity_moves(s0[ii], pxi, pyi, dir, nlen) {
            } else {
            }
        }
        assert(s1 =~= push_result(s0, pxi, pyi, dir, nlen));
        assert(store.entities@ == resolve_result(s0, pxi, pyi, dir, w, h));
        // Well-formedness of the pushed store.
        assert forall|ii: int| 0 <= ii < s1.len() implies wf_rec(#[trigger] s1[ii], w, h) by {
            assert(wf_rec(s0[ii], w, h));
            if entity_moves(s0[ii], pxi, pyi, dir, nlen) {
                assert(s1[ii] == step_rec(s0[ii], dir));
            } else {
                assert(s1[ii] == s0[ii]);
            }
        }
        assert forall|ia: int, ja: int, xx: int, yy: int|
            0 <= ia < s1.len() && 0 <= ja < s1.len() && #[trigger] is_moveable_at(s1[ia], xx, yy)
                && #[trigger] is_moveable_at(s1[ja], xx, yy) implies ia == ja by {
            if entity_moves(s0[ia], pxi, pyi, dir, nlen) {
                if entity_moves(s0[ja], pxi, pyi, dir, nlen) {
                    lemma_pushed_origin(s0, pxi, pyi, dir, nlen, w, h, ia, xx, yy);
                    lemma_pushed_origin(s0, pxi, pyi, dir, nlen, w, h, ja, xx, yy);
                } else {
                    assert(s1[ja] == s0[ja]);
                    lemma_push_no_collision(s0, pxi, pyi, dir, nlen, w, h, ia, ja, xx, yy);
                }
            } else {
                if entity_moves(s0[ja], pxi, pyi, dir, nlen) {
                    assert(s1[ia] == s0[ia]);
                    lemma_push_no_collision(s0, pxi, pyi, dir, nlen, w, h, ja, ia, xx, yy);
                } else {
                    assert(s1[ia] == s0[ia]);
                    assert(s1[ja] == s0[ja]);
                    assert(is_moveable_at(s0[ia], xx, yy));
                    assert(is_moveable_at(s0[ja], xx, yy));
                }
            }
        }
        assert forall|ia: int, ja: int, xx: int, yy: int|
            0 <= ia < s1.len() && 0 <= ja < s1.len() && #[trigger] is_immoveable_at(s1[ia], xx, yy)
                && #[trigger] is_immoveable_at(s1[ja], xx, yy) implies ia == ja by {
            assert(wf_rec(s0[ia], w, h));
            assert(wf_rec(s0[ja], w, h));
            assert(s1[ia] == s0[ia]);
            assert(s1[ja] == s0[ja]);
            assert(is_immoveable_at(s0[ia], xx, yy));
            assert(is_immoveable_at(s0[ja], xx, yy));
        }
        assert(store.wf());
    }
    true
}

/// An entity of the chain that ends up on cell `(xx, yy)` stood, before
/// the push, one step behind it.
proof fn lemma_pushed_origin(
    s0: Seq<EntityRec>,
    px: int,
    py: int,
    d: Direction,
    n: int,
    w: int,
    h: int,
    i: int,
    xx: int,
    yy: int,
)
    requires
        0 <= i < s0.len(),
        0 <= px < w <= 256,
        0 <= py < h <= 256,
        0 <= n <= dist_to_edge(px, py, d, w, h),
        wf_rec(s0[i], w, h),
        entity_moves(s0[i], px, py, d, n),
        is_moveable_at(step_rec(s0[i], d), xx, yy),
    ensures
        is_moveable_at(s0[i], back_x(xx, d), back_y(yy, d)),
{
    let p = s0[i].position.unwrap();
    assert(in_chain(p, px, py, d, n));
    assert(0 <= cell_x(p.x as int, d, 1) <= 255);
    assert(0 <= cell_y(p.y as int, d, 1) <= 255);
    assert(xx == cell_x(p.x as int, d, 1));
    assert(yy == cell_y(p.y as int, d, 1));
    assert(p.x as int == back_x(xx, d));
    assert(p.y as int == back_y(yy, d));
}

/// An entity of the chain cannot land on a cell where a `Moveable`
/// entity outside the chain still stands: the only cell the chain
/// enters that it does not also vacate is the gap cell after it, which
/// holds no `Moveable` entity.
proof fn lemma_push_no_collision(
    s0: Seq<EntityRec>,
    px: int,
    py: int,
    d: Direction,
    n: int,
    w: int,
    h: int,
    imoved: int,
    istayed: int,
    xx: int,
    yy: int,
)
    requires
        0 <= imoved < s0.len(),
        0 <= istayed < s0.len(),
        0 <= px < w <= 256,
        0 <= py < h <= 256,
        0 <= n <= dist_to_edge(px, py, d, w, h),
        !moveable_at(s0, cell_x(px, d, n), cell_y(py, d, n)),
        wf_rec(s0[imoved], w, h),
        entity_moves(s0[imoved], px, py, d, n),
        !entity_moves(s0[istayed], px, py, d, n),
        is_moveable_at(step_rec(s0[imoved], d), xx, yy),
    ensures
        !is_moveable_at(s0[istayed], xx, yy),
{
    if is_moveable_at(s0[istayed], xx, yy) {
        lemma_pushed_origin(s0, px, py, d, n, w, h, imoved, xx, yy);
        let pa = s0[imoved].position.unwrap();
        assert(in_chain(pa, px, py, d, n));
        let pj = s0[istayed].position.unwrap();
        assert(pj.x == xx && pj.y == yy);
        assert(!in_chain(pj, px, py, d, n));
        assert(xx == cell_x(px, d, n) && yy == cell_y(py, d, n));
        assert(is_moveable_at(s0[istayed], cell_x(px, d, n), cell_y(py, d, n)));
        assert(moveable_at(s0, cell_x(px, d, n), cell_y(py, d, n)));
    }
}

/// Some `Player` entity has a position.
pub open spec fn has_positioned_player(s: Seq<EntityRec>) -> bool {
    exists|i: int| 0 <= i < s.len() && #[trigger] is_positioned_player(s[i])
}

/// The index of a positioned `Player` entity (the unique one, when at
/// most one player is positioned).
pub open spec fn player_index(s: Seq<EntityRec>) -> int {
    choose|i: int| 0 <= i < s.len() && #[trigger] is_positioned_player(s[i])
}

/// The `x` coordinate of the positioned player.
pub open spec fn player_x(s: Seq<EntityRec>) -> int {
    s[player_index(s)].position.unwrap().x as int
}

/// The `y` coordinate of the positioned player.
pub open spec fn player_y(s: Seq<EntityRec>) -> int {
    s[player_index(s)].position.unwrap().y as int
}

/// The entity records after one tick of movement resolution against
/// pending key presses `q`: when a positioned player exists and the
/// newest press is directional, the push is resolved from the player's
/// cell; otherwise nothing changes.
pub open spec fn tick_store_result(s: Seq<EntityRec>, q: Seq<Key>, w: int, h: int) -> Seq<
    EntityRec,
> {
    if has_positioned_player(s) && q.len() > 0 {
        match q.last() {
            Key::Directional(d) => resolve_result(s, player_x(s), player_y(s), d, w, h),
            Key::Other => s,
        }
    } else {
        s
    }
}

/// At least one entity actually moves on the tick: a positioned player
/// exists, the newest press is directional, and the push is not
/// blocked.
pub open spec fn tick_moved(s: Seq<EntityRec>, q: Seq<Key>, w: int, h: int) -> bool {
    &&& has_positioned_player(s)
    &&& q.len() > 0
    &&& match q.last() {
        Key::Directional(d) => !push_blocked(s, player_x(s), player_y(s), d, w, h),
        Key::Other => false,
    }
}

/// The movement resolution engine. Stateless; its `run` method performs
/// the movement phase of one tick.
pub struct InputSystem {}

impl InputSystem {
    /// One movement phase: takes the newest pending key press (per
    /// positioned player; older pending presses are discarded), and if
    /// it is directional resolves the push chain from the player's
    /// cell. The move counter grows by one exactly when some entity
    /// moved. The gameplay state is never touched here.
    pub fn run(
        &self,
        store: &mut EntityStore,
        gameplay: &mut Gameplay,
        input_queue: &mut InputQueue,
    )
        requires
            old(store).wf(),
            at_most_one_player(old(store).entities@),
            old(gameplay).moves_count < u32::MAX,
        ensures
            final(store).width == old(store).width,
            final(store).height == old(store).height,
            final(store).renderables@ == old(store).renderables@,
            final(store).wf(),
            at_most_one_player(final(store).entities@),
            final(store).entities@ == tick_store_result(
                old(store).entities@,
                old(input_queue).keys_pressed@,
                old(store).width as int,
                old(store).height as int,
            ),
            final(input_queue).keys_pressed@ == (if has_positioned_player(old(store).entities@) {
                Seq::<Key>::empty()
            } else {
                old(input_queue).keys_pressed@
            }),
            final(gameplay).state == old(gameplay).state,
            final(gameplay).moves_count as int == old(gameplay).moves_count as int + (
            if tick_moved(
                old(store).entities@,
                old(input_queue).keys_pressed@,
                old(store).width as int,
                old(store).height as int,
            ) {
                1int
            } else {
                0int
            }),
    {
        let ghost s0 = store.entities@;
        let pp = store.player_position();
        match pp {
            None => {
                proof {
                    assert(!has_positioned_player(s0));
                }
            },
            Some(p) => {
                proof {
                    let i1 = choose|i: int|
                        0 <= i < s0.len() && #[trigger] is_positioned_player(s0[i])
                            && s0[i].position == Some(p) && (forall|j: int|
                            0 <= j < i ==> !is_positioned_player(#[trigger] s0[j]));
                    assert(is_positioned_player(s0[i1]));
                    assert(has_positioned_player(s0));
                    assert(is_positioned_player(s0[player_index(s0)]));
                    assert(player_index(s0) == i1);
                    assert(player_x(s0) == p.x as int);
                    assert(player_y(s0) == p.y as int);
                }
                let key_opt = input_queue.keys_pressed.pop();
                input_queue.keys_pressed.clear();
                match key_opt {
                    Some(Key::Directional(d)) => {
                        proof {
                            let i1 = player_index(s0);
                            assert(wf_rec(s0[i1], store.width as int, store.height as int));
                            assert(is_moveable_at(s0[i1], p.x as int, p.y as int));
                            assert(moveable_at(s0, p.x as int, p.y as int));
                        }
                        let moved = resolve_push(store, p.x, p.y, d);
                        if moved {
                            gameplay.moves_count = gameplay.moves_count + 1;
                        }
                        proof {
                            lemma_resolve_preserves_players(
                                s0,
                                store.entities@,
                                p.x as int,
                                p.y as int,
                                d,
                                old(store).width as int,
                                old(store).height as int,
                            );
                        }
                    },
                    _ => {},
                }
            },
        }
    }
}

/// Resolving a push changes no tag and keeps every entity positioned,
/// so the set of positioned players is untouched; in particular there
/// is still at most one.
proof fn lemma_resolve_preserves_players(
    s0: Seq<EntityRec>,
    s1: Seq<EntityRec>,
    px: int,
    py: int,
    d: Direction,
    w: int,
    h: int,
)
    requires
        at_most_one_player(s0),
        s1 == resolve_result(s0, px, py, d, w, h),
    ensures
        at_most_one_player(s1),
{
    let n = chain_len(s0, px, py, d, w, h);
    assert forall|i: int|
        0 <= i < s1.len() && #[trigger] is_positioned_player(s1[i])
            implies is_positioned_player(s0[i]) by {
        if !push_blocked(s0, px, py, d, w, h) {
            assert(s1[i] == push_result(s0, px, py, d, n)[i]);
            if entity_moves(s0[i], px, py, d, n) {
                assert(s1[i] == step_rec(s0[i], d));
            } else {
                assert(s1[i] == s0[i]);
            }
        }
    }
}

/// The `x` coordinate one step behind `x` against direction `d`.
pub open spec fn back_x(x: int, d: Direction) -> int {
    match d {
        Direction::Left => x + 1,
        Direction::Right => x - 1,
        _ => x,
    }
}

/// The `y` coordinate one step behind `y` against direction `d`.
pub open spec fn back_y(y: int, d: Direction) -> int {
    match d {
        Direction::Up => y + 1,
        Direction::Down => y - 1,
        _ => y,
    }
}

} // verus!
