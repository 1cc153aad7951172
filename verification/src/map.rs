//! The map loader: parses a textual grid description into entities.
//!
//! The input is a byte string of rows separated by line breaks, each
//! row a sequence of single-byte tokens separated by spaces. Leading
//! and trailing whitespace (per row, and around the whole text) is
//! trimmed before tokenizing. Scanning row-major, each token produces
//! entities at `(x = column index, y = row index)`:
//!
//! - `.` a floor-only tile,
//! - `W` floor plus a `Wall` (`Immoveable`) entity,
//! - `P` floor plus a `Player` (`Moveable`) entity,
//! - `B` floor plus a `Box` (`Moveable`) entity,
//! - `S` floor plus a `BoxSpot` entity,
//! - `N` a void cell with no entity,
//! - anything else is a fatal parse error naming the offending token
//!   and its row and column; no partially loaded store is handed out.

use vstd::prelude::*;

use crate::components::Box;
use crate::components::BoxSpot;
use crate::components::Immoveable;
use crate::components::Moveable;
use crate::components::Player;
use crate::components::Position;
use crate::components::Wall;
use crate::components::Renderable;
use crate::entity_store::EntityRec;
use crate::entity_store::EntityStore;
use crate::entity_store::box_at;
use crate::entity_store::floor_at;
use crate::entity_store::immoveable_at;
use crate::entity_store::is_box_at;
use crate::entity_store::is_floor_at;
use crate::entity_store::is_immoveable_at;
use crate::entity_store::is_moveable_at;
use crate::entity_store::is_player_at;
use crate::entity_store::is_spot_at;
use crate::entity_store::is_wall_at;
use crate::entity_store::lemma_cell_preds_push;
use crate::entity_store::lemma_spawn_wf;
use crate::entity_store::moveable_at;
use crate::entity_store::player_at;
use crate::entity_store::spot_at;
use crate::entity_store::wall_at;
use crate::entity_store::wf_rec;

verus! {

/// Whitespace that is trimmed inside a row: space, tab, carriage
/// return.
pub open spec fn is_blank(b: u8) -> bool {
    b == 32 || b == 9 || b == 13
}

/// Whitespace that is trimmed around the whole map text: blanks and
/// line breaks.
pub open spec fn is_wsp(b: u8) -> bool {
    is_blank(b) || b == 10
}

/// The row-trimming predicate as a value.
pub open spec fn blank_pred() -> spec_fn(u8) -> bool {
    |b: u8| is_blank(b)
}

/// The whole-text-trimming predicate as a value.
pub open spec fn wsp_pred() -> spec_fn(u8) -> bool {
    |b: u8| is_wsp(b)
}

/// `s` without its longest prefix of bytes satisfying `p`.
pub open spec fn trim_front(s: Seq<u8>, p: spec_fn(u8) -> bool) -> Seq<u8>
    decreases s.len(),
{
    if s.len() > 0 && p(s.first()) {
        trim_front(s.drop_first(), p)
    } else {
        s
    }
}

/// `s` without its longest suffix of bytes satisfying `p`.
pub open spec fn trim_back(s: Seq<u8>, p: spec_fn(u8) -> bool) -> Seq<u8>
    decreases s.len(),
{
    if s.len() > 0 && p(s.last()) {
        trim_back(s.drop_last(), p)
    } else {
        s
    }
}

/// `s` without leading and trailing bytes satisfying `p`.
pub open spec fn trim(s: Seq<u8>, p: spec_fn(u8) -> bool) -> Seq<u8> {
    trim_back(trim_front(s, p), p)
}

/// `s` split at every occurrence of `sep`, keeping empty pieces, as
/// `str::split` does: splitting the empty sequence gives one empty
/// piece.
pub open spec fn split(s: Seq<u8>, sep: u8) -> Seq<Seq<u8>>
    decreases s.len(),
{
    if s.len() == 0 {
        seq![Seq::<u8>::empty()]
    } else {
        let rest = split(s.drop_first(), sep);
        if s.first() == sep {
            seq![Seq::<u8>::empty()] + rest
        } else {
            seq![seq![s.first()] + rest.first()] + rest.drop_first()
        }
    }
}

/// Splitting yields at least one piece.
pub proof fn lemma_split_len(s: Seq<u8>, sep: u8)
    ensures
        split(s, sep).len() >= 1,
    decreases s.len(),
{
    if s.len() > 0 {
        lemma_split_len(s.drop_first(), sep);
    }
}

/// How `split` grows when one byte is appended: a separator opens a
/// new empty piece, any other byte extends the last piece.
pub proof fn lemma_split_push(s: Seq<u8>, sep: u8, c: u8)
    ensures
        c == sep ==> split(s.push(c), sep) == split(s, sep).push(Seq::<u8>::empty()),
        c != sep ==> split(s.push(c), sep) == split(s, sep).update(
            split(s, sep).len() - 1,
            split(s, sep).last().push(c),
        ),
    decreases s.len(),
{
    lemma_split_len(s, sep);
    if s.len() == 0 {
        assert(s.push(c) =~= seq![c]);
        assert(s.push(c).drop_first() =~= Seq::<u8>::empty());
        assert(split(Seq::<u8>::empty(), sep) =~~= seq![Seq::<u8>::empty()]);
        assert(split(s.push(c), sep) == (if s.push(c).first() == sep {
            seq![Seq::<u8>::empty()] + split(s.push(c).drop_first(), sep)
        } else {
            seq![seq![s.push(c).first()] + split(s.push(c).drop_first(), sep).first()]
                + split(s.push(c).drop_first(), sep).drop_first()
        }));
        if c == sep {
            assert(split(s.push(c), sep) =~~= split(s, sep).push(Seq::<u8>::empty()));
        } else {
            assert(split(s.push(c), sep) =~~= split(s, sep).update(
                split(s, sep).len() - 1,
                split(s, sep).last().push(c),
            ));
        }
    } else {
        lemma_split_len(s.drop_first(), sep);
        lemma_split_push(s.drop_first(), sep, c);
        assert(s.push(c).drop_first() =~= s.drop_first().push(c));
        assert(s.push(c).first() == s.first());
        if c == sep {
            assert(split(s.push(c), sep) =~~= split(s, sep).push(Seq::<u8>::empty()));
        } else {
            assert(split(s.push(c), sep) =~~= split(s, sep).update(
                split(s, sep).len() - 1,
                split(s, sep).last().push(c),
            ));
        }
    }
}

/// A fully blank-prefixed view: `trim_front` removes exactly the
/// leading run of bytes satisfying `p`.
pub proof fn lemma_trim_front_skip(s: Seq<u8>, p: spec_fn(u8) -> bool, j: int)
    requires
        0 <= j <= s.len(),
        forall|i: int| 0 <= i < j ==> p(s[i]),
        j == s.len() || !p(s[j]),
    ensures
        trim_front(s, p) == s.skip(j),
    decreases j,
{
    if j == 0 {
        assert(s.skip(0) =~= s);
    } else {
        assert(p(s.first()));
        lemma_trim_front_skip(s.drop_first(), p, j - 1);
        assert(s.drop_first().skip(j - 1) =~= s.skip(j));
    }
}

/// `trim_back` removes exactly the trailing run of bytes satisfying
/// `p`.
pub proof fn lemma_trim_back_take(s: Seq<u8>, p: spec_fn(u8) -> bool, m: int)
    requires
        0 <= m <= s.len(),
        forall|i: int| m <= i < s.len() ==> p(s[i]),
        m == 0 || !p(s[m - 1]),
    ensures
        trim_back(s, p) == s.take(m),
    decreases s.len() - m,
{
    if m == s.len() {
        assert(s.take(m) =~= s);
    } else {
        assert(p(s.last()));
        lemma_trim_back_take(s.drop_last(), p, m);
        assert(s.drop_last().take(m) =~= s.take(m));
    }
}

/// Whether `b` is row whitespace (space, tab, carriage return).
fn is_blank_byte(b: u8) -> (r: bool)
    ensures
        r == is_blank(b),
{
    b == 32 || b == 9 || b == 13
}

/// Whether `b` is whitespace including line breaks.
fn is_wsp_byte(b: u8) -> (r: bool)
    ensures
        r == is_wsp(b),
{
    b == 32 || b == 9 || b == 13 || b == 10
}

/// A copy of `s` with leading and trailing whitespace removed: row
/// whitespace only, or, when `with_breaks` is set, line breaks too.
fn trim_bytes(s: &[u8], with_breaks: bool) -> (r: Vec<u8>)
    ensures
        r@ == trim(
            s@,
            if with_breaks {
                wsp_pred()
            } else {
                blank_pred()
            },
        ),
{
    let ghost p = if with_breaks {
        wsp_pred()
    } else {
        blank_pred()
    };
    let mut j: usize = 0;
    loop
        invariant_except_break
            j <= s@.len(),
            p == (if with_breaks {
                wsp_pred()
            } else {
                blank_pred()
            }),
            forall|i: int| 0 <= i < j ==> p(s@[i]),
        ensures
            j <= s@.len(),
            forall|i: int| 0 <= i < j ==> p(s@[i]),
            j == s@.len() || !p(s@[j as int]),
        decreases s@.len() - j,
    {
        if j == s.len() {
            break ;
        }
        let hit = if with_breaks {
            is_wsp_byte(s[j])
        } else {
            is_blank_byte(s[j])
        };
        if !hit {
            break ;
        }
        j = j + 1;
    }
    let mut m: usize = s.len();
    loop
        invariant_except_break
            j <= m <= s@.len(),
            p == (if with_breaks {
                wsp_pred()
            } else {
                blank_pred()
            }),
            forall|i: int| m <= i < s@.len() ==> p(s@[i]),
        ensures
            j <= m <= s@.len(),
            forall|i: int| m <= i < s@.len() ==> p(s@[i]),
            m == j || !p(s@[m - 1]),
        decreases m,
    {
        if m == j {
            break ;
        }
        let hit = if with_breaks {
            is_wsp_byte(s[m - 1])
        } else {
            is_blank_byte(s[m - 1])
        };
        if !hit {
            break ;
        }
        m = m - 1;
    }
    let mut out: Vec<u8> = Vec::new();
    let mut i: usize = j;
    while i < m
        invariant
            j <= i <= m <= s@.len(),
            out@ == s@.subrange(j as int, i as int),
        decreases m - i,
    {
        out.push(s[i]);
        proof {
            assert(out@ =~= s@.subrange(j as int, i as int + 1));
        }
        i = i + 1;
    }
    proof {
        lemma_trim_front_skip(s@, p, j as int);
        if m == j {
            lemma_trim_back_take(s@.skip(j as int), p, 0);
        } else {
            lemma_trim_back_take(s@.skip(j as int), p, m - j);
        }
        assert(s@.skip(j as int).take(m - j) =~= s@.subrange(j as int, m as int));
        assert(out@ == trim(s@, p));
    }
    out
}

/// The views of a sequence of byte vectors.
pub open spec fn views_of(v: Seq<Vec<u8>>) -> Seq<Seq<u8>> {
    v.map_values(|x: Vec<u8>| x@)
}

/// Splits `s` at every occurrence of `sep`, keeping empty pieces.
fn split_bytes(s: &[u8], sep: u8) -> (r: Vec<Vec<u8>>)
    ensures
        views_of(r@) == split(s@, sep),
        r@.len() >= 1,
{
    let mut done: Vec<Vec<u8>> = Vec::new();
    let mut cur: Vec<u8> = Vec::new();
    let mut i: usize = 0;
    proof {
        assert(s@.take(0) =~= Seq::<u8>::empty());
        assert(views_of(done@).push(cur@) =~~= split(s@.take(0), sep));
    }
    while i < s.len()
        invariant
            i <= s@.len(),
            views_of(done@).push(cur@) == split(s@.take(i as int), sep),
        decreases s@.len() - i,
    {
        let b = s[i];
        proof {
            assert(s@.take(i as int + 1) =~= s@.take(i as int).push(s@[i as int]));
            lemma_split_push(s@.take(i as int), sep, b);
            lemma_split_len(s@.take(i as int), sep);
        }
        if b == sep {
            done.push(cur);
            cur = Vec::new();
            proof {
                assert(views_of(done@).push(cur@) =~~= split(s@.take(i as int + 1), sep));
            }
        } else {
            cur.push(b);
            proof {
                assert(views_of(done@).push(cur@) =~~= split(s@.take(i as int + 1), sep));
            }
        }
        i = i + 1;
    }
    proof {
        assert(s@.take(s@.len() as int) =~= s@);
        lemma_split_len(s@, sep);
    }
    done.push(cur);
    proof {
        assert(views_of(done@) =~~= split(s@, sep));
    }
    done
}

/// The rows of the map text: the whole text trimmed, then split at
/// line breaks.
pub open spec fn map_rows(s: Seq<u8>) -> Seq<Seq<u8>> {
    split(trim(s, wsp_pred()), 10)
}

/// The tokens of one row: the row trimmed, then split at spaces.
pub open spec fn row_tokens(row: Seq<u8>) -> Seq<Seq<u8>> {
    split(trim(row, blank_pred()), 32)
}

/// The token grid of the map text, row-major.
pub open spec fn map_grid(s: Seq<u8>) -> Seq<Seq<Seq<u8>>> {
    map_rows(s).map_values(|row: Seq<u8>| row_tokens(row))
}

/// The bytes the grammar recognises: `.`, `W`, `P`, `B`, `S`, `N`.
pub open spec fn token_byte_valid(b: u8) -> bool {
    b == 46 || b == 87 || b == 80 || b == 66 || b == 83 || b == 78
}

/// A valid token: exactly one recognised byte.
pub open spec fn token_valid(t: Seq<u8>) -> bool {
    t.len() == 1 && token_byte_valid(t[0])
}

/// The token at grid cell `(x, y)` exists and is the single byte `c`.
pub open spec fn token_at(g: Seq<Seq<Seq<u8>>>, x: int, y: int, c: u8) -> bool {
    &&& 0 <= y < g.len()
    &&& 0 <= x < g[y].len()
    &&& g[y][x].len() == 1
    &&& g[y][x][0] == c
}

/// The length of the longest row of the grid.
pub open spec fn max_row_len(g: Seq<Seq<Seq<u8>>>) -> int
    decreases g.len(),
{
    if g.len() == 0 {
        0
    } else {
        let rest = max_row_len(g.drop_last());
        if g.last().len() > rest {
            g.last().len() as int
        } else {
            rest
        }
    }
}

/// No row is longer than the longest row.
pub proof fn lemma_max_row_len_ge(g: Seq<Seq<Seq<u8>>>, y: int)
    requires
        0 <= y < g.len(),
    ensures
        g[y].len() <= max_row_len(g),
        0 <= max_row_len(g),
    decreases g.len(),
{
    if y < g.len() - 1 {
        lemma_max_row_len_ge(g.drop_last(), y);
    } else if g.len() > 1 {
        lemma_max_row_len_ge(g.drop_last(), 0);
    }
}

/// A fatal parse error: the offending token and its row and column.
#[derive(Debug)]
pub struct MapError {
    pub row: usize,
    pub col: usize,
    pub token: Vec<u8>,
}

/// A bare floor record at `(x, y)`.
pub open spec fn floor_rec(x: u8, y: u8) -> EntityRec {
    EntityRec {
        position: Some(Position { x, y, z: 0 }),
        wall: None,
        player: None,
        box_tag: None,
        box_spot: None,
        moveable: None,
        immoveable: None,
    }
}

/// A `Wall` (`Immoveable`) record at `(x, y)`.
pub open spec fn wall_rec(x: u8, y: u8) -> EntityRec {
    EntityRec {
        position: Some(Position { x, y, z: 0 }),
        wall: Some(Wall {}),
        player: None,
        box_tag: None,
        box_spot: None,
        moveable: None,
        immoveable: Some(Immoveable {}),
    }
}

/// A `Player` (`Moveable`) record at `(x, y)`.
pub open spec fn player_rec(x: u8, y: u8) -> EntityRec {
    EntityRec {
        position: Some(Position { x, y, z: 0 }),
        wall: None,
        player: Some(Player {}),
        box_tag: None,
        box_spot: None,
        moveable: Some(Moveable {}),
        immoveable: None,
    }
}

/// A `Box` (`Moveable`) record at `(x, y)`.
pub open spec fn box_rec(x: u8, y: u8) -> EntityRec {
    EntityRec {
        position: Some(Position { x, y, z: 0 }),
        wall: None,
        player: None,
        box_tag: Some(Box {}),
        box_spot: None,
        moveable: Some(Moveable {}),
        immoveable: None,
    }
}

/// A `BoxSpot` record at `(x, y)`: an inert marker, neither moveable
/// nor immoveable.
pub open spec fn spot_rec(x: u8, y: u8) -> EntityRec {
    EntityRec {
        position: Some(Position { x, y, z: 0 }),
        wall: None,
        player: None,
        box_tag: None,
        box_spot: Some(BoxSpot {}),
        moveable: None,
        immoveable: None,
    }
}

/// Cell `(cx, cy)` lies strictly before the scan point `(sx, sy)` in
/// row-major order.
pub open spec fn scanned(sx: int, sy: int, cx: int, cy: int) -> bool {
    cy < sy || (cy == sy && cx < sx)
}

/// The store holds exactly the entities of the grid cells before the
/// scan point `(sx, sy)`: each occupancy predicate agrees with the
/// token grid on the scanned prefix and is false elsewhere.
pub open spec fn seeded_upto(s: Seq<EntityRec>, g: Seq<Seq<Seq<u8>>>, sx: int, sy: int) -> bool {
    &&& forall|cx: int, cy: int|
        #[trigger] moveable_at(s, cx, cy) <==> (scanned(sx, sy, cx, cy) && (token_at(g, cx, cy, 80)
            || token_at(g, cx, cy, 66)))
    &&& forall|cx: int, cy: int|
        #[trigger] immoveable_at(s, cx, cy) <==> (scanned(sx, sy, cx, cy) && token_at(
            g,
            cx,
            cy,
            87,
        ))
    &&& forall|cx: int, cy: int|
        #[trigger] wall_at(s, cx, cy) <==> (scanned(sx, sy, cx, cy) && token_at(g, cx, cy, 87))
    &&& forall|cx: int, cy: int|
        #[trigger] player_at(s, cx, cy) <==> (scanned(sx, sy, cx, cy) && token_at(g, cx, cy, 80))
    &&& forall|cx: int, cy: int|
        #[trigger] box_at(s, cx, cy) <==> (scanned(sx, sy, cx, cy) && token_at(g, cx, cy, 66))
    &&& forall|cx: int, cy: int|
        #[trigger] spot_at(s, cx, cy) <==> (scanned(sx, sy, cx, cy) && token_at(g, cx, cy, 83))
    &&& forall|cx: int, cy: int|
        #[trigger] floor_at(s, cx, cy) <==> (scanned(sx, sy, cx, cy) && (token_at(g, cx, cy, 46)
            || token_at(g, cx, cy, 87) || token_at(g, cx, cy, 80) || token_at(g, cx, cy, 66)
            || token_at(g, cx, cy, 83)))
}

/// A copy of the given bytes.
fn copy_bytes(s: &[u8]) -> (r: Vec<u8>)
    ensures
        r@ == s@,
{
    let mut out: Vec<u8> = Vec::new();
    let mut i: usize = 0;
    while i < s.len()
        invariant
            i <= s@.len(),
            out@ == s@.take(i as int),
        decreases s@.len() - i,
    {
        out.push(s[i]);
        proof {
            assert(out@ =~= s@.take(i as int + 1));
        }
        i = i + 1;
    }
    proof {
        assert(s@.take(s@.len() as int) =~= s@);
    }
    out
}

/// Creates a floor entity at `(x, y)`.
pub fn create_floor(store: &mut EntityStore, x: u8, y: u8)
    ensures
        final(store).entities@ == old(store).entities@.push(floor_rec(x, y)),
        final(store).renderables@ == old(store).renderables@.push(None::<Renderable>),
        final(store).width == old(store).width,
        final(store).height == old(store).height,
{
    store.spawn(
        EntityRec {
            position: Some(Position { x, y, z: 0 }),
            wall: None,
            player: None,
            box_tag: None,
            box_spot: None,
            moveable: None,
            immoveable: None,
        },
    );
}

/// Creates a `Wall` (`Immoveable`) entity at `(x, y)`.
pub fn create_wall(store: &mut EntityStore, x: u8, y: u8)
    ensures
        final(store).entities@ == old(store).entities@.push(wall_rec(x, y)),
        final(store).renderables@ == old(store).renderables@.push(None::<Renderable>),
        final(store).width == old(store).width,
        final(store).height == old(store).height,
{
    store.spawn(
        EntityRec {
            position: Some(Position { x, y, z: 0 }),
            wall: Some(Wall {}),
            player: None,
            box_tag: None,
            box_spot: None,
            moveable: None,
            immoveable: Some(Immoveable {}),
        },
    );
}

/// Creates a `Player` (`Moveable`) entity at `(x, y)`.
pub fn create_player(store: &mut EntityStore, x: u8, y: u8)
    ensures
        final(store).entities@ == old(store).entities@.push(player_rec(x, y)),
        final(store).renderables@ == old(store).renderables@.push(None::<Renderable>),
        final(store).width == old(store).width,
        final(store).height == old(store).height,
{
    store.spawn(
        EntityRec {
            position: Some(Position { x, y, z: 0 }),
            wall: None,
            player: Some(Player {}),
            box_tag: None,
            box_spot: None,
            moveable: Some(Moveable {}),
            immoveable: None,
        },
    );
}

/// Creates a `Box` (`Moveable`) entity at `(x, y)`.
pub fn create_box(store: &mut EntityStore, x: u8, y: u8)
    ensures
        final(store).entities@ == old(store).entities@.push(box_rec(x, y)),
        final(store).renderables@ == old(store).renderables@.push(None::<Renderable>),
        final(store).width == old(store).width,
        final(store).height == old(store).height,
{
    store.spawn(
        EntityRec {
            position: Some(Position { x, y, z: 0 }),
            wall: None,
            player: None,
            box_tag: Some(Box {}),
            box_spot: None,
            moveable: Some(Moveable {}),
            immoveable: None,
        },
    );
}

/// Creates a `BoxSpot` entity at `(x, y)`.
pub fn create_box_spot(store: &mut EntityStore, x: u8, y: u8)
    ensures
        final(store).entities@ == old(store).entities@.push(spot_rec(x, y)),
        final(store).renderables@ == old(store).renderables@.push(None::<Renderable>),
        final(store).width == old(store).width,
        final(store).height == old(store).height,
{
    store.spawn(
        EntityRec {
            position: Some(Position { x, y, z: 0 }),
            wall: None,
            player: None,
            box_tag: None,
            box_spot: Some(BoxSpot {}),
            moveable: None,
            immoveable: None,
        },
    );
}

/// A loaded store carries at most one positioned player whenever at
/// most one grid cell holds the player token: players are `Moveable`,
/// and no cell holds two `Moveable` entities. This discharges the
/// single-player expectation of the movement engine for such maps.
pub proof fn lemma_single_player(store: EntityStore, g: Seq<Seq<Seq<u8>>>)
    requires
        store.wf(),
        forall|x: int, y: int|
            #[trigger] player_at(store.entities@, x, y) <==> token_at(g, x, y, 80),
        forall|x1: int, y1: int, x2: int, y2: int|
            #[trigger] token_at(g, x1, y1, 80) && #[trigger] token_at(g, x2, y2, 80) ==> x1 == x2
                && y1 == y2,
    ensures
        crate::entity_store::at_most_one_player(store.entities@),
{
    let s = store.entities@;
    assert forall|i: int, j: int|
        0 <= i < s.len() && 0 <= j < s.len() && #[trigger] crate::entity_store::is_positioned_player(
            s[i],
        ) && #[trigger] crate::entity_store::is_positioned_player(s[j]) implies i == j by {
        let pi = s[i].position.unwrap();
        let pj = s[j].position.unwrap();
        assert(is_player_at(s[i], pi.x as int, pi.y as int));
        assert(player_at(s, pi.x as int, pi.y as int));
        assert(is_player_at(s[j], pj.x as int, pj.y as int));
        assert(player_at(s, pj.x as int, pj.y as int));
        assert(token_at(g, pi.x as int, pi.y as int, 80));
        assert(token_at(g, pj.x as int, pj.y as int, 80));
        assert(pi.x == pj.x && pi.y == pj.y);
        assert(wf_rec(s[i], store.width as int, store.height as int));
        assert(wf_rec(s[j], store.width as int, store.height as int));
        assert(is_moveable_at(s[i], pi.x as int, pi.y as int));
        assert(is_moveable_at(s[j], pi.x as int, pi.y as int));
    }
}

/// Parses a map text into a freshly seeded entity store.
///
/// On success the store is well formed, its grid is as tall as the
/// token grid and as wide as the longest row, and each occupancy
/// predicate agrees exactly with the token grid. On the first
/// unrecognised token (scanning row-major) the error names that token
/// and its row and column, and no store is handed out. The size bounds
/// in the precondition only keep coordinates within the `u8` positions
/// of the grid.
pub fn load_map(map: &[u8]) -> (r: Result<EntityStore, MapError>)
    requires
        map_grid(map@).len() <= 255,
        forall|y: int|
            0 <= y < map_grid(map@).len() ==> (#[trigger] map_grid(map@)[y]).len() <= 255,
    ensures
        ({
            let g = map_grid(map@);
            match r {
                Ok(store) => {
                    &&& store.wf()
                    &&& store.height as int == g.len()
                    &&& store.width as int == max_row_len(g)
                    &&& forall|x: int, y: int|
                        #[trigger] moveable_at(store.entities@, x, y) <==> (token_at(g, x, y, 80)
                            || token_at(g, x, y, 66))
                    &&& forall|x: int, y: int|
                        #[trigger] immoveable_at(store.entities@, x, y) <==> token_at(g, x, y, 87)
                    &&& forall|x: int, y: int|
                        #[trigger] wall_at(store.entities@, x, y) <==> token_at(g, x, y, 87)
                    &&& forall|x: int, y: int|
                        #[trigger] player_at(store.entities@, x, y) <==> token_at(g, x, y, 80)
                    &&& forall|x: int, y: int|
                        #[trigger] box_at(store.entities@, x, y) <==> token_at(g, x, y, 66)
                    &&& forall|x: int, y: int|
                        #[trigger] spot_at(store.entities@, x, y) <==> token_at(g, x, y, 83)
                    &&& forall|x: int, y: int|
                        #[trigger] floor_at(store.entities@, x, y) <==> (token_at(g, x, y, 46)
                            || token_at(g, x, y, 87) || token_at(g, x, y, 80) || token_at(
                            g,
                            x,
                            y,
                            66,
                        ) || token_at(g, x, y, 83))
                    &&& forall|y: int, x: int|
                        0 <= y < g.len() && 0 <= x < g[y].len() ==> token_valid(#[trigger] g[y][x])
                },
                Err(e) => {
                    &&& 0 <= (e.row as int) < g.len()
                    &&& 0 <= (e.col as int) < g[e.row as int].len()
                    &&& e.token@ == g[e.row as int][e.col as int]
                    &&& !token_valid(g[e.row as int][e.col as int])
                    &&& forall|cy: int, cx: int|
                        0 <= cy < e.row as int && 0 <= cx < g[cy].len() ==> token_valid(
                            #[trigger] g[cy][cx],
                        )
                    &&& forall|cx: int|
                        0 <= cx < e.col as int ==> token_valid(#[trigger] g[e.row as int][cx])
                },
            }
        }),
{
    let ghost g = map_grid(map@);
    let trimmed = trim_bytes(map, true);
    let rows = split_bytes(trimmed.as_slice(), 10);
    proof {
        assert(views_of(rows@) == map_rows(map@));
        assert(g.len() == map_rows(map@).len());
    }
    let mut grid: Vec<Vec<Vec<u8>>> = Vec::new();
    let mut yi: usize = 0;
    while yi < rows.len()
        invariant
            yi <= rows@.len(),
            views_of(rows@) == map_rows(map@),
            g == map_grid(map@),
            g.len() == rows@.len(),
            grid@.len() == yi,
            forall|ii: int| 0 <= ii < yi ==> views_of((#[trigger] grid@[ii])@) == g[ii],
        decreases rows@.len() - yi,
    {
        let trow = trim_bytes(rows[yi].as_slice(), false);
        let toks = split_bytes(trow.as_slice(), 32);
        proof {
            assert(map_rows(map@)[yi as int] == rows@[yi as int]@);
            assert(views_of(toks@) == row_tokens(map_rows(map@)[yi as int]));
            assert(g[yi as int] == row_tokens(map_rows(map@)[yi as int]));
        }
        grid.push(toks);
        yi = yi + 1;
    }
    proof {
        assert(grid@.len() == g.len());
    }
    let height = grid.len() as u8;
    let mut width_us: usize = 0;
    let mut y2: usize = 0;
    proof {
        assert(g.take(0) =~= Seq::<Seq<Seq<u8>>>::empty());
    }
    while y2 < grid.len()
        invariant
            y2 <= grid@.len(),
            g == map_grid(map@),
            grid@.len() == g.len(),
            g.len() <= 255,
            forall|y: int| 0 <= y < g.len() ==> (#[trigger] g[y]).len() <= 255,
            forall|ii: int| 0 <= ii < grid@.len() ==> views_of((#[trigger] grid@[ii])@) == g[ii],
            width_us as int == max_row_len(g.take(y2 as int)),
            width_us <= 255,
        decreases grid@.len() - y2,
    {
        let rl = grid[y2].len();
        proof {
            assert(views_of(grid@[y2 as int]@) == g[y2 as int]);
            assert(rl == g[y2 as int].len());
            assert(g.take(y2 as int + 1).drop_last() =~= g.take(y2 as int));
            assert(g.take(y2 as int + 1).last() == g[y2 as int]);
        }
        if rl > width_us {
            width_us = rl;
        }
        proof {
            assert(width_us as int == max_row_len(g.take(y2 as int + 1)));
        }
        y2 = y2 + 1;
    }
    proof {
        assert(g.take(g.len() as int) =~= g);
    }
    let width = width_us as u8;
    let mut store = EntityStore::new(width, height);
    let mut yy: usize = 0;
    proof {
        assert(seeded_upto(store.entities@, g, 0, 0));
    }
    while yy < grid.len()
        invariant
            yy <= grid@.len(),
            g == map_grid(map@),
            grid@.len() == g.len(),
            g.len() <= 255,
            forall|y: int| 0 <= y < g.len() ==> (#[trigger] g[y]).len() <= 255,
            forall|ii: int| 0 <= ii < grid@.len() ==> views_of((#[trigger] grid@[ii])@) == g[ii],
            store.width == width,
            store.height == height,
            width as int == max_row_len(g),
            height as int == g.len(),
            store.wf(),
            seeded_upto(store.entities@, g, 0, yy as int),
            forall|cy: int, cx: int|
                0 <= cy < yy && 0 <= cx < g[cy].len() ==> token_valid(#[trigger] g[cy][cx]),
        decreases grid@.len() - yy,
    {
        let row_len = grid[yy].len();
        proof {
            assert(views_of(grid@[yy as int]@) == g[yy as int]);
            assert(row_len == g[yy as int].len());
        }
        let mut xx: usize = 0;
        while xx < row_len
            invariant
                g == map_grid(map@),
                grid@.len() == g.len(),
                g.len() <= 255,
                forall|y: int| 0 <= y < g.len() ==> (#[trigger] g[y]).len() <= 255,
                forall|ii: int|
                    0 <= ii < grid@.len() ==> views_of((#[trigger] grid@[ii])@) == g[ii],
                store.width == width,
                store.height == height,
                width as int == max_row_len(g),
                height as int == g.len(),
                store.wf(),
                yy < grid@.len(),
                row_len == g[yy as int].len(),
                xx <= row_len,
                seeded_upto(store.entities@, g, xx as int, yy as int),
                forall|cy: int, cx: int|
                    0 <= cy < yy && 0 <= cx < g[cy].len() ==> token_valid(#[trigger] g[cy][cx]),
                forall|cx: int| 0 <= cx < xx ==> token_valid(#[trigger] g[yy as int][cx]),
            decreases row_len - xx,
        {
            proof {
                assert(views_of(grid@[yy as int]@) == g[yy as int]);
                assert(grid@[yy as int]@[xx as int]@ == g[yy as int][xx as int]);
            }
            let tok_len = grid[yy][xx].len();
            if tok_len != 1 {
                return Err(
                    MapError { row: yy, col: xx, token: copy_bytes(grid[yy][xx].as_slice()) },
                );
            }
            let b = grid[yy][xx][0];
            let xb = xx as u8;
            let yb = yy as u8;
            proof {
                lemma_max_row_len_ge(g, yy as int);
                assert(!moveable_at(store.entities@, xx as int, yy as int));
                assert(!immoveable_at(store.entities@, xx as int, yy as int));
            }
            let ghost sb = store.entities@;
            if b == 46 {
                create_floor(&mut store, xb, yb);
                proof {
                    lemma_cell_preds_push(sb, floor_rec(xb, yb));
                    lemma_spawn_wf(sb, floor_rec(xb, yb), width as int, height as int);
                    assert(store.wf());
                    assert(seeded_upto(store.entities@, g, xx as int + 1, yy as int));
                }
            } else if b == 87 {
                create_floor(&mut store, xb, yb);
                let ghost s1 = store.entities@;
                create_wall(&mut store, xb, yb);
                proof {
                    lemma_cell_preds_push(sb, floor_rec(xb, yb));
                    lemma_spawn_wf(sb, floor_rec(xb, yb), width as int, height as int);
                    lemma_cell_preds_push(s1, wall_rec(xb, yb));
                    assert(!immoveable_at(s1, xx as int, yy as int));
                    lemma_spawn_wf(s1, wall_rec(xb, yb), width as int, height as int);
                    assert(store.wf());
                    assert(seeded_upto(store.entities@, g, xx as int + 1, yy as int));
                }
            } else if b == 80 {
                create_floor(&mut store, xb, yb);
                let ghost s1 = store.entities@;
                create_player(&mut store, xb, yb);
                proof {
                    lemma_cell_preds_push(sb, floor_rec(xb, yb));
                    lemma_spawn_wf(sb, floor_rec(xb, yb), width as int, height as int);
                    lemma_cell_preds_push(s1, player_rec(xb, yb));
                    assert(!moveable_at(s1, xx as int, yy as int));
                    lemma_spawn_wf(s1, player_rec(xb, yb), width as int, height as int);
                    assert(store.wf());
                    assert(seeded_upto(store.entities@, g, xx as int + 1, yy as int));
                }
            } else if b == 66 {
                create_floor(&mut store, xb, yb);
                let ghost s1 = store.entities@;
                create_box(&mut store, xb, yb);
                proof {
                    lemma_cell_preds_push(sb, floor_rec(xb, yb));
                    lemma_spawn_wf(sb, floor_rec(xb, yb), width as int, height as int);
                    lemma_cell_preds_push(s1, box_rec(xb, yb));
                    assert(!moveable_at(s1, xx as int, yy as int));
                    lemma_spawn_wf(s1, box_rec(xb, yb), width as int, height as int);
                    assert(store.wf());
                    assert(seeded_upto(store.entities@, g, xx as int + 1, yy as int));
                }
            } else if b == 83 {
                create_floor(&mut store, xb, yb);
                let ghost s1 = store.entities@;
                create_box_spot(&mut store, xb, yb);
                proof {
                    lemma_cell_preds_push(sb, floor_rec(xb, yb));
                    lemma_spawn_wf(sb, floor_rec(xb, yb), width as int, height as int);
                    lemma_cell_preds_push(s1, spot_rec(xb, yb));
                    lemma_spawn_wf(s1, spot_rec(xb, yb), width as int, height as int);
                    assert(store.wf());
                    assert(seeded_upto(store.entities@, g, xx as int + 1, yy as int));
                }
            } else if b == 78 {
                proof {
                    assert(seeded_upto(store.entities@, g, xx as int + 1, yy as int));
                }
            } else {
                return Err(
                    MapError { row: yy, col: xx, token: copy_bytes(grid[yy][xx].as_slice()) },
                );
            }
            xx = xx + 1;
        }
        proof {
            assert(seeded_upto(store.entities@, g, 0, yy as int + 1));
        }
        yy = yy + 1;
    }
    Ok(store)
}

} // verus!
