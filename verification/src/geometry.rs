use crate::entities::ObserverState;
use crate::fixed::{abs, cell_of, fract, sign, HALF, ONE};
use crate::rays::{
    advance, cast_spec, crosses_x, hit, lemma_hit_reported, ray_of, reach, record_at, sample_spec,
    start, walk, HitRecord, Ray, Side, Step, MAX_DISTANCE,
};
use crate::world::{TileType, WorldMap};
use vstd::prelude::*;

verus! {

/// How far the coordinate `o` lies from the side of cell `c` through which
/// a ray that moves by `d` along this axis leaves the cell.
pub open spec fn line_gap(o: int, d: int, c: int) -> int {
    if d > 0 {
        (c + 1) * ONE - o
    } else {
        o - c * ONE
    }
}

/// How far the coordinate `o` lies from the side of cell `w` through which
/// a ray that moves by `d` along this axis enters the cell: the distance
/// from `o` to the plane of that face of the cell.
pub open spec fn face_gap(o: int, d: int, w: int) -> int {
    line_gap(o, d, w - sign(d))
}

/// Whether `v` lies between `a` and `b`, these included, whichever of the
/// two is smaller.
pub open spec fn within(a: int, v: int, b: int) -> bool {
    (a <= v <= b) || (b <= v <= a)
}

/// A walk starts with the gaps of the cell it starts in.
proof fn lemma_start_gaps(ray: Ray)
    ensures
        start(ray).ax == line_gap(ray.ox, ray.dx, cell_of(ray.ox)),
        start(ray).ay == line_gap(ray.oy, ray.dy, cell_of(ray.oy)),
{
    vstd::arithmetic::div_mod::lemma_fundamental_div_mod(ray.ox, ONE as int);
    vstd::arithmetic::div_mod::lemma_fundamental_div_mod(ray.oy, ONE as int);
}

/// If the horizontal line is not farther than the vertical one, and the
/// vertical one not farther than the wall, the ray has not left the last
/// row.
proof fn lemma_before_far_side(near: int, other: int, base: int, far: int, m: int, n: int)
    requires
        m > 0,
        n >= 0,
        other * m <= near * n,
        near <= base,
        base * n < far * m,
    ensures
        other < far,
{
    assert(near * n <= base * n) by (nonlinear_arith)
        requires
            near <= base,
            n >= 0,
    ;
    assert(other < far) by (nonlinear_arith)
        requires
            other * m < far * m,
            m > 0,
    ;
}

proof fn lemma_walk_to_vertical_wall(
    map: &WorldMap,
    ray: Ray,
    s: Step,
    fuel: nat,
    x0: int,
    y0: int,
    w: int,
    yf: int,
    code: u8,
)
    requires
        ray.dx != 0,
        sign(w - s.x) == sign(ray.dx),
        ray.dy > 0 ==> y0 <= yf,
        ray.dy < 0 ==> yf <= y0,
        ray.dy == 0 ==> yf == y0,
        within(x0, s.x, w - sign(ray.dx)),
        within(y0, s.y, yf),
        s.ax == line_gap(ray.ox, ray.dx, s.x),
        s.ay == line_gap(ray.oy, ray.dy, s.y),
        forall|x: int, y: int|
            within(x0, x, w - sign(ray.dx)) && within(y0, y, yf) ==> #[trigger] map.kind_at(x, y)
                == TileType::Void,
        forall|y: int| within(y0, y, yf) ==> #[trigger] map.kind_at(w, y) == TileType::Wall(code),
        ray.dy != 0 ==> face_gap(ray.ox, ray.dx, w) * abs(ray.dy) < line_gap(ray.oy, ray.dy, yf)
            * abs(ray.dx),
        fuel >= abs(w - s.x) + abs(yf - s.y),
    ensures
        walk(map, ray, s, fuel) == hit(
            face_gap(ray.ox, ray.dx, w),
            ray.dx,
            ray.oy,
            ray.dy,
            code,
            Side::Vertical,
        ),
    decreases abs(w - s.x) + abs(yf - s.y),
{
    let next = advance(ray, s);
    if crosses_x(ray, s) {
        if next.x == w {
            assert(map.kind_at(w, s.y) == TileType::Wall(code));
        } else {
            assert(map.kind_at(next.x, next.y) == TileType::Void);
            lemma_walk_to_vertical_wall(map, ray, next, (fuel - 1) as nat, x0, y0, w, yf, code);
        }
    } else {
        lemma_before_far_side(
            s.ax,
            s.ay,
            face_gap(ray.ox, ray.dx, w),
            line_gap(ray.oy, ray.dy, yf),
            abs(ray.dx),
            abs(ray.dy),
        );
        assert(map.kind_at(next.x, next.y) == TileType::Void);
        lemma_walk_to_vertical_wall(map, ray, next, (fuel - 1) as nat, x0, y0, w, yf, code);
    }
}

/// A wall ahead, across open floor.
///
/// The ray moves along x towards column `w`, and between its own row and
/// row `yf` every cell of that column is a wall with texture `code`. The
/// floor between the ray's column and the wall is empty over those rows,
/// and the ray reaches the wall's plane before it leaves row `yf`. Then the
/// ray meets that wall, on a vertical line, at the distance of the plane
/// divided by the share of the ray's direction that points at the wall:
/// for a direction of length `ONE` at the angle `a` from the wall's normal,
/// the distance of the plane divided by `cos(a)`. A ray that looks straight
/// at the wall finds it at exactly the distance of the plane.
pub proof fn lemma_vertical_wall_ahead(map: &WorldMap, ray: Ray, w: int, yf: int, code: u8)
    requires
        ray.dx != 0,
        map.contains(cell_of(ray.ox), cell_of(ray.oy)),
        sign(w - cell_of(ray.ox)) == sign(ray.dx),
        ray.dy > 0 ==> cell_of(ray.oy) <= yf,
        ray.dy < 0 ==> yf <= cell_of(ray.oy),
        ray.dy == 0 ==> yf == cell_of(ray.oy),
        forall|x: int, y: int|
            within(cell_of(ray.ox), x, w - sign(ray.dx)) && within(cell_of(ray.oy), y, yf)
                ==> #[trigger] map.kind_at(x, y) == TileType::Void,
        forall|y: int|
            within(cell_of(ray.oy), y, yf) ==> #[trigger] map.kind_at(w, y) == TileType::Wall(code),
        ray.dy != 0 ==> face_gap(ray.ox, ray.dx, w) * abs(ray.dy) < line_gap(ray.oy, ray.dy, yf)
            * abs(ray.dx),
    ensures
        cast_spec(map, ray) == hit(
            face_gap(ray.ox, ray.dx, w),
            ray.dx,
            ray.oy,
            ray.dy,
            code,
            Side::Vertical,
        ),
{
    let s = start(ray);
    lemma_start_gaps(ray);
    assert(map.kind_at(w, s.y) == TileType::Wall(code));
    assert(map.kind_at(w, yf) == TileType::Wall(code));
    assert(map.contains(w, s.y) && map.contains(w, yf));
    lemma_walk_to_vertical_wall(map, ray, s, reach(map), s.x, s.y, w, yf, code);
}

/// The chain of the other axis: if the vertical line is nearer than the
/// horizontal one, and the horizontal one not farther than the wall, the
/// ray has not left the last column.
proof fn lemma_before_far_column(near: int, other: int, base: int, far: int, m: int, n: int)
    requires
        m > 0,
        n >= 0,
        other * m < near * n,
        near <= base,
        base * n <= far * m,
    ensures
        other < far,
{
    assert(near * n <= base * n) by (nonlinear_arith)
        requires
            near <= base,
            n >= 0,
    ;
    assert(other < far) by (nonlinear_arith)
        requires
            other * m < far * m,
            m > 0,
    ;
}

proof fn lemma_walk_to_horizontal_wall(
    map: &WorldMap,
    ray: Ray,
    s: Step,
    fuel: nat,
    x0: int,
    y0: int,
    w: int,
    xf: int,
    code: u8,
)
    requires
        ray.dy != 0,
        sign(w - s.y) == sign(ray.dy),
        ray.dx > 0 ==> x0 <= xf,
        ray.dx < 0 ==> xf <= x0,
        ray.dx == 0 ==> xf == x0,
        within(y0, s.y, w - sign(ray.dy)),
        within(x0, s.x, xf),
        s.ax == line_gap(ray.ox, ray.dx, s.x),
        s.ay == line_gap(ray.oy, ray.dy, s.y),
        forall|x: int, y: int|
            within(x0, x, xf) && within(y0, y, w - sign(ray.dy)) ==> #[trigger] map.kind_at(x, y)
                == TileType::Void,
        forall|x: int| within(x0, x, xf) ==> #[trigger] map.kind_at(x, w) == TileType::Wall(code),
        ray.dx != 0 ==> face_gap(ray.oy, ray.dy, w) * abs(ray.dx) <= line_gap(ray.ox, ray.dx, xf)
            * abs(ray.dy),
        fuel >= abs(w - s.y) + abs(xf - s.x),
    ensures
        walk(map, ray, s, fuel) == hit(
            face_gap(ray.oy, ray.dy, w),
            ray.dy,
            ray.ox,
            ray.dx,
            code,
            Side::Horizontal,
        ),
    decreases abs(w - s.y) + abs(xf - s.x),
{
    let next = advance(ray, s);
    if crosses_x(ray, s) {
        lemma_before_far_column(
            s.ay,
            s.ax,
            face_gap(ray.oy, ray.dy, w),
            line_gap(ray.ox, ray.dx, xf),
            abs(ray.dy),
            abs(ray.dx),
        );
        assert(map.kind_at(next.x, next.y) == TileType::Void);
        lemma_walk_to_horizontal_wall(map, ray, next, (fuel - 1) as nat, x0, y0, w, xf, code);
    } else {
        if next.y == w {
            assert(map.kind_at(s.x, w) == TileType::Wall(code));
        } else {
            assert(map.kind_at(next.x, next.y) == TileType::Void);
            lemma_walk_to_horizontal_wall(map, ray, next, (fuel - 1) as nat, x0, y0, w, xf, code);
        }
    }
}

/// A wall ahead, across open floor, for a ray that moves along y towards
/// row `w`: what `lemma_vertical_wall_ahead` says, with the axes exchanged.
/// Here the ray may reach the wall's plane at the very moment at which it
/// leaves column `xf`: where a ray crosses two grid lines at once, it
/// crosses the horizontal one first.
pub proof fn lemma_horizontal_wall_ahead(map: &WorldMap, ray: Ray, w: int, xf: int, code: u8)
    requires
        ray.dy != 0,
        map.contains(cell_of(ray.ox), cell_of(ray.oy)),
        sign(w - cell_of(ray.oy)) == sign(ray.dy),
        ray.dx > 0 ==> cell_of(ray.ox) <= xf,
        ray.dx < 0 ==> xf <= cell_of(ray.ox),
        ray.dx == 0 ==> xf == cell_of(ray.ox),
        forall|x: int, y: int|
            within(cell_of(ray.ox), x, xf) && within(cell_of(ray.oy), y, w - sign(ray.dy))
                ==> #[trigger] map.kind_at(x, y) == TileType::Void,
        forall|x: int|
            within(cell_of(ray.ox), x, xf) ==> #[trigger] map.kind_at(x, w) == TileType::Wall(code),
        ray.dx != 0 ==> face_gap(ray.oy, ray.dy, w) * abs(ray.dx) <= line_gap(ray.ox, ray.dx, xf)
            * abs(ray.dy),
    ensures
        cast_spec(map, ray) == hit(
            face_gap(ray.oy, ray.dy, w),
            ray.dy,
            ray.ox,
            ray.dx,
            code,
            Side::Horizontal,
        ),
{
    let s = start(ray);
    lemma_start_gaps(ray);
    assert(map.kind_at(s.x, w) == TileType::Wall(code));
    assert(map.kind_at(xf, w) == TileType::Wall(code));
    assert(map.contains(s.x, w) && map.contains(xf, w));
    lemma_walk_to_horizontal_wall(map, ray, s, reach(map), s.x, s.y, w, xf, code);
}

/// A wall met straight on, by a ray of length `ONE` along one axis, lies
/// exactly as far as its plane, and is met where the ray started on the
/// other axis.
pub proof fn lemma_hit_straight(along: int, d: int, other: int, code: u8, side: Side)
    requires
        0 <= along < MAX_DISTANCE,
        abs(d) == ONE,
    ensures
        hit(along, d, other, 0, code, side) == (HitRecord {
            distance: along as i64,
            texture_code: code,
            wall_u: fract(other) as i64,
            side,
        }),
{
    vstd::arithmetic::div_mod::lemma_div_by_multiple(along, ONE as int);
    assert(along * 0 == 0);
    assert(0int / (ONE as int) == 0);
}

/// The room whose floor spans the columns from `a` up to `b` and the rows
/// from `c` up to `d`: the floor is empty, and a wall one cell thick
/// stands all round it.
pub open spec fn is_room(map: &WorldMap, a: int, b: int, c: int, d: int) -> bool {
    &&& a < b && c < d
    &&& forall|x: int, y: int|
        a <= x < b && c <= y < d ==> #[trigger] map.kind_at(x, y) == TileType::Void
    &&& forall|y: int| c <= y < d ==> (#[trigger] map.kind_at(a - 1, y)) is Wall
    &&& forall|y: int| c <= y < d ==> (#[trigger] map.kind_at(b, y)) is Wall
    &&& forall|x: int| a <= x < b ==> (#[trigger] map.kind_at(x, c - 1)) is Wall
    &&& forall|x: int| a <= x < b ==> (#[trigger] map.kind_at(x, d)) is Wall
}

/// From the exact middle of a room, a ray of length `ONE` due east, west,
/// south or north meets the wall at half the room's width or height, on a
/// line across its way.
pub proof fn lemma_room_center(map: &WorldMap, a: int, b: int, c: int, d: int, dx: int, dy: int)
    requires
        map.wf(),
        is_room(map, a, b, c, d),
        (abs(dx) == ONE && dy == 0) || (dx == 0 && abs(dy) == ONE),
    ensures
        ({
            let r = cast_spec(map, Ray { ox: (a + b) * HALF, oy: (c + d) * HALF, dx, dy });
            &&& dy == 0 ==> r.distance == (b - a) * HALF && r.side == Side::Vertical
            &&& dx == 0 ==> r.distance == (d - c) * HALF && r.side == Side::Horizontal
            &&& dy == 0 ==> r.wall_u == fract((c + d) * HALF)
            &&& dx == 0 ==> r.wall_u == fract((a + b) * HALF)
        }),
{
    let ox = (a + b) * HALF;
    let oy = (c + d) * HALF;
    let ray = Ray { ox, oy, dx, dy };
    let cx = cell_of(ox);
    let cy = cell_of(oy);
    map.lemma_layout();
    assert(a <= cx < b && c <= cy < d);
    assert(map.kind_at(cx, cy) == TileType::Void);
    assert(map.kind_at(a - 1, cy) is Wall);
    assert(map.kind_at(b, cy) is Wall);
    assert(map.kind_at(cx, c - 1) is Wall);
    assert(map.kind_at(cx, d) is Wall);
    if dy == 0 {
        let w = if dx > 0 {
            b
        } else {
            a - 1
        };
        let code = map.kind_at(w, cy)->Wall_0;
        lemma_vertical_wall_ahead(map, ray, w, cy, code);
        lemma_hit_straight(face_gap(ox, dx, w), dx, oy, code, Side::Vertical);
    } else {
        let w = if dy > 0 {
            d
        } else {
            c - 1
        };
        let code = map.kind_at(cx, w)->Wall_0;
        lemma_horizontal_wall_ahead(map, ray, w, cx, code);
        lemma_hit_straight(face_gap(oy, dy, w), dy, ox, code, Side::Horizontal);
    }
}

/// Whether two records tell of walls of the same texture, equally far and
/// met on lines of the same family.
pub open spec fn same_wall(a: HitRecord, b: HitRecord) -> bool {
    a.distance == b.distance && a.side == b.side && a.texture_code == b.texture_code
}

/// The ray turned over, up for down.
pub open spec fn flipped_y(ray: Ray) -> Ray {
    Ray { ox: ray.ox, oy: ray.oy, dx: ray.dx, dy: -ray.dy }
}

/// The ray turned over, left for right.
pub open spec fn flipped_x(ray: Ray) -> Ray {
    Ray { ox: ray.ox, oy: ray.oy, dx: -ray.dx, dy: ray.dy }
}

/// Whether the map looks the same when turned over about the middle of
/// row `c`.
pub open spec fn symmetric_about_row(map: &WorldMap, c: int) -> bool {
    forall|x: int, y: int| #[trigger] map.kind_at(x, y) == map.kind_at(x, 2 * c - y)
}

/// Whether the map looks the same when turned over about the middle of
/// column `c`.
pub open spec fn symmetric_about_column(map: &WorldMap, c: int) -> bool {
    forall|x: int, y: int| #[trigger] map.kind_at(x, y) == map.kind_at(2 * c - x, y)
}

proof fn lemma_walk_flipped_y(map: &WorldMap, ray: Ray, s: Step, fuel: nat, c: int)
    requires
        symmetric_about_row(map, c),
    ensures
        same_wall(
            walk(map, ray, s, fuel),
            walk(map, flipped_y(ray), Step { x: s.x, y: 2 * c - s.y, ax: s.ax, ay: s.ay }, fuel),
        ),
    decreases fuel,
{
    if fuel > 0 {
        let t = Step { x: s.x, y: 2 * c - s.y, ax: s.ax, ay: s.ay };
        let next = advance(ray, s);
        assert(crosses_x(flipped_y(ray), t) == crosses_x(ray, s));
        assert(map.kind_at(next.x, next.y) == map.kind_at(next.x, 2 * c - next.y));
        lemma_walk_flipped_y(map, ray, next, (fuel - 1) as nat, c);
    }
}

proof fn lemma_walk_flipped_x(map: &WorldMap, ray: Ray, s: Step, fuel: nat, c: int)
    requires
        symmetric_about_column(map, c),
    ensures
        same_wall(
            walk(map, ray, s, fuel),
            walk(map, flipped_x(ray), Step { x: 2 * c - s.x, y: s.y, ax: s.ax, ay: s.ay }, fuel),
        ),
    decreases fuel,
{
    if fuel > 0 {
        let t = Step { x: 2 * c - s.x, y: s.y, ax: s.ax, ay: s.ay };
        let next = advance(ray, s);
        assert(crosses_x(flipped_x(ray), t) == crosses_x(ray, s));
        assert(map.kind_at(next.x, next.y) == map.kind_at(2 * c - next.x, next.y));
        lemma_walk_flipped_x(map, ray, next, (fuel - 1) as nat, c);
    }
}

/// In a map that looks the same on both sides of the middle of the
/// observer's row, two rays from the middle of that row that leave it at
/// the same angle, one upwards and one downwards, meet walls of the same
/// texture equally far away.
pub proof fn lemma_mirror_about_row(map: &WorldMap, ray: Ray)
    requires
        fract(ray.oy) == HALF,
        symmetric_about_row(map, cell_of(ray.oy)),
    ensures
        same_wall(cast_spec(map, ray), cast_spec(map, flipped_y(ray))),
{
    lemma_walk_flipped_y(map, ray, start(ray), reach(map), cell_of(ray.oy));
}

/// In a map that looks the same on both sides of the middle of the
/// observer's column, two rays from the middle of that column that leave
/// it at the same angle, one to the left and one to the right, meet walls
/// of the same texture equally far away.
pub proof fn lemma_mirror_about_column(map: &WorldMap, ray: Ray)
    requires
        fract(ray.ox) == HALF,
        symmetric_about_column(map, cell_of(ray.ox)),
    ensures
        same_wall(cast_spec(map, ray), cast_spec(map, flipped_x(ray))),
{
    lemma_walk_flipped_x(map, ray, start(ray), reach(map), cell_of(ray.ox));
}

/// Whether a walk has left the grid for good: it is past the grid's last
/// cell on an axis along which it moves away.
pub open spec fn left_grid(map: &WorldMap, ray: Ray, s: Step) -> bool {
    ||| ray.dx > 0 && s.x >= map.cols()
    ||| ray.dx < 0 && s.x < 0
    ||| ray.dy > 0 && s.y >= map.rows()
    ||| ray.dy < 0 && s.y < 0
}

/// How many grid lines a walk can still cross and stay inside the grid.
pub open spec fn lines_left(map: &WorldMap, ray: Ray, s: Step) -> int {
    let on_x = if ray.dx > 0 {
        map.cols() - 1 - s.x
    } else if ray.dx < 0 {
        s.x
    } else {
        0
    };
    let on_y = if ray.dy > 0 {
        map.rows() - 1 - s.y
    } else if ray.dy < 0 {
        s.y
    } else {
        0
    };
    (if on_x > 0 {
        on_x
    } else {
        0
    }) + (if on_y > 0 {
        on_y
    } else {
        0
    })
}

/// A walk that has left the grid finds nothing, however long it goes on.
proof fn lemma_walk_outside(map: &WorldMap, ray: Ray, s: Step, fuel: nat)
    requires
        left_grid(map, ray, s),
    ensures
        walk(map, ray, s, fuel) == HitRecord::miss(),
    decreases fuel,
{
    if fuel > 0 {
        let next = advance(ray, s);
        assert(left_grid(map, ray, next));
        assert(!map.contains(next.x, next.y));
        lemma_walk_outside(map, ray, next, (fuel - 1) as nat);
    }
}

proof fn lemma_walk_far_enough(map: &WorldMap, ray: Ray, s: Step, fuel: nat, extra: nat)
    requires
        ray.dx != 0 || ray.dy != 0,
        fuel >= lines_left(map, ray, s),
    ensures
        walk(map, ray, s, fuel + extra) == walk(map, ray, s, fuel),
    decreases fuel,
{
    let next = advance(ray, s);
    if fuel == 0 {
        if extra > 0 {
            assert(left_grid(map, ray, next));
            assert(!map.contains(next.x, next.y));
            lemma_walk_outside(map, ray, next, (extra - 1) as nat);
        }
    } else {
        if left_grid(map, ray, next) {
            assert(!map.contains(next.x, next.y));
            lemma_walk_outside(map, ray, next, (fuel - 1) as nat);
            lemma_walk_outside(map, ray, next, (fuel + extra - 1) as nat);
        } else {
            lemma_walk_far_enough(map, ray, next, (fuel - 1) as nat, extra);
            assert((fuel + extra - 1) as nat == (fuel - 1) as nat + extra);
        }
    }
}

/// The bound on a walk's length hides no wall: a ray that starts inside the
/// grid and is allowed to cross more grid lines than `reach` finds what it
/// finds within `reach`.
pub proof fn lemma_reach_suffices(map: &WorldMap, ray: Ray, extra: nat)
    requires
        ray.dx != 0 || ray.dy != 0,
        map.contains(cell_of(ray.ox), cell_of(ray.oy)),
    ensures
        walk(map, ray, start(ray), reach(map) + extra) == cast_spec(map, ray),
{
    lemma_walk_far_enough(map, ray, start(ray), reach(map), extra);
}

/// Where a walk stands after it has crossed `k` grid lines.
pub open spec fn state_after(ray: Ray, k: nat) -> Step
    decreases k,
{
    if k == 0 {
        start(ray)
    } else {
        advance(ray, state_after(ray, (k - 1) as nat))
    }
}

/// What occupies the cell in which a walk stands after `k` grid lines.
pub open spec fn kind_after(map: &WorldMap, ray: Ray, k: nat) -> TileType {
    map.kind_at(state_after(ray, k).x, state_after(ray, k).y)
}

/// Whether the ray passes through the cell `(x, y)`, its sides included.
/// On each axis the ray is inside the cell's columns, or rows, from the
/// moment it has covered the cell's near gap until it has covered the far
/// one. It passes through the cell if it has not left it on one axis
/// before it enters it on the other.
pub open spec fn passes_through(ray: Ray, x: int, y: int) -> bool {
    let far_x = line_gap(ray.ox, ray.dx, x);
    let far_y = line_gap(ray.oy, ray.dy, y);
    &&& far_x >= 0
    &&& far_y >= 0
    &&& (far_x - ONE) * abs(ray.dy) <= far_y * abs(ray.dx)
    &&& (far_y - ONE) * abs(ray.dx) <= far_x * abs(ray.dy)
}

/// Whether the ray passes through the inside of the cell `(x, y)`: it
/// enters the cell on each axis before it leaves it on the other.
pub open spec fn passes_inside(ray: Ray, x: int, y: int) -> bool {
    let far_x = line_gap(ray.ox, ray.dx, x);
    let far_y = line_gap(ray.oy, ray.dy, y);
    &&& far_x > 0
    &&& far_y > 0
    &&& (far_x - ONE) * abs(ray.dy) < far_y * abs(ray.dx)
    &&& (far_y - ONE) * abs(ray.dx) < far_x * abs(ray.dy)
}

/// How many grid lines lie between the cell of the ray's start and the
/// cell `(x, y)`.
pub open spec fn lines_between(ray: Ray, x: int, y: int) -> nat {
    (abs(x - cell_of(ray.ox)) + abs(y - cell_of(ray.oy))) as nat
}

/// Whether the cell `(x, y)` lies where the ray is heading: on each axis
/// on the side of the ray's start to which the ray moves.
pub open spec fn ahead(ray: Ray, x: int, y: int) -> bool {
    &&& ray.dx > 0 ==> x >= cell_of(ray.ox)
    &&& ray.dx < 0 ==> x <= cell_of(ray.ox)
    &&& ray.dx == 0 ==> x == cell_of(ray.ox)
    &&& ray.dy > 0 ==> y >= cell_of(ray.oy)
    &&& ray.dy < 0 ==> y <= cell_of(ray.oy)
    &&& ray.dy == 0 ==> y == cell_of(ray.oy)
}

/// The walk follows the ray: after any number of grid lines it stands in
/// a cell that the ray passes through, that many lines from the start,
/// and knows how far the sides are through which the ray leaves it.
pub proof fn lemma_walk_follows_ray(ray: Ray, k: nat)
    requires
        ray.dx != 0 || ray.dy != 0,
    ensures
        ({
            let s = state_after(ray, k);
            &&& s.ax == line_gap(ray.ox, ray.dx, s.x)
            &&& s.ay == line_gap(ray.oy, ray.dy, s.y)
            &&& passes_through(ray, s.x, s.y)
            &&& ahead(ray, s.x, s.y)
            &&& lines_between(ray, s.x, s.y) == k
        }),
    decreases k,
{
    let m = abs(ray.dx);
    let n = abs(ray.dy);
    if k == 0 {
        let s = start(ray);
        lemma_start_gaps(ray);
        assert((s.ax - ONE) * n <= 0 && 0 <= s.ay * m && (s.ay - ONE) * m <= 0 && 0 <= s.ax * n)
            by (nonlinear_arith)
            requires
                0 <= s.ax <= ONE,
                0 <= s.ay <= ONE,
                m >= 0,
                n >= 0,
        ;
    } else {
        let s = state_after(ray, (k - 1) as nat);
        lemma_walk_follows_ray(ray, (k - 1) as nat);
        if crosses_x(ray, s) {
            assert((s.ax + ONE - ONE) * n <= s.ay * m && (s.ay - ONE) * m <= (s.ax + ONE) * n)
                by (nonlinear_arith)
                requires
                    n == 0 || s.ax * n < s.ay * m,
                    (s.ay - ONE) * m <= s.ax * n,
                    s.ay >= 0,
                    m >= 0,
                    n >= 0,
            ;
        } else {
            assert((s.ay + ONE - ONE) * m <= s.ax * n && (s.ax - ONE) * n <= (s.ay + ONE) * m)
                by (nonlinear_arith)
                requires
                    m == 0 || s.ay * m <= s.ax * n,
                    (s.ax - ONE) * n <= s.ay * m,
                    s.ax >= 0,
                    m >= 0,
                    n >= 0,
            ;
        }
    }
}

/// Of two cells, the second further along the first axis and the first
/// further along the other: if the ray passes through the second, it has
/// left the first on the first axis by the time it enters it on the other.
proof fn lemma_one_cell_in_turn(fx: int, fy: int, gx: int, gy: int, m: int, n: int)
    requires
        m >= 0,
        n >= 0,
        gx >= fx + ONE,
        fy >= gy + ONE,
        (gx - ONE) * n <= gy * m,
    ensures
        fx * n <= (fy - ONE) * m,
{
    assert(fx * n <= (gx - ONE) * n) by (nonlinear_arith)
        requires
            fx <= gx - ONE,
            n >= 0,
    ;
    assert(gy * m <= (fy - ONE) * m) by (nonlinear_arith)
        requires
            gy <= fy - ONE,
            m >= 0,
    ;
}

/// The walk skips nothing: a cell through whose inside the ray passes is
/// the cell in which the walk stands when it has crossed the grid lines
/// that lie between that cell and the start.
pub proof fn lemma_walk_skips_nothing(ray: Ray, x: int, y: int)
    requires
        ray.dx != 0 || ray.dy != 0,
        passes_inside(ray, x, y),
    ensures
        ahead(ray, x, y),
        state_after(ray, lines_between(ray, x, y)).x == x,
        state_after(ray, lines_between(ray, x, y)).y == y,
{
    let m = abs(ray.dx);
    let n = abs(ray.dy);
    let fx = line_gap(ray.ox, ray.dx, x);
    let fy = line_gap(ray.oy, ray.dy, y);
    vstd::arithmetic::div_mod::lemma_fundamental_div_mod(ray.ox, ONE as int);
    vstd::arithmetic::div_mod::lemma_fundamental_div_mod(ray.oy, ONE as int);
    if ray.dx == 0 {
        assert(0 < fx < ONE) by (nonlinear_arith)
            requires
                (fx - ONE) * n < fy * m,
                (fy - ONE) * m < fx * n,
                m == 0,
                n > 0,
        ;
    }
    if ray.dy == 0 {
        assert(0 < fy < ONE) by (nonlinear_arith)
            requires
                (fx - ONE) * n < fy * m,
                (fy - ONE) * m < fx * n,
                n == 0,
                m > 0,
        ;
    }
    assert(ahead(ray, x, y));
    let k = lines_between(ray, x, y);
    let s = state_after(ray, k);
    lemma_walk_follows_ray(ray, k);
    let gx = line_gap(ray.ox, ray.dx, s.x);
    let gy = line_gap(ray.oy, ray.dy, s.y);
    if abs(s.x - cell_of(ray.ox)) > abs(x - cell_of(ray.ox)) {
        lemma_one_cell_in_turn(fx, fy, gx, gy, m, n);
    } else if abs(s.x - cell_of(ray.ox)) < abs(x - cell_of(ray.ox)) {
        lemma_one_cell_in_turn(fy, fx, gy, gx, n, m);
    }
}

proof fn lemma_walk_from(map: &WorldMap, ray: Ray, i: nat, k: nat, fuel: nat, code: u8)
    requires
        i <= k < fuel,
        forall|j: nat| 1 <= j <= k ==> #[trigger] kind_after(map, ray, j) == TileType::Void,
        kind_after(map, ray, (k + 1) as nat) == TileType::Wall(code),
    ensures
        walk(map, ray, state_after(ray, i), (fuel - i) as nat) == record_at(
            ray,
            state_after(ray, k),
            code,
        ),
    decreases k - i,
{
    let s = state_after(ray, i);
    assert(advance(ray, s) == state_after(ray, (i + 1) as nat));
    if i < k {
        assert(kind_after(map, ray, (i + 1) as nat) == TileType::Void);
        lemma_walk_from(map, ray, (i + 1) as nat, k, fuel, code);
        assert((fuel - i - 1) as nat == (fuel - (i + 1) as nat) as nat);
    }
}

/// The walk reports the first wall it enters: if the cell entered across
/// grid line `k + 1` is the first that holds a wall, and the walk may go
/// that far, the record is that of this wall, met from where the walk
/// stood after `k` lines.
pub proof fn lemma_walk_finds_first_wall(map: &WorldMap, ray: Ray, k: nat, fuel: nat, code: u8)
    requires
        k < fuel,
        forall|j: nat| 1 <= j <= k ==> #[trigger] kind_after(map, ray, j) == TileType::Void,
        kind_after(map, ray, (k + 1) as nat) == TileType::Wall(code),
    ensures
        walk(map, ray, start(ray), fuel) == record_at(ray, state_after(ray, k), code),
{
    lemma_walk_from(map, ray, 0, k, fuel, code);
}

proof fn lemma_walk_empty_from(map: &WorldMap, ray: Ray, i: nat, fuel: nat)
    requires
        i <= fuel,
        forall|j: nat| 1 <= j <= fuel ==> #[trigger] kind_after(map, ray, j) == TileType::Void,
    ensures
        walk(map, ray, state_after(ray, i), (fuel - i) as nat) == HitRecord::miss(),
    decreases fuel - i,
{
    if i < fuel {
        let s = state_after(ray, i);
        assert(advance(ray, s) == state_after(ray, (i + 1) as nat));
        assert(kind_after(map, ray, (i + 1) as nat) == TileType::Void);
        lemma_walk_empty_from(map, ray, (i + 1) as nat, fuel);
        assert((fuel - i - 1) as nat == (fuel - (i + 1) as nat) as nat);
    }
}

/// A walk that enters no wall reports a miss.
pub proof fn lemma_walk_finds_nothing(map: &WorldMap, ray: Ray, fuel: nat)
    requires
        forall|j: nat| 1 <= j <= fuel ==> #[trigger] kind_after(map, ray, j) == TileType::Void,
    ensures
        walk(map, ray, start(ray), fuel) == HitRecord::miss(),
{
    lemma_walk_empty_from(map, ray, 0, fuel);
}

/// What a cast finds is the first wall on the ray's way: if the ray
/// starts inside the grid, and of the cells that its walk enters the one
/// across grid line `k + 1` is the first that holds a wall, the record is
/// that of this wall, however far away it is. In a grid of fewer than
/// `2^31` columns and rows together the wall is always nearer than
/// `MAX_DISTANCE`, so that the record is no miss.
pub proof fn lemma_cast_finds_first_wall(map: &WorldMap, ray: Ray, k: nat, code: u8)
    requires
        ray.dx != 0 || ray.dy != 0,
        map.contains(cell_of(ray.ox), cell_of(ray.oy)),
        forall|j: nat| 1 <= j <= k ==> #[trigger] kind_after(map, ray, j) == TileType::Void,
        kind_after(map, ray, (k + 1) as nat) == TileType::Wall(code),
    ensures
        cast_spec(map, ray) == record_at(ray, state_after(ray, k), code),
        map.cols() + map.rows() < 0x8000_0000 ==> cast_spec(map, ray).is_hit() && cast_spec(
            map,
            ray,
        ).texture_code == code,
{
    let s = state_after(ray, (k + 1) as nat);
    lemma_walk_follows_ray(ray, (k + 1) as nat);
    assert(map.contains(s.x, s.y));
    lemma_walk_finds_first_wall(map, ray, k, reach(map), code);
    if map.cols() + map.rows() < 0x8000_0000 {
        let t = state_after(ray, k);
        lemma_walk_follows_ray(ray, k);
        vstd::arithmetic::div_mod::lemma_fundamental_div_mod(ray.ox, ONE as int);
        vstd::arithmetic::div_mod::lemma_fundamental_div_mod(ray.oy, ONE as int);
        assert(0 <= t.ax <= (k + 1) * ONE && 0 <= t.ay <= (k + 1) * ONE);
        if crosses_x(ray, t) {
            lemma_hit_reported(t.ax, ray.dx, ray.oy, ray.dy, code, Side::Vertical);
        } else {
            lemma_hit_reported(t.ay, ray.dy, ray.ox, ray.dx, code, Side::Horizontal);
        }
    }
}

/// A ray on whose way no cell holds a wall finds nothing.
pub proof fn lemma_cast_finds_nothing(map: &WorldMap, ray: Ray)
    requires
        forall|j: nat| 1 <= j ==> #[trigger] kind_after(map, ray, j) == TileType::Void,
    ensures
        cast_spec(map, ray) == HitRecord::miss(),
{
    lemma_walk_finds_nothing(map, ray, reach(map));
}

/// The row up to which a ray that moves by `dy` along y may run before it
/// reaches a wall that spans the rows from `lo` to `hi`.
pub open spec fn far_row(cy: int, dy: int, lo: int, hi: int) -> int {
    if dy > 0 {
        hi
    } else if dy < 0 {
        lo
    } else {
        cy
    }
}

/// Whether the ray from `(ox, oy)` along `d` runs towards column `w` and
/// reaches the plane of that column's near face between the rows `lo` and
/// `hi`.
pub open spec fn aims_at_wall(ox: int, oy: int, d: (i64, i64), w: int, lo: int, hi: int) -> bool {
    &&& sign(d.0 as int) == sign(w - cell_of(ox))
    &&& d.1 != 0 ==> face_gap(ox, d.0 as int, w) * abs(d.1 as int) < line_gap(
        oy,
        d.1 as int,
        far_row(cell_of(oy), d.1 as int, lo, hi),
    ) * abs(d.0 as int)
}

/// A fan of rays across a flat wall shows no fisheye.
///
/// The observer stands on open floor and looks at a wall that fills
/// column `w` from row `lo` to row `hi`. Every ray of the fan that reaches
/// the wall's plane between those rows meets the wall on a vertical line,
/// at the distance of the plane divided by the share of the ray's
/// direction that points at the wall. For directions of length `ONE` that
/// share is the cosine of the angle between the ray and the wall's normal:
/// the distances are those of the plane, each divided by its cosine.
pub proof fn lemma_fan_on_flat_wall(
    observer: &ObserverState,
    map: &WorldMap,
    directions: Seq<(i64, i64)>,
    w: int,
    lo: int,
    hi: int,
    code: u8,
)
    requires
        map.wf(),
        map.contains(
            cell_of(observer.position_spec().0 as int),
            cell_of(observer.position_spec().1 as int),
        ),
        w != cell_of(observer.position_spec().0 as int),
        lo <= cell_of(observer.position_spec().1 as int) <= hi,
        forall|x: int, y: int|
            within(
                cell_of(observer.position_spec().0 as int),
                x,
                w - sign(w - cell_of(observer.position_spec().0 as int)),
            ) && lo <= y <= hi ==> #[trigger] map.kind_at(x, y) == TileType::Void,
        forall|y: int| lo <= y <= hi ==> #[trigger] map.kind_at(w, y) == TileType::Wall(code),
        forall|i: int|
            0 <= i < directions.len() ==> aims_at_wall(
                observer.position_spec().0 as int,
                observer.position_spec().1 as int,
                #[trigger] directions[i],
                w,
                lo,
                hi,
            ),
    ensures
        forall|i: int|
            0 <= i < directions.len() ==> {
                let base = face_gap(
                    observer.position_spec().0 as int,
                    w - cell_of(observer.position_spec().0 as int),
                    w,
                );
                let r = #[trigger] sample_spec(observer, map, directions)[i];
                &&& r.is_hit()
                &&& r.side == Side::Vertical
                &&& r.texture_code == code
                &&& r.distance == base * ONE / abs(directions[i].0 as int)
            },
{
    let ox = observer.position_spec().0 as int;
    let oy = observer.position_spec().1 as int;
    let cx = cell_of(ox);
    let cy = cell_of(oy);
    let base = face_gap(ox, w - cx, w);
    map.lemma_layout();
    vstd::arithmetic::div_mod::lemma_fundamental_div_mod(ox, ONE as int);
    assert(map.kind_at(w, cy) == TileType::Wall(code));
    assert(map.contains(w, cy));
    assert(0 <= base < 0x8000_0000_0000);
    assert forall|i: int| 0 <= i < directions.len() implies {
        let r = #[trigger] sample_spec(observer, map, directions)[i];
        &&& r.is_hit()
        &&& r.side == Side::Vertical
        &&& r.texture_code == code
        &&& r.distance == base * ONE / abs(directions[i].0 as int)
    } by {
        let d = directions[i];
        let ray = ray_of(observer.position_spec(), d);
        assert(aims_at_wall(ox, oy, d, w, lo, hi));
        let yf = far_row(cy, ray.dy, lo, hi);
        assert(face_gap(ox, ray.dx, w) == base);
        lemma_vertical_wall_ahead(map, ray, w, yf, code);
        lemma_hit_reported(base, ray.dx, oy, ray.dy, code, Side::Vertical);
    }
}

} // verus!
