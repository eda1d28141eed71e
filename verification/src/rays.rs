use crate::entities::{observed, Entity, ObserverState};
use crate::fixed::{abs, cell, cell_of, div_floor, fract, normalized, sign, ONE, TWO_PI};
use crate::world::{TileType, WorldMap};
use vstd::prelude::*;

verus! {

/// The distance reported when a ray meets no wall within reach. No wall
/// is reported at this distance or beyond it.
pub const MAX_DISTANCE: i64 = 0x7fff_ffff_ffff_ffff;

/// Which family of grid lines a ray crossed when it met its wall.
#[derive(Clone, Copy, Debug, PartialEq, Eq, Structural)]
pub enum Side {
    /// A line of constant `x`: the wall's face looks east or west.
    Vertical,
    /// A line of constant `y`: the wall's face looks north or south.
    Horizontal,
}

/// What one ray found.
#[derive(Clone, Copy, Debug, PartialEq, Eq, Structural)]
pub struct HitRecord {
    /// How far along the ray the wall lies, in lengths of the ray's
    /// direction; `MAX_DISTANCE` when there is none.
    pub distance: i64,
    /// The texture code of the wall.
    pub texture_code: u8,
    /// How far along the wall's face the ray met it, in `[0, ONE)`.
    pub wall_u: i64,
    /// The family of grid lines crossed last.
    pub side: Side,
}

impl HitRecord {
    /// The record of a ray that met no wall.
    pub open spec fn miss() -> HitRecord {
        HitRecord { distance: MAX_DISTANCE, texture_code: 0, wall_u: 0, side: Side::Vertical }
    }

    /// A record is either that of a miss, or holds a distance from zero up
    /// to but not including `MAX_DISTANCE`; its wall coordinate always
    /// lies in `[0, ONE)`.
    pub open spec fn wf(self) -> bool {
        &&& 0 <= self.distance <= MAX_DISTANCE
        &&& 0 <= self.wall_u < ONE
        &&& self.distance == MAX_DISTANCE ==> self == HitRecord::miss()
    }

    /// Whether the ray met a wall.
    pub open spec fn is_hit(self) -> bool {
        self.distance != MAX_DISTANCE
    }

    /// The record of a ray that met no wall.
    pub fn no_hit() -> (r: HitRecord)
        ensures
            r == HitRecord::miss(),
    {
        HitRecord { distance: MAX_DISTANCE, texture_code: 0, wall_u: 0, side: Side::Vertical }
    }

    /// How tall the wall stands on a screen `screen_height` pixels high:
    /// the screen's height divided by the distance. A wall one cell away
    /// fills the screen. A miss has no height, the nearest distance drawn
    /// is the smallest above zero, and the height stops at `u32::MAX`.
    pub fn strip_height(&self, screen_height: u32) -> (h: u32)
        ensures
            h == strip_height_spec(self.distance as int, screen_height as int),
    {
        if self.distance >= MAX_DISTANCE {
            return 0;
        }
        let near: i128 = if self.distance < 1 {
            1
        } else {
            self.distance as i128
        };
        assert(0 <= screen_height * ONE <= 0xffff_ffff * 65536) by (nonlinear_arith)
            requires
                0 <= screen_height <= 0xffff_ffff,
                ONE == 65536,
        ;
        let tall: i128 = (screen_height as i128) * (ONE as i128) / near;
        if tall > 0xffff_ffff {
            0xffff_ffff
        } else {
            tall as u32
        }
    }

    /// The column of a texture `texture_width` pixels wide that shows on
    /// the wall where the ray met it.
    pub fn texture_column(&self, texture_width: u32) -> (c: u32)
        requires
            0 <= self.wall_u < ONE,
        ensures
            c == texture_column_spec(self.wall_u as int, texture_width as int),
            texture_width > 0 ==> c < texture_width,
    {
        assert(0 <= self.wall_u * texture_width <= 65535 * texture_width) by (nonlinear_arith)
            requires
                0 <= self.wall_u <= 65535,
                0 <= texture_width,
        ;
        let scaled: i128 = (self.wall_u as i128) * (texture_width as i128);
        let c: i128 = scaled / (ONE as i128);
        c as u32
    }
}

/// The height on screen of a wall at `distance`.
pub open spec fn strip_height_spec(distance: int, screen_height: int) -> int {
    if distance >= MAX_DISTANCE {
        0
    } else {
        let near = if distance < 1 {
            1
        } else {
            distance
        };
        let tall = screen_height * ONE / near;
        if tall > u32::MAX {
            u32::MAX as int
        } else {
            tall
        }
    }
}

/// The texture column at `wall_u` along a wall's face.
pub open spec fn texture_column_spec(wall_u: int, texture_width: int) -> int {
    wall_u * texture_width / (ONE as int)
}

/// A ray: where it starts and the vector it runs along, in fixed point.
pub struct Ray {
    pub ox: int,
    pub oy: int,
    pub dx: int,
    pub dy: int,
}

/// A moment of a ray's walk through the grid.
pub struct Step {
    /// The cell the ray is in.
    pub x: int,
    pub y: int,
    /// How far from the ray's start, measured along the x axis, the next
    /// vertical grid line lies.
    pub ax: int,
    /// The same along the y axis, for the next horizontal grid line.
    pub ay: int,
}

/// The ray from `origin` along `direction`.
pub open spec fn ray_of(origin: (i64, i64), direction: (i64, i64)) -> Ray {
    Ray { ox: origin.0 as int, oy: origin.1 as int, dx: direction.0 as int, dy: direction.1 as int }
}

/// How far the coordinate `o` lies from the first grid line that a ray
/// moving by `d` along this axis crosses. A ray that starts on a grid line
/// and moves towards smaller coordinates crosses that line at once.
pub open spec fn first_gap(o: int, d: int) -> int {
    if d > 0 {
        ONE - fract(o)
    } else {
        fract(o)
    }
}

/// Where a walk begins: in the cell of the ray's start.
pub open spec fn start(ray: Ray) -> Step {
    Step {
        x: cell_of(ray.ox),
        y: cell_of(ray.oy),
        ax: first_gap(ray.ox, ray.dx),
        ay: first_gap(ray.oy, ray.dy),
    }
}

/// Whether the ray crosses a vertical grid line next. It reaches the
/// vertical line after `ax / |dx|` of its length and the horizontal one
/// after `ay / |dy|`; the nearer is crossed, the horizontal one when both
/// are equally near. A ray that does not move along an axis never crosses
/// a line of it.
pub open spec fn crosses_x(ray: Ray, s: Step) -> bool {
    ray.dx != 0 && (ray.dy == 0 || s.ax * abs(ray.dy) < s.ay * abs(ray.dx))
}

/// The walk one grid line later.
pub open spec fn advance(ray: Ray, s: Step) -> Step {
    if crosses_x(ray, s) {
        Step { x: s.x + sign(ray.dx), y: s.y, ax: s.ax + ONE, ay: s.ay }
    } else {
        Step { x: s.x, y: s.y + sign(ray.dy), ax: s.ax, ay: s.ay + ONE }
    }
}

/// The record of a wall met at a grid line that lies `along` from the
/// ray's start, measured along the axis on which the ray moves by `d`
/// (`d` is not zero). On the other axis the ray starts at `other` and moves
/// by `d_other`. The wall lies `along / |d|` lengths of the ray away, and
/// there the ray has moved `along * d_other / |d|` on the other axis.
pub open spec fn hit(along: int, d: int, other: int, d_other: int, code: u8, side: Side)
    -> HitRecord {
    let distance = along * ONE / abs(d);
    if distance >= MAX_DISTANCE {
        HitRecord::miss()
    } else {
        HitRecord {
            distance: distance as i64,
            texture_code: code,
            wall_u: fract(other + along * d_other / abs(d)) as i64,
            side,
        }
    }
}

/// The record of the wall with texture `code` that the ray enters when it
/// crosses its next grid line from `s`.
pub open spec fn record_at(ray: Ray, s: Step, code: u8) -> HitRecord {
    if crosses_x(ray, s) {
        hit(s.ax, ray.dx, ray.oy, ray.dy, code, Side::Vertical)
    } else {
        hit(s.ay, ray.dy, ray.ox, ray.dx, code, Side::Horizontal)
    }
}

/// What the ray finds when it walks on from `s` across at most `fuel` grid
/// lines: the first wall it enters.
pub open spec fn walk(map: &WorldMap, ray: Ray, s: Step, fuel: nat) -> HitRecord
    decreases fuel,
{
    if fuel == 0 {
        HitRecord::miss()
    } else {
        let next = advance(ray, s);
        match map.kind_at(next.x, next.y) {
            TileType::Wall(code) => record_at(ray, s, code),
            TileType::Void => walk(map, ray, next, (fuel - 1) as nat),
        }
    }
}

/// How many grid lines a ray may cross: no ray that starts inside the
/// grid crosses more before it leaves.
pub open spec fn reach(map: &WorldMap) -> nat {
    (map.cols() + map.rows()) as nat
}

/// What a ray finds in a map. A ray without direction, or one that starts
/// outside the grid, finds nothing.
pub open spec fn cast_spec(map: &WorldMap, ray: Ray) -> HitRecord {
    let s = start(ray);
    if (ray.dx == 0 && ray.dy == 0) || !map.contains(s.x, s.y) {
        HitRecord::miss()
    } else {
        walk(map, ray, s, reach(map))
    }
}

/// Every record that `hit` gives is well formed.
pub proof fn lemma_hit_wf(along: int, d: int, other: int, d_other: int, code: u8, side: Side)
    requires
        along >= 0,
        d != 0,
    ensures
        hit(along, d, other, d_other, code, side).wf(),
{
    assert(0 <= along * ONE) by (nonlinear_arith)
        requires
            along >= 0,
    ;
    vstd::arithmetic::div_mod::lemma_div_pos_is_pos(along * ONE, abs(d));
}

/// A wall less than `2^31` cells away along its axis is reported: its
/// record is no miss, and holds the distance `along / |d|`.
pub proof fn lemma_hit_reported(
    along: int,
    d: int,
    other: int,
    d_other: int,
    code: u8,
    side: Side,
)
    requires
        0 <= along < 0x8000_0000_0000,
        d != 0,
    ensures
        hit(along, d, other, d_other, code, side) == (HitRecord {
            distance: (along * ONE / abs(d)) as i64,
            texture_code: code,
            wall_u: fract(other + along * d_other / abs(d)) as i64,
            side,
        }),
        0 <= along * ONE / abs(d) < MAX_DISTANCE,
{
    assert(0 <= along * ONE < 0x8000_0000_0000 * 65536) by (nonlinear_arith)
        requires
            0 <= along < 0x8000_0000_0000,
            ONE == 65536,
    ;
    vstd::arithmetic::div_mod::lemma_div_pos_is_pos(along * ONE, abs(d));
    vstd::arithmetic::div_mod::lemma_div_is_ordered_by_denominator(along * ONE, 1, abs(d));
}

/// A walk that starts with gaps that are not negative gives a well formed
/// record.
proof fn lemma_walk_wf(map: &WorldMap, ray: Ray, s: Step, fuel: nat)
    requires
        ray.dx != 0 || ray.dy != 0,
        s.ax >= 0,
        s.ay >= 0,
    ensures
        walk(map, ray, s, fuel).wf(),
    decreases fuel,
{
    if fuel > 0 {
        let next = advance(ray, s);
        match map.kind_at(next.x, next.y) {
            TileType::Wall(code) => {
                if crosses_x(ray, s) {
                    lemma_hit_wf(s.ax, ray.dx, ray.oy, ray.dy, code, Side::Vertical);
                } else {
                    lemma_hit_wf(s.ay, ray.dy, ray.ox, ray.dx, code, Side::Horizontal);
                }
            },
            TileType::Void => {
                lemma_walk_wf(map, ray, next, (fuel - 1) as nat);
            },
        }
    }
}

/// Whatever the map and the ray, the record is well formed: the distance
/// is not negative, and is `MAX_DISTANCE` only for a miss; the wall
/// coordinate lies in `[0, ONE)`.
pub proof fn lemma_cast_wf(map: &WorldMap, ray: Ray)
    ensures
        cast_spec(map, ray).wf(),
{
    if ray.dx != 0 || ray.dy != 0 {
        lemma_walk_wf(map, ray, start(ray), reach(map));
    }
}

fn make_hit(along: i64, d: i64, other: i64, d_other: i64, code: u8, side: Side) -> (r: HitRecord)
    requires
        0 <= along < 0x4_0000_0000_0000,
        d != 0,
    ensures
        r == hit(along as int, d as int, other as int, d_other as int, code, side),
        r.wf(),
{
    proof {
        lemma_hit_wf(along as int, d as int, other as int, d_other as int, code, side);
    }
    let ad: i128 = if d < 0 {
        -(d as i128)
    } else {
        d as i128
    };
    let scaled: i128 = (along as i128) * (ONE as i128);
    let distance: i128 = scaled / ad;
    if distance >= MAX_DISTANCE as i128 {
        return HitRecord::no_hit();
    }
    assert(-0x4_0000_0000_0000 * 0x8000_0000_0000_0000 <= along * d_other
        <= 0x4_0000_0000_0000 * 0x8000_0000_0000_0000) by (nonlinear_arith)
        requires
            0 <= along < 0x4_0000_0000_0000,
            -0x8000_0000_0000_0000 <= d_other < 0x8000_0000_0000_0000,
    ;
    let moved: i128 = (along as i128) * (d_other as i128);
    let shift = div_floor(moved, ad);
    proof {
        vstd::arithmetic::div_mod::lemma_fundamental_div_mod(moved as int, ad as int);
        assert(-0x4_0000_0000_0000 * 0x8000_0000_0000_0000 - 1 <= shift.0
            <= 0x4_0000_0000_0000 * 0x8000_0000_0000_0000) by (nonlinear_arith)
            requires
                moved == ad * shift.0 + shift.1,
                0 <= shift.1 < ad,
                -0x4_0000_0000_0000 * 0x8000_0000_0000_0000 <= moved
                    <= 0x4_0000_0000_0000 * 0x8000_0000_0000_0000,
        ;
    }
    let at: i128 = (other as i128) + shift.0;
    let u = div_floor(at, ONE as i128);
    HitRecord { distance: distance as i64, texture_code: code, wall_u: u.1 as i64, side }
}

/// Casts one ray through the map, from `origin` along `direction`, and
/// reports the first wall it enters.
///
/// The ray walks from grid line to grid line, each time across the nearer
/// of the next vertical and the next horizontal one. The distance is
/// counted in lengths of `direction`: with a direction of length `ONE` it
/// is the distance in cells.
pub fn cast(origin: (i64, i64), direction: (i64, i64), map: &WorldMap) -> (r: HitRecord)
    ensures
        r == cast_spec(map, ray_of(origin, direction)),
        r.wf(),
{
    let ghost ray = ray_of(origin, direction);
    let ox: i64 = origin.0;
    let oy: i64 = origin.1;
    let dx: i64 = direction.0;
    let dy: i64 = direction.1;
    let cx: i64 = cell(ox);
    let cy: i64 = cell(oy);
    let width: i64 = map.width() as i64;
    let height: i64 = map.height() as i64;
    proof {
        use_type_invariant(map);
        map.lemma_layout();
    }
    if (dx == 0 && dy == 0) || cx < 0 || cx >= width || cy < 0 || cy >= height {
        return HitRecord::no_hit();
    }
    let adx: i128 = if dx < 0 {
        -(dx as i128)
    } else {
        dx as i128
    };
    let ady: i128 = if dy < 0 {
        -(dy as i128)
    } else {
        dy as i128
    };
    let sx: i64 = if dx < 0 {
        -1
    } else if dx > 0 {
        1
    } else {
        0
    };
    let sy: i64 = if dy < 0 {
        -1
    } else if dy > 0 {
        1
    } else {
        0
    };
    let fx: i64 = ox - cx * ONE;
    let fy: i64 = oy - cy * ONE;
    proof {
        vstd::arithmetic::div_mod::lemma_fundamental_div_mod(ox as int, ONE as int);
        vstd::arithmetic::div_mod::lemma_fundamental_div_mod(oy as int, ONE as int);
    }
    let mut ax: i64 = if dx > 0 {
        ONE - fx
    } else {
        fx
    };
    let mut ay: i64 = if dy > 0 {
        ONE - fy
    } else {
        fy
    };
    let mut x: i64 = cx;
    let mut y: i64 = cy;
    let limit: i64 = width + height;
    let mut steps: i64 = 0;
    while steps < limit
        invariant
            ray == ray_of(origin, direction),
            ray.dx == dx && ray.dy == dy && ray.ox == ox && ray.oy == oy,
            dx != 0 || dy != 0,
            adx == abs(dx as int),
            ady == abs(dy as int),
            sx == sign(dx as int),
            sy == sign(dy as int),
            limit == reach(map),
            0 <= steps <= limit <= 0xffff_fffe,
            0 <= ax <= ONE + steps * ONE,
            0 <= ay <= ONE + steps * ONE,
            cx - steps <= x <= cx + steps,
            cy - steps <= y <= cy + steps,
            0 <= cx <= 0x7fff_ffff,
            0 <= cy <= 0x7fff_ffff,
            cast_spec(map, ray) == walk(
                map,
                ray,
                Step { x: x as int, y: y as int, ax: ax as int, ay: ay as int },
                (limit - steps) as nat,
            ),
        decreases limit - steps,
    {
        let ghost s = Step { x: x as int, y: y as int, ax: ax as int, ay: ay as int };
        assert(0 <= ax * ady <= 0x2_0000_0000_0000 * 0x8000_0000_0000_0000 && 0 <= ay * adx
            <= 0x2_0000_0000_0000 * 0x8000_0000_0000_0000) by (nonlinear_arith)
            requires
                0 <= ax <= 0x2_0000_0000_0000,
                0 <= ay <= 0x2_0000_0000_0000,
                0 <= adx <= 0x8000_0000_0000_0000,
                0 <= ady <= 0x8000_0000_0000_0000,
        ;
        let by_x: bool = dx != 0 && (dy == 0 || (ax as i128) * ady < (ay as i128) * adx);
        assert(by_x == crosses_x(ray, s));
        if by_x {
            match map.kind_in(x + sx, y) {
                TileType::Wall(code) => {
                    return make_hit(ax, dx, oy, dy, code, Side::Vertical);
                },
                TileType::Void => {
                    x = x + sx;
                    ax = ax + ONE;
                },
            }
        } else {
            match map.kind_in(x, y + sy) {
                TileType::Wall(code) => {
                    return make_hit(ay, dy, ox, dx, code, Side::Horizontal);
                },
                TileType::Void => {
                    y = y + sy;
                    ay = ay + ONE;
                },
            }
        }
        steps = steps + 1;
    }
    HitRecord::no_hit()
}

/// What the rays of one frame found, one record for each screen column,
/// from left to right.
#[derive(Debug)]
pub struct Rays {
    pub records: Vec<HitRecord>,
}

impl View for Rays {
    type V = Seq<HitRecord>;

    open spec fn view(&self) -> Seq<HitRecord> {
        self.records@
    }
}

/// The angle of the ray through the middle of column `i` of `n`, for an
/// observer that faces `direction` and sees `fov` wide: the field of view
/// is cut into `n` equal slices, and the ray runs through the middle of
/// slice `i`. The angle is rounded down and lies in `[0, TWO_PI)`.
pub open spec fn column_angle(direction: int, fov: int, i: int, n: int) -> int {
    normalized((2 * n * direction - n * fov + fov * (2 * i + 1)) / (2 * n))
}

/// The rays that `observer` sends through the columns of a screen, each
/// along its entry of `directions`, in that order.
pub open spec fn sample_spec(
    observer: &ObserverState,
    map: &WorldMap,
    directions: Seq<(i64, i64)>,
) -> Seq<HitRecord> {
    Seq::new(
        directions.len(),
        |i: int| cast_spec(map, ray_of(observer.position_spec(), directions[i])),
    )
}

/// The angle of the ray through the middle of column `i` of `n`.
pub fn ray_angle(observer: &ObserverState, i: u32, n: u32) -> (a: i64)
    requires
        i < n,
    ensures
        a == column_angle(observer.direction_spec(), observer.fov_spec(), i as int, n as int),
        0 <= a < TWO_PI,
{
    let d: i128 = observer.direction() as i128;
    let f: i128 = observer.fov() as i128;
    let m: i128 = n as i128;
    let k: i128 = 2 * (i as i128) + 1;
    assert(0 <= 2 * m * d <= 2 * 0xffff_ffff * 411774 && 0 <= m * f <= 0xffff_ffff * 205887 && 0
        <= f * k <= 205887 * 0x2_0000_0000) by (nonlinear_arith)
        requires
            0 <= d <= 411774,
            0 <= f <= 205887,
            0 <= m <= 0xffff_ffff,
            0 <= k <= 0x2_0000_0000,
    ;
    let num: i128 = 2 * m * d - m * f + f * k;
    let q = div_floor(num, 2 * m);
    proof {
        vstd::arithmetic::div_mod::lemma_fundamental_div_mod(num as int, 2 * m as int);
        assert(-0x1_0000_0000_0000_0000 <= q.0 <= 0x1_0000_0000_0000_0000) by (nonlinear_arith)
            requires
                num == (2 * m) * q.0 + q.1,
                0 <= q.1 < 2 * m,
                -0x1_0000_0000_0000_0000 <= num <= 0x1_0000_0000_0000_0000,
                m >= 1,
        ;
    }
    let r = div_floor(q.0, TWO_PI as i128);
    r.1 as i64
}

/// The angles of the rays through the middles of `column_count` columns,
/// from left to right.
pub fn ray_angles(observer: &ObserverState, column_count: u32) -> (angles: Vec<i64>)
    ensures
        angles@.len() == column_count,
        forall|i: int|
            0 <= i < column_count ==> #[trigger] angles@[i] == column_angle(
                observer.direction_spec(),
                observer.fov_spec(),
                i,
                column_count as int,
            ),
{
    let mut angles: Vec<i64> = Vec::new();
    let mut i: u32 = 0;
    while i < column_count
        invariant
            0 <= i <= column_count,
            angles@.len() == i,
            forall|j: int|
                0 <= j < i ==> #[trigger] angles@[j] == column_angle(
                    observer.direction_spec(),
                    observer.fov_spec(),
                    j,
                    column_count as int,
                ),
        decreases column_count - i,
    {
        angles.push(ray_angle(observer, i, column_count));
        i = i + 1;
    }
    angles
}

/// Casts one ray from where `observer` stands for each screen column,
/// along the column's entry of `directions`, and gives the records in the
/// order of the columns.
pub fn sample(observer: &ObserverState, map: &WorldMap, directions: &Vec<(i64, i64)>) -> (r: Rays)
    ensures
        r@ == sample_spec(observer, map, directions@),
        r@.len() == directions@.len(),
        forall|i: int| 0 <= i < r@.len() ==> (#[trigger] r@[i]).wf(),
{
    let origin = observer.position();
    let mut records: Vec<HitRecord> = Vec::new();
    let mut i: usize = 0;
    while i < directions.len()
        invariant
            0 <= i <= directions@.len(),
            origin == observer.position_spec(),
            records@.len() == i,
            forall|j: int|
                0 <= j < i ==> #[trigger] records@[j] == cast_spec(
                    map,
                    ray_of(origin, directions@[j]),
                ),
            forall|j: int| 0 <= j < i ==> (#[trigger] records@[j]).wf(),
        decreases directions@.len() - i,
    {
        records.push(cast(origin, directions[i], map));
        i = i + 1;
    }
    assert(records@ =~= sample_spec(observer, map, directions@));
    Rays { records }
}

/// Whether `rays` is what an entity sees that is observed in `state`:
/// nothing if there is no such state, and else the records of the rays
/// cast from where the observer stands, one along each of `directions`.
pub open spec fn seen_from(
    state: Option<ObserverState>,
    map: &WorldMap,
    directions: Seq<(i64, i64)>,
    rays: Option<Rays>,
) -> bool {
    match state {
        Some(observer) => rays is Some && rays->Some_0@ == sample_spec(&observer, map, directions),
        None => rays is None,
    }
}

/// Casts the rays of one frame for `entity`, one for each screen column
/// along the column's entry of `directions`, from where the entity stands
/// at this moment. An entity whose field of view is none that an observer
/// can have sees nothing.
pub fn cast_rays<E: Entity>(entity: &E, map: &WorldMap, directions: &Vec<(i64, i64)>) -> (r: Option<
    Rays,
>)
    ensures
        exists|state: Option<ObserverState>|
            #![trigger observed(entity, state)]
            observed(entity, state) && seen_from(state, map, directions@, r),
        r is Some ==> r->Some_0@.len() == directions@.len(),
        r is Some ==> forall|i: int| 0 <= i < directions@.len() ==> (#[trigger] r->Some_0@[i]).wf(),
{
    let state = ObserverState::observe(entity);
    let r = match state {
        Some(observer) => Some(sample(&observer, map, directions)),
        None => None,
    };
    assert(observed(entity, state) && seen_from(state, map, directions@, r));
    r
}

} // verus!
