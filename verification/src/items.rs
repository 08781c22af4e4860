use crate::board::{wrap_i32, Entity, GameBoard, Grid, IVec2, Vec3, WORLD_LIMIT};
use crate::player::{
    add_saturating, after_give, after_receive, amount_of, mul_saturating, no_entries, sat_add,
    sat_mul, uniform, wants_from, zeroed, Resources, R,
};
use crate::schedule::TIMESTEP_MILLI;
use crate::world::{things_view, SimView, World};
use vstd::prelude::*;

verus! {

/// The things a player can place.
#[derive(Clone, Copy, PartialEq, Eq, Debug, Structural)]
pub enum Item {
    Blobby,
    CopperRefinery,
    LithiumRefinery,
    GlassRefinery,
    BatteryFactory,
    LittleHatFactory,
    BigHatFactory,
    LightbulbFactory,
    OutgoingHatsFactory,
}

impl Item {
    /// The number that stands for an item in an action.
    pub open spec fn spec_int_value(self) -> u8 {
        match self {
            Item::Blobby => 0,
            Item::CopperRefinery => 1,
            Item::LithiumRefinery => 2,
            Item::GlassRefinery => 3,
            Item::BatteryFactory => 4,
            Item::LittleHatFactory => 5,
            Item::BigHatFactory => 6,
            Item::LightbulbFactory => 7,
            Item::OutgoingHatsFactory => 8,
        }
    }

    /// The item that a number stands for, if any.
    pub open spec fn spec_from_int(n: u8) -> Option<Item> {
        if n == 0 {
            Some(Item::Blobby)
        } else if n == 1 {
            Some(Item::CopperRefinery)
        } else if n == 2 {
            Some(Item::LithiumRefinery)
        } else if n == 3 {
            Some(Item::GlassRefinery)
        } else if n == 4 {
            Some(Item::BatteryFactory)
        } else if n == 5 {
            Some(Item::LittleHatFactory)
        } else if n == 6 {
            Some(Item::BigHatFactory)
        } else if n == 7 {
            Some(Item::LightbulbFactory)
        } else if n == 8 {
            Some(Item::OutgoingHatsFactory)
        } else {
            None
        }
    }

    /// What it costs to place an item.
    pub open spec fn cost_of(self) -> Map<R, u64> {
        match self {
            Item::Blobby => map![R::Plastic => 10u64, R::LittleHats => 1u64],
            Item::CopperRefinery => map![R::Plastic => 30u64],
            Item::LithiumRefinery => map![R::Plastic => 30u64],
            Item::GlassRefinery => map![R::Plastic => 30u64, R::Copper => 5u64],
            _ => map![R::Plastic => 50u64, R::Copper => 5u64],
        }
    }

    /// The kind that a placed item produces, if it is a producer.
    pub open spec fn product(self) -> Option<R> {
        match self {
            Item::Blobby => None,
            Item::CopperRefinery => Some(R::Copper),
            Item::LithiumRefinery => Some(R::Lithium),
            Item::GlassRefinery => Some(R::Glass),
            Item::BatteryFactory => Some(R::Batteries),
            Item::LittleHatFactory => Some(R::LittleHats),
            Item::BigHatFactory => Some(R::BigHats),
            Item::LightbulbFactory => Some(R::Lightbulbs),
            Item::OutgoingHatsFactory => None,
        }
    }

    /// The name shown for an item.
    pub open spec fn name_text(self) -> Seq<char> {
        match self {
            Item::Blobby => "BLOBBY"@,
            Item::CopperRefinery => "COPPER REFINERY"@,
            Item::LithiumRefinery => "LITHIUM REFINERY"@,
            Item::GlassRefinery => "GLASS REFINERY"@,
            Item::BatteryFactory => "BATTERY FACTORY"@,
            Item::LittleHatFactory => "LITTLE HAT FACTORY"@,
            Item::BigHatFactory => "BIG HAT FACTORY"@,
            Item::LightbulbFactory => "LIGHTBULB FACTORY"@,
            Item::OutgoingHatsFactory => "OUTGOING HATS"@,
        }
    }

    /// The number that stands for the item in an action.
    pub fn int_value(self) -> (n: u8)
        ensures
            n == self.spec_int_value(),
    {
        match self {
            Item::Blobby => 0,
            Item::CopperRefinery => 1,
            Item::LithiumRefinery => 2,
            Item::GlassRefinery => 3,
            Item::BatteryFactory => 4,
            Item::LittleHatFactory => 5,
            Item::BigHatFactory => 6,
            Item::LightbulbFactory => 7,
            Item::OutgoingHatsFactory => 8,
        }
    }

    /// The item that a number stands for; none for a number above 8.
    pub fn from_int(n: u8) -> (item: Option<Item>)
        ensures
            item == Item::spec_from_int(n),
    {
        match n {
            0 => Some(Item::Blobby),
            1 => Some(Item::CopperRefinery),
            2 => Some(Item::LithiumRefinery),
            3 => Some(Item::GlassRefinery),
            4 => Some(Item::BatteryFactory),
            5 => Some(Item::LittleHatFactory),
            6 => Some(Item::BigHatFactory),
            7 => Some(Item::LightbulbFactory),
            8 => Some(Item::OutgoingHatsFactory),
            _ => None,
        }
    }

    /// What it costs to place the item.
    pub fn cost(&self) -> (r: Resources)
        ensures
            r@ == self.cost_of(),
    {
        let mut r = Resources::zero();
        match self {
            Item::Blobby => {
                r.insert(R::Plastic, 10);
                r.insert(R::LittleHats, 1);
            },
            Item::CopperRefinery => {
                r.insert(R::Plastic, 30);
            },
            Item::LithiumRefinery => {
                r.insert(R::Plastic, 30);
            },
            Item::GlassRefinery => {
                r.insert(R::Plastic, 30);
                r.insert(R::Copper, 5);
            },
            _ => {
                r.insert(R::Plastic, 50);
                r.insert(R::Copper, 5);
            },
        }
        r
    }

    /// The name shown for the item.
    pub fn name(&self) -> (s: String)
        ensures
            s@ == self.name_text(),
    {
        match self {
            Item::Blobby => "BLOBBY".to_owned(),
            Item::CopperRefinery => "COPPER REFINERY".to_owned(),
            Item::LithiumRefinery => "LITHIUM REFINERY".to_owned(),
            Item::GlassRefinery => "GLASS REFINERY".to_owned(),
            Item::BatteryFactory => "BATTERY FACTORY".to_owned(),
            Item::LittleHatFactory => "LITTLE HAT FACTORY".to_owned(),
            Item::BigHatFactory => "BIG HAT FACTORY".to_owned(),
            Item::LightbulbFactory => "LIGHTBULB FACTORY".to_owned(),
            Item::OutgoingHatsFactory => "OUTGOING HATS".to_owned(),
        }
    }

    /// The kind that a placed item produces, if it is a producer.
    pub fn produces(&self) -> (k: Option<R>)
        ensures
            k == self.product(),
    {
        match self {
            Item::Blobby => None,
            Item::CopperRefinery => Some(R::Copper),
            Item::LithiumRefinery => Some(R::Lithium),
            Item::GlassRefinery => Some(R::Glass),
            Item::BatteryFactory => Some(R::Batteries),
            Item::LittleHatFactory => Some(R::LittleHats),
            Item::BigHatFactory => Some(R::BigHats),
            Item::LightbulbFactory => Some(R::Lightbulbs),
            Item::OutgoingHatsFactory => None,
        }
    }

    /// What a producer takes in and what it gives out; none for an item that
    /// produces nothing.
    pub fn recipe(&self) -> (r: Option<(Resources, Resources)>)
        ensures
            r is Some <==> self.product() is Some,
            r matches Some(io) ==> io.0@ == self.product()->0.recipe_of() && io.1@
                == no_entries().insert(self.product()->0, 1),
    {
        match self.produces() {
            Some(kind) => {
                let mut out = Resources::zero();
                out.insert(kind, 1);
                Some((kind.recipe(), out))
            },
            None => None,
        }
    }
}

/// Every item is found again from its number, and only the numbers 0 to 8 name an item.
pub proof fn lemma_item_numbers(item: Item, n: u8)
    ensures
        Item::spec_from_int(item.spec_int_value()) == Some(item),
        Item::spec_from_int(n) is Some <==> n <= 8,
        Item::spec_from_int(n) matches Some(i) ==> i.spec_int_value() == n,
{
}

/// The route a unit follows, with its cost.
#[derive(Debug)]
pub struct Path {
    pub path: Option<(Vec<IVec2>, u32)>,
}

impl View for Path {
    type V = Option<(Seq<IVec2>, u32)>;

    open spec fn view(&self) -> Option<(Seq<IVec2>, u32)> {
        crate::board::path_view(self.path)
    }
}

impl Default for Path {
    /// No route.
    fn default() -> (p: Path)
        ensures
            p@ is None,
    {
        Path { path: None }
    }
}

/// A transporter unit.
#[derive(Clone, Copy, Debug)]
pub struct Blobby {
    /// Thousandths of a tile's side covered in a second.
    pub speed: u32,
    pub id: u8,
    pub dest: Option<IVec2>,
    /// The pile that the unit was told to fetch from.
    pub resource_pile: Option<Entity>,
    /// The nearest drop-off that takes what the unit carries.
    pub drop_off: Option<Entity>,
    pub going_to_pickup: bool,
}

/// What a drop-off accepts and what it has received.
#[derive(Debug)]
pub struct Dropoff {
    /// The most of each kind that the drop-off takes in.
    pub qty: Resources,
    /// What the drop-off has taken in.
    pub input: Resources,
}

/// A drop-off as a value.
#[verifier::ext_equal]
pub struct DropoffView {
    pub qty: Map<R, u64>,
    pub input: Map<R, u64>,
}

impl View for Dropoff {
    type V = DropoffView;

    open spec fn view(&self) -> DropoffView {
        DropoffView { qty: self.qty@, input: self.input@ }
    }
}

/// The kind that a producer makes.
#[derive(Clone, Copy, Debug)]
pub struct OutputResource(pub R);

/// Counts the ticks since plastic last arrived.
#[derive(Clone, Copy, Debug)]
pub struct PlasticReceiver {
    pub time: u64,
}

/// The timer of a producer: whether a unit is being made, for how long, and how long it takes.
#[derive(Clone, Copy, Debug)]
pub struct ProcessTimer {
    pub started: bool,
    pub time: u64,
    pub length: u64,
}

/// Something that lives in the world.
#[derive(Debug)]
pub enum Thing {
    /// What is left of a thing that was removed.
    Despawned,
    /// A pile of raw material on a tile.
    Ore { tile: IVec2, resources: Resources },
    /// The warehouse at which plastic arrives.
    PlasticDepot { tile: IVec2, resources: Resources, receiver: PlasticReceiver },
    /// A producer on a tile.
    Factory {
        tile: IVec2,
        dropoff: Dropoff,
        timer: ProcessTimer,
        output: OutputResource,
        resources: Resources,
    },
    /// The place to which finished hats are delivered.
    OutgoingHats { tile: IVec2, dropoff: Dropoff },
    /// A transporter unit.
    Unit { blobby: Blobby, path: Path, resources: Resources, position: Vec3 },
}

/// A thing as a value.
#[verifier::ext_equal]
pub enum ThingView {
    Despawned,
    Ore { tile: IVec2, resources: Map<R, u64> },
    PlasticDepot { tile: IVec2, resources: Map<R, u64>, receiver: PlasticReceiver },
    Factory {
        tile: IVec2,
        dropoff: DropoffView,
        timer: ProcessTimer,
        output: OutputResource,
        resources: Map<R, u64>,
    },
    OutgoingHats { tile: IVec2, dropoff: DropoffView },
    Unit { blobby: Blobby, path: Option<(Seq<IVec2>, u32)>, resources: Map<R, u64>, position: Vec3 },
}

impl View for Thing {
    type V = ThingView;

    open spec fn view(&self) -> ThingView {
        match *self {
            Thing::Despawned => ThingView::Despawned,
            Thing::Ore { tile, resources } => ThingView::Ore { tile, resources: resources@ },
            Thing::PlasticDepot { tile, resources, receiver } => ThingView::PlasticDepot {
                tile,
                resources: resources@,
                receiver,
            },
            Thing::Factory { tile, dropoff, timer, output, resources } => ThingView::Factory {
                tile,
                dropoff: dropoff@,
                timer,
                output,
                resources: resources@,
            },
            Thing::OutgoingHats { tile, dropoff } => ThingView::OutgoingHats {
                tile,
                dropoff: dropoff@,
            },
            Thing::Unit { blobby, path, resources, position } => ThingView::Unit {
                blobby,
                path: path@,
                resources: resources@,
                position,
            },
        }
    }
}

impl ThingView {
    /// A unit stands where the simulation can have put it.
    pub open spec fn wf(self) -> bool {
        self matches ThingView::Unit { position, .. } ==> position.bounded()
    }

    /// The ledger that units fetch from, if the thing is a pile.
    pub open spec fn pile(self) -> Option<Map<R, u64>> {
        match self {
            ThingView::Ore { resources, .. } => Some(resources),
            ThingView::PlasticDepot { resources, .. } => Some(resources),
            ThingView::Factory { resources, output, .. } => if output.0 == R::LittleHats {
                None
            } else {
                Some(resources)
            },
            _ => None,
        }
    }

    /// The ledger that counts towards what the player owns, if the thing has one.
    pub open spec fn owned(self) -> Option<Map<R, u64>> {
        match self {
            ThingView::PlasticDepot { resources, .. } => Some(resources),
            ThingView::Factory { resources, .. } => Some(resources),
            _ => None,
        }
    }

    /// What the thing accepts and has received, if it is a drop-off.
    pub open spec fn accepts(self) -> Option<DropoffView> {
        match self {
            ThingView::Factory { dropoff, .. } => Some(dropoff),
            ThingView::OutgoingHats { dropoff, .. } => Some(dropoff),
            _ => None,
        }
    }

    /// The tile on which the thing was placed, if it stands on one.
    pub open spec fn tile(self) -> Option<IVec2> {
        match self {
            ThingView::Ore { tile, .. } => Some(tile),
            ThingView::PlasticDepot { tile, .. } => Some(tile),
            ThingView::Factory { tile, .. } => Some(tile),
            ThingView::OutgoingHats { tile, .. } => Some(tile),
            _ => None,
        }
    }
}

/// A unit can hand over or pick up what is nearer than this many thousandths.
pub const REACH: u128 = 1800;

/// The square of the distance between two points.
pub open spec fn spec_dist2(a: Vec3, b: Vec3) -> int {
    (a.x - b.x) * (a.x - b.x) + (a.y - b.y) * (a.y - b.y) + (a.z - b.z) * (a.z - b.z)
}

/// `r` is the whole part of the square root of `n`.
pub open spec fn is_isqrt(n: int, r: int) -> bool {
    r >= 0 && r * r <= n < (r + 1) * (r + 1)
}

/// The whole part of the square root of `n`.
pub open spec fn spec_isqrt(n: int) -> int {
    choose|r: int| is_isqrt(n, r)
}

/// Only one number is the whole part of the square root of `n`.
pub proof fn lemma_isqrt_unique(n: int, r: int, s: int)
    requires
        is_isqrt(n, r),
        is_isqrt(n, s),
    ensures
        r == s,
{
    if r < s {
        assert((r + 1) * (r + 1) <= s * s) by (nonlinear_arith)
            requires
                0 <= r + 1 <= s,
        ;
    }
    if s < r {
        assert((s + 1) * (s + 1) <= r * r) by (nonlinear_arith)
            requires
                0 <= s + 1 <= r,
        ;
    }
}

/// The square of a number is bounded by the square of its bound.
proof fn lemma_square_bound(d: int, b: int)
    requires
        -b <= d <= b,
    ensures
        0 <= d * d <= b * b,
{
    assert(0 <= d * d <= b * b) by (nonlinear_arith)
        requires
            -b <= d <= b,
    ;
}

/// The square of the distance between two points.
pub fn dist2(a: Vec3, b: Vec3) -> (d: u128)
    requires
        a.bounded(),
        b.bounded(),
    ensures
        d == spec_dist2(a, b),
{
    let dx: i128 = a.x as i128 - b.x as i128;
    let dy: i128 = a.y as i128 - b.y as i128;
    let dz: i128 = a.z as i128 - b.z as i128;
    proof {
        lemma_square_bound(dx as int, 2 * WORLD_LIMIT);
        lemma_square_bound(dy as int, 2 * WORLD_LIMIT);
        lemma_square_bound(dz as int, 2 * WORLD_LIMIT);
    }
    (dx * dx + dy * dy + dz * dz) as u128
}

/// The whole part of the square root of `n`.
pub fn isqrt(n: u128) -> (r: u128)
    ensures
        is_isqrt(n as int, r as int),
        r == spec_isqrt(n as int),
{
    let mut lo: u128 = 0;
    let mut hi: u128 = 0x1_0000_0000_0000_0000;
    assert(0x1_0000_0000_0000_0000int * 0x1_0000_0000_0000_0000int > u128::MAX);
    while hi - lo > 1
        invariant
            lo < hi <= 0x1_0000_0000_0000_0000,
            lo * lo <= n < hi * hi,
        decreases hi - lo,
    {
        let mid = lo + (hi - lo) / 2;
        assert(mid * mid <= 0xFFFF_FFFF_FFFF_FFFFint * 0xFFFF_FFFF_FFFF_FFFFint) by (nonlinear_arith)
            requires
                0 <= mid <= 0xFFFF_FFFF_FFFF_FFFF,
        ;
        if mid * mid <= n {
            lo = mid;
        } else {
            hi = mid;
        }
    }
    proof {
        let s = spec_isqrt(n as int);
        lemma_isqrt_unique(n as int, lo as int, s);
    }
    lo
}

/// One coordinate of a point that moves from `from` towards `to`: it covers
/// the share of `step` that this coordinate has in the whole distance `len`.
pub open spec fn spec_shift(from: i64, to: i64, step: int, len: int) -> int {
    let d = to - from;
    if d >= 0 {
        from + (d * step) / len
    } else {
        from - ((-d) * step) / len
    }
}

/// The point reached from `pos` by moving `step` thousandths straight towards
/// `target`. A point that is already nearer than one thousandth stays.
pub open spec fn spec_advance(pos: Vec3, target: Vec3, step: int) -> Vec3 {
    let len = spec_isqrt(spec_dist2(target, pos));
    if len == 0 {
        pos
    } else {
        Vec3 {
            x: spec_shift(pos.x, target.x, step, len) as i64,
            y: spec_shift(pos.y, target.y, step, len) as i64,
            z: spec_shift(pos.z, target.z, step, len) as i64,
        }
    }
}

/// The thousandths that a unit of the given speed covers in one tick.
pub open spec fn spec_step_len(speed: u32) -> int {
    speed * TIMESTEP_MILLI / 1000
}

/// The thousandths that a unit of the given speed covers in one tick.
pub fn step_len(speed: u32) -> (step: u32)
    ensures
        step == spec_step_len(speed),
        step <= 0x800_0000,
{
    (speed as u64 * TIMESTEP_MILLI / 1000) as u32
}

/// A share of a step is no longer than the step.
proof fn lemma_share(d: int, step: int, len: int)
    requires
        0 <= d <= len,
        0 < len,
        0 <= step,
    ensures
        0 <= (d * step) / len <= step,
        0 <= d * step <= len * step,
{
    assert(0 <= d * step <= len * step) by (nonlinear_arith)
        requires
            0 <= d <= len,
            0 <= step,
    ;
    vstd::arithmetic::div_mod::lemma_div_is_ordered(d * step, len * step, len);
    vstd::arithmetic::div_mod::lemma_div_multiples_vanish(step, len);
    vstd::arithmetic::div_mod::lemma_div_pos_is_pos(d * step, len);
}

/// No coordinate of a distance is longer than the whole part of the distance.
proof fn lemma_side_within(d: int, rest: int, len: int)
    requires
        is_isqrt(d * d + rest, len),
        0 <= rest,
    ensures
        -len <= d <= len,
{
    if d > len {
        assert(d * d >= (len + 1) * (len + 1)) by (nonlinear_arith)
            requires
                d >= len + 1,
                len >= 0,
        ;
    }
    if d < -len {
        assert(d * d >= (len + 1) * (len + 1)) by (nonlinear_arith)
            requires
                -d >= len + 1,
                len >= 0,
        ;
    }
}

/// A coordinate of a distance within the world, times a step, fits in `u128`.
proof fn lemma_product_fits(d: int, step: int)
    requires
        0 <= d <= 2 * WORLD_LIMIT,
        0 <= step <= u32::MAX,
    ensures
        0 <= d * step <= u128::MAX,
{
    assert(0 <= d * step <= (2 * WORLD_LIMIT) * 0xFFFF_FFFFint) by (nonlinear_arith)
        requires
            0 <= d <= 2 * WORLD_LIMIT,
            0 <= step <= 0xFFFF_FFFF,
    ;
}

/// One coordinate of a point that moves from `from` towards `to`.
fn shift(from: i64, to: i64, step: u32, len: u128) -> (r: i64)
    requires
        -WORLD_LIMIT <= from <= WORLD_LIMIT,
        -WORLD_LIMIT <= to <= WORLD_LIMIT,
        0 < len,
        -len <= to - from <= len,
    ensures
        r == spec_shift(from, to, step as int, len as int),
        from <= to ==> from <= r <= from + step,
        from > to ==> from - step <= r <= from,
{
    if to >= from {
        let d: u128 = (to - from) as u128;
        proof {
            lemma_share(d as int, step as int, len as int);
            lemma_product_fits(d as int, step as int);
        }
        let m = d * (step as u128) / len;
        from + m as i64
    } else {
        let d: u128 = (from - to) as u128;
        proof {
            lemma_share(d as int, step as int, len as int);
            lemma_product_fits(d as int, step as int);
        }
        let m = d * (step as u128) / len;
        from - m as i64
    }
}

/// Moves a point `step` thousandths straight towards `target`.
pub fn advance(pos: Vec3, target: Vec3, step: u32) -> (r: Vec3)
    requires
        pos.bounded(),
        target.bounded(),
    ensures
        r == spec_advance(pos, target, step as int),
        (Vec3 { x: (target.x - step) as i64, y: (target.y - step) as i64, z: (target.z - step) as i64 }).bounded()
            && (Vec3 { x: (target.x + step) as i64, y: (target.y + step) as i64, z: (target.z + step) as i64 }).bounded()
            ==> r.bounded(),
{
    let len = isqrt(dist2(target, pos));
    if len == 0 {
        return pos;
    }
    proof {
        let dx = target.x - pos.x;
        let dy = target.y - pos.y;
        let dz = target.z - pos.z;
        assert(dx * dx >= 0 && dy * dy >= 0 && dz * dz >= 0) by (nonlinear_arith);
        lemma_side_within(dx, dy * dy + dz * dz, len as int);
        lemma_side_within(dy, dx * dx + dz * dz, len as int);
        lemma_side_within(dz, dx * dx + dy * dy, len as int);
    }
    Vec3 {
        x: shift(pos.x, target.x, step, len),
        y: shift(pos.y, target.y, step, len),
        z: shift(pos.z, target.z, step, len),
    }
}

/// Plastic arrives whenever more than this many ticks have passed since it last did.
pub const PLASTIC_PERIOD: u64 = 200;

/// The plastic that arrives for each level the player has reached.
pub const PLASTIC_PER_LEVEL: u64 = 20;

/// What a pile of raw material holds when it is created.
pub const ORE_SUPPLY: u64 = 100_000_000;

/// The plastic at the warehouse when it is created.
pub const FIRST_PLASTIC: u64 = 200;

/// The most hats that the delivery point takes.
pub const HAT_DEMAND: u64 = 99_999_999_999;

/// The tile next to `tile`, one further along the second axis: where a unit
/// goes to reach what stands on `tile`. The coordinate wraps around like `i32`.
pub open spec fn below(tile: IVec2) -> IVec2 {
    IVec2 { x: tile.x, y: wrap_i32(tile.y + 1) }
}

/// The pile offers kind `k`, and the unit carries none of it.
pub open spec fn misses(offered: Map<R, u64>, carried: Map<R, u64>, k: R) -> bool {
    amount_of(offered, k) > 0 && amount_of(carried, k) == 0
}

/// The pile offers some kind of which the unit carries nothing.
pub open spec fn offers_missing(offered: Map<R, u64>, carried: Map<R, u64>) -> bool {
    exists|k: R| misses(offered, carried, k)
}

/// Whether two points are near enough for a unit to hand over or pick up.
pub open spec fn within_reach(a: Vec3, b: Vec3) -> bool {
    spec_dist2(a, b) < REACH * REACH
}

impl ThingView {
    /// The same pile with another content.
    pub open spec fn with_pile(self, m: Map<R, u64>) -> ThingView {
        match self {
            ThingView::Ore { tile, resources } => ThingView::Ore { tile, resources: m },
            ThingView::PlasticDepot { tile, resources, receiver } => ThingView::PlasticDepot {
                tile,
                resources: m,
                receiver,
            },
            ThingView::Factory { tile, dropoff, timer, output, resources } => ThingView::Factory {
                tile,
                dropoff,
                timer,
                output,
                resources: m,
            },
            _ => self,
        }
    }

    /// The same drop-off after it has received something.
    pub open spec fn with_input(self, m: Map<R, u64>) -> ThingView {
        match self {
            ThingView::Factory { tile, dropoff, timer, output, resources } => ThingView::Factory {
                tile,
                dropoff: DropoffView { qty: dropoff.qty, input: m },
                timer,
                output,
                resources,
            },
            ThingView::OutgoingHats { tile, dropoff } => ThingView::OutgoingHats {
                tile,
                dropoff: DropoffView { qty: dropoff.qty, input: m },
            },
            _ => self,
        }
    }

    /// The warehouse one tick later: once more than `PLASTIC_PERIOD` ticks have
    /// passed, `PLASTIC_PER_LEVEL` plastic arrives for each level of the player.
    pub open spec fn after_plastic(self, level: u64) -> ThingView {
        match self {
            ThingView::PlasticDepot { tile, resources, receiver } => {
                let time = sat_add(receiver.time, 1);
                if time > PLASTIC_PERIOD {
                    ThingView::PlasticDepot {
                        tile,
                        resources: resources.insert(
                            R::Plastic,
                            sat_add(
                                amount_of(resources, R::Plastic),
                                sat_mul(PLASTIC_PER_LEVEL, level),
                            ),
                        ),
                        receiver: PlasticReceiver { time: 0 },
                    }
                } else {
                    ThingView::PlasticDepot { tile, resources, receiver: PlasticReceiver { time } }
                }
            },
            _ => self,
        }
    }

    /// A unit with a destination, after it has looked for a route there from
    /// the tile it stands on.
    pub open spec fn after_repath(self, grid: Grid) -> ThingView {
        match self {
            ThingView::Unit { blobby, path, resources, position } => match blobby.dest {
                Some(dest) => ThingView::Unit {
                    blobby,
                    path: grid.spec_path(grid.spec_ws_vec3_to_ls(position), dest),
                    resources,
                    position,
                },
                None => self,
            },
            _ => self,
        }
    }

    /// A unit whose route has a second waypoint, after it has moved towards the
    /// centre of that waypoint's tile for one tick.
    pub open spec fn after_move(self, grid: Grid) -> ThingView {
        match self {
            ThingView::Unit { blobby, path, resources, position } => match path {
                Some(route) => if route.0.len() > 1 {
                    ThingView::Unit {
                        blobby,
                        path,
                        resources,
                        position: spec_advance(
                            position,
                            grid.spec_ls_to_ws_vec3(route.0[1]),
                            spec_step_len(blobby.speed),
                        ),
                    }
                } else {
                    self
                },
                None => self,
            },
            _ => self,
        }
    }
}

/// The thing in place `i` is a drop-off that still takes some of what is carried.
pub open spec fn takes_from(things: Seq<ThingView>, carried: Map<R, u64>, i: int) -> bool {
    things[i].accepts() matches Some(d) && things[i].tile() is Some && wants_from(
        d.input,
        d.qty,
        carried,
    )
}

/// The square of the distance from `position` to the thing in place `i`.
pub open spec fn away(grid: Grid, things: Seq<ThingView>, position: Vec3, i: int) -> int {
    spec_dist2(position, grid.spec_ls_to_ws_vec3(things[i].tile()->0))
}

/// The thing in place `j` is nearer to `position` than the thing in place `i`,
/// or as near and not created later.
pub open spec fn nearer_or_first(
    grid: Grid,
    things: Seq<ThingView>,
    position: Vec3,
    j: int,
    i: int,
) -> bool {
    away(grid, things, position, j) < away(grid, things, position, i) || (away(
        grid,
        things,
        position,
        j,
    ) == away(grid, things, position, i) && j <= i)
}

/// The nearest drop-off among the first `n` things that still takes some of
/// what a unit at `position` carries, with the square of its distance; none
/// where no drop-off takes any of it. However far away a drop-off is, it can
/// be chosen. Of two that are equally near, the one created first is chosen.
pub open spec fn nearest_taker(
    grid: Grid,
    things: Seq<ThingView>,
    position: Vec3,
    carried: Map<R, u64>,
    n: int,
) -> (int, Option<int>)
    decreases n,
{
    if n <= 0 {
        (0, None)
    } else {
        let before = nearest_taker(grid, things, position, carried, n - 1);
        if takes_from(things, carried, n - 1) && (before.1 is None || away(
            grid,
            things,
            position,
            n - 1,
        ) < before.0) {
            (away(grid, things, position, n - 1), Some(n - 1))
        } else {
            before
        }
    }
}

impl SimView {
    /// The same state with another thing in place `i`.
    pub open spec fn set_thing(self, i: int, t: ThingView) -> SimView {
        SimView { things: self.things.update(i, t), ..self }
    }

    /// The state of play after plastic has arrived where it was due.
    pub open spec fn after_plastic(self) -> SimView {
        SimView {
            things: Seq::new(
                self.things.len(),
                |i: int| self.things[i].after_plastic(self.player.level),
            ),
            ..self
        }
    }

    /// The state of play after the thing in place `i`, if it is a unit with a
    /// pile to fetch from, has seen to that.
    ///
    /// A unit that holds some of every kind that its pile offers has nothing to
    /// fetch. Otherwise, within reach of the pile, it receives one of each kind
    /// that the pile can give; out of reach, it sets out for the tile next to
    /// the pile.
    pub open spec fn after_fetch(self, i: int) -> SimView {
        match self.things[i] {
            ThingView::Unit { blobby, path, resources, position } => match blobby.resource_pile {
                Some(e) => if e.index < self.things.len() {
                    match (self.things[e.index as int].pile(), self.things[e.index as int].tile()) {
                        (Some(offered), Some(tile)) => {
                            if !offers_missing(offered, resources) {
                                self.set_thing(
                                    i,
                                    ThingView::Unit {
                                        blobby: Blobby { going_to_pickup: false, ..blobby },
                                        path,
                                        resources,
                                        position,
                                    },
                                )
                            } else if within_reach(position, self.grid.spec_ls_to_ws_vec3(tile)) {
                                self.set_thing(
                                    e.index as int,
                                    self.things[e.index as int].with_pile(
                                        after_give(offered, uniform(1)),
                                    ),
                                ).set_thing(
                                    i,
                                    ThingView::Unit {
                                        blobby: Blobby { going_to_pickup: false, ..blobby },
                                        path,
                                        resources: after_receive(offered, resources, uniform(1)),
                                        position,
                                    },
                                )
                            } else {
                                self.set_thing(
                                    i,
                                    ThingView::Unit {
                                        blobby: Blobby {
                                            dest: Some(below(tile)),
                                            going_to_pickup: true,
                                            ..blobby
                                        },
                                        path,
                                        resources,
                                        position,
                                    },
                                )
                            }
                        },
                        _ => self,
                    }
                } else {
                    self
                },
                None => self,
            },
            _ => self,
        }
    }

    /// The state of play after the first `n` things have fetched, in creation order.
    pub open spec fn after_fetches_upto(self, n: int) -> SimView
        decreases n,
    {
        if n <= 0 {
            self
        } else {
            self.after_fetches_upto(n - 1).after_fetch(n - 1)
        }
    }

    /// The state of play after every unit has fetched, in creation order.
    pub open spec fn after_fetches(self) -> SimView {
        self.after_fetches_upto(self.things.len() as int)
    }

    /// The state of play after the thing in place `i`, if it is a unit that has
    /// a pile and is not on its way there, has seen to its delivery.
    ///
    /// The unit picks the nearest drop-off that still takes some of what it
    /// carries, and remembers it. Within reach, it hands over what the drop-off
    /// asks for, as far as it has it; out of reach, it sets out for the tile
    /// next to the drop-off.
    pub open spec fn after_deliver(self, i: int) -> SimView {
        match self.things[i] {
            ThingView::Unit { blobby, path, resources, position } => {
                if blobby.resource_pile is Some && !blobby.going_to_pickup {
                    let best = nearest_taker(
                        self.grid,
                        self.things,
                        position,
                        resources,
                        self.things.len() as int,
                    );
                    match best.1 {
                        Some(j) => match (self.things[j].accepts(), self.things[j].tile()) {
                            (Some(d), Some(tile)) => {
                                let chosen = Some(Entity { index: j as usize });
                                if best.0 < REACH * REACH {
                                    self.set_thing(
                                        j,
                                        self.things[j].with_input(
                                            after_receive(resources, d.input, d.qty),
                                        ),
                                    ).set_thing(
                                        i,
                                        ThingView::Unit {
                                            blobby: Blobby { drop_off: chosen, ..blobby },
                                            path,
                                            resources: after_give(resources, d.qty),
                                            position,
                                        },
                                    )
                                } else {
                                    self.set_thing(
                                        i,
                                        ThingView::Unit {
                                            blobby: Blobby {
                                                drop_off: chosen,
                                                dest: Some(below(tile)),
                                                ..blobby
                                            },
                                            path,
                                            resources,
                                            position,
                                        },
                                    )
                                }
                            },
                            _ => self,
                        },
                        None => self,
                    }
                } else {
                    self
                }
            },
            _ => self,
        }
    }

    /// The state of play after the first `n` things have delivered, in creation order.
    pub open spec fn after_deliveries_upto(self, n: int) -> SimView
        decreases n,
    {
        if n <= 0 {
            self
        } else {
            self.after_deliveries_upto(n - 1).after_deliver(n - 1)
        }
    }

    /// The state of play after every unit has delivered, in creation order.
    pub open spec fn after_deliveries(self) -> SimView {
        self.after_deliveries_upto(self.things.len() as int)
    }

    /// The state of play after every unit with a destination has looked for a
    /// route. The units of a player who has lost keep the routes they have.
    pub open spec fn after_repaths(self) -> SimView {
        if !self.player.alive_set {
            self
        } else {
            SimView {
                things: Seq::new(self.things.len(), |i: int| self.things[i].after_repath(self.grid)),
                ..self
            }
        }
    }

    /// The state of play after every unit has moved along its route for one tick.
    pub open spec fn after_moves(self) -> SimView {
        SimView {
            things: Seq::new(self.things.len(), |i: int| self.things[i].after_move(self.grid)),
            ..self
        }
    }
}

/// Lets plastic arrive at one warehouse if it is due.
pub fn deliver_plastic(thing: &mut Thing, level: u64)
    ensures
        final(thing)@ == old(thing)@.after_plastic(level),
{
    match thing {
        Thing::PlasticDepot { tile, resources, receiver } => {
            receiver.time = add_saturating(receiver.time, 1);
            if receiver.time > PLASTIC_PERIOD {
                receiver.time = 0;
                let have = resources.amount(R::Plastic);
                resources.insert(
                    R::Plastic,
                    add_saturating(have, mul_saturating(PLASTIC_PER_LEVEL, level)),
                );
            }
        },
        _ => {},
    }
}

/// Lets plastic arrive at every warehouse where it is due.
pub fn receive_plastic(world: &mut World)
    requires
        old(world).wf(),
    ensures
        final(world).wf(),
        final(world)@ == old(world)@.with_sim(old(world)@.sim.after_plastic()),
{
    let ghost before = world@;
    let n = world.things.len();
    let level = world.player.level;
    let mut i: usize = 0;
    while i < n
        invariant
            i <= n,
            n == world.things.len(),
            n == before.sim.things.len(),
            level == before.sim.player.level,
            world.board.wf(),
            world@ == before.with_sim(
                SimView { things: things_view(world.things@), ..before.sim },
            ),
            forall|j: int|
                0 <= j < i ==> world.things[j]@ == before.sim.things[j].after_plastic(level),
            forall|j: int| i <= j < n ==> world.things[j]@ == before.sim.things[j],
            forall|j: int| 0 <= j < n ==> (#[trigger] before.sim.things[j]).wf(),
        decreases n - i,
    {
        deliver_plastic(&mut world.things[i], level);
        i += 1;
    }
    assert(world@.sim.things =~= before.sim.after_plastic().things);
}

/// Whether the pile offers some kind of which the unit carries nothing.
pub fn lacks_offer(offered: &Resources, carried: &Resources) -> (missing: bool)
    ensures
        missing == offers_missing(offered@, carried@),
{
    let mut missing = false;
    let mut i: usize = 0;
    while i < crate::player::KIND_COUNT
        invariant
            i <= crate::player::KIND_COUNT,
            missing <==> (exists|k: R| k.spec_index() < i && misses(offered@, carried@, k)),
        decreases crate::player::KIND_COUNT - i,
    {
        let k = R::from_index(i);
        if offered.amount(k) > 0 && carried.amount(k) == 0 {
            assert(misses(offered@, carried@, k));
            missing = true;
        }
        i += 1;
    }
    missing
}

/// A unit's visit to its pile: where the unit lacks something that the pile
/// offers and is near, it takes one of each kind that the pile can give.
fn visit_pile(pile: &mut Resources, carried: &mut Resources, near: bool) -> (missing: bool)
    ensures
        missing == offers_missing(old(pile)@, old(carried)@),
        missing && near ==> final(pile)@ == after_give(old(pile)@, uniform(1)) && final(carried)@
            == after_receive(old(pile)@, old(carried)@, uniform(1)),
        !(missing && near) ==> final(pile)@ == old(pile)@ && final(carried)@ == old(carried)@,
{
    let missing = lacks_offer(pile, carried);
    if missing && near {
        let one = Resources::one();
        pile.take(&one, carried, false);
    }
    missing
}

/// The tile next to `tile`, one further along the second axis.
pub fn tile_below(tile: IVec2) -> (t: IVec2)
    ensures
        t == below(tile),
{
    IVec2 { x: tile.x, y: tile.y.wrapping_add(1) }
}

/// Lets the thing in place `i`, if it is a unit with a pile to fetch from, see to that.
pub fn fetch_for(world: &mut World, i: usize)
    requires
        old(world).wf(),
        i < old(world).things.len(),
    ensures
        final(world).wf(),
        final(world)@ == old(world)@.with_sim(old(world)@.sim.after_fetch(i as int)),
        final(world).things.len() == old(world).things.len(),
{
    let ghost before = world@;
    let n = world.things.len();
    let (handle, position) = match &world.things[i] {
        Thing::Unit { blobby, position, .. } => (blobby.resource_pile, *position),
        _ => {
            return ;
        },
    };
    let e = match handle {
        Some(e) => e,
        None => {
            return ;
        },
    };
    if e.index >= n {
        return ;
    }
    let tile = match &world.things[e.index] {
        Thing::Ore { tile, .. } => *tile,
        Thing::PlasticDepot { tile, .. } => *tile,
        Thing::Factory { tile, output, .. } => {
            match output.0 {
                R::LittleHats => {
                    return ;
                },
                _ => *tile,
            }
        },
        _ => {
            return ;
        },
    };
    let near = dist2(position, world.board.ls_to_ws_vec3(tile)) < REACH * REACH;
    let mut carried = Resources::zero();
    match &mut world.things[i] {
        Thing::Unit { resources, .. } => {
            core::mem::swap(resources, &mut carried);
        },
        _ => {},
    }
    let mut missing = false;
    match &mut world.things[e.index] {
        Thing::Ore { resources, .. } => {
            missing = visit_pile(resources, &mut carried, near);
        },
        Thing::PlasticDepot { resources, .. } => {
            missing = visit_pile(resources, &mut carried, near);
        },
        Thing::Factory { resources, .. } => {
            missing = visit_pile(resources, &mut carried, near);
        },
        _ => {},
    }
    match &mut world.things[i] {
        Thing::Unit { blobby, resources, .. } => {
            core::mem::swap(resources, &mut carried);
            blobby.going_to_pickup = false;
            if missing && !near {
                blobby.dest = Some(tile_below(tile));
                blobby.going_to_pickup = true;
            }
        },
        _ => {},
    }
    proof {
        let after = before.sim.after_fetch(i as int);
        assert(world@.sim.things =~= after.things);
    }
}

/// Lets every unit with a pile to fetch from see to that, in creation order.
pub fn blobby_get_resource(world: &mut World)
    requires
        old(world).wf(),
    ensures
        final(world).wf(),
        final(world)@ == old(world)@.with_sim(old(world)@.sim.after_fetches()),
{
    let ghost before = world@;
    let n = world.things.len();
    let mut i: usize = 0;
    while i < n
        invariant
            i <= n,
            n == world.things.len(),
            n == before.sim.things.len(),
            world.wf(),
            world@ == before.with_sim(before.sim.after_fetches_upto(i as int)),
        decreases n - i,
    {
        fetch_for(world, i);
        i += 1;
    }
}

/// The nearest drop-off that still takes some of what a unit at `position`
/// carries, however far away it is, with the square of its distance; none
/// where no drop-off takes any of it.
pub fn nearest_dropoff(
    board: &GameBoard,
    things: &Vec<Thing>,
    position: Vec3,
    carried: &Resources,
) -> (best: (u128, Option<usize>))
    requires
        position.bounded(),
    ensures
        best.0 == nearest_taker(
            board@,
            things_view(things@),
            position,
            carried@,
            things.len() as int,
        ).0,
        best.1 is Some <==> nearest_taker(
            board@,
            things_view(things@),
            position,
            carried@,
            things.len() as int,
        ).1 is Some,
        best.1 matches Some(j) ==> j < things.len() && nearest_taker(
            board@,
            things_view(things@),
            position,
            carried@,
            things.len() as int,
        ).1 == Some(j as int),
        best.1 matches Some(j) ==> takes_from(things_view(things@), carried@, j as int)
            && best.0 == away(board@, things_view(things@), position, j as int),
        forall|i: int|
            0 <= i < things.len() && #[trigger] takes_from(things_view(things@), carried@, i)
                ==> best.1 is Some && nearer_or_first(
                board@,
                things_view(things@),
                position,
                best.1->0 as int,
                i,
            ),
{
    proof {
        lemma_nearest_is_dropoff(
            board@,
            things_view(things@),
            position,
            carried@,
            things.len() as int,
        );
    }
    let mut closest: u128 = 0;
    let mut found: Option<usize> = None;
    let n = things.len();
    let mut j: usize = 0;
    while j < n
        invariant
            j <= n,
            n == things.len(),
            position.bounded(),
            closest == nearest_taker(board@, things_view(things@), position, carried@, j as int).0,
            found is Some <==> nearest_taker(
                board@,
                things_view(things@),
                position,
                carried@,
                j as int,
            ).1 is Some,
            found matches Some(f) ==> f < n && nearest_taker(
                board@,
                things_view(things@),
                position,
                carried@,
                j as int,
            ).1 == Some(f as int),
        decreases n - j,
    {
        match &things[j] {
            Thing::Factory { tile, dropoff, .. } => {
                let d = dist2(position, board.ls_to_ws_vec3(*tile));
                if (found.is_none() || d < closest) && dropoff.input.needs(&dropoff.qty, carried) {
                    closest = d;
                    found = Some(j);
                }
            },
            Thing::OutgoingHats { tile, dropoff } => {
                let d = dist2(position, board.ls_to_ws_vec3(*tile));
                if (found.is_none() || d < closest) && dropoff.input.needs(&dropoff.qty, carried) {
                    closest = d;
                    found = Some(j);
                }
            },
            _ => {},
        }
        j += 1;
    }
    (closest, found)
}

/// What is chosen as the nearest drop-off is a drop-off among the things looked
/// at that still takes some of what is carried. None of those that take any is
/// nearer, and none that is as near was created earlier. Nothing is chosen
/// only where none of them takes anything.
pub proof fn lemma_nearest_is_dropoff(
    grid: Grid,
    things: Seq<ThingView>,
    position: Vec3,
    carried: Map<R, u64>,
    n: int,
)
    ensures
        nearest_taker(grid, things, position, carried, n).1 matches Some(j) ==> 0 <= j < n
            && things[j].accepts() is Some && things[j].tile() is Some && takes_from(
            things,
            carried,
            j,
        ) && nearest_taker(grid, things, position, carried, n).0 == away(
            grid,
            things,
            position,
            j,
        ),
        forall|i: int|
            0 <= i < n && #[trigger] takes_from(things, carried, i) ==> nearest_taker(
                grid,
                things,
                position,
                carried,
                n,
            ).1 is Some && nearer_or_first(
                grid,
                things,
                position,
                nearest_taker(grid, things, position, carried, n).1->0,
                i,
            ),
    decreases n,
{
    if n > 0 {
        lemma_nearest_is_dropoff(grid, things, position, carried, n - 1);
    }
}

/// Lets the thing in place `i`, if it is a unit that has a pile and is not on
/// its way there, see to its delivery.
pub fn deliver_for(world: &mut World, i: usize)
    requires
        old(world).wf(),
        i < old(world).things.len(),
    ensures
        final(world).wf(),
        final(world)@ == old(world)@.with_sim(old(world)@.sim.after_deliver(i as int)),
        final(world).things.len() == old(world).things.len(),
{
    let ghost before = world@;
    let n = world.things.len();
    let best = match &world.things[i] {
        Thing::Unit { blobby, position, resources, .. } => {
            if blobby.resource_pile.is_none() || blobby.going_to_pickup {
                return ;
            }
            nearest_dropoff(&world.board, &world.things, *position, resources)
        },
        _ => {
            return ;
        },
    };
    let j = match best.1 {
        Some(j) => j,
        None => {
            return ;
        },
    };
    let near = best.0 < REACH * REACH;
    proof {
        lemma_nearest_is_dropoff(
            before.sim.grid,
            before.sim.things,
            before.sim.things[i as int]->Unit_position,
            before.sim.things[i as int]->Unit_resources,
            n as int,
        );
    }
    let mut carried = Resources::zero();
    match &mut world.things[i] {
        Thing::Unit { resources, .. } => {
            core::mem::swap(resources, &mut carried);
        },
        _ => {},
    }
    let mut tile_j = IVec2 { x: 0, y: 0 };
    match &mut world.things[j] {
        Thing::Factory { tile, dropoff, .. } => {
            tile_j = *tile;
            if near {
                carried.take(&dropoff.qty, &mut dropoff.input, false);
            }
        },
        Thing::OutgoingHats { tile, dropoff } => {
            tile_j = *tile;
            if near {
                carried.take(&dropoff.qty, &mut dropoff.input, false);
            }
        },
        _ => {},
    }
    match &mut world.things[i] {
        Thing::Unit { blobby, resources, .. } => {
            core::mem::swap(resources, &mut carried);
            blobby.drop_off = Some(Entity { index: j });
            if !near {
                blobby.dest = Some(tile_below(tile_j));
            }
        },
        _ => {},
    }
    proof {
        let after = before.sim.after_deliver(i as int);
        assert(world@.sim.things =~= after.things);
    }
}

/// Lets every unit that has a pile and is not on its way there see to its
/// delivery, in creation order.
pub fn blobby_put_resource(world: &mut World)
    requires
        old(world).wf(),
    ensures
        final(world).wf(),
        final(world)@ == old(world)@.with_sim(old(world)@.sim.after_deliveries()),
{
    let ghost before = world@;
    let n = world.things.len();
    let mut i: usize = 0;
    while i < n
        invariant
            i <= n,
            n == world.things.len(),
            n == before.sim.things.len(),
            world.wf(),
            world@ == before.with_sim(before.sim.after_deliveries_upto(i as int)),
        decreases n - i,
    {
        deliver_for(world, i);
        i += 1;
    }
}

impl ThingView {
    /// The route of a unit with a destination is a route on the board from the
    /// tile the unit stands on to the destination, at a cost of one per move,
    /// and the unit has one whenever there is one.
    pub open spec fn route_is_sound(self, grid: Grid) -> bool {
        match self {
            ThingView::Unit { blobby, path, position, .. } => match blobby.dest {
                Some(dest) => {
                    let from = grid.spec_ws_vec3_to_ls(position);
                    &&& path is Some <==> grid.reachable(from, dest)
                    &&& path matches Some(route) ==> grid.is_route(from, dest, route.0)
                        && route.0.no_duplicates() && route.1 == route.0.len() - 1
                },
                None => true,
            },
            _ => true,
        }
    }
}

/// Lets one unit with a destination look for a route there.
pub fn repath(thing: &mut Thing, board: &GameBoard)
    requires
        board.wf(),
    ensures
        final(thing)@ == old(thing)@.after_repath(board@),
        final(thing)@.route_is_sound(board@),
{
    match thing {
        Thing::Unit { blobby, path, position, .. } => {
            if let Some(dest) = blobby.dest {
                path.path = board.path(board.ws_vec3_to_ls(*position), dest);
            }
        },
        _ => {},
    }
}

/// Lets every unit with a destination look for a route there, unless the
/// player has lost. A unit whose destination cannot be reached is left
/// without a route.
pub fn update_blobby_paths(world: &mut World)
    requires
        old(world).wf(),
    ensures
        final(world).wf(),
        final(world)@ == old(world)@.with_sim(old(world)@.sim.after_repaths()),
        old(world)@.sim.player.alive_set ==> forall|i: int|
            0 <= i < final(world)@.sim.things.len() ==> (
            #[trigger] final(world)@.sim.things[i]).route_is_sound(final(world)@.sim.grid),
{
    if !world.player.alive() {
        return ;
    }
    let ghost before = world@;
    let n = world.things.len();
    let mut i: usize = 0;
    while i < n
        invariant
            i <= n,
            n == world.things.len(),
            n == before.sim.things.len(),
            world.board.wf(),
            before.sim.player.alive_set,
            world@ == before.with_sim(
                SimView { things: things_view(world.things@), ..before.sim },
            ),
            forall|j: int|
                0 <= j < i ==> world.things[j]@ == before.sim.things[j].after_repath(before.sim.grid),
            forall|j: int| 0 <= j < i ==> (#[trigger] world.things[j]@).route_is_sound(before.sim.grid),
            forall|j: int| i <= j < n ==> world.things[j]@ == before.sim.things[j],
            forall|j: int| 0 <= j < n ==> (#[trigger] before.sim.things[j]).wf(),
        decreases n - i,
    {
        repath(&mut world.things[i], &world.board);
        i += 1;
    }
    assert(world@.sim.things =~= before.sim.after_repaths().things);
}

/// Moves one unit along its route for one tick.
pub fn move_along(thing: &mut Thing, board: &GameBoard)
    requires
        old(thing)@.wf(),
    ensures
        final(thing)@ == old(thing)@.after_move(board@),
        final(thing)@.wf(),
{
    match thing {
        Thing::Unit { blobby, path, position, .. } => {
            if let Some(route) = &path.path {
                if route.0.len() > 1 {
                    let next = board.ls_to_ws_vec3(route.0[1]);
                    *position = advance(*position, next, step_len(blobby.speed));
                }
            }
        },
        _ => {},
    }
}

/// Moves every unit along its route for one tick.
pub fn move_blobby_along_path(world: &mut World)
    requires
        old(world).wf(),
    ensures
        final(world).wf(),
        final(world)@ == old(world)@.with_sim(old(world)@.sim.after_moves()),
{
    let ghost before = world@;
    let n = world.things.len();
    let mut i: usize = 0;
    assert forall|j: int| 0 <= j < n implies (#[trigger] world.things[j]@).wf() by {
        assert(before.sim.things[j].wf());
    }
    while i < n
        invariant
            i <= n,
            n == world.things.len(),
            n == before.sim.things.len(),
            world.board.wf(),
            world@ == before.with_sim(
                SimView { things: things_view(world.things@), ..before.sim },
            ),
            forall|j: int|
                0 <= j < i ==> world.things[j]@ == before.sim.things[j].after_move(before.sim.grid),
            forall|j: int| 0 <= j < n ==> (#[trigger] world.things[j]@).wf(),
            forall|j: int| i <= j < n ==> world.things[j]@ == before.sim.things[j],
        decreases n - i,
    {
        move_along(&mut world.things[i], &world.board);
        i += 1;
    }
}

impl ThingView {
    /// What stands where raw material of a kind is put down: the warehouse for
    /// plastic, a pile for anything else.
    pub open spec fn new_ore(tile: IVec2, kind: R) -> ThingView {
        if kind == R::Plastic {
            ThingView::PlasticDepot {
                tile,
                resources: no_entries().insert(R::Plastic, FIRST_PLASTIC),
                receiver: PlasticReceiver { time: 0 },
            }
        } else {
            ThingView::Ore { tile, resources: no_entries().insert(kind, ORE_SUPPLY) }
        }
    }

    /// A new producer of a kind: idle, with nothing received and nothing made.
    pub open spec fn new_factory(tile: IVec2, kind: R) -> ThingView {
        ThingView::Factory {
            tile,
            dropoff: DropoffView { qty: kind.recipe_of(), input: zeroed(kind.recipe_of()) },
            timer: ProcessTimer { started: false, time: 0, length: kind.spec_time() },
            output: OutputResource(kind),
            resources: no_entries().insert(kind, 0),
        }
    }

    /// A new delivery point for big hats.
    pub open spec fn new_outgoing_hats(tile: IVec2) -> ThingView {
        ThingView::OutgoingHats {
            tile,
            dropoff: DropoffView {
                qty: no_entries().insert(R::BigHats, HAT_DEMAND),
                input: no_entries().insert(R::BigHats, 0),
            },
        }
    }
}

impl SimView {
    /// The state of play after a new thing was put on a tile. The thing gets
    /// the next handle, and the tile, or the nearest tile of the board, refers
    /// to it from then on.
    pub open spec fn after_spawn(self, t: ThingView, tile: IVec2) -> SimView {
        SimView {
            grid: Grid {
                tiles: self.grid.tiles.update(
                    self.grid.spec_ls_to_idx(tile),
                    Some(Entity { index: self.things.len() as usize }),
                ),
                ..self.grid
            },
            things: self.things.push(t),
            ..self
        }
    }
}

/// Puts a new thing on a tile of the board.
fn spawn_on(world: &mut World, thing: Thing, tile: IVec2)
    requires
        old(world).wf(),
        thing@.wf(),
    ensures
        final(world).wf(),
        final(world)@ == old(world)@.with_sim(old(world)@.sim.after_spawn(thing@, tile)),
        final(world).things.len() == old(world).things.len() + 1,
{
    let ghost before = world@;
    let entity = Entity { index: world.things.len() };
    world.things.push(thing);
    let idx = world.board.ls_to_idx(tile);
    world.board.board.set(idx, Some(entity));
    proof {
        let after = before.sim.after_spawn(thing@, tile);
        assert(world@.sim.things =~= after.things);
    }
}

/// Puts raw material of a kind on a tile: the warehouse for plastic, a pile
/// for anything else.
pub fn spawn_ore(world: &mut World, pos: IVec2, kind: R)
    requires
        old(world).wf(),
    ensures
        final(world).wf(),
        final(world)@ == old(world)@.with_sim(
            old(world)@.sim.after_spawn(ThingView::new_ore(pos, kind), pos),
        ),
{
    let mut r = Resources::zero();
    let thing = match kind {
        R::Plastic => {
            r.insert(kind, FIRST_PLASTIC);
            Thing::PlasticDepot { tile: pos, resources: r, receiver: PlasticReceiver { time: 0 } }
        },
        _ => {
            r.insert(kind, ORE_SUPPLY);
            Thing::Ore { tile: pos, resources: r }
        },
    };
    spawn_on(world, thing, pos);
}

/// Puts a new producer of a kind on a tile.
pub fn spawn_factory(world: &mut World, pos: IVec2, kind: R)
    requires
        old(world).wf(),
    ensures
        final(world).wf(),
        final(world)@ == old(world)@.with_sim(
            old(world)@.sim.after_spawn(ThingView::new_factory(pos, kind), pos),
        ),
{
    let qty = kind.recipe();
    let input = qty.as_zero();
    let mut made = Resources::zero();
    made.insert(kind, 0);
    let thing = Thing::Factory {
        tile: pos,
        dropoff: Dropoff { qty, input },
        timer: ProcessTimer { started: false, time: 0, length: kind.time() },
        output: OutputResource(kind),
        resources: made,
    };
    spawn_on(world, thing, pos);
}

/// Puts a new delivery point for big hats on a tile.
pub fn spawn_outgoing_hats(world: &mut World, pos: IVec2)
    requires
        old(world).wf(),
    ensures
        final(world).wf(),
        final(world)@ == old(world)@.with_sim(
            old(world)@.sim.after_spawn(ThingView::new_outgoing_hats(pos), pos),
        ),
{
    let mut qty = Resources::zero();
    qty.insert(R::BigHats, HAT_DEMAND);
    let input = qty.as_zero();
    proof {
        assert(input@ =~= no_entries().insert(R::BigHats, 0));
    }
    let thing = Thing::OutgoingHats { tile: pos, dropoff: Dropoff { qty, input } };
    spawn_on(world, thing, pos);
}

} // verus!
