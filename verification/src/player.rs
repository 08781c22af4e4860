use crate::action::Action;
use crate::board::{Entity, IVec2, Vec3};
use crate::items::{DropoffView, Item, ProcessTimer, Thing, ThingView};
use crate::world::{things_view, SimView, World, WorldView};
use bevy::utils::HashMap;
use vstd::prelude::*;

verus! {

/// The closed set of resource kinds.
#[derive(Copy, Clone, Hash, PartialEq, Eq, Debug, Structural)]
pub enum R {
    Plastic,
    LittleHats,
    BigHats,
    Batteries,
    Copper,
    CopperOre,
    Lithium,
    LithiumOre,
    Lightbulbs,
    Glass,
    Sand,
}

/// Number of resource kinds.
pub const KIND_COUNT: usize = 11;

impl R {
    /// Position of a kind in the fixed enumeration order.
    pub open spec fn spec_index(self) -> int {
        match self {
            R::Plastic => 0,
            R::LittleHats => 1,
            R::BigHats => 2,
            R::Batteries => 3,
            R::Copper => 4,
            R::CopperOre => 5,
            R::Lithium => 6,
            R::LithiumOre => 7,
            R::Lightbulbs => 8,
            R::Glass => 9,
            R::Sand => 10,
        }
    }

    /// The kind at a position of the fixed enumeration order.
    pub open spec fn spec_from_index(i: int) -> R {
        if i == 0 {
            R::Plastic
        } else if i == 1 {
            R::LittleHats
        } else if i == 2 {
            R::BigHats
        } else if i == 3 {
            R::Batteries
        } else if i == 4 {
            R::Copper
        } else if i == 5 {
            R::CopperOre
        } else if i == 6 {
            R::Lithium
        } else if i == 7 {
            R::LithiumOre
        } else if i == 8 {
            R::Lightbulbs
        } else if i == 9 {
            R::Glass
        } else {
            R::Sand
        }
    }

    /// Position of the kind in the fixed enumeration order.
    pub fn index(self) -> (i: usize)
        ensures
            i == self.spec_index(),
            i < KIND_COUNT,
    {
        match self {
            R::Plastic => 0,
            R::LittleHats => 1,
            R::BigHats => 2,
            R::Batteries => 3,
            R::Copper => 4,
            R::CopperOre => 5,
            R::Lithium => 6,
            R::LithiumOre => 7,
            R::Lightbulbs => 8,
            R::Glass => 9,
            R::Sand => 10,
        }
    }

    /// The kind at a position of the fixed enumeration order.
    pub fn from_index(i: usize) -> (k: R)
        requires
            i < KIND_COUNT,
        ensures
            k == R::spec_from_index(i as int),
            k.spec_index() == i,
    {
        if i == 0 {
            R::Plastic
        } else if i == 1 {
            R::LittleHats
        } else if i == 2 {
            R::BigHats
        } else if i == 3 {
            R::Batteries
        } else if i == 4 {
            R::Copper
        } else if i == 5 {
            R::CopperOre
        } else if i == 6 {
            R::Lithium
        } else if i == 7 {
            R::LithiumOre
        } else if i == 8 {
            R::Lightbulbs
        } else if i == 9 {
            R::Glass
        } else {
            R::Sand
        }
    }
}

/// The ledger without entries.
pub open spec fn no_entries() -> Map<R, u64> {
    Map::empty()
}

/// What a ledger holds: the quantity recorded for each kind that has an entry.
pub uninterp spec fn ledger_entries(r: Resources) -> Map<R, u64>;

/// A sparse ledger of resource quantities. It is kept in a `bevy::utils::HashMap`,
/// which stays hidden here: what the map holds is known as `ledger_entries`,
/// through the functions below that look an entry up, set one, and copy the map.
#[verifier::external_body]
#[derive(Debug)]
pub struct Resources {
    map: HashMap<R, u64>,
}

impl View for Resources {
    type V = Map<R, u64>;

    open spec fn view(&self) -> Map<R, u64> {
        ledger_entries(*self)
    }
}

/// `bevy::utils::HashMap::new`: a map without entries.
#[verifier::external_body]
fn map_new() -> (r: Resources)
    ensures
        ledger_entries(r) == no_entries(),
{
    Resources { map: HashMap::new() }
}

/// `bevy::utils::HashMap::get`: the value stored under `k`, if there is one.
#[verifier::external_body]
fn map_get(r: &Resources, k: R) -> (v: Option<u64>)
    ensures
        v is Some <==> ledger_entries(*r).contains_key(k),
        v is Some ==> v->0 == ledger_entries(*r)[k],
{
    r.map.get(&k).copied()
}

/// `bevy::utils::HashMap::insert`: afterwards `k` maps to `v`, and no other entry
/// has changed.
#[verifier::external_body]
fn map_insert(r: &mut Resources, k: R, v: u64)
    ensures
        ledger_entries(*final(r)) == ledger_entries(*old(r)).insert(k, v),
{
    r.map.insert(k, v);
}

/// `bevy::utils::HashMap::clone`: a map with the same entries.
#[verifier::external_body]
fn map_clone(r: &Resources) -> (c: Resources)
    ensures
        ledger_entries(c) == ledger_entries(*r),
{
    Resources { map: r.map.clone() }
}

impl R {
    /// The name shown for a kind.
    pub open spec fn name_text(self) -> Seq<char> {
        match self {
            R::Plastic => "PLASTIC"@,
            R::LittleHats => "LITTLE HATS"@,
            R::BigHats => "BIG HATS"@,
            R::Batteries => "BATTERIES"@,
            R::Copper => "COPPER"@,
            R::CopperOre => "COPPER ORE"@,
            R::Lithium => "LITHIUM"@,
            R::LithiumOre => "LITHIUM ORE"@,
            R::Lightbulbs => "LIGHT BULBS"@,
            R::Glass => "GLASS"@,
            R::Sand => "SAND"@,
        }
    }

    /// What one unit of a kind is made from.
    pub open spec fn recipe_of(self) -> Map<R, u64> {
        match self {
            R::Plastic => map![R::Plastic => 1u64],
            R::LittleHats => map![R::Plastic => 10u64],
            R::BigHats => map![R::Plastic => 10u64, R::Batteries => 1u64, R::Lightbulbs => 1u64],
            R::Batteries => map![R::Copper => 2u64, R::Lithium => 2u64],
            R::Copper => map![R::CopperOre => 2u64],
            R::CopperOre => map![R::CopperOre => 1u64],
            R::Lithium => map![R::LithiumOre => 2u64],
            R::LithiumOre => map![R::LithiumOre => 1u64],
            R::Lightbulbs => map![R::Copper => 2u64, R::Glass => 2u64],
            R::Glass => map![R::Sand => 3u64],
            R::Sand => map![R::Sand => 3u64],
        }
    }

    /// How many ticks it takes to make one unit of a kind.
    pub open spec fn spec_time(self) -> u64 {
        match self {
            R::Plastic => 100,
            R::LittleHats => 300,
            R::BigHats => 200,
            R::Batteries => 150,
            R::Copper => 100,
            R::CopperOre => 100,
            R::Lithium => 100,
            R::LithiumOre => 100,
            R::Lightbulbs => 150,
            R::Glass => 100,
            R::Sand => 100,
        }
    }

    /// The name shown for the kind.
    pub fn name(&self) -> (s: String)
        ensures
            s@ == self.name_text(),
    {
        match self {
            R::Plastic => "PLASTIC".to_owned(),
            R::LittleHats => "LITTLE HATS".to_owned(),
            R::BigHats => "BIG HATS".to_owned(),
            R::Batteries => "BATTERIES".to_owned(),
            R::Copper => "COPPER".to_owned(),
            R::CopperOre => "COPPER ORE".to_owned(),
            R::Lithium => "LITHIUM".to_owned(),
            R::LithiumOre => "LITHIUM ORE".to_owned(),
            R::Lightbulbs => "LIGHT BULBS".to_owned(),
            R::Glass => "GLASS".to_owned(),
            R::Sand => "SAND".to_owned(),
        }
    }

    /// What one unit of the kind is made from.
    pub fn recipe(&self) -> (r: Resources)
        ensures
            r@ == self.recipe_of(),
    {
        let mut r = Resources::zero();
        match self {
            R::Plastic => {
                r.insert(R::Plastic, 1);
            },
            R::LittleHats => {
                r.insert(R::Plastic, 10);
            },
            R::BigHats => {
                r.insert(R::Plastic, 10);
                r.insert(R::Batteries, 1);
                r.insert(R::Lightbulbs, 1);
            },
            R::Batteries => {
                r.insert(R::Copper, 2);
                r.insert(R::Lithium, 2);
            },
            R::Copper => {
                r.insert(R::CopperOre, 2);
            },
            R::CopperOre => {
                r.insert(R::CopperOre, 1);
            },
            R::Lithium => {
                r.insert(R::LithiumOre, 2);
            },
            R::LithiumOre => {
                r.insert(R::LithiumOre, 1);
            },
            R::Lightbulbs => {
                r.insert(R::Copper, 2);
                r.insert(R::Glass, 2);
            },
            R::Glass => {
                r.insert(R::Sand, 3);
            },
            R::Sand => {
                r.insert(R::Sand, 3);
            },
        }
        r
    }

    /// How many ticks it takes to make one unit of the kind.
    pub fn time(&self) -> (t: u64)
        ensures
            t == self.spec_time(),
    {
        match self {
            R::Plastic => 100,
            R::LittleHats => 300,
            R::BigHats => 200,
            R::Batteries => 150,
            R::Copper => 100,
            R::CopperOre => 100,
            R::Lithium => 100,
            R::LithiumOre => 100,
            R::Lightbulbs => 150,
            R::Glass => 100,
            R::Sand => 100,
        }
    }
}

/// The quantity a ledger holds of a kind; a kind without an entry counts as zero.
pub open spec fn amount_of(m: Map<R, u64>, k: R) -> u64 {
    if m.contains_key(k) {
        m[k]
    } else {
        0
    }
}

/// Addition that stops at the largest quantity.
pub open spec fn sat_add(a: u64, b: u64) -> u64 {
    if a + b > u64::MAX {
        u64::MAX
    } else {
        (a + b) as u64
    }
}

/// Multiplication that stops at the largest quantity.
pub open spec fn sat_mul(a: u64, b: u64) -> u64 {
    if a * b > u64::MAX {
        u64::MAX
    } else {
        (a * b) as u64
    }
}

/// The larger of two quantities.
pub open spec fn larger(a: u64, b: u64) -> u64 {
    if a >= b {
        a
    } else {
        b
    }
}

/// The smaller of two quantities.
pub open spec fn smaller(a: u64, b: u64) -> u64 {
    if a <= b {
        a
    } else {
        b
    }
}

/// Every kind has an entry, each with the quantity `v`.
pub open spec fn uniform(v: u64) -> Map<R, u64> {
    Map::new(|k: R| true, |k: R| v)
}

/// `have` holds at least what `want` asks for, kind by kind.
pub open spec fn covers(have: Map<R, u64>, want: Map<R, u64>) -> bool {
    forall|k: R| #[trigger] want.contains_key(k) ==> amount_of(have, k) >= want[k]
}

/// What a transfer of `want` out of `have` moves of kind `k`.
pub open spec fn moved(have: Map<R, u64>, want: Map<R, u64>, k: R) -> u64 {
    if want.contains_key(k) && have.contains_key(k) {
        smaller(have[k], want[k])
    } else {
        0
    }
}

/// The giving ledger once the kinds before position `n` have been transferred.
pub open spec fn give_upto(have: Map<R, u64>, want: Map<R, u64>, n: int) -> Map<R, u64> {
    Map::new(
        |k: R| have.contains_key(k),
        |k: R|
            if k.spec_index() < n {
                (have[k] - moved(have, want, k)) as u64
            } else {
                have[k]
            },
    )
}

/// The receiving ledger once the kinds before position `n` have been transferred.
pub open spec fn receive_upto(
    have: Map<R, u64>,
    dest: Map<R, u64>,
    want: Map<R, u64>,
    n: int,
) -> Map<R, u64> {
    Map::new(
        |k: R|
            dest.contains_key(k) || (k.spec_index() < n && want.contains_key(k)
                && have.contains_key(k)),
        |k: R|
            if k.spec_index() < n {
                sat_add(amount_of(dest, k), moved(have, want, k))
            } else {
                amount_of(dest, k)
            },
    )
}

/// The giving ledger after a transfer of `want`.
pub open spec fn after_give(have: Map<R, u64>, want: Map<R, u64>) -> Map<R, u64> {
    give_upto(have, want, KIND_COUNT as int)
}

/// The receiving ledger after a transfer of `want` out of `have`.
pub open spec fn after_receive(have: Map<R, u64>, dest: Map<R, u64>, want: Map<R, u64>) -> Map<
    R,
    u64,
> {
    receive_upto(have, dest, want, KIND_COUNT as int)
}

/// Some kind that `want` asks for is short in `have` while `src` can supply it.
pub open spec fn wants_from(have: Map<R, u64>, want: Map<R, u64>, src: Map<R, u64>) -> bool {
    exists|k: R| lacks(have, want, src, k)
}

/// Kind `k` is asked for, short in `have`, and on offer in `src`.
pub open spec fn lacks(have: Map<R, u64>, want: Map<R, u64>, src: Map<R, u64>, k: R) -> bool {
    want.contains_key(k) && amount_of(have, k) < want[k] && amount_of(src, k) > 0
}

/// Kind-by-kind sum of two ledgers, with an entry for every kind.
pub open spec fn sum_of(a: Map<R, u64>, b: Map<R, u64>) -> Map<R, u64> {
    Map::new(|k: R| true, |k: R| sat_add(amount_of(a, k), amount_of(b, k)))
}

/// Kind-by-kind maximum of two ledgers, with an entry for every kind.
pub open spec fn max_of(a: Map<R, u64>, b: Map<R, u64>) -> Map<R, u64> {
    Map::new(|k: R| true, |k: R| larger(amount_of(a, k), amount_of(b, k)))
}

/// Every entry of `a` multiplied by `n`.
pub open spec fn scaled(a: Map<R, u64>, n: u64) -> Map<R, u64> {
    Map::new(|k: R| a.contains_key(k), |k: R| sat_mul(a[k], n))
}

/// The entries of `a`, each with quantity zero.
pub open spec fn zeroed(a: Map<R, u64>) -> Map<R, u64> {
    Map::new(|k: R| a.contains_key(k), |k: R| 0u64)
}

/// Addition that stops at the largest quantity.
pub fn add_saturating(a: u64, b: u64) -> (c: u64)
    ensures
        c == sat_add(a, b),
{
    if a > u64::MAX - b {
        u64::MAX
    } else {
        a + b
    }
}

/// Multiplication that stops at the largest quantity.
pub fn mul_saturating(a: u64, b: u64) -> (c: u64)
    ensures
        c == sat_mul(a, b),
{
    match a.checked_mul(b) {
        Some(c) => c,
        None => u64::MAX,
    }
}

impl Clone for Resources {
    /// A ledger with the same entries.
    fn clone(&self) -> (c: Resources)
        ensures
            c@ == self@,
    {
        map_clone(self)
    }
}

impl Resources {
    /// The ledger without entries.
    pub fn zero() -> (r: Resources)
        ensures
            r@ == no_entries(),
    {
        map_new()
    }

    /// The quantity recorded for `k`, if the ledger has an entry for it.
    pub fn get(&self, k: R) -> (v: Option<u64>)
        ensures
            v is Some <==> self@.contains_key(k),
            v is Some ==> v->0 == self@[k],
    {
        map_get(self, k)
    }

    /// Records the quantity `v` for `k`.
    pub fn insert(&mut self, k: R, v: u64)
        ensures
            final(self)@ == old(self)@.insert(k, v),
    {
        map_insert(self, k, v)
    }

    /// The quantity held of `k`, zero where the ledger has no entry.
    pub fn amount(&self, k: R) -> (v: u64)
        ensures
            v == amount_of(self@, k),
    {
        match self.get(k) {
            Some(v) => v,
            None => 0,
        }
    }

    /// A ledger with an entry of `v` for every kind.
    fn filled(v: u64) -> (r: Resources)
        ensures
            r@ == uniform(v),
    {
        let mut r = Resources::zero();
        let mut i: usize = 0;
        while i < KIND_COUNT
            invariant
                i <= KIND_COUNT,
                forall|k: R| r@.contains_key(k) <==> k.spec_index() < i,
                forall|k: R| r@.contains_key(k) ==> r@[k] == v,
            decreases KIND_COUNT - i,
        {
            r.insert(R::from_index(i), v);
            i += 1;
        }
        r
    }

    /// What a new player owns: three little hats and an empty entry for every other kind.
    pub fn player_default() -> (r: Resources)
        ensures
            r@ == uniform(0).insert(R::LittleHats, 3),
    {
        let mut r = Resources::filled(0);
        r.insert(R::LittleHats, 3);
        r
    }

    /// An entry of zero for every kind.
    pub fn zero_all_keys() -> (r: Resources)
        ensures
            r@ == uniform(0),
    {
        Resources::filled(0)
    }

    /// One unit of every kind.
    pub fn one() -> (r: Resources)
        ensures
            r@ == uniform(1),
    {
        Resources::filled(1)
    }

    /// Whether the ledger holds at least `qty` of every kind that `qty` lists.
    pub fn covers(&self, qty: &Resources) -> (all: bool)
        ensures
            all == covers(self@, qty@),
    {
        let mut all = true;
        let mut i: usize = 0;
        while i < KIND_COUNT
            invariant
                i <= KIND_COUNT,
                all <==> (forall|k: R|
                    k.spec_index() < i && #[trigger] qty@.contains_key(k) ==> amount_of(self@, k)
                        >= qty@[k]),
            decreases KIND_COUNT - i,
        {
            let k = R::from_index(i);
            if let Some(q) = qty.get(k) {
                if self.amount(k) < q {
                    all = false;
                }
            }
            i += 1;
        }
        all
    }

    /// Moves `qty` out of this ledger into `dest`, as far as this ledger can supply it.
    ///
    /// The result says whether every listed kind was available in full. With
    /// `require_all`, a shortfall of any kind leaves both ledgers untouched.
    /// Otherwise each listed kind that has an entry here gives up the smaller of
    /// what is held and what is asked, and `dest` gains it, stopping at the
    /// largest quantity.
    pub fn take(&mut self, qty: &Resources, dest: &mut Resources, require_all: bool) -> (all: bool)
        ensures
            all == covers(old(self)@, qty@),
            require_all && !all ==> *final(self) == *old(self) && *final(dest) == *old(dest),
            !(require_all && !all) ==> final(self)@ == after_give(old(self)@, qty@) && final(dest)@
                == after_receive(old(self)@, old(dest)@, qty@),
    {
        let all = self.covers(qty);
        if require_all && !all {
            return all;
        }
        let ghost have = self@;
        let ghost into = dest@;
        let mut i: usize = 0;
        while i < KIND_COUNT
            invariant
                i <= KIND_COUNT,
                self@ == give_upto(have, qty@, i as int),
                dest@ == receive_upto(have, into, qty@, i as int),
            decreases KIND_COUNT - i,
        {
            let k = R::from_index(i);
            if let Some(q) = qty.get(k) {
                if let Some(s) = self.get(k) {
                    let t = if s <= q { s } else { q };
                    let d = add_saturating(dest.amount(k), t);
                    dest.insert(k, d);
                    self.insert(k, s - t);
                }
            }
            i += 1;
        }
        all
    }

    /// Whether some kind listed in `qty` is short here while `src` holds some of it.
    pub fn needs(&self, qty: &Resources, src: &Resources) -> (needs: bool)
        ensures
            needs == wants_from(self@, qty@, src@),
    {
        let mut needs = false;
        let mut i: usize = 0;
        while i < KIND_COUNT
            invariant
                i <= KIND_COUNT,
                needs <==> (exists|k: R| k.spec_index() < i && lacks(self@, qty@, src@, k)),
            decreases KIND_COUNT - i,
        {
            let k = R::from_index(i);
            if let Some(q) = qty.get(k) {
                if self.amount(k) < q && src.amount(k) > 0 {
                    assert(lacks(self@, qty@, src@, k));
                    needs = true;
                }
            }
            i += 1;
        }
        needs
    }

    /// The larger of the two quantities, for every kind.
    pub fn max(&self, other: &Resources) -> (r: Resources)
        ensures
            r@ == max_of(self@, other@),
    {
        let mut r = Resources::zero();
        let mut i: usize = 0;
        while i < KIND_COUNT
            invariant
                i <= KIND_COUNT,
                forall|k: R| r@.contains_key(k) <==> k.spec_index() < i,
                forall|k: R|
                    r@.contains_key(k) ==> r@[k] == larger(
                        amount_of(self@, k),
                        amount_of(other@, k),
                    ),
            decreases KIND_COUNT - i,
        {
            let k = R::from_index(i);
            let a = self.amount(k);
            let b = other.amount(k);
            r.insert(k, if a >= b { a } else { b });
            i += 1;
        }
        r
    }

    /// The sum of the two quantities, for every kind, stopping at the largest quantity.
    pub fn sum(&self, other: &Resources) -> (r: Resources)
        ensures
            r@ == sum_of(self@, other@),
    {
        let mut r = Resources::zero();
        let mut i: usize = 0;
        while i < KIND_COUNT
            invariant
                i <= KIND_COUNT,
                forall|k: R| r@.contains_key(k) <==> k.spec_index() < i,
                forall|k: R|
                    r@.contains_key(k) ==> r@[k] == sat_add(
                        amount_of(self@, k),
                        amount_of(other@, k),
                    ),
            decreases KIND_COUNT - i,
        {
            let k = R::from_index(i);
            r.insert(k, add_saturating(self.amount(k), other.amount(k)));
            i += 1;
        }
        r
    }

    /// Every entry multiplied by `inp`, stopping at the largest quantity.
    pub fn mult(&self, inp: u64) -> (r: Resources)
        ensures
            r@ == scaled(self@, inp),
    {
        let mut r = Resources::zero();
        let mut i: usize = 0;
        while i < KIND_COUNT
            invariant
                i <= KIND_COUNT,
                forall|k: R| r@.contains_key(k) <==> k.spec_index() < i && self@.contains_key(k),
                forall|k: R| r@.contains_key(k) ==> r@[k] == sat_mul(self@[k], inp),
            decreases KIND_COUNT - i,
        {
            let k = R::from_index(i);
            if let Some(v) = self.get(k) {
                r.insert(k, mul_saturating(v, inp));
            }
            i += 1;
        }
        r
    }

    /// The same entries, each with quantity zero.
    pub fn as_zero(&self) -> (r: Resources)
        ensures
            r@ == zeroed(self@),
    {
        let mut r = self.clone();
        let mut i: usize = 0;
        while i < KIND_COUNT
            invariant
                i <= KIND_COUNT,
                r@.dom() == self@.dom(),
                forall|k: R|
                    r@.contains_key(k) ==> r@[k] == (if k.spec_index() < i {
                        0
                    } else {
                        self@[k]
                    }),
            decreases KIND_COUNT - i,
        {
            let k = R::from_index(i);
            if r.get(k).is_some() {
                r.insert(k, 0);
            }
            i += 1;
        }
        r
    }
}

/// A transfer changes no kind's combined total: whenever `take` moves `want`
/// out of `have` into `dest`, the sum of the two ledgers is, kind by kind, what
/// it was before. This covers every transfer that `take` commits, in
/// particular each successful one that required everything.
pub proof fn lemma_take_conserves(have: Map<R, u64>, dest: Map<R, u64>, want: Map<R, u64>)
    ensures
        sum_of(after_give(have, want), after_receive(have, dest, want)) == sum_of(have, dest),
{
}

/// A successful transfer that required everything removes exactly what was
/// asked for of every listed kind.
pub proof fn lemma_take_all_exact(have: Map<R, u64>, want: Map<R, u64>, k: R)
    requires
        covers(have, want),
        want.contains_key(k),
        have.contains_key(k),
    ensures
        after_give(have, want)[k] == have[k] - want[k],
{
}

/// Thousandths of a tile's side that a new unit covers in a second.
pub const BLOBBY_SPEED: u32 = 4000;

/// Milliseconds of play after which the level rises by one.
pub const LEVEL_MILLIS: u64 = 10000;

/// Ticks that a new player has to deliver the first hats.
pub const FIRST_DEADLINE: u64 = 50000;

/// After this many delivered hats the time allowed for the next order no
/// longer shrinks by a fixed amount per hat.
pub const LAST_LINEAR_ORDER: u64 = 12;

/// What the simulation knows of the player.
#[derive(Debug)]
pub struct PlayerState {
    /// Everything the player owns, added up anew on every tick.
    pub combined_resources: Resources,
    pub item_to_place: Option<Item>,
    pub sell_mode: bool,
    /// Milliseconds of play so far.
    pub level_time: u64,
    pub level: u64,
    /// The speed of play, in tenths.
    pub time_multiplier: u64,
    /// Ticks of play so far.
    pub step: u64,
    /// The id given to the unit placed last.
    pub blobby_count: u8,
    pub selected_entity: Option<Entity>,
    /// Ticks left to deliver the hats that are on order.
    pub delivery_deadline: u64,
    /// The number of delivered hats that fulfils the current order.
    pub required_hats: u64,
    pub alive_set: bool,
}

/// The player as the rules of play see it: everything but the speed of play.
#[verifier::ext_equal]
pub struct PlayerView {
    pub combined_resources: Map<R, u64>,
    pub item_to_place: Option<Item>,
    pub sell_mode: bool,
    pub level_time: u64,
    pub level: u64,
    pub step: u64,
    pub blobby_count: u8,
    pub selected_entity: Option<Entity>,
    pub delivery_deadline: u64,
    pub required_hats: u64,
    pub alive_set: bool,
}

impl View for PlayerState {
    type V = PlayerView;

    open spec fn view(&self) -> PlayerView {
        PlayerView {
            combined_resources: self.combined_resources@,
            item_to_place: self.item_to_place,
            sell_mode: self.sell_mode,
            level_time: self.level_time,
            level: self.level,
            step: self.step,
            blobby_count: self.blobby_count,
            selected_entity: self.selected_entity,
            delivery_deadline: self.delivery_deadline,
            required_hats: self.required_hats,
            alive_set: self.alive_set,
        }
    }
}

impl PlayerView {
    /// The player at the start of a game.
    pub open spec fn fresh() -> PlayerView {
        PlayerView {
            combined_resources: uniform(0),
            item_to_place: None,
            sell_mode: false,
            level_time: 0,
            level: 0,
            step: 0,
            blobby_count: 0,
            selected_entity: None,
            delivery_deadline: FIRST_DEADLINE,
            required_hats: 1,
            alive_set: true,
        }
    }

    /// The player after the clock has advanced by one tick of `millis`
    /// milliseconds. The clock of a player who has lost stands still.
    pub open spec fn after_set_level(self, millis: u64) -> PlayerView {
        if !self.alive_set {
            self
        } else {
            let level_time = sat_add(self.level_time, millis);
            PlayerView {
                level_time,
                level: level_time / LEVEL_MILLIS,
                step: sat_add(self.step, 1),
                ..self
            }
        }
    }

    /// The time allowed for the next order once `delivered` hats have arrived,
    /// as far as it shrinks by a fixed amount per hat.
    pub open spec fn linear_deadline(delivered: u64) -> u64 {
        if delivered <= LAST_LINEAR_ORDER {
            (FIRST_DEADLINE - 1 - 4000 * delivered) as u64
        } else {
            0
        }
    }

    /// The player after the objective was checked against `delivered` hats.
    ///
    /// Where the order is fulfilled, the next order asks for one hat more and
    /// the deadline starts anew. Otherwise the deadline comes one tick nearer,
    /// and a player whose deadline has passed has lost.
    pub open spec fn after_objective(self, delivered: u64) -> PlayerView {
        if delivered >= self.required_hats {
            PlayerView {
                delivery_deadline: PlayerView::linear_deadline(delivered),
                required_hats: sat_add(delivered, 1),
                ..self
            }
        } else if self.delivery_deadline == 0 {
            PlayerView { alive_set: false, ..self }
        } else {
            PlayerView { delivery_deadline: (self.delivery_deadline - 1) as u64, ..self }
        }
    }
}

impl PlayerState {
    /// Whether the player is still in the game.
    pub fn alive(&self) -> (a: bool)
        ensures
            a == self.alive_set,
    {
        self.alive_set
    }
}

impl Default for PlayerState {
    /// The player at the start of a game, at the usual speed of play.
    fn default() -> (p: PlayerState)
        ensures
            p@ == PlayerView::fresh(),
            p.time_multiplier == 10,
    {
        PlayerState {
            combined_resources: Resources::zero_all_keys(),
            item_to_place: None,
            sell_mode: false,
            level_time: 0,
            level: 0,
            time_multiplier: 10,
            step: 0,
            blobby_count: 0,
            selected_entity: None,
            delivery_deadline: FIRST_DEADLINE,
            required_hats: 1,
            alive_set: true,
        }
    }
}

impl ThingView {
    /// A producer one tick later.
    ///
    /// An idle producer whose input holds everything its recipe lists uses that
    /// up and starts its timer. A running producer counts one tick; when it has
    /// run for its full length, it adds one unit of its product to its output
    /// and becomes idle. Nothing else changes.
    pub open spec fn after_production(self) -> ThingView {
        match self {
            ThingView::Factory { tile, dropoff, timer, output, resources } => {
                if timer.started {
                    let time = sat_add(timer.time, 1);
                    if time >= timer.length {
                        ThingView::Factory {
                            tile,
                            dropoff,
                            timer: ProcessTimer { started: false, time: 0, length: timer.length },
                            output,
                            resources: sum_of(resources, no_entries().insert(output.0, 1)),
                        }
                    } else {
                        ThingView::Factory {
                            tile,
                            dropoff,
                            timer: ProcessTimer { started: true, time, length: timer.length },
                            output,
                            resources,
                        }
                    }
                } else if covers(dropoff.input, output.0.recipe_of()) {
                    ThingView::Factory {
                        tile,
                        dropoff: DropoffView {
                            qty: dropoff.qty,
                            input: after_give(dropoff.input, output.0.recipe_of()),
                        },
                        timer: ProcessTimer { started: true, time: 0, length: timer.length },
                        output,
                        resources,
                    }
                } else {
                    self
                }
            },
            _ => self,
        }
    }
}

/// A thing after `n` ticks of production.
pub open spec fn produced(t: ThingView, n: int) -> ThingView
    decreases n,
{
    if n <= 0 {
        t
    } else {
        produced(t, n - 1).after_production()
    }
}

/// A producer that has just started runs for its full length: while fewer
/// ticks than that have passed, it keeps running and what it has made is
/// unchanged; with the last tick it has made exactly one unit more, and is
/// idle again.
pub proof fn lemma_production_cycle(t: ThingView, n: int)
    requires
        t matches ThingView::Factory { timer, .. } && timer.started && timer.time == 0
            && timer.length >= 1,
        0 <= n <= t->Factory_timer.length,
    ensures
        produced(t, n) matches ThingView::Factory { tile, dropoff, timer, output, resources }
            && tile == t->Factory_tile && dropoff == t->Factory_dropoff && output
            == t->Factory_output && timer.length == t->Factory_timer.length && (if n
            < timer.length {
            timer.started && timer.time == n && resources == t->Factory_resources
        } else {
            !timer.started && timer.time == 0 && resources == sum_of(
                t->Factory_resources,
                no_entries().insert(output.0, 1),
            )
        }),
    decreases n,
{
    if n > 0 {
        lemma_production_cycle(t, n - 1);
    }
}

/// An idle producer whose input does not hold everything its recipe lists
/// stays as it is.
pub proof fn lemma_production_waits(t: ThingView)
    requires
        t matches ThingView::Factory { dropoff, timer, output, .. } && !timer.started && !covers(
            dropoff.input,
            output.0.recipe_of(),
        ),
    ensures
        t.after_production() == t,
{
}

impl SimView {
    /// The state of play after the clock has advanced by one tick.
    pub open spec fn after_set_level(self, millis: u64) -> SimView {
        SimView { player: self.player.after_set_level(millis), ..self }
    }

    /// The state of play after every producer has worked for one tick.
    pub open spec fn after_factories(self) -> SimView {
        SimView {
            things: Seq::new(self.things.len(), |i: int| self.things[i].after_production()),
            ..self
        }
    }
}

/// Advances the clock by one tick of `millis` milliseconds, unless the player has lost.
pub fn set_level(world: &mut World, millis: u64)
    requires
        old(world).wf(),
    ensures
        final(world).wf(),
        final(world)@ == old(world)@.with_sim(old(world)@.sim.after_set_level(millis)),
{
    if !world.player.alive() {
        return ;
    }
    world.player.level_time = add_saturating(world.player.level_time, millis);
    world.player.level = world.player.level_time / LEVEL_MILLIS;
    world.player.step = add_saturating(world.player.step, 1);
}

/// Lets one producer work for one tick.
pub fn produce(thing: &mut Thing)
    ensures
        final(thing)@ == old(thing)@.after_production(),
{
    match thing {
        Thing::Factory { tile, dropoff, timer, output, resources } => {
            if timer.started {
                timer.time = add_saturating(timer.time, 1);
                if timer.time >= timer.length {
                    let mut out = Resources::zero();
                    out.insert(output.0, 1);
                    let total = resources.sum(&out);
                    *resources = total;
                    timer.started = false;
                    timer.time = 0;
                }
            } else {
                let mut used = Resources::zero();
                let recipe = output.0.recipe();
                if dropoff.input.take(&recipe, &mut used, true) {
                    timer.started = true;
                    timer.time = 0;
                }
            }
        },
        _ => {},
    }
}

/// Lets every producer work for one tick.
pub fn process_factories(world: &mut World)
    requires
        old(world).wf(),
    ensures
        final(world).wf(),
        final(world)@ == old(world)@.with_sim(old(world)@.sim.after_factories()),
{
    let ghost before = world@;
    let n = world.things.len();
    let mut i: usize = 0;
    while i < n
        invariant
            i <= n,
            n == world.things.len(),
            n == before.sim.things.len(),
            world.board.wf(),
            world@ == before.with_sim(
                SimView { things: things_view(world.things@), ..before.sim },
            ),
            forall|j: int| 0 <= j < i ==> world.things[j]@ == before.sim.things[j].after_production(),
            forall|j: int| i <= j < n ==> world.things[j]@ == before.sim.things[j],
            forall|j: int| 0 <= j < n ==> (#[trigger] before.sim.things[j]).wf(),
        decreases n - i,
    {
        produce(&mut world.things[i]);
        i += 1;
    }
    assert(world@.sim.things =~= before.sim.after_factories().things);
}

/// The sum of `start` and of what the first `n` things hold for the player.
pub open spec fn owned_total(things: Seq<ThingView>, start: Map<R, u64>, n: int) -> Map<R, u64>
    decreases n,
{
    if n <= 0 {
        start
    } else {
        let before = owned_total(things, start, n - 1);
        match things[n - 1].owned() {
            Some(m) => sum_of(before, m),
            None => before,
        }
    }
}

/// The big hats that have arrived at the delivery point created first among
/// the first `n` things, if there is one.
pub open spec fn first_delivery(things: Seq<ThingView>, n: int) -> Option<u64>
    decreases n,
{
    if n <= 0 {
        None
    } else {
        match first_delivery(things, n - 1) {
            Some(d) => Some(d),
            None => match things[n - 1] {
                ThingView::OutgoingHats { dropoff, .. } => Some(amount_of(dropoff.input, R::BigHats)),
                _ => None,
            },
        }
    }
}

impl SimView {
    /// Everything the player owns: the stock and what warehouses and producers hold.
    pub open spec fn owned(self) -> Map<R, u64> {
        owned_total(self.things, sum_of(uniform(0), self.stock), self.things.len() as int)
    }

    /// The state of play after what the player owns has been added up.
    pub open spec fn after_aggregate(self) -> SimView {
        SimView { player: PlayerView { combined_resources: self.owned(), ..self.player }, ..self }
    }

    /// The big hats delivered so far; none while there is no delivery point.
    pub open spec fn delivered(self) -> u64 {
        match first_delivery(self.things, self.things.len() as int) {
            Some(d) => d,
            None => 0,
        }
    }

    /// The state of play after the objective was checked.
    pub open spec fn after_objective(self) -> SimView {
        SimView { player: self.player.after_objective(self.delivered()), ..self }
    }
}

/// Adds up what the player owns: the stock first, then what warehouses and
/// producers hold, in creation order.
pub fn update_player_resources(world: &mut World)
    requires
        old(world).wf(),
    ensures
        final(world).wf(),
        final(world)@ == old(world)@.with_sim(old(world)@.sim.after_aggregate()),
{
    let ghost before = world@;
    let mut total = Resources::zero_all_keys().sum(&world.stock);
    let n = world.things.len();
    let mut i: usize = 0;
    while i < n
        invariant
            i <= n,
            n == world.things.len(),
            world@ == before,
            world.wf(),
            total@ == owned_total(before.sim.things, sum_of(uniform(0), before.sim.stock), i as int),
        decreases n - i,
    {
        match &world.things[i] {
            Thing::PlasticDepot { resources, .. } => {
                total = total.sum(resources);
            },
            Thing::Factory { resources, .. } => {
                total = total.sum(resources);
            },
            _ => {},
        }
        i += 1;
    }
    world.player.combined_resources = total;
}

/// The big hats delivered so far; none while there is no delivery point.
pub fn delivered_hats(world: &World) -> (d: u64)
    ensures
        d == world@.sim.delivered(),
{
    let n = world.things.len();
    let mut i: usize = 0;
    while i < n
        invariant
            i <= n,
            n == world.things.len(),
            first_delivery(world@.sim.things, i as int) is None,
        decreases n - i,
    {
        match &world.things[i] {
            Thing::OutgoingHats { dropoff, .. } => {
                let d = dropoff.input.amount(R::BigHats);
                proof {
                    lemma_first_delivery_stays(world@.sim.things, i as int + 1, n as int);
                }
                return d;
            },
            _ => {},
        }
        i += 1;
    }
    0
}

/// Once a delivery point was found, no later one takes its place.
pub proof fn lemma_first_delivery_stays(things: Seq<ThingView>, m: int, n: int)
    requires
        m <= n,
        first_delivery(things, m) is Some,
    ensures
        first_delivery(things, n) == first_delivery(things, m),
    decreases n - m,
{
    if m < n {
        lemma_first_delivery_stays(things, m, n - 1);
    }
}

/// Checks the objective. Where the current order is fulfilled, the next order
/// asks for one hat more, the deadline starts anew, and the number of
/// delivered hats is returned. Otherwise the deadline comes one tick nearer,
/// and a player whose deadline has passed has lost.
pub fn hats_objective(world: &mut World) -> (renewed: Option<u64>)
    requires
        old(world).wf(),
    ensures
        final(world).wf(),
        final(world)@ == old(world)@.with_sim(old(world)@.sim.after_objective()),
        renewed == (if old(world)@.sim.delivered() >= old(world)@.sim.player.required_hats {
            Some(old(world)@.sim.delivered())
        } else {
            None
        }),
{
    let delivered = delivered_hats(world);
    if delivered >= world.player.required_hats {
        world.player.delivery_deadline = if delivered <= LAST_LINEAR_ORDER {
            FIRST_DEADLINE - 1 - 4000 * delivered
        } else {
            0
        };
        world.player.required_hats = add_saturating(delivered, 1);
        Some(delivered)
    } else {
        if world.player.delivery_deadline == 0 {
            world.player.alive_set = false;
        } else {
            world.player.delivery_deadline = world.player.delivery_deadline - 1;
        }
        None
    }
}

/// Gives the current order at least `ticks` more ticks.
pub fn extend_deadline(world: &mut World, ticks: u64)
    requires
        old(world).wf(),
    ensures
        final(world).wf(),
        final(world)@ == old(world)@.with_sim(
            SimView {
                player: PlayerView {
                    delivery_deadline: larger(old(world)@.sim.player.delivery_deadline, ticks),
                    ..old(world)@.sim.player
                },
                ..old(world)@.sim
            },
        ),
{
    if ticks > world.player.delivery_deadline {
        world.player.delivery_deadline = ticks;
    }
}

/// One line of a ledger as it is shown: a kind with its quantity, or a gap
/// between two groups of kinds.
#[derive(Clone, Copy, Debug, PartialEq, Eq, Structural)]
pub enum Row {
    Entry(R, u64),
    Gap,
}

/// Whether a kind gets a line: a kind without an entry only where such kinds
/// are asked for, and a kind of which nothing is held only where zeros are
/// asked for.
pub open spec fn shown(m: Map<R, u64>, k: R, show_if_zero: bool, show_if_none: bool) -> bool {
    (show_if_none || m.contains_key(k)) && (show_if_zero || amount_of(m, k) > 0)
}

/// The lines `rows` with the line of kind `k` added, if the kind gets one.
pub open spec fn with_row(
    rows: Seq<Row>,
    m: Map<R, u64>,
    k: R,
    show_if_zero: bool,
    show_if_none: bool,
) -> Seq<Row> {
    if shown(m, k, show_if_zero, show_if_none) {
        rows.push(Row::Entry(k, amount_of(m, k)))
    } else {
        rows
    }
}

/// The lines `rows` with a gap added, where gaps are asked for and the group
/// that started after the first `start` lines is not empty.
pub open spec fn with_gap(rows: Seq<Row>, start: int, draw_separators: bool) -> Seq<Row> {
    if draw_separators && rows.len() > start {
        rows.push(Row::Gap)
    } else {
        rows
    }
}

/// The lines of a ledger after its raw materials: plastic, sand, copper ore
/// and lithium ore, then a gap.
pub open spec fn raw_rows_of(
    m: Map<R, u64>,
    show_if_zero: bool,
    show_if_none: bool,
    draw_separators: bool,
) -> Seq<Row> {
    with_gap(
        with_row(
            with_row(
                with_row(
                    with_row(Seq::empty(), m, R::Plastic, show_if_zero, show_if_none),
                    m,
                    R::Sand,
                    show_if_zero,
                    show_if_none,
                ),
                m,
                R::CopperOre,
                show_if_zero,
                show_if_none,
            ),
            m,
            R::LithiumOre,
            show_if_zero,
            show_if_none,
        ),
        0,
        draw_separators,
    )
}

/// The lines of a ledger after its refined materials: the raw materials, then
/// copper, lithium and glass, then a gap.
pub open spec fn refined_rows_of(
    m: Map<R, u64>,
    show_if_zero: bool,
    show_if_none: bool,
    draw_separators: bool,
) -> Seq<Row> {
    let raw = raw_rows_of(m, show_if_zero, show_if_none, draw_separators);
    with_gap(
        with_row(
            with_row(
                with_row(raw, m, R::Copper, show_if_zero, show_if_none),
                m,
                R::Lithium,
                show_if_zero,
                show_if_none,
            ),
            m,
            R::Glass,
            show_if_zero,
            show_if_none,
        ),
        raw.len() as int,
        draw_separators,
    )
}

/// The lines of a ledger: raw materials, refined materials, and the goods
/// batteries, light bulbs, little hats and big hats, each group in this order.
pub open spec fn rows_of(
    m: Map<R, u64>,
    show_if_zero: bool,
    show_if_none: bool,
    draw_separators: bool,
) -> Seq<Row> {
    with_row(
        with_row(
            with_row(
                with_row(
                    refined_rows_of(m, show_if_zero, show_if_none, draw_separators),
                    m,
                    R::Batteries,
                    show_if_zero,
                    show_if_none,
                ),
                m,
                R::Lightbulbs,
                show_if_zero,
                show_if_none,
            ),
            m,
            R::LittleHats,
            show_if_zero,
            show_if_none,
        ),
        m,
        R::BigHats,
        show_if_zero,
        show_if_none,
    )
}

impl Resources {
    /// Adds the line of a kind to `out`, if the kind gets one.
    fn push_row(&self, out: &mut Vec<Row>, k: R, show_if_zero: bool, show_if_none: bool)
        ensures
            final(out)@ == with_row(old(out)@, self@, k, show_if_zero, show_if_none),
    {
        let held = self.get(k);
        if !show_if_none && held.is_none() {
            return ;
        }
        let v = match held {
            Some(v) => v,
            None => 0,
        };
        if show_if_zero || v > 0 {
            out.push(Row::Entry(k, v));
        }
    }

    /// The lines to show for this ledger.
    pub fn rows(&self, show_if_zero: bool, show_if_none: bool, draw_separators: bool) -> (out: Vec<
        Row,
    >)
        ensures
            out@ == rows_of(self@, show_if_zero, show_if_none, draw_separators),
    {
        let mut out: Vec<Row> = Vec::new();
        self.push_row(&mut out, R::Plastic, show_if_zero, show_if_none);
        self.push_row(&mut out, R::Sand, show_if_zero, show_if_none);
        self.push_row(&mut out, R::CopperOre, show_if_zero, show_if_none);
        self.push_row(&mut out, R::LithiumOre, show_if_zero, show_if_none);
        if draw_separators && out.len() > 0 {
            out.push(Row::Gap);
        }
        let filled = out.len();
        self.push_row(&mut out, R::Copper, show_if_zero, show_if_none);
        self.push_row(&mut out, R::Lithium, show_if_zero, show_if_none);
        self.push_row(&mut out, R::Glass, show_if_zero, show_if_none);
        if draw_separators && out.len() > filled {
            out.push(Row::Gap);
        }
        self.push_row(&mut out, R::Batteries, show_if_zero, show_if_none);
        self.push_row(&mut out, R::Lightbulbs, show_if_zero, show_if_none);
        self.push_row(&mut out, R::LittleHats, show_if_zero, show_if_none);
        self.push_row(&mut out, R::BigHats, show_if_zero, show_if_none);
        out
    }
}

/// The pointer selects a unit that is nearer to it than this many thousandths.
pub const HOVER: u128 = 700;

/// The pointer only acts on the ground: its height must be less than this many thousandths.
pub const GROUND: i64 = 100;

/// The square of the distance between two points on the ground.
pub open spec fn spec_flat_dist2(a: Vec3, b: Vec3) -> int {
    (a.x - b.x) * (a.x - b.x) + (a.z - b.z) * (a.z - b.z)
}

/// The unit under the pointer among the first `n` things: the one created
/// last of those within `HOVER` of it.
pub open spec fn hovered_upto(things: Seq<ThingView>, cursor: Vec3, n: int) -> Option<int>
    decreases n,
{
    if n <= 0 {
        None
    } else {
        match things[n - 1] {
            ThingView::Unit { position, .. } => if spec_flat_dist2(position, cursor) < HOVER
                * HOVER {
                Some(n - 1)
            } else {
                hovered_upto(things, cursor, n - 1)
            },
            _ => hovered_upto(things, cursor, n - 1),
        }
    }
}

/// Whether an action can name a tile: each coordinate of an action is one byte.
pub open spec fn fits_action(tile: IVec2) -> bool {
    0 <= tile.x <= u8::MAX && 0 <= tile.y <= u8::MAX
}

impl SimView {
    /// The unit that the player has selected, if the selection names a unit.
    pub open spec fn selected_unit(self) -> Option<int> {
        match self.player.selected_entity {
            Some(e) => if e.index < self.things.len() && self.things[e.index as int] is Unit {
                Some(e.index as int)
            } else {
                None
            },
            None => None,
        }
    }
}

impl SimView {
    /// Whether a pile stands on the tile with the given index.
    pub open spec fn pile_at(self, idx: int) -> bool {
        match self.grid.tiles[idx] {
            Some(e) => e.index < self.things.len() && self.things[e.index as int].pile() is Some,
            None => false,
        }
    }

    /// The state of play after the unit in place `u` was told to fetch from `pile`.
    pub open spec fn after_assignment(self, u: int, pile: Option<Entity>) -> SimView {
        match self.things[u] {
            ThingView::Unit { blobby, path, resources, position } => self.set_thing(
                u,
                ThingView::Unit {
                    blobby: crate::items::Blobby { resource_pile: pile, ..blobby },
                    path,
                    resources,
                    position,
                },
            ),
            _ => self,
        }
    }
}

impl WorldView {
    /// The world after a click on a tile has asked for what the player is set
    /// to do there: to send the selected unit, whose id is given, to the tile;
    /// or, with no unit selected, to sell what stands on the tile, in sell
    /// mode, or to place the chosen item there. A tile that no action can name
    /// cannot be asked for.
    pub open spec fn after_request(self, tile: IVec2, unit: Option<u8>) -> WorldView {
        let x = tile.x as u8;
        let y = tile.y as u8;
        if !fits_action(tile) {
            self
        } else {
            match unit {
                Some(id) => WorldView {
                    queue: self.queue.push(Action::MoveBlobby(x, y, id)),
                    ..self
                },
                None => if self.sim.player.sell_mode {
                    WorldView { queue: self.queue.push(Action::SellItem(x, y)), ..self }
                } else {
                    match self.sim.player.item_to_place {
                        Some(item) => WorldView {
                            queue: self.queue.push(Action::Place(x, y, item.spec_int_value())),
                            ..self
                        },
                        None => self,
                    }
                },
            }
        }
    }

    /// The world after a click on the tile with the given index. With a unit
    /// selected, a click on a pile tells the unit to fetch from it, and a click
    /// elsewhere sends the unit to the tile. With no unit selected, the click
    /// asks for a sale or for a placement.
    pub open spec fn after_tile_click(self, idx: int) -> WorldView {
        let sim = self.sim;
        let tile = sim.grid.spec_idx_to_ls(idx);
        match sim.selected_unit() {
            Some(u) => if sim.pile_at(idx) {
                self.with_sim(sim.after_assignment(u, sim.grid.tiles[idx]))
            } else {
                self.after_request(tile, Some(sim.things[u]->Unit_blobby.id))
            },
            None => self.after_request(tile, None),
        }
    }

    /// The world after the player has clicked with the pointer at `cursor`.
    ///
    /// A click above or below the ground does nothing. A click on a unit
    /// selects it. Any other click is a click on the tile under the pointer.
    pub open spec fn after_click(self, cursor: Vec3) -> WorldView {
        let sim = self.sim;
        if !(-GROUND < cursor.y < GROUND) {
            self
        } else {
            match hovered_upto(sim.things, cursor, sim.things.len() as int) {
                Some(i) => self.with_sim(
                    SimView {
                        player: PlayerView {
                            selected_entity: Some(Entity { index: i as usize }),
                            ..sim.player
                        },
                        ..sim
                    },
                ),
                None => self.after_tile_click(
                    sim.grid.spec_ls_to_idx(sim.grid.spec_ws_vec3_to_ls(cursor)),
                ),
            }
        }
    }
}

/// The square of the distance between two points on the ground.
pub fn flat_dist2(a: Vec3, b: Vec3) -> (d: u128)
    requires
        a.bounded(),
        b.bounded(),
    ensures
        d == spec_flat_dist2(a, b),
{
    let d = crate::items::dist2(Vec3 { x: a.x, y: 0, z: a.z }, Vec3 { x: b.x, y: 0, z: b.z });
    assert((0int - 0int) * (0int - 0int) == 0);
    d
}

/// The unit under the pointer, if there is one.
pub fn hovered_blobby(world: &World, cursor: Vec3) -> (hit: Option<usize>)
    requires
        world.wf(),
        cursor.bounded(),
    ensures
        hit is Some <==> hovered_upto(world@.sim.things, cursor, world.things.len() as int) is Some,
        hit matches Some(i) ==> i < world.things.len() && world.things[i as int] is Unit
            && hovered_upto(world@.sim.things, cursor, world.things.len() as int) == Some(i as int),
{
    let mut hit: Option<usize> = None;
    let n = world.things.len();
    let mut i: usize = 0;
    while i < n
        invariant
            i <= n,
            n == world.things.len(),
            world.wf(),
            cursor.bounded(),
            hit is Some <==> hovered_upto(world@.sim.things, cursor, i as int) is Some,
            hit matches Some(h) ==> h < i && world.things[h as int] is Unit && hovered_upto(
                world@.sim.things,
                cursor,
                i as int,
            ) == Some(h as int),
        decreases n - i,
    {
        assert(world@.sim.things[i as int].wf());
        match &world.things[i] {
            Thing::Unit { position, .. } => {
                if flat_dist2(*position, cursor) < HOVER * HOVER {
                    hit = Some(i);
                }
            },
            _ => {},
        }
        i += 1;
    }
    hit
}

/// The unit that the player has selected, with its id, if the selection names a unit.
pub fn selected_blobby(world: &World) -> (unit: Option<(usize, u8)>)
    ensures
        unit is Some <==> world@.sim.selected_unit() is Some,
        unit matches Some(found) ==> world@.sim.selected_unit() == Some(found.0 as int)
            && found.0 < world.things.len() && world@.sim.things[found.0 as int] is Unit
            && world@.sim.things[found.0 as int]->Unit_blobby.id == found.1,
{
    match world.player.selected_entity {
        Some(e) => {
            if e.index < world.things.len() {
                match &world.things[e.index] {
                    Thing::Unit { blobby, .. } => Some((e.index, blobby.id)),
                    _ => None,
                }
            } else {
                None
            }
        },
        None => None,
    }
}

/// Whether a pile stands on the tile with the given index.
pub fn stands_on_pile(world: &World, idx: usize) -> (on_pile: bool)
    requires
        idx < world.board.board.len(),
    ensures
        on_pile == world@.sim.pile_at(idx as int),
{
    match world.board.board[idx] {
        Some(e) => {
            if e.index < world.things.len() {
                match &world.things[e.index] {
                    Thing::Ore { .. } => true,
                    Thing::PlasticDepot { .. } => true,
                    Thing::Factory { output, .. } => match output.0 {
                        R::LittleHats => false,
                        _ => true,
                    },
                    _ => false,
                }
            } else {
                false
            }
        },
        None => false,
    }
}

/// Tells the unit in place `u` to fetch from `pile`.
pub fn assign_pile(world: &mut World, u: usize, pile: Option<Entity>)
    requires
        old(world).wf(),
        u < old(world).things.len(),
    ensures
        final(world).wf(),
        final(world)@ == old(world)@.with_sim(old(world)@.sim.after_assignment(u as int, pile)),
{
    let ghost before = world@;
    match &mut world.things[u] {
        Thing::Unit { blobby, .. } => {
            blobby.resource_pile = pile;
        },
        _ => {},
    }
    proof {
        assert(world@.sim.things =~= before.sim.after_assignment(u as int, pile).things);
        assert forall|j: int| 0 <= j < world@.sim.things.len() implies (
        #[trigger] world@.sim.things[j]).wf() by {
            assert(before.sim.things[j].wf());
        }
    }
}

/// Asks for what the player is set to do on a tile.
pub fn request_at(world: &mut World, tile: IVec2, unit: Option<u8>)
    requires
        old(world).wf(),
        0 <= tile.x,
        0 <= tile.y,
    ensures
        final(world).wf(),
        final(world)@ == old(world)@.after_request(tile, unit),
{
    if tile.x > u8::MAX as i32 || tile.y > u8::MAX as i32 {
        return ;
    }
    let x = tile.x as u8;
    let y = tile.y as u8;
    match unit {
        Some(id) => {
            world.queue.0.push(Action::MoveBlobby(x, y, id));
        },
        None => {
            if world.player.sell_mode {
                world.queue.0.push(Action::SellItem(x, y));
            } else if let Some(item) = world.player.item_to_place {
                world.queue.0.push(Action::Place(x, y, item.int_value()));
            }
        },
    }
}

/// Acts on a click on the tile with the given index.
pub fn click_tile(world: &mut World, idx: usize)
    requires
        old(world).wf(),
        idx < old(world).board.board.len(),
    ensures
        final(world).wf(),
        final(world)@ == old(world)@.after_tile_click(idx as int),
{
    let tile = world.board.idx_to_ls(idx);
    match selected_blobby(world) {
        Some((u, id)) => {
            if stands_on_pile(world, idx) {
                let pile = world.board.board[idx];
                assign_pile(world, u, pile);
            } else {
                request_at(world, tile, Some(id));
            }
        },
        None => {
            request_at(world, tile, None);
        },
    }
}

/// Acts on a click with the pointer at `cursor`.
pub fn mouse_interact(world: &mut World, cursor: Vec3)
    requires
        old(world).wf(),
        cursor.bounded(),
    ensures
        final(world).wf(),
        final(world)@ == old(world)@.after_click(cursor),
{
    if !(-GROUND < cursor.y && cursor.y < GROUND) {
        return ;
    }
    if let Some(i) = hovered_blobby(world, cursor) {
        world.player.selected_entity = Some(Entity { index: i });
        return ;
    }
    let idx = world.board.ls_to_idx(world.board.ws_vec3_to_ls(cursor));
    click_tile(world, idx);
}

} // verus!
