use vstd::prelude::*;

verus! {

/// The most price levels the two sides of a book hold together.
pub const MAX_LEVELS: usize = 60;

/// An (outcome, price) point of a market; the price is in thousandths.
#[derive(Clone, Copy, Debug, PartialEq, Eq, Structural)]
pub struct LiquidityKey {
    pub outcome: u16,
    pub price: u64,
}

impl LiquidityKey {
    /// The key of `outcome` at `price` (in thousandths).
    pub fn new(outcome: u16, price: u64) -> (r: LiquidityKey)
        ensures
            r.outcome == outcome,
            r.price == price,
    {
        LiquidityKey { outcome, price }
    }
}

/// Liquidity available at one price of one outcome. Empty `sources` marks direct
/// liquidity; otherwise the level is cross liquidity derived from the listed levels.
#[derive(Clone, Debug, PartialEq)]
pub struct MarketOutcomePriceLiquidity {
    pub outcome: u16,
    pub price: u64,
    pub liquidity: u64,
    pub sources: Vec<LiquidityKey>,
}

/// What a price level holds, as plain values.
pub struct PriceLevel {
    pub outcome: u16,
    pub price: u64,
    pub liquidity: u64,
    pub sources: Seq<LiquidityKey>,
}

impl View for MarketOutcomePriceLiquidity {
    type V = PriceLevel;

    open spec fn view(&self) -> PriceLevel {
        PriceLevel {
            outcome: self.outcome,
            price: self.price,
            liquidity: self.liquidity,
            sources: self.sources@,
        }
    }
}

impl MarketOutcomePriceLiquidity {
    /// A level holding `liquidity` at (`outcome`, `price`) from `sources`.
    pub fn new(outcome: u16, price: u64, liquidity: u64, sources: Vec<LiquidityKey>) -> (r: Self)
        ensures
            r@ == (PriceLevel { outcome, price, liquidity, sources: sources@ }),
    {
        MarketOutcomePriceLiquidity { outcome, price, liquidity, sources }
    }
}

/// The sum of the outcome indices of `sources`: the tie-break between levels of one
/// outcome and price.
pub open spec fn sources_ord_spec(sources: Seq<LiquidityKey>) -> int
    decreases sources.len(),
{
    if sources.len() == 0 {
        0
    } else {
        sources_ord_spec(sources.drop_last()) + sources.last().outcome
    }
}

/// The sort key of a level: outcome, price, sources ordinal.
pub open spec fn level_key(l: PriceLevel) -> (int, int, int) {
    (l.outcome as int, l.price as int, sources_ord_spec(l.sources))
}

/// The order of each side: outcome ascending, then price ascending on the "for" side and
/// descending on the "against" side, then the sources ordinal ascending.
pub open spec fn key_before(for_side: bool, a: (int, int, int), b: (int, int, int)) -> bool {
    a.0 < b.0 || (a.0 == b.0 && (if for_side {
        a.1 < b.1
    } else {
        a.1 > b.1
    })) || (a.0 == b.0 && a.1 == b.1 && a.2 < b.2)
}

/// The levels of a ladder as plain values.
pub open spec fn levels_view(v: Seq<MarketOutcomePriceLiquidity>) -> Seq<PriceLevel> {
    v.map_values(|l: MarketOutcomePriceLiquidity| l@)
}

/// Strictly sorted by the side's order, hence one level per key.
pub open spec fn sorted_levels(for_side: bool, s: Seq<PriceLevel>) -> bool {
    forall|i: int, j: int|
        0 <= i < j < s.len() ==> key_before(for_side, level_key(#[trigger] s[i]), level_key(
            #[trigger] s[j],
        ))
}

/// Where a level of key `k` stands or would be inserted: the number of leading levels
/// that come before `k`.
pub open spec fn insert_pos(for_side: bool, s: Seq<PriceLevel>, k: (int, int, int)) -> int
    decreases s.len(),
{
    if s.len() == 0 {
        0
    } else if key_before(for_side, level_key(s[0]), k) {
        1 + insert_pos(for_side, s.drop_first(), k)
    } else {
        0
    }
}

/// The index of the level of key `k`, or -1 where there is none.
pub open spec fn key_index(for_side: bool, s: Seq<PriceLevel>, k: (int, int, int)) -> int {
    let i = insert_pos(for_side, s, k);
    if i < s.len() && level_key(s[i]) == k {
        i
    } else {
        -1
    }
}

/// The liquidity at key `k`, zero where there is no such level.
pub open spec fn liquidity_at(for_side: bool, s: Seq<PriceLevel>, k: (int, int, int)) -> int {
    let i = key_index(for_side, s, k);
    if i >= 0 {
        s[i].liquidity as int
    } else {
        0
    }
}

/// Every level before `insert_pos` comes before `k`; the level at it does not.
pub proof fn lemma_insert_pos(for_side: bool, s: Seq<PriceLevel>, k: (int, int, int))
    ensures
        0 <= insert_pos(for_side, s, k) <= s.len(),
        forall|j: int|
            0 <= j < insert_pos(for_side, s, k) ==> key_before(
                for_side,
                level_key(#[trigger] s[j]),
                k,
            ),
        insert_pos(for_side, s, k) < s.len() ==> !key_before(
            for_side,
            level_key(s[insert_pos(for_side, s, k)]),
            k,
        ),
    decreases s.len(),
{
    if s.len() > 0 && key_before(for_side, level_key(s[0]), k) {
        lemma_insert_pos(for_side, s.drop_first(), k);
        assert forall|j: int| 0 <= j < insert_pos(for_side, s, k) implies key_before(
            for_side,
            level_key(#[trigger] s[j]),
            k,
        ) by {
            if j > 0 {
                assert(s[j] == s.drop_first()[j - 1]);
            }
        }
    }
}

/// In a sorted side, a level of key `k` can stand only at `key_index`.
pub proof fn lemma_key_index(for_side: bool, s: Seq<PriceLevel>, k: (int, int, int))
    requires
        sorted_levels(for_side, s),
    ensures
        key_index(for_side, s, k) >= 0 ==> level_key(s[key_index(for_side, s, k)]) == k,
        -1 <= key_index(for_side, s, k) < s.len(),
        forall|j: int|
            0 <= j < s.len() && level_key(#[trigger] s[j]) == k ==> j == key_index(
                for_side,
                s,
                k,
            ),
{
    lemma_insert_pos(for_side, s, k);
    let p = insert_pos(for_side, s, k);
    assert forall|j: int| 0 <= j < s.len() && level_key(#[trigger] s[j]) == k implies j
        == key_index(for_side, s, k) by {
        if j < p {
            assert(key_before(for_side, level_key(s[j]), k));
        } else if j > p {
            assert(key_before(for_side, level_key(s[p]), level_key(s[j])));
        }
    }
}

/// Why a change to the book was refused.
#[derive(Clone, Copy, Debug, PartialEq, Eq, Structural)]
pub enum LiquidityError {
    /// The book already holds its most levels and the change needs a new one.
    MarketLiquiditiesIsFull,
    /// The level is missing, or its liquidity would overflow or go below zero.
    MarketLiquiditiesUpdateError,
}

/// The level with its liquidity replaced.
pub open spec fn with_liquidity(l: PriceLevel, liquidity: u64) -> PriceLevel {
    PriceLevel { liquidity, ..l }
}

/// Adding `amount` at (`outcome`, `price`, `sources`) to one side: merged into the level
/// of that key, or inserted in order as a new level unless the book is `full`.
pub open spec fn add_levels(
    for_side: bool,
    s: Seq<PriceLevel>,
    outcome: u16,
    price: u64,
    sources: Seq<LiquidityKey>,
    amount: u64,
    full: bool,
) -> Result<Seq<PriceLevel>, LiquidityError> {
    let k = (outcome as int, price as int, sources_ord_spec(sources));
    let i = key_index(for_side, s, k);
    if i >= 0 {
        if s[i].liquidity + amount > u64::MAX {
            Err(LiquidityError::MarketLiquiditiesUpdateError)
        } else {
            Ok(s.update(i, with_liquidity(s[i], (s[i].liquidity + amount) as u64)))
        }
    } else if full {
        Err(LiquidityError::MarketLiquiditiesIsFull)
    } else {
        Ok(
            s.insert(
                insert_pos(for_side, s, k),
                PriceLevel { outcome, price, liquidity: amount, sources },
            ),
        )
    }
}

/// Setting the liquidity at (`outcome`, `price`, `sources`) on one side to `amount`.
pub open spec fn set_levels(
    for_side: bool,
    s: Seq<PriceLevel>,
    outcome: u16,
    price: u64,
    sources: Seq<LiquidityKey>,
    amount: u64,
    full: bool,
) -> Result<Seq<PriceLevel>, LiquidityError> {
    let k = (outcome as int, price as int, sources_ord_spec(sources));
    let i = key_index(for_side, s, k);
    if i >= 0 {
        Ok(s.update(i, with_liquidity(s[i], amount)))
    } else if full {
        Err(LiquidityError::MarketLiquiditiesIsFull)
    } else {
        Ok(
            s.insert(
                insert_pos(for_side, s, k),
                PriceLevel { outcome, price, liquidity: amount, sources },
            ),
        )
    }
}

/// Taking `amount` from the level of key (`outcome`, `price`, `ord`) on one side; a level
/// left with nothing is removed.
pub open spec fn remove_levels(
    for_side: bool,
    s: Seq<PriceLevel>,
    outcome: u16,
    price: u64,
    ord: int,
    amount: u64,
) -> Result<Seq<PriceLevel>, LiquidityError> {
    let i = key_index(for_side, s, (outcome as int, price as int, ord));
    if i < 0 || s[i].liquidity < amount {
        Err(LiquidityError::MarketLiquiditiesUpdateError)
    } else if s[i].liquidity == amount {
        Ok(s.remove(i))
    } else {
        Ok(s.update(i, with_liquidity(s[i], (s[i].liquidity - amount) as u64)))
    }
}

/// A level inserted where `insert_pos` puts it, into a side without its key, keeps the
/// side sorted.
pub proof fn lemma_insert_sorted(for_side: bool, s: Seq<PriceLevel>, l: PriceLevel)
    requires
        sorted_levels(for_side, s),
        key_index(for_side, s, level_key(l)) < 0,
    ensures
        sorted_levels(for_side, s.insert(insert_pos(for_side, s, level_key(l)), l)),
{
    let k = level_key(l);
    lemma_insert_pos(for_side, s, k);
    let p = insert_pos(for_side, s, k);
    let t = s.insert(p, l);
    assert forall|i: int, j: int| 0 <= i < j < t.len() implies key_before(
        for_side,
        level_key(#[trigger] t[i]),
        level_key(#[trigger] t[j]),
    ) by {
        if p < s.len() {
            assert(key_before(for_side, k, level_key(s[p])));
        }
        if j < p {
        } else if j == p {
            assert(t[i] == s[i]);
        } else if i == p {
            assert(t[j] == s[j - 1]);
            if j - 1 > p {
                assert(key_before(for_side, level_key(s[p]), level_key(s[j - 1])));
            }
        } else if i < p {
            assert(t[j] == s[j - 1]);
        } else {
            assert(t[i] == s[i - 1]);
            assert(t[j] == s[j - 1]);
        }
    }
}

/// Changing the liquidity of one level keeps a side sorted.
pub proof fn lemma_update_sorted(for_side: bool, s: Seq<PriceLevel>, i: int, v: u64)
    requires
        sorted_levels(for_side, s),
        0 <= i < s.len(),
    ensures
        sorted_levels(for_side, s.update(i, with_liquidity(s[i], v))),
{
    let t = s.update(i, with_liquidity(s[i], v));
    assert forall|a: int, b: int| 0 <= a < b < t.len() implies key_before(
        for_side,
        level_key(#[trigger] t[a]),
        level_key(#[trigger] t[b]),
    ) by {
        assert(level_key(t[a]) == level_key(s[a]));
        assert(level_key(t[b]) == level_key(s[b]));
    }
}

/// Removing a level keeps a side sorted.
pub proof fn lemma_remove_sorted(for_side: bool, s: Seq<PriceLevel>, i: int)
    requires
        sorted_levels(for_side, s),
        0 <= i < s.len(),
    ensures
        sorted_levels(for_side, s.remove(i)),
{
    let t = s.remove(i);
    assert forall|a: int, b: int| 0 <= a < b < t.len() implies key_before(
        for_side,
        level_key(#[trigger] t[a]),
        level_key(#[trigger] t[b]),
    ) by {
        let a2 = if a < i {
            a
        } else {
            a + 1
        };
        let b2 = if b < i {
            b
        } else {
            b + 1
        };
        assert(t[a] == s[a2]);
        assert(t[b] == s[b2]);
    }
}

/// Each change to a sorted side leaves it sorted, and a change that fails leaves nothing.
pub proof fn lemma_changes_sorted(
    for_side: bool,
    s: Seq<PriceLevel>,
    outcome: u16,
    price: u64,
    sources: Seq<LiquidityKey>,
    ord: int,
    amount: u64,
    full: bool,
)
    requires
        sorted_levels(for_side, s),
    ensures
        add_levels(for_side, s, outcome, price, sources, amount, full) matches Ok(t)
            ==> sorted_levels(for_side, t),
        set_levels(for_side, s, outcome, price, sources, amount, full) matches Ok(t)
            ==> sorted_levels(for_side, t),
        remove_levels(for_side, s, outcome, price, ord, amount) matches Ok(t) ==> sorted_levels(
            for_side,
            t,
        ),
{
    let k = (outcome as int, price as int, sources_ord_spec(sources));
    let l = PriceLevel { outcome, price, liquidity: amount, sources };
    assert(level_key(l) == k);
    lemma_key_index(for_side, s, k);
    let i = key_index(for_side, s, k);
    if i >= 0 {
        lemma_update_sorted(for_side, s, i, amount);
        if s[i].liquidity + amount <= u64::MAX {
            lemma_update_sorted(for_side, s, i, (s[i].liquidity + amount) as u64);
        }
    } else {
        lemma_insert_sorted(for_side, s, l);
    }
    let k2 = (outcome as int, price as int, ord);
    lemma_key_index(for_side, s, k2);
    let i2 = key_index(for_side, s, k2);
    if i2 >= 0 {
        lemma_remove_sorted(for_side, s, i2);
        if s[i2].liquidity > amount {
            lemma_update_sorted(for_side, s, i2, (s[i2].liquidity - amount) as u64);
        }
    }
}

/// The sources ordinal of a level: the sum of the outcome indices of its sources.
fn ord_of(sources: &[LiquidityKey]) -> (r: u128)
    ensures
        r == sources_ord_spec(sources@),
{
    let mut sum: u128 = 0;
    let mut i: usize = 0;
    while i < sources.len()
        invariant
            0 <= i <= sources@.len(),
            sum == sources_ord_spec(sources@.take(i as int)),
            sum <= i * 65535,
        decreases sources@.len() - i,
    {
        proof {
            assert(sources@.take(i + 1).drop_last() =~= sources@.take(i as int));
        }
        sum = sum + sources[i].outcome as u128;
        i = i + 1;
    }
    proof {
        assert(sources@.take(i as int) =~= sources@);
    }
    sum
}

fn key_before_exec(
    for_side: bool,
    outcome_a: u16,
    price_a: u64,
    ord_a: u128,
    outcome_b: u16,
    price_b: u64,
    ord_b: u128,
) -> (r: bool)
    ensures
        r == key_before(for_side, (outcome_a as int, price_a as int, ord_a as int), (outcome_b as int, price_b as int, ord_b as int)),
{
    if outcome_a != outcome_b {
        outcome_a < outcome_b
    } else if price_a != price_b {
        if for_side {
            price_a < price_b
        } else {
            price_a > price_b
        }
    } else {
        ord_a < ord_b
    }
}

/// `insert_pos` is the first position whose level does not come before `k`, when every
/// level before it does.
proof fn lemma_insert_pos_at(for_side: bool, s: Seq<PriceLevel>, k: (int, int, int), m: int)
    requires
        0 <= m <= s.len(),
        forall|j: int| 0 <= j < m ==> key_before(for_side, level_key(#[trigger] s[j]), k),
        m < s.len() ==> !key_before(for_side, level_key(s[m]), k),
    ensures
        insert_pos(for_side, s, k) == m,
    decreases m,
{
    if m > 0 {
        let rest = s.drop_first();
        assert(key_before(for_side, level_key(s[0]), k));
        assert forall|j: int| 0 <= j < m - 1 implies key_before(
            for_side,
            level_key(#[trigger] rest[j]),
            k,
        ) by {
            assert(rest[j] == s[j + 1]);
        }
        if m < s.len() {
            assert(rest[m - 1] == s[m]);
        }
        lemma_insert_pos_at(for_side, rest, k, m - 1);
    }
}

/// Finds by binary search where the level of key (`outcome`, `price`, `ord`) stands or
/// would be inserted in a sorted side, and whether it is there.
fn search(
    levels: &Vec<MarketOutcomePriceLiquidity>,
    for_side: bool,
    outcome: u16,
    price: u64,
    ord: u128,
) -> (r: (usize, bool))
    requires
        sorted_levels(for_side, levels_view(levels@)),
    ensures
        r.0 == insert_pos(for_side, levels_view(levels@), (outcome as int, price as int, ord as int)),
        r.1 == (key_index(
            for_side,
            levels_view(levels@),
            (outcome as int, price as int, ord as int),
        ) >= 0),
{
    let ghost s = levels_view(levels@);
    let ghost k = (outcome as int, price as int, ord as int);
    let mut lo: usize = 0;
    let mut hi: usize = levels.len();
    while lo < hi
        invariant
            0 <= lo <= hi <= levels@.len(),
            s == levels_view(levels@),
            sorted_levels(for_side, s),
            k == (outcome as int, price as int, ord as int),
            forall|j: int| 0 <= j < lo ==> key_before(for_side, level_key(#[trigger] s[j]), k),
            forall|j: int|
                hi <= j < levels@.len() ==> !key_before(for_side, level_key(#[trigger] s[j]), k),
        decreases hi - lo,
    {
        let mid = lo + (hi - lo) / 2;
        let l = &levels[mid];
        let d = ord_of(l.sources.as_slice());
        proof {
            assert(s[mid as int] == l@);
        }
        if key_before_exec(for_side, l.outcome, l.price, d, outcome, price, ord) {
            proof {
                assert forall|j: int| 0 <= j < mid + 1 implies key_before(
                    for_side,
                    level_key(#[trigger] s[j]),
                    k,
                ) by {
                    if j < mid {
                        assert(key_before(for_side, level_key(s[j]), level_key(s[mid as int])));
                    }
                }
            }
            lo = mid + 1;
        } else {
            proof {
                assert forall|j: int| mid <= j < levels@.len() implies !key_before(
                    for_side,
                    level_key(#[trigger] s[j]),
                    k,
                ) by {
                    if j > mid {
                        assert(key_before(for_side, level_key(s[mid as int]), level_key(s[j])));
                    }
                }
            }
            hi = mid;
        }
    }
    proof {
        lemma_insert_pos_at(for_side, s, k, lo as int);
    }
    if lo < levels.len() {
        let l = &levels[lo];
        let d = ord_of(l.sources.as_slice());
        assert(s[lo as int] == l@);
        (lo, l.outcome == outcome && l.price == price && d == ord)
    } else {
        (lo, false)
    }
}

fn add_to_side(
    levels: &mut Vec<MarketOutcomePriceLiquidity>,
    for_side: bool,
    outcome: u16,
    price: u64,
    sources: &[LiquidityKey],
    amount: u64,
    full: bool,
    set: bool,
) -> (r: Result<(), LiquidityError>)
    requires
        sorted_levels(for_side, levels_view(old(levels)@)),
    ensures
        ({
            let spec_r = if set {
                set_levels(
                    for_side,
                    levels_view(old(levels)@),
                    outcome,
                    price,
                    sources@,
                    amount,
                    full,
                )
            } else {
                add_levels(
                    for_side,
                    levels_view(old(levels)@),
                    outcome,
                    price,
                    sources@,
                    amount,
                    full,
                )
            };
            match spec_r {
                Ok(t) => r is Ok && levels_view(final(levels)@) == t,
                Err(e) => r == Err::<(), LiquidityError>(e) && final(levels)@ == old(levels)@,
            }
        }),
{
    let ghost s = levels_view(levels@);
    let ord = ord_of(sources);
    let (i, found) = search(levels, for_side, outcome, price, ord);
    proof {
        lemma_insert_pos(for_side, s, (outcome as int, price as int, ord as int));
    }
    if found {
        let cur = levels[i].liquidity;
        let v: u64;
        if set {
            v = amount;
        } else {
            if cur > u64::MAX - amount {
                return Err(LiquidityError::MarketLiquiditiesUpdateError);
            }
            v = cur + amount;
        }
        levels[i].liquidity = v;
        proof {
            assert(levels_view(levels@) =~= s.update(i as int, with_liquidity(s[i as int], v)));
        }
        Ok(())
    } else {
        if full {
            return Err(LiquidityError::MarketLiquiditiesIsFull);
        }
        let owned = vstd::slice::slice_to_vec(sources);
        let l = MarketOutcomePriceLiquidity { outcome, price, liquidity: amount, sources: owned };
        levels.insert(i, l);
        proof {
            assert(levels_view(levels@) =~= s.insert(
                i as int,
                PriceLevel { outcome, price, liquidity: amount, sources: sources@ },
            ));
        }
        Ok(())
    }
}

fn remove_from_side(
    levels: &mut Vec<MarketOutcomePriceLiquidity>,
    for_side: bool,
    outcome: u16,
    price: u64,
    ord: u128,
    amount: u64,
) -> (r: Result<(), LiquidityError>)
    requires
        sorted_levels(for_side, levels_view(old(levels)@)),
    ensures
        match remove_levels(
            for_side,
            levels_view(old(levels)@),
            outcome,
            price,
            ord as int,
            amount,
        ) {
            Ok(t) => r is Ok && levels_view(final(levels)@) == t,
            Err(e) => r == Err::<(), LiquidityError>(e) && final(levels)@ == old(levels)@,
        },
{
    let ghost s = levels_view(levels@);
    let (i, found) = search(levels, for_side, outcome, price, ord);
    proof {
        lemma_insert_pos(for_side, s, (outcome as int, price as int, ord as int));
    }
    if !found {
        return Err(LiquidityError::MarketLiquiditiesUpdateError);
    }
    let cur = levels[i].liquidity;
    if cur < amount {
        return Err(LiquidityError::MarketLiquiditiesUpdateError);
    }
    if cur == amount {
        levels.remove(i);
        proof {
            assert(levels_view(levels@) =~= s.remove(i as int));
        }
    } else {
        levels[i].liquidity = cur - amount;
        proof {
            assert(levels_view(levels@) =~= s.update(
                i as int,
                with_liquidity(s[i as int], (cur - amount) as u64),
            ));
        }
    }
    Ok(())
}

fn get_from_side(
    levels: &Vec<MarketOutcomePriceLiquidity>,
    for_side: bool,
    outcome: u16,
    price: u64,
) -> (r: Option<&MarketOutcomePriceLiquidity>)
    requires
        sorted_levels(for_side, levels_view(levels@)),
    ensures
        ({
            let i = key_index(for_side, levels_view(levels@), (outcome as int, price as int, 0));
            match r {
                Some(l) => i >= 0 && l@ == levels_view(levels@)[i],
                None => i < 0,
            }
        }),
{
    let (i, found) = search(levels, for_side, outcome, price, 0);
    proof {
        lemma_insert_pos(for_side, levels_view(levels@), (outcome as int, price as int, 0));
    }
    if found {
        Some(&levels[i])
    } else {
        None
    }
}

/// What happens to unmatched liquidity when a market goes in-play.
#[derive(Clone, Copy, Debug, PartialEq, Eq, Structural)]
pub enum MarketOrderBehaviour {
    KeepUnmatched,
    CancelUnmatched,
}

/// The liquidity book of one market: the "for" and "against" ladders and the running
/// total of matched stake.
pub struct MarketLiquidities {
    pub enable_cross_matching: bool,
    pub stake_matched_total: u64,
    pub liquidities_for: Vec<MarketOutcomePriceLiquidity>,
    pub liquidities_against: Vec<MarketOutcomePriceLiquidity>,
}

/// What a book holds, as plain values.
pub struct BookModel {
    pub enable_cross_matching: bool,
    pub stake_matched_total: u64,
    pub for_levels: Seq<PriceLevel>,
    pub against_levels: Seq<PriceLevel>,
}

impl View for MarketLiquidities {
    type V = BookModel;

    open spec fn view(&self) -> BookModel {
        BookModel {
            enable_cross_matching: self.enable_cross_matching,
            stake_matched_total: self.stake_matched_total,
            for_levels: levels_view(self.liquidities_for@),
            against_levels: levels_view(self.liquidities_against@),
        }
    }
}

/// The "for" ladder or the "against" ladder of a book.
pub open spec fn side_levels(b: BookModel, for_side: bool) -> Seq<PriceLevel> {
    if for_side {
        b.for_levels
    } else {
        b.against_levels
    }
}

/// The book with one ladder replaced.
pub open spec fn with_side(b: BookModel, for_side: bool, s: Seq<PriceLevel>) -> BookModel {
    if for_side {
        BookModel { for_levels: s, ..b }
    } else {
        BookModel { against_levels: s, ..b }
    }
}

/// The book holds its most levels.
pub open spec fn book_full(b: BookModel) -> bool {
    b.for_levels.len() + b.against_levels.len() >= MAX_LEVELS
}

/// Both ladders sorted, one level per key, and no more levels than the book may hold.
pub open spec fn book_wf(b: BookModel) -> bool {
    &&& sorted_levels(true, b.for_levels)
    &&& sorted_levels(false, b.against_levels)
    &&& b.for_levels.len() + b.against_levels.len() <= MAX_LEVELS
}

/// A change to one ladder as a change to the book.
pub open spec fn side_result(
    b: BookModel,
    for_side: bool,
    r: Result<Seq<PriceLevel>, LiquidityError>,
) -> Result<BookModel, LiquidityError> {
    match r {
        Ok(t) => Ok(with_side(b, for_side, t)),
        Err(e) => Err(e),
    }
}

/// `add_levels` on one side of a book.
pub open spec fn book_add(
    b: BookModel,
    for_side: bool,
    outcome: u16,
    price: u64,
    sources: Seq<LiquidityKey>,
    amount: u64,
) -> Result<BookModel, LiquidityError> {
    side_result(
        b,
        for_side,
        add_levels(for_side, side_levels(b, for_side), outcome, price, sources, amount, book_full(b)),
    )
}

/// `set_levels` on one side of a book.
pub open spec fn book_set(
    b: BookModel,
    for_side: bool,
    outcome: u16,
    price: u64,
    sources: Seq<LiquidityKey>,
    amount: u64,
) -> Result<BookModel, LiquidityError> {
    side_result(
        b,
        for_side,
        set_levels(for_side, side_levels(b, for_side), outcome, price, sources, amount, book_full(b)),
    )
}

/// `remove_levels` on one side of a book.
pub open spec fn book_remove(
    b: BookModel,
    for_side: bool,
    outcome: u16,
    price: u64,
    ord: int,
    amount: u64,
) -> Result<BookModel, LiquidityError> {
    side_result(
        b,
        for_side,
        remove_levels(for_side, side_levels(b, for_side), outcome, price, ord, amount),
    )
}

/// Adding `amount` to the matched total, refused on overflow.
pub open spec fn book_add_matched(b: BookModel, amount: u64) -> Result<BookModel, LiquidityError> {
    if b.stake_matched_total + amount > u64::MAX {
        Err(LiquidityError::MarketLiquiditiesUpdateError)
    } else {
        Ok(BookModel { stake_matched_total: (b.stake_matched_total + amount) as u64, ..b })
    }
}

/// Each change to a well-formed book leaves it well-formed.
pub proof fn lemma_book_changes_wf(
    b: BookModel,
    for_side: bool,
    outcome: u16,
    price: u64,
    sources: Seq<LiquidityKey>,
    ord: int,
    amount: u64,
)
    requires
        book_wf(b),
    ensures
        book_add(b, for_side, outcome, price, sources, amount) matches Ok(c) ==> book_wf(c),
        book_set(b, for_side, outcome, price, sources, amount) matches Ok(c) ==> book_wf(c),
        book_remove(b, for_side, outcome, price, ord, amount) matches Ok(c) ==> book_wf(c),
        book_add_matched(b, amount) matches Ok(c) ==> book_wf(c),
{
    let s = side_levels(b, for_side);
    lemma_changes_sorted(for_side, s, outcome, price, sources, ord, amount, book_full(b));
    let k = (outcome as int, price as int, sources_ord_spec(sources));
    lemma_key_index(for_side, s, k);
    lemma_insert_pos(for_side, s, k);
    lemma_key_index(for_side, s, (outcome as int, price as int, ord));
}

impl MarketLiquidities {
    /// See `book_wf`.
    pub open spec fn wf(&self) -> bool {
        book_wf(self@)
    }

    /// An empty book.
    pub fn new(enable_cross_matching: bool) -> (r: Self)
        ensures
            r.wf(),
            r@.enable_cross_matching == enable_cross_matching,
            r@.stake_matched_total == 0,
            r@.for_levels.len() == 0,
            r@.against_levels.len() == 0,
    {
        let r = MarketLiquidities {
            enable_cross_matching,
            stake_matched_total: 0,
            liquidities_for: Vec::new(),
            liquidities_against: Vec::new(),
        };
        assert(r@.for_levels =~= Seq::empty());
        assert(r@.against_levels =~= Seq::empty());
        r
    }

    /// Whether the book holds its most levels.
    pub fn is_full(&self) -> (r: bool)
        ensures
            r == book_full(self@),
    {
        self.liquidities_against.len() >= MAX_LEVELS || self.liquidities_for.len() >= MAX_LEVELS
            - self.liquidities_against.len()
    }

    /// Adds `stake_matched` to the running total of matched stake; refused on overflow,
    /// leaving the total as it was.
    pub fn update_stake_matched_total(&mut self, stake_matched: u64) -> (r: Result<
        (),
        LiquidityError,
    >)
        requires
            old(self).wf(),
        ensures
            final(self).wf(),
            match book_add_matched(old(self)@, stake_matched) {
                Ok(c) => r is Ok && final(self)@ == c,
                Err(e) => r == Err::<(), LiquidityError>(e) && final(self)@ == old(self)@,
            },
    {
        if self.stake_matched_total > u64::MAX - stake_matched {
            return Err(LiquidityError::MarketLiquiditiesUpdateError);
        }
        self.stake_matched_total = self.stake_matched_total + stake_matched;
        Ok(())
    }

    /// The direct "for" level at (`outcome`, `price`), if any.
    pub fn get_liquidity_for(&self, outcome: u16, price: u64) -> (r: Option<
        &MarketOutcomePriceLiquidity,
    >)
        requires
            self.wf(),
        ensures
            ({
                let i = key_index(true, self@.for_levels, (outcome as int, price as int, 0));
                match r {
                    Some(l) => i >= 0 && l@ == self@.for_levels[i],
                    None => i < 0,
                }
            }),
    {
        get_from_side(&self.liquidities_for, true, outcome, price)
    }

    /// The direct "against" level at (`outcome`, `price`), if any.
    pub fn get_liquidity_against(&self, outcome: u16, price: u64) -> (r: Option<
        &MarketOutcomePriceLiquidity,
    >)
        requires
            self.wf(),
        ensures
            ({
                let i = key_index(false, self@.against_levels, (outcome as int, price as int, 0));
                match r {
                    Some(l) => i >= 0 && l@ == self@.against_levels[i],
                    None => i < 0,
                }
            }),
    {
        get_from_side(&self.liquidities_against, false, outcome, price)
    }

    fn add_or_set(
        &mut self,
        for_side: bool,
        outcome: u16,
        price: u64,
        sources: &[LiquidityKey],
        liquidity: u64,
        set: bool,
    ) -> (r: Result<(), LiquidityError>)
        requires
            old(self).wf(),
        ensures
            final(self).wf(),
            match (if set {
                book_set(old(self)@, for_side, outcome, price, sources@, liquidity)
            } else {
                book_add(old(self)@, for_side, outcome, price, sources@, liquidity)
            }) {
                Ok(c) => r is Ok && final(self)@ == c,
                Err(e) => r == Err::<(), LiquidityError>(e) && final(self)@ == old(self)@,
            },
    {
        proof {
            lemma_book_changes_wf(self@, for_side, outcome, price, sources@, 0, liquidity);
        }
        let full = self.is_full();
        if for_side {
            add_to_side(&mut self.liquidities_for, true, outcome, price, sources, liquidity, full, set)
        } else {
            add_to_side(
                &mut self.liquidities_against,
                false,
                outcome,
                price,
                sources,
                liquidity,
                full,
                set,
            )
        }
    }

    pub(crate) fn remove_side(&mut self, for_side: bool, outcome: u16, price: u64, ord: u128, liquidity: u64) -> (r:
        Result<(), LiquidityError>)
        requires
            old(self).wf(),
        ensures
            final(self).wf(),
            match book_remove(old(self)@, for_side, outcome, price, ord as int, liquidity) {
                Ok(c) => r is Ok && final(self)@ == c,
                Err(e) => r == Err::<(), LiquidityError>(e) && final(self)@ == old(self)@,
            },
    {
        proof {
            lemma_book_changes_wf(self@, for_side, outcome, price, Seq::empty(), ord as int, liquidity);
        }
        if for_side {
            remove_from_side(&mut self.liquidities_for, true, outcome, price, ord, liquidity)
        } else {
            remove_from_side(&mut self.liquidities_against, false, outcome, price, ord, liquidity)
        }
    }

    /// Adds direct liquidity to the "for" level at (`outcome`, `price`).
    pub fn add_liquidity_for(&mut self, outcome: u16, price: u64, liquidity: u64) -> (r: Result<
        (),
        LiquidityError,
    >)
        requires
            old(self).wf(),
        ensures
            final(self).wf(),
            match book_add(old(self)@, true, outcome, price, Seq::empty(), liquidity) {
                Ok(c) => r is Ok && final(self)@ == c,
                Err(e) => r == Err::<(), LiquidityError>(e) && final(self)@ == old(self)@,
            },
    {
        let none: [LiquidityKey; 0] = [];
        proof {
            assert(none@ =~= Seq::<LiquidityKey>::empty());
        }
        self.add_or_set(true, outcome, price, none.as_slice(), liquidity, false)
    }

    /// Adds liquidity to the "for" level at (`outcome`, `price`) with the given sources:
    /// merged into the level of that key, or inserted in order as a new one. A new level
    /// is refused when the book is full; a sum past `u64::MAX` is refused. Either refusal
    /// leaves the book as it was.
    pub fn add_liquidity_for_with_sources(
        &mut self,
        outcome: u16,
        price: u64,
        sources: &[LiquidityKey],
        liquidity: u64,
    ) -> (r: Result<(), LiquidityError>)
        requires
            old(self).wf(),
        ensures
            final(self).wf(),
            match book_add(old(self)@, true, outcome, price, sources@, liquidity) {
                Ok(c) => r is Ok && final(self)@ == c,
                Err(e) => r == Err::<(), LiquidityError>(e) && final(self)@ == old(self)@,
            },
    {
        self.add_or_set(true, outcome, price, sources, liquidity, false)
    }

    /// Replaces the liquidity of the "for" level at (`outcome`, `price`, `sources`),
    /// inserting the level if it is absent and the book is not full.
    pub fn set_liquidity_for(
        &mut self,
        outcome: u16,
        price: u64,
        liquidity: u64,
        sources: Vec<LiquidityKey>,
    ) -> (r: Result<(), LiquidityError>)
        requires
            old(self).wf(),
        ensures
            final(self).wf(),
            match book_set(old(self)@, true, outcome, price, sources@, liquidity) {
                Ok(c) => r is Ok && final(self)@ == c,
                Err(e) => r == Err::<(), LiquidityError>(e) && final(self)@ == old(self)@,
            },
    {
        self.add_or_set(true, outcome, price, sources.as_slice(), liquidity, true)
    }

    /// Takes `liquidity` from the "for" level at (`outcome`, `price`, `sources`); the level
    /// goes when nothing is left. Refused, leaving the book as it was, when the level is
    /// missing or holds less.
    pub fn remove_liquidity_for(
        &mut self,
        outcome: u16,
        price: u64,
        sources: &[LiquidityKey],
        liquidity: u64,
    ) -> (r: Result<(), LiquidityError>)
        requires
            old(self).wf(),
        ensures
            final(self).wf(),
            match book_remove(old(self)@, true, outcome, price, sources_ord_spec(sources@), liquidity) {
                Ok(c) => r is Ok && final(self)@ == c,
                Err(e) => r == Err::<(), LiquidityError>(e) && final(self)@ == old(self)@,
            },
    {
        let ord = ord_of(sources);
        self.remove_side(true, outcome, price, ord, liquidity)
    }

    /// Adds direct liquidity to the "against" level at (`outcome`, `price`).
    pub fn add_liquidity_against(&mut self, outcome: u16, price: u64, liquidity: u64) -> (r: Result<
        (),
        LiquidityError,
    >)
        requires
            old(self).wf(),
        ensures
            final(self).wf(),
            match book_add(old(self)@, false, outcome, price, Seq::empty(), liquidity) {
                Ok(c) => r is Ok && final(self)@ == c,
                Err(e) => r == Err::<(), LiquidityError>(e) && final(self)@ == old(self)@,
            },
    {
        let none: [LiquidityKey; 0] = [];
        proof {
            assert(none@ =~= Seq::<LiquidityKey>::empty());
        }
        self.add_or_set(false, outcome, price, none.as_slice(), liquidity, false)
    }

    /// Adds liquidity to the "against" level at (`outcome`, `price`) with the given sources:
    /// merged into the level of that key, or inserted in order as a new one. A new level
    /// is refused when the book is full; a sum past `u64::MAX` is refused. Either refusal
    /// leaves the book as it was.
    pub fn add_liquidity_against_with_sources(
        &mut self,
        outcome: u16,
        price: u64,
        sources: &[LiquidityKey],
        liquidity: u64,
    ) -> (r: Result<(), LiquidityError>)
        requires
            old(self).wf(),
        ensures
            final(self).wf(),
            match book_add(old(self)@, false, outcome, price, sources@, liquidity) {
                Ok(c) => r is Ok && final(self)@ == c,
                Err(e) => r == Err::<(), LiquidityError>(e) && final(self)@ == old(self)@,
            },
    {
        self.add_or_set(false, outcome, price, sources, liquidity, false)
    }

    /// Replaces the liquidity of the "against" level at (`outcome`, `price`, `sources`),
    /// inserting the level if it is absent and the book is not full.
    pub fn set_liquidity_against(
        &mut self,
        outcome: u16,
        price: u64,
        liquidity: u64,
        sources: Vec<LiquidityKey>,
    ) -> (r: Result<(), LiquidityError>)
        requires
            old(self).wf(),
        ensures
            final(self).wf(),
            match book_set(old(self)@, false, outcome, price, sources@, liquidity) {
                Ok(c) => r is Ok && final(self)@ == c,
                Err(e) => r == Err::<(), LiquidityError>(e) && final(self)@ == old(self)@,
            },
    {
        self.add_or_set(false, outcome, price, sources.as_slice(), liquidity, true)
    }

    /// Takes `liquidity` from the "against" level at (`outcome`, `price`, `sources`); the level
    /// goes when nothing is left. Refused, leaving the book as it was, when the level is
    /// missing or holds less.
    pub fn remove_liquidity_against(
        &mut self,
        outcome: u16,
        price: u64,
        sources: &[LiquidityKey],
        liquidity: u64,
    ) -> (r: Result<(), LiquidityError>)
        requires
            old(self).wf(),
        ensures
            final(self).wf(),
            match book_remove(old(self)@, false, outcome, price, sources_ord_spec(sources@), liquidity) {
                Ok(c) => r is Ok && final(self)@ == c,
                Err(e) => r == Err::<(), LiquidityError>(e) && final(self)@ == old(self)@,
            },
    {
        let ord = ord_of(sources);
        self.remove_side(false, outcome, price, ord, liquidity)
    }

    /// The sum of the outcome indices of `sources`.
    pub fn sources_ord(sources: &[LiquidityKey]) -> (r: u128)
        ensures
            r == sources_ord_spec(sources@),
    {
        ord_of(sources)
    }

    /// Clears both ladders when the market's behaviour cancels unmatched liquidity on
    /// going in-play; otherwise leaves the book as it is.
    pub fn move_to_inplay(&mut self, behaviour: &MarketOrderBehaviour)
        requires
            old(self).wf(),
        ensures
            final(self).wf(),
            *behaviour == MarketOrderBehaviour::CancelUnmatched ==> final(self)@ == (BookModel {
                for_levels: Seq::empty(),
                against_levels: Seq::empty(),
                ..old(self)@
            }),
            *behaviour == MarketOrderBehaviour::KeepUnmatched ==> final(self)@ == old(self)@,
    {
        if *behaviour == MarketOrderBehaviour::CancelUnmatched {
            self.liquidities_for = Vec::new();
            self.liquidities_against = Vec::new();
            assert(self@.for_levels =~= Seq::empty());
            assert(self@.against_levels =~= Seq::empty());
        }
    }

    /// A copy of the book, level for level.
    pub fn copy(&self) -> (r: Self)
        ensures
            r@ == self@,
    {
        MarketLiquidities {
            enable_cross_matching: self.enable_cross_matching,
            stake_matched_total: self.stake_matched_total,
            liquidities_for: copy_levels(&self.liquidities_for),
            liquidities_against: copy_levels(&self.liquidities_against),
        }
    }
}

fn copy_levels(v: &Vec<MarketOutcomePriceLiquidity>) -> (r: Vec<MarketOutcomePriceLiquidity>)
    ensures
        levels_view(r@) == levels_view(v@),
{
    let mut r: Vec<MarketOutcomePriceLiquidity> = Vec::new();
    let mut i: usize = 0;
    while i < v.len()
        invariant
            0 <= i <= v@.len(),
            levels_view(r@) == levels_view(v@).take(i as int),
        decreases v@.len() - i,
    {
        let l = &v[i];
        let c = MarketOutcomePriceLiquidity {
            outcome: l.outcome,
            price: l.price,
            liquidity: l.liquidity,
            sources: vstd::slice::slice_to_vec(l.sources.as_slice()),
        };
        assert(c@ == l@);
        assert(levels_view(v@)[i as int] == v@[i as int]@);
        let ghost before = r@;
        r.push(c);
        assert(levels_view(r@) =~= levels_view(before).push(c@));
        i = i + 1;
        assert(levels_view(r@) =~= levels_view(v@).take(i as int));
    }
    assert(levels_view(v@).take(i as int) =~= levels_view(v@));
    r
}

} // verus!
