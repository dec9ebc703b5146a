use vstd::prelude::*;

use crate::liquidity::{
    book_add, book_full, book_remove, book_wf, key_index, lemma_book_changes_wf,
    lemma_insert_pos, lemma_insert_sorted, lemma_key_index, level_key,
    liquidity_at, side_levels, sources_ord_spec, BookModel, LiquidityError, LiquidityKey,
    PriceLevel,
};

verus! {

/// The sum of a sequence of amounts.
pub open spec fn sum_amounts(a: Seq<u64>) -> int
    decreases a.len(),
{
    if a.len() == 0 {
        0
    } else {
        sum_amounts(a.drop_last()) + a.last()
    }
}

/// An addition at one key raises the liquidity at that key by the amount added.
pub proof fn lemma_add_raises_liquidity(
    b: BookModel,
    for_side: bool,
    outcome: u16,
    price: u64,
    sources: Seq<LiquidityKey>,
    amount: u64,
)
    requires
        book_wf(b),
        book_add(b, for_side, outcome, price, sources, amount) is Ok,
    ensures
        ({
            let c = book_add(b, for_side, outcome, price, sources, amount)->Ok_0;
            let k = (outcome as int, price as int, sources_ord_spec(sources));
            &&& book_wf(c)
            &&& liquidity_at(for_side, side_levels(c, for_side), k) == liquidity_at(
                for_side,
                side_levels(b, for_side),
                k,
            ) + amount
        }),
{
    let c = book_add(b, for_side, outcome, price, sources, amount)->Ok_0;
    let k = (outcome as int, price as int, sources_ord_spec(sources));
    let s = side_levels(b, for_side);
    let t = side_levels(c, for_side);
    lemma_book_changes_wf(b, for_side, outcome, price, sources, 0, amount);
    lemma_key_index(for_side, s, k);
    lemma_insert_pos(for_side, s, k);
    lemma_key_index(for_side, t, k);
    let i = key_index(for_side, s, k);
    if i >= 0 {
        assert(level_key(t[i]) == k);
    } else {
        let l = PriceLevel { outcome, price, liquidity: amount, sources };
        assert(level_key(l) == k);
        let p = crate::liquidity::insert_pos(for_side, s, k);
        assert(t[p] == l);
    }
}

/// Any run of additions at one (outcome, price, sources) leaves there the liquidity that
/// was there plus the sum of the amounts added.
pub proof fn lemma_repeated_add_sums(
    books: Seq<BookModel>,
    for_side: bool,
    outcome: u16,
    price: u64,
    sources: Seq<LiquidityKey>,
    amounts: Seq<u64>,
)
    requires
        books.len() == amounts.len() + 1,
        book_wf(books[0]),
        forall|i: int|
            0 <= i < amounts.len() ==> #[trigger] book_add(
                books[i],
                for_side,
                outcome,
                price,
                sources,
                amounts[i],
            ) == Ok::<BookModel, LiquidityError>(books[i + 1]),
    ensures
        book_wf(books.last()),
        liquidity_at(
            for_side,
            side_levels(books.last(), for_side),
            (outcome as int, price as int, sources_ord_spec(sources)),
        ) == liquidity_at(
            for_side,
            side_levels(books[0], for_side),
            (outcome as int, price as int, sources_ord_spec(sources)),
        ) + sum_amounts(amounts),
    decreases amounts.len(),
{
    if amounts.len() > 0 {
        let n = amounts.len() - 1;
        let pre = books.drop_last();
        assert forall|i: int| 0 <= i < amounts.drop_last().len() implies #[trigger] book_add(
            pre[i],
            for_side,
            outcome,
            price,
            sources,
            amounts.drop_last()[i],
        ) == Ok::<BookModel, LiquidityError>(pre[i + 1]) by {
            assert(book_add(books[i], for_side, outcome, price, sources, amounts[i]) == Ok::<
                BookModel,
                LiquidityError,
            >(books[i + 1]));
        }
        lemma_repeated_add_sums(pre, for_side, outcome, price, sources, amounts.drop_last());
        assert(book_add(books[n], for_side, outcome, price, sources, amounts[n]) == Ok::<
            BookModel,
            LiquidityError,
        >(books[n + 1]));
        lemma_add_raises_liquidity(books[n], for_side, outcome, price, sources, amounts[n]);
    }
}

/// Removing all of a level's liquidity removes the level: no level of that key is left.
pub proof fn lemma_remove_all_drops_level(
    b: BookModel,
    for_side: bool,
    outcome: u16,
    price: u64,
    ord: int,
)
    requires
        book_wf(b),
        key_index(for_side, side_levels(b, for_side), (outcome as int, price as int, ord)) >= 0,
    ensures
        ({
            let k = (outcome as int, price as int, ord);
            let s = side_levels(b, for_side);
            let r = book_remove(b, for_side, outcome, price, ord, s[key_index(for_side, s, k)].liquidity);
            &&& r is Ok
            &&& side_levels(r->Ok_0, for_side) == s.remove(key_index(for_side, s, k))
            &&& key_index(for_side, side_levels(r->Ok_0, for_side), k) < 0
            &&& liquidity_at(for_side, side_levels(r->Ok_0, for_side), k) == 0
        }),
{
    let k = (outcome as int, price as int, ord);
    let s = side_levels(b, for_side);
    lemma_key_index(for_side, s, k);
    let i = key_index(for_side, s, k);
    let t = s.remove(i);
    lemma_book_changes_wf(b, for_side, outcome, price, Seq::empty(), ord, s[i].liquidity);
    lemma_key_index(for_side, t, k);
    let j = key_index(for_side, t, k);
    if j >= 0 {
        if j < i {
            assert(t[j] == s[j]);
        } else {
            assert(t[j] == s[j + 1]);
        }
    }
}

/// On a full book, an addition that needs a new level is refused with the capacity error.
pub proof fn lemma_add_to_full_book_refused(
    b: BookModel,
    for_side: bool,
    outcome: u16,
    price: u64,
    sources: Seq<LiquidityKey>,
    amount: u64,
)
    requires
        book_full(b),
        key_index(
            for_side,
            side_levels(b, for_side),
            (outcome as int, price as int, sources_ord_spec(sources)),
        ) < 0,
    ensures
        book_add(b, for_side, outcome, price, sources, amount) == Err::<BookModel, LiquidityError>(
            LiquidityError::MarketLiquiditiesIsFull,
        ),
{
}

/// Liquidity added at a key where the book had none, then taken away in full, leaves
/// the book as it was.
pub proof fn lemma_add_then_remove_restores(
    b: BookModel,
    for_side: bool,
    outcome: u16,
    price: u64,
    sources: Seq<LiquidityKey>,
    amount: u64,
)
    requires
        book_wf(b),
        key_index(
            for_side,
            side_levels(b, for_side),
            (outcome as int, price as int, sources_ord_spec(sources)),
        ) < 0,
        book_add(b, for_side, outcome, price, sources, amount) is Ok,
    ensures
        book_remove(
            book_add(b, for_side, outcome, price, sources, amount)->Ok_0,
            for_side,
            outcome,
            price,
            sources_ord_spec(sources),
            amount,
        ) == Ok::<BookModel, LiquidityError>(b),
{
    let k = (outcome as int, price as int, sources_ord_spec(sources));
    let s = side_levels(b, for_side);
    let c = book_add(b, for_side, outcome, price, sources, amount)->Ok_0;
    let t = side_levels(c, for_side);
    let l = PriceLevel { outcome, price, liquidity: amount, sources };
    assert(level_key(l) == k);
    lemma_insert_pos(for_side, s, k);
    let p = crate::liquidity::insert_pos(for_side, s, k);
    lemma_insert_sorted(for_side, s, l);
    lemma_key_index(for_side, t, k);
    assert(t[p] == l);
    assert(t.remove(p) =~= s);
    if for_side {
        assert(c.for_levels.remove(p) =~= b.for_levels);
    } else {
        assert(c.against_levels.remove(p) =~= b.against_levels);
    }
}

/// Two additions at one key, one after the other.
pub open spec fn add_twice(
    b: BookModel,
    for_side: bool,
    outcome: u16,
    price: u64,
    sources: Seq<LiquidityKey>,
    first: u64,
    second: u64,
) -> Result<BookModel, LiquidityError> {
    match book_add(b, for_side, outcome, price, sources, first) {
        Ok(c) => book_add(c, for_side, outcome, price, sources, second),
        Err(e) => Err(e),
    }
}

/// Two additions at one key commute: in either order both succeed or neither does, and
/// they leave the same book.
pub proof fn lemma_add_commutes(
    b: BookModel,
    for_side: bool,
    outcome: u16,
    price: u64,
    sources: Seq<LiquidityKey>,
    x: u64,
    y: u64,
)
    requires
        book_wf(b),
    ensures
        add_twice(b, for_side, outcome, price, sources, x, y) is Ok <==> add_twice(
            b,
            for_side,
            outcome,
            price,
            sources,
            y,
            x,
        ) is Ok,
        add_twice(b, for_side, outcome, price, sources, x, y) is Ok ==> add_twice(
            b,
            for_side,
            outcome,
            price,
            sources,
            x,
            y,
        ) == add_twice(b, for_side, outcome, price, sources, y, x),
{
    let k = (outcome as int, price as int, sources_ord_spec(sources));
    let s = side_levels(b, for_side);
    lemma_key_index(for_side, s, k);
    lemma_insert_pos(for_side, s, k);
    let i = key_index(for_side, s, k);
    lemma_add_commutes_one_way(b, for_side, outcome, price, sources, x, y);
    lemma_add_commutes_one_way(b, for_side, outcome, price, sources, y, x);
    if i >= 0 {
        if s[i].liquidity + x + y <= u64::MAX {
            let r1 = add_twice(b, for_side, outcome, price, sources, x, y)->Ok_0;
            let r2 = add_twice(b, for_side, outcome, price, sources, y, x)->Ok_0;
            assert(side_levels(r1, for_side) =~= side_levels(r2, for_side));
            assert(r1 == r2);
        }
    } else if !book_full(b) {
        if x + y <= u64::MAX {
            let r1 = add_twice(b, for_side, outcome, price, sources, x, y)->Ok_0;
            let r2 = add_twice(b, for_side, outcome, price, sources, y, x)->Ok_0;
            assert(side_levels(r1, for_side) =~= side_levels(r2, for_side));
            assert(r1 == r2);
        }
    }
}

/// What two additions at one key do, in terms of the book before them.
proof fn lemma_add_commutes_one_way(
    b: BookModel,
    for_side: bool,
    outcome: u16,
    price: u64,
    sources: Seq<LiquidityKey>,
    x: u64,
    y: u64,
)
    requires
        book_wf(b),
    ensures
        ({
            let k = (outcome as int, price as int, sources_ord_spec(sources));
            let s = side_levels(b, for_side);
            let i = key_index(for_side, s, k);
            let r = add_twice(b, for_side, outcome, price, sources, x, y);
            &&& i >= 0 ==> (r is Ok <==> s[i].liquidity + x + y <= u64::MAX)
            &&& i >= 0 && r is Ok ==> side_levels(r->Ok_0, for_side) == s.update(
                i,
                crate::liquidity::with_liquidity(s[i], (s[i].liquidity + x + y) as u64),
            )
            &&& i < 0 ==> (r is Ok <==> !book_full(b) && x + y <= u64::MAX)
            &&& i < 0 && r is Ok ==> side_levels(r->Ok_0, for_side) == s.insert(
                crate::liquidity::insert_pos(for_side, s, k),
                PriceLevel { outcome, price, liquidity: (x + y) as u64, sources },
            )
            &&& r is Ok ==> r->Ok_0.stake_matched_total == b.stake_matched_total
                && r->Ok_0.enable_cross_matching == b.enable_cross_matching
                && side_levels(r->Ok_0, !for_side) == side_levels(b, !for_side)
        }),
{
    let k = (outcome as int, price as int, sources_ord_spec(sources));
    let s = side_levels(b, for_side);
    lemma_key_index(for_side, s, k);
    lemma_insert_pos(for_side, s, k);
    let i = key_index(for_side, s, k);
    lemma_book_changes_wf(b, for_side, outcome, price, sources, 0, x);
    let first = book_add(b, for_side, outcome, price, sources, x);
    if first is Ok {
        let c = first->Ok_0;
        let t = side_levels(c, for_side);
        lemma_key_index(for_side, t, k);
        if i >= 0 {
            assert(level_key(t[i]) == k);
            assert(key_index(for_side, t, k) == i);
            assert(t.update(
                i,
                crate::liquidity::with_liquidity(t[i], (t[i].liquidity + y) as u64),
            ) =~= s.update(
                i,
                crate::liquidity::with_liquidity(s[i], (s[i].liquidity + x + y) as u64),
            ));
        } else {
            let p = crate::liquidity::insert_pos(for_side, s, k);
            let l = PriceLevel { outcome, price, liquidity: x, sources };
            assert(level_key(l) == k);
            assert(t[p] == l);
            assert(key_index(for_side, t, k) == p);
            assert(t.update(p, crate::liquidity::with_liquidity(t[p], (x + y) as u64)) =~= s.insert(
                p,
                PriceLevel { outcome, price, liquidity: (x + y) as u64, sources },
            ));
        }
    }
}

} // verus!
