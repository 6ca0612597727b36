//! The summary of a book: one line per resting order, with running totals
//! and each line's share of its side.

use vstd::prelude::*;
use crate::structs::matching::{limit_of, total_quantity};
use crate::structs::order::Order;

verus! {

/// Shares are given in millionths of a percent: 100% is `100 * SHARE_SCALE`.
pub const SHARE_SCALE: u64 = 1_000_000;

/// One line of a summary before shares are known: price, quantity and the
/// running total of quantity.
pub type Level = (u64, u64, u128);

/// One line of a summary.
#[derive(Debug, Clone, Copy, PartialEq, Eq)]
pub struct BidAskSummarize {
    /// The price in ticks.
    pub price: u64,
    /// The quantity in lots.
    pub qty: u64,
    /// The running total of quantity up to and including this line.
    pub qty_sum: u128,
    /// The line's share of the quantity of its side, in millionths of a
    /// percent, rounded down.
    pub qty_percent: u64,
}

/// The summary of a book.
#[derive(Debug)]
pub struct OrderBookSummarized {
    /// The bids, best first; their running totals start at the worst bid.
    pub bids: Vec<BidAskSummarize>,
    /// The mean of the best bid and the best ask, rounded down; 0 when a side
    /// is empty.
    pub mid_price: u64,
    /// The asks, best first; their running totals start at the best ask.
    pub asks: Vec<BidAskSummarize>,
}

/// The line of the `i`-th order of a sequence: its price, its quantity, and
/// the quantity of the orders up to and including it.
pub open spec fn level(s: Seq<Order>, i: int) -> Level {
    (limit_of(s[i]), s[i].quantity, total_quantity(s.take(i + 1)) as u128)
}

/// The lines of a sequence of orders, in its order.
pub open spec fn levels(s: Seq<Order>) -> Seq<Level> {
    Seq::new(s.len(), |i: int| level(s, i))
}

/// The mean of the best bid and the best ask, rounded down; 0 when a side is
/// empty.
pub open spec fn mid_price(bids: Seq<Order>, asks: Seq<Order>) -> u64 {
    if bids.len() > 0 && asks.len() > 0 {
        ((limit_of(bids[0]) + limit_of(asks[0])) / 2) as u64
    } else {
        0
    }
}

/// The quantity of all lines together.
pub open spec fn volume(lines: Seq<Level>) -> nat
    decreases lines.len(),
{
    if lines.len() == 0 {
        0
    } else {
        volume(lines.drop_last()) + lines.last().1 as nat
    }
}

/// A quantity as a share of a volume, in millionths of a percent, rounded
/// down; 0 of an empty volume.
pub open spec fn share(qty: u64, volume: nat) -> nat {
    if volume == 0 {
        0
    } else {
        (qty as nat * 100 * (SHARE_SCALE as nat)) / volume
    }
}

/// A line with its share of `volume`.
pub open spec fn with_share(line: Level, volume: nat) -> BidAskSummarize {
    BidAskSummarize {
        price: line.0,
        qty: line.1,
        qty_sum: line.2,
        qty_percent: share(line.1, volume) as u64,
    }
}

/// The lines with their shares of the quantity of all of them.
pub open spec fn with_shares(lines: Seq<Level>) -> Seq<BidAskSummarize> {
    Seq::new(lines.len(), |i: int| with_share(lines[i], volume(lines)))
}

/// The quantity of a sequence of orders is at most its length times the
/// greatest quantity.
pub proof fn lemma_total_quantity_bound(s: Seq<Order>)
    ensures
        total_quantity(s) <= s.len() * 0xffff_ffff_ffff_ffff,
    decreases s.len(),
{
    if s.len() > 0 {
        lemma_total_quantity_bound(s.drop_last());
        assert((s.len() - 1) * 0xffff_ffff_ffff_ffff + 0xffff_ffff_ffff_ffff == s.len()
            * 0xffff_ffff_ffff_ffff) by (nonlinear_arith);
    }
}

/// The quantity of a sequence of lines is at most its length times the
/// greatest quantity, and no line holds more than all together.
pub proof fn lemma_volume_bound(lines: Seq<Level>)
    ensures
        volume(lines) <= lines.len() * 0xffff_ffff_ffff_ffff,
        forall|i: int| 0 <= i < lines.len() ==> (#[trigger] lines[i]).1 <= volume(lines),
    decreases lines.len(),
{
    if lines.len() > 0 {
        let rest = lines.drop_last();
        lemma_volume_bound(rest);
        assert((lines.len() - 1) * 0xffff_ffff_ffff_ffff + 0xffff_ffff_ffff_ffff == lines.len()
            * 0xffff_ffff_ffff_ffff) by (nonlinear_arith);
        assert forall|i: int| 0 <= i < lines.len() implies (#[trigger] lines[i]).1 <= volume(
            lines,
        ) by {
            if i < rest.len() {
                assert(rest[i] == lines[i]);
            }
        }
    }
}

/// A count that fits a machine word, times the greatest quantity, fits 128
/// bits.
pub proof fn lemma_fits_u128(n: nat)
    requires
        n <= usize::MAX,
    ensures
        n * 0xffff_ffff_ffff_ffff <= u128::MAX,
{
    assert(n <= 0xffff_ffff_ffff_ffff);
    assert(n * 0xffff_ffff_ffff_ffff <= 0xffff_ffff_ffff_ffff * 0xffff_ffff_ffff_ffff)
        by (nonlinear_arith)
        requires
            n <= 0xffff_ffff_ffff_ffff,
    ;
}

/// A share of a volume that holds the quantity is at most 100%.
pub proof fn lemma_share_bound(qty: u64, volume: nat)
    requires
        qty <= volume,
    ensures
        share(qty, volume) <= 100 * SHARE_SCALE,
{
    if volume > 0 {
        let scale: nat = 100 * (SHARE_SCALE as nat);
        assert((qty as nat * scale) / volume <= scale) by (nonlinear_arith)
            requires
                qty <= volume,
                volume > 0,
        ;
        assert(qty as nat * 100 * (SHARE_SCALE as nat) == qty as nat * scale) by (nonlinear_arith)
            requires
                scale == 100 * (SHARE_SCALE as nat),
        ;
    }
}

/// The lines of `items`, in their order.
pub fn levels_of(items: &Vec<Order>) -> (lines: Vec<Level>)
    ensures
        lines@ == levels(items@),
{
    let n: usize = items.len();
    let mut lines: Vec<Level> = Vec::new();
    let mut sum: u128 = 0;
    let mut i: usize = 0;
    assert(items@.take(0) =~= Seq::<Order>::empty());
    while i < n
        invariant
            i <= n,
            n == items.len(),
            sum == total_quantity(items@.take(i as int)),
            lines@.len() == i,
            forall|j: int| 0 <= j < i ==> lines@[j] == level(items@, j),
        decreases n - i,
    {
        let order: Order = items[i];
        proof {
            let next = items@.take(i + 1);
            assert(next.drop_last() =~= items@.take(i as int));
            assert(next.last() == order);
            lemma_total_quantity_bound(next);
            lemma_fits_u128(next.len());
        }
        sum = sum + order.quantity as u128;
        let price: u64 = match order.price {
            Some(p) => p,
            None => 0,
        };
        lines.push((price, order.quantity, sum));
        i += 1;
    }
    assert(lines@ =~= levels(items@));
    lines
}

/// The orders in the opposite order: a side that is given best first comes
/// out worst first.
pub fn worst_to_best(items: &Vec<Order>) -> (out: Vec<Order>)
    ensures
        out@ == items@.reverse(),
{
    let n: usize = items.len();
    let mut out: Vec<Order> = Vec::new();
    let mut i: usize = n;
    while i > 0
        invariant
            i <= n,
            n == items.len(),
            out@.len() == n - i,
            forall|j: int| 0 <= j < out@.len() ==> out@[j] == items@[n - 1 - j],
        decreases i,
    {
        i -= 1;
        out.push(items[i]);
    }
    assert(out@ =~= items@.reverse());
    out
}

/// The lines in the opposite order.
pub fn reversed(lines: &Vec<Level>) -> (out: Vec<Level>)
    ensures
        out@ == lines@.reverse(),
{
    let n: usize = lines.len();
    let mut out: Vec<Level> = Vec::new();
    let mut i: usize = n;
    while i > 0
        invariant
            i <= n,
            n == lines.len(),
            out@.len() == n - i,
            forall|j: int| 0 <= j < out@.len() ==> out@[j] == lines@[n - 1 - j],
        decreases i,
    {
        i -= 1;
        out.push(lines[i]);
    }
    assert(out@ =~= lines@.reverse());
    out
}

impl BidAskSummarize {
    /// A line from its four numbers.
    pub fn new(price: u64, qty: u64, qty_sum: u128, qty_percent: u64) -> (line: BidAskSummarize)
        ensures
            line == (BidAskSummarize { price, qty, qty_sum, qty_percent }),
    {
        BidAskSummarize { price, qty, qty_sum, qty_percent }
    }
}

/// The quantity of all lines together.
fn volume_of(lines: &Vec<Level>) -> (sum: u128)
    ensures
        sum == volume(lines@),
{
    let n: usize = lines.len();
    let mut sum: u128 = 0;
    let mut i: usize = 0;
    assert(lines@.take(0) =~= Seq::<Level>::empty());
    while i < n
        invariant
            i <= n,
            n == lines.len(),
            sum == volume(lines@.take(i as int)),
        decreases n - i,
    {
        proof {
            let next = lines@.take(i + 1);
            assert(next.drop_last() =~= lines@.take(i as int));
            assert(next.last() == lines@[i as int]);
            lemma_volume_bound(next);
            lemma_fits_u128(next.len());
        }
        sum = sum + lines[i].1 as u128;
        i += 1;
    }
    assert(lines@.take(n as int) =~= lines@);
    sum
}

/// The lines with their shares of `total`, which holds every line.
fn shares_of(lines: &Vec<Level>, total: u128) -> (out: Vec<BidAskSummarize>)
    requires
        total == volume(lines@),
    ensures
        out@ == with_shares(lines@),
{
    let n: usize = lines.len();
    let mut out: Vec<BidAskSummarize> = Vec::new();
    let mut i: usize = 0;
    while i < n
        invariant
            i <= n,
            n == lines.len(),
            total == volume(lines@),
            out@.len() == i,
            forall|j: int| 0 <= j < i ==> out@[j] == with_share(lines@[j], volume(lines@)),
        decreases n - i,
    {
        let line: Level = lines[i];
        proof {
            lemma_volume_bound(lines@);
            lemma_share_bound(line.1, volume(lines@));
            assert(line.1 as nat * 100 * (SHARE_SCALE as nat) <= 0xffff_ffff_ffff_ffff * 100
                * 1_000_000) by (nonlinear_arith)
                requires
                    line.1 <= 0xffff_ffff_ffff_ffff,
                    SHARE_SCALE == 1_000_000,
            ;
        }
        let percent: u64 = if total == 0 {
            0
        } else {
            (line.1 as u128 * 100 * (SHARE_SCALE as u128) / total) as u64
        };
        out.push(BidAskSummarize::new(line.0, line.1, line.2, percent));
        i += 1;
    }
    assert(out@ =~= with_shares(lines@));
    out
}

impl OrderBookSummarized {
    /// The summary made of the lines of both sides and the mid price: each
    /// line gets its share of the quantity of its side.
    pub fn new(bids: Vec<Level>, mid_price: u64, asks: Vec<Level>) -> (summary:
        OrderBookSummarized)
        ensures
            summary.bids@ == with_shares(bids@),
            summary.mid_price == mid_price,
            summary.asks@ == with_shares(asks@),
    {
        let bids_volume = volume_of(&bids);
        let bid_lines = shares_of(&bids, bids_volume);
        let asks_volume = volume_of(&asks);
        let ask_lines = shares_of(&asks, asks_volume);
        OrderBookSummarized { bids: bid_lines, mid_price, asks: ask_lines }
    }
}

} // verus!
