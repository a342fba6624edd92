//! Currency statistics: one currency's chronological rate observations,
//! step-function "rate as of" queries, and a fixed-interval bucketed series
//! for charting.

use crate::decimal::Decimal;
use crate::decimal::trunc_div;
use crate::model::Asset;
use crate::model::Currency;
use crate::model::CurrencyRate;
use vstd::prelude::*;

verus! {

/// A sampled rate value at one instant.
#[derive(Debug, Clone, Copy, PartialEq, Eq, Structural)]
pub struct Point {
    pub date: i64,
    pub value: Decimal,
}

/// The bucketed series of one currency: its label and its points in
/// ascending date order.
#[derive(Debug, Clone, PartialEq, Eq)]
pub struct CurrencyGraph {
    pub ticker: String,
    pub points: Vec<Point>,
}

/// Construction failure of a rate series.
#[derive(Debug, Clone, Copy, PartialEq, Eq, Structural)]
pub enum CurrencyStatisticError {
    /// An observation's currency disagrees with the series being built.
    CurrencyMismatch,
}

/// Whether `rates` is ordered by non-decreasing date.
pub open spec fn sorted_by_date(rates: Seq<CurrencyRate>) -> bool {
    forall|i: int, j: int|
        0 <= i <= j < rates.len() ==> #[trigger] rates[i].date <= #[trigger] rates[j].date
}

/// The rate of the latest observation at or before `date`: a step function
/// carried forward, with nothing before the first observation.
pub open spec fn rate_at(rates: Seq<CurrencyRate>, date: int) -> Option<Decimal>
    decreases rates.len(),
{
    if rates.len() == 0 {
        None
    } else if rates.last().date <= date {
        Some(rates.last().rate)
    } else {
        rate_at(rates.drop_last(), date)
    }
}

/// The observations with dates in `[lo, hi]`, both ends inclusive, in input
/// order, as chart points.
pub open spec fn points_in(rates: Seq<CurrencyRate>, lo: int, hi: int) -> Seq<Point>
    decreases rates.len(),
{
    if rates.len() == 0 {
        Seq::<Point>::empty()
    } else {
        let rest = points_in(rates.drop_last(), lo, hi);
        let r = rates.last();
        if lo <= r.date <= hi {
            rest.push(Point { date: r.date, value: r.rate })
        } else {
            rest
        }
    }
}

/// The sum of the scaled values of `points`.
pub open spec fn sum_values(points: Seq<Point>) -> int
    decreases points.len(),
{
    if points.len() == 0 {
        0
    } else {
        sum_values(points.drop_last()) + points.last().value.0
    }
}

/// The mean of `points` under fixed-point arithmetic: the values are summed
/// and divided once by the count, with truncating division; the zero value
/// for an empty list.
pub open spec fn spec_average(points: Seq<Point>) -> int {
    if points.len() == 0 {
        0
    } else {
        trunc_div(sum_values(points) * 100, points.len() as int * 100)
    }
}

/// Whether averaging `points` stays within the machine integers: every
/// partial sum, the scaled total, and the scaled count.
pub open spec fn average_fits(points: Seq<Point>) -> bool {
    &&& forall|n: int|
        0 <= n <= points.len() ==> i64::MIN <= sum_values(#[trigger] points.take(n)) <= i64::MAX
    &&& points.len() * 100 <= i64::MAX
    &&& i64::MIN <= sum_values(points) * 100 <= i64::MAX
}

/// The arithmetic mean of the points' rates, truncated to the cent; the
/// zero value for an empty list.
pub fn average_rate(points: &Vec<Point>) -> (r: Decimal)
    requires
        average_fits(points@),
    ensures
        r.0 == spec_average(points@),
{
    if points.len() == 0 {
        return Decimal(0);
    }
    let mut sum = Decimal(0);
    let mut i: usize = 0;
    proof {
        assert(points@.take(0) =~= Seq::<Point>::empty());
    }
    while i < points.len()
        invariant
            0 <= i <= points@.len(),
            sum.0 == sum_values(points@.take(i as int)),
            average_fits(points@),
        decreases points@.len() - i,
    {
        proof {
            assert(points@.take(i + 1).drop_last() =~= points@.take(i as int));
            assert(points@.take(i + 1).last() == points@[i as int]);
        }
        sum = sum.add(points[i].value);
        i += 1;
    }
    proof {
        assert(points@.take(points@.len() as int) =~= points@);
    }
    let count = Decimal::from_int(points.len() as i64);
    match sum.div(count) {
        Ok(d) => d,
        Err(_) => vstd::pervasive::unreached(),
    }
}

/// The mean of a single point is that point's own value: one sample passes
/// through the fixed-point average unchanged.
pub proof fn lemma_average_single(p: Point)
    ensures
        spec_average(seq![p]) == p.value.0,
{
    let s = seq![p];
    assert(s.drop_last() =~= Seq::<Point>::empty());
    assert(sum_values(Seq::<Point>::empty()) == 0);
    assert(s.last() == p);
    assert(sum_values(s) == p.value.0);
    let v = p.value.0 as int;
    assert(spec_average(s) == trunc_div(v * 100, 100));
    if v >= 0 {
        assert(vstd::math::abs(v * 100) == 100 * vstd::math::abs(v)) by (nonlinear_arith);
        vstd::arithmetic::div_mod::lemma_div_multiples_vanish(vstd::math::abs(v) as int, 100);
    } else {
        assert(v * 100 < 0) by (nonlinear_arith)
            requires
                v < 0,
        ;
        assert(vstd::math::abs(v * 100) == 100 * vstd::math::abs(v)) by (nonlinear_arith);
        vstd::arithmetic::div_mod::lemma_div_multiples_vanish(vstd::math::abs(v) as int, 100);
    }
}

/// The bucketed series over `rates`: one window of width `size` per step
/// from `date` while the window start is not past `end`. A window with
/// observations contributes their mean; one without falls back to the last
/// known rate at the window start; where none is known either, the window
/// is omitted.
pub open spec fn graph_points(rates: Seq<CurrencyRate>, date: int, end: int, size: int) -> Seq<
    Point,
>
    decreases end + size - date,
{
    if size < 1 || date > end {
        Seq::<Point>::empty()
    } else {
        let w = points_in(rates, date, date + size);
        let here: Seq<Point> = if w.len() > 0 {
            seq![Point { date: date as i64, value: Decimal(spec_average(w) as i64) }]
        } else {
            match rate_at(rates, date) {
                Some(r) => seq![Point { date: date as i64, value: r }],
                None => Seq::<Point>::empty(),
            }
        };
        here + graph_points(rates, date + size, end, size)
    }
}

/// Graph points ascend strictly by date: each window contributes at most
/// one point, dated at the window's start, and the walk only moves forward.
/// A window with nothing to show is omitted rather than padded, so the
/// series may be shorter than the range, never out of order.
pub proof fn lemma_graph_dates_ascend(rates: Seq<CurrencyRate>, date: int, end: int, size: int)
    requires
        size >= 1,
        i64::MIN <= date,
        end + size <= i64::MAX,
    ensures
        forall|p: int|
            0 <= p < graph_points(rates, date, end, size).len()
                ==> #[trigger] graph_points(rates, date, end, size)[p].date >= date,
        forall|p: int, q: int|
            0 <= p < q < graph_points(rates, date, end, size).len()
                ==> #[trigger] graph_points(rates, date, end, size)[p].date
                < #[trigger] graph_points(rates, date, end, size)[q].date,
    decreases end + size - date,
{
    if size < 1 || date > end {
    } else {
        lemma_graph_dates_ascend(rates, date + size, end, size);
        let whole = graph_points(rates, date, end, size);
        let tail = graph_points(rates, date + size, end, size);
        let here = whole.len() - tail.len();
        assert(here == 0 || here == 1);
        assert(here == 1 ==> whole[0].date == date);
        assert(forall|p: int| 0 <= p < tail.len() ==> #[trigger] tail[p].date >= date + size);
        assert(forall|p: int| here <= p < whole.len() ==> whole[p] == tail[p - here]);
    }
}

/// Whether the `k`-th window of the walk, if its start is in range, can be
/// averaged within the machine integers.
pub open spec fn window_fits(
    rates: Seq<CurrencyRate>,
    start: int,
    end: int,
    size: int,
    k: int,
) -> bool {
    let t = start + k * size;
    t <= end ==> average_fits(points_in(rates, t, t + size))
}

/// One currency's rate history, sorted by date on construction and
/// immutable afterwards.
pub struct CurrencyStatistic {
    id: i64,
    ticker: String,
    rates: Vec<CurrencyRate>,
}

impl View for CurrencyStatistic {
    type V = Seq<CurrencyRate>;

    /// The observations, sorted by date.
    closed spec fn view(&self) -> Seq<CurrencyRate> {
        self.rates@
    }
}

impl CurrencyStatistic {
    /// The currency id, for contracts.
    pub closed spec fn spec_id(&self) -> int {
        self.id as int
    }

    /// The series label, for contracts.
    pub closed spec fn spec_ticker(&self) -> Seq<char> {
        self.ticker@
    }

    /// The series invariant: observations in date order, each belonging to
    /// the series' currency.
    pub open spec fn wf(&self) -> bool {
        &&& sorted_by_date(self@)
        &&& forall|i: int| 0 <= i < self@.len() ==> #[trigger] self@[i].currency_id == self.spec_id()
    }

    /// Builds the series for `curr`: rejects the observations if any belongs
    /// to another currency, and sorts them by date otherwise, so callers
    /// need not pre-sort. The label is the currency's name.
    pub fn new(curr: Currency, rates: Vec<CurrencyRate>) -> (r: Result<
        CurrencyStatistic,
        CurrencyStatisticError,
    >)
        ensures
            match r {
                Ok(s) => {
                    &&& forall|i: int|
                        0 <= i < rates@.len() ==> #[trigger] rates@[i].currency_id == curr.id
                    &&& s.wf()
                    &&& s.spec_id() == curr.id
                    &&& s.spec_ticker() == curr.name@
                    &&& s@.to_multiset() == rates@.to_multiset()
                },
                Err(e) => {
                    &&& e == CurrencyStatisticError::CurrencyMismatch
                    &&& exists|i: int|
                        0 <= i < rates@.len() && #[trigger] rates@[i].currency_id != curr.id
                },
            },
    {
        let mut i: usize = 0;
        while i < rates.len()
            invariant
                0 <= i <= rates@.len(),
                forall|j: int| 0 <= j < i ==> #[trigger] rates@[j].currency_id == curr.id,
            decreases rates@.len() - i,
        {
            if rates[i].currency_id != curr.id {
                return Err(CurrencyStatisticError::CurrencyMismatch);
            }
            i += 1;
        }
        let sorted = sort_by_date(rates);
        proof {
            broadcast use vstd::seq_lib::group_to_multiset_ensures;

            assert forall|j: int| 0 <= j < sorted@.len() implies #[trigger] sorted@[j].currency_id
                == curr.id by {
                let x = sorted@[j];
                assert(sorted@.contains(x));
                assert(sorted@.to_multiset().count(x) > 0);
                assert(rates@.contains(x));
                let t = choose|t: int| 0 <= t < rates@.len() && rates@[t] == x;
                assert(rates@[t].currency_id == curr.id);
            }
        }
        Ok(CurrencyStatistic { id: curr.id, ticker: curr.name, rates: sorted })
    }

    /// The currency id of the series.
    pub fn id(&self) -> (r: i64)
        ensures
            r as int == self.spec_id(),
    {
        self.id
    }

    /// The series label.
    pub fn ticker(&self) -> (r: &String)
        ensures
            r@ == self.spec_ticker(),
    {
        &self.ticker
    }

    /// The rate as of `date`: the latest observation at or before it,
    /// carried forward; nothing when `date` precedes every observation.
    pub fn get_rate(&self, date: i64) -> (r: Option<Decimal>)
        ensures
            r == rate_at(self@, date as int),
    {
        let mut i: usize = self.rates.len();
        proof {
            assert(self@.take(i as int) =~= self@);
        }
        while i > 0
            invariant
                0 <= i <= self@.len(),
                rate_at(self@, date as int) == rate_at(self@.take(i as int), date as int),
            decreases i,
        {
            proof {
                assert(self@.take(i as int).last() == self@[i - 1]);
                assert(self@.take(i as int).drop_last() =~= self@.take(i - 1));
            }
            if self.rates[i - 1].date <= date {
                return Some(self.rates[i - 1].rate);
            }
            i -= 1;
        }
        proof {
            assert(self@.take(0) =~= Seq::<CurrencyRate>::empty());
        }
        None
    }

    /// The observations with dates in `[start_date, end_date]`, inclusive
    /// on both ends, in series order.
    pub fn get_points(&self, start_date: i64, end_date: i64) -> (r: Vec<Point>)
        ensures
            r@ == points_in(self@, start_date as int, end_date as int),
    {
        let mut out: Vec<Point> = Vec::new();
        let mut i: usize = 0;
        proof {
            assert(self@.take(0) =~= Seq::<CurrencyRate>::empty());
        }
        while i < self.rates.len()
            invariant
                0 <= i <= self@.len(),
                out@ == points_in(self@.take(i as int), start_date as int, end_date as int),
            decreases self@.len() - i,
        {
            proof {
                assert(self@.take(i + 1).drop_last() =~= self@.take(i as int));
                assert(self@.take(i + 1).last() == self@[i as int]);
            }
            let r = self.rates[i];
            if r.date >= start_date && r.date <= end_date {
                out.push(Point { date: r.date, value: r.rate });
            }
            i += 1;
        }
        proof {
            assert(self@.take(self@.len() as int) =~= self@);
        }
        out
    }

    /// Walks fixed-width windows `[t, t + point_size]` from `start_date`,
    /// stepping by `point_size` while `t` is not past `end_date`, and emits
    /// one point per window: the mean of the observations in the window,
    /// else the rate carried forward to the window start, else no point.
    pub fn build_graph(&self, start_date: i64, end_date: i64, point_size: i64) -> (g:
        CurrencyGraph)
        requires
            point_size >= 1,
            end_date + point_size <= i64::MAX,
            forall|k: int|
                0 <= k ==> window_fits(
                    self@,
                    start_date as int,
                    end_date as int,
                    point_size as int,
                    k,
                ),
        ensures
            g.ticker@ == self.spec_ticker(),
            g.points@ == graph_points(
                self@,
                start_date as int,
                end_date as int,
                point_size as int,
            ),
    {
        let ghost gstart = start_date as int;
        let ghost gend = end_date as int;
        let ghost gsize = point_size as int;
        let mut points: Vec<Point> = Vec::new();
        let mut date = start_date;
        let ghost mut k: int = 0;
        while date <= end_date
            invariant
                point_size >= 1,
                gstart == start_date as int,
                gend == end_date as int,
                gsize == point_size as int,
                end_date + point_size <= i64::MAX,
                k >= 0,
                date as int == gstart + k * gsize,
                forall|k2: int| 0 <= k2 ==> window_fits(self@, gstart, gend, gsize, k2),
                points@ + graph_points(self@, date as int, gend, gsize) == graph_points(
                    self@,
                    gstart,
                    gend,
                    gsize,
                ),
            decreases end_date + point_size - date,
        {
            let segment_end = date + point_size;
            let pts = self.get_points(date, segment_end);
            proof {
                assert(window_fits(self@, gstart, gend, gsize, k));
            }
            let ghost w = points_in(self@, date as int, date as int + gsize);
            let ghost here = graph_points(self@, date as int, gend, gsize).take(
                graph_points(self@, date as int, gend, gsize).len() as int - graph_points(
                    self@,
                    date as int + gsize,
                    gend,
                    gsize,
                ).len() as int,
            );
            if pts.len() > 0 {
                let value = average_rate(&pts);
                points.push(Point { date, value });
            } else {
                match self.get_rate(date) {
                    Some(r) => points.push(Point { date, value: r }),
                    None => (),
                }
            }
            proof {
                let tail = graph_points(self@, date as int + gsize, gend, gsize);
                let whole = graph_points(self@, date as int, gend, gsize);
                if w.len() > 0 {
                    assert(whole == seq![
                        Point { date: date as i64, value: Decimal(spec_average(w) as i64) },
                    ] + tail);
                } else {
                    match rate_at(self@, date as int) {
                        Some(r) => {
                            assert(whole == seq![Point { date: date as i64, value: r }] + tail);
                        },
                        None => {
                            assert(whole == Seq::<Point>::empty() + tail);
                        },
                    }
                }
                assert(points@ + tail =~= graph_points(self@, gstart, gend, gsize));
                k = k + 1;
                assert(gstart + k * gsize == gstart + (k - 1) * gsize + gsize) by (nonlinear_arith);
            }
            date = segment_end;
        }
        proof {
            assert(graph_points(self@, date as int, gend, gsize) =~= Seq::<Point>::empty());
            assert(points@ + Seq::<Point>::empty() =~= points@);
        }
        CurrencyGraph { ticker: self.ticker.clone(), points }
    }
}

/// Sorts rate observations by non-decreasing date, keeping exactly the same
/// observations.
fn sort_by_date(rates: Vec<CurrencyRate>) -> (r: Vec<CurrencyRate>)
    ensures
        sorted_by_date(r@),
        r@.to_multiset() == rates@.to_multiset(),
{
    let mut out: Vec<CurrencyRate> = Vec::new();
    let mut k: usize = 0;
    proof {
        broadcast use vstd::seq_lib::to_multiset_build;
        broadcast use vstd::seq_lib::to_multiset_insert;

        assert(rates@.take(0) =~= Seq::<CurrencyRate>::empty());
        assert(out@.to_multiset() =~= rates@.take(0).to_multiset());
    }
    while k < rates.len()
        invariant
            0 <= k <= rates@.len(),
            sorted_by_date(out@),
            out@.len() == k,
            out@.to_multiset() == rates@.take(k as int).to_multiset(),
        decreases rates@.len() - k,
    {
        let r = rates[k];
        let mut pos: usize = 0;
        loop
            invariant
                0 <= pos <= out@.len(),
                forall|t: int| 0 <= t < pos ==> #[trigger] out@[t].date <= r.date,
                sorted_by_date(out@),
            ensures
                0 <= pos <= out@.len(),
                forall|t: int| 0 <= t < pos ==> #[trigger] out@[t].date <= r.date,
                pos == out@.len() || out@[pos as int].date > r.date,
            decreases out@.len() - pos,
        {
            if pos >= out.len() {
                break ;
            }
            if out[pos].date > r.date {
                break ;
            }
            pos += 1;
        }
        proof {
            broadcast use vstd::seq_lib::to_multiset_build;
            broadcast use vstd::seq_lib::to_multiset_insert;

            out@.insert_ensures(pos as int, r);
            assert(rates@.take(k + 1).drop_last() =~= rates@.take(k as int));
            assert(rates@.take(k + 1) =~= rates@.take(k as int).push(rates@[k as int]));
        }
        out.insert(pos, r);
        proof {
            assert(sorted_by_date(out@)) by {
                assert forall|i: int, j: int| 0 <= i <= j < out@.len() implies out@[i].date
                    <= out@[j].date by {
                    if i == pos as int {
                        if j > pos as int {
                            assert(out@[j].date > r.date);
                        }
                    } else if j == pos as int {
                        if i < pos as int {
                            assert(out@[i].date <= r.date);
                        }
                    }
                }
            };
        }
        k += 1;
    }
    proof {
        assert(rates@.take(rates@.len() as int) =~= rates@);
    }
    out
}

/// The rate as of any date before the first observation of a sorted series
/// is nothing: the step function starts only at the first observation.
pub proof fn lemma_rate_before_first(rates: Seq<CurrencyRate>, date: int)
    requires
        sorted_by_date(rates),
        rates.len() == 0 || date < rates[0].date,
    ensures
        rate_at(rates, date) is None,
    decreases rates.len(),
{
    if rates.len() > 0 {
        assert(rates[0].date <= rates.last().date);
        assert(sorted_by_date(rates.drop_last()));
        lemma_rate_before_first(rates.drop_last(), date);
    }
}

/// At or after the `i`-th observation of a sorted series, and before the
/// next one, the rate is exactly the `i`-th observation's, carried forward
/// until superseded.
pub proof fn lemma_rate_carry_forward(rates: Seq<CurrencyRate>, i: int, date: int)
    requires
        sorted_by_date(rates),
        0 <= i < rates.len(),
        rates[i].date <= date,
        i == rates.len() - 1 || date < rates[i + 1].date,
    ensures
        rate_at(rates, date) == Some(rates[i].rate),
    decreases rates.len(),
{
    if i == rates.len() - 1 {
        assert(rates.last() == rates[i]);
    } else {
        assert(rates[i + 1].date <= rates.last().date);
        assert(sorted_by_date(rates.drop_last()));
        lemma_rate_carry_forward(rates.drop_last(), i, date);
    }
}

/// A currency may be removed only while no asset references it; the caller
/// passes the assets that still do.
pub fn can_remove_currency(assets_with_currency: &Vec<Asset>) -> (r: bool)
    ensures
        r == (assets_with_currency@.len() == 0),
{
    assets_with_currency.len() == 0
}

} // verus!
