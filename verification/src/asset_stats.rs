//! Asset statistics: folding a chronological operation log into a sequence
//! of portfolio snapshots.
//!
//! Each snapshot is a pure function of the previous snapshot (or the
//! all-zero baseline) and the current operation. A `DividendReinvest` is a
//! ledger-level composite of a `Dividend` followed by a `Buy` at the same
//! date; the ledger resolves it before folding, and where one nevertheless
//! reaches the folder, the folder applies that composite in a single step.

use crate::decimal::Decimal;
use crate::decimal::trunc_div;
use crate::model::Asset;
use crate::model::AssetOperation;
use crate::model::OperationType;
use vstd::prelude::*;

verus! {

/// A snapshot of one asset's state as of one ledger event.
#[derive(Debug, Clone, Copy, PartialEq, Eq, Structural)]
pub struct AssetSnapshot {
    /// Snapshot date.
    pub date: i64,
    /// Asset price.
    pub price: Decimal,
    /// Quantity of the asset held.
    pub quantity: Decimal,
    /// Total received from the asset.
    pub paid: Decimal,
    /// Total invested in the asset.
    pub invested: Decimal,
    /// Total withdrawn from the asset.
    pub withdrawn: Decimal,
}

/// A snapshot over unbounded integers: the mathematical state that folding
/// computes, before any machine-width concern.
pub ghost struct SnapshotModel {
    pub date: int,
    pub price: int,
    pub quantity: int,
    pub paid: int,
    pub invested: int,
    pub withdrawn: int,
}

impl View for AssetSnapshot {
    type V = SnapshotModel;

    open spec fn view(&self) -> SnapshotModel {
        SnapshotModel {
            date: self.date as int,
            price: self.price.0 as int,
            quantity: self.quantity.0 as int,
            paid: self.paid.0 as int,
            invested: self.invested.0 as int,
            withdrawn: self.withdrawn.0 as int,
        }
    }
}

/// The all-zero baseline state that folding starts from.
pub open spec fn zero_model() -> SnapshotModel {
    SnapshotModel { date: 0, price: 0, quantity: 0, paid: 0, invested: 0, withdrawn: 0 }
}

/// The state-machine step: the snapshot that follows `prev` under `op`.
///
/// `UpdatePrice` replaces the price; `Buy` adds quantity and invests the
/// traded value (`amount * price`, truncated to the cent); `Sell` removes
/// quantity, divests the traded value and records it as withdrawn;
/// `Dividend` adds the amount to what the asset paid out. The traded value
/// truncates exactly as [`Decimal::mul`] does.
pub open spec fn step_model(prev: SnapshotModel, op: AssetOperation) -> SnapshotModel {
    let amount = op.operation_amount.0 as int;
    let date = op.operation_date as int;
    let traded = trunc_div(amount * prev.price, 100);
    match op.operation_type {
        OperationType::UpdatePrice => SnapshotModel { date, price: amount, ..prev },
        OperationType::Buy => SnapshotModel {
            date,
            quantity: prev.quantity + amount,
            invested: prev.invested + traded,
            ..prev
        },
        OperationType::Sell => SnapshotModel {
            date,
            quantity: prev.quantity - amount,
            invested: prev.invested - traded,
            withdrawn: prev.withdrawn + traded,
            ..prev
        },
        OperationType::Dividend => SnapshotModel { date, paid: prev.paid + amount, ..prev },
        OperationType::DividendReinvest => SnapshotModel {
            date,
            paid: prev.paid + amount,
            quantity: prev.quantity + amount,
            invested: prev.invested + traded,
            ..prev
        },
    }
}

/// Whether `v` fits the machine word that snapshots store.
pub open spec fn in_i64(v: int) -> bool {
    i64::MIN <= v <= i64::MAX
}

/// Whether one folding step stays within the machine integers: the traded
/// product where the step computes one, and every changed field.
pub open spec fn step_fits(prev: SnapshotModel, op: AssetOperation) -> bool {
    let amount = op.operation_amount.0 as int;
    let traded = trunc_div(amount * prev.price, 100);
    match op.operation_type {
        OperationType::UpdatePrice => true,
        OperationType::Buy => in_i64(amount * prev.price) && in_i64(prev.quantity + amount)
            && in_i64(prev.invested + traded),
        OperationType::Sell => in_i64(amount * prev.price) && in_i64(prev.quantity - amount)
            && in_i64(prev.invested - traded) && in_i64(prev.withdrawn + traded),
        OperationType::Dividend => in_i64(prev.paid + amount),
        OperationType::DividendReinvest => in_i64(amount * prev.price) && in_i64(
            prev.paid + amount,
        ) && in_i64(prev.quantity + amount) && in_i64(prev.invested + traded),
    }
}

/// The state after folding all of `ops`, starting from `init`.
pub open spec fn fold_from(init: SnapshotModel, ops: Seq<AssetOperation>) -> SnapshotModel
    decreases ops.len(),
{
    if ops.len() == 0 {
        init
    } else {
        step_model(fold_from(init, ops.drop_last()), ops.last())
    }
}

/// The state after the first `n` operations of `ops`, from the zero
/// baseline.
pub open spec fn fold_upto(ops: Seq<AssetOperation>, n: int) -> SnapshotModel {
    fold_from(zero_model(), ops.take(n))
}

/// Folding is compositional: folding a whole operation list from `init`
/// equals folding a prefix and then folding the remainder starting from the
/// prefix's final state. With `init` the zero baseline, this says that a
/// snapshot sequence can be extended from its last snapshot without
/// refolding the history.
pub proof fn lemma_fold_split(init: SnapshotModel, ops: Seq<AssetOperation>, k: int)
    requires
        0 <= k <= ops.len(),
    ensures
        fold_from(init, ops) == fold_from(fold_from(init, ops.take(k)), ops.skip(k)),
    decreases ops.len() - k,
{
    if k == ops.len() {
        assert(ops.take(k) =~= ops);
        assert(ops.skip(k) =~= Seq::<AssetOperation>::empty());
    } else {
        lemma_fold_split(init, ops.drop_last(), k);
        assert(ops.drop_last().take(k) =~= ops.take(k));
        assert(ops.skip(k).drop_last() =~= ops.drop_last().skip(k));
        assert(ops.skip(k).len() > 0);
        assert(ops.skip(k).last() == ops.last());
    }
}

impl AssetSnapshot {
    /// The all-zero baseline snapshot.
    pub fn zero() -> (r: AssetSnapshot)
        ensures
            r@ == zero_model(),
    {
        AssetSnapshot {
            date: 0,
            price: Decimal(0),
            quantity: Decimal(0),
            paid: Decimal(0),
            invested: Decimal(0),
            withdrawn: Decimal(0),
        }
    }

    /// The snapshot that follows `self` under `operation`, per the
    /// state-machine table.
    pub fn make_next(&self, operation: &AssetOperation) -> (r: AssetSnapshot)
        requires
            step_fits(self@, *operation),
        ensures
            r@ == step_model(self@, *operation),
    {
        match operation.operation_type {
            OperationType::UpdatePrice => AssetSnapshot {
                date: operation.operation_date,
                price: operation.operation_amount,
                ..*self
            },
            OperationType::Buy => {
                let traded = operation.operation_amount.mul(self.price);
                AssetSnapshot {
                    date: operation.operation_date,
                    quantity: self.quantity.add(operation.operation_amount),
                    invested: self.invested.add(traded),
                    ..*self
                }
            },
            OperationType::Sell => {
                let traded = operation.operation_amount.mul(self.price);
                AssetSnapshot {
                    date: operation.operation_date,
                    quantity: self.quantity.sub(operation.operation_amount),
                    invested: self.invested.sub(traded),
                    withdrawn: self.withdrawn.add(traded),
                    ..*self
                }
            },
            OperationType::Dividend => AssetSnapshot {
                date: operation.operation_date,
                paid: self.paid.add(operation.operation_amount),
                ..*self
            },
            OperationType::DividendReinvest => {
                let traded = operation.operation_amount.mul(self.price);
                AssetSnapshot {
                    date: operation.operation_date,
                    paid: self.paid.add(operation.operation_amount),
                    quantity: self.quantity.add(operation.operation_amount),
                    invested: self.invested.add(traded),
                    ..*self
                }
            },
        }
    }
}

/// The flat text block of a snapshot: each field on its own line, in the
/// fixed order date, price, quantity, paid, invested, withdrawn. The date
/// line carries text the caller formatted from the snapshot's date.
pub open spec fn snapshot_text(date_text: Seq<char>, s: AssetSnapshot) -> Seq<char> {
    "date: "@ + date_text + "\n"@ + "price: "@ + crate::decimal::render(s.price.0 as int) + "\n"@
        + "quantity: "@ + crate::decimal::render(s.quantity.0 as int) + "\n"@ + "paid: "@
        + crate::decimal::render(s.paid.0 as int) + "\n"@ + "invested: "@ + crate::decimal::render(
        s.invested.0 as int,
    ) + "\n"@ + "withdrawn: "@ + crate::decimal::render(s.withdrawn.0 as int) + "\n"@
}

impl AssetSnapshot {
    /// Renders the snapshot as its flat text block. The caller formats the
    /// snapshot's date into `date_text` however its calendar renders dates.
    pub fn render_text(&self, date_text: &str) -> (r: String)
        ensures
            r@ == snapshot_text(date_text@, *self),
    {
        let mut s = String::new();
        s.append("date: ");
        s.append(date_text);
        s.append("\n");
        s.append("price: ");
        let price_text = self.price.to_string();
        s.append(price_text.as_str());
        s.append("\n");
        s.append("quantity: ");
        let quantity_text = self.quantity.to_string();
        s.append(quantity_text.as_str());
        s.append("\n");
        s.append("paid: ");
        let paid_text = self.paid.to_string();
        s.append(paid_text.as_str());
        s.append("\n");
        s.append("invested: ");
        let invested_text = self.invested.to_string();
        s.append(invested_text.as_str());
        s.append("\n");
        s.append("withdrawn: ");
        let withdrawn_text = self.withdrawn.to_string();
        s.append(withdrawn_text.as_str());
        s.append("\n");
        proof {
            assert(s@ =~= snapshot_text(date_text@, *self));
        }
        s
    }
}

/// The snapshot history of one asset: one snapshot per ledger operation,
/// each derived from the one before it.
pub struct AssetStatistic {
    /// The asset the history belongs to.
    pub asset: Asset,
    snapshots: Vec<AssetSnapshot>,
}

impl View for AssetStatistic {
    type V = Seq<AssetSnapshot>;

    closed spec fn view(&self) -> Seq<AssetSnapshot> {
        self.snapshots@
    }
}

/// The most recent snapshot in `snaps` whose date is not after `date`,
/// scanning from the newest backward.
pub open spec fn latest_at(snaps: Seq<AssetSnapshot>, date: int) -> Option<AssetSnapshot>
    decreases snaps.len(),
{
    if snaps.len() == 0 {
        None
    } else if snaps.last().date <= date {
        Some(snaps.last())
    } else {
        latest_at(snaps.drop_last(), date)
    }
}

impl AssetStatistic {
    /// The asset the history belongs to, for contracts.
    pub closed spec fn spec_asset(&self) -> Asset {
        self.asset
    }

    /// Folds the full operation sequence, in input order, into the snapshot
    /// sequence: the `i`-th snapshot is the fold of the first `i + 1`
    /// operations from the zero baseline.
    pub fn new(asset: Asset, operations: Vec<AssetOperation>) -> (r: AssetStatistic)
        requires
            forall|i: int|
                0 <= i < operations@.len() ==> step_fits(
                    #[trigger] fold_upto(operations@, i),
                    operations@[i],
                ),
        ensures
            r.spec_asset() == asset,
            r@.len() == operations@.len(),
            forall|i: int| 0 <= i < operations@.len() ==> #[trigger] r@[i]@ == fold_upto(
                operations@,
                i + 1,
            ),
    {
        let mut snapshots: Vec<AssetSnapshot> = Vec::new();
        let mut prev = AssetSnapshot::zero();
        let mut k: usize = 0;
        proof {
            assert(operations@.take(0) =~= Seq::<AssetOperation>::empty());
        }
        while k < operations.len()
            invariant
                0 <= k <= operations@.len(),
                snapshots@.len() == k,
                prev@ == fold_upto(operations@, k as int),
                forall|i: int| 0 <= i < k ==> #[trigger] snapshots@[i]@ == fold_upto(
                    operations@,
                    i + 1,
                ),
                forall|i: int|
                    0 <= i < operations@.len() ==> step_fits(
                        #[trigger] fold_upto(operations@, i),
                        operations@[i],
                    ),
            decreases operations@.len() - k,
        {
            let next = prev.make_next(&operations[k]);
            proof {
                assert(operations@.take(k + 1).drop_last() =~= operations@.take(k as int));
                assert(operations@.take(k + 1).last() == operations@[k as int]);
            }
            snapshots.push(next);
            prev = next;
            k += 1;
        }
        AssetStatistic { asset, snapshots }
    }

    /// The most recently folded snapshot, or nothing when the operation
    /// sequence was empty.
    pub fn get_last_snapshot(&self) -> (r: Option<AssetSnapshot>)
        ensures
            match r {
                Some(s) => self@.len() > 0 && s == self@.last(),
                None => self@.len() == 0,
            },
    {
        if self.snapshots.len() == 0 {
            None
        } else {
            Some(self.snapshots[self.snapshots.len() - 1])
        }
    }

    /// The latest snapshot whose date is not after `date`, or nothing when
    /// every snapshot postdates `date` or none exists. A point-in-time
    /// query: it never synthesizes a value between two known snapshots.
    pub fn get_latest_snapshot(&self, date: i64) -> (r: Option<AssetSnapshot>)
        ensures
            r == latest_at(self@, date as int),
    {
        let mut i: usize = self.snapshots.len();
        proof {
            assert(self@.take(i as int) =~= self@);
        }
        while i > 0
            invariant
                0 <= i <= self@.len(),
                latest_at(self@, date as int) == latest_at(self@.take(i as int), date as int),
            decreases i,
        {
            proof {
                assert(self@.take(i as int).last() == self@[i - 1]);
                assert(self@.take(i as int).drop_last() =~= self@.take(i - 1));
            }
            if self.snapshots[i - 1].date <= date {
                return Some(self.snapshots[i - 1]);
            }
            i -= 1;
        }
        proof {
            assert(self@.take(0) =~= Seq::<AssetSnapshot>::empty());
        }
        None
    }
}

} // verus!
