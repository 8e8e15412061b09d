//! Amounts derived from record fields: overdue fines, net salaries and
//! invoice totals. Money is held in whole currency units; instants are
//! milliseconds since the Unix epoch.
use vstd::prelude::*;

use crate::error::LedgerError;

verus! {

/// Milliseconds in one day.
pub const MILLIS_PER_DAY: i64 = 86_400_000;

/// Fine charged per overdue day when no other rate is configured.
pub const DEFAULT_FINE_RATE: u64 = 5;

/// Whole days by which `now` lies after `due`; zero when `now` is not after `due`.
pub open spec fn days_overdue(due: int, now: int) -> nat {
    if now <= due {
        0
    } else {
        ((now - due) / (MILLIS_PER_DAY as int)) as nat
    }
}

/// The fine owed for an item due at `due` and closed at `now`.
pub open spec fn fine_of(due: int, now: int, rate_per_day: int) -> int {
    days_overdue(due, now) * rate_per_day
}

/// Number of whole days by which `now` is past `due` (fractions of a day are dropped).
pub fn days_elapsed(due: i64, now: i64) -> (r: u64)
    ensures
        r == days_overdue(due as int, now as int),
{
    if now <= due {
        0
    } else {
        let gap: u64 = (now as i128 - due as i128) as u64;
        gap / (MILLIS_PER_DAY as u64)
    }
}

/// The instant `days` whole days after `now`, when it is representable;
/// otherwise the input is refused as invalid.
pub fn due_after(now: i64, days: i64) -> (r: Result<i64, LedgerError>)
    ensures
        i64::MIN <= now + days * MILLIS_PER_DAY <= i64::MAX ==> r == Ok::<i64, LedgerError>(
            (now + days * MILLIS_PER_DAY) as i64,
        ),
        !(i64::MIN <= now + days * MILLIS_PER_DAY <= i64::MAX) ==> r == Err::<i64, LedgerError>(
            LedgerError::Validation,
        ),
{
    proof {
        assert(-0x8000_0000_0000_0000 * 86_400_000 <= days * MILLIS_PER_DAY <= 0x7fff_ffff_ffff_ffff * 86_400_000)
            by (nonlinear_arith)
            requires
                -0x8000_0000_0000_0000 <= days <= 0x7fff_ffff_ffff_ffff,
                MILLIS_PER_DAY == 86_400_000,
        ;
    }
    let t: i128 = now as i128 + (days as i128) * (MILLIS_PER_DAY as i128);
    if t < i64::MIN as i128 || t > i64::MAX as i128 {
        Err(LedgerError::Validation)
    } else {
        Ok(t as i64)
    }
}

/// Fine for an item due at `due` and returned at `now`, at `rate_per_day` per whole
/// overdue day.
pub fn fine(due: i64, now: i64, rate_per_day: u64) -> (r: u128)
    ensures
        r == fine_of(due as int, now as int, rate_per_day as int),
        now <= due ==> r == 0,
{
    let days = days_elapsed(due, now);
    proof {
        assert(days as int * rate_per_day as int <= 0xffff_ffff_ffff_ffff * 0xffff_ffff_ffff_ffff)
            by (nonlinear_arith)
            requires
                days <= 0xffff_ffff_ffff_ffff,
                rate_per_day <= 0xffff_ffff_ffff_ffff,
        ;
    }
    (days as u128) * (rate_per_day as u128)
}

/// Net salary: basic pay plus allowances minus deductions. The result may be negative.
pub fn net_salary(basic: i64, allowances: i64, deductions: i64) -> (r: i128)
    ensures
        r == basic as int + allowances as int - deductions as int,
{
    basic as i128 + allowances as i128 - deductions as i128
}

/// One line of an invoice.
pub struct InvoiceItem {
    pub description: String,
    pub amount: i64,
}

/// Sum of the amounts of `items`.
pub open spec fn items_total(items: Seq<InvoiceItem>) -> int
    decreases items.len(),
{
    if items.len() == 0 {
        0
    } else {
        items_total(items.drop_last()) + items.last().amount
    }
}

/// Total of an invoice: the sum of its items' amounts.
pub fn invoice_total(items: &Vec<InvoiceItem>) -> (r: i128)
    ensures
        r == items_total(items@),
{
    let mut total: i128 = 0;
    let mut i: usize = 0;
    while i < items.len()
        invariant
            i <= items.len(),
            total == items_total(items@.subrange(0, i as int)),
            -(i as int) * 0x8000_0000_0000_0000 <= total <= (i as int) * 0x8000_0000_0000_0000,
        decreases items.len() - i,
    {
        let a = items[i].amount;
        proof {
            let s = items@.subrange(0, i as int + 1);
            assert(s.drop_last() =~= items@.subrange(0, i as int));
            assert(i < usize::MAX);
            assert((i as int + 1) * 0x8000_0000_0000_0000 <= 0x1_0000_0000_0000_0000 * 0x8000_0000_0000_0000)
                by (nonlinear_arith) requires i < 0xffff_ffff_ffff_ffff;
            assert((i as int + 1) * 0x8000_0000_0000_0000 == i as int * 0x8000_0000_0000_0000 + 0x8000_0000_0000_0000)
                by (nonlinear_arith);
        }
        total = total + a as i128;
        i = i + 1;
    }
    assert(items@.subrange(0, i as int) =~= items@);
    total
}

} // verus!
