//! Records with a status that moves along a fixed transition graph: leave
//! requests, fees (settled by payments) and payroll entries. Every operation
//! is scoped to a tenant; an entity of another tenant is treated as absent.
use vstd::prelude::*;

use crate::amount::net_salary;
use crate::error::LedgerError;

verus! {

/// The kind of a status-bearing record; each kind has its own transition graph.
#[derive(PartialEq, Eq, Structural, Clone, Copy, Debug)]
pub enum RecordKind {
    /// A leave request: `Pending` to `Approved` or `Rejected`.
    Leave,
    /// A fee owed by a student: `Pending` to `Paid`, by a payment.
    Fee,
    /// A payroll entry: `Pending` to `Paid`.
    Payroll,
}

/// The status of a record.
#[derive(PartialEq, Eq, Structural, Clone, Copy, Debug)]
pub enum Status {
    Pending,
    Approved,
    Rejected,
    Paid,
}

/// The edges of the transition graph of `kind`.
pub open spec fn edge(kind: RecordKind, from: Status, to: Status) -> bool {
    match kind {
        RecordKind::Leave => from == Status::Pending && (to == Status::Approved || to
            == Status::Rejected),
        RecordKind::Fee => from == Status::Pending && to == Status::Paid,
        RecordKind::Payroll => from == Status::Pending && to == Status::Paid,
    }
}

/// Whether the graph of `kind` has an edge from `from` to `to`.
pub fn may_transition(kind: RecordKind, from: Status, to: Status) -> (r: bool)
    ensures
        r == edge(kind, from, to),
{
    match kind {
        RecordKind::Leave => from == Status::Pending && (to == Status::Approved || to
            == Status::Rejected),
        RecordKind::Fee => from == Status::Pending && to == Status::Paid,
        RecordKind::Payroll => from == Status::Pending && to == Status::Paid,
    }
}

/// A status-bearing record. `amount` is the fee owed or the net salary, and
/// zero for leave; `note` holds the descriptive payload (a leave's reason, a
/// fee's type, a payroll's period).
pub struct StatusRecord {
    pub id: usize,
    pub kind: RecordKind,
    pub subject: String,
    pub tenant: String,
    pub status: Status,
    pub amount: i128,
    pub note: String,
    pub created_at: i64,
}

/// A payment that settled a fee.
pub struct Payment {
    pub id: usize,
    pub fee: usize,
    pub subject: String,
    pub tenant: String,
    pub amount: i64,
    pub method: String,
    pub reference: String,
    pub paid_at: i64,
}

/// A member of staff, whose salary is the basic pay of a payroll entry.
pub struct StaffMember {
    pub employee_id: String,
    pub tenant: String,
    pub name: String,
    pub salary: i64,
}

/// What a payment against a fee did.
#[derive(PartialEq, Eq, Structural, Clone, Copy, Debug)]
pub enum Settlement {
    /// The payment with this id was recorded and the fee is now paid.
    Settled(usize),
    /// The fee was already paid; nothing was recorded.
    AlreadyPaid,
}

impl StatusRecord {
    /// A field-by-field copy.
    pub fn duplicate(&self) -> (r: StatusRecord)
        ensures
            r == *self,
    {
        StatusRecord {
            id: self.id,
            kind: self.kind,
            subject: self.subject.clone(),
            tenant: self.tenant.clone(),
            status: self.status,
            amount: self.amount,
            note: self.note.clone(),
            created_at: self.created_at,
        }
    }
}

impl Payment {
    /// A field-by-field copy.
    pub fn duplicate(&self) -> (r: Payment)
        ensures
            r == *self,
    {
        Payment {
            id: self.id,
            fee: self.fee,
            subject: self.subject.clone(),
            tenant: self.tenant.clone(),
            amount: self.amount,
            method: self.method.clone(),
            reference: self.reference.clone(),
            paid_at: self.paid_at,
        }
    }
}

/// `m` is staff member `employee_id` of `tenant`.
pub open spec fn staff_matches(m: StaffMember, employee_id: Seq<char>, tenant: Seq<char>) -> bool {
    m.employee_id@ == employee_id && m.tenant@ == tenant
}

/// A new record with the given fields, in the initial status `Pending`.
pub open spec fn is_new_record(
    r: StatusRecord,
    id: int,
    kind: RecordKind,
    subject: Seq<char>,
    tenant: Seq<char>,
    amount: int,
    note: Seq<char>,
    now: i64,
) -> bool {
    &&& r.id == id
    &&& r.kind == kind
    &&& r.subject@ == subject
    &&& r.tenant@ == tenant
    &&& r.status == Status::Pending
    &&& r.amount == amount
    &&& r.note@ == note
    &&& r.created_at == now
}

/// Records, payments and staff, each identified by its position.
pub struct RecordLedger {
    records: Vec<StatusRecord>,
    payments: Vec<Payment>,
    staff: Vec<StaffMember>,
}

spec fn payment_wf(p: Payment, j: int, records: Seq<StatusRecord>) -> bool {
    &&& p.id == j
    &&& p.fee < records.len()
    &&& records[p.fee as int].kind == RecordKind::Fee
    &&& records[p.fee as int].status == Status::Paid
    &&& records[p.fee as int].tenant@ == p.tenant@
}

impl RecordLedger {
    /// The records, in order of creation; a record's id is its position.
    pub closed spec fn records(&self) -> Seq<StatusRecord> {
        self.records@
    }

    /// The payments, in order of creation; a payment's id is its position.
    pub closed spec fn payments(&self) -> Seq<Payment> {
        self.payments@
    }

    /// The staff register, in order of registration.
    pub closed spec fn staff(&self) -> Seq<StaffMember> {
        self.staff@
    }

    /// Ids are positions, and every payment names a paid fee of its own tenant.
    pub closed spec fn wf(&self) -> bool {
        &&& forall|i: int| 0 <= i < self.records@.len() ==> (#[trigger] self.records@[i]).id == i
        &&& forall|j: int|
            0 <= j < self.payments@.len() ==> payment_wf(
                #[trigger] self.payments@[j],
                j,
                self.records@,
            )
    }

    /// Record `id` exists and belongs to `tenant`.
    pub open spec fn record_visible(&self, id: usize, tenant: Seq<char>) -> bool {
        id < self.records().len() && self.records()[id as int].tenant@ == tenant
    }

    /// `tenant` has a staff member with id `employee_id`.
    pub open spec fn has_staff(&self, employee_id: Seq<char>, tenant: Seq<char>) -> bool {
        exists|i: int|
            0 <= i < self.staff().len() && staff_matches(
                #[trigger] self.staff()[i],
                employee_id,
                tenant,
            )
    }

    /// Staff member `i` is the first of `tenant` with id `employee_id`.
    pub open spec fn first_staff(&self, i: int, employee_id: Seq<char>, tenant: Seq<char>) -> bool {
        &&& 0 <= i < self.staff().len()
        &&& staff_matches(self.staff()[i], employee_id, tenant)
        &&& forall|j: int|
            0 <= j < i ==> !staff_matches(#[trigger] self.staff()[j], employee_id, tenant)
    }

    /// What `create` does.
    pub open spec fn create_post(
        old: RecordLedger,
        new: RecordLedger,
        kind: RecordKind,
        subject: Seq<char>,
        tenant: Seq<char>,
        amount: int,
        note: Seq<char>,
        now: i64,
        r: usize,
    ) -> bool {
        &&& r == old.records().len()
        &&& new.records().len() == old.records().len() + 1
        &&& new.records().drop_last() == old.records()
        &&& is_new_record(new.records().last(), r as int, kind, subject, tenant, amount, note, now)
        &&& new.payments() == old.payments()
        &&& new.staff() == old.staff()
    }

    /// What `transition` does, for every outcome.
    pub open spec fn transition_post(
        old: RecordLedger,
        new: RecordLedger,
        id: usize,
        target: Status,
        tenant: Seq<char>,
        r: Result<Status, LedgerError>,
    ) -> bool {
        if !old.record_visible(id, tenant) {
            r == Err::<Status, LedgerError>(LedgerError::NotFound) && new == old
        } else if old.records()[id as int].status == target {
            r == Ok::<Status, LedgerError>(target) && new == old
        } else if !edge(old.records()[id as int].kind, old.records()[id as int].status, target) {
            r == Err::<Status, LedgerError>(LedgerError::InvalidTransition) && new == old
        } else {
            &&& r == Ok::<Status, LedgerError>(target)
            &&& new.records() == old.records().update(
                id as int,
                (StatusRecord { status: target, ..old.records()[id as int] }),
            )
            &&& new.payments() == old.payments()
            &&& new.staff() == old.staff()
        }
    }

    /// What `settle_fee` does, for every outcome.
    pub open spec fn settle_post(
        old: RecordLedger,
        new: RecordLedger,
        fee: usize,
        subject: Seq<char>,
        tenant: Seq<char>,
        amount: i64,
        method: Seq<char>,
        reference: Seq<char>,
        now: i64,
        r: Result<Settlement, LedgerError>,
    ) -> bool {
        if !old.record_visible(fee, tenant) || old.records()[fee as int].kind != RecordKind::Fee {
            r == Err::<Settlement, LedgerError>(LedgerError::NotFound) && new == old
        } else if old.records()[fee as int].status == Status::Paid {
            r == Ok::<Settlement, LedgerError>(Settlement::AlreadyPaid) && new == old
        } else if !edge(RecordKind::Fee, old.records()[fee as int].status, Status::Paid) {
            r == Err::<Settlement, LedgerError>(LedgerError::InvalidTransition) && new == old
        } else {
            let p = new.payments().last();
            &&& r == Ok::<Settlement, LedgerError>(Settlement::Settled(old.payments().len() as usize))
            &&& new.records() == old.records().update(
                fee as int,
                (StatusRecord { status: Status::Paid, ..old.records()[fee as int] }),
            )
            &&& new.payments().len() == old.payments().len() + 1
            &&& new.payments().drop_last() == old.payments()
            &&& p.id == old.payments().len()
            &&& p.fee == fee
            &&& p.subject@ == subject
            &&& p.tenant@ == tenant
            &&& p.amount == amount
            &&& p.method@ == method
            &&& p.reference@ == reference
            &&& p.paid_at == now
            &&& new.staff() == old.staff()
        }
    }

    /// What `create_payroll` does, for every outcome.
    pub open spec fn payroll_post(
        old: RecordLedger,
        new: RecordLedger,
        employee_id: Seq<char>,
        tenant: Seq<char>,
        allowances: i64,
        deductions: i64,
        period: Seq<char>,
        now: i64,
        r: Result<usize, LedgerError>,
    ) -> bool {
        if !old.has_staff(employee_id, tenant) {
            r == Err::<usize, LedgerError>(LedgerError::NotFound) && new == old
        } else {
            &&& r == Ok::<usize, LedgerError>(old.records().len() as usize)
            &&& new.records().len() == old.records().len() + 1
            &&& new.records().drop_last() == old.records()
            &&& forall|i: int|
                old.first_staff(i, employee_id, tenant) ==> is_new_record(
                    new.records().last(),
                    old.records().len() as int,
                    RecordKind::Payroll,
                    employee_id,
                    tenant,
                    old.staff()[i].salary + allowances - deductions,
                    period,
                    now,
                )
            &&& new.payments() == old.payments()
            &&& new.staff() == old.staff()
        }
    }

    /// An empty ledger.
    pub fn new() -> (r: RecordLedger)
        ensures
            r.wf(),
            r.records().len() == 0,
            r.payments().len() == 0,
            r.staff().len() == 0,
    {
        RecordLedger { records: Vec::new(), payments: Vec::new(), staff: Vec::new() }
    }

    /// Creates a record of `kind` for `subject` under `tenant`, in status `Pending`.
    pub fn create(
        &mut self,
        kind: RecordKind,
        subject: &String,
        tenant: &String,
        amount: i128,
        note: &String,
        now: i64,
    ) -> (r: usize)
        requires
            old(self).wf(),
        ensures
            final(self).wf(),
            RecordLedger::create_post(
                *old(self),
                *final(self),
                kind,
                subject@,
                tenant@,
                amount as int,
                note@,
                now,
                r,
            ),
    {
        let id = self.records.len();
        let rec = StatusRecord {
            id,
            kind,
            subject: subject.clone(),
            tenant: tenant.clone(),
            status: Status::Pending,
            amount,
            note: note.clone(),
            created_at: now,
        };
        self.push_record(rec);
        assert(self.records@.drop_last() =~= old(self).records@);
        id
    }

    fn push_record(&mut self, rec: StatusRecord)
        requires
            old(self).wf(),
            rec.id == old(self).records().len(),
            rec.status == Status::Pending,
        ensures
            final(self).wf(),
            final(self).records() == old(self).records().push(rec),
            final(self).payments() == old(self).payments(),
            final(self).staff() == old(self).staff(),
    {
        let ghost old_records = self.records@;
        self.records.push(rec);
        proof {
            assert forall|j: int| 0 <= j < self.payments@.len() implies payment_wf(
                #[trigger] self.payments@[j],
                j,
                self.records@,
            ) by {
                assert(payment_wf(self.payments@[j], j, old_records));
                assert(self.records@[self.payments@[j].fee as int] == old_records[self.payments@[
                    j
                ].fee as int]);
            }
            assert forall|i: int| 0 <= i < self.records@.len() implies (
            #[trigger] self.records@[i]).id == i by {
                if i < old_records.len() {
                    assert(self.records@[i] == old_records[i]);
                }
            }
        }
    }

    /// Registers staff member `employee_id` of `tenant` with basic salary `salary`.
    pub fn add_staff(&mut self, employee_id: &String, tenant: &String, name: &String, salary: i64)
        requires
            old(self).wf(),
        ensures
            final(self).wf(),
            final(self).records() == old(self).records(),
            final(self).payments() == old(self).payments(),
            final(self).staff().len() == old(self).staff().len() + 1,
            final(self).staff().drop_last() == old(self).staff(),
            final(self).staff().last().employee_id@ == employee_id@,
            final(self).staff().last().tenant@ == tenant@,
            final(self).staff().last().name@ == name@,
            final(self).staff().last().salary == salary,
    {
        let m = StaffMember {
            employee_id: employee_id.clone(),
            tenant: tenant.clone(),
            name: name.clone(),
            salary,
        };
        self.staff.push(m);
        assert(self.staff@.drop_last() =~= old(self).staff@);
    }

    /// Position of the first staff member of `tenant` with id `employee_id`.
    fn find_staff(&self, employee_id: &String, tenant: &String) -> (r: Option<usize>)
        ensures
            r is None ==> !self.has_staff(employee_id@, tenant@),
            r matches Some(i) ==> self.first_staff(i as int, employee_id@, tenant@),
    {
        let mut i: usize = 0;
        while i < self.staff.len()
            invariant
                i <= self.staff@.len(),
                forall|j: int|
                    0 <= j < i ==> !staff_matches(#[trigger] self.staff@[j], employee_id@, tenant@),
            decreases self.staff@.len() - i,
        {
            if self.staff[i].employee_id == *employee_id && self.staff[i].tenant == *tenant {
                return Some(i);
            }
            i = i + 1;
        }
        None
    }

    /// Creates a `Pending` payroll entry for staff member `employee_id` of
    /// `tenant`, whose amount is the net salary: the member's basic salary
    /// plus `allowances` minus `deductions`.
    pub fn create_payroll(
        &mut self,
        employee_id: &String,
        tenant: &String,
        allowances: i64,
        deductions: i64,
        period: &String,
        now: i64,
    ) -> (r: Result<usize, LedgerError>)
        requires
            old(self).wf(),
        ensures
            final(self).wf(),
            RecordLedger::payroll_post(
                *old(self),
                *final(self),
                employee_id@,
                tenant@,
                allowances,
                deductions,
                period@,
                now,
                r,
            ),
    {
        match self.find_staff(employee_id, tenant) {
            None => Err(LedgerError::NotFound),
            Some(i) => {
                let net = net_salary(self.staff[i].salary, allowances, deductions);
                let id = self.records.len();
                let rec = StatusRecord {
                    id,
                    kind: RecordKind::Payroll,
                    subject: employee_id.clone(),
                    tenant: tenant.clone(),
                    status: Status::Pending,
                    amount: net,
                    note: period.clone(),
                    created_at: now,
                };
                let ghost old_self = *self;
                self.push_record(rec);
                proof {
                    assert forall|k: int| old_self.first_staff(k, employee_id@, tenant@) implies k
                        == i by {
                        if k < i {
                            assert(!staff_matches(old_self.staff()[k], employee_id@, tenant@));
                        } else if k > i {
                            assert(!staff_matches(old_self.staff()[i as int], employee_id@, tenant@));
                        }
                    }
                    assert(self.records@.drop_last() =~= old_self.records@);
                }
                Ok(id)
            },
        }
    }

    /// Moves record `id` of `tenant` to status `target`. A record already in
    /// `target` is left as it is, and the call succeeds.
    pub fn transition(&mut self, id: usize, target: Status, tenant: &String) -> (r: Result<
        Status,
        LedgerError,
    >)
        requires
            old(self).wf(),
        ensures
            final(self).wf(),
            RecordLedger::transition_post(*old(self), *final(self), id, target, tenant@, r),
    {
        if id >= self.records.len() || !(self.records[id].tenant == *tenant) {
            return Err(LedgerError::NotFound);
        }
        let current = self.records[id].status;
        if current == target {
            return Ok(target);
        }
        if !may_transition(self.records[id].kind, current, target) {
            return Err(LedgerError::InvalidTransition);
        }
        self.set_status(id, target);
        Ok(target)
    }

    /// Sets the status of record `id`, which is neither a paid fee nor left in place.
    fn set_status(&mut self, id: usize, target: Status)
        requires
            old(self).wf(),
            id < old(self).records().len(),
            old(self).records()[id as int].kind == RecordKind::Fee ==> old(self).records()[id as int].status
                != Status::Paid,
        ensures
            final(self).wf(),
            final(self).records() == old(self).records().update(
                id as int,
                (StatusRecord { status: target, ..old(self).records()[id as int] }),
            ),
            final(self).payments() == old(self).payments(),
            final(self).staff() == old(self).staff(),
    {
        let ghost old_records = self.records@;
        let rec = self.records[id].duplicate();
        let updated = StatusRecord { status: target, ..rec };
        self.records.set(id, updated);
        proof {
            assert forall|j: int| 0 <= j < self.payments@.len() implies payment_wf(
                #[trigger] self.payments@[j],
                j,
                self.records@,
            ) by {
                assert(payment_wf(self.payments@[j], j, old_records));
            }
            assert(self.records@ =~= old_records.update(
                id as int,
                (StatusRecord { status: target, ..old_records[id as int] }),
            ));
        }
    }

    /// Records a payment against fee `fee` of `tenant` and marks the fee paid,
    /// together. A fee that is already paid is left as it is and no payment is
    /// recorded.
    pub fn settle_fee(
        &mut self,
        fee: usize,
        subject: &String,
        tenant: &String,
        amount: i64,
        method: &String,
        reference: &String,
        now: i64,
    ) -> (r: Result<Settlement, LedgerError>)
        requires
            old(self).wf(),
        ensures
            final(self).wf(),
            RecordLedger::settle_post(
                *old(self),
                *final(self),
                fee,
                subject@,
                tenant@,
                amount,
                method@,
                reference@,
                now,
                r,
            ),
    {
        if fee >= self.records.len() || !(self.records[fee].tenant == *tenant) || self.records[fee].kind
            != RecordKind::Fee {
            return Err(LedgerError::NotFound);
        }
        let current = self.records[fee].status;
        if current == Status::Paid {
            return Ok(Settlement::AlreadyPaid);
        }
        if !may_transition(RecordKind::Fee, current, Status::Paid) {
            return Err(LedgerError::InvalidTransition);
        }
        self.set_status(fee, Status::Paid);
        let ghost mid_records = self.records@;
        let ghost mid_payments = self.payments@;
        let pid = self.payments.len();
        let p = Payment {
            id: pid,
            fee,
            subject: subject.clone(),
            tenant: tenant.clone(),
            amount,
            method: method.clone(),
            reference: reference.clone(),
            paid_at: now,
        };
        self.payments.push(p);
        proof {
            assert forall|j: int| 0 <= j < self.payments@.len() implies payment_wf(
                #[trigger] self.payments@[j],
                j,
                self.records@,
            ) by {
                if j < pid {
                    assert(self.payments@[j] == mid_payments[j]);
                }
            }
            assert(self.payments@.drop_last() =~= mid_payments);
        }
        Ok(Settlement::Settled(pid))
    }

    /// Record `id`, if it exists and belongs to `tenant`.
    pub fn record(&self, id: usize, tenant: &String) -> (r: Result<StatusRecord, LedgerError>)
        ensures
            self.record_visible(id, tenant@) ==> r == Ok::<StatusRecord, LedgerError>(
                self.records()[id as int],
            ),
            !self.record_visible(id, tenant@) ==> r == Err::<StatusRecord, LedgerError>(
                LedgerError::NotFound,
            ),
    {
        if id < self.records.len() && self.records[id].tenant == *tenant {
            Ok(self.records[id].duplicate())
        } else {
            Err(LedgerError::NotFound)
        }
    }

    /// The records of `kind` that belong to `tenant`, in order of creation.
    pub fn records_of(&self, kind: RecordKind, tenant: &String) -> (r: Vec<StatusRecord>)
        ensures
            r@ == self.records().filter(|x: StatusRecord| x.kind == kind && x.tenant@ == tenant@),
    {
        let ghost keep = |x: StatusRecord| x.kind == kind && x.tenant@ == tenant@;
        let mut out: Vec<StatusRecord> = Vec::new();
        let mut i: usize = 0;
        while i < self.records.len()
            invariant
                i <= self.records@.len(),
                out@ == self.records@.subrange(0, i as int).filter(keep),
                keep == (|x: StatusRecord| x.kind == kind && x.tenant@ == tenant@),
            decreases self.records@.len() - i,
        {
            let ghost before = out@;
            if self.records[i].kind == kind && self.records[i].tenant == *tenant {
                out.push(self.records[i].duplicate());
            }
            proof {
                let next = self.records@.subrange(0, i as int + 1);
                reveal(Seq::filter);
                assert(next.drop_last() =~= self.records@.subrange(0, i as int));
                assert(next.last() == self.records@[i as int]);
                assert(next.filter(keep) == if keep(next.last()) {
                    before.push(next.last())
                } else {
                    before
                });
            }
            i = i + 1;
        }
        assert(self.records@.subrange(0, i as int) =~= self.records@);
        out
    }

    /// The payments that belong to `tenant`, in order of creation.
    pub fn payments_of(&self, tenant: &String) -> (r: Vec<Payment>)
        ensures
            r@ == self.payments().filter(|x: Payment| x.tenant@ == tenant@),
    {
        let ghost keep = |x: Payment| x.tenant@ == tenant@;
        let mut out: Vec<Payment> = Vec::new();
        let mut i: usize = 0;
        while i < self.payments.len()
            invariant
                i <= self.payments@.len(),
                out@ == self.payments@.subrange(0, i as int).filter(keep),
                keep == (|x: Payment| x.tenant@ == tenant@),
            decreases self.payments@.len() - i,
        {
            let ghost before = out@;
            if self.payments[i].tenant == *tenant {
                out.push(self.payments[i].duplicate());
            }
            proof {
                let next = self.payments@.subrange(0, i as int + 1);
                reveal(Seq::filter);
                assert(next.drop_last() =~= self.payments@.subrange(0, i as int));
                assert(next.last() == self.payments@[i as int]);
                assert(next.filter(keep) == if keep(next.last()) {
                    before.push(next.last())
                } else {
                    before
                });
            }
            i = i + 1;
        }
        assert(self.payments@.subrange(0, i as int) =~= self.payments@);
        out
    }
}

/// Repeating a transition that succeeded succeeds again with the same
/// status and changes nothing.
pub proof fn lemma_transition_repeat(
    s0: RecordLedger,
    s1: RecordLedger,
    s2: RecordLedger,
    id: usize,
    target: Status,
    tenant: Seq<char>,
    r1: Result<Status, LedgerError>,
    r2: Result<Status, LedgerError>,
)
    requires
        RecordLedger::transition_post(s0, s1, id, target, tenant, r1),
        RecordLedger::transition_post(s1, s2, id, target, tenant, r2),
        r1 is Ok,
    ensures
        r2 == r1,
        s2 == s1,
        s1.records()[id as int].status == target,
{
}

/// A leave request that was just created and then approved twice answers
/// `Approved` both times, the second time without change; a rejection after
/// that fails with `InvalidTransition` and changes nothing.
pub proof fn lemma_leave_approved_then_rejected(
    s0: RecordLedger,
    s1: RecordLedger,
    s2: RecordLedger,
    s3: RecordLedger,
    s4: RecordLedger,
    subject: Seq<char>,
    tenant: Seq<char>,
    amount: int,
    note: Seq<char>,
    now: i64,
    id: usize,
    r2: Result<Status, LedgerError>,
    r3: Result<Status, LedgerError>,
    r4: Result<Status, LedgerError>,
)
    requires
        RecordLedger::create_post(s0, s1, RecordKind::Leave, subject, tenant, amount, note, now, id),
        RecordLedger::transition_post(s1, s2, id, Status::Approved, tenant, r2),
        RecordLedger::transition_post(s2, s3, id, Status::Approved, tenant, r3),
        RecordLedger::transition_post(s3, s4, id, Status::Rejected, tenant, r4),
    ensures
        r2 == Ok::<Status, LedgerError>(Status::Approved),
        r3 == Ok::<Status, LedgerError>(Status::Approved),
        s3 == s2,
        s3.records()[id as int].status == Status::Approved,
        r4 == Err::<Status, LedgerError>(LedgerError::InvalidTransition),
        s4 == s3,
{
    assert(s1.records()[id as int] == s1.records().last());
}

/// Paying a fee a second time records no second payment: the second call
/// answers `AlreadyPaid` and changes nothing.
pub proof fn lemma_settle_twice(
    s0: RecordLedger,
    s1: RecordLedger,
    s2: RecordLedger,
    fee: usize,
    subject: Seq<char>,
    tenant: Seq<char>,
    amount: i64,
    method: Seq<char>,
    reference: Seq<char>,
    now1: i64,
    now2: i64,
    r1: Result<Settlement, LedgerError>,
    r2: Result<Settlement, LedgerError>,
)
    requires
        RecordLedger::settle_post(s0, s1, fee, subject, tenant, amount, method, reference, now1, r1),
        RecordLedger::settle_post(s1, s2, fee, subject, tenant, amount, method, reference, now2, r2),
        r1 is Ok,
    ensures
        r2 == Ok::<Settlement, LedgerError>(Settlement::AlreadyPaid),
        s2 == s1,
        s2.payments().len() <= s0.payments().len() + 1,
{
}

/// A transition on a record of another tenant gets the answer that an id
/// naming no record gets: `NotFound`, with nothing changed.
pub proof fn lemma_transition_foreign_record(
    old: RecordLedger,
    new: RecordLedger,
    id: usize,
    target: Status,
    tenant: Seq<char>,
    r: Result<Status, LedgerError>,
)
    requires
        id < old.records().len(),
        old.records()[id as int].tenant@ != tenant,
        RecordLedger::transition_post(old, new, id, target, tenant, r),
    ensures
        r == Err::<Status, LedgerError>(LedgerError::NotFound),
        new == old,
        !old.record_visible(id, tenant),
{
}

/// A payment against a fee of another tenant gets the answer that an id
/// naming no fee gets: `NotFound`, with nothing changed.
pub proof fn lemma_settle_foreign_fee(
    old: RecordLedger,
    new: RecordLedger,
    fee: usize,
    subject: Seq<char>,
    tenant: Seq<char>,
    amount: i64,
    method: Seq<char>,
    reference: Seq<char>,
    now: i64,
    r: Result<Settlement, LedgerError>,
)
    requires
        fee < old.records().len(),
        old.records()[fee as int].tenant@ != tenant,
        RecordLedger::settle_post(old, new, fee, subject, tenant, amount, method, reference, now, r),
    ensures
        r == Err::<Settlement, LedgerError>(LedgerError::NotFound),
        new == old,
{
}

} // verus!
