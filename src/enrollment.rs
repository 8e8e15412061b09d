//! Course enrollments: a student is enrolled in a course of a tenant at most once.
use vstd::prelude::*;

use crate::error::LedgerError;

verus! {

/// A student's enrollment in a course.
pub struct Enrollment {
    pub id: usize,
    pub student: String,
    pub course: String,
    pub semester: String,
    pub tenant: String,
    pub enrolled_at: i64,
}

impl Enrollment {
    /// A field-by-field copy.
    pub fn duplicate(&self) -> (r: Enrollment)
        ensures
            r == *self,
    {
        Enrollment {
            id: self.id,
            student: self.student.clone(),
            course: self.course.clone(),
            semester: self.semester.clone(),
            tenant: self.tenant.clone(),
            enrolled_at: self.enrolled_at,
        }
    }
}

/// `e` enrolls `student` in `course` of `tenant`.
pub open spec fn enrolls(e: Enrollment, student: Seq<char>, course: Seq<char>, tenant: Seq<char>) -> bool {
    e.student@ == student && e.course@ == course && e.tenant@ == tenant
}

/// The enrollments, identified by their position.
pub struct Enrollments {
    entries: Vec<Enrollment>,
}

impl Enrollments {
    /// The enrollments, in order of creation.
    pub closed spec fn entries(&self) -> Seq<Enrollment> {
        self.entries@
    }

    /// `student` is enrolled in `course` of `tenant`.
    pub open spec fn is_enrolled(&self, student: Seq<char>, course: Seq<char>, tenant: Seq<char>) -> bool {
        exists|i: int|
            0 <= i < self.entries().len() && enrolls(#[trigger] self.entries()[i], student, course, tenant)
    }

    /// No enrollment.
    pub fn new() -> (r: Enrollments)
        ensures
            r.entries().len() == 0,
    {
        Enrollments { entries: Vec::new() }
    }

    /// Enrolls `student` in `course` of `tenant` for `semester`, unless the
    /// student is already enrolled in that course.
    pub fn enroll(
        &mut self,
        student: &String,
        course: &String,
        semester: &String,
        tenant: &String,
        now: i64,
    ) -> (r: Result<usize, LedgerError>)
        ensures
            old(self).is_enrolled(student@, course@, tenant@) ==> r == Err::<usize, LedgerError>(
                LedgerError::DuplicateAllocation,
            ) && *final(self) == *old(self),
            !old(self).is_enrolled(student@, course@, tenant@) ==> {
                let e = final(self).entries().last();
                &&& r == Ok::<usize, LedgerError>(old(self).entries().len() as usize)
                &&& final(self).entries().len() == old(self).entries().len() + 1
                &&& final(self).entries().drop_last() == old(self).entries()
                &&& e.id == old(self).entries().len()
                &&& enrolls(e, student@, course@, tenant@)
                &&& e.semester@ == semester@
                &&& e.enrolled_at == now
            },
    {
        let mut i: usize = 0;
        while i < self.entries.len()
            invariant
                i <= self.entries@.len(),
                self.entries@ == old(self).entries@,
                forall|k: int|
                    0 <= k < i ==> !enrolls(#[trigger] self.entries@[k], student@, course@, tenant@),
            decreases self.entries@.len() - i,
        {
            let e = &self.entries[i];
            if e.student == *student && e.course == *course && e.tenant == *tenant {
                proof {
                    assert(enrolls(old(self).entries()[i as int], student@, course@, tenant@));
                }
                return Err(LedgerError::DuplicateAllocation);
            }
            i = i + 1;
        }
        let id = self.entries.len();
        self.entries.push(
            Enrollment {
                id,
                student: student.clone(),
                course: course.clone(),
                semester: semester.clone(),
                tenant: tenant.clone(),
                enrolled_at: now,
            },
        );
        assert(self.entries@.drop_last() =~= old(self).entries@);
        Ok(id)
    }

    /// The enrollments of `tenant`, in order of creation.
    pub fn enrollments_of(&self, tenant: &String) -> (r: Vec<Enrollment>)
        ensures
            r@ == self.entries().filter(|e: Enrollment| e.tenant@ == tenant@),
    {
        let ghost keep = |e: Enrollment| e.tenant@ == tenant@;
        let mut out: Vec<Enrollment> = Vec::new();
        let mut i: usize = 0;
        while i < self.entries.len()
            invariant
                i <= self.entries@.len(),
                out@ == self.entries@.subrange(0, i as int).filter(keep),
                keep == (|e: Enrollment| e.tenant@ == tenant@),
            decreases self.entries@.len() - i,
        {
            let ghost before = out@;
            if self.entries[i].tenant == *tenant {
                out.push(self.entries[i].duplicate());
            }
            proof {
                let next = self.entries@.subrange(0, i as int + 1);
                reveal(Seq::filter);
                assert(next.drop_last() =~= self.entries@.subrange(0, i as int));
                assert(next.last() == self.entries@[i as int]);
                assert(next.filter(keep) == if keep(next.last()) {
                    before.push(next.last())
                } else {
                    before
                });
            }
            i = i + 1;
        }
        assert(self.entries@.subrange(0, i as int) =~= self.entries@);
        out
    }
}

} // verus!
