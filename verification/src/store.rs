//! The scheduling store: staff memberships, shifts and assignments, with the
//! invariants every write must preserve, and the membership lookup that
//! resolves a principal's capability within an organization.

use vstd::prelude::*;
use crate::errors::ApiError;

verus! {

/// One staff membership row: a user's role facts within one organization.
/// `admin` models whether administration was assigned to this member.
#[derive(Debug)]
pub struct StaffMember {
    pub staff_id: u128,
    pub user_id: u128,
    pub organization_id: u128,
    pub admin: bool,
    pub first_name: String,
    pub last_name: String,
    pub title: String,
}

/// One persisted shift. `rrule` is provenance only and is never
/// re-evaluated after materialization; `extended_props` is an opaque
/// pass-through carried for clients.
#[derive(Debug)]
pub struct Shift {
    pub id: u64,
    pub organization_id: u128,
    pub location_id: u128,
    pub start: i64,
    pub end: i64,
    pub rrule: String,
    pub notes: String,
    pub extended_props: String,
}

/// One staff-to-shift assignment row; the pair is unique.
#[derive(Clone, Copy, Debug, PartialEq, Eq, Structural)]
pub struct Assignment {
    pub shift_id: u64,
    pub staff_id: u128,
}

/// The store the materializer, the validator and the roster queries work
/// against.
pub struct Store {
    pub staff: Vec<StaffMember>,
    pub shifts: Vec<Shift>,
    pub assignments: Vec<Assignment>,
    pub next_shift_id: u64,
}

/// Two half-open intervals `[s1, e1)` and `[s2, e2)` share an instant.
pub open spec fn overlaps(s1: int, e1: int, s2: int, e2: int) -> bool {
    s1 < e2 && s2 < e1
}

/// Some staff row carries this staff id.
pub open spec fn staff_has_id(staff: Seq<StaffMember>, sid: u128) -> bool {
    exists|i: int| 0 <= i < staff.len() && (#[trigger] staff[i]).staff_id == sid
}

/// Some shift row carries this shift id.
pub open spec fn shifts_have_id(shifts: Seq<Shift>, id: u64) -> bool {
    exists|i: int| 0 <= i < shifts.len() && (#[trigger] shifts[i]).id == id
}

/// A row found in a prefix is still found after rows are appended.
pub proof fn lemma_staff_has_id_extend(pre: Seq<StaffMember>, post: Seq<StaffMember>, sid: u128)
    requires
        staff_has_id(pre, sid),
        pre.len() <= post.len(),
        forall|i: int| 0 <= i < pre.len() ==> post[i] == pre[i],
    ensures
        staff_has_id(post, sid),
{
    let w = choose|i: int| 0 <= i < pre.len() && (#[trigger] pre[i]).staff_id == sid;
    assert(post[w].staff_id == sid);
}

/// A shift found in a prefix is still found after rows are appended.
pub proof fn lemma_shifts_have_id_extend(pre: Seq<Shift>, post: Seq<Shift>, id: u64)
    requires
        shifts_have_id(pre, id),
        pre.len() <= post.len(),
        forall|i: int| 0 <= i < pre.len() ==> post[i] == pre[i],
    ensures
        shifts_have_id(post, id),
{
    let w = choose|i: int| 0 <= i < pre.len() && (#[trigger] pre[i]).id == id;
    assert(post[w].id == id);
}

impl Store {
    /// Shift identifiers are unique and below the allocation cursor, and
    /// every shift interval is nonempty.
    pub open spec fn shifts_wf(self) -> bool {
        &&& forall|i: int, j: int|
            0 <= i < j < self.shifts@.len() ==> (#[trigger] self.shifts@[i]).id
                != (#[trigger] self.shifts@[j]).id
        &&& forall|i: int|
            0 <= i < self.shifts@.len() ==> (#[trigger] self.shifts@[i]).id < self.next_shift_id
        &&& forall|i: int|
            0 <= i < self.shifts@.len() ==> (#[trigger] self.shifts@[i]).start
                < self.shifts@[i].end
    }

    /// Staff identifiers are unique, and so is each (organization, user)
    /// membership pair.
    pub open spec fn staff_wf(self) -> bool {
        &&& forall|i: int, j: int|
            0 <= i < j < self.staff@.len() ==> (#[trigger] self.staff@[i]).staff_id
                != (#[trigger] self.staff@[j]).staff_id
        &&& forall|i: int, j: int|
            0 <= i < j < self.staff@.len() ==> !((#[trigger] self.staff@[i]).organization_id
                == (#[trigger] self.staff@[j]).organization_id && self.staff@[i].user_id
                == self.staff@[j].user_id)
    }

    /// Assignment pairs are unique and reference an existing shift and an
    /// existing staff member.
    pub open spec fn assignments_wf(self) -> bool {
        &&& forall|a: int, b: int|
            0 <= a < b < self.assignments@.len() ==> !((#[trigger] self.assignments@[a]).shift_id
                == (#[trigger] self.assignments@[b]).shift_id && self.assignments@[a].staff_id
                == self.assignments@[b].staff_id)
        &&& forall|a: int|
            0 <= a < self.assignments@.len() ==> shifts_have_id(
                self.shifts@,
                (#[trigger] self.assignments@[a]).shift_id,
            )
        &&& forall|a: int|
            0 <= a < self.assignments@.len() ==> staff_has_id(
                self.staff@,
                (#[trigger] self.assignments@[a]).staff_id,
            )
    }

    /// No staff member holds two assignments whose shift intervals overlap.
    pub open spec fn no_overlapping_assignments(self) -> bool {
        forall|a: int, b: int, i: int, j: int|
            {
                &&& 0 <= a < self.assignments@.len()
                &&& 0 <= b < self.assignments@.len()
                &&& a != b
                &&& (#[trigger] self.assignments@[a]).staff_id
                    == (#[trigger] self.assignments@[b]).staff_id
                &&& 0 <= i < self.shifts@.len()
                &&& 0 <= j < self.shifts@.len()
                &&& (#[trigger] self.shifts@[i]).id == self.assignments@[a].shift_id
                &&& (#[trigger] self.shifts@[j]).id == self.assignments@[b].shift_id
            } ==> !overlaps(
                self.shifts@[i].start as int,
                self.shifts@[i].end as int,
                self.shifts@[j].start as int,
                self.shifts@[j].end as int,
            )
    }

    /// The store's full invariant: constructors establish it and every
    /// operation preserves it.
    pub open spec fn wf(self) -> bool {
        &&& self.shifts_wf()
        &&& self.staff_wf()
        &&& self.assignments_wf()
        &&& self.no_overlapping_assignments()
    }

    /// An empty store, before any row exists.
    pub fn new() -> (s: Store)
        ensures
            s.wf(),
            s.staff@.len() == 0,
            s.shifts@.len() == 0,
            s.assignments@.len() == 0,
            s.next_shift_id == 1,
    {
        Store { staff: Vec::new(), shifts: Vec::new(), assignments: Vec::new(), next_shift_id: 1 }
    }

    /// Whether the membership row may be added: neither its staff id nor
    /// its (organization, user) pair is taken yet.
    pub open spec fn spec_staff_addable(self, member: StaffMember) -> bool {
        forall|i: int|
            0 <= i < self.staff@.len() ==> (#[trigger] self.staff@[i]).staff_id != member.staff_id
                && !(self.staff@[i].organization_id == member.organization_id
                && self.staff@[i].user_id == member.user_id)
    }

    fn check_staff_addable(&self, member: &StaffMember) -> (r: bool)
        ensures
            r == self.spec_staff_addable(*member),
    {
        let mut i: usize = 0;
        while i < self.staff.len()
            invariant
                0 <= i <= self.staff@.len(),
                forall|m: int|
                    0 <= m < i ==> (#[trigger] self.staff@[m]).staff_id != member.staff_id && !(
                    self.staff@[m].organization_id == member.organization_id
                        && self.staff@[m].user_id == member.user_id),
            decreases self.staff@.len() - i,
        {
            let s = &self.staff[i];
            if s.staff_id == member.staff_id || (s.organization_id == member.organization_id
                && s.user_id == member.user_id) {
                return false;
            }
            i = i + 1;
        }
        true
    }

    /// Adds a staff membership row. Rejected (`None`, store unchanged) when
    /// the staff id or the (organization, user) pair is already present.
    pub fn add_staff(&mut self, member: StaffMember) -> (r: Option<()>)
        requires
            old(self).wf(),
        ensures
            final(self).wf(),
            final(self).shifts@ == old(self).shifts@,
            final(self).assignments@ == old(self).assignments@,
            final(self).next_shift_id == old(self).next_shift_id,
            r is Some ==> final(self).staff@ == old(self).staff@.push(member),
            r is None ==> *final(self) == *old(self),
            r is Some <==> old(self).spec_staff_addable(member),
    {
        if !self.check_staff_addable(&member) {
            return None;
        }
        self.staff.push(member);
        proof {
            assert forall|a: int| 0 <= a < self.assignments@.len() implies staff_has_id(
                self.staff@,
                (#[trigger] self.assignments@[a]).staff_id,
            ) by {
                lemma_staff_has_id_extend(
                    old(self).staff@,
                    self.staff@,
                    self.assignments@[a].staff_id,
                );
            }
        }
        Some(())
    }

    /// Whether some staff row has this staff id within this organization.
    pub open spec fn spec_is_org_staff(self, organization_id: u128, staff_id: u128) -> bool {
        exists|i: int|
            0 <= i < self.staff@.len() && (#[trigger] self.staff@[i]).staff_id == staff_id
                && self.staff@[i].organization_id == organization_id
    }

    /// Checks that `staff_id` is a member of the organization.
    pub fn is_org_staff(&self, organization_id: u128, staff_id: u128) -> (r: bool)
        ensures
            r == self.spec_is_org_staff(organization_id, staff_id),
    {
        let mut i: usize = 0;
        while i < self.staff.len()
            invariant
                0 <= i <= self.staff@.len(),
                forall|m: int|
                    0 <= m < i ==> !((#[trigger] self.staff@[m]).staff_id == staff_id
                        && self.staff@[m].organization_id == organization_id),
            decreases self.staff@.len() - i,
        {
            let s = &self.staff[i];
            if s.staff_id == staff_id && s.organization_id == organization_id {
                return true;
            }
            i = i + 1;
        }
        false
    }

    /// No overlap between the shifts of the two assignment rows, whenever
    /// they belong to the same staff member.
    pub open spec fn no_overlap_between(self, a: int, b: int) -> bool {
        forall|i: int, j: int|
            0 <= i < self.shifts@.len() && 0 <= j < self.shifts@.len() && (
            #[trigger] self.shifts@[i]).id == self.assignments@[a].shift_id && (
            #[trigger] self.shifts@[j]).id == self.assignments@[b].shift_id
                && self.assignments@[a].staff_id == self.assignments@[b].staff_id ==> !overlaps(
                self.shifts@[i].start as int,
                self.shifts@[i].end as int,
                self.shifts@[j].start as int,
                self.shifts@[j].end as int,
            )
    }

    /// Every ordered assignment pair below `n` has been found overlap-free.
    pub open spec fn no_overlaps_checked(self, n: int) -> bool {
        forall|a: int, b: int| 0 <= a < b < n ==> self.no_overlap_between(a, b)
    }

    fn find_shift(&self, id: u64) -> (r: Option<usize>)
        ensures
            r matches Some(i) ==> i < self.shifts@.len() && self.shifts@[i as int].id == id,
            r is None ==> !shifts_have_id(self.shifts@, id),
    {
        let mut i: usize = 0;
        while i < self.shifts.len()
            invariant
                0 <= i <= self.shifts@.len(),
                forall|m: int| 0 <= m < i ==> (#[trigger] self.shifts@[m]).id != id,
            decreases self.shifts@.len() - i,
        {
            if self.shifts[i].id == id {
                return Some(i);
            }
            i = i + 1;
        }
        None
    }

    fn has_staff(&self, sid: u128) -> (r: bool)
        ensures
            r == staff_has_id(self.staff@, sid),
    {
        let mut i: usize = 0;
        while i < self.staff.len()
            invariant
                0 <= i <= self.staff@.len(),
                forall|m: int| 0 <= m < i ==> (#[trigger] self.staff@[m]).staff_id != sid,
            decreases self.staff@.len() - i,
        {
            if self.staff[i].staff_id == sid {
                return true;
            }
            i = i + 1;
        }
        false
    }

    #[verifier::loop_isolation(false)]
    fn check_shifts_wf(&self) -> (r: bool)
        ensures
            r == self.shifts_wf(),
    {
        let mut i: usize = 0;
        while i < self.shifts.len()
            invariant
                0 <= i <= self.shifts@.len(),
                forall|m: int|
                    0 <= m < i ==> (#[trigger] self.shifts@[m]).id < self.next_shift_id
                        && self.shifts@[m].start < self.shifts@[m].end,
                forall|m1: int, m2: int|
                    0 <= m1 < m2 < self.shifts@.len() && m1 < i ==> (
                    #[trigger] self.shifts@[m1]).id != (#[trigger] self.shifts@[m2]).id,
            decreases self.shifts@.len() - i,
        {
            let sh = &self.shifts[i];
            if !(sh.id < self.next_shift_id && sh.start < sh.end) {
                return false;
            }
            let mut j: usize = i + 1;
            while j < self.shifts.len()
                invariant
                    i < j <= self.shifts@.len(),
                    i < self.shifts@.len(),
                    forall|m: int|
                        i < m < j ==> (#[trigger] self.shifts@[m]).id != self.shifts@[i as int].id,
                decreases self.shifts@.len() - j,
            {
                if self.shifts[j].id == self.shifts[i].id {
                    return false;
                }
                j = j + 1;
            }
            i = i + 1;
        }
        true
    }

    #[verifier::loop_isolation(false)]
    fn check_staff_wf(&self) -> (r: bool)
        ensures
            r == self.staff_wf(),
    {
        let mut i: usize = 0;
        while i < self.staff.len()
            invariant
                0 <= i <= self.staff@.len(),
                forall|m1: int, m2: int|
                    0 <= m1 < m2 < self.staff@.len() && m1 < i ==> (
                    #[trigger] self.staff@[m1]).staff_id != (#[trigger] self.staff@[m2]).staff_id
                        && !(self.staff@[m1].organization_id == self.staff@[m2].organization_id
                        && self.staff@[m1].user_id == self.staff@[m2].user_id),
            decreases self.staff@.len() - i,
        {
            let mut j: usize = i + 1;
            while j < self.staff.len()
                invariant
                    i < j <= self.staff@.len(),
                    i < self.staff@.len(),
                    forall|m: int|
                        i < m < j ==> (#[trigger] self.staff@[m]).staff_id
                            != self.staff@[i as int].staff_id && !(self.staff@[m].organization_id
                            == self.staff@[i as int].organization_id && self.staff@[m].user_id
                            == self.staff@[i as int].user_id),
                decreases self.staff@.len() - j,
            {
                let a = &self.staff[i];
                let b = &self.staff[j];
                if a.staff_id == b.staff_id || (a.organization_id == b.organization_id && a.user_id
                    == b.user_id) {
                    return false;
                }
                j = j + 1;
            }
            i = i + 1;
        }
        true
    }

    #[verifier::loop_isolation(false)]
    fn check_assignments_wf(&self) -> (r: bool)
        ensures
            r == self.assignments_wf(),
    {
        let mut a: usize = 0;
        while a < self.assignments.len()
            invariant
                0 <= a <= self.assignments@.len(),
                forall|m: int|
                    0 <= m < a ==> shifts_have_id(
                        self.shifts@,
                        (#[trigger] self.assignments@[m]).shift_id,
                    ) && staff_has_id(self.staff@, self.assignments@[m].staff_id),
                forall|m1: int, m2: int|
                    0 <= m1 < m2 < self.assignments@.len() && m1 < a ==> !((
                    #[trigger] self.assignments@[m1]).shift_id == (
                    #[trigger] self.assignments@[m2]).shift_id && self.assignments@[m1].staff_id
                        == self.assignments@[m2].staff_id),
            decreases self.assignments@.len() - a,
        {
            let row = &self.assignments[a];
            if self.find_shift(row.shift_id).is_none() {
                return false;
            }
            if !self.has_staff(row.staff_id) {
                return false;
            }
            let mut b: usize = a + 1;
            while b < self.assignments.len()
                invariant
                    a < b <= self.assignments@.len(),
                    a < self.assignments@.len(),
                    forall|m: int|
                        a < m < b ==> !((#[trigger] self.assignments@[m]).shift_id
                            == self.assignments@[a as int].shift_id && self.assignments@[m].staff_id
                            == self.assignments@[a as int].staff_id),
                decreases self.assignments@.len() - b,
            {
                let other = &self.assignments[b];
                if other.shift_id == row.shift_id && other.staff_id == row.staff_id {
                    return false;
                }
                b = b + 1;
            }
            a = a + 1;
        }
        true
    }

    #[verifier::loop_isolation(false)]
    #[verifier::rlimit(100)]
    fn check_no_overlaps(&self) -> (r: bool)
        requires
            self.shifts_wf(),
            self.assignments_wf(),
        ensures
            r == self.no_overlapping_assignments(),
    {
        let mut b: usize = 0;
        while b < self.assignments.len()
            invariant
                0 <= b <= self.assignments@.len(),
                self.no_overlaps_checked(b as int),
            decreases self.assignments@.len() - b,
        {
            let mut a: usize = 0;
            while a < b
                invariant
                    0 <= a <= b < self.assignments@.len(),
                    self.no_overlaps_checked(b as int),
                    forall|m: int| 0 <= m < a ==> self.no_overlap_between(m, b as int),
                decreases b - a,
            {
                let ra = &self.assignments[a];
                let rb = &self.assignments[b];
                if ra.staff_id == rb.staff_id {
                    let ia = match self.find_shift(ra.shift_id) {
                        Some(i) => i,
                        None => {
                            proof {
                                assert(shifts_have_id(self.shifts@, ra.shift_id));
                                assert(false);
                            }
                            return false;
                        },
                    };
                    let ib = match self.find_shift(rb.shift_id) {
                        Some(i) => i,
                        None => {
                            proof {
                                assert(shifts_have_id(self.shifts@, rb.shift_id));
                                assert(false);
                            }
                            return false;
                        },
                    };
                    let sa = &self.shifts[ia];
                    let sb = &self.shifts[ib];
                    if sa.start < sb.end && sb.start < sa.end {
                        proof {
                            assert(!self.no_overlapping_assignments());
                        }
                        return false;
                    }
                    proof {
                        assert forall|i: int, j: int|
                            0 <= i < self.shifts@.len() && 0 <= j < self.shifts@.len() && (
                            #[trigger] self.shifts@[i]).id == self.assignments@[a as int].shift_id
                                && (#[trigger] self.shifts@[j]).id
                                == self.assignments@[b as int].shift_id
                                && self.assignments@[a as int].staff_id
                                == self.assignments@[b as int].staff_id implies !overlaps(
                            self.shifts@[i].start as int,
                            self.shifts@[i].end as int,
                            self.shifts@[j].start as int,
                            self.shifts@[j].end as int,
                        ) by {
                            if i != ia as int {
                                if i < ia as int {
                                    assert(self.shifts@[i].id != self.shifts@[ia as int].id);
                                } else {
                                    assert(self.shifts@[ia as int].id != self.shifts@[i].id);
                                }
                            }
                            if j != ib as int {
                                if j < ib as int {
                                    assert(self.shifts@[j].id != self.shifts@[ib as int].id);
                                } else {
                                    assert(self.shifts@[ib as int].id != self.shifts@[j].id);
                                }
                            }
                        }
                        assert(self.no_overlap_between(a as int, b as int));
                    }
                } else {
                    proof {
                        assert(self.no_overlap_between(a as int, b as int));
                    }
                }
                a = a + 1;
            }
            b = b + 1;
        }
        proof {
            assert forall|a: int, c: int, i: int, j: int|
                {
                    &&& 0 <= a < self.assignments@.len()
                    &&& 0 <= c < self.assignments@.len()
                    &&& a != c
                    &&& (#[trigger] self.assignments@[a]).staff_id == (
                    #[trigger] self.assignments@[c]).staff_id
                    &&& 0 <= i < self.shifts@.len()
                    &&& 0 <= j < self.shifts@.len()
                    &&& (#[trigger] self.shifts@[i]).id == self.assignments@[a].shift_id
                    &&& (#[trigger] self.shifts@[j]).id == self.assignments@[c].shift_id
                } implies !overlaps(
                self.shifts@[i].start as int,
                self.shifts@[i].end as int,
                self.shifts@[j].start as int,
                self.shifts@[j].end as int,
            ) by {
                if a < c {
                    assert(self.no_overlap_between(a, c));
                } else {
                    assert(self.no_overlap_between(c, a));
                }
            }
        }
        true
    }

    /// Checks the whole store invariant executably, for data loaded from
    /// outside: `true` exactly when `wf()` holds.
    pub fn check_wf(&self) -> (r: bool)
        ensures
            r == self.wf(),
    {
        self.check_shifts_wf() && self.check_staff_wf() && self.check_assignments_wf()
            && self.check_no_overlaps()
    }

}

/// What the guard resolves a member to: organization administrators see the
/// full roster, ordinary members only themselves.
#[derive(Clone, Copy, Debug, PartialEq, Eq, Structural)]
pub enum Capability {
    Admin,
    Member,
}

/// The membership row index of `user_id` within `organization_id`, if any.
pub open spec fn spec_membership(store: Store, organization_id: u128, user_id: u128) -> Option<
    int,
> {
    if exists|i: int|
        0 <= i < store.staff@.len() && (#[trigger] store.staff@[i]).organization_id
            == organization_id && store.staff@[i].user_id == user_id {
        Some(
            choose|i: int|
                0 <= i < store.staff@.len() && (#[trigger] store.staff@[i]).organization_id
                    == organization_id && store.staff@[i].user_id == user_id,
        )
    } else {
        None
    }
}

/// The capability the principal holds in the organization, per the single
/// membership lookup keyed by (organization, user).
pub open spec fn spec_role(store: Store, organization_id: u128, user_id: u128) -> Option<
    Capability,
> {
    match spec_membership(store, organization_id, user_id) {
        None => None,
        Some(i) => if store.staff@[i].admin {
            Some(Capability::Admin)
        } else {
            Some(Capability::Member)
        },
    }
}

/// Resolves the principal's capability within the target organization: a
/// single lookup keyed by (organization, user). Absence of membership is
/// `Forbidden`.
pub fn resolve_role(store: &Store, organization_id: u128, user_id: u128) -> (r: Result<
    Capability,
    ApiError,
>)
    requires
        store.wf(),
    ensures
        match spec_role(*store, organization_id, user_id) {
            Some(c) => r == Ok::<Capability, ApiError>(c),
            None => r == Err::<Capability, ApiError>(ApiError::Forbidden),
        },
{
    let mut i: usize = 0;
    while i < store.staff.len()
        invariant
            0 <= i <= store.staff@.len(),
            store.wf(),
            forall|m: int|
                0 <= m < i ==> !((#[trigger] store.staff@[m]).organization_id == organization_id
                    && store.staff@[m].user_id == user_id),
        decreases store.staff@.len() - i,
    {
        let s = &store.staff[i];
        if s.organization_id == organization_id && s.user_id == user_id {
            proof {
                let w = choose|w: int|
                    0 <= w < store.staff@.len() && (#[trigger] store.staff@[w]).organization_id
                        == organization_id && store.staff@[w].user_id == user_id;
                if w != i {
                    assert(false);
                }
            }
            if s.admin {
                return Ok(Capability::Admin);
            } else {
                return Ok(Capability::Member);
            }
        }
        i = i + 1;
    }
    Err(ApiError::Forbidden)
}

} // verus!
