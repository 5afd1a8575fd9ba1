//! The roster query engine: the read path.
//!
//! Two read modes, selected server-side by the principal's resolved role,
//! never by a client-supplied flag. The admin view returns every shift of
//! the organization with its full assignment list and a coloring flag; the
//! self view returns only the shifts on which the caller's own staff
//! identity holds an assignment. Both views project the same shift
//! attributes, so client code does not branch on role.

use vstd::prelude::*;
use crate::auth::AuthenticatedUser;
use crate::errors::ApiError;
use crate::store::{Store, Shift, StaffMember, Capability, resolve_role, spec_role};

verus! {

/// One entry of an admin view's assignment list.
#[derive(Debug)]
pub struct AssignedStaff {
    pub staff_id: u128,
    pub user_id: u128,
    pub first_name: String,
    pub last_name: String,
    pub org_title: String,
}

/// The derived coloring flag: whether at least one staff member is
/// assigned to the shift.
#[derive(Clone, Copy, Debug, PartialEq, Eq, Structural)]
pub enum ShiftColor {
    Assigned,
    Unassigned,
}

impl ShiftColor {
    /// The color name the interface shows for this flag.
    pub fn css_name(&self) -> (r: &'static str)
        ensures
            *self == ShiftColor::Assigned ==> r@ == "blue"@,
            *self == ShiftColor::Unassigned ==> r@ == "red"@,
    {
        match self {
            ShiftColor::Assigned => "blue",
            ShiftColor::Unassigned => "red",
        }
    }
}

/// The shift attributes both read modes project.
#[derive(Debug)]
pub struct ShiftDetails {
    pub id: u64,
    pub organization_id: u128,
    pub location_id: u128,
    pub start: i64,
    pub end: i64,
    pub rrule: String,
    pub notes: String,
    pub extended_props: String,
}

/// One row of the admin view: the shift, its coloring flag and its full
/// assignment list.
#[derive(Debug)]
pub struct AdminShiftView {
    pub details: ShiftDetails,
    pub color: ShiftColor,
    pub assigned: Vec<AssignedStaff>,
}

/// The projection both views share.
pub open spec fn details_of(s: Shift) -> ShiftDetails {
    ShiftDetails {
        id: s.id,
        organization_id: s.organization_id,
        location_id: s.location_id,
        start: s.start,
        end: s.end,
        rrule: s.rrule,
        notes: s.notes,
        extended_props: s.extended_props,
    }
}

/// The assignment-list entry for one staff row.
pub open spec fn assigned_view_of(m: StaffMember) -> AssignedStaff {
    AssignedStaff {
        staff_id: m.staff_id,
        user_id: m.user_id,
        first_name: m.first_name,
        last_name: m.last_name,
        org_title: m.title,
    }
}

/// The index of the staff row with this id (unique under the store's
/// invariant).
pub open spec fn spec_staff_index(staff: Seq<StaffMember>, sid: u128) -> int {
    choose|i: int| 0 <= i < staff.len() && (#[trigger] staff[i]).staff_id == sid
}

/// The admin view's assignment list of one shift: every staff member
/// currently assigned to it, in assignment order.
pub open spec fn spec_assigned_staff(store: Store, shift_id: u64) -> Seq<AssignedStaff> {
    store.assignments@.filter(|a: crate::store::Assignment| a.shift_id == shift_id).map_values(
        |a: crate::store::Assignment|
            assigned_view_of(store.staff@[spec_staff_index(store.staff@, a.staff_id)]),
    )
}

/// The caller's own staff identity holds an assignment on this shift.
pub open spec fn spec_user_assigned(store: Store, shift_id: u64, org: u128, user_id: u128) -> bool {
    exists|a: int, w: int|
        0 <= a < store.assignments@.len() && 0 <= w < store.staff@.len() && (
        #[trigger] store.assignments@[a]).shift_id == shift_id && (
        #[trigger] store.staff@[w]).staff_id == store.assignments@[a].staff_id
            && store.staff@[w].user_id == user_id && store.staff@[w].organization_id == org
}

/// Finds the index of the staff row with this id.
#[verifier::loop_isolation(false)]
fn find_staff_index(store: &Store, sid: u128) -> (r: Option<usize>)
    ensures
        r matches Some(i) ==> i < store.staff@.len() && store.staff@[i as int].staff_id == sid,
        r is None ==> !crate::store::staff_has_id(store.staff@, sid),
{
    let mut i: usize = 0;
    while i < store.staff.len()
        invariant
            0 <= i <= store.staff@.len(),
            forall|m: int| 0 <= m < i ==> (#[trigger] store.staff@[m]).staff_id != sid,
        decreases store.staff@.len() - i,
    {
        if store.staff[i].staff_id == sid {
            return Some(i);
        }
        i = i + 1;
    }
    None
}

/// Builds the assignment list of one shift for the admin view.
#[verifier::loop_isolation(false)]
#[verifier::rlimit(100)]
fn assigned_for_shift(store: &Store, shift_id: u64) -> (v: Vec<AssignedStaff>)
    requires
        store.wf(),
    ensures
        v@ == spec_assigned_staff(*store, shift_id),
{
    let ghost pred = |a: crate::store::Assignment| a.shift_id == shift_id;
    let ghost f = |a: crate::store::Assignment|
        assigned_view_of(store.staff@[spec_staff_index(store.staff@, a.staff_id)]);
    let mut v: Vec<AssignedStaff> = Vec::new();
    let mut a: usize = 0;
    while a < store.assignments.len()
        invariant
            0 <= a <= store.assignments@.len(),
            v@ == store.assignments@.subrange(0, a as int).filter(pred).map_values(f),
        decreases store.assignments@.len() - a,
    {
        let ghost prefix = store.assignments@.subrange(0, a as int);
        let asg = &store.assignments[a];
        if asg.shift_id == shift_id {
            match find_staff_index(store, asg.staff_id) {
                Some(w) => {
                    let m = &store.staff[w];
                    v.push(
                        AssignedStaff {
                            staff_id: m.staff_id,
                            user_id: m.user_id,
                            first_name: m.first_name.clone(),
                            last_name: m.last_name.clone(),
                            org_title: m.title.clone(),
                        },
                    );
                    proof {
                        let c = spec_staff_index(store.staff@, asg.staff_id);
                        assert(store.staff@[w as int].staff_id == asg.staff_id);
                        assert(0 <= c < store.staff@.len() && store.staff@[c].staff_id
                            == asg.staff_id);
                        if c != w {
                            assert(false);
                        }
                    }
                },
                None => {
                    proof {
                        assert(crate::store::staff_has_id(store.staff@, asg.staff_id));
                        assert(false);
                    }
                },
            }
        }
        proof {
            reveal(Seq::filter);
            let next = store.assignments@.subrange(0, a + 1 as int);
            assert(next =~= prefix.push(store.assignments@[a as int]));
            assert(next.drop_last() =~= prefix);
            assert(next.filter(pred).map_values(f) =~= (if pred(store.assignments@[a as int]) {
                prefix.filter(pred).map_values(f).push(f(store.assignments@[a as int]))
            } else {
                prefix.filter(pred).map_values(f)
            }));
        }
        a = a + 1;
    }
    proof {
        assert(store.assignments@.subrange(0, store.assignments@.len() as int)
            =~= store.assignments@);
    }
    v
}

/// The shifts of the organization, in store order.
pub open spec fn spec_org_shifts(store: Store, org: u128) -> Seq<Shift> {
    store.shifts@.filter(|s: Shift| s.organization_id == org)
}

/// The admin view of an organization's roster. Admin-only: a caller who is
/// not an organization administrator — a non-member above all — is
/// `Forbidden` and gets no data. Every shift of the organization comes
/// back, each with its full assignment list and its coloring flag, which is
/// `Assigned` exactly when at least one staff member is assigned.
#[verifier::loop_isolation(false)]
#[verifier::rlimit(100)]
pub fn get_org_shifts(store: &Store, organization_id: u128, caller: &AuthenticatedUser) -> (r:
    Result<Vec<AdminShiftView>, ApiError>)
    requires
        store.wf(),
    ensures
        spec_role(*store, organization_id, caller.id) != Some(Capability::Admin) ==> r == Err::<
            Vec<AdminShiftView>,
            ApiError,
        >(ApiError::Forbidden),
        spec_role(*store, organization_id, caller.id) == Some(Capability::Admin) ==> (r matches Ok(
            v,
        ) && v@.len() == spec_org_shifts(*store, organization_id).len() && (forall|m: int|
            0 <= m < v@.len() ==> {
                let sh = spec_org_shifts(*store, organization_id)[m];
                &&& (#[trigger] v@[m]).details == details_of(sh)
                &&& v@[m].assigned@ == spec_assigned_staff(*store, sh.id)
                &&& (v@[m].color == ShiftColor::Assigned <==> spec_assigned_staff(
                    *store,
                    sh.id,
                ).len() > 0)
            })),
{
    match resolve_role(store, organization_id, caller.id) {
        Ok(Capability::Admin) => {},
        Ok(Capability::Member) => {
            return Err(ApiError::Forbidden);
        },
        Err(e) => {
            return Err(e);
        },
    }
    let ghost pred = |s: Shift| s.organization_id == organization_id;
    let mut v: Vec<AdminShiftView> = Vec::new();
    let mut i: usize = 0;
    while i < store.shifts.len()
        invariant
            0 <= i <= store.shifts@.len(),
            v@.len() == store.shifts@.subrange(0, i as int).filter(pred).len(),
            forall|m: int|
                0 <= m < v@.len() ==> {
                    let sh = store.shifts@.subrange(0, i as int).filter(pred)[m];
                    &&& (#[trigger] v@[m]).details == details_of(sh)
                    &&& v@[m].assigned@ == spec_assigned_staff(*store, sh.id)
                    &&& (v@[m].color == ShiftColor::Assigned <==> spec_assigned_staff(
                        *store,
                        sh.id,
                    ).len() > 0)
                },
        decreases store.shifts@.len() - i,
    {
        let ghost prefix = store.shifts@.subrange(0, i as int);
        let sh = &store.shifts[i];
        if sh.organization_id == organization_id {
            let assigned = assigned_for_shift(store, sh.id);
            let color = if assigned.len() > 0 {
                ShiftColor::Assigned
            } else {
                ShiftColor::Unassigned
            };
            v.push(
                AdminShiftView {
                    details: ShiftDetails {
                        id: sh.id,
                        organization_id: sh.organization_id,
                        location_id: sh.location_id,
                        start: sh.start,
                        end: sh.end,
                        rrule: sh.rrule.clone(),
                        notes: sh.notes.clone(),
                        extended_props: sh.extended_props.clone(),
                    },
                    color,
                    assigned,
                },
            );
        }
        proof {
            reveal(Seq::filter);
            let next = store.shifts@.subrange(0, i + 1 as int);
            assert(next =~= prefix.push(store.shifts@[i as int]));
            assert(next.drop_last() =~= prefix);
        }
        i = i + 1;
    }
    proof {
        assert(store.shifts@.subrange(0, store.shifts@.len() as int) =~= store.shifts@);
    }
    Ok(v)
}

/// Checks whether the caller's staff identity is assigned to the shift.
#[verifier::loop_isolation(false)]
fn user_is_assigned(store: &Store, shift_id: u64, org: u128, user_id: u128) -> (r: bool)
    requires
        store.wf(),
    ensures
        r == spec_user_assigned(*store, shift_id, org, user_id),
{
    let mut a: usize = 0;
    while a < store.assignments.len()
        invariant
            0 <= a <= store.assignments@.len(),
            forall|m: int, w: int|
                0 <= m < a && 0 <= w < store.staff@.len() ==> !((
                #[trigger] store.assignments@[m]).shift_id == shift_id && (
                #[trigger] store.staff@[w]).staff_id == store.assignments@[m].staff_id
                    && store.staff@[w].user_id == user_id && store.staff@[w].organization_id
                    == org),
        decreases store.assignments@.len() - a,
    {
        let asg = &store.assignments[a];
        if asg.shift_id == shift_id {
            match find_staff_index(store, asg.staff_id) {
                Some(w) => {
                    let m = &store.staff[w];
                    if m.user_id == user_id && m.organization_id == org {
                        return true;
                    }
                    proof {
                        assert forall|w2: int|
                            0 <= w2 < store.staff@.len() && (#[trigger] store.staff@[w2]).staff_id
                                == store.assignments@[a as int].staff_id implies w2
                            == w as int by {}
                    }
                },
                None => {
                    proof {
                        assert(crate::store::staff_has_id(store.staff@, asg.staff_id));
                        assert(false);
                    }
                },
            }
        }
        a = a + 1;
    }
    false
}

/// The self view: only the shifts of this organization on which the
/// caller's own staff identity holds an assignment, projected exactly as
/// the admin view projects shifts, and with no one else's assignments
/// exposed. Any member may call it; a non-member is `Forbidden`.
#[verifier::loop_isolation(false)]
#[verifier::rlimit(100)]
pub fn get_user_org_shifts(store: &Store, organization_id: u128, caller: &AuthenticatedUser) -> (r:
    Result<Vec<ShiftDetails>, ApiError>)
    requires
        store.wf(),
    ensures
        spec_role(*store, organization_id, caller.id) is None ==> r == Err::<
            Vec<ShiftDetails>,
            ApiError,
        >(ApiError::Forbidden),
        spec_role(*store, organization_id, caller.id) is Some ==> (r matches Ok(v) && v@
            == store.shifts@.filter(
            |s: Shift|
                s.organization_id == organization_id && spec_user_assigned(
                    *store,
                    s.id,
                    organization_id,
                    caller.id,
                ),
        ).map_values(|s: Shift| details_of(s))),
{
    match resolve_role(store, organization_id, caller.id) {
        Ok(_) => {},
        Err(e) => {
            return Err(e);
        },
    }
    let ghost pred = |s: Shift|
        s.organization_id == organization_id && spec_user_assigned(
            *store,
            s.id,
            organization_id,
            caller.id,
        );
    let ghost f = |s: Shift| details_of(s);
    let mut v: Vec<ShiftDetails> = Vec::new();
    let mut i: usize = 0;
    while i < store.shifts.len()
        invariant
            0 <= i <= store.shifts@.len(),
            v@ == store.shifts@.subrange(0, i as int).filter(pred).map_values(f),
        decreases store.shifts@.len() - i,
    {
        let ghost prefix = store.shifts@.subrange(0, i as int);
        let sh = &store.shifts[i];
        if sh.organization_id == organization_id && user_is_assigned(
            store,
            sh.id,
            organization_id,
            caller.id,
        ) {
            v.push(
                ShiftDetails {
                    id: sh.id,
                    organization_id: sh.organization_id,
                    location_id: sh.location_id,
                    start: sh.start,
                    end: sh.end,
                    rrule: sh.rrule.clone(),
                    notes: sh.notes.clone(),
                    extended_props: sh.extended_props.clone(),
                },
            );
        }
        proof {
            reveal(Seq::filter);
            let next = store.shifts@.subrange(0, i + 1 as int);
            assert(next =~= prefix.push(store.shifts@[i as int]));
            assert(next.drop_last() =~= prefix);
            assert(next.filter(pred).map_values(f) =~= (if pred(store.shifts@[i as int]) {
                prefix.filter(pred).map_values(f).push(f(store.shifts@[i as int]))
            } else {
                prefix.filter(pred).map_values(f)
            }));
        }
        i = i + 1;
    }
    proof {
        assert(store.shifts@.subrange(0, store.shifts@.len() as int) =~= store.shifts@);
    }
    Ok(v)
}

/// One member's role facts within one organization, as the membership
/// lookup returns them.
pub fn get_org_user(store: &Store, organization_id: u128, user_id: u128) -> (r: Result<
    StaffMember,
    ApiError,
>)
    requires
        store.wf(),
    ensures
        match crate::store::spec_membership(*store, organization_id, user_id) {
            Some(i) => r == Ok::<StaffMember, ApiError>(store.staff@[i]),
            None => r == Err::<StaffMember, ApiError>(ApiError::Persistence),
        },
{
    let mut i: usize = 0;
    while i < store.staff.len()
        invariant
            0 <= i <= store.staff@.len(),
            store.wf(),
            forall|m: int|
                0 <= m < i ==> !((#[trigger] store.staff@[m]).organization_id == organization_id
                    && store.staff@[m].user_id == user_id),
        decreases store.staff@.len() - i,
    {
        let s = &store.staff[i];
        if s.organization_id == organization_id && s.user_id == user_id {
            proof {
                let w = choose|w: int|
                    0 <= w < store.staff@.len() && (#[trigger] store.staff@[w]).organization_id
                        == organization_id && store.staff@[w].user_id == user_id;
                if w != i {
                    assert(false);
                }
            }
            return Ok(
                StaffMember {
                    staff_id: s.staff_id,
                    user_id: s.user_id,
                    organization_id: s.organization_id,
                    admin: s.admin,
                    first_name: s.first_name.clone(),
                    last_name: s.last_name.clone(),
                    title: s.title.clone(),
                },
            );
        }
        i = i + 1;
    }
    Err(ApiError::Persistence)
}

} // verus!
