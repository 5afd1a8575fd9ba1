//! The shift materializer and the staff assignment validator.
//!
//! A creation request is expanded into occurrences, checked as a whole —
//! template interval, rule syntax, staff membership, assignment conflicts —
//! and then committed as a single atomic unit: either every occurrence
//! becomes a shift and every requested staff assignment is recorded, or the
//! store is left exactly as it was. Atomicity is at the request level: one
//! conflicting occurrence invalidates the whole recurring series.

use vstd::prelude::*;
use crate::errors::{ApiError, ValidationFault};
use crate::recur::{spec_parse_rrule, spec_expand, parse_rrule, expand, MAX_TIMESTAMP, MIN_TIMESTAMP, RecurrenceRule};
use crate::store::{Store, Shift, Assignment, overlaps, resolve_role, spec_role};
use crate::auth::AuthenticatedUser;
use vstd::utf8::encode_utf8;

verus! {

/// The creation request body: organization, location, template interval,
/// notes and extended properties, recurrence rule, and the staff requested
/// for every occurrence.
pub struct ShiftPayload {
    pub organization_id: u128,
    pub location_id: u128,
    pub start_time: i64,
    pub end_time: i64,
    pub notes: String,
    pub rrule: String,
    pub extended_props: String,
    pub assigned_staff: Vec<u128>,
}

/// The rule the payload's rule string denotes, if it is valid.
pub open spec fn rule_of_payload(p: ShiftPayload) -> Option<RecurrenceRule> {
    spec_parse_rrule(encode_utf8(p.rrule@))
}

/// The occurrence intervals the payload expands to; empty when the rule is
/// invalid.
pub open spec fn occs_of_payload(p: ShiftPayload) -> Seq<(i64, i64)> {
    match rule_of_payload(p) {
        Some(rule) => spec_expand(rule, p.start_time as int, p.end_time - p.start_time),
        None => seq![],
    }
}

/// The shift rows one materialization appends: one per occurrence, ids
/// allocated consecutively from `first_id`, duration and metadata taken
/// from the template.
pub open spec fn spec_new_shifts(
    first_id: int,
    org: u128,
    loc: u128,
    occs: Seq<(i64, i64)>,
    rrule: String,
    notes: String,
    extended_props: String,
) -> Seq<Shift> {
    Seq::new(
        occs.len(),
        |k: int|
            Shift {
                id: (first_id + k) as u64,
                organization_id: org,
                location_id: loc,
                start: occs[k].0,
                end: occs[k].1,
                rrule: rrule,
                notes: notes,
                extended_props: extended_props,
            },
    )
}

/// The assignment rows for one new shift: one per requested staff member.
pub open spec fn spec_row_assignments(id: u64, staff: Seq<u128>) -> Seq<Assignment> {
    Seq::new(staff.len(), |j: int| Assignment { shift_id: id, staff_id: staff[j] })
}

/// The assignment rows a whole batch appends: every requested staff member
/// on every one of the `n` new shifts, in occurrence-major order.
pub open spec fn spec_cross_assignments(first_id: int, n: int, staff: Seq<u128>) -> Seq<
    Assignment,
>
    decreases n,
{
    if n <= 0 {
        seq![]
    } else {
        spec_cross_assignments(first_id, n - 1, staff) + spec_row_assignments(
            (first_id + n - 1) as u64,
            staff,
        )
    }
}

/// Staff member `sid` already holds an assignment whose shift overlaps
/// `[st, en)`.
pub open spec fn spec_staff_conflicts_existing(store: Store, sid: u128, st: int, en: int) -> bool {
    exists|a: int, i: int|
        0 <= a < store.assignments@.len() && 0 <= i < store.shifts@.len()
            && (#[trigger] store.assignments@[a]).staff_id == sid && (
        #[trigger] store.shifts@[i]).id == store.assignments@[a].shift_id && overlaps(
            store.shifts@[i].start as int,
            store.shifts@[i].end as int,
            st,
            en,
        )
}

/// Some requested staff member already holds an assignment overlapping some
/// occurrence of the batch.
pub open spec fn spec_batch_conflicts_existing(
    store: Store,
    staff: Seq<u128>,
    occs: Seq<(i64, i64)>,
) -> bool {
    exists|j: int, k: int|
        0 <= j < staff.len() && 0 <= k < occs.len() && spec_staff_conflicts_existing(
            store,
            #[trigger] staff[j],
            (#[trigger] occs[k]).0 as int,
            occs[k].1 as int,
        )
}

/// Two requested assignments of the batch itself would overlap: the same
/// staff member (requested twice, or on two overlapping occurrences) on
/// overlapping intervals.
pub open spec fn spec_batch_internal_conflict(staff: Seq<u128>, occs: Seq<(i64, i64)>) -> bool {
    exists|k1: int, j1: int, k2: int, j2: int|
        0 <= k1 < occs.len() && 0 <= k2 < occs.len() && 0 <= j1 < staff.len() && 0 <= j2
            < staff.len() && !(k1 == k2 && j1 == j2) && #[trigger] staff[j1] == #[trigger] staff[j2]
            && overlaps(
            (#[trigger] occs[k1]).0 as int,
            occs[k1].1 as int,
            (#[trigger] occs[k2]).0 as int,
            occs[k2].1 as int,
        )
}

/// Any reason the batch's assignments cannot all be recorded.
pub open spec fn spec_batch_conflict(store: Store, staff: Seq<u128>, occs: Seq<(i64, i64)>) -> bool {
    spec_batch_conflicts_existing(store, staff, occs) || spec_batch_internal_conflict(staff, occs)
}

/// The named pair is a real existing conflict: staff member `sid` holds an
/// assignment on the existing shift `cid`, whose interval overlaps one of
/// the batch's occurrences.
pub open spec fn spec_genuine_existing_conflict(
    store: Store,
    occs: Seq<(i64, i64)>,
    sid: u128,
    cid: u64,
) -> bool {
    exists|a: int, i: int, k: int|
        0 <= a < store.assignments@.len() && 0 <= i < store.shifts@.len() && 0 <= k < occs.len()
            && (#[trigger] store.assignments@[a]).staff_id == sid && (
        #[trigger] store.shifts@[i]).id == store.assignments@[a].shift_id && store.shifts@[i].id
            == cid && overlaps(
            store.shifts@[i].start as int,
            store.shifts@[i].end as int,
            (#[trigger] occs[k]).0 as int,
            occs[k].1 as int,
        )
}

/// Some requested staff id is not a member of the organization.
pub open spec fn spec_has_unknown_staff(store: Store, org: u128, staff: Seq<u128>) -> bool {
    exists|j: int| 0 <= j < staff.len() && !store.spec_is_org_staff(org, #[trigger] staff[j])
}

proof fn lemma_cross_props(first_id: int, n: int, staff: Seq<u128>)
    requires
        0 <= n,
        0 <= first_id,
        first_id + n <= u64::MAX + 1,
        staff.len() > 0,
    ensures
        spec_cross_assignments(first_id, n, staff).len() == n * staff.len(),
        forall|m: int|
            0 <= m < spec_cross_assignments(first_id, n, staff).len()
                ==> #[trigger] spec_cross_assignments(first_id, n, staff)[m] == (Assignment {
                shift_id: (first_id + m / staff.len() as int) as u64,
                staff_id: staff[m % staff.len() as int],
            }),
    decreases n,
{
    let ns = staff.len() as int;
    if n > 0 {
        lemma_cross_props(first_id, n - 1, staff);
        let pre = spec_cross_assignments(first_id, n - 1, staff);
        let row = spec_row_assignments((first_id + n - 1) as u64, staff);
        let s = spec_cross_assignments(first_id, n, staff);
        assert((n - 1) * ns + ns == n * ns) by (nonlinear_arith);
        assert forall|m: int| 0 <= m < s.len() implies #[trigger] s[m] == (Assignment {
            shift_id: (first_id + m / ns) as u64,
            staff_id: staff[m % ns],
        }) by {
            if m < pre.len() {
                assert(s[m] == pre[m]);
            } else {
                assert(s[m] == row[m - (n - 1) * ns]);
                assert(m / ns == n - 1 && m % ns == m - (n - 1) * ns) by (nonlinear_arith)
                    requires
                        ns > 0,
                        (n - 1) * ns <= m < n * ns,
                ;
            }
        }
    }
}

proof fn lemma_div_mod_inj(m1: int, m2: int, ns: int)
    requires
        ns > 0,
        0 <= m1,
        0 <= m2,
        m1 / ns == m2 / ns,
        m1 % ns == m2 % ns,
    ensures
        m1 == m2,
{
    assert(m1 == (m1 / ns) * ns + m1 % ns && m2 == (m2 / ns) * ns + m2 % ns)
        by (nonlinear_arith)
        requires
            ns > 0,
            0 <= m1,
            0 <= m2,
    ;
}


/// Proved once: without duplicate staff and without adjacent occurrence
/// overlap, a sorted equal-duration batch has no internal conflict.
proof fn lemma_no_internal_conflict(staff: Seq<u128>, occs: Seq<(i64, i64)>)
    requires
        forall|i: int, j: int| 0 <= i < j < occs.len() ==> (#[trigger] occs[i]).0 < (#[trigger] occs[j]).0,
        forall|i: int| 0 <= i < occs.len() ==> (#[trigger] occs[i]).0 < occs[i].1,
        forall|j1: int, j2: int| 0 <= j1 < j2 < staff.len() ==> staff[j1] != staff[j2],
        forall|k: int| 0 <= k < occs.len() - 1 ==> (#[trigger] occs[k + 1]).0 >= occs[k].1,
    ensures
        !spec_batch_internal_conflict(staff, occs),
{
    if spec_batch_internal_conflict(staff, occs) {
        let (k1, j1, k2, j2): (int, int, int, int) = choose|k1: int, j1: int, k2: int, j2: int|
            0 <= k1 < occs.len() && 0 <= k2 < occs.len() && 0 <= j1 < staff.len() && 0 <= j2
                < staff.len() && !(k1 == k2 && j1 == j2) && #[trigger] staff[j1]
                == #[trigger] staff[j2] && overlaps(
                (#[trigger] occs[k1]).0 as int,
                occs[k1].1 as int,
                (#[trigger] occs[k2]).0 as int,
                occs[k2].1 as int,
            );
        if j1 != j2 {
            if j1 < j2 {
                assert(staff[j1] != staff[j2]);
            } else {
                assert(staff[j2] != staff[j1]);
            }
            assert(false);
        } else {
            // Same staff member on two distinct occurrences.
            if k1 < k2 {
                assert(occs[k1 + 1].0 >= occs[k1].1);
                if k1 + 1 < k2 {
                    assert(occs[k1 + 1].0 < occs[k2].0);
                }
                assert(occs[k2].0 >= occs[k1].1);
                assert(false);
            } else {
                assert(occs[k2 + 1].0 >= occs[k2].1);
                if k2 + 1 < k1 {
                    assert(occs[k2 + 1].0 < occs[k1].0);
                }
                assert(occs[k1].0 >= occs[k2].1);
                assert(false);
            }
        }
    }
}

/// Every assignment's shift id is below the allocation cursor.
proof fn lemma_assignment_ids_bounded(store: Store)
    requires
        store.wf(),
    ensures
        forall|a: int|
            0 <= a < store.assignments@.len() ==> ((#[trigger] store.assignments@[a]).shift_id
                < store.next_shift_id),
{
    assert forall|a: int| 0 <= a < store.assignments@.len() implies ((
    #[trigger] store.assignments@[a]).shift_id < store.next_shift_id) by {
        assert(crate::store::shifts_have_id(store.shifts@, store.assignments@[a].shift_id));
        let w = choose|i: int|
            0 <= i < store.shifts@.len() && (#[trigger] store.shifts@[i]).id
                == store.assignments@[a].shift_id;
    }
}

/// Finds the index of the shift with this id.
#[verifier::loop_isolation(false)]
fn find_shift_index(store: &Store, id: u64) -> (r: Option<usize>)
    ensures
        r matches Some(i) ==> i < store.shifts@.len() && store.shifts@[i as int].id == id,
        r is None ==> !crate::store::shifts_have_id(store.shifts@, id),
{
    let mut i: usize = 0;
    while i < store.shifts.len()
        invariant
            0 <= i <= store.shifts@.len(),
            forall|m: int| 0 <= m < i ==> (#[trigger] store.shifts@[m]).id != id,
        decreases store.shifts@.len() - i,
    {
        if store.shifts[i].id == id {
            return Some(i);
        }
        i = i + 1;
    }
    None
}

/// Looks up an existing assignment of `sid` whose shift overlaps
/// `[st, en)`, returning the conflicting shift's id.
#[verifier::loop_isolation(false)]
fn find_overlapping_shift(store: &Store, sid: u128, st: i64, en: i64) -> (r: Option<u64>)
    requires
        store.wf(),
    ensures
        r is Some <==> spec_staff_conflicts_existing(*store, sid, st as int, en as int),
        r matches Some(id) ==> (exists|a: int, i: int|
            0 <= a < store.assignments@.len() && 0 <= i < store.shifts@.len() && (
            #[trigger] store.assignments@[a]).staff_id == sid && (#[trigger] store.shifts@[i]).id
                == store.assignments@[a].shift_id && store.shifts@[i].id == id && overlaps(
                store.shifts@[i].start as int,
                store.shifts@[i].end as int,
                st as int,
                en as int,
            )),
{
    let mut a: usize = 0;
    while a < store.assignments.len()
        invariant
            0 <= a <= store.assignments@.len(),
            store.wf(),
            forall|m: int, i: int|
                0 <= m < a && 0 <= i < store.shifts@.len() ==> !((
                #[trigger] store.assignments@[m]).staff_id == sid && (
                #[trigger] store.shifts@[i]).id == store.assignments@[m].shift_id && overlaps(
                    store.shifts@[i].start as int,
                    store.shifts@[i].end as int,
                    st as int,
                    en as int,
                )),
        decreases store.assignments@.len() - a,
    {
        let asg = &store.assignments[a];
        if asg.staff_id == sid {
            match find_shift_index(store, asg.shift_id) {
                Some(i) => {
                    let sh = &store.shifts[i];
                    if sh.start < en && st < sh.end {
                        return Some(sh.id);
                    }
                },
                None => {
                    proof {
                        assert(crate::store::shifts_have_id(store.shifts@, asg.shift_id));
                        assert(false);
                    }
                },
            }
        }
        a = a + 1;
    }
    None
}

/// Finds a requested staff id that is not a member of the organization.
#[verifier::loop_isolation(false)]
fn find_unknown_staff(store: &Store, org: u128, staff: &Vec<u128>) -> (r: Option<u128>)
    ensures
        r is Some <==> spec_has_unknown_staff(*store, org, staff@),
        r matches Some(s) ==> staff@.contains(s) && !store.spec_is_org_staff(org, s),
{
    let mut j: usize = 0;
    while j < staff.len()
        invariant
            0 <= j <= staff@.len(),
            forall|m: int| 0 <= m < j ==> store.spec_is_org_staff(org, #[trigger] staff@[m]),
        decreases staff@.len() - j,
    {
        if !store.is_org_staff(org, staff[j]) {
            return Some(staff[j]);
        }
        j = j + 1;
    }
    None
}

/// Finds a requested staff member with an existing overlapping assignment.
#[verifier::loop_isolation(false)]
fn find_batch_existing_conflict(store: &Store, staff: &Vec<u128>, occs: &Vec<(i64, i64)>) -> (r:
    Option<(u128, u64)>)
    requires
        store.wf(),
    ensures
        r is Some <==> spec_batch_conflicts_existing(*store, staff@, occs@),
        r matches Some(p) ==> staff@.contains(p.0) && spec_genuine_existing_conflict(
            *store,
            occs@,
            p.0,
            p.1,
        ),
{
    let mut j: usize = 0;
    while j < staff.len()
        invariant
            0 <= j <= staff@.len(),
            store.wf(),
            forall|m: int, k: int|
                0 <= m < j && 0 <= k < occs@.len() ==> !spec_staff_conflicts_existing(
                    *store,
                    #[trigger] staff@[m],
                    (#[trigger] occs@[k]).0 as int,
                    occs@[k].1 as int,
                ),
        decreases staff@.len() - j,
    {
        let mut k: usize = 0;
        while k < occs.len()
            invariant
                0 <= j < staff@.len(),
                0 <= k <= occs@.len(),
                store.wf(),
                forall|m: int, k2: int|
                    0 <= m < j && 0 <= k2 < occs@.len() ==> !spec_staff_conflicts_existing(
                        *store,
                        #[trigger] staff@[m],
                        (#[trigger] occs@[k2]).0 as int,
                        occs@[k2].1 as int,
                    ),
                forall|k2: int|
                    0 <= k2 < k ==> !spec_staff_conflicts_existing(
                        *store,
                        staff@[j as int],
                        (#[trigger] occs@[k2]).0 as int,
                        occs@[k2].1 as int,
                    ),
            decreases occs@.len() - k,
        {
            match find_overlapping_shift(store, staff[j], occs[k].0, occs[k].1) {
                Some(id) => {
                    return Some((staff[j], id));
                },
                None => {},
            }
            k = k + 1;
        }
        j = j + 1;
    }
    None
}

/// Finds an internal conflict of the batch itself: a duplicated staff
/// request, or two overlapping occurrences with any staff requested.
#[verifier::loop_isolation(false)]
fn find_internal_conflict(staff: &Vec<u128>, occs: &Vec<(i64, i64)>) -> (r: Option<(u128, usize)>)
    requires
        forall|i: int, j: int|
            0 <= i < j < occs@.len() ==> (#[trigger] occs@[i]).0 < (#[trigger] occs@[j]).0,
        forall|i: int| 0 <= i < occs@.len() ==> (#[trigger] occs@[i]).0 < occs@[i].1,
    ensures
        r is Some <==> spec_batch_internal_conflict(staff@, occs@),
        r matches Some(p) ==> staff@.contains(p.0) && p.1 < occs@.len(),
{
    if occs.len() == 0 {
        return None;
    }
    // A duplicated staff id conflicts with itself on the first occurrence.
    let mut j1: usize = 0;
    while j1 < staff.len()
        invariant
            0 <= j1 <= staff@.len(),
            occs@.len() > 0,
            forall|a: int, b: int| 0 <= a < b < staff@.len() && a < j1 ==> staff@[a] != staff@[b],
        decreases staff@.len() - j1,
    {
        let mut j2: usize = j1 + 1;
        while j2 < staff.len()
            invariant
                0 <= j1 < staff@.len(),
                j1 < j2 <= staff@.len(),
                occs@.len() > 0,
                forall|b: int| j1 < b < j2 ==> staff@[j1 as int] != staff@[b],
            decreases staff@.len() - j2,
        {
            if staff[j1] == staff[j2] {
                proof {
                    assert(overlaps(
                        occs@[0].0 as int,
                        occs@[0].1 as int,
                        occs@[0].0 as int,
                        occs@[0].1 as int,
                    ));
                }
                return Some((staff[j1], 0));
            }
            j2 = j2 + 1;
        }
        j1 = j1 + 1;
    }
    if staff.len() == 0 {
        proof {
            if spec_batch_internal_conflict(staff@, occs@) {
                let (k1, w1, k2, w2): (int, int, int, int) = choose|
                    k1: int,
                    w1: int,
                    k2: int,
                    w2: int,
                |
                    0 <= k1 < occs@.len() && 0 <= k2 < occs@.len() && 0 <= w1 < staff@.len() && 0
                        <= w2 < staff@.len() && !(k1 == k2 && w1 == w2) && #[trigger] staff@[w1]
                        == #[trigger] staff@[w2] && overlaps(
                        (#[trigger] occs@[k1]).0 as int,
                        occs@[k1].1 as int,
                        (#[trigger] occs@[k2]).0 as int,
                        occs@[k2].1 as int,
                    );
                assert(false);
            }
        }
        return None;
    }
    // Two overlapping occurrences conflict for any requested staff member;
    // starts are sorted, so adjacent occurrences suffice.
    let mut k: usize = 0;
    while k < occs.len() - 1
        invariant
            0 <= k <= occs@.len(),
            occs@.len() > 0,
            staff@.len() > 0,
            forall|m: int| 0 <= m < k && m + 1 < occs@.len() ==> (#[trigger] occs@[m + 1]).0
                >= occs@[m].1,
            forall|a: int, b: int| 0 <= a < b < staff@.len() ==> staff@[a] != staff@[b],
        decreases occs@.len() - k,
    {
        if occs[k + 1].0 < occs[k].1 {
            proof {
                assert(overlaps(
                    occs@[k as int].0 as int,
                    occs@[k as int].1 as int,
                    occs@[k + 1 as int].0 as int,
                    occs@[k + 1 as int].1 as int,
                ));
            }
            return Some((staff[0], k));
        }
        k = k + 1;
    }
    proof {
        lemma_no_internal_conflict(staff@, occs@);
    }
    None
}


/// The rows one validated request will append, computed before anything is
/// written so the commit is a single atomic step.
struct CreationPlan {
    new_shifts: Vec<Shift>,
    new_assignments: Vec<Assignment>,
    shift_ids: Vec<u64>,
    count: u64,
    new_next: u64,
}

/// All of a request's checks pass: a caller who belongs to the
/// organization, a nonempty template interval, a valid rule, every
/// requested staff member known, id space left, and no conflict.
pub open spec fn spec_creation_ok(store: Store, p: ShiftPayload, caller: u128) -> bool {
    &&& spec_role(store, p.organization_id, caller) is Some
    &&& p.start_time < p.end_time
    &&& rule_of_payload(p) is Some
    &&& !spec_has_unknown_staff(store, p.organization_id, p.assigned_staff@)
    &&& store.next_shift_id + occs_of_payload(p).len() <= u64::MAX
    &&& !spec_batch_conflict(store, p.assigned_staff@, occs_of_payload(p))
}

#[verifier::loop_isolation(false)]
#[verifier::rlimit(100)]
fn plan_creation(store: &Store, payload: &ShiftPayload, caller: &AuthenticatedUser) -> (r: Result<
    CreationPlan,
    ApiError,
>)
    requires
        store.wf(),
        MIN_TIMESTAMP <= payload.start_time,
        payload.end_time <= MAX_TIMESTAMP,
    ensures
        spec_role(*store, payload.organization_id, caller.id) is None ==> r == Err::<
            CreationPlan,
            ApiError,
        >(ApiError::Forbidden),
        spec_role(*store, payload.organization_id, caller.id) is Some && !(payload.start_time
            < payload.end_time) ==> r == Err::<CreationPlan, ApiError>(
            ApiError::Validation(ValidationFault::EmptyInterval),
        ),
        spec_role(*store, payload.organization_id, caller.id) is Some && payload.start_time
            < payload.end_time && rule_of_payload(*payload) is None ==> r == Err::<
            CreationPlan,
            ApiError,
        >(ApiError::Validation(ValidationFault::BadRecurrenceRule)),
        (spec_role(*store, payload.organization_id, caller.id) is Some && payload.start_time
            < payload.end_time && rule_of_payload(*payload) is Some
            && spec_has_unknown_staff(*store, payload.organization_id, payload.assigned_staff@))
            ==> (r matches Err(e) && (e matches ApiError::Validation(
            ValidationFault::UnknownStaff { staff_id },
        ) && payload.assigned_staff@.contains(staff_id) && !store.spec_is_org_staff(
            payload.organization_id,
            staff_id,
        ))),
        (spec_role(*store, payload.organization_id, caller.id) is Some && payload.start_time
            < payload.end_time && rule_of_payload(*payload) is Some
            && !spec_has_unknown_staff(*store, payload.organization_id, payload.assigned_staff@)
            && store.next_shift_id + occs_of_payload(*payload).len() > u64::MAX) ==> r == Err::<
            CreationPlan,
            ApiError,
        >(ApiError::Persistence),
        (spec_role(*store, payload.organization_id, caller.id) is Some && payload.start_time
            < payload.end_time && rule_of_payload(*payload) is Some
            && !spec_has_unknown_staff(*store, payload.organization_id, payload.assigned_staff@)
            && store.next_shift_id + occs_of_payload(*payload).len() <= u64::MAX
            && spec_batch_conflict(*store, payload.assigned_staff@, occs_of_payload(*payload)))
            ==> (r matches Err(e) && (e matches ApiError::Conflict {
            staff_id,
            conflicting_shift_id,
        } && payload.assigned_staff@.contains(staff_id) && (store.next_shift_id
            <= conflicting_shift_id < store.next_shift_id + occs_of_payload(*payload).len()
            || spec_genuine_existing_conflict(
            *store,
            occs_of_payload(*payload),
            staff_id,
            conflicting_shift_id,
        )))),
        r is Ok <==> spec_creation_ok(*store, *payload, caller.id),
        r matches Ok(plan) ==> ({
            let occs = occs_of_payload(*payload);
            let first = store.next_shift_id as int;
            &&& plan.new_shifts@ == spec_new_shifts(
                first,
                payload.organization_id,
                payload.location_id,
                occs,
                payload.rrule,
                payload.notes,
                payload.extended_props,
            )
            &&& plan.new_assignments@ == spec_cross_assignments(
                first,
                occs.len() as int,
                payload.assigned_staff@,
            )
            &&& plan.count == occs.len()
            &&& plan.new_next == store.next_shift_id + occs.len()
            &&& plan.shift_ids@ == Seq::new(occs.len(), |k: int| (first + k) as u64)
            &&& (forall|i: int, j: int|
                0 <= i < j < occs.len() ==> (#[trigger] occs[i]).0 < (#[trigger] occs[j]).0)
            &&& (forall|i: int|
                0 <= i < occs.len() ==> (#[trigger] occs[i]).0 < occs[i].1 && occs[i].1
                    - occs[i].0 == payload.end_time - payload.start_time)
        }),
{
    match resolve_role(store, payload.organization_id, caller.id) {
        Ok(_) => {},
        Err(e) => {
            return Err(e);
        },
    }
    if !(payload.start_time < payload.end_time) {
        return Err(ApiError::Validation(ValidationFault::EmptyInterval));
    }
    let rule = match parse_rrule(payload.rrule.as_str()) {
        Ok(rule) => rule,
        Err(e) => {
            return Err(e);
        },
    };
    let occs = expand(&rule, payload.start_time, payload.end_time);
    proof {
        assert(occs@ == occs_of_payload(*payload));
    }
    match find_unknown_staff(store, payload.organization_id, &payload.assigned_staff) {
        Some(staff_id) => {
            return Err(ApiError::Validation(ValidationFault::UnknownStaff { staff_id }));
        },
        None => {},
    }
    if store.next_shift_id > u64::MAX - (occs.len() as u64) {
        return Err(ApiError::Persistence);
    }
    match find_batch_existing_conflict(store, &payload.assigned_staff, &occs) {
        Some(p) => {
            return Err(ApiError::Conflict { staff_id: p.0, conflicting_shift_id: p.1 });
        },
        None => {},
    }
    match find_internal_conflict(&payload.assigned_staff, &occs) {
        Some(p) => {
            let cid = store.next_shift_id + (p.1 as u64);
            return Err(ApiError::Conflict { staff_id: p.0, conflicting_shift_id: cid });
        },
        None => {},
    }
    // Build the rows of the batch.
    let first = store.next_shift_id;
    let mut new_shifts: Vec<Shift> = Vec::new();
    let mut shift_ids: Vec<u64> = Vec::new();
    let mut k: usize = 0;
    let ghost gshifts = spec_new_shifts(
        first as int,
        payload.organization_id,
        payload.location_id,
        occs@,
        payload.rrule,
        payload.notes,
        payload.extended_props,
    );
    while k < occs.len()
        invariant
            0 <= k <= occs@.len(),
            new_shifts@.len() == k,
            shift_ids@.len() == k,
            forall|m: int| 0 <= m < k ==> new_shifts@[m] == gshifts[m],
            forall|m: int| 0 <= m < k ==> shift_ids@[m] == (first + m) as u64,
        decreases occs@.len() - k,
    {
        shift_ids.push(first + (k as u64));
        let occ = occs[k];
        new_shifts.push(
            Shift {
                id: first + (k as u64),
                organization_id: payload.organization_id,
                location_id: payload.location_id,
                start: occ.0,
                end: occ.1,
                rrule: payload.rrule.clone(),
                notes: payload.notes.clone(),
                extended_props: payload.extended_props.clone(),
            },
        );
        k = k + 1;
    }
    proof {
        assert(new_shifts@ =~= gshifts);
        assert(shift_ids@ =~= Seq::new(occs@.len(), |k: int| (first + k) as u64));
    }
    let mut new_assignments: Vec<Assignment> = Vec::new();
    let mut k2: usize = 0;
    while k2 < occs.len()
        invariant
            0 <= k2 <= occs@.len(),
            new_assignments@ == spec_cross_assignments(
                first as int,
                k2 as int,
                payload.assigned_staff@,
            ),
        decreases occs@.len() - k2,
    {
        let ghost pre_row = new_assignments@;
        let sid_count = payload.assigned_staff.len();
        let mut j: usize = 0;
        while j < sid_count
            invariant
                0 <= j <= payload.assigned_staff@.len(),
                sid_count == payload.assigned_staff@.len(),
                0 <= k2 < occs@.len(),
                new_assignments@ == pre_row + spec_row_assignments(
                    (first + k2 as u64) as u64,
                    payload.assigned_staff@,
                ).subrange(0, j as int),
            decreases sid_count - j,
        {
            let ghost row = spec_row_assignments(
                (first + k2 as u64) as u64,
                payload.assigned_staff@,
            );
            new_assignments.push(
                Assignment { shift_id: first + (k2 as u64), staff_id: payload.assigned_staff[j] },
            );
            proof {
                assert(row.subrange(0, j + 1 as int) =~= row.subrange(0, j as int).push(row[j as int]));
            }
            j = j + 1;
        }
        proof {
            let row = spec_row_assignments((first + k2 as u64) as u64, payload.assigned_staff@);
            assert(row.subrange(0, row.len() as int) =~= row);
            assert(new_assignments@ == spec_cross_assignments(
                first as int,
                k2 + 1 as int,
                payload.assigned_staff@,
            ));
        }
        k2 = k2 + 1;
    }
    Ok(
        CreationPlan {
            new_shifts,
            new_assignments,
            shift_ids,
            count: occs.len() as u64,
            new_next: first + (occs.len() as u64),
        },
    )
}


proof fn lemma_div_mod_bounds(m: int, n: int, s: int)
    requires
        s > 0,
        0 <= m < n * s,
    ensures
        0 <= m / s < n,
        0 <= m % s < s,
        m == (m / s) * s + (m % s),
{
    assert(0 <= m / s < n && 0 <= m % s < s && m == (m / s) * s + (m % s)) by (nonlinear_arith)
        requires
            s > 0,
            0 <= m < n * s,
    ;
}

/// Distinct rows of the batch's assignment block never repeat a
/// (shift, staff) pair, provided the requested staff list has no
/// duplicates.
proof fn lemma_cross_unique(first_id: int, n: int, staff: Seq<u128>)
    requires
        0 <= n,
        0 <= first_id,
        first_id + n <= u64::MAX + 1,
        staff.len() > 0,
        forall|j1: int, j2: int| 0 <= j1 < j2 < staff.len() ==> staff[j1] != staff[j2],
    ensures
        forall|m1: int, m2: int|
            0 <= m1 < m2 < spec_cross_assignments(first_id, n, staff).len() ==> !((
            #[trigger] spec_cross_assignments(first_id, n, staff)[m1]).shift_id == (
            #[trigger] spec_cross_assignments(first_id, n, staff)[m2]).shift_id
                && spec_cross_assignments(first_id, n, staff)[m1].staff_id
                == spec_cross_assignments(first_id, n, staff)[m2].staff_id),
{
    lemma_cross_props(first_id, n, staff);
    let cross = spec_cross_assignments(first_id, n, staff);
    let s = staff.len() as int;
    assert forall|m1: int, m2: int| 0 <= m1 < m2 < cross.len() implies !((
    #[trigger] cross[m1]).shift_id == (#[trigger] cross[m2]).shift_id && cross[m1].staff_id
        == cross[m2].staff_id) by {
        lemma_div_mod_bounds(m1, n, s);
        lemma_div_mod_bounds(m2, n, s);
        if cross[m1].shift_id == cross[m2].shift_id && cross[m1].staff_id == cross[m2].staff_id {
            assert(m1 / s == m2 / s);
            if m1 % s != m2 % s {
                if m1 % s < m2 % s {
                    assert(staff[m1 % s] != staff[m2 % s]);
                } else {
                    assert(staff[m2 % s] != staff[m1 % s]);
                }
            }
            lemma_div_mod_inj(m1, m2, s);
            assert(false);
        }
    }
}

proof fn lemma_cross_len0(first_id: int, n: int, staff: Seq<u128>)
    requires
        0 <= n,
        staff.len() == 0,
    ensures
        spec_cross_assignments(first_id, n, staff).len() == 0,
    decreases n,
{
    if n > 0 {
        lemma_cross_len0(first_id, n - 1, staff);
    }
}

/// Without an internal conflict, a nonempty batch's staff list has no
/// duplicates.
proof fn lemma_no_dup_staff(staff: Seq<u128>, occs: Seq<(i64, i64)>)
    requires
        !spec_batch_internal_conflict(staff, occs),
        occs.len() > 0,
        forall|i: int| 0 <= i < occs.len() ==> (#[trigger] occs[i]).0 < occs[i].1,
    ensures
        forall|j1: int, j2: int| 0 <= j1 < j2 < staff.len() ==> staff[j1] != staff[j2],
{
    assert forall|j1: int, j2: int| 0 <= j1 < j2 < staff.len() implies staff[j1] != staff[j2] by {
        if staff[j1] == staff[j2] {
            assert(overlaps(occs[0].0 as int, occs[0].1 as int, occs[0].0 as int, occs[0].1 as int));
            assert(spec_batch_internal_conflict(staff, occs));
        }
    }
}

/// A validated, conflict-free batch appended whole keeps the store's
/// invariant.
#[verifier::rlimit(100)]
proof fn lemma_commit_wf(pre: Store, post: Store, p: ShiftPayload, caller: u128)
    requires
        pre.wf(),
        spec_creation_ok(pre, p, caller),
        forall|i: int, j: int|
            0 <= i < j < occs_of_payload(p).len() ==> (#[trigger] occs_of_payload(p)[i]).0 < (
            #[trigger] occs_of_payload(p)[j]).0,
        forall|i: int|
            0 <= i < occs_of_payload(p).len() ==> (#[trigger] occs_of_payload(p)[i]).0
                < occs_of_payload(p)[i].1,
        post.staff@ == pre.staff@,
        post.shifts@ == pre.shifts@ + spec_new_shifts(
            pre.next_shift_id as int,
            p.organization_id,
            p.location_id,
            occs_of_payload(p),
            p.rrule,
            p.notes,
            p.extended_props,
        ),
        post.assignments@ == pre.assignments@ + spec_cross_assignments(
            pre.next_shift_id as int,
            occs_of_payload(p).len() as int,
            p.assigned_staff@,
        ),
        post.next_shift_id == pre.next_shift_id + occs_of_payload(p).len(),
    ensures
        post.wf(),
{
    let occs = occs_of_payload(p);
    let staff = p.assigned_staff@;
    let first = pre.next_shift_id as int;
    let n = occs.len() as int;
    let s = staff.len() as int;
    let newsh = spec_new_shifts(
        first,
        p.organization_id,
        p.location_id,
        occs,
        p.rrule,
        p.notes,
        p.extended_props,
    );
    let cross = spec_cross_assignments(first, n, staff);
    let ol = pre.assignments@.len() as int;
    let sl = pre.shifts@.len() as int;
    lemma_assignment_ids_bounded(pre);
    if s == 0 {
        lemma_cross_len0(first, n, staff);
    } else {
        lemma_cross_props(first, n, staff);
    }
    if n > 0 && s > 0 {
        lemma_no_dup_staff(staff, occs);
        lemma_cross_unique(first, n, staff);
    } else {
        assert(n * s == 0) by (nonlinear_arith)
            requires
                n == 0 || s == 0,
        ;
        assert(cross.len() == 0);
    }
    // The shifts' invariant.
    assert forall|i: int| 0 <= i < post.shifts@.len() implies ((#[trigger] post.shifts@[i]).id
        < post.next_shift_id && post.shifts@[i].start < post.shifts@[i].end && (i >= sl
        ==> post.shifts@[i].id == first + (i - sl))) by {
        if i < sl {
            assert(post.shifts@[i] == pre.shifts@[i]);
        } else {
            assert(post.shifts@[i] == newsh[i - sl]);
        }
    }
    assert forall|i: int, j: int| 0 <= i < j < post.shifts@.len() implies (
    #[trigger] post.shifts@[i]).id != (#[trigger] post.shifts@[j]).id by {
        if i < sl && j < sl {
            assert(pre.shifts@[i].id != pre.shifts@[j].id);
        } else if i < sl && j >= sl {
            assert(post.shifts@[i].id < first);
        }
    }
    assert(post.shifts_wf());
    assert(post.staff_wf());
    // The assignments' invariant: unique pairs, and references that exist.
    assert forall|a: int, b: int| 0 <= a < b < post.assignments@.len() implies !((
    #[trigger] post.assignments@[a]).shift_id == (#[trigger] post.assignments@[b]).shift_id
        && post.assignments@[a].staff_id == post.assignments@[b].staff_id) by {
        if a < ol && b < ol {
            assert(post.assignments@[a] == pre.assignments@[a]);
            assert(post.assignments@[b] == pre.assignments@[b]);
        } else {
            assert(cross.len() > 0);
            assert(s > 0 && n > 0);
            if a < ol {
                assert(post.assignments@[a].shift_id < first);
                assert(post.assignments@[b] == cross[b - ol]);
                lemma_div_mod_bounds(b - ol, n, s);
                assert(cross[b - ol].shift_id == (first + (b - ol) / s) as u64);
            } else {
                assert(post.assignments@[a] == cross[a - ol]);
                assert(post.assignments@[b] == cross[b - ol]);
            }
        }
    }
    assert forall|a: int| 0 <= a < post.assignments@.len() implies crate::store::shifts_have_id(
        post.shifts@,
        (#[trigger] post.assignments@[a]).shift_id,
    ) && crate::store::staff_has_id(post.staff@, post.assignments@[a].staff_id) by {
        if a < ol {
            assert(post.assignments@[a] == pre.assignments@[a]);
            crate::store::lemma_shifts_have_id_extend(
                pre.shifts@,
                post.shifts@,
                pre.assignments@[a].shift_id,
            );
            assert(crate::store::staff_has_id(pre.staff@, pre.assignments@[a].staff_id));
        } else {
            let m = a - ol;
            assert(post.assignments@[a] == cross[m]);
            lemma_div_mod_bounds(m, n, s);
            let k = m / s;
            let col = m % s;
            assert(cross[m] == (Assignment {
                shift_id: (first + k) as u64,
                staff_id: staff[col],
            }));
            assert(post.shifts@[sl + k].id == (first + k) as u64);
            assert(crate::store::shifts_have_id(post.shifts@, cross[m].shift_id));
            assert(pre.spec_is_org_staff(p.organization_id, staff[col]));
            let w = choose|i: int|
                0 <= i < pre.staff@.len() && (#[trigger] pre.staff@[i]).staff_id == staff[col]
                    && pre.staff@[i].organization_id == p.organization_id;
            assert(post.staff@[w].staff_id == staff[col]);
            assert(crate::store::staff_has_id(post.staff@, cross[m].staff_id));
        }
    }
    assert(post.assignments_wf());
    // No staff member ends up with two overlapping assignments.
    assert forall|a: int, b: int, i: int, j: int|
        {
            &&& 0 <= a < post.assignments@.len()
            &&& 0 <= b < post.assignments@.len()
            &&& a != b
            &&& (#[trigger] post.assignments@[a]).staff_id == (
            #[trigger] post.assignments@[b]).staff_id
            &&& 0 <= i < post.shifts@.len()
            &&& 0 <= j < post.shifts@.len()
            &&& (#[trigger] post.shifts@[i]).id == post.assignments@[a].shift_id
            &&& (#[trigger] post.shifts@[j]).id == post.assignments@[b].shift_id
        } implies !overlaps(
        post.shifts@[i].start as int,
        post.shifts@[i].end as int,
        post.shifts@[j].start as int,
        post.shifts@[j].end as int,
    ) by {
        if a < ol && b < ol {
            assert(post.assignments@[a] == pre.assignments@[a]);
            assert(post.assignments@[b] == pre.assignments@[b]);
            assert(pre.assignments@[a].shift_id < first && pre.assignments@[b].shift_id < first);
            assert(i < sl && j < sl);
            assert(post.shifts@[i] == pre.shifts@[i] && post.shifts@[j] == pre.shifts@[j]);
        } else if a < ol && b >= ol {
            let m = b - ol;
            lemma_div_mod_bounds(m, n, s);
            let k = m / s;
            let col = m % s;
            assert(post.assignments@[a] == pre.assignments@[a]);
            assert(post.assignments@[b] == cross[m]);
            assert(pre.assignments@[a].shift_id < first);
            assert(i < sl);
            assert(post.shifts@[i] == pre.shifts@[i]);
            assert(j >= sl);
            assert(j - sl == k);
            assert(post.shifts@[j] == newsh[k]);
            assert(!spec_staff_conflicts_existing(
                pre,
                staff[col],
                (occs[k]).0 as int,
                occs[k].1 as int,
            ));
        } else if a >= ol && b < ol {
            let m = a - ol;
            lemma_div_mod_bounds(m, n, s);
            let k = m / s;
            let col = m % s;
            assert(post.assignments@[b] == pre.assignments@[b]);
            assert(post.assignments@[a] == cross[m]);
            assert(pre.assignments@[b].shift_id < first);
            assert(j < sl);
            assert(post.shifts@[j] == pre.shifts@[j]);
            assert(i >= sl);
            assert(i - sl == k);
            assert(post.shifts@[i] == newsh[k]);
            assert(!spec_staff_conflicts_existing(
                pre,
                staff[col],
                (occs[k]).0 as int,
                occs[k].1 as int,
            ));
        } else {
            let m1 = a - ol;
            let m2 = b - ol;
            lemma_div_mod_bounds(m1, n, s);
            lemma_div_mod_bounds(m2, n, s);
            let k1 = m1 / s;
            let col1 = m1 % s;
            let k2 = m2 / s;
            let col2 = m2 % s;
            assert(post.assignments@[a] == cross[m1]);
            assert(post.assignments@[b] == cross[m2]);
            assert(i >= sl && j >= sl);
            assert(i - sl == k1 && j - sl == k2);
            assert(post.shifts@[i] == newsh[k1] && post.shifts@[j] == newsh[k2]);
            if k1 == k2 {
                if m1 < m2 {
                    assert(!(cross[m1].shift_id == cross[m2].shift_id && cross[m1].staff_id
                        == cross[m2].staff_id));
                } else {
                    assert(!(cross[m2].shift_id == cross[m1].shift_id && cross[m2].staff_id
                        == cross[m1].staff_id));
                }
                assert(false);
            } else {
                assert(staff[col1] == staff[col2]);
                assert(!(k1 == k2 && col1 == col2));
                assert(!spec_batch_internal_conflict(staff, occs));
                if overlaps(occs[k1].0 as int, occs[k1].1 as int, occs[k2].0 as int, occs[k2].1
                    as int) {
                    assert(spec_batch_internal_conflict(staff, occs));
                    assert(false);
                }
            }
        }
    }
    assert(post.no_overlapping_assignments());
}

/// Materializes one creation request as a single atomic unit.
///
/// The caller must belong to the organization; the template interval must
/// be nonempty and the rule valid; every
/// requested staff member must belong to the organization; no requested
/// assignment may overlap an existing or a fellow new assignment. When all
/// checks pass, every occurrence becomes one shift row with the template's
/// duration and metadata, every requested staff member is assigned to every
/// new shift, and the count of new shifts is returned together with their
/// identifiers; on any failure the store is left exactly as it was — never
/// a partial series.
pub fn create_shift(store: &mut Store, payload: &ShiftPayload, caller: &AuthenticatedUser) -> (r:
    Result<(u64, Vec<u64>), ApiError>)
    requires
        old(store).wf(),
        MIN_TIMESTAMP <= payload.start_time,
        payload.end_time <= MAX_TIMESTAMP,
    ensures
        final(store).wf(),
        final(store).staff@ == old(store).staff@,
        r is Err ==> *final(store) == *old(store),
        spec_role(*old(store), payload.organization_id, caller.id) is None ==> r == Err::<
            (u64, Vec<u64>),
            ApiError,
        >(ApiError::Forbidden),
        spec_role(*old(store), payload.organization_id, caller.id) is Some && !(payload.start_time
            < payload.end_time) ==> r == Err::<(u64, Vec<u64>), ApiError>(
            ApiError::Validation(ValidationFault::EmptyInterval),
        ),
        spec_role(*old(store), payload.organization_id, caller.id) is Some && payload.start_time
            < payload.end_time && rule_of_payload(*payload) is None ==> r == Err::<
            (u64, Vec<u64>),
            ApiError,
        >(ApiError::Validation(ValidationFault::BadRecurrenceRule)),
        (spec_role(*old(store), payload.organization_id, caller.id) is Some && payload.start_time
            < payload.end_time && rule_of_payload(*payload) is Some && spec_has_unknown_staff(
            *old(store),
            payload.organization_id,
            payload.assigned_staff@,
        )) ==> (r matches Err(e) && (e matches ApiError::Validation(
            ValidationFault::UnknownStaff { staff_id },
        ) && payload.assigned_staff@.contains(staff_id) && !old(store).spec_is_org_staff(
            payload.organization_id,
            staff_id,
        ))),
        (spec_role(*old(store), payload.organization_id, caller.id) is Some && payload.start_time
            < payload.end_time && rule_of_payload(*payload) is Some && !spec_has_unknown_staff(
            *old(store),
            payload.organization_id,
            payload.assigned_staff@,
        ) && old(store).next_shift_id + occs_of_payload(*payload).len() > u64::MAX) ==> r == Err::<
            (u64, Vec<u64>),
            ApiError,
        >(ApiError::Persistence),
        (spec_role(*old(store), payload.organization_id, caller.id) is Some && payload.start_time
            < payload.end_time && rule_of_payload(*payload) is Some && !spec_has_unknown_staff(
            *old(store),
            payload.organization_id,
            payload.assigned_staff@,
        ) && old(store).next_shift_id + occs_of_payload(*payload).len() <= u64::MAX
            && spec_batch_conflict(
            *old(store),
            payload.assigned_staff@,
            occs_of_payload(*payload),
        )) ==> (r matches Err(e) && (e matches ApiError::Conflict {
            staff_id,
            conflicting_shift_id,
        } && payload.assigned_staff@.contains(staff_id) && (old(store).next_shift_id
            <= conflicting_shift_id < old(store).next_shift_id + occs_of_payload(*payload).len()
            || spec_genuine_existing_conflict(
            *old(store),
            occs_of_payload(*payload),
            staff_id,
            conflicting_shift_id,
        )))),
        r is Ok <==> spec_creation_ok(*old(store), *payload, caller.id),
        spec_creation_ok(*old(store), *payload, caller.id) ==> ({
            let occs = occs_of_payload(*payload);
            let first = old(store).next_shift_id as int;
            &&& (r matches Ok(ok) && ok.0 == occs.len() && ok.1@ == Seq::new(
                occs.len(),
                |k: int| (first + k) as u64,
            ))
            &&& final(store).next_shift_id == old(store).next_shift_id + occs.len()
            &&& final(store).shifts@ == old(store).shifts@ + spec_new_shifts(
                first,
                payload.organization_id,
                payload.location_id,
                occs,
                payload.rrule,
                payload.notes,
                payload.extended_props,
            )
            &&& final(store).assignments@ == old(store).assignments@ + spec_cross_assignments(
                first,
                occs.len() as int,
                payload.assigned_staff@,
            )
        }),
{
    let ghost pre = *store;
    match plan_creation(store, payload, caller) {
        Err(e) => Err(e),
        Ok(mut plan) => {
            let count = plan.count;
            let new_next = plan.new_next;
            let ids = plan.shift_ids;
            store.shifts.append(&mut plan.new_shifts);
            store.assignments.append(&mut plan.new_assignments);
            store.next_shift_id = new_next;
            proof {
                lemma_commit_wf(pre, *store, *payload, caller.id);
            }
            Ok((count, ids))
        },
    }
}

} // verus!
