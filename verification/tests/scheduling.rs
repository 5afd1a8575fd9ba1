use shift_scheduler::auth::AuthenticatedUser;
use shift_scheduler::errors::{ApiError, ValidationFault};
use shift_scheduler::roster::{get_org_shifts, get_org_user, get_user_org_shifts, ShiftColor};
use shift_scheduler::shifts::{create_shift, ShiftPayload};
use shift_scheduler::store::{Assignment, Capability, resolve_role, Shift, StaffMember, Store};

const DAY: i64 = 86400;
// 2024-01-01, as seconds of the day's 09:00 / 10:00 / 17:00 / 18:00 UTC.
const D_0900: i64 = 1704099600;
const D_1000: i64 = 1704103200;
const D_1700: i64 = 1704128400;
const D_1800: i64 = 1704132000;

const ORG: u128 = 1;
const LOC: u128 = 5;
const ADMIN_STAFF: u128 = 11;
const ADMIN_USER: u128 = 101;
const PLAIN_STAFF: u128 = 12;
const PLAIN_USER: u128 = 102;

/// The admin principal, as the creation requests' caller.
const AD: &AuthenticatedUser = &AuthenticatedUser { id: ADMIN_USER };

fn member(staff_id: u128, user_id: u128, admin: bool, name: &str) -> StaffMember {
    StaffMember {
        staff_id,
        user_id,
        organization_id: ORG,
        admin,
        first_name: name.to_string(),
        last_name: "Example".to_string(),
        title: "Staff".to_string(),
    }
}

fn seeded_store() -> Store {
    let mut store = Store::new();
    store.add_staff(member(ADMIN_STAFF, ADMIN_USER, true, "Alice")).unwrap();
    store.add_staff(member(PLAIN_STAFF, PLAIN_USER, false, "Bob")).unwrap();
    store
}

fn payload(start: i64, end: i64, rrule: &str, staff: Vec<u128>) -> ShiftPayload {
    ShiftPayload {
        organization_id: ORG,
        location_id: LOC,
        start_time: start,
        end_time: end,
        notes: "note".to_string(),
        rrule: rrule.to_string(),
        extended_props: "{\"kind\":\"recurring\"}".to_string(),
        assigned_staff: staff,
    }
}

#[test]
fn overlapping_second_request_conflicts() {
    // First [09:00, 17:00), then [10:00, 18:00) for the same staff member:
    // the second request fails with a conflict and commits nothing.
    let mut store = seeded_store();
    let r1 = create_shift(&mut store, &payload(D_0900, D_1700, "FREQ=DAILY;COUNT=1", vec![PLAIN_STAFF]), AD);
    assert_eq!(r1, Ok((1, vec![1])));
    assert_eq!(store.shifts.len(), 1);
    assert_eq!(store.assignments.len(), 1);

    let r2 = create_shift(&mut store, &payload(D_1000, D_1800, "FREQ=DAILY;COUNT=1", vec![PLAIN_STAFF]), AD);
    match r2 {
        Err(ApiError::Conflict { staff_id, conflicting_shift_id }) => {
            assert_eq!(staff_id, PLAIN_STAFF);
            assert_eq!(conflicting_shift_id, store.shifts[0].id);
        }
        other => panic!("expected a conflict, got {other:?}"),
    }
    assert_eq!(store.shifts.len(), 1, "zero new shifts committed");
    assert_eq!(store.assignments.len(), 1);
}

#[test]
fn non_overlapping_assignment_succeeds() {
    let mut store = seeded_store();
    assert_eq!(
        create_shift(&mut store, &payload(D_0900, D_1700, "FREQ=DAILY;COUNT=1", vec![PLAIN_STAFF]), AD),
        Ok((1, vec![1]))
    );
    assert_eq!(
        create_shift(&mut store, &payload(D_1700, D_1800, "FREQ=DAILY;COUNT=1", vec![PLAIN_STAFF]), AD),
        Ok((1, vec![2]))
    );
    assert_eq!(store.shifts.len(), 2);
    assert_eq!(store.assignments.len(), 2);
}

#[test]
fn mid_batch_conflict_rolls_back_whole_series() {
    // An existing assignment overlaps only the second occurrence of a
    // three-day series: the whole series is rejected and nothing remains.
    let mut store = seeded_store();
    assert_eq!(
        create_shift(
            &mut store,
            &payload(D_0900 + DAY, D_1700 + DAY, "FREQ=DAILY;COUNT=1", vec![PLAIN_STAFF]),
            AD,
        ),
        Ok((1, vec![1]))
    );
    let before_shifts = store.shifts.len();
    let before_assignments = store.assignments.len();

    let r = create_shift(&mut store, &payload(D_0900, D_1700, "FREQ=DAILY;COUNT=3", vec![PLAIN_STAFF]), AD);
    assert!(matches!(r, Err(ApiError::Conflict { .. })));
    assert_eq!(store.shifts.len(), before_shifts);
    assert_eq!(store.assignments.len(), before_assignments);
}

#[test]
fn recurring_series_materializes_every_occurrence() {
    let mut store = seeded_store();
    let r = create_shift(&mut store, &payload(D_0900, D_1700, "FREQ=WEEKLY;COUNT=3", vec![ADMIN_STAFF, PLAIN_STAFF]), AD);
    assert_eq!(r, Ok((3, vec![1, 2, 3])));
    assert_eq!(store.shifts.len(), 3);
    assert_eq!(store.assignments.len(), 6);
    for (k, shift) in store.shifts.iter().enumerate() {
        assert_eq!(shift.start, D_0900 + (k as i64) * 7 * DAY);
        assert_eq!(shift.end - shift.start, 8 * 3600);
        assert_eq!(shift.organization_id, ORG);
        assert_eq!(shift.location_id, LOC);
        assert_eq!(shift.rrule, "FREQ=WEEKLY;COUNT=3");
        assert_eq!(shift.notes, "note");
        assert_eq!(shift.extended_props, "{\"kind\":\"recurring\"}");
    }
}

#[test]
fn unknown_staff_is_a_validation_error() {
    let mut store = seeded_store();
    let r = create_shift(&mut store, &payload(D_0900, D_1700, "FREQ=DAILY;COUNT=1", vec![99]), AD);
    assert_eq!(r, Err(ApiError::Validation(ValidationFault::UnknownStaff { staff_id: 99 })));
    assert_eq!(store.shifts.len(), 0);
}

#[test]
fn empty_interval_is_a_validation_error() {
    let mut store = seeded_store();
    let r = create_shift(&mut store, &payload(D_1700, D_0900, "FREQ=DAILY;COUNT=1", vec![]), AD);
    assert_eq!(r, Err(ApiError::Validation(ValidationFault::EmptyInterval)));
}

#[test]
fn bad_rule_is_a_validation_error() {
    let mut store = seeded_store();
    let r = create_shift(&mut store, &payload(D_0900, D_1700, "FREQ=HOURLY", vec![]), AD);
    assert_eq!(r, Err(ApiError::Validation(ValidationFault::BadRecurrenceRule)));
}

#[test]
fn duplicate_staff_request_conflicts() {
    let mut store = seeded_store();
    let r = create_shift(&mut store, &payload(D_0900, D_1700, "FREQ=DAILY;COUNT=1", vec![PLAIN_STAFF, PLAIN_STAFF]), AD);
    assert!(matches!(r, Err(ApiError::Conflict { staff_id: PLAIN_STAFF, .. })));
    assert_eq!(store.shifts.len(), 0);
}

#[test]
fn exhausted_rule_creates_zero_shifts() {
    let mut store = seeded_store();
    let r = create_shift(&mut store, &payload(D_0900, D_1700, "FREQ=DAILY;COUNT=0", vec![PLAIN_STAFF]), AD);
    assert_eq!(r, Ok((0, vec![])));
    assert_eq!(store.shifts.len(), 0);
    assert_eq!(store.assignments.len(), 0);
}

#[test]
fn admin_view_lists_every_assigned_staff_member() {
    let mut store = seeded_store();
    create_shift(&mut store, &payload(D_0900, D_1700, "FREQ=DAILY;COUNT=1", vec![ADMIN_STAFF, PLAIN_STAFF]), AD).unwrap();
    create_shift(&mut store, &payload(D_1700, D_1800, "FREQ=DAILY;COUNT=1", vec![]), AD).unwrap();

    let views = get_org_shifts(&store, ORG, &AuthenticatedUser { id: ADMIN_USER }).unwrap();
    assert_eq!(views.len(), 2);

    let assigned: Vec<u128> = views[0].assigned.iter().map(|a| a.staff_id).collect();
    assert_eq!(assigned, vec![ADMIN_STAFF, PLAIN_STAFF]);
    assert_eq!(views[0].color, ShiftColor::Assigned);
    assert_eq!(views[0].color.css_name(), "blue");
    assert_eq!(views[0].details.extended_props, "{\"kind\":\"recurring\"}");
    assert_eq!(views[0].assigned[1].first_name, "Bob");
    assert_eq!(views[0].assigned[1].user_id, PLAIN_USER);

    assert!(views[1].assigned.is_empty());
    assert_eq!(views[1].color, ShiftColor::Unassigned);
    assert_eq!(views[1].color.css_name(), "red");
}

#[test]
fn self_view_returns_only_own_shifts() {
    let mut store = seeded_store();
    create_shift(&mut store, &payload(D_0900, D_1700, "FREQ=DAILY;COUNT=1", vec![PLAIN_STAFF]), AD).unwrap();
    create_shift(&mut store, &payload(D_1700, D_1800, "FREQ=DAILY;COUNT=1", vec![ADMIN_STAFF]), AD).unwrap();

    let own = get_user_org_shifts(&store, ORG, &AuthenticatedUser { id: PLAIN_USER }).unwrap();
    assert_eq!(own.len(), 1);
    assert_eq!(own[0].start, D_0900);
    assert_eq!(own[0].end, D_1700);
    assert_eq!(own[0].extended_props, "{\"kind\":\"recurring\"}");

    let admins_own = get_user_org_shifts(&store, ORG, &AuthenticatedUser { id: ADMIN_USER }).unwrap();
    assert_eq!(admins_own.len(), 1);
    assert_eq!(admins_own[0].start, D_1700);
}

#[test]
fn non_member_admin_call_is_forbidden() {
    // A principal outside the organization calling the admin roster
    // endpoint: 403, no data.
    let mut store = seeded_store();
    create_shift(&mut store, &payload(D_0900, D_1700, "FREQ=DAILY;COUNT=1", vec![PLAIN_STAFF]), AD).unwrap();
    let r = get_org_shifts(&store, ORG, &AuthenticatedUser { id: 999 });
    assert_eq!(r.unwrap_err(), ApiError::Forbidden);
    assert_eq!(ApiError::Forbidden.status_code(), 403);
}

#[test]
fn plain_member_admin_call_is_forbidden() {
    let store = seeded_store();
    let r = get_org_shifts(&store, ORG, &AuthenticatedUser { id: PLAIN_USER });
    assert_eq!(r.unwrap_err(), ApiError::Forbidden);
}

#[test]
fn self_view_for_non_member_is_forbidden() {
    let store = seeded_store();
    let r = get_user_org_shifts(&store, ORG, &AuthenticatedUser { id: 999 });
    assert_eq!(r.unwrap_err(), ApiError::Forbidden);
}

#[test]
fn role_resolution_distinguishes_admin_and_member() {
    let store = seeded_store();
    assert_eq!(resolve_role(&store, ORG, ADMIN_USER), Ok(Capability::Admin));
    assert_eq!(resolve_role(&store, ORG, PLAIN_USER), Ok(Capability::Member));
    assert_eq!(resolve_role(&store, ORG, 999), Err(ApiError::Forbidden));
}

#[test]
fn org_user_lookup_returns_role_facts() {
    let store = seeded_store();
    let m = get_org_user(&store, ORG, ADMIN_USER).unwrap();
    assert_eq!(m.staff_id, ADMIN_STAFF);
    assert!(m.admin);
    assert_eq!(m.first_name, "Alice");
    assert!(get_org_user(&store, ORG, 999).is_err());
}

#[test]
fn error_status_codes_follow_the_taxonomy() {
    assert_eq!(ApiError::Unauthenticated.status_code(), 401);
    assert_eq!(ApiError::Forbidden.status_code(), 403);
    assert_eq!(ApiError::Validation(ValidationFault::BadRecurrenceRule).status_code(), 400);
    assert_eq!(ApiError::Conflict { staff_id: 1, conflicting_shift_id: 2 }.status_code(), 409);
    assert_eq!(ApiError::Persistence.status_code(), 500);
}

#[test]
fn exhausted_id_space_is_a_persistence_error() {
    let mut store = seeded_store();
    store.next_shift_id = u64::MAX - 1;
    let r = create_shift(&mut store, &payload(D_0900, D_1700, "FREQ=DAILY;COUNT=3", vec![]), AD);
    assert_eq!(r, Err(ApiError::Persistence));
    assert_eq!(store.shifts.len(), 0);
}

#[test]
fn non_member_cannot_create_shifts() {
    let mut store = seeded_store();
    let outsider = AuthenticatedUser { id: 999 };
    let r = create_shift(&mut store, &payload(D_0900, D_1700, "FREQ=DAILY;COUNT=1", vec![PLAIN_STAFF]), &outsider);
    assert_eq!(r, Err(ApiError::Forbidden));
    assert_eq!(store.shifts.len(), 0);
}

#[test]
fn duplicate_membership_rows_are_rejected() {
    let mut store = seeded_store();
    assert!(store.add_staff(member(ADMIN_STAFF, 555, false, "Copy")).is_none());
    assert!(store.add_staff(member(77, ADMIN_USER, false, "Copy")).is_none());
    assert_eq!(store.staff.len(), 2);
}

#[test]
fn pre_1970_shift_creation_succeeds() {
    let mut store = seeded_store();
    let start: i64 = -2 * 86400;
    let r = create_shift(
        &mut store,
        &payload(start, start + 8 * 3600, "FREQ=DAILY;COUNT=1", vec![PLAIN_STAFF]),
        AD,
    );
    assert_eq!(r, Ok((1, vec![1])));
    assert_eq!(store.shifts[0].start, start);
}

#[test]
fn wf_check_accepts_consistent_rows() {
    let mut store = seeded_store();
    create_shift(&mut store, &payload(D_0900, D_1700, "FREQ=DAILY;COUNT=2", vec![PLAIN_STAFF]), AD)
        .unwrap();
    assert!(store.check_wf());
}

#[test]
fn wf_check_rejects_inconsistent_rows() {
    // Rows as a foreign writer might have left them: two assignments of one
    // staff member on overlapping shifts.
    fn shift(id: u64, start: i64, end: i64) -> Shift {
        Shift {
            id,
            organization_id: ORG,
            location_id: LOC,
            start,
            end,
            rrule: String::new(),
            notes: String::new(),
            extended_props: "null".to_string(),
        }
    }
    let mut store = seeded_store();
    store.shifts.push(shift(1, D_0900, D_1700));
    store.shifts.push(shift(2, D_1000, D_1800));
    store.next_shift_id = 3;
    store.assignments.push(Assignment { shift_id: 1, staff_id: PLAIN_STAFF });
    assert!(store.check_wf());
    store.assignments.push(Assignment { shift_id: 2, staff_id: PLAIN_STAFF });
    assert!(!store.check_wf());

    // An empty interval is rejected too.
    let mut bad = seeded_store();
    bad.shifts.push(shift(1, D_1700, D_0900));
    bad.next_shift_id = 2;
    assert!(!bad.check_wf());

    // A dangling assignment is rejected.
    let mut dangling = seeded_store();
    dangling.assignments.push(Assignment { shift_id: 9, staff_id: PLAIN_STAFF });
    assert!(!dangling.check_wf());
}
