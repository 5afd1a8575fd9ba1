use shift_scheduler::people::{get_people, get_person};
use shift_scheduler::users::{LoginRequest, NewUser, User, UserClient, UserWithToken};

#[test]
fn people_directory_is_fixed() {
    let people = get_people();
    assert_eq!(people.len(), 3);
    assert_eq!(people[0].name, "Person A");
    assert_eq!(people[0].age, 36);
    assert_eq!(people[0].favourite_food.as_deref(), Some("Pizza"));
    assert_eq!(people[1].name, "Person B");
    assert_eq!(people[1].age, 5);
    assert_eq!(people[1].favourite_food.as_deref(), Some("Broccoli"));
    assert_eq!(people[2].name, "Person Zoolander");
    assert_eq!(people[2].age, 100);
    assert_eq!(people[2].favourite_food, None);
}

#[test]
fn single_person_lookup() {
    let p = get_person();
    assert_eq!(p.name, "PPDB PERSON ZZZZZ 2222");
    assert_eq!(p.age, 36);
    assert_eq!(p.favourite_food.as_deref(), Some("Pizza"));
}

#[test]
fn user_row_keeps_its_hash_private_but_readable() {
    let u = User::new(
        7,
        "Ada".to_string(),
        "Lovelace".to_string(),
        "ada@example.com".to_string(),
        "$2b$12$abcdefghijklmnopqrstuv".to_string(),
    );
    assert_eq!(u.id, 7);
    assert_eq!(u.first_name, "Ada");
    assert_eq!(u.email, "ada@example.com");
    assert_eq!(u.password_hash(), "$2b$12$abcdefghijklmnopqrstuv");
}

#[test]
fn registration_request_carries_its_password() {
    let n = NewUser::new(
        "Ada".to_string(),
        "Lovelace".to_string(),
        "ada@example.com".to_string(),
        "hunter2".to_string(),
    );
    assert_eq!(n.first_name, "Ada");
    assert_eq!(n.password(), "hunter2");
}

#[test]
fn boundary_records_compose() {
    let login = LoginRequest { email: "ada@example.com".to_string(), password: "pw".to_string() };
    assert_eq!(login.email, "ada@example.com");
    let with_token = UserWithToken {
        user: UserClient {
            id: 7,
            first_name: "Ada".to_string(),
            last_name: "Lovelace".to_string(),
            email: "ada@example.com".to_string(),
        },
        token: "token-value".to_string(),
    };
    assert_eq!(with_token.user.id, 7);
    assert_eq!(with_token.token, "token-value");
}
