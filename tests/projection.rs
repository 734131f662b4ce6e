use contact_sync::contact::{Contact, ContactId};
use contact_sync::patch::{parse_patches, parse_with_id, FieldValue, ParseError, ParsedChange, Patch};
use contact_sync::text::millis_from_reading;
use contact_sync::repository::{plan_mutation, ContactRepository, Mutation, ReconcileError, StoreError};

fn contact(id: u128, first: &str, last: &str, created: i64, updated: i64) -> Contact {
    Contact {
        id: ContactId(id),
        first_name: first.to_string(),
        last_name: last.to_string(),
        phone: "555-123-4567".to_string(),
        email: "someone@example.com".to_string(),
        created_at: created,
        updated_at: updated,
    }
}

fn put(key: &str, value: &str) -> Patch {
    Patch::PutMap { key: key.to_string(), value: FieldValue::Str(value.to_string()) }
}

fn same(a: &Contact, b: &Contact) -> bool {
    a.id == b.id
        && a.first_name == b.first_name
        && a.last_name == b.last_name
        && a.phone == b.phone
        && a.email == b.email
        && a.created_at == b.created_at
        && a.updated_at == b.updated_at
}

const ID_TEXT: &str = "67e55044-10b1-426f-9247-bb680e5fe0c8";
const ID_VALUE: u128 = 0x67e5504410b1426f9247bb680e5fe0c8;

#[test]
fn round_trip_through_patches() {
    let c = contact(ID_VALUE, "John", "Doe", -1234567890123, 9223372036854775807);
    let patches = c.to_patches();
    assert_eq!(patches.len(), 8);
    assert_eq!(patches[0], Patch::PutMap { key: ID_TEXT.to_string(), value: FieldValue::Object });
    assert_eq!(patches[6], put("created_at", "-1234567890123"));
    match parse_patches(&patches) {
        Ok(ParsedChange::Upsert(back)) => assert!(same(&back, &c)),
        other => panic!("unexpected {:?}", other),
    }
}

#[test]
fn round_trip_of_a_new_contact() {
    let c = Contact::new("Amy", "Adams", "555-000-1111", "amy@example.com");
    assert_eq!(c.created_at, c.updated_at);
    match parse_patches(&c.to_patches()) {
        Ok(ParsedChange::Upsert(back)) => assert!(same(&back, &c)),
        other => panic!("unexpected {:?}", other),
    }
}

#[test]
fn update_sets_the_clock_reading() {
    let mut c = contact(1, "John", "Doe", 5, i64::MAX);
    let reading = c.update();
    assert_eq!(c.updated_at, millis_from_reading(reading));
    assert!(c.updated_at > 1_600_000_000_000);
    assert_eq!(c.created_at, 5);
    assert_eq!(c.first_name, "John");
}

#[test]
fn new_contacts_have_version_four_ids() {
    let c = Contact::new("Amy", "Adams", "555", "amy@example.com");
    assert_eq!((c.id.0 >> 76) & 15, 4);
    assert_eq!((c.id.0 >> 62) & 3, 2);
    assert!(c.created_at > 1_600_000_000_000);
}

#[test]
fn field_values_are_copied_verbatim() {
    let patches = vec![
        Patch::PutMap { key: ID_TEXT.to_string(), value: FieldValue::Object },
        put("first_name", "\"Jo\""),
        put("last_name", "Doe"),
        Patch::PutMap { key: "phone".to_string(), value: FieldValue::Scalar("42".to_string()) },
        put("nickname", "JD"),
        put("created_at", "+17"),
        put("updated_at", "0018"),
    ];
    match parse_patches(&patches) {
        Ok(ParsedChange::Upsert(c)) => {
            assert_eq!(c.id, ContactId(ID_VALUE));
            assert_eq!(c.first_name, "\"Jo\"");
            assert_eq!(c.phone, "42");
            assert_eq!(c.email, "");
            assert_eq!(c.created_at, 17);
            assert_eq!(c.updated_at, 18);
        }
        other => panic!("unexpected {:?}", other),
    }
}

#[test]
fn later_patches_win() {
    let patches = vec![
        Patch::PutMap { key: ID_TEXT.to_string(), value: FieldValue::Object },
        put("first_name", "John"),
        put("last_name", "Doe"),
        put("first_name", "Jack"),
        Patch::PutMap { key: "last_name".to_string(), value: FieldValue::Object },
    ];
    match parse_with_id(&patches, Some(7)) {
        Ok(ParsedChange::Upsert(c)) => {
            assert_eq!(c.id, ContactId(7));
            assert_eq!(c.first_name, "Jack");
            assert_eq!(c.last_name, "Doe");
        }
        other => panic!("unexpected {:?}", other),
    }
}

#[test]
fn empty_batch_is_refused() {
    assert!(matches!(parse_patches(&vec![]), Err(ParseError::EmptyBatch)));
}

#[test]
fn malformed_batch_is_refused() {
    let patches = vec![Patch::Other, put("first_name", "John")];
    assert!(matches!(parse_patches(&patches), Err(ParseError::MalformedBatch)));
}

#[test]
fn invalid_identifier_is_refused() {
    let patches = vec![Patch::PutMap { key: "not-an-id".to_string(), value: FieldValue::Object }];
    assert!(matches!(parse_patches(&patches), Err(ParseError::InvalidIdentifier)));
    let removal = vec![Patch::DeleteMap { key: "nope".to_string() }];
    assert!(matches!(parse_patches(&removal), Err(ParseError::InvalidIdentifier)));
}

#[test]
fn invalid_timestamp_is_refused() {
    let c = contact(ID_VALUE, "John", "Doe", 1, 2);
    let mut patches = c.to_patches();
    patches[7] = put("updated_at", "12x");
    assert!(matches!(parse_patches(&patches), Err(ParseError::InvalidTimestamp)));
    patches[7] = put("updated_at", "9223372036854775808");
    assert!(matches!(parse_patches(&patches), Err(ParseError::InvalidTimestamp)));
    patches[7] = Patch::PutMap { key: "created_at".to_string(), value: FieldValue::Scalar("5".to_string()) };
    assert!(matches!(parse_patches(&patches), Err(ParseError::InvalidTimestamp)));
}

#[test]
fn missing_last_name_is_refused_and_nothing_is_written() {
    let patches = vec![
        Patch::PutMap { key: ID_TEXT.to_string(), value: FieldValue::Object },
        put("first_name", "John"),
        put("phone", "555"),
    ];
    assert!(matches!(parse_patches(&patches), Err(ParseError::MissingRequiredField)));
    let mut repo = ContactRepository::new();
    let r = repo.apply_patches(patches);
    assert_eq!(r, Err(ReconcileError::Parse(ParseError::MissingRequiredField)));
    assert!(repo.all().is_empty());
}

#[test]
fn removal_ignores_what_follows() {
    let patches = vec![Patch::DeleteMap { key: ID_TEXT.to_string() }, Patch::Other];
    assert!(matches!(parse_patches(&patches), Ok(ParsedChange::Remove(ContactId(ID_VALUE)))));
}

#[test]
fn insert_then_find() {
    let c = contact(ID_VALUE, "John", "Doe", 10, 10);
    let mut repo = ContactRepository::new();
    assert!(repo.get_by_id(c.id).is_none());
    assert_eq!(repo.apply_patches(c.to_patches()), Ok(()));
    let found = repo.get_by_id(c.id).expect("row");
    assert!(same(&found, &c));
}

#[test]
fn update_preserves_creation_time() {
    let e = contact(ID_VALUE, "John", "Doe", 100, 100);
    let mut e2 = contact(ID_VALUE, "Johnny", "Doe", 555, 200);
    e2.phone = "555-987-6543".to_string();
    e2.email = "john.d@company.com".to_string();
    let mut repo = ContactRepository::new();
    repo.reconcile(ParsedChange::Upsert(e.clone()));
    repo.reconcile(ParsedChange::Upsert(e2.clone()));
    let row = repo.get_by_id(e.id).expect("row");
    assert_eq!(row.first_name, "Johnny");
    assert_eq!(row.phone, "555-987-6543");
    assert_eq!(row.email, "john.d@company.com");
    assert_eq!(row.updated_at, 200);
    assert_eq!(row.created_at, 100);
}

#[test]
fn delete_is_idempotent() {
    let mut repo = ContactRepository::new();
    let kept = contact(1, "Amy", "Adams", 1, 1);
    repo.reconcile(ParsedChange::Upsert(kept.clone()));
    repo.reconcile(ParsedChange::Remove(ContactId(2)));
    assert_eq!(repo.all().len(), 1);
    let gone = contact(3, "John", "Doe", 1, 1);
    repo.reconcile(ParsedChange::Upsert(gone.clone()));
    let removal = vec![Patch::DeleteMap { key: "00000000-0000-0000-0000-000000000003".to_string() }];
    assert_eq!(repo.apply_patches(removal.clone()), Ok(()));
    let once: Vec<u128> = repo.all().iter().map(|c| c.id.0).collect();
    assert_eq!(repo.apply_patches(removal), Ok(()));
    let twice: Vec<u128> = repo.all().iter().map(|c| c.id.0).collect();
    assert_eq!(once, vec![1]);
    assert_eq!(once, twice);
}

#[test]
fn empty_batch_is_a_no_op() {
    let mut repo = ContactRepository::new();
    repo.reconcile(ParsedChange::Upsert(contact(1, "Amy", "Adams", 1, 1)));
    assert_eq!(repo.apply_patches(vec![]), Ok(()));
    assert_eq!(repo.all().len(), 1);
}

#[test]
fn listing_order() {
    let mut repo = ContactRepository::new();
    repo.reconcile(ParsedChange::Upsert(contact(1, "John", "Doe", 1, 1)));
    repo.reconcile(ParsedChange::Upsert(contact(2, "Amy", "Adams", 1, 1)));
    repo.reconcile(ParsedChange::Upsert(contact(3, "Amy", "Doe", 1, 1)));
    let names: Vec<(String, String)> =
        repo.all().iter().map(|c| (c.last_name.clone(), c.first_name.clone())).collect();
    assert_eq!(
        names,
        vec![
            ("Adams".to_string(), "Amy".to_string()),
            ("Doe".to_string(), "Amy".to_string()),
            ("Doe".to_string(), "John".to_string()),
        ]
    );
}

#[test]
fn listing_order_is_by_code_point() {
    let mut repo = ContactRepository::new();
    repo.reconcile(ParsedChange::Upsert(contact(1, "b", "Doe", 1, 1)));
    repo.reconcile(ParsedChange::Upsert(contact(2, "B", "Doe", 1, 1)));
    repo.reconcile(ParsedChange::Upsert(contact(3, "Bb", "Doe", 1, 1)));
    repo.reconcile(ParsedChange::Upsert(contact(4, "Z", "D", 1, 1)));
    let ids: Vec<u128> = repo.all().iter().map(|c| c.id.0).collect();
    assert_eq!(ids, vec![4, 2, 3, 1]);
}

#[test]
fn duplicate_insert_is_refused() {
    let mut repo = ContactRepository::new();
    let c = contact(1, "Amy", "Adams", 1, 1);
    assert_eq!(repo.insert(&c), Ok(()));
    assert_eq!(repo.insert(&c), Err(StoreError::DuplicateId));
    assert_eq!(repo.all().len(), 1);
}

#[test]
fn update_of_absent_row_does_nothing() {
    let mut repo = ContactRepository::new();
    repo.update(&contact(1, "Amy", "Adams", 1, 1));
    assert!(repo.all().is_empty());
    repo.delete(ContactId(1));
    assert!(repo.all().is_empty());
}

#[test]
fn plan_chooses_insert_or_update() {
    let c = contact(1, "Amy", "Adams", 1, 1);
    assert!(matches!(plan_mutation(ParsedChange::Upsert(c.clone()), false), Mutation::Insert(_)));
    assert!(matches!(plan_mutation(ParsedChange::Upsert(c), true), Mutation::Update(_)));
    assert!(matches!(plan_mutation(ParsedChange::Remove(ContactId(1)), true), Mutation::Delete(ContactId(1))));
}

#[test]
fn new_at_stamps_both_times() {
    let c = Contact::new_at("John", "Doe", "555-123-4567", "john.doe@example.com", 42, 1700000000000);
    assert_eq!(c.id, ContactId(42));
    assert_eq!(c.first_name, "John");
    assert_eq!(c.email, "john.doe@example.com");
    assert_eq!(c.created_at, 1700000000000);
    assert_eq!(c.updated_at, 1700000000000);
}

#[test]
fn touch_at_sets_the_given_time() {
    let mut c = contact(1, "John", "Doe", 5, 10);
    c.touch_at(20);
    assert_eq!(c.updated_at, 20);
    assert_eq!(c.created_at, 5);
    c.touch_at(15);
    assert_eq!(c.updated_at, 15);
}

#[test]
fn clock_readings_become_millis() {
    assert_eq!(millis_from_reading(Some(1700000000123)), 1700000000123);
    assert_eq!(millis_from_reading(None), 0);
    assert_eq!(millis_from_reading(Some(u128::MAX)), i64::MAX);
    assert_eq!(millis_from_reading(Some(9223372036854775807)), i64::MAX);
}

#[test]
fn listing_does_not_depend_on_insertion_order() {
    let people = [(1, "John", "Doe"), (2, "Amy", "Adams"), (3, "Amy", "Doe"), (4, "Zed", "Ames")];
    let mut forward = ContactRepository::new();
    for (id, first, last) in people.iter() {
        forward.reconcile(ParsedChange::Upsert(contact(*id, first, last, 1, 1)));
    }
    let mut backward = ContactRepository::new();
    for (id, first, last) in people.iter().rev() {
        backward.reconcile(ParsedChange::Upsert(contact(*id, first, last, 1, 1)));
    }
    let a: Vec<u128> = forward.all().iter().map(|c| c.id.0).collect();
    let b: Vec<u128> = backward.all().iter().map(|c| c.id.0).collect();
    assert_eq!(a, vec![2, 4, 3, 1]);
    assert_eq!(a, b);
}
