use automerge::{AutoCommit, ReadDoc, ROOT};
use contact_sync::contact::{Contact, ContactId};

#[test]
fn save_writes_every_field_and_delete_removes_the_object() {
    let c = Contact {
        id: ContactId(0x67e5504410b1426f9247bb680e5fe0c8),
        first_name: "John".to_string(),
        last_name: "Doe".to_string(),
        phone: "555-123-4567".to_string(),
        email: "john.doe@example.com".to_string(),
        created_at: 1700000000000,
        updated_at: 1700000000001,
    };
    let entries = c.field_entries();
    assert_eq!(entries.len(), 7);
    assert_eq!(entries[0], ("id".to_string(), "67e55044-10b1-426f-9247-bb680e5fe0c8".to_string()));
    assert_eq!(entries[6], ("updated_at".to_string(), "1700000000001".to_string()));
    let mut doc = AutoCommit::new();
    assert!(c.save_to_automerge(&mut doc).is_ok());
    let (_, obj) = doc.get(ROOT, "67e55044-10b1-426f-9247-bb680e5fe0c8").unwrap().expect("object");
    for (key, value) in entries.iter() {
        let (v, _) = doc.get(&obj, key.as_str()).unwrap().expect("field");
        assert_eq!(v.to_str(), Some(value.as_str()));
    }
    let (v, _) = doc.get(&obj, "created_at").unwrap().expect("field");
    assert_eq!(v.to_str(), Some("1700000000000"));
    assert_eq!(doc.keys(&obj).count(), 7);
    assert!(c.delete_from_automerge(&mut doc).is_ok());
    assert!(doc.get(ROOT, "67e55044-10b1-426f-9247-bb680e5fe0c8").unwrap().is_none());
    assert!(c.delete_from_automerge(&mut doc).is_ok());
}
