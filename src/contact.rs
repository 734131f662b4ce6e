//! The replicated entity: a contact record, the patch batch that describes
//! it into an empty document produces.

use vstd::prelude::*;
use vstd::string::StringExecFns;
use crate::text::{uuid_text, dec_text, i64_to_text, uuid_to_text, random_uuid, clock_millis, millis_from_reading, millis_of};
use crate::patch::{Patch, FieldValue, PatchView, ValueView, patches_view};
use crate::document::{DocumentError, put_root_map, put_text, delete_root_key, root_fields, root_obj};
use automerge::AutoCommit;

verus! {

/// The identity of a contact: a 128-bit identifier.
#[derive(Clone, Copy, Debug, PartialEq, Eq, Structural, Hash, PartialOrd, Ord)]
pub struct ContactId(pub u128);

/// A contact record.
#[derive(Clone, Debug)]
pub struct Contact {
    pub id: ContactId,
    pub first_name: String,
    pub last_name: String,
    pub phone: String,
    pub email: String,
    pub created_at: i64,
    pub updated_at: i64,
}

/// The mathematical value of a contact.
pub struct ContactView {
    pub id: ContactId,
    pub first_name: Seq<char>,
    pub last_name: Seq<char>,
    pub phone: Seq<char>,
    pub email: Seq<char>,
    pub created_at: i64,
    pub updated_at: i64,
}

impl View for Contact {
    type V = ContactView;

    open spec fn view(&self) -> ContactView {
        ContactView {
            id: self.id,
            first_name: self.first_name@,
            last_name: self.last_name@,
            phone: self.phone@,
            email: self.email@,
            created_at: self.created_at,
            updated_at: self.updated_at,
        }
    }
}

/// A field-set patch of `key` to the string `v`.
pub open spec fn put_str(key: Seq<char>, v: Seq<char>) -> PatchView {
    PatchView::PutMap { key, value: ValueView::Str(v) }
}

/// The patch batch that describes `c` as a new object: a field-set patch of
/// the identifier's text to an object, then one of each field to a string.
pub open spec fn patches_of(c: ContactView) -> Seq<PatchView> {
    seq![
        PatchView::PutMap { key: uuid_text(c.id.0), value: ValueView::Object },
        put_str("id"@, uuid_text(c.id.0)),
        put_str("first_name"@, c.first_name),
        put_str("last_name"@, c.last_name),
        put_str("phone"@, c.phone),
        put_str("email"@, c.email),
        put_str("created_at"@, dec_text(c.created_at as int)),
        put_str("updated_at"@, dec_text(c.updated_at as int)),
    ]
}

/// The fields of `c` as the document holds them: a name and a text each.
pub open spec fn entries_of(c: ContactView) -> Seq<(Seq<char>, Seq<char>)> {
    seq![
        ("id"@, uuid_text(c.id.0)),
        ("first_name"@, c.first_name),
        ("last_name"@, c.last_name),
        ("phone"@, c.phone),
        ("email"@, c.email),
        ("created_at"@, dec_text(c.created_at as int)),
        ("updated_at"@, dec_text(c.updated_at as int)),
    ]
}

/// The map of names to texts that the pairs `s` give, later pairs winning.
pub open spec fn entries_map(s: Seq<(Seq<char>, Seq<char>)>) -> Map<Seq<char>, Seq<char>>
    decreases s.len(),
{
    if s.len() == 0 {
        Map::empty()
    } else {
        entries_map(s.drop_last()).insert(s.last().0, s.last().1)
    }
}

fn entry(key: &str, v: String) -> (r: (String, String))
    ensures
        r.0@ == key@,
        r.1@ == v@,
{
    (String::from_str(key), v)
}

fn put_str_patch(key: &str, v: String) -> (r: Patch)
    ensures
        r@ == put_str(key@, v@),
{
    Patch::PutMap { key: String::from_str(key), value: FieldValue::Str(v) }
}

impl Contact {
    /// A new contact with identifier `id`, created and updated at `now`.
    pub fn new_at(first_name: &str, last_name: &str, phone: &str, email: &str, id: u128, now: i64) -> (r: Contact)
        ensures
            r.id == ContactId(id),
            r.first_name@ == first_name@,
            r.last_name@ == last_name@,
            r.phone@ == phone@,
            r.email@ == email@,
            r.created_at == now,
            r.updated_at == now,
    {
        Contact {
            id: ContactId(id),
            first_name: String::from_str(first_name),
            last_name: String::from_str(last_name),
            phone: String::from_str(phone),
            email: String::from_str(email),
            created_at: now,
            updated_at: now,
        }
    }

    /// A new contact with a fresh random identifier, created and updated at
    /// the clock's reading now (see `new_at`).
    pub fn new(first_name: &str, last_name: &str, phone: &str, email: &str) -> (r: Contact)
        ensures
            r.first_name@ == first_name@,
            r.last_name@ == last_name@,
            r.phone@ == phone@,
            r.email@ == email@,
            r.created_at == r.updated_at,
            r.created_at >= 0,
    {
        let now = millis_from_reading(clock_millis());
        Contact::new_at(first_name, last_name, phone, email, random_uuid(), now)
    }

    /// A copy of this contact.
    pub fn snapshot(&self) -> (r: Contact)
        ensures
            r@ == self@,
    {
        Contact {
            id: self.id,
            first_name: self.first_name.clone(),
            last_name: self.last_name.clone(),
            phone: self.phone.clone(),
            email: self.email.clone(),
            created_at: self.created_at,
            updated_at: self.updated_at,
        }
    }

    /// Marks the contact as updated at `now`.
    pub fn touch_at(&mut self, now: i64)
        ensures
            final(self).updated_at == now,
            final(self).id == old(self).id,
            final(self).first_name == old(self).first_name,
            final(self).last_name == old(self).last_name,
            final(self).phone == old(self).phone,
            final(self).email == old(self).email,
            final(self).created_at == old(self).created_at,
    {
        self.updated_at = now;
    }

    /// Marks the contact as updated at the clock's reading now (see `touch_at`),
    /// and returns that reading.
    pub fn update(&mut self) -> (reading: Option<u128>)
        ensures
            final(self).updated_at == millis_of(reading),
            final(self).id == old(self).id,
            final(self).first_name == old(self).first_name,
            final(self).last_name == old(self).last_name,
            final(self).phone == old(self).phone,
            final(self).email == old(self).email,
            final(self).created_at == old(self).created_at,
    {
        let reading = clock_millis();
        self.touch_at(millis_from_reading(reading));
        reading
    }

    /// The fields of this contact as the document holds them.
    pub fn field_entries(&self) -> (r: Vec<(String, String)>)
        ensures
            r@.len() == entries_of(self@).len(),
            forall|i: int| 0 <= i < r@.len() ==> (#[trigger] r@[i]).0@ == entries_of(self@)[i].0
                && r@[i].1@ == entries_of(self@)[i].1,
    {
        let mut r: Vec<(String, String)> = Vec::new();
        r.push(entry("id", uuid_to_text(self.id.0)));
        r.push(entry("first_name", self.first_name.clone()));
        r.push(entry("last_name", self.last_name.clone()));
        r.push(entry("phone", self.phone.clone()));
        r.push(entry("email", self.email.clone()));
        r.push(entry("created_at", i64_to_text(self.created_at)));
        r.push(entry("updated_at", i64_to_text(self.updated_at)));
        r
    }

    /// Writes this contact into `doc`: a map under the identifier's text at
    /// the root, holding each of `field_entries` as a string.
    pub fn save_to_automerge(&self, doc: &mut AutoCommit) -> (r: Result<(), DocumentError>)
        ensures
            r is Ok,
            root_fields(*final(doc)) == root_fields(*old(doc)).insert(
                uuid_text(self.id.0),
                entries_map(entries_of(self@)),
            ),
    {
        let ghost start = root_fields(*doc);
        let ghost k = uuid_text(self.id.0);
        let id_text = uuid_to_text(self.id.0);
        let obj = match put_root_map(doc, id_text.as_str()) {
            Ok(o) => o,
            Err(_) => {
                return Err(DocumentError::Refused);
            },
        };
        let entries = self.field_entries();
        let n = entries.len();
        let mut i: usize = 0;
        assert(entries_of(self@).subrange(0, 0) =~= Seq::<(Seq<char>, Seq<char>)>::empty());
        while i < n
            invariant
                n == entries@.len(),
                n == entries_of(self@).len(),
                0 <= i <= n,
                forall|j: int| 0 <= j < entries@.len() ==> (#[trigger] entries@[j]).0@ == entries_of(self@)[j].0
                    && entries@[j].1@ == entries_of(self@)[j].1,
                id_text@ == k,
                root_obj(*doc, k) == Some(obj),
                root_fields(*doc) == start.insert(k, entries_map(entries_of(self@).subrange(0, i as int))),
            decreases n - i,
        {
            let ghost pre = entries_of(self@).subrange(0, i as int);
            let ghost cur = entries_of(self@).subrange(0, i as int + 1);
            assert(cur.drop_last() =~= pre);
            assert(root_fields(*doc).contains_key(k));
            let w = put_text(doc, &obj, id_text.as_str(), entries[i].0.as_str(), entries[i].1.as_str());
            if w.is_err() {
                return Err(DocumentError::Refused);
            }
            assert(root_fields(*doc) =~= start.insert(k, entries_map(cur)));
            i += 1;
        }
        assert(entries_of(self@).subrange(0, n as int) =~= entries_of(self@));
        Ok(())
    }

    /// Removes this contact's map from the root of `doc`.
    pub fn delete_from_automerge(&self, doc: &mut AutoCommit) -> (r: Result<(), DocumentError>)
        ensures
            r is Ok,
            root_fields(*final(doc)) == root_fields(*old(doc)).remove(uuid_text(self.id.0)),
    {
        let id_text = uuid_to_text(self.id.0);
        match delete_root_key(doc, id_text.as_str()) {
            Ok(()) => Ok(()),
            Err(_) => Err(DocumentError::Refused),
        }
    }

    /// The patch batch that describes this contact as a new object.
    pub fn to_patches(&self) -> (r: Vec<Patch>)
        ensures
            patches_view(r@) == patches_of(self@),
    {
        let id_text = uuid_to_text(self.id.0);
        let mut r: Vec<Patch> = Vec::new();
        r.push(Patch::PutMap { key: id_text.clone(), value: FieldValue::Object });
        r.push(put_str_patch("id", id_text));
        r.push(put_str_patch("first_name", self.first_name.clone()));
        r.push(put_str_patch("last_name", self.last_name.clone()));
        r.push(put_str_patch("phone", self.phone.clone()));
        r.push(put_str_patch("email", self.email.clone()));
        r.push(put_str_patch("created_at", i64_to_text(self.created_at)));
        r.push(put_str_patch("updated_at", i64_to_text(self.updated_at)));
        assert(patches_view(r@) =~= patches_of(self@));
        r
    }
}

} // verus!
