//! Patches as the document layer emits them, and the parser that turns a
//! batch of them into a change of one contact.

use vstd::prelude::*;
use vstd::string::StringExecFns;
use crate::contact::{Contact, ContactId, ContactView, patches_of};
use crate::text::{i64_parse, uuid_parse_of, parse_i64, parse_uuid, lemma_i64_text_round_trip};

verus! {

/// The value a field-set patch puts.
#[derive(Clone, Debug, PartialEq, Eq)]
pub enum FieldValue {
    /// A string scalar.
    Str(String),
    /// Any other scalar, by its text.
    Scalar(String),
    /// A nested object.
    Object,
}

/// One change between two document states.
#[derive(Clone, Debug, PartialEq, Eq)]
pub enum Patch {
    /// A key of a map was set.
    PutMap { key: String, value: FieldValue },
    /// A key of a map was removed.
    DeleteMap { key: String },
    /// Any other kind of change.
    Other,
}

pub enum ValueView {
    Str(Seq<char>),
    Scalar(Seq<char>),
    Object,
}

pub enum PatchView {
    PutMap { key: Seq<char>, value: ValueView },
    DeleteMap { key: Seq<char> },
    Other,
}

impl View for FieldValue {
    type V = ValueView;

    open spec fn view(&self) -> ValueView {
        match self {
            FieldValue::Str(s) => ValueView::Str(s@),
            FieldValue::Scalar(s) => ValueView::Scalar(s@),
            FieldValue::Object => ValueView::Object,
        }
    }
}

impl View for Patch {
    type V = PatchView;

    open spec fn view(&self) -> PatchView {
        match self {
            Patch::PutMap { key, value } => PatchView::PutMap { key: key@, value: value@ },
            Patch::DeleteMap { key } => PatchView::DeleteMap { key: key@ },
            Patch::Other => PatchView::Other,
        }
    }
}

pub open spec fn patches_view(ps: Seq<Patch>) -> Seq<PatchView> {
    ps.map_values(|p: Patch| p@)
}


/// Why a patch batch yields no change.
#[derive(Clone, Copy, Debug, PartialEq, Eq, Structural)]
pub enum ParseError {
    /// The batch holds no patch.
    EmptyBatch,
    /// The first patch neither sets nor removes a key.
    MalformedBatch,
    /// The key of the first patch is no identifier.
    InvalidIdentifier,
    /// A timestamp field holds no decimal `i64`.
    InvalidTimestamp,
    /// The first or the last name is missing or empty.
    MissingRequiredField,
}

/// What a patch batch says of one contact.
#[derive(Clone, Debug)]
pub enum ParsedChange {
    /// The contact as it now stands.
    Upsert(Contact),
    /// The contact was removed.
    Remove(ContactId),
}

pub enum ChangeView {
    Upsert(ContactView),
    Remove(ContactId),
}

impl View for ParsedChange {
    type V = ChangeView;

    open spec fn view(&self) -> ChangeView {
        match self {
            ParsedChange::Upsert(c) => ChangeView::Upsert(c@),
            ParsedChange::Remove(id) => ChangeView::Remove(*id),
        }
    }
}

pub open spec fn result_view(r: Result<ParsedChange, ParseError>) -> Result<ChangeView, ParseError> {
    match r {
        Ok(c) => Ok(c@),
        Err(e) => Err(e),
    }
}

/// The text a value gives a string field, if any.
pub open spec fn value_text(v: ValueView) -> Option<Seq<char>> {
    match v {
        ValueView::Str(s) => Some(s),
        ValueView::Scalar(s) => Some(s),
        ValueView::Object => None,
    }
}

/// The text of the string field `name` after the patches `ps`: the last
/// scalar put under that key, or empty.
pub open spec fn text_field(ps: Seq<PatchView>, name: Seq<char>) -> Seq<char>
    decreases ps.len(),
{
    if ps.len() == 0 {
        Seq::empty()
    } else {
        match ps.last() {
            PatchView::PutMap { key, value } if key == name && value_text(value) is Some =>
                value_text(value)->Some_0,
            _ => text_field(ps.drop_last(), name),
        }
    }
}

/// The value of the timestamp field `name` after the patches `ps`: the last
/// string put under that key, read as a decimal, or zero.
pub open spec fn ts_field(ps: Seq<PatchView>, name: Seq<char>) -> i64
    decreases ps.len(),
{
    if ps.len() == 0 {
        0
    } else {
        match ps.last() {
            PatchView::PutMap { key, value: ValueView::Str(s) } if key == name =>
                match i64_parse(s) {
                    Some(x) => x,
                    None => 0,
                },
            _ => ts_field(ps.drop_last(), name),
        }
    }
}

pub open spec fn is_timestamp_key(key: Seq<char>) -> bool {
    key == "created_at"@ || key == "updated_at"@
}

/// A patch that puts into a timestamp field a scalar that is no decimal `i64`.
pub open spec fn bad_timestamp(p: PatchView) -> bool {
    match p {
        PatchView::PutMap { key, value } => is_timestamp_key(key) && match value {
            ValueView::Str(s) => i64_parse(s) is None,
            ValueView::Scalar(_) => true,
            ValueView::Object => false,
        },
        _ => false,
    }
}

pub open spec fn has_bad_timestamp(ps: Seq<PatchView>) -> bool {
    exists|i: int| 0 <= i < ps.len() && bad_timestamp(#[trigger] ps[i])
}

/// The contact that the field-set patches `ps` describe under identifier `id`.
pub open spec fn contact_of(ps: Seq<PatchView>, id: u128) -> ContactView {
    ContactView {
        id: ContactId(id),
        first_name: text_field(ps, "first_name"@),
        last_name: text_field(ps, "last_name"@),
        phone: text_field(ps, "phone"@),
        email: text_field(ps, "email"@),
        created_at: ts_field(ps, "created_at"@),
        updated_at: ts_field(ps, "updated_at"@),
    }
}

/// What the batch `ps` says, given what the key of its first patch reads as
/// an identifier (`id`).
pub open spec fn parse_given(ps: Seq<PatchView>, id: Option<u128>) -> Result<ChangeView, ParseError> {
    if ps.len() == 0 {
        Err(ParseError::EmptyBatch)
    } else {
        match ps[0] {
            PatchView::Other => Err(ParseError::MalformedBatch),
            PatchView::DeleteMap { .. } => match id {
                Some(v) => Ok(ChangeView::Remove(ContactId(v))),
                None => Err(ParseError::InvalidIdentifier),
            },
            PatchView::PutMap { .. } => match id {
                None => Err(ParseError::InvalidIdentifier),
                Some(v) => if has_bad_timestamp(ps) {
                    Err(ParseError::InvalidTimestamp)
                } else if text_field(ps, "first_name"@).len() == 0
                    || text_field(ps, "last_name"@).len() == 0 {
                    Err(ParseError::MissingRequiredField)
                } else {
                    Ok(ChangeView::Upsert(contact_of(ps, v)))
                },
            },
        }
    }
}

/// The key of the first patch, where it sets or removes one.
pub open spec fn first_key(ps: Seq<PatchView>) -> Option<Seq<char>> {
    if ps.len() == 0 {
        None
    } else {
        match ps[0] {
            PatchView::PutMap { key, .. } => Some(key),
            PatchView::DeleteMap { key } => Some(key),
            PatchView::Other => None,
        }
    }
}

/// What the batch `ps` says.
pub open spec fn parse_spec(ps: Seq<PatchView>) -> Result<ChangeView, ParseError> {
    parse_given(
        ps,
        match first_key(ps) {
            Some(k) => uuid_parse_of(k),
            None => None,
        },
    )
}

fn key_is(key: &String, name: &str) -> (r: bool)
    ensures
        r == (key@ == name@),
{
    let n = String::from_str(name);
    *key == n
}

/// Reads the timestamp in a patch value; `Err` where a scalar holds no decimal `i64`.
fn timestamp_value(value: &FieldValue, current: i64) -> (r: Result<i64, ParseError>)
    ensures
        match value@ {
            ValueView::Str(s) => match i64_parse(s) {
                Some(x) => r == Ok::<i64, ParseError>(x),
                None => r == Err::<i64, ParseError>(ParseError::InvalidTimestamp),
            },
            ValueView::Scalar(_) => r == Err::<i64, ParseError>(ParseError::InvalidTimestamp),
            ValueView::Object => r == Ok::<i64, ParseError>(current),
        },
{
    match value {
        FieldValue::Str(s) => match parse_i64(s.as_str()) {
            Some(x) => Ok(x),
            None => Err(ParseError::InvalidTimestamp),
        },
        FieldValue::Scalar(_) => Err(ParseError::InvalidTimestamp),
        FieldValue::Object => Ok(current),
    }
}

/// The text a patch value gives a string field, or `current` for an object.
fn text_value(value: &FieldValue, current: String) -> (r: String)
    ensures
        r@ == match value_text(value@) {
            Some(t) => t,
            None => current@,
        },
{
    match value {
        FieldValue::Str(s) => s.clone(),
        FieldValue::Scalar(s) => s.clone(),
        FieldValue::Object => current,
    }
}

/// Reads the batch `patches` given what the key of its first patch reads as
/// an identifier (`id`).
pub fn parse_with_id(patches: &Vec<Patch>, id: Option<u128>) -> (r: Result<ParsedChange, ParseError>)
    ensures
        result_view(r) == parse_given(patches_view(patches@), id),
{
    let ghost ps = patches_view(patches@);
    if patches.len() == 0 {
        return Err(ParseError::EmptyBatch);
    }
    assert(ps[0] == patches@[0]@);
    let v = match &patches[0] {
        Patch::Other => {
            return Err(ParseError::MalformedBatch);
        },
        Patch::DeleteMap { .. } => {
            return match id {
                Some(v) => Ok(ParsedChange::Remove(ContactId(v))),
                None => Err(ParseError::InvalidIdentifier),
            };
        },
        Patch::PutMap { .. } => match id {
            None => {
                return Err(ParseError::InvalidIdentifier);
            },
            Some(v) => v,
        },
    };
    let mut first_name = String::new();
    let mut last_name = String::new();
    let mut phone = String::new();
    let mut email = String::new();
    let mut created_at: i64 = 0;
    let mut updated_at: i64 = 0;
    let n = patches.len();
    let mut i: usize = 0;
    while i < n
        invariant
            n == patches.len(),
            ps == patches_view(patches@),
            0 <= i <= n,
            first_name@ == text_field(ps.subrange(0, i as int), "first_name"@),
            last_name@ == text_field(ps.subrange(0, i as int), "last_name"@),
            phone@ == text_field(ps.subrange(0, i as int), "phone"@),
            email@ == text_field(ps.subrange(0, i as int), "email"@),
            created_at == ts_field(ps.subrange(0, i as int), "created_at"@),
            updated_at == ts_field(ps.subrange(0, i as int), "updated_at"@),
            forall|j: int| 0 <= j < i ==> !bad_timestamp(#[trigger] ps[j]),
            ps[0] is PutMap,
            id == Some(v),
        decreases n - i,
    {
        let ghost pre = ps.subrange(0, i as int);
        let ghost cur = ps.subrange(0, i as int + 1);
        assert(cur.drop_last() =~= pre);
        assert(cur.last() == patches@[i as int]@);
        proof {
            reveal_strlit("first_name");
            reveal_strlit("last_name");
            reveal_strlit("phone");
            reveal_strlit("email");
            reveal_strlit("created_at");
            reveal_strlit("updated_at");
            assert("first_name"@[0] == 'f' && "last_name"@[0] == 'l' && "phone"@[0] == 'p');
            assert("email"@[0] == 'e' && "created_at"@[0] == 'c' && "updated_at"@[0] == 'u');
        }
        if let Patch::PutMap { key, value } = &patches[i] {
            if key_is(key, "first_name") {
                first_name = text_value(value, first_name);
            } else if key_is(key, "last_name") {
                last_name = text_value(value, last_name);
            } else if key_is(key, "phone") {
                phone = text_value(value, phone);
            } else if key_is(key, "email") {
                email = text_value(value, email);
            } else if key_is(key, "created_at") {
                match timestamp_value(value, created_at) {
                    Ok(x) => created_at = x,
                    Err(e) => {
                        assert(bad_timestamp(ps[i as int]));
                        return Err(e);
                    },
                }
            } else if key_is(key, "updated_at") {
                match timestamp_value(value, updated_at) {
                    Ok(x) => updated_at = x,
                    Err(e) => {
                        assert(bad_timestamp(ps[i as int]));
                        return Err(e);
                    },
                }
            }
        }
        i += 1;
    }
    assert(ps.subrange(0, n as int) =~= ps);
    if first_name.as_str().is_empty() || last_name.as_str().is_empty() {
        return Err(ParseError::MissingRequiredField);
    }
    Ok(ParsedChange::Upsert(Contact {
        id: ContactId(v),
        first_name,
        last_name,
        phone,
        email,
        created_at,
        updated_at,
    }))
}


/// Reading back the patch batch of a contact whose names are non-empty gives
/// the contact, every field as it was, once its identifier reads back.
pub proof fn lemma_round_trip(c: ContactView)
    requires
        c.first_name.len() > 0,
        c.last_name.len() > 0,
    ensures
        parse_given(patches_of(c), Some(c.id.0)) == Ok::<ChangeView, ParseError>(ChangeView::Upsert(c)),
{
    let ps = patches_of(c);
    reveal_with_fuel(text_field, 8);
    reveal_with_fuel(ts_field, 8);
    reveal_strlit("id");
    reveal_strlit("first_name");
    reveal_strlit("last_name");
    reveal_strlit("phone");
    reveal_strlit("email");
    reveal_strlit("created_at");
    reveal_strlit("updated_at");
    assert("first_name"@[0] == 'f' && "last_name"@[0] == 'l' && "phone"@[0] == 'p');
    assert("email"@[0] == 'e' && "created_at"@[0] == 'c' && "updated_at"@[0] == 'u');
    assert("id"@[0] == 'i');
    lemma_i64_text_round_trip(c.created_at);
    lemma_i64_text_round_trip(c.updated_at);
    assert(ps.drop_last() =~= ps.subrange(0, 7));
    assert(ps.subrange(0, 7).drop_last() =~= ps.subrange(0, 6));
    assert(ps.subrange(0, 6).drop_last() =~= ps.subrange(0, 5));
    assert(ps.subrange(0, 5).drop_last() =~= ps.subrange(0, 4));
    assert(ps.subrange(0, 4).drop_last() =~= ps.subrange(0, 3));
    assert(ps.subrange(0, 3).drop_last() =~= ps.subrange(0, 2));
    assert(ps.subrange(0, 2).drop_last() =~= ps.subrange(0, 1));
    assert(ps.subrange(0, 1).drop_last() =~= Seq::<PatchView>::empty());
    assert(!has_bad_timestamp(ps)) by {
        assert forall|i: int| 0 <= i < ps.len() implies !bad_timestamp(#[trigger] ps[i]) by {
            assert(0 <= i < 8);
        }
    }
    assert(contact_of(ps, c.id.0) == c);
}

proof fn lemma_text_field_unset(ps: Seq<PatchView>, name: Seq<char>)
    requires
        forall|i: int| 0 <= i < ps.len() ==> !(#[trigger] ps[i] matches PatchView::PutMap { key, .. } && key == name),
    ensures
        text_field(ps, name).len() == 0,
    decreases ps.len(),
{
    if ps.len() > 0 {
        assert(ps.last() == ps[ps.len() - 1]);
        lemma_text_field_unset(ps.drop_last(), name);
    }
}

/// A batch whose first patch sets a key that reads as an identifier, whose
/// timestamps are all decimal, and that never sets the last name, fails
/// with `MissingRequiredField`.
pub proof fn lemma_missing_last_name(ps: Seq<PatchView>)
    requires
        ps.len() > 0,
        ps[0] is PutMap,
        first_key(ps) matches Some(k) && uuid_parse_of(k) is Some,
        !has_bad_timestamp(ps),
        forall|i: int| 0 <= i < ps.len() ==> !(#[trigger] ps[i] matches PatchView::PutMap { key, .. } && key == "last_name"@),
    ensures
        parse_spec(ps) == Err::<ChangeView, ParseError>(ParseError::MissingRequiredField),
{
    lemma_text_field_unset(ps, "last_name"@);
}

/// Reads a patch batch into the change it describes.
pub fn parse_patches(patches: &Vec<Patch>) -> (r: Result<ParsedChange, ParseError>)
    ensures
        result_view(r) == parse_spec(patches_view(patches@)),
        forall|c: ContactView|
            #![trigger patches_of(c)]
            patches_view(patches@) == patches_of(c) && c.first_name.len() > 0 && c.last_name.len() > 0
                ==> result_view(r) == Ok::<ChangeView, ParseError>(ChangeView::Upsert(c)),
{
    let ghost ps = patches_view(patches@);
    let id = if patches.len() == 0 {
        None
    } else {
        assert(ps[0] == patches@[0]@);
        match &patches[0] {
            Patch::PutMap { key, .. } => parse_uuid(key.as_str()),
            Patch::DeleteMap { key } => parse_uuid(key.as_str()),
            Patch::Other => None,
        }
    };
    let r = parse_with_id(patches, id);
    proof {
        assert forall|c: ContactView|
            #![trigger patches_of(c)]
            ps == patches_of(c) && c.first_name.len() > 0 && c.last_name.len() > 0
                implies result_view(r) == Ok::<ChangeView, ParseError>(ChangeView::Upsert(c)) by {
            assert(ps[0] == patches_of(c)[0]);
            lemma_round_trip(c);
        }
    }
    r
}

} // verus!
