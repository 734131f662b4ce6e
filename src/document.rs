//! Writes into the replicated document, through automerge.

use vstd::prelude::*;
use automerge::transaction::Transactable;
use automerge::{AutoCommit, AutomergeError, ObjId};

verus! {

#[verifier::external_type_specification]
#[verifier::external_body]
pub struct ExAutoCommit(automerge::AutoCommit);

#[verifier::external_type_specification]
#[verifier::external_body]
pub struct ExObjId(automerge::ObjId);

#[verifier::external_type_specification]
#[verifier::external_body]
pub struct ExAutomergeError(automerge::AutomergeError);

/// The document refused a write.
#[derive(Clone, Copy, Debug, PartialEq, Eq, Structural)]
pub enum DocumentError {
    Refused,
}

/// What the document holds at its root: for each key holding a map object,
/// the string scalars of that map, by key.
pub uninterp spec fn root_fields(d: AutoCommit) -> Map<Seq<char>, Map<Seq<char>, Seq<char>>>;

/// The map object that the root key `k` of the document holds now, if any.
pub uninterp spec fn root_obj(d: AutoCommit, k: Seq<char>) -> Option<ObjId>;

/// Relies on `Transactable::put_object` of `automerge::AutoCommit`: creates a
/// new, empty map object under `key` at the document's root, replacing what
/// stood there; on the root this cannot fail.
#[verifier::external_body]
pub(crate) fn put_root_map(doc: &mut AutoCommit, key: &str) -> (r: Result<ObjId, AutomergeError>)
    ensures
        r is Ok,
        r is Ok ==> root_obj(*final(doc), key@) == Some(r->Ok_0),
        forall|k: Seq<char>| k != key@ ==> root_obj(*final(doc), k) == root_obj(*old(doc), k),
        root_fields(*final(doc)) == root_fields(*old(doc)).insert(key@, Map::<Seq<char>, Seq<char>>::empty()),
{
    doc.put_object(automerge::ROOT, key, automerge::ObjType::Map)
}

/// Relies on `Transactable::put` of `automerge::AutoCommit`: sets `key` of the
/// map object `obj`, which the root key `root_key` holds, to the string
/// scalar `value`.
#[verifier::external_body]
pub(crate) fn put_text(doc: &mut AutoCommit, obj: &ObjId, root_key: &str, key: &str, value: &str) -> (r: Result<(), AutomergeError>)
    requires
        root_obj(*old(doc), root_key@) == Some(*obj),
        root_fields(*old(doc)).contains_key(root_key@),
    ensures
        r is Ok,
        forall|k: Seq<char>| root_obj(*final(doc), k) == root_obj(*old(doc), k),
        root_fields(*final(doc)) == root_fields(*old(doc)).insert(
            root_key@,
            root_fields(*old(doc))[root_key@].insert(key@, value@),
        ),
{
    doc.put(obj, key, value)
}

/// Relies on `Transactable::delete` of `automerge::AutoCommit`: removes `key`
/// from the document's root; on the root this cannot fail, and a key that is
/// absent is left absent.
#[verifier::external_body]
pub(crate) fn delete_root_key(doc: &mut AutoCommit, key: &str) -> (r: Result<(), AutomergeError>)
    ensures
        r is Ok,
        root_fields(*final(doc)) == root_fields(*old(doc)).remove(key@),
        root_obj(*final(doc), key@) is None,
        forall|k: Seq<char>| k != key@ ==> root_obj(*final(doc), k) == root_obj(*old(doc), k),
{
    doc.delete(automerge::ROOT, key)
}

} // verus!
