//! The identity-name directory.
//!
//! A bidirectional, write-once-per-name mapping between human-readable
//! display names and identities. A name is bound to an identity only the
//! first time that name is seen (first-writer-wins); there is no rebind
//! or unbind. An identity's display name, by contrast, is whatever name
//! it was most recently bound under.

use vstd::prelude::*;

use crate::identity::Identity;
use crate::keyed_list::KeyedList;

verus! {

/// The abstract value of a directory: the two directions of the mapping.
pub struct DirModel {
    pub name_to_id: Map<Seq<char>, Seq<u8>>,
    pub id_to_name: Map<Seq<u8>, Seq<char>>,
}

impl DirModel {
    /// Every identity's display name is a bound name that resolves back
    /// to that identity.
    pub open spec fn wf(self) -> bool {
        forall|p: Seq<u8>|
            self.id_to_name.contains_key(p) ==> {
                &&& self.name_to_id.contains_key(#[trigger] self.id_to_name[p])
                &&& self.name_to_id[self.id_to_name[p]] == p
            }
    }

    pub open spec fn empty() -> DirModel {
        DirModel {
            name_to_id: Map::<Seq<char>, Seq<u8>>::empty(),
            id_to_name: Map::<Seq<u8>, Seq<char>>::empty(),
        }
    }

    /// What binding a name does: nothing if the name is already bound;
    /// otherwise the name is bound to the identity and becomes the
    /// identity's display name.
    pub open spec fn bind_model(self, name: Seq<char>, id: Seq<u8>) -> DirModel {
        if self.name_to_id.contains_key(name) {
            self
        } else {
            DirModel {
                name_to_id: self.name_to_id.insert(name, id),
                id_to_name: self.id_to_name.insert(id, name),
            }
        }
    }
}

/// Binding a name preserves the directory's well-formedness.
pub proof fn lemma_bind_wf(d: DirModel, name: Seq<char>, id: Seq<u8>)
    requires
        d.wf(),
    ensures
        d.bind_model(name, id).wf(),
{
    let post = d.bind_model(name, id);
    if !d.name_to_id.contains_key(name) {
        assert forall|p: Seq<u8>| post.id_to_name.contains_key(p) implies {
            &&& post.name_to_id.contains_key(#[trigger] post.id_to_name[p])
            &&& post.name_to_id[post.id_to_name[p]] == p
        } by {
            if p != id {
                assert(d.id_to_name.contains_key(p));
                assert(d.name_to_id.contains_key(d.id_to_name[p]));
                assert(d.id_to_name[p] != name);
            }
        }
    }
}

/// First-writer-wins: once a name is bound, binding it again — to the
/// same or to a different identity — changes nothing, so the name keeps
/// resolving to the identity it was bound to first.
pub proof fn lemma_first_writer_wins(d: DirModel, name: Seq<char>, p1: Seq<u8>, p2: Seq<u8>)
    requires
        !d.name_to_id.contains_key(name),
    ensures
        d.bind_model(name, p1).name_to_id[name] == p1,
        d.bind_model(name, p1).bind_model(name, p2) == d.bind_model(name, p1),
{
}

/// The directory: both directions of the mapping, kept consistent.
pub struct Directory {
    name_to_id: KeyedList<String, Identity>,
    id_to_name: KeyedList<Identity, String>,
}

impl View for Directory {
    type V = DirModel;

    closed spec fn view(&self) -> DirModel {
        DirModel { name_to_id: self.name_to_id@, id_to_name: self.id_to_name@ }
    }
}

impl Directory {
    pub closed spec fn lists_wf(self) -> bool {
        self.name_to_id.wf() && self.id_to_name.wf()
    }

    pub open spec fn wf(self) -> bool {
        self.lists_wf() && self@.wf()
    }

    /// The empty directory.
    pub fn new() -> (r: Self)
        ensures
            r.wf(),
            r@ == DirModel::empty(),
    {
        let r = Directory { name_to_id: KeyedList::new(), id_to_name: KeyedList::new() };
        r
    }

    /// Binds `name` to `id` unless the name is already bound, and reports
    /// whether the bind happened.
    pub fn bind(&mut self, name: String, id: Identity) -> (r: bool)
        requires
            old(self).wf(),
        ensures
            final(self).wf(),
            final(self)@ == old(self)@.bind_model(name@, id@),
            r == !old(self)@.name_to_id.contains_key(name@),
    {
        if self.name_to_id.contains_key(&name) {
            return false;
        }
        let ghost pre = self@;
        let ghost n = name@;
        let ghost p = id@;
        let name2 = name.clone();
        let id2 = id.clone();
        self.name_to_id.insert(name, id);
        self.id_to_name.insert(id2, name2);
        proof {
            lemma_bind_wf(pre, n, p);
        }
        true
    }

    /// Resolves a bound name to the identity it was first bound to.
    pub fn resolve(&self, name: &String) -> (r: Option<&Identity>)
        requires
            self.wf(),
        ensures
            match r {
                Some(p) => self@.name_to_id.contains_key(name@) && p@ == self@.name_to_id[name@],
                None => !self@.name_to_id.contains_key(name@),
            },
    {
        self.name_to_id.get(name)
    }

    /// The display name an identity was most recently bound under.
    pub fn display_name(&self, id: &Identity) -> (r: Option<&String>)
        requires
            self.wf(),
        ensures
            match r {
                Some(n) => self@.id_to_name.contains_key(id@) && n@ == self@.id_to_name[id@],
                None => !self@.id_to_name.contains_key(id@),
            },
    {
        self.id_to_name.get(id)
    }
}

} // verus!
