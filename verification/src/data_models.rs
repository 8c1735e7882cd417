//! Stored rows: the four tables of the store, as plain values.
//! Identifiers are 128-bit integers, timestamps are microsecond counts.
use vstd::prelude::*;

use crate::json::{Jv, JsonVal};
use crate::models::{smap_v, ForeignKeyBehaviour, ForeignKeyType, StringMap};
use crate::text::views;

verus! {

/// Row of the schema table.
pub struct ObjectSchema {
    pub id: u128,
    pub api_version: String,
    pub kind: String,
    pub aliases: Vec<String>,
    pub json_schema: String,
}

pub struct ObjectSchemaV {
    pub id: u128,
    pub api_version: Seq<char>,
    pub kind: Seq<char>,
    pub aliases: Seq<Seq<char>>,
    pub json_schema: Seq<char>,
}

impl View for ObjectSchema {
    type V = ObjectSchemaV;

    open spec fn view(&self) -> ObjectSchemaV {
        ObjectSchemaV {
            id: self.id,
            api_version: self.api_version@,
            kind: self.kind@,
            aliases: views(self.aliases@),
            json_schema: self.json_schema@,
        }
    }
}

/// Row of the constraint table.
pub struct ForeignKeyConstraint {
    pub id: u128,
    pub api_version: String,
    pub kind: String,
    pub key_path: String,
    pub parent_key_path: Option<String>,
    pub ty: ForeignKeyType,
    pub behaviour: ForeignKeyBehaviour,
    pub foreign_key_kind: Option<String>,
}

pub struct ForeignKeyConstraintV {
    pub id: u128,
    pub api_version: Seq<char>,
    pub kind: Seq<char>,
    pub key_path: Seq<char>,
    pub parent_key_path: Option<Seq<char>>,
    pub ty: ForeignKeyType,
    pub behaviour: ForeignKeyBehaviour,
    pub foreign_key_kind: Option<Seq<char>>,
}

impl View for ForeignKeyConstraint {
    type V = ForeignKeyConstraintV;

    open spec fn view(&self) -> ForeignKeyConstraintV {
        ForeignKeyConstraintV {
            id: self.id,
            api_version: self.api_version@,
            kind: self.kind@,
            key_path: self.key_path@,
            parent_key_path: crate::models::opt_sv(self.parent_key_path),
            ty: self.ty,
            behaviour: self.behaviour,
            foreign_key_kind: crate::models::opt_sv(self.foreign_key_kind),
        }
    }
}

/// Row of the object table.
pub struct Object {
    pub id: u128,
    pub string_id: String,
    pub api_version: String,
    pub name: String,
    pub kind: String,
    pub created_at: i64,
    pub updated_at: i64,
    pub namespace: String,
    pub annotations: StringMap,
    pub labels: StringMap,
    pub owners: Vec<u128>,
    pub spec: JsonVal,
}

pub struct DbObjectV {
    pub id: u128,
    pub string_id: Seq<char>,
    pub api_version: Seq<char>,
    pub name: Seq<char>,
    pub kind: Seq<char>,
    pub created_at: i64,
    pub updated_at: i64,
    pub namespace: Seq<char>,
    pub annotations: Seq<(Seq<char>, Seq<char>)>,
    pub labels: Seq<(Seq<char>, Seq<char>)>,
    pub owners: Seq<u128>,
    pub spec: Jv,
}

impl View for Object {
    type V = DbObjectV;

    open spec fn view(&self) -> DbObjectV {
        DbObjectV {
            id: self.id,
            string_id: self.string_id@,
            api_version: self.api_version@,
            name: self.name@,
            kind: self.kind@,
            created_at: self.created_at,
            updated_at: self.updated_at,
            namespace: self.namespace@,
            annotations: smap_v(self.annotations@),
            labels: smap_v(self.labels@),
            owners: self.owners@,
            spec: self.spec@,
        }
    }
}

impl ObjectSchema {
    /// Copy with the same view.
    pub fn duplicate(&self) -> (r: Self)
        ensures
            r@ == self@,
    {
        ObjectSchema {
            id: self.id,
            api_version: self.api_version.clone(),
            kind: self.kind.clone(),
            aliases: crate::models::clone_strings(&self.aliases),
            json_schema: self.json_schema.clone(),
        }
    }
}

impl ForeignKeyConstraint {
    /// Copy with the same view.
    pub fn duplicate(&self) -> (r: Self)
        ensures
            r@ == self@,
    {
        ForeignKeyConstraint {
            id: self.id,
            api_version: self.api_version.clone(),
            kind: self.kind.clone(),
            key_path: self.key_path.clone(),
            parent_key_path: crate::models::clone_opt_string(&self.parent_key_path),
            ty: self.ty,
            behaviour: self.behaviour,
            foreign_key_kind: crate::models::clone_opt_string(&self.foreign_key_kind),
        }
    }
}

impl Object {
    /// Copy with the same view.
    pub fn duplicate(&self) -> (r: Self)
        ensures
            r@ == self@,
    {
        let mut owners: Vec<u128> = Vec::new();
        let mut i: usize = 0;
        while i < self.owners.len()
            invariant
                0 <= i <= self.owners.len(),
                owners@ == self.owners@.take(i as int),
            decreases self.owners.len() - i,
        {
            owners.push(self.owners[i]);
            proof {
                assert(owners@ =~= self.owners@.take(i + 1));
            }
            i = i + 1;
        }
        proof {
            assert(self.owners@.take(self.owners@.len() as int) =~= self.owners@);
        }
        Object {
            id: self.id,
            string_id: self.string_id.clone(),
            api_version: self.api_version.clone(),
            name: self.name.clone(),
            kind: self.kind.clone(),
            created_at: self.created_at,
            updated_at: self.updated_at,
            namespace: self.namespace.clone(),
            annotations: crate::models::clone_smap(&self.annotations),
            labels: crate::models::clone_smap(&self.labels),
            owners,
            spec: crate::json::deep_copy(&self.spec),
        }
    }
}

/// Projection of one stored object used while applying.
pub struct ObjectInfo {
    pub id: u128,
    pub string_id: String,
    pub created_at: i64,
}

pub struct ObjectInfoV {
    pub id: u128,
    pub string_id: Seq<char>,
    pub created_at: i64,
}

impl View for ObjectInfo {
    type V = ObjectInfoV;

    open spec fn view(&self) -> ObjectInfoV {
        ObjectInfoV { id: self.id, string_id: self.string_id@, created_at: self.created_at }
    }
}

/// One edge of the relation table.
#[derive(Clone, Copy, PartialEq, Eq, Structural, Debug)]
pub struct Relation {
    pub object_id: u128,
    pub foreign_object_id: u128,
    pub foreign_key_id: u128,
}

} // verus!
