//! Public data model: the wire shapes accepted and produced by the
//! store, and their mathematical views.
use vstd::prelude::*;

use crate::json::{Jv, JsonVal};
use crate::text::views;

verus! {

/// String-to-string map, kept as an association list in input order.
pub type StringMap = Vec<(String, String)>;

/// View of an optional string.
pub open spec fn opt_sv(o: Option<String>) -> Option<Seq<char>> {
    match o {
        Option::None => Option::None,
        Option::Some(s) => Option::Some(s@),
    }
}

/// View of a string map.
pub open spec fn smap_v(m: Seq<(String, String)>) -> Seq<(Seq<char>, Seq<char>)> {
    m.map_values(|p: (String, String)| (p.0@, p.1@))
}

/// View of an optional string map.
pub open spec fn opt_smap_v(o: Option<StringMap>) -> Option<Seq<(Seq<char>, Seq<char>)>> {
    match o {
        Option::None => Option::None,
        Option::Some(m) => Option::Some(smap_v(m@)),
    }
}

/// A kind whose schema accepts exactly the empty specification.
pub struct EmptyObject {}

/// Cache key: one registered type of object.
pub struct ObjectId {
    pub kind: String,
    pub api_version: String,
}

impl View for ObjectId {
    type V = (Seq<char>, Seq<char>);

    open spec fn view(&self) -> (Seq<char>, Seq<char>) {
        (self.kind@, self.api_version@)
    }
}

/// Cardinality of a declared reference.
#[derive(Clone, Copy, PartialEq, Eq, Structural, Debug)]
pub enum ForeignKeyType {
    One,
    OneOptional,
    OneOrMany,
    NoneOrMany,
}

/// Declared handling of a reference; stored but not consulted by the
/// apply path.
#[derive(Clone, Copy, PartialEq, Eq, Structural, Debug)]
pub enum ForeignKeyBehaviour {
    Fill,
    Ignore,
}

/// A reference declaration handed to seeding.
pub struct ForeignKey {
    pub path: String,
    pub ty: ForeignKeyType,
    pub behaviour: ForeignKeyBehaviour,
    pub foreign_kind: Option<String>,
    pub parent_path: Option<String>,
}

pub struct ForeignKeyV {
    pub path: Seq<char>,
    pub ty: ForeignKeyType,
    pub behaviour: ForeignKeyBehaviour,
    pub foreign_kind: Option<Seq<char>>,
    pub parent_path: Option<Seq<char>>,
}

impl View for ForeignKey {
    type V = ForeignKeyV;

    open spec fn view(&self) -> ForeignKeyV {
        ForeignKeyV {
            path: self.path@,
            ty: self.ty,
            behaviour: self.behaviour,
            foreign_kind: opt_sv(self.foreign_kind),
            parent_path: opt_sv(self.parent_path),
        }
    }
}

/// One owner reference of a stored object. The apply path reserves the
/// owner list and always leaves it empty.
pub struct ObjectOwner {
    pub api_version: String,
    pub kind: String,
    pub name: String,
    pub id: u128,
}

/// One incoming object: its metadata fields and an untyped spec.
pub struct Object {
    pub name: String,
    pub kind: Option<String>,
    pub api_version: Option<String>,
    pub namespace: Option<String>,
    pub annotations: Option<StringMap>,
    pub labels: Option<StringMap>,
    pub spec: JsonVal,
}

pub struct ObjectV {
    pub name: Seq<char>,
    pub kind: Option<Seq<char>>,
    pub api_version: Option<Seq<char>>,
    pub namespace: Option<Seq<char>>,
    pub annotations: Option<Seq<(Seq<char>, Seq<char>)>>,
    pub labels: Option<Seq<(Seq<char>, Seq<char>)>>,
    pub spec: Jv,
}

impl View for Object {
    type V = ObjectV;

    open spec fn view(&self) -> ObjectV {
        ObjectV {
            name: self.name@,
            kind: opt_sv(self.kind),
            api_version: opt_sv(self.api_version),
            namespace: opt_sv(self.namespace),
            annotations: opt_smap_v(self.annotations),
            labels: opt_smap_v(self.labels),
            spec: self.spec@,
        }
    }
}

/// One stored object as returned to the caller.
pub struct ReturnObject {
    pub id: u128,
    pub namespace: String,
    pub api_version: String,
    pub kind: String,
    pub name: String,
    pub created_at: i64,
    pub updated_at: i64,
    pub annotations: Option<StringMap>,
    pub labels: Option<StringMap>,
    pub owners: Option<Vec<u128>>,
    pub spec: JsonVal,
}

pub struct ReturnObjectV {
    pub id: u128,
    pub namespace: Seq<char>,
    pub api_version: Seq<char>,
    pub kind: Seq<char>,
    pub name: Seq<char>,
    pub created_at: i64,
    pub updated_at: i64,
    pub annotations: Option<Seq<(Seq<char>, Seq<char>)>>,
    pub labels: Option<Seq<(Seq<char>, Seq<char>)>>,
    pub owners: Option<Seq<u128>>,
    pub spec: Jv,
}

impl View for ReturnObject {
    type V = ReturnObjectV;

    open spec fn view(&self) -> ReturnObjectV {
        ReturnObjectV {
            id: self.id,
            namespace: self.namespace@,
            api_version: self.api_version@,
            kind: self.kind@,
            name: self.name@,
            created_at: self.created_at,
            updated_at: self.updated_at,
            annotations: opt_smap_v(self.annotations),
            labels: opt_smap_v(self.labels),
            owners: match self.owners {
                Option::None => Option::None,
                Option::Some(v) => Option::Some(v@),
            },
            spec: self.spec@,
        }
    }
}

/// Selection used by `get`.
pub struct GetObjectsFilter {
    pub namespace: Option<String>,
    pub kind: Option<String>,
    pub name: Option<String>,
    pub fill_child_foreign_keys: bool,
    pub fill_parent_foreign_keys: bool,
    pub ids: Option<Vec<u128>>,
    pub page: Option<usize>,
    pub page_size: Option<usize>,
}

pub struct GetObjectsFilterV {
    pub namespace: Option<Seq<char>>,
    pub kind: Option<Seq<char>>,
    pub name: Option<Seq<char>>,
    pub fill_child_foreign_keys: bool,
    pub fill_parent_foreign_keys: bool,
    pub ids: Option<Seq<u128>>,
    pub page: Option<usize>,
    pub page_size: Option<usize>,
}

impl View for GetObjectsFilter {
    type V = GetObjectsFilterV;

    open spec fn view(&self) -> GetObjectsFilterV {
        GetObjectsFilterV {
            namespace: opt_sv(self.namespace),
            kind: opt_sv(self.kind),
            name: opt_sv(self.name),
            fill_child_foreign_keys: self.fill_child_foreign_keys,
            fill_parent_foreign_keys: self.fill_parent_foreign_keys,
            ids: match self.ids {
                Option::None => Option::None,
                Option::Some(v) => Option::Some(v@),
            },
            page: self.page,
            page_size: self.page_size,
        }
    }
}

/// Selection used by object listings.
pub struct ListObjectsFilter {
    pub namespace: Option<String>,
    pub kind: Option<String>,
    pub name: Option<String>,
    pub page: Option<usize>,
    pub page_size: Option<usize>,
}

/// A `List` envelope in already-deserialized form.
pub struct ListOfObjects {
    pub kind: String,
    pub object_kind: Option<String>,
    pub object_api_version: Option<String>,
    pub list: Vec<Object>,
}

/// A request to remove one object.
pub struct DeleteObject {
    pub namespace: Option<String>,
    pub kind: String,
    pub name: String,
}

/// A registered schema as reported to the caller.
pub struct ResourceDefinition {
    pub api_version: String,
    pub kind: String,
    pub aliases: Vec<String>,
    pub json_schema: String,
}

pub struct ResourceDefinitionV {
    pub api_version: Seq<char>,
    pub kind: Seq<char>,
    pub aliases: Seq<Seq<char>>,
    pub json_schema: Seq<char>,
}

impl View for ResourceDefinition {
    type V = ResourceDefinitionV;

    open spec fn view(&self) -> ResourceDefinitionV {
        ResourceDefinitionV {
            api_version: self.api_version@,
            kind: self.kind@,
            aliases: views(self.aliases@),
            json_schema: self.json_schema@,
        }
    }
}

pub struct GetResourceDefinitionFilter {}

/// Summary row of one stored object.
pub struct ObjectInfo {
    pub namespace: String,
    pub id: u128,
    pub api_version: String,
    pub kind: String,
    pub name: String,
}

pub struct ObjectInfoV {
    pub namespace: Seq<char>,
    pub id: u128,
    pub api_version: Seq<char>,
    pub kind: Seq<char>,
    pub name: Seq<char>,
}

impl View for ObjectInfo {
    type V = ObjectInfoV;

    open spec fn view(&self) -> ObjectInfoV {
        ObjectInfoV {
            namespace: self.namespace@,
            id: self.id,
            api_version: self.api_version@,
            kind: self.kind@,
            name: self.name@,
        }
    }
}

pub struct ObjectInfos {
    pub infos: Vec<ObjectInfo>,
}

/// Selection used by summary listings.
pub struct GetObjectInfosFilter {
    pub namespace: Option<String>,
    pub kind: Option<String>,
    pub name: Option<String>,
    pub name_search_string: Option<String>,
    pub page: Option<usize>,
    pub page_size: Option<usize>,
}

pub struct GetObjectInfosFilterV {
    pub namespace: Option<Seq<char>>,
    pub kind: Option<Seq<char>>,
    pub name: Option<Seq<char>>,
    pub name_search_string: Option<Seq<char>>,
    pub page: Option<usize>,
    pub page_size: Option<usize>,
}

impl View for GetObjectInfosFilter {
    type V = GetObjectInfosFilterV;

    open spec fn view(&self) -> GetObjectInfosFilterV {
        GetObjectInfosFilterV {
            namespace: opt_sv(self.namespace),
            kind: opt_sv(self.kind),
            name: opt_sv(self.name),
            name_search_string: opt_sv(self.name_search_string),
            page: self.page,
            page_size: self.page_size,
        }
    }
}

/// Copy of a string map with the same view.
pub fn clone_smap(m: &StringMap) -> (r: StringMap)
    ensures
        smap_v(r@) == smap_v(m@),
{
    let mut out: StringMap = Vec::new();
    let mut i: usize = 0;
    while i < m.len()
        invariant
            0 <= i <= m.len(),
            out@.len() == i,
            forall|j: int|
                0 <= j < i ==> #[trigger] out@[j].0@ == m@[j].0@ && out@[j].1@ == m@[j].1@,
        decreases m.len() - i,
    {
        let k = m[i].0.clone();
        let v = m[i].1.clone();
        out.push((k, v));
        i = i + 1;
    }
    proof {
        assert(smap_v(out@) =~= smap_v(m@));
    }
    out
}

/// Copy of an optional string map with the same view.
pub fn clone_opt_smap(m: &Option<StringMap>) -> (r: Option<StringMap>)
    ensures
        opt_smap_v(r) == opt_smap_v(*m),
{
    match m {
        Option::None => Option::None,
        Option::Some(x) => Option::Some(clone_smap(x)),
    }
}

/// Copy of an optional string with the same view.
pub fn clone_opt_string(s: &Option<String>) -> (r: Option<String>)
    ensures
        opt_sv(r) == opt_sv(*s),
{
    match s {
        Option::None => Option::None,
        Option::Some(x) => Option::Some(x.clone()),
    }
}

/// Copy of a list of strings with the same views.
pub fn clone_strings(v: &Vec<String>) -> (r: Vec<String>)
    ensures
        views(r@) == views(v@),
{
    let mut out: Vec<String> = Vec::new();
    let mut i: usize = 0;
    while i < v.len()
        invariant
            0 <= i <= v.len(),
            out@.len() == i,
            forall|j: int| 0 <= j < i ==> #[trigger] out@[j]@ == v@[j]@,
        decreases v.len() - i,
    {
        let s = v[i].clone();
        out.push(s);
        i = i + 1;
    }
    proof {
        assert(views(out@) =~= views(v@));
    }
    out
}

/// True when a map is absent or holds no entry.
pub fn is_none_or_empty(v: &Option<StringMap>) -> (r: bool)
    ensures
        r == match opt_smap_v(*v) {
            Option::None => true,
            Option::Some(m) => m.len() == 0,
        },
{
    match v {
        Option::None => true,
        Option::Some(m) => m.len() == 0,
    }
}

} // verus!
