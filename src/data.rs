use vstd::prelude::*;
use linked_hash_map::LinkedHashMap;
use crate::error::{PangError, ErrorModel};

verus! {

#[verifier::external_type_specification]
#[verifier::external_body]
#[verifier::reject_recursive_types(K)]
#[verifier::reject_recursive_types(V)]
#[verifier::reject_recursive_types(S)]
pub struct ExLinkedHashMap<K, V, S>(LinkedHashMap<K, V, S>);

/// The type of a stored value.
#[derive(Debug, Clone, Copy, PartialEq, Eq, Structural)]
#[allow(clippy::upper_case_acronyms)]
pub enum DataType {
    STRING,
    INTEGER,
    FLOAT,
}

/// A stored value. A float is kept as its decimal text.
#[derive(Debug, Clone, PartialEq)]
pub enum Data {
    Str(String),
    Int(i64),
    Float(String),
}

/// The model of a [`Data`].
pub enum Value {
    Str(Seq<char>),
    Int(i64),
    Float(Seq<char>),
}

impl View for Data {
    type V = Value;

    open spec fn view(&self) -> Value {
        match self {
            Data::Str(s) => Value::Str(s@),
            Data::Int(i) => Value::Int(*i),
            Data::Float(s) => Value::Float(s@),
        }
    }
}

pub open spec fn type_of(v: Value) -> DataType {
    match v {
        Value::Str(_) => DataType::STRING,
        Value::Int(_) => DataType::INTEGER,
        Value::Float(_) => DataType::FLOAT,
    }
}

impl Data {
    /// The type tag of the value.
    pub fn data_type(&self) -> (t: DataType)
        ensures
            t == type_of(self@),
    {
        match self {
            Data::Str(_) => DataType::STRING,
            Data::Int(_) => DataType::INTEGER,
            Data::Float(_) => DataType::FLOAT,
        }
    }

    /// A copy of the value.
    pub fn copy(&self) -> (r: Data)
        ensures
            r@ == self@,
    {
        match self {
            Data::Str(s) => Data::Str(s.clone()),
            Data::Int(i) => Data::Int(*i),
            Data::Float(s) => Data::Float(s.clone()),
        }
    }
}

/// The entries of a field map, in the map's order.
pub uninterp spec fn fields(m: LinkedHashMap<String, Data>) -> Seq<(Seq<char>, Value)>;

/// The index of the first entry with key `k`, or -1.
pub open spec fn key_index(s: Seq<(Seq<char>, Value)>, k: Seq<char>) -> int
    decreases s.len(),
{
    if s.len() == 0 {
        -1
    } else if s[0].0 == k {
        0
    } else {
        let r = key_index(s.drop_first(), k);
        if r < 0 {
            -1
        } else {
            r + 1
        }
    }
}

/// The value stored under `k`.
pub open spec fn lookup(s: Seq<(Seq<char>, Value)>, k: Seq<char>) -> Option<Value> {
    let i = key_index(s, k);
    if 0 <= i < s.len() {
        Some(s[i].1)
    } else {
        None
    }
}

/// The entries after inserting `v` under `k`: an entry with that key leaves
/// its place, and the new entry goes last.
pub open spec fn put(s: Seq<(Seq<char>, Value)>, k: Seq<char>, v: Value) -> Seq<(Seq<char>, Value)> {
    s.filter(|e: (Seq<char>, Value)| e.0 != k).push((k, v))
}

/// The entries after storing `v` under an existing key `k`, in place.
pub open spec fn replace(s: Seq<(Seq<char>, Value)>, k: Seq<char>, v: Value) -> Seq<(Seq<char>, Value)> {
    let i = key_index(s, k);
    if 0 <= i < s.len() {
        s.update(i, (k, v))
    } else {
        s
    }
}

/// Relies on LinkedHashMap::new: a map with no entries.
#[verifier::external_body]
fn new_fields() -> (m: LinkedHashMap<String, Data>)
    ensures
        fields(m) == Seq::<(Seq<char>, Value)>::empty(),
{
    LinkedHashMap::new()
}

/// Relies on LinkedHashMap::insert: an entry with the same key is replaced
/// and moved to the back (it is detached and attached again), a new key is
/// attached at the back.
#[verifier::external_body]
fn insert_field(m: &mut LinkedHashMap<String, Data>, k: String, v: Data)
    ensures
        fields(*final(m)) == put(fields(*old(m)), k@, v@),
{
    m.insert(k, v);
}

/// Relies on LinkedHashMap::get: the value stored under the key, if any.
#[verifier::external_body]
fn field_value<'a>(m: &'a LinkedHashMap<String, Data>, k: &String) -> (r: Option<&'a Data>)
    ensures
        match r {
            Some(d) => lookup(fields(*m), k@) == Some(d@),
            None => lookup(fields(*m), k@) is None,
        },
{
    m.get(k)
}

/// Relies on LinkedHashMap::get_mut: the value under an existing key is
/// overwritten in place; a missing key leaves the map as it is.
#[verifier::external_body]
fn set_field(m: &mut LinkedHashMap<String, Data>, k: &String, v: Data)
    ensures
        fields(*final(m)) == replace(fields(*old(m)), k@, v@),
{
    if let Some(slot) = m.get_mut(k) {
        *slot = v;
    }
}

/// Relies on LinkedHashMap::clone: the same entries in the same order (keys
/// and values are cloned one for one).
#[verifier::external_body]
fn copy_fields(m: &LinkedHashMap<String, Data>) -> (r: LinkedHashMap<String, Data>)
    ensures
        fields(r) == fields(*m),
{
    m.clone()
}

/// Relies on LinkedHashMap's `==`: same length and equal entries in the same
/// order (the derived `==` of `Data` compares the variant and its contents).
#[verifier::external_body]
fn same_fields(a: &LinkedHashMap<String, Data>, b: &LinkedHashMap<String, Data>) -> (r: bool)
    ensures
        r == (fields(*a) == fields(*b)),
{
    a == b
}

/// A named schema: field names with their default values, in order.
#[derive(Debug)]
pub struct Template {
    pub name: String,
    pub data: LinkedHashMap<String, Data>,
}

/// The model of a [`Template`].
pub struct TemplateModel {
    pub name: Seq<char>,
    pub data: Seq<(Seq<char>, Value)>,
}

impl View for Template {
    type V = TemplateModel;

    open spec fn view(&self) -> TemplateModel {
        TemplateModel { name: self.name@, data: fields(self.data) }
    }
}

/// A named record made from a template: it keeps a copy of the template and
/// its own field values.
#[derive(Debug)]
pub struct Instance {
    pub name: String,
    pub template: Template,
    pub data: LinkedHashMap<String, Data>,
}

/// The model of an [`Instance`].
pub struct InstanceModel {
    pub name: Seq<char>,
    pub template: TemplateModel,
    pub data: Seq<(Seq<char>, Value)>,
}

impl View for Instance {
    type V = InstanceModel;

    open spec fn view(&self) -> InstanceModel {
        InstanceModel { name: self.name@, template: self.template@, data: fields(self.data) }
    }
}

/// A new instance of `t` named `name`, with the template's defaults.
pub open spec fn instance_of(name: Seq<char>, t: TemplateModel) -> InstanceModel {
    InstanceModel { name, template: t, data: t.data }
}

/// Overwriting field `f` with `v`: the field must exist and hold a value of
/// the same type.
pub open spec fn overwrite_model(i: InstanceModel, f: Seq<char>, v: Value, loc: usize) -> Result<
    InstanceModel,
    ErrorModel,
> {
    match lookup(i.data, f) {
        None => Err(ErrorModel::DataNonExistent(loc)),
        Some(old) => if type_of(old) != type_of(v) {
            Err(ErrorModel::TypeMismatch(loc))
        } else {
            Ok(InstanceModel { data: replace(i.data, f, v), ..i })
        },
    }
}

impl Template {
    /// Starts a template named `name` with no fields.
    pub fn new(name: String) -> (b: TemplateBuilder)
        ensures
            b@ == (TemplateModel { name: name@, data: Seq::empty() }),
    {
        TemplateBuilder { name, data: new_fields() }
    }

    /// A copy of the template.
    pub fn copy(&self) -> (r: Template)
        ensures
            r@ == self@,
    {
        Template { name: self.name.clone(), data: copy_fields(&self.data) }
    }

    /// Whether two templates have the same name and the same fields in the
    /// same order.
    pub fn same_as(&self, other: &Template) -> (r: bool)
        ensures
            r == (self@ == other@),
    {
        self.name == other.name && same_fields(&self.data, &other.data)
    }
}

impl Instance {
    /// An instance of `template` named `name`, with the template's defaults.
    pub fn new(name: String, template: Template) -> (r: Self)
        ensures
            r@ == instance_of(name@, template@),
    {
        Self { data: copy_fields(&template.data), name, template }
    }

    /// A copy of the instance.
    pub fn copy(&self) -> (r: Instance)
        ensures
            r@ == self@,
    {
        Instance {
            name: self.name.clone(),
            template: self.template.copy(),
            data: copy_fields(&self.data),
        }
    }

    /// Overwrites field `name` with `data`; the field must exist and hold a
    /// value of the same type, else the instance is left as it is.
    pub fn overwrite(&mut self, name: String, data: Data, loc: usize) -> (r: Result<(), PangError>)
        ensures
            match overwrite_model(old(self)@, name@, data@, loc) {
                Ok(i) => r is Ok && final(self)@ == i,
                Err(e) => r is Err && r->Err_0@ == e && final(self)@ == old(self)@,
            },
    {
        let t = match field_value(&self.data, &name) {
            Some(d) => d.data_type(),
            None => return Err(PangError::DataNonExistent(loc)),
        };
        if t != data.data_type() {
            return Err(PangError::TypeMismatch(loc));
        }
        set_field(&mut self.data, &name, data);
        Ok(())
    }
}

/// Builds a [`Template`] field by field.
pub struct TemplateBuilder {
    name: String,
    data: LinkedHashMap<String, Data>,
}

impl View for TemplateBuilder {
    type V = TemplateModel;

    closed spec fn view(&self) -> TemplateModel {
        TemplateModel { name: self.name@, data: fields(self.data) }
    }
}

impl TemplateBuilder {
    /// The template built so far.
    pub fn build(self) -> (t: Template)
        ensures
            t@ == self@,
    {
        Template { name: self.name, data: self.data }
    }

    /// The builder with field `name` set to `data`; a field of that name is
    /// replaced and moves last.
    pub fn add_data(&self, name: String, data: Data) -> (r: Self)
        ensures
            r@ == (TemplateModel { name: self@.name, data: put(self@.data, name@, data@) }),
    {
        let mut map = copy_fields(&self.data);
        insert_field(&mut map, name, data);
        Self { name: self.name.clone(), data: map }
    }
}

} // verus!
