//! The graph values that the index and change-tracking logic works on: property
//! values, tags, vertices, edges and index definitions.
//!
//! Property maps are kept as lists of `(name, value)` pairs; reading a name gives the
//! value of its last pair, as building a hash map from the list would.
use vstd::prelude::*;

verus! {

/// A property value. A floating-point value is held as its IEEE-754 bits.
#[derive(Debug, PartialEq)]
pub enum Value {
    Null,
    Bool(bool),
    Int(i64),
    Int64(i64),
    Float(u64),
    String(String),
    Bytes(Vec<u8>),
}

/// The mathematical form of a `Value`.
pub enum ValueView {
    Null,
    Bool(bool),
    Int(i64),
    Int64(i64),
    Float(u64),
    String(Seq<char>),
    Bytes(Seq<u8>),
}

impl View for Value {
    type V = ValueView;

    open spec fn view(&self) -> ValueView {
        match self {
            Value::Null => ValueView::Null,
            Value::Bool(b) => ValueView::Bool(*b),
            Value::Int(i) => ValueView::Int(*i),
            Value::Int64(i) => ValueView::Int64(*i),
            Value::Float(f) => ValueView::Float(*f),
            Value::String(s) => ValueView::String(s@),
            Value::Bytes(b) => ValueView::Bytes(b@),
        }
    }
}

fn clone_byte_vec(b: &Vec<u8>) -> (r: Vec<u8>)
    ensures
        r@ == b@,
{
    crate::bytes::bytes_to_vec(b.as_slice())
}

impl Clone for Value {
    fn clone(&self) -> (r: Self)
        ensures
            r@ == self@,
    {
        match self {
            Value::Null => Value::Null,
            Value::Bool(b) => Value::Bool(*b),
            Value::Int(i) => Value::Int(*i),
            Value::Int64(i) => Value::Int64(*i),
            Value::Float(f) => Value::Float(*f),
            Value::String(s) => Value::String(s.clone()),
            Value::Bytes(b) => Value::Bytes(clone_byte_vec(b)),
        }
    }
}

fn byte_vecs_eq(a: &Vec<u8>, b: &Vec<u8>) -> (r: bool)
    ensures
        r == (a@ == b@),
{
    crate::compression::bytes_eq(a.as_slice(), b.as_slice())
}

impl Value {
    /// Whether two values are the same.
    pub fn same_as(&self, other: &Value) -> (r: bool)
        ensures
            r == (self@ == other@),
    {
        match (self, other) {
            (Value::Null, Value::Null) => true,
            (Value::Bool(a), Value::Bool(b)) => *a == *b,
            (Value::Int(a), Value::Int(b)) => *a == *b,
            (Value::Int64(a), Value::Int64(b)) => *a == *b,
            (Value::Float(a), Value::Float(b)) => *a == *b,
            (Value::String(a), Value::String(b)) => a.eq(b),
            (Value::Bytes(a), Value::Bytes(b)) => byte_vecs_eq(a, b),
            _ => false,
        }
    }
}

/// A list of named property values.
pub type Properties = Vec<(String, Value)>;

/// The mathematical form of a property list.
pub open spec fn props_view(p: Seq<(String, Value)>) -> Seq<(Seq<char>, ValueView)> {
    p.map_values(|e: (String, Value)| (e.0@, e.1@))
}

/// The value of the last pair named `name`.
pub open spec fn lookup(p: Seq<(Seq<char>, ValueView)>, name: Seq<char>) -> Option<ValueView>
    decreases p.len(),
{
    if p.len() == 0 {
        None
    } else if p.last().0 == name {
        Some(p.last().1)
    } else {
        lookup(p.drop_last(), name)
    }
}

/// The names of a property list.
pub open spec fn prop_names(p: Seq<(Seq<char>, ValueView)>) -> Seq<Seq<char>> {
    p.map_values(|e: (Seq<char>, ValueView)| e.0)
}

/// Looks up the value of the last pair named `name`.
pub fn lookup_prop<'a>(props: &'a Properties, name: &String) -> (r: Option<&'a Value>)
    ensures
        match lookup(props_view(props@), name@) {
            Some(v) => r matches Some(x) && x@ == v,
            None => r is None,
        },
{
    let ghost pv = props_view(props@);
    let mut i: usize = props.len();
    assert(pv.subrange(0, i as int) =~= pv);
    while i > 0
        invariant
            i <= props@.len(),
            pv == props_view(props@),
            lookup(pv, name@) == lookup(pv.subrange(0, i as int), name@),
        decreases i,
    {
        let ghost q = pv.subrange(0, i as int);
        assert(q.drop_last() =~= pv.subrange(0, i as int - 1));
        if props[i - 1].0 == *name {
            return Some(&props[i - 1].1);
        }
        i = i - 1;
    }
    None
}

/// Copies a property list.
pub fn clone_props(props: &Properties) -> (r: Properties)
    ensures
        props_view(r@) == props_view(props@),
{
    let mut out: Properties = Vec::new();
    let mut i: usize = 0;
    while i < props.len()
        invariant
            i <= props@.len(),
            props_view(out@) =~= props_view(props@).subrange(0, i as int),
        decreases props@.len() - i,
    {
        let e = (props[i].0.clone(), props[i].1.clone());
        let ghost before = props_view(out@);
        out.push(e);
        proof {
            assert(props_view(out@) =~= before.push((props@[i as int].0@, props@[i as int].1@)));
            assert(props_view(props@).subrange(0, i as int + 1) =~= props_view(props@).subrange(0, i as int).push(
                (props@[i as int].0@, props@[i as int].1@),
            ));
        }
        i = i + 1;
    }
    assert(props_view(props@).subrange(0, i as int) =~= props_view(props@));
    out
}

/// A label of a vertex with its properties.
#[derive(Debug, PartialEq)]
pub struct Tag {
    pub name: String,
    pub properties: Properties,
}

/// The mathematical form of a `Tag`.
pub struct TagView {
    pub name: Seq<char>,
    pub properties: Seq<(Seq<char>, ValueView)>,
}

impl View for Tag {
    type V = TagView;

    open spec fn view(&self) -> TagView {
        TagView { name: self.name@, properties: props_view(self.properties@) }
    }
}

impl Tag {
    pub fn new(name: String, properties: Properties) -> (r: Self)
        ensures
            r.name == name,
            r.properties == properties,
    {
        Tag { name, properties }
    }
}

impl Clone for Tag {
    fn clone(&self) -> (r: Self)
        ensures
            r@ == self@,
    {
        Tag { name: self.name.clone(), properties: clone_props(&self.properties) }
    }
}

/// The mathematical form of a tag list.
pub open spec fn tags_view(t: Seq<Tag>) -> Seq<TagView> {
    t.map_values(|x: Tag| x@)
}

/// A vertex with its id, tags and own properties.
#[derive(Debug, PartialEq)]
pub struct Vertex {
    pub vid: Box<Value>,
    pub id: i64,
    pub tags: Vec<Tag>,
    pub properties: Properties,
}

fn clone_tags(tags: &Vec<Tag>) -> (r: Vec<Tag>)
    ensures
        tags_view(r@) == tags_view(tags@),
{
    let mut out: Vec<Tag> = Vec::new();
    let mut i: usize = 0;
    while i < tags.len()
        invariant
            i <= tags@.len(),
            tags_view(out@) == tags_view(tags@).subrange(0, i as int),
        decreases tags@.len() - i,
    {
        let t = tags[i].clone();
        let ghost tv = t@;
        assert(tv == tags@[i as int]@);
        let ghost before = tags_view(out@);
        out.push(t);
        proof {
            assert(tags_view(out@) =~= before.push(tv));
            assert(tags_view(tags@).subrange(0, i as int + 1) =~= tags_view(tags@).subrange(0, i as int).push(tv));
        }
        i = i + 1;
    }
    assert(tags_view(tags@).subrange(0, i as int) =~= tags_view(tags@));
    out
}

impl Clone for Vertex {
    fn clone(&self) -> (r: Self)
        ensures
            (*r.vid)@ == (*self.vid)@,
            r.id == self.id,
            tags_view(r.tags@) == tags_view(self.tags@),
            props_view(r.properties@) == props_view(self.properties@),
    {
        Vertex {
            vid: Box::new((*self.vid).clone()),
            id: self.id,
            tags: clone_tags(&self.tags),
            properties: clone_props(&self.properties),
        }
    }
}

/// An edge between two vertices.
#[derive(Debug, PartialEq)]
pub struct Edge {
    pub src: Box<Value>,
    pub dst: Box<Value>,
    pub edge_type: String,
    pub ranking: i64,
    pub id: i64,
    pub props: Properties,
}

/// The mathematical form of an `Edge`.
pub struct EdgeView {
    pub src: ValueView,
    pub dst: ValueView,
    pub edge_type: Seq<char>,
    pub ranking: i64,
    pub id: i64,
    pub props: Seq<(Seq<char>, ValueView)>,
}

impl View for Edge {
    type V = EdgeView;

    open spec fn view(&self) -> EdgeView {
        EdgeView {
            src: self.src@,
            dst: self.dst@,
            edge_type: self.edge_type@,
            ranking: self.ranking,
            id: self.id,
            props: props_view(self.props@),
        }
    }
}

impl Clone for Edge {
    fn clone(&self) -> (r: Self)
        ensures
            r@ == self@,
    {
        Edge {
            src: Box::new((*self.src).clone()),
            dst: Box::new((*self.dst).clone()),
            edge_type: self.edge_type.clone(),
            ranking: self.ranking,
            id: self.id,
            props: clone_props(&self.props),
        }
    }
}

/// The mathematical form of an edge list.
pub open spec fn edges_view(e: Seq<Edge>) -> Seq<EdgeView> {
    e.map_values(|x: Edge| x@)
}

/// Whether an index is defined on a tag or on an edge type.
#[derive(Debug, Clone, Copy, PartialEq, Eq, Structural)]
pub enum IndexType {
    TagIndex,
    EdgeIndex,
}

/// A field of an index: the property it covers.
#[derive(Debug, PartialEq)]
pub struct IndexField {
    pub name: String,
    pub value_type: Value,
    pub is_nullable: bool,
}

impl IndexField {
    pub fn new(name: String, value_type: Value, is_nullable: bool) -> (r: Self)
        ensures
            r.name == name,
            r.value_type == value_type,
            r.is_nullable == is_nullable,
    {
        IndexField { name, value_type, is_nullable }
    }
}

/// The settings an index is created from.
#[derive(Debug)]
pub struct IndexConfig {
    pub id: i32,
    pub name: String,
    pub space_id: u64,
    pub schema_name: String,
    pub fields: Vec<IndexField>,
    pub properties: Vec<String>,
    pub index_type: IndexType,
    pub is_unique: bool,
    pub partial_condition: Option<String>,
}

/// An index on the properties of a tag or an edge type.
#[derive(Debug)]
pub struct Index {
    pub id: i32,
    pub name: String,
    pub space_id: u64,
    pub schema_name: String,
    pub fields: Vec<IndexField>,
    pub properties: Vec<String>,
    pub index_type: IndexType,
    pub is_unique: bool,
    pub partial_condition: Option<String>,
}

/// What the index logic reads of an index: its name, the tag or edge type it is
/// defined on, and the names of its fields.
pub struct IndexView {
    pub name: Seq<char>,
    pub schema_name: Seq<char>,
    pub fields: Seq<Seq<char>>,
}

impl View for Index {
    type V = IndexView;

    open spec fn view(&self) -> IndexView {
        IndexView {
            name: self.name@,
            schema_name: self.schema_name@,
            fields: self.fields@.map_values(|f: IndexField| f.name@),
        }
    }
}

/// The mathematical form of an index list.
pub open spec fn indexes_view(s: Seq<Index>) -> Seq<IndexView> {
    s.map_values(|x: Index| x@)
}

impl Index {
    /// The index that `config` describes.
    pub fn new(config: IndexConfig) -> (r: Self)
        ensures
            r.id == config.id,
            r.name == config.name,
            r.space_id == config.space_id,
            r.schema_name == config.schema_name,
            r.fields == config.fields,
            r.properties == config.properties,
            r.index_type == config.index_type,
            r.is_unique == config.is_unique,
            r.partial_condition == config.partial_condition,
    {
        Index {
            id: config.id,
            name: config.name,
            space_id: config.space_id,
            schema_name: config.schema_name,
            fields: config.fields,
            properties: config.properties,
            index_type: config.index_type,
            is_unique: config.is_unique,
            partial_condition: config.partial_condition,
        }
    }
}

} // verus!
