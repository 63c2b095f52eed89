//! Keeping property indexes in step with data changes.
//!
//! The updater reads which indexes exist from an index metadata manager and hands
//! the entries to write or delete to an index data manager; both are traits for the
//! storage engine to implement. Which entries are written for a change is decided
//! by the plan functions of this module, which are exact; what the managers then do
//! with them is theirs.
use vstd::prelude::*;
use vstd::string::StringSliceAdditionalSpecFns;
use crate::error::StorageError;
use crate::model::{
    Value, ValueView, Tag, TagView, Edge, EdgeView, Index, IndexView, Properties, props_view, lookup, lookup_prop,
    tags_view, indexes_view,
};
use crate::mvcc::{Timestamp, MAX_TIMESTAMP};

verus! {

/// Whether two strings hold the same characters.
pub fn str_eq(a: &str, b: &str) -> (r: bool)
    ensures
        r == (a@ == b@),
{
    let r = crate::compression::bytes_eq(a.as_bytes(), b.as_bytes());
    proof {
        vstd::utf8::encode_utf8_decode_utf8(a@);
        vstd::utf8::encode_utf8_decode_utf8(b@);
    }
    r
}

/// The properties of `props` that the fields of an index cover, in field order,
/// each with its value.
pub open spec fn index_props_spec(fields: Seq<Seq<char>>, props: Seq<(Seq<char>, ValueView)>) -> Seq<
    (Seq<char>, ValueView),
>
    decreases fields.len(),
{
    if fields.len() == 0 {
        Seq::empty()
    } else {
        index_props_spec(fields.drop_last(), props) + match lookup(props, fields.last()) {
            Some(v) => seq![(fields.last(), v)],
            None => Seq::empty(),
        }
    }
}

/// One write to an index: the index and the property values to store under it.
#[derive(Debug)]
pub struct IndexWrite {
    pub index_name: String,
    pub props: Properties,
}

/// The mathematical form of an `IndexWrite`.
pub struct WriteView {
    pub index_name: Seq<char>,
    pub props: Seq<(Seq<char>, ValueView)>,
}

impl View for IndexWrite {
    type V = WriteView;

    open spec fn view(&self) -> WriteView {
        WriteView { index_name: self.index_name@, props: props_view(self.props@) }
    }
}

pub open spec fn writes_view(s: Seq<IndexWrite>) -> Seq<WriteView> {
    s.map_values(|w: IndexWrite| w@)
}

/// The write of index `i` for an element of type `schema` with properties `props`:
/// one write when the index is defined on that type and covers some property.
pub open spec fn write_for(i: IndexView, schema: Seq<char>, props: Seq<(Seq<char>, ValueView)>) -> Seq<WriteView> {
    if i.schema_name == schema && index_props_spec(i.fields, props).len() > 0 {
        seq![WriteView { index_name: i.name, props: index_props_spec(i.fields, props) }]
    } else {
        Seq::empty()
    }
}

/// The writes of all `indexes` for an element of type `schema`, in index order.
pub open spec fn writes_for(indexes: Seq<IndexView>, schema: Seq<char>, props: Seq<(Seq<char>, ValueView)>) -> Seq<
    WriteView,
>
    decreases indexes.len(),
{
    if indexes.len() == 0 {
        Seq::empty()
    } else {
        writes_for(indexes.drop_last(), schema, props) + write_for(indexes.last(), schema, props)
    }
}

/// The writes of index `i` for a vertex with `tags`, in tag order.
pub open spec fn tag_writes(i: IndexView, tags: Seq<TagView>) -> Seq<WriteView>
    decreases tags.len(),
{
    if tags.len() == 0 {
        Seq::empty()
    } else {
        tag_writes(i, tags.drop_last()) + write_for(i, tags.last().name, tags.last().properties)
    }
}

/// The writes of all `indexes` for a vertex with `tags`: index by index, tag by tag.
pub open spec fn vertex_writes(indexes: Seq<IndexView>, tags: Seq<TagView>) -> Seq<WriteView>
    decreases indexes.len(),
{
    if indexes.len() == 0 {
        Seq::empty()
    } else {
        vertex_writes(indexes.drop_last(), tags) + tag_writes(indexes.last(), tags)
    }
}

/// The names of the `indexes` defined on `schema`, in order.
pub open spec fn index_names_on(indexes: Seq<IndexView>, schema: Seq<char>) -> Seq<Seq<char>>
    decreases indexes.len(),
{
    if indexes.len() == 0 {
        Seq::empty()
    } else {
        index_names_on(indexes.drop_last(), schema) + if indexes.last().schema_name == schema {
            seq![indexes.last().name]
        } else {
            Seq::empty()
        }
    }
}

/// The property values that `index` covers in `props`.
pub fn index_props(index: &Index, props: &Properties) -> (r: Properties)
    ensures
        props_view(r@) == index_props_spec(index@.fields, props_view(props@)),
{
    let ghost fs = index@.fields;
    let mut out: Properties = Vec::new();
    let mut k: usize = 0;
    while k < index.fields.len()
        invariant
            k <= index.fields@.len(),
            fs == index@.fields,
            props_view(out@) == index_props_spec(fs.subrange(0, k as int), props_view(props@)),
        decreases index.fields@.len() - k,
    {
        let field = &index.fields[k];
        assert(fs.subrange(0, k as int + 1).drop_last() =~= fs.subrange(0, k as int));
        assert(fs[k as int] == field.name@);
        let ghost before = props_view(out@);
        match lookup_prop(props, &field.name) {
            Some(v) => {
                out.push((field.name.clone(), v.clone()));
                assert(props_view(out@) =~= before + seq![(field.name@, v@)]);
            },
            None => {},
        }
        k = k + 1;
    }
    assert(fs.subrange(0, k as int) =~= fs);
    out
}

fn push_write_for(out: &mut Vec<IndexWrite>, index: &Index, schema: &str, props: &Properties)
    ensures
        writes_view(final(out)@) == writes_view(old(out)@) + write_for(index@, schema@, props_view(props@)),
{
    if str_eq(index.schema_name.as_str(), schema) {
        let p = index_props(index, props);
        if p.len() > 0 {
            let ghost before = writes_view(out@);
            out.push(IndexWrite { index_name: index.name.clone(), props: p });
            assert(writes_view(out@) =~= before + write_for(index@, schema@, props_view(props@)));
            return ;
        }
    }
    assert(writes_view(out@) =~= writes_view(out@) + Seq::<WriteView>::empty());
}

/// The writes of `indexes` for an element of type `schema` with properties `props`.
pub fn index_writes_for(indexes: &Vec<Index>, schema: &str, props: &Properties) -> (r: Vec<IndexWrite>)
    ensures
        writes_view(r@) == writes_for(indexes_view(indexes@), schema@, props_view(props@)),
{
    let ghost iv = indexes_view(indexes@);
    let mut out: Vec<IndexWrite> = Vec::new();
    let mut k: usize = 0;
    while k < indexes.len()
        invariant
            k <= indexes@.len(),
            iv == indexes_view(indexes@),
            writes_view(out@) == writes_for(iv.subrange(0, k as int), schema@, props_view(props@)),
        decreases indexes@.len() - k,
    {
        assert(iv.subrange(0, k as int + 1).drop_last() =~= iv.subrange(0, k as int));
        push_write_for(&mut out, &indexes[k], schema, props);
        k = k + 1;
    }
    assert(iv.subrange(0, k as int) =~= iv);
    out
}

/// The writes of `indexes` for a vertex with `tags`.
pub fn vertex_index_writes(indexes: &Vec<Index>, tags: &[Tag]) -> (r: Vec<IndexWrite>)
    ensures
        writes_view(r@) == vertex_writes(indexes_view(indexes@), tags_view(tags@)),
{
    let ghost iv = indexes_view(indexes@);
    let ghost tv = tags_view(tags@);
    let mut out: Vec<IndexWrite> = Vec::new();
    let mut k: usize = 0;
    while k < indexes.len()
        invariant
            k <= indexes@.len(),
            iv == indexes_view(indexes@),
            tv == tags_view(tags@),
            writes_view(out@) == vertex_writes(iv.subrange(0, k as int), tv),
        decreases indexes@.len() - k,
    {
        let index = &indexes[k];
        assert(iv.subrange(0, k as int + 1).drop_last() =~= iv.subrange(0, k as int));
        let ghost base = writes_view(out@);
        let mut t: usize = 0;
        while t < tags.len()
            invariant
                t <= tags@.len(),
                tv == tags_view(tags@),
                writes_view(out@) == base + tag_writes(index@, tv.subrange(0, t as int)),
            decreases tags@.len() - t,
        {
            assert(tv.subrange(0, t as int + 1).drop_last() =~= tv.subrange(0, t as int));
            let tag = &tags[t];
            push_write_for(&mut out, index, tag.name.as_str(), &tag.properties);
            assert(writes_view(out@) =~= base + tag_writes(index@, tv.subrange(0, t as int + 1)));
            t = t + 1;
        }
        assert(tv.subrange(0, t as int) =~= tv);
        assert(iv[k as int] == index@);
        assert(writes_view(out@) =~= vertex_writes(iv.subrange(0, k as int + 1), tv));
        k = k + 1;
    }
    assert(iv.subrange(0, k as int) =~= iv);
    out
}

/// The names of the `indexes` defined on `schema`.
pub fn index_names_for(indexes: &Vec<Index>, schema: &str) -> (r: Vec<String>)
    ensures
        r@.map_values(|s: String| s@) == index_names_on(indexes_view(indexes@), schema@),
{
    let ghost iv = indexes_view(indexes@);
    let mut out: Vec<String> = Vec::new();
    let mut k: usize = 0;
    while k < indexes.len()
        invariant
            k <= indexes@.len(),
            iv == indexes_view(indexes@),
            out@.map_values(|s: String| s@) == index_names_on(iv.subrange(0, k as int), schema@),
        decreases indexes@.len() - k,
    {
        assert(iv.subrange(0, k as int + 1).drop_last() =~= iv.subrange(0, k as int));
        let ghost before = out@.map_values(|s: String| s@);
        if str_eq(indexes[k].schema_name.as_str(), schema) {
            out.push(indexes[k].name.clone());
            assert(out@.map_values(|s: String| s@) =~= before.push(iv[k as int].name));
        } else {
            assert(out@.map_values(|s: String| s@) =~= before);
        }
        assert(out@.map_values(|s: String| s@) =~= index_names_on(iv.subrange(0, k as int + 1), schema@));
        k = k + 1;
    }
    assert(iv.subrange(0, k as int) =~= iv);
    out
}

/// Where the index definitions of a space are kept. Implemented by the schema store.
pub trait IndexMetadataManager {
    /// The indexes defined on tags in the space.
    fn list_tag_indexes(&self, space_id: u64) -> Result<Vec<Index>, StorageError>;

    /// The indexes defined on edge types in the space.
    fn list_edge_indexes(&self, space_id: u64) -> Result<Vec<Index>, StorageError>;
}

/// Where index entries are kept. Implemented by the index store; the methods without
/// a timestamp write at `MAX_TIMESTAMP`.
pub trait IndexDataManager {
    fn update_vertex_indexes(
        &self,
        space_id: u64,
        vertex_id: &Value,
        index_name: &str,
        props: &[(String, Value)],
    ) -> Result<(), StorageError> {
        self.update_vertex_indexes_mvcc(space_id, vertex_id, index_name, props, MAX_TIMESTAMP)
    }

    fn update_vertex_indexes_mvcc(
        &self,
        space_id: u64,
        vertex_id: &Value,
        index_name: &str,
        props: &[(String, Value)],
        write_ts: Timestamp,
    ) -> Result<(), StorageError>;

    fn update_edge_indexes(
        &self,
        space_id: u64,
        src: &Value,
        dst: &Value,
        index_name: &str,
        props: &[(String, Value)],
    ) -> Result<(), StorageError> {
        self.update_edge_indexes_mvcc(space_id, src, dst, index_name, props, MAX_TIMESTAMP)
    }

    fn update_edge_indexes_mvcc(
        &self,
        space_id: u64,
        src: &Value,
        dst: &Value,
        index_name: &str,
        props: &[(String, Value)],
        write_ts: Timestamp,
    ) -> Result<(), StorageError>;

    fn delete_vertex_indexes(&self, space_id: u64, vertex_id: &Value) -> Result<(), StorageError> {
        self.delete_vertex_indexes_mvcc(space_id, vertex_id, MAX_TIMESTAMP)
    }

    fn delete_vertex_indexes_mvcc(&self, space_id: u64, vertex_id: &Value, write_ts: Timestamp) -> Result<
        (),
        StorageError,
    >;

    /// Deletes one entry of a vertex index.
    fn delete_vertex_index_single(
        &self,
        space_id: u64,
        vertex_id: &Value,
        index_name: &str,
        prop_value: &Value,
        write_ts: Timestamp,
    ) -> Result<(), StorageError> {
        self.delete_vertex_index_single_mvcc(space_id, vertex_id, index_name, prop_value, write_ts)
    }

    fn delete_vertex_index_single_mvcc(
        &self,
        space_id: u64,
        vertex_id: &Value,
        index_name: &str,
        prop_value: &Value,
        write_ts: Timestamp,
    ) -> Result<(), StorageError>;

    fn delete_edge_indexes(&self, space_id: u64, src: &Value, dst: &Value, index_names: &[String]) -> Result<
        (),
        StorageError,
    > {
        self.delete_edge_indexes_mvcc(space_id, src, dst, index_names, MAX_TIMESTAMP)
    }

    fn delete_edge_indexes_mvcc(
        &self,
        space_id: u64,
        src: &Value,
        dst: &Value,
        index_names: &[String],
        write_ts: Timestamp,
    ) -> Result<(), StorageError>;

    /// Deletes one entry of an edge index.
    fn delete_edge_index_single(
        &self,
        space_id: u64,
        src: &Value,
        dst: &Value,
        index_name: &str,
        prop_value: &Value,
        write_ts: Timestamp,
    ) -> Result<(), StorageError> {
        self.delete_edge_index_single_mvcc(space_id, src, dst, index_name, prop_value, write_ts)
    }

    fn delete_edge_index_single_mvcc(
        &self,
        space_id: u64,
        src: &Value,
        dst: &Value,
        index_name: &str,
        prop_value: &Value,
        write_ts: Timestamp,
    ) -> Result<(), StorageError>;

    fn delete_tag_indexes(&self, space_id: u64, vertex_id: &Value, tag_name: &str) -> Result<(), StorageError>;

    fn update_vertex_indexes_native(
        &self,
        space_id: u64,
        vertex_id: u64,
        index_name: &str,
        props: &[(String, Value)],
    ) -> Result<(), StorageError> {
        self.update_vertex_indexes_native_mvcc(space_id, vertex_id, index_name, props, MAX_TIMESTAMP)
    }

    fn update_vertex_indexes_native_mvcc(
        &self,
        space_id: u64,
        vertex_id: u64,
        index_name: &str,
        props: &[(String, Value)],
        write_ts: Timestamp,
    ) -> Result<(), StorageError>;

    fn delete_vertex_indexes_native(&self, space_id: u64, vertex_id: u64) -> Result<(), StorageError> {
        self.delete_vertex_indexes_native_mvcc(space_id, vertex_id, MAX_TIMESTAMP)
    }

    fn delete_vertex_indexes_native_mvcc(&self, space_id: u64, vertex_id: u64, write_ts: Timestamp) -> Result<
        (),
        StorageError,
    >;

    fn update_edge_indexes_native(
        &self,
        space_id: u64,
        src: u64,
        dst: u64,
        index_name: &str,
        props: &[(String, Value)],
    ) -> Result<(), StorageError> {
        self.update_edge_indexes_native_mvcc(space_id, src, dst, index_name, props, MAX_TIMESTAMP)
    }

    fn update_edge_indexes_native_mvcc(
        &self,
        space_id: u64,
        src: u64,
        dst: u64,
        index_name: &str,
        props: &[(String, Value)],
        write_ts: Timestamp,
    ) -> Result<(), StorageError>;

    fn delete_edge_indexes_native(&self, space_id: u64, src: u64, dst: u64, index_names: &[String]) -> Result<
        (),
        StorageError,
    > {
        self.delete_edge_indexes_native_mvcc(space_id, src, dst, index_names, MAX_TIMESTAMP)
    }

    fn delete_edge_indexes_native_mvcc(
        &self,
        space_id: u64,
        src: u64,
        dst: u64,
        index_names: &[String],
        write_ts: Timestamp,
    ) -> Result<(), StorageError>;
}

/// Keeps the indexes of one space consistent with the changes made to its data.
pub struct IndexUpdater<'a, I: IndexDataManager, M: IndexMetadataManager> {
    index_data_manager: &'a I,
    index_metadata_manager: &'a M,
    space_name: String,
    space_id: u64,
}

impl<'a, I: IndexDataManager, M: IndexMetadataManager> IndexUpdater<'a, I, M> {
    /// An updater for the space `space_id` named `space_name`.
    pub fn new(index_data_manager: &'a I, index_metadata_manager: &'a M, space_name: String, space_id: u64) -> (r:
        Self)
        ensures
            r.space_name_spec() == space_name@,
            r.space_id_spec() == space_id,
    {
        IndexUpdater { index_data_manager, index_metadata_manager, space_name, space_id }
    }

    pub closed spec fn space_name_spec(&self) -> Seq<char> {
        self.space_name@
    }

    pub closed spec fn space_id_spec(&self) -> u64 {
        self.space_id
    }

    /// The name of the space.
    pub fn space_name(&self) -> (r: &str)
        ensures
            r@ == self.space_name_spec(),
    {
        self.space_name.as_str()
    }

    /// The id of the space.
    pub fn space_id(&self) -> (r: u64)
        ensures
            r == self.space_id_spec(),
    {
        self.space_id
    }

    fn apply_vertex_writes(&self, vertex_id: &Value, writes: &Vec<IndexWrite>, write_ts: Timestamp) -> (r: Result<
        (),
        StorageError,
    >)
        ensures
            writes@.len() == 0 ==> r is Ok,
    {
        let mut k: usize = 0;
        while k < writes.len()
            invariant
                k <= writes@.len(),
            decreases writes@.len() - k,
        {
            let w = &writes[k];
            self.index_data_manager.update_vertex_indexes_mvcc(
                self.space_id,
                vertex_id,
                w.index_name.as_str(),
                w.props.as_slice(),
                write_ts,
            )?;
            k = k + 1;
        }
        Ok(())
    }

    fn apply_edge_writes(&self, edge: &Edge, writes: &Vec<IndexWrite>, write_ts: Timestamp) -> (r: Result<
        (),
        StorageError,
    >)
        ensures
            writes@.len() == 0 ==> r is Ok,
    {
        let mut k: usize = 0;
        while k < writes.len()
            invariant
                k <= writes@.len(),
            decreases writes@.len() - k,
        {
            let w = &writes[k];
            self.index_data_manager.update_edge_indexes_mvcc(
                self.space_id,
                &edge.src,
                &edge.dst,
                w.index_name.as_str(),
                w.props.as_slice(),
                write_ts,
            )?;
            k = k + 1;
        }
        Ok(())
    }

    /// Updates every index of the vertex's tags, writing at `MAX_TIMESTAMP`.
    pub fn update_vertex_indexes(&self, vertex_id: &Value, tags: &[Tag]) -> Result<(), StorageError> {
        self.update_vertex_indexes_mvcc(vertex_id, tags, MAX_TIMESTAMP)
    }

    /// Updates every index of the vertex's tags: each tag index of the space hands the
    /// data manager the writes `vertex_index_writes` plans, in order, until one fails.
    pub fn update_vertex_indexes_mvcc(&self, vertex_id: &Value, tags: &[Tag], write_ts: Timestamp) -> Result<
        (),
        StorageError,
    > {
        let indexes = self.index_metadata_manager.list_tag_indexes(self.space_id)?;
        let writes = vertex_index_writes(&indexes, tags);
        self.apply_vertex_writes(vertex_id, &writes, write_ts)
    }

    fn update_vertex_index_for_tag(&self, vertex_id: &Value, tag: &Tag, index: &Index) -> (r: Result<
        (),
        StorageError,
    >)
        ensures
            index_props_spec(index@.fields, props_view(tag.properties@)).len() == 0 ==> r is Ok,
    {
        self.update_vertex_index_for_tag_mvcc(vertex_id, tag, index, MAX_TIMESTAMP)
    }

    fn update_vertex_index_for_tag_mvcc(
        &self,
        vertex_id: &Value,
        tag: &Tag,
        index: &Index,
        write_ts: Timestamp,
    ) -> (r: Result<(), StorageError>)
        ensures
            index_props_spec(index@.fields, props_view(tag.properties@)).len() == 0 ==> r is Ok,
    {
        let index_props = index_props(index, &tag.properties);
        if index_props.len() > 0 {
            self.index_data_manager.update_vertex_indexes_mvcc(
                self.space_id,
                vertex_id,
                index.name.as_str(),
                index_props.as_slice(),
                write_ts,
            )?;
        }
        Ok(())
    }

    /// Deletes every index entry of the vertex, at `MAX_TIMESTAMP`.
    pub fn delete_vertex_indexes(&self, vertex_id: &Value) -> Result<(), StorageError> {
        self.delete_vertex_indexes_mvcc(vertex_id, MAX_TIMESTAMP)
    }

    /// Deletes every index entry of the vertex.
    pub fn delete_vertex_indexes_mvcc(&self, vertex_id: &Value, write_ts: Timestamp) -> Result<(), StorageError> {
        self.index_data_manager.delete_vertex_indexes_mvcc(self.space_id, vertex_id, write_ts)
    }

    /// Deletes the index entries of one tag of the vertex.
    pub fn delete_tag_indexes(&self, vertex_id: &Value, tag_name: &str) -> Result<(), StorageError> {
        self.index_data_manager.delete_tag_indexes(self.space_id, vertex_id, tag_name)
    }

    /// Updates every index of the edge's type, writing at `MAX_TIMESTAMP`.
    pub fn update_edge_indexes(&self, edge: &Edge) -> Result<(), StorageError> {
        self.update_edge_indexes_mvcc(edge, MAX_TIMESTAMP)
    }

    /// Updates every index of the edge's type: the data manager gets the writes that
    /// `index_writes_for` plans for the edge, in order, until one fails.
    pub fn update_edge_indexes_mvcc(&self, edge: &Edge, write_ts: Timestamp) -> Result<(), StorageError> {
        let indexes = self.index_metadata_manager.list_edge_indexes(self.space_id)?;
        let writes = index_writes_for(&indexes, edge.edge_type.as_str(), &edge.props);
        self.apply_edge_writes(edge, &writes, write_ts)
    }

    fn update_edge_index(&self, edge: &Edge, index: &Index) -> (r: Result<(), StorageError>)
        ensures
            index_props_spec(index@.fields, props_view(edge.props@)).len() == 0 ==> r is Ok,
    {
        self.update_edge_index_mvcc(edge, index, MAX_TIMESTAMP)
    }

    fn update_edge_index_mvcc(&self, edge: &Edge, index: &Index, write_ts: Timestamp) -> (r: Result<(), StorageError>)
        ensures
            index_props_spec(index@.fields, props_view(edge.props@)).len() == 0 ==> r is Ok,
    {
        let index_props = index_props(index, &edge.props);
        if index_props.len() > 0 {
            self.index_data_manager.update_edge_indexes_mvcc(
                self.space_id,
                &edge.src,
                &edge.dst,
                index.name.as_str(),
                index_props.as_slice(),
                write_ts,
            )?;
        }
        Ok(())
    }

    /// Deletes the edge's entries of every index of its type, at `MAX_TIMESTAMP`.
    pub fn delete_edge_indexes(&self, edge: &Edge) -> Result<(), StorageError> {
        self.delete_edge_indexes_mvcc(edge, MAX_TIMESTAMP)
    }

    /// Deletes the edge's entries of every index of its type: the data manager gets the
    /// names that `index_names_for` gives for the edge type.
    pub fn delete_edge_indexes_mvcc(&self, edge: &Edge, write_ts: Timestamp) -> Result<(), StorageError> {
        let indexes = self.index_metadata_manager.list_edge_indexes(self.space_id)?;
        let index_names = index_names_for(&indexes, edge.edge_type.as_str());
        self.index_data_manager.delete_edge_indexes_mvcc(
            self.space_id,
            &edge.src,
            &edge.dst,
            index_names.as_slice(),
            write_ts,
        )
    }

    /// Updates the indexes of each vertex in turn, stopping at the first failure.
    pub fn batch_update_vertex_indexes(&self, vertices: &[(Value, Vec<Tag>)]) -> (r: Result<(), StorageError>)
        ensures
            vertices@.len() == 0 ==> r is Ok,
    {
        let mut k: usize = 0;
        while k < vertices.len()
            invariant
                k <= vertices@.len(),
            decreases vertices@.len() - k,
        {
            self.update_vertex_indexes(&vertices[k].0, vertices[k].1.as_slice())?;
            k = k + 1;
        }
        Ok(())
    }

    /// Updates the indexes of each edge in turn, stopping at the first failure.
    pub fn batch_update_edge_indexes(&self, edges: &[Edge]) -> (r: Result<(), StorageError>)
        ensures
            edges@.len() == 0 ==> r is Ok,
    {
        let mut k: usize = 0;
        while k < edges.len()
            invariant
                k <= edges@.len(),
            decreases edges@.len() - k,
        {
            self.update_edge_indexes(&edges[k])?;
            k = k + 1;
        }
        Ok(())
    }

    /// Deletes the index entries of each vertex in turn, stopping at the first failure.
    pub fn batch_delete_vertex_indexes(&self, vertex_ids: &[Value]) -> (r: Result<(), StorageError>)
        ensures
            vertex_ids@.len() == 0 ==> r is Ok,
    {
        let mut k: usize = 0;
        while k < vertex_ids.len()
            invariant
                k <= vertex_ids@.len(),
            decreases vertex_ids@.len() - k,
        {
            self.delete_vertex_indexes(&vertex_ids[k])?;
            k = k + 1;
        }
        Ok(())
    }

    /// Deletes the index entries of each edge in turn, stopping at the first failure.
    pub fn batch_delete_edge_indexes(&self, edges: &[Edge]) -> (r: Result<(), StorageError>)
        ensures
            edges@.len() == 0 ==> r is Ok,
    {
        let mut k: usize = 0;
        while k < edges.len()
            invariant
                k <= edges@.len(),
            decreases edges@.len() - k,
        {
            self.delete_edge_indexes(&edges[k])?;
            k = k + 1;
        }
        Ok(())
    }

    /// Rewrites the entries of every index on the tag `tag_name` for the given vertices:
    /// vertex by vertex, index by index, each index that covers some property of the
    /// vertex's tag gets those property values (as `index_writes_for` plans them).
    pub fn rebuild_tag_indexes(&self, tag_name: &str, vertices: &[(Value, Tag)]) -> Result<(), StorageError> {
        let indexes = self.index_metadata_manager.list_tag_indexes(self.space_id)?;
        let mut k: usize = 0;
        while k < vertices.len()
            invariant
                k <= vertices@.len(),
            decreases vertices@.len() - k,
        {
            let mut j: usize = 0;
            while j < indexes.len()
                invariant
                    j <= indexes@.len(),
                    k < vertices@.len(),
                decreases indexes@.len() - j,
            {
                if str_eq(indexes[j].schema_name.as_str(), tag_name) {
                    self.update_vertex_index_for_tag(&vertices[k].0, &vertices[k].1, &indexes[j])?;
                }
                j = j + 1;
            }
            k = k + 1;
        }
        Ok(())
    }

    /// Rewrites the entries of every index on the edge type `edge_type` for the given
    /// edges: edge by edge, index by index, as `index_writes_for` plans them.
    pub fn rebuild_edge_indexes(&self, edge_type: &str, edges: &[Edge]) -> Result<(), StorageError> {
        let indexes = self.index_metadata_manager.list_edge_indexes(self.space_id)?;
        let mut k: usize = 0;
        while k < edges.len()
            invariant
                k <= edges@.len(),
            decreases edges@.len() - k,
        {
            let mut j: usize = 0;
            while j < indexes.len()
                invariant
                    j <= indexes@.len(),
                    k < edges@.len(),
                decreases indexes@.len() - j,
            {
                if str_eq(indexes[j].schema_name.as_str(), edge_type) {
                    self.update_edge_index(&edges[k], &indexes[j])?;
                }
                j = j + 1;
            }
            k = k + 1;
        }
        Ok(())
    }

    /// Updates the given index of a vertex known by its native id, at `MAX_TIMESTAMP`.
    pub fn update_vertex_indexes_native(&self, vertex_id: u64, index_name: &str, props: &[(String, Value)]) -> Result<
        (),
        StorageError,
    > {
        self.update_vertex_indexes_native_mvcc(vertex_id, index_name, props, MAX_TIMESTAMP)
    }

    pub fn update_vertex_indexes_native_mvcc(
        &self,
        vertex_id: u64,
        index_name: &str,
        props: &[(String, Value)],
        write_ts: Timestamp,
    ) -> Result<(), StorageError> {
        self.index_data_manager.update_vertex_indexes_native_mvcc(self.space_id, vertex_id, index_name, props, write_ts)
    }

    /// Deletes the index entries of a vertex known by its native id, at `MAX_TIMESTAMP`.
    pub fn delete_vertex_indexes_native(&self, vertex_id: u64) -> Result<(), StorageError> {
        self.delete_vertex_indexes_native_mvcc(vertex_id, MAX_TIMESTAMP)
    }

    pub fn delete_vertex_indexes_native_mvcc(&self, vertex_id: u64, write_ts: Timestamp) -> Result<(), StorageError> {
        self.index_data_manager.delete_vertex_indexes_native_mvcc(self.space_id, vertex_id, write_ts)
    }

    /// Updates the given index of an edge known by native ids, at `MAX_TIMESTAMP`.
    pub fn update_edge_indexes_native(&self, src: u64, dst: u64, index_name: &str, props: &[(String, Value)]) -> Result<
        (),
        StorageError,
    > {
        self.update_edge_indexes_native_mvcc(src, dst, index_name, props, MAX_TIMESTAMP)
    }

    pub fn update_edge_indexes_native_mvcc(
        &self,
        src: u64,
        dst: u64,
        index_name: &str,
        props: &[(String, Value)],
        write_ts: Timestamp,
    ) -> Result<(), StorageError> {
        self.index_data_manager.update_edge_indexes_native_mvcc(self.space_id, src, dst, index_name, props, write_ts)
    }

    /// Deletes the edge's entries of the named indexes, edge known by native ids, at `MAX_TIMESTAMP`.
    pub fn delete_edge_indexes_native(&self, src: u64, dst: u64, index_names: &[String]) -> Result<(), StorageError> {
        self.delete_edge_indexes_native_mvcc(src, dst, index_names, MAX_TIMESTAMP)
    }

    pub fn delete_edge_indexes_native_mvcc(&self, src: u64, dst: u64, index_names: &[String], write_ts: Timestamp) -> Result<
        (),
        StorageError,
    > {
        self.index_data_manager.delete_edge_indexes_native_mvcc(self.space_id, src, dst, index_names, write_ts)
    }
}


/// The mathematical form of an `IndexUndoEntry`.
pub enum UndoEntryView {
    InsertVertexIndex {
        space_id: u64,
        index_name: Seq<char>,
        vertex_id: ValueView,
        prop_name: Seq<char>,
        prop_value: ValueView,
    },
    DeleteVertexIndex {
        space_id: u64,
        index_name: Seq<char>,
        vertex_id: ValueView,
        prop_name: Seq<char>,
        prop_value: ValueView,
    },
    InsertEdgeIndex {
        space_id: u64,
        index_name: Seq<char>,
        src: ValueView,
        dst: ValueView,
        prop_name: Seq<char>,
        prop_value: ValueView,
    },
    DeleteEdgeIndex {
        space_id: u64,
        index_name: Seq<char>,
        src: ValueView,
        dst: ValueView,
        prop_name: Seq<char>,
        prop_value: ValueView,
    },
}

/// What a rollback must revert: an index entry that was inserted (and must be
/// deleted again) or deleted (and must be put back).
#[derive(Debug)]
pub enum IndexUndoEntry {
    InsertVertexIndex { space_id: u64, index_name: String, vertex_id: Value, prop_name: String, prop_value: Value },
    DeleteVertexIndex { space_id: u64, index_name: String, vertex_id: Value, prop_name: String, prop_value: Value },
    InsertEdgeIndex {
        space_id: u64,
        index_name: String,
        src: Value,
        dst: Value,
        prop_name: String,
        prop_value: Value,
    },
    DeleteEdgeIndex {
        space_id: u64,
        index_name: String,
        src: Value,
        dst: Value,
        prop_name: String,
        prop_value: Value,
    },
}

impl View for IndexUndoEntry {
    type V = UndoEntryView;

    open spec fn view(&self) -> UndoEntryView {
        match self {
            IndexUndoEntry::InsertVertexIndex { space_id, index_name, vertex_id, prop_name, prop_value } =>
                UndoEntryView::InsertVertexIndex {
                space_id: *space_id,
                index_name: index_name@,
                vertex_id: vertex_id@,
                prop_name: prop_name@,
                prop_value: prop_value@,
            },
            IndexUndoEntry::DeleteVertexIndex { space_id, index_name, vertex_id, prop_name, prop_value } =>
                UndoEntryView::DeleteVertexIndex {
                space_id: *space_id,
                index_name: index_name@,
                vertex_id: vertex_id@,
                prop_name: prop_name@,
                prop_value: prop_value@,
            },
            IndexUndoEntry::InsertEdgeIndex { space_id, index_name, src, dst, prop_name, prop_value } =>
                UndoEntryView::InsertEdgeIndex {
                space_id: *space_id,
                index_name: index_name@,
                src: src@,
                dst: dst@,
                prop_name: prop_name@,
                prop_value: prop_value@,
            },
            IndexUndoEntry::DeleteEdgeIndex { space_id, index_name, src, dst, prop_name, prop_value } =>
                UndoEntryView::DeleteEdgeIndex {
                space_id: *space_id,
                index_name: index_name@,
                src: src@,
                dst: dst@,
                prop_name: prop_name@,
                prop_value: prop_value@,
            },
        }
    }
}

impl IndexUndoEntry {
    pub fn insert_vertex_index(
        space_id: u64,
        index_name: String,
        vertex_id: Value,
        prop_name: String,
        prop_value: Value,
    ) -> (r: Self)
        ensures
            r == (IndexUndoEntry::InsertVertexIndex { space_id, index_name, vertex_id, prop_name, prop_value }),
    {
        IndexUndoEntry::InsertVertexIndex { space_id, index_name, vertex_id, prop_name, prop_value }
    }

    pub fn delete_vertex_index(
        space_id: u64,
        index_name: String,
        vertex_id: Value,
        prop_name: String,
        prop_value: Value,
    ) -> (r: Self)
        ensures
            r == (IndexUndoEntry::DeleteVertexIndex { space_id, index_name, vertex_id, prop_name, prop_value }),
    {
        IndexUndoEntry::DeleteVertexIndex { space_id, index_name, vertex_id, prop_name, prop_value }
    }

    pub fn insert_edge_index(
        space_id: u64,
        index_name: String,
        src: Value,
        dst: Value,
        prop_name: String,
        prop_value: Value,
    ) -> (r: Self)
        ensures
            r == (IndexUndoEntry::InsertEdgeIndex { space_id, index_name, src, dst, prop_name, prop_value }),
    {
        IndexUndoEntry::InsertEdgeIndex { space_id, index_name, src, dst, prop_name, prop_value }
    }

    pub fn delete_edge_index(
        space_id: u64,
        index_name: String,
        src: Value,
        dst: Value,
        prop_name: String,
        prop_value: Value,
    ) -> (r: Self)
        ensures
            r == (IndexUndoEntry::DeleteEdgeIndex { space_id, index_name, src, dst, prop_name, prop_value }),
    {
        IndexUndoEntry::DeleteEdgeIndex { space_id, index_name, src, dst, prop_name, prop_value }
    }
}

/// The undo entry of one vertex index property: an insertion to revert when
/// `inserted`, a deletion otherwise.
pub open spec fn vertex_entry(
    inserted: bool,
    space_id: u64,
    index_name: Seq<char>,
    vertex_id: ValueView,
    p: (Seq<char>, ValueView),
) -> UndoEntryView {
    if inserted {
        UndoEntryView::InsertVertexIndex { space_id, index_name, vertex_id, prop_name: p.0, prop_value: p.1 }
    } else {
        UndoEntryView::DeleteVertexIndex { space_id, index_name, vertex_id, prop_name: p.0, prop_value: p.1 }
    }
}

/// The undo entry of one edge index property.
pub open spec fn edge_entry(
    inserted: bool,
    space_id: u64,
    index_name: Seq<char>,
    src: ValueView,
    dst: ValueView,
    p: (Seq<char>, ValueView),
) -> UndoEntryView {
    if inserted {
        UndoEntryView::InsertEdgeIndex { space_id, index_name, src, dst, prop_name: p.0, prop_value: p.1 }
    } else {
        UndoEntryView::DeleteEdgeIndex { space_id, index_name, src, dst, prop_name: p.0, prop_value: p.1 }
    }
}

/// The undo entries for index `i` of a vertex with `tags`: for each tag the index is
/// defined on, one entry per property the index covers.
pub open spec fn tag_undo(inserted: bool, space_id: u64, i: IndexView, vid: ValueView, tags: Seq<TagView>) -> Seq<
    UndoEntryView,
>
    decreases tags.len(),
{
    if tags.len() == 0 {
        Seq::empty()
    } else {
        tag_undo(inserted, space_id, i, vid, tags.drop_last()) + if i.schema_name == tags.last().name {
            index_props_spec(i.fields, tags.last().properties).map_values(
                |p: (Seq<char>, ValueView)| vertex_entry(inserted, space_id, i.name, vid, p),
            )
        } else {
            Seq::empty()
        }
    }
}

/// The undo entries for all `indexes` of a vertex with `tags`.
pub open spec fn vertex_undo(
    inserted: bool,
    space_id: u64,
    indexes: Seq<IndexView>,
    vid: ValueView,
    tags: Seq<TagView>,
) -> Seq<UndoEntryView>
    decreases indexes.len(),
{
    if indexes.len() == 0 {
        Seq::empty()
    } else {
        vertex_undo(inserted, space_id, indexes.drop_last(), vid, tags) + tag_undo(
            inserted,
            space_id,
            indexes.last(),
            vid,
            tags,
        )
    }
}

/// The undo entries for all `indexes` of an edge: for each index on its type, one
/// entry per property the index covers.
pub open spec fn edge_undo(inserted: bool, space_id: u64, indexes: Seq<IndexView>, e: EdgeView) -> Seq<UndoEntryView>
    decreases indexes.len(),
{
    if indexes.len() == 0 {
        Seq::empty()
    } else {
        edge_undo(inserted, space_id, indexes.drop_last(), e) + if indexes.last().schema_name == e.edge_type {
            index_props_spec(indexes.last().fields, e.props).map_values(
                |p: (Seq<char>, ValueView)| edge_entry(inserted, space_id, indexes.last().name, e.src, e.dst, p),
            )
        } else {
            Seq::empty()
        }
    }
}

/// The undo entries that a list of vertex index writes calls for: one per written property.
pub open spec fn writes_undo(inserted: bool, space_id: u64, vid: ValueView, ws: Seq<WriteView>) -> Seq<UndoEntryView>
    decreases ws.len(),
{
    if ws.len() == 0 {
        Seq::empty()
    } else {
        writes_undo(inserted, space_id, vid, ws.drop_last()) + ws.last().props.map_values(
            |p: (Seq<char>, ValueView)| vertex_entry(inserted, space_id, ws.last().index_name, vid, p),
        )
    }
}

proof fn lemma_writes_undo_append(inserted: bool, space_id: u64, vid: ValueView, a: Seq<WriteView>, b: Seq<WriteView>)
    ensures
        writes_undo(inserted, space_id, vid, a + b) == writes_undo(inserted, space_id, vid, a) + writes_undo(
            inserted,
            space_id,
            vid,
            b,
        ),
    decreases b.len(),
{
    if b.len() == 0 {
        assert(a + b =~= a);
    } else {
        assert((a + b).drop_last() =~= a + b.drop_last());
        lemma_writes_undo_append(inserted, space_id, vid, a, b.drop_last());
    }
}

proof fn lemma_tag_undo_matches_writes(inserted: bool, space_id: u64, i: IndexView, vid: ValueView, tags: Seq<TagView>)
    ensures
        tag_undo(inserted, space_id, i, vid, tags) == writes_undo(inserted, space_id, vid, tag_writes(i, tags)),
    decreases tags.len(),
{
    if tags.len() > 0 {
        lemma_tag_undo_matches_writes(inserted, space_id, i, vid, tags.drop_last());
        let w = write_for(i, tags.last().name, tags.last().properties);
        lemma_writes_undo_append(inserted, space_id, vid, tag_writes(i, tags.drop_last()), w);
        if w.len() == 0 {
            assert(writes_undo(inserted, space_id, vid, w) =~= Seq::<UndoEntryView>::empty());
            if i.schema_name == tags.last().name {
                assert(index_props_spec(i.fields, tags.last().properties).map_values(
                    |p: (Seq<char>, ValueView)| vertex_entry(inserted, space_id, i.name, vid, p),
                ) =~= Seq::<UndoEntryView>::empty());
            }
        } else {
            assert(w.drop_last() =~= Seq::<WriteView>::empty());
            assert(writes_undo(inserted, space_id, vid, w.drop_last()) =~= Seq::<UndoEntryView>::empty());
            assert(writes_undo(inserted, space_id, vid, w) =~= w.last().props.map_values(
                |p: (Seq<char>, ValueView)| vertex_entry(inserted, space_id, w.last().index_name, vid, p),
            ));
        }
    }
}

/// The undo entries recorded for a vertex update are exactly the index entries that
/// the update writes, one per written property, in the order they are written.
pub proof fn lemma_vertex_undo_matches_writes(
    inserted: bool,
    space_id: u64,
    indexes: Seq<IndexView>,
    vid: ValueView,
    tags: Seq<TagView>,
)
    ensures
        vertex_undo(inserted, space_id, indexes, vid, tags) == writes_undo(
            inserted,
            space_id,
            vid,
            vertex_writes(indexes, tags),
        ),
    decreases indexes.len(),
{
    if indexes.len() > 0 {
        lemma_vertex_undo_matches_writes(inserted, space_id, indexes.drop_last(), vid, tags);
        lemma_tag_undo_matches_writes(inserted, space_id, indexes.last(), vid, tags);
        lemma_writes_undo_append(
            inserted,
            space_id,
            vid,
            vertex_writes(indexes.drop_last(), tags),
            tag_writes(indexes.last(), tags),
        );
    }
}

/// The entries a rollback must revert, in the order they were recorded.
#[derive(Debug)]
pub struct IndexUndoLog {
    entries: Vec<IndexUndoEntry>,
}

impl View for IndexUndoLog {
    type V = Seq<UndoEntryView>;

    closed spec fn view(&self) -> Seq<UndoEntryView> {
        self.entries@.map_values(|e: IndexUndoEntry| e@)
    }
}

impl Default for IndexUndoLog {
    fn default() -> (r: Self)
        ensures
            r@ == Seq::<UndoEntryView>::empty(),
    {
        Self::new()
    }
}

fn push_vertex_entries(
    entries: &mut Vec<IndexUndoEntry>,
    inserted: bool,
    space_id: u64,
    index: &Index,
    vertex_id: &Value,
    props: &Properties,
)
    ensures
        final(entries)@.map_values(|e: IndexUndoEntry| e@) == old(entries)@.map_values(|e: IndexUndoEntry| e@)
            + index_props_spec(index@.fields, props_view(props@)).map_values(
            |p: (Seq<char>, ValueView)| vertex_entry(inserted, space_id, index@.name, vertex_id@, p),
        ),
{
    let ps = index_props(index, props);
    let ghost base = entries@.map_values(|e: IndexUndoEntry| e@);
    let ghost pv = props_view(ps@);
    let mut k: usize = 0;
    while k < ps.len()
        invariant
            k <= ps@.len(),
            pv == props_view(ps@),
            entries@.map_values(|e: IndexUndoEntry| e@) == base + pv.subrange(0, k as int).map_values(
                |p: (Seq<char>, ValueView)| vertex_entry(inserted, space_id, index@.name, vertex_id@, p),
            ),
        decreases ps@.len() - k,
    {
        let e = if inserted {
            IndexUndoEntry::InsertVertexIndex {
                space_id,
                index_name: index.name.clone(),
                vertex_id: vertex_id.clone(),
                prop_name: ps[k].0.clone(),
                prop_value: ps[k].1.clone(),
            }
        } else {
            IndexUndoEntry::DeleteVertexIndex {
                space_id,
                index_name: index.name.clone(),
                vertex_id: vertex_id.clone(),
                prop_name: ps[k].0.clone(),
                prop_value: ps[k].1.clone(),
            }
        };
        let ghost ev = e@;
        assert(ev == vertex_entry(inserted, space_id, index@.name, vertex_id@, pv[k as int]));
        let ghost before = entries@.map_values(|e: IndexUndoEntry| e@);
        entries.push(e);
        assert(entries@.map_values(|e: IndexUndoEntry| e@) =~= before.push(ev));
        assert(pv.subrange(0, k as int + 1) =~= pv.subrange(0, k as int).push(pv[k as int]));
        assert(pv.subrange(0, k as int + 1).map_values(
            |p: (Seq<char>, ValueView)| vertex_entry(inserted, space_id, index@.name, vertex_id@, p),
        ) =~= pv.subrange(0, k as int).map_values(
            |p: (Seq<char>, ValueView)| vertex_entry(inserted, space_id, index@.name, vertex_id@, p),
        ).push(ev));
        assert(entries@.map_values(|e: IndexUndoEntry| e@) =~= base + pv.subrange(0, k as int + 1).map_values(
            |p: (Seq<char>, ValueView)| vertex_entry(inserted, space_id, index@.name, vertex_id@, p),
        ));
        k = k + 1;
    }
    assert(pv.subrange(0, k as int) =~= pv);
}

fn push_edge_entries(entries: &mut Vec<IndexUndoEntry>, inserted: bool, space_id: u64, index: &Index, edge: &Edge)
    ensures
        final(entries)@.map_values(|e: IndexUndoEntry| e@) == old(entries)@.map_values(|e: IndexUndoEntry| e@)
            + index_props_spec(index@.fields, edge@.props).map_values(
            |p: (Seq<char>, ValueView)| edge_entry(inserted, space_id, index@.name, edge@.src, edge@.dst, p),
        ),
{
    let ps = index_props(index, &edge.props);
    let ghost base = entries@.map_values(|e: IndexUndoEntry| e@);
    let ghost pv = props_view(ps@);
    let mut k: usize = 0;
    while k < ps.len()
        invariant
            k <= ps@.len(),
            pv == props_view(ps@),
            entries@.map_values(|e: IndexUndoEntry| e@) == base + pv.subrange(0, k as int).map_values(
                |p: (Seq<char>, ValueView)| edge_entry(inserted, space_id, index@.name, edge@.src, edge@.dst, p),
            ),
        decreases ps@.len() - k,
    {
        let e = if inserted {
            IndexUndoEntry::InsertEdgeIndex {
                space_id,
                index_name: index.name.clone(),
                src: (*edge.src).clone(),
                dst: (*edge.dst).clone(),
                prop_name: ps[k].0.clone(),
                prop_value: ps[k].1.clone(),
            }
        } else {
            IndexUndoEntry::DeleteEdgeIndex {
                space_id,
                index_name: index.name.clone(),
                src: (*edge.src).clone(),
                dst: (*edge.dst).clone(),
                prop_name: ps[k].0.clone(),
                prop_value: ps[k].1.clone(),
            }
        };
        let ghost ev = e@;
        assert(ev == edge_entry(inserted, space_id, index@.name, edge@.src, edge@.dst, pv[k as int]));
        let ghost before = entries@.map_values(|e: IndexUndoEntry| e@);
        entries.push(e);
        assert(entries@.map_values(|e: IndexUndoEntry| e@) =~= before.push(ev));
        assert(pv.subrange(0, k as int + 1) =~= pv.subrange(0, k as int).push(pv[k as int]));
        assert(pv.subrange(0, k as int + 1).map_values(
            |p: (Seq<char>, ValueView)| edge_entry(inserted, space_id, index@.name, edge@.src, edge@.dst, p),
        ) =~= pv.subrange(0, k as int).map_values(
            |p: (Seq<char>, ValueView)| edge_entry(inserted, space_id, index@.name, edge@.src, edge@.dst, p),
        ).push(ev));
        assert(entries@.map_values(|e: IndexUndoEntry| e@) =~= base + pv.subrange(0, k as int + 1).map_values(
            |p: (Seq<char>, ValueView)| edge_entry(inserted, space_id, index@.name, edge@.src, edge@.dst, p),
        ));
        k = k + 1;
    }
    assert(pv.subrange(0, k as int) =~= pv);
}

impl IndexUndoLog {
    /// An empty log.
    pub fn new() -> (r: Self)
        ensures
            r@ == Seq::<UndoEntryView>::empty(),
    {
        let entries: Vec<IndexUndoEntry> = Vec::new();
        assert(entries@.map_values(|e: IndexUndoEntry| e@) =~= Seq::<UndoEntryView>::empty());
        IndexUndoLog { entries }
    }

    /// Records one more entry.
    pub fn add(&mut self, entry: IndexUndoEntry)
        ensures
            final(self)@ == old(self)@.push(entry@),
    {
        self.entries.push(entry);
        assert(self@ =~= old(self)@.push(entry@));
    }

    /// Whether nothing is recorded.
    pub fn is_empty(&self) -> (r: bool)
        ensures
            r == (self@.len() == 0),
    {
        self.entries.len() == 0
    }

    /// The number of recorded entries.
    pub fn len(&self) -> (r: usize)
        ensures
            r == self@.len(),
    {
        self.entries.len()
    }

    /// Forgets every entry.
    pub fn clear(&mut self)
        ensures
            final(self)@ == Seq::<UndoEntryView>::empty(),
    {
        self.entries.clear();
        assert(self@ =~= Seq::<UndoEntryView>::empty());
    }

    /// The recorded entries, oldest first.
    pub fn entries(&self) -> (r: &[IndexUndoEntry])
        ensures
            r@.map_values(|e: IndexUndoEntry| e@) == self@,
    {
        self.entries.as_slice()
    }

    /// Hands out the recorded entries, leaving the log empty.
    pub fn take_entries(&mut self) -> (r: Vec<IndexUndoEntry>)
        ensures
            r@.map_values(|e: IndexUndoEntry| e@) == old(self)@,
            final(self)@ == Seq::<UndoEntryView>::empty(),
    {
        let mut taken: Vec<IndexUndoEntry> = Vec::new();
        std::mem::swap(&mut taken, &mut self.entries);
        assert(self@ =~= Seq::<UndoEntryView>::empty());
        taken
    }

    /// Records the undo entries for a vertex's update (`inserted`) or deletion under `indexes`.
    pub fn record_vertex(&mut self, inserted: bool, space_id: u64, indexes: &Vec<Index>, vertex_id: &Value, tags: &[Tag])
        ensures
            final(self)@ == old(self)@ + vertex_undo(inserted, space_id, indexes_view(indexes@), vertex_id@, tags_view(tags@)),
    {
        let ghost iv = indexes_view(indexes@);
        let ghost tv = tags_view(tags@);
        let mut k: usize = 0;
        while k < indexes.len()
            invariant
                k <= indexes@.len(),
                iv == indexes_view(indexes@),
                tv == tags_view(tags@),
                self@ == old(self)@ + vertex_undo(inserted, space_id, iv.subrange(0, k as int), vertex_id@, tv),
            decreases indexes@.len() - k,
        {
            let index = &indexes[k];
            assert(iv.subrange(0, k as int + 1).drop_last() =~= iv.subrange(0, k as int));
            assert(iv[k as int] == index@);
            let ghost base = self@;
            let mut t: usize = 0;
            while t < tags.len()
                invariant
                    t <= tags@.len(),
                    tv == tags_view(tags@),
                    self@ == base + tag_undo(inserted, space_id, index@, vertex_id@, tv.subrange(0, t as int)),
                decreases tags@.len() - t,
            {
                assert(tv.subrange(0, t as int + 1).drop_last() =~= tv.subrange(0, t as int));
                let tag = &tags[t];
                let ghost before = self@;
                if index.schema_name == tag.name {
                    push_vertex_entries(&mut self.entries, inserted, space_id, index, vertex_id, &tag.properties);
                } else {
                    assert(before =~= before + Seq::<UndoEntryView>::empty());
                }
                assert(self@ =~= base + tag_undo(inserted, space_id, index@, vertex_id@, tv.subrange(0, t as int + 1)));
                t = t + 1;
            }
            assert(tv.subrange(0, t as int) =~= tv);
            assert(self@ =~= old(self)@ + vertex_undo(inserted, space_id, iv.subrange(0, k as int + 1), vertex_id@, tv));
            k = k + 1;
        }
        assert(iv.subrange(0, k as int) =~= iv);
    }

    /// Records the undo entries for an edge's update (`inserted`) or deletion under `indexes`.
    pub fn record_edge(&mut self, inserted: bool, space_id: u64, indexes: &Vec<Index>, edge: &Edge)
        ensures
            final(self)@ == old(self)@ + edge_undo(inserted, space_id, indexes_view(indexes@), edge@),
    {
        let ghost iv = indexes_view(indexes@);
        let mut k: usize = 0;
        while k < indexes.len()
            invariant
                k <= indexes@.len(),
                iv == indexes_view(indexes@),
                self@ == old(self)@ + edge_undo(inserted, space_id, iv.subrange(0, k as int), edge@),
            decreases indexes@.len() - k,
        {
            let index = &indexes[k];
            assert(iv.subrange(0, k as int + 1).drop_last() =~= iv.subrange(0, k as int));
            assert(iv[k as int] == index@);
            let ghost before = self@;
            if index.schema_name == edge.edge_type {
                push_edge_entries(&mut self.entries, inserted, space_id, index, edge);
            } else {
                assert(before =~= before + Seq::<UndoEntryView>::empty());
            }
            assert(self@ =~= old(self)@ + edge_undo(inserted, space_id, iv.subrange(0, k as int + 1), edge@));
            k = k + 1;
        }
        assert(iv.subrange(0, k as int) =~= iv);
    }

    /// Reverts the recorded entries, newest first: each entry leaves the log and its
    /// `revert_call` is made on the manager by `apply_call`, so the calls are those of
    /// `undo_plan`, in order. At the first failure the entries older than the failed
    /// one stay in the log.
    pub fn execute_undo<I: IndexDataManager>(&mut self, manager: &I) -> (r: Result<(), StorageError>)
        ensures
            r is Ok ==> final(self)@ == Seq::<UndoEntryView>::empty(),
            r is Err ==> exists|k: int| 0 <= k < old(self)@.len() && final(self)@ == old(self)@.subrange(0, k),
    {
        while self.entries.len() > 0
            invariant
                self@.len() <= old(self)@.len(),
                self@ == old(self)@.subrange(0, self@.len() as int),
            decreases self.entries@.len(),
        {
            let ghost before = self@;
            let entry = self.entries.pop().unwrap();
            assert(self@ =~= before.drop_last());
            assert(self@ == old(self)@.subrange(0, self@.len() as int));
            let call = revert_call(entry);
            apply_call(manager, &call)?;
        }
        assert(self@ =~= Seq::<UndoEntryView>::empty());
        Ok(())
    }
}

/// The mathematical form of an `UndoCall`.
pub enum UndoCallView {
    DeleteVertexIndexSingle {
        space_id: u64,
        vertex_id: ValueView,
        index_name: Seq<char>,
        prop_value: ValueView,
        write_ts: Timestamp,
    },
    UpdateVertexIndexes {
        space_id: u64,
        vertex_id: ValueView,
        index_name: Seq<char>,
        props: Seq<(Seq<char>, ValueView)>,
    },
    DeleteEdgeIndexSingle {
        space_id: u64,
        src: ValueView,
        dst: ValueView,
        index_name: Seq<char>,
        prop_value: ValueView,
        write_ts: Timestamp,
    },
    UpdateEdgeIndexes {
        space_id: u64,
        src: ValueView,
        dst: ValueView,
        index_name: Seq<char>,
        props: Seq<(Seq<char>, ValueView)>,
    },
}

/// A call on the index data manager, with its arguments: the one that reverts an undo
/// entry.
#[derive(Debug)]
pub enum UndoCall {
    DeleteVertexIndexSingle { space_id: u64, vertex_id: Value, index_name: String, prop_value: Value, write_ts: Timestamp },
    UpdateVertexIndexes { space_id: u64, vertex_id: Value, index_name: String, props: Properties },
    DeleteEdgeIndexSingle {
        space_id: u64,
        src: Value,
        dst: Value,
        index_name: String,
        prop_value: Value,
        write_ts: Timestamp,
    },
    UpdateEdgeIndexes { space_id: u64, src: Value, dst: Value, index_name: String, props: Properties },
}

impl View for UndoCall {
    type V = UndoCallView;

    open spec fn view(&self) -> UndoCallView {
        match self {
            UndoCall::DeleteVertexIndexSingle { space_id, vertex_id, index_name, prop_value, write_ts } =>
                UndoCallView::DeleteVertexIndexSingle {
                space_id: *space_id,
                vertex_id: vertex_id@,
                index_name: index_name@,
                prop_value: prop_value@,
                write_ts: *write_ts,
            },
            UndoCall::UpdateVertexIndexes { space_id, vertex_id, index_name, props } => UndoCallView::UpdateVertexIndexes {
                space_id: *space_id,
                vertex_id: vertex_id@,
                index_name: index_name@,
                props: props_view(props@),
            },
            UndoCall::DeleteEdgeIndexSingle { space_id, src, dst, index_name, prop_value, write_ts } =>
                UndoCallView::DeleteEdgeIndexSingle {
                space_id: *space_id,
                src: src@,
                dst: dst@,
                index_name: index_name@,
                prop_value: prop_value@,
                write_ts: *write_ts,
            },
            UndoCall::UpdateEdgeIndexes { space_id, src, dst, index_name, props } => UndoCallView::UpdateEdgeIndexes {
                space_id: *space_id,
                src: src@,
                dst: dst@,
                index_name: index_name@,
                props: props_view(props@),
            },
        }
    }
}

/// The call that reverts an undo entry: an inserted entry is deleted again at
/// `MAX_TIMESTAMP`, and a deleted one is written back with its one property.
pub open spec fn revert_spec(e: UndoEntryView) -> UndoCallView {
    match e {
        UndoEntryView::InsertVertexIndex { space_id, index_name, vertex_id, prop_name, prop_value } =>
            UndoCallView::DeleteVertexIndexSingle { space_id, vertex_id, index_name, prop_value, write_ts: MAX_TIMESTAMP },
        UndoEntryView::DeleteVertexIndex { space_id, index_name, vertex_id, prop_name, prop_value } =>
            UndoCallView::UpdateVertexIndexes { space_id, vertex_id, index_name, props: seq![(prop_name, prop_value)] },
        UndoEntryView::InsertEdgeIndex { space_id, index_name, src, dst, prop_name, prop_value } =>
            UndoCallView::DeleteEdgeIndexSingle { space_id, src, dst, index_name, prop_value, write_ts: MAX_TIMESTAMP },
        UndoEntryView::DeleteEdgeIndex { space_id, index_name, src, dst, prop_name, prop_value } =>
            UndoCallView::UpdateEdgeIndexes { space_id, src, dst, index_name, props: seq![(prop_name, prop_value)] },
    }
}

/// The calls that revert a log, newest entry first.
pub open spec fn undo_plan_spec(log: Seq<UndoEntryView>) -> Seq<UndoCallView>
    decreases log.len(),
{
    if log.len() == 0 {
        Seq::empty()
    } else {
        seq![revert_spec(log.last())] + undo_plan_spec(log.drop_last())
    }
}

/// The call that reverts `entry`.
pub fn revert_call(entry: IndexUndoEntry) -> (r: UndoCall)
    ensures
        r@ == revert_spec(entry@),
{
    match entry {
        IndexUndoEntry::InsertVertexIndex { space_id, index_name, vertex_id, prop_name: _, prop_value } =>
            UndoCall::DeleteVertexIndexSingle { space_id, vertex_id, index_name, prop_value, write_ts: MAX_TIMESTAMP },
        IndexUndoEntry::DeleteVertexIndex { space_id, index_name, vertex_id, prop_name, prop_value } => {
            let props: Properties = vec![(prop_name, prop_value)];
            let r = UndoCall::UpdateVertexIndexes { space_id, vertex_id, index_name, props };
            assert(props_view(props@) =~= seq![(prop_name@, prop_value@)]);
            r
        },
        IndexUndoEntry::InsertEdgeIndex { space_id, index_name, src, dst, prop_name: _, prop_value } =>
            UndoCall::DeleteEdgeIndexSingle { space_id, src, dst, index_name, prop_value, write_ts: MAX_TIMESTAMP },
        IndexUndoEntry::DeleteEdgeIndex { space_id, index_name, src, dst, prop_name, prop_value } => {
            let props: Properties = vec![(prop_name, prop_value)];
            let r = UndoCall::UpdateEdgeIndexes { space_id, src, dst, index_name, props };
            assert(props_view(props@) =~= seq![(prop_name@, prop_value@)]);
            r
        },
    }
}

/// Makes the call on the manager: each kind of call goes to the manager method of
/// the same name, with the call's arguments.
pub fn apply_call<I: IndexDataManager>(manager: &I, call: &UndoCall) -> Result<(), StorageError> {
    match call {
        UndoCall::DeleteVertexIndexSingle { space_id, vertex_id, index_name, prop_value, write_ts } =>
            manager.delete_vertex_index_single(*space_id, vertex_id, index_name.as_str(), prop_value, *write_ts),
        UndoCall::UpdateVertexIndexes { space_id, vertex_id, index_name, props } =>
            manager.update_vertex_indexes(*space_id, vertex_id, index_name.as_str(), props.as_slice()),
        UndoCall::DeleteEdgeIndexSingle { space_id, src, dst, index_name, prop_value, write_ts } =>
            manager.delete_edge_index_single(*space_id, src, dst, index_name.as_str(), prop_value, *write_ts),
        UndoCall::UpdateEdgeIndexes { space_id, src, dst, index_name, props } =>
            manager.update_edge_indexes(*space_id, src, dst, index_name.as_str(), props.as_slice()),
    }
}

impl Clone for IndexUndoEntry {
    fn clone(&self) -> (r: Self)
        ensures
            r@ == self@,
    {
        match self {
            IndexUndoEntry::InsertVertexIndex { space_id, index_name, vertex_id, prop_name, prop_value } =>
                IndexUndoEntry::InsertVertexIndex {
                space_id: *space_id,
                index_name: index_name.clone(),
                vertex_id: vertex_id.clone(),
                prop_name: prop_name.clone(),
                prop_value: prop_value.clone(),
            },
            IndexUndoEntry::DeleteVertexIndex { space_id, index_name, vertex_id, prop_name, prop_value } =>
                IndexUndoEntry::DeleteVertexIndex {
                space_id: *space_id,
                index_name: index_name.clone(),
                vertex_id: vertex_id.clone(),
                prop_name: prop_name.clone(),
                prop_value: prop_value.clone(),
            },
            IndexUndoEntry::InsertEdgeIndex { space_id, index_name, src, dst, prop_name, prop_value } =>
                IndexUndoEntry::InsertEdgeIndex {
                space_id: *space_id,
                index_name: index_name.clone(),
                src: src.clone(),
                dst: dst.clone(),
                prop_name: prop_name.clone(),
                prop_value: prop_value.clone(),
            },
            IndexUndoEntry::DeleteEdgeIndex { space_id, index_name, src, dst, prop_name, prop_value } =>
                IndexUndoEntry::DeleteEdgeIndex {
                space_id: *space_id,
                index_name: index_name.clone(),
                src: src.clone(),
                dst: dst.clone(),
                prop_name: prop_name.clone(),
                prop_value: prop_value.clone(),
            },
        }
    }
}

impl Clone for IndexUndoLog {
    fn clone(&self) -> (r: Self)
        ensures
            r@ == self@,
    {
        let mut entries: Vec<IndexUndoEntry> = Vec::new();
        let mut i: usize = 0;
        while i < self.entries.len()
            invariant
                i <= self.entries@.len(),
                entries@.map_values(|e: IndexUndoEntry| e@) == self@.subrange(0, i as int),
            decreases self.entries@.len() - i,
        {
            let ghost before = entries@.map_values(|e: IndexUndoEntry| e@);
            entries.push(self.entries[i].clone());
            assert(entries@.map_values(|e: IndexUndoEntry| e@) =~= before.push(self@[i as int]));
            assert(self@.subrange(0, i as int + 1) =~= self@.subrange(0, i as int).push(self@[i as int]));
            i = i + 1;
        }
        assert(self@.subrange(0, i as int) =~= self@);
        IndexUndoLog { entries }
    }
}

impl IndexUndoLog {
    /// The calls that revert the log, newest entry first, leaving the log as it is.
    pub fn undo_plan(&self) -> (r: Vec<UndoCall>)
        ensures
            r@.map_values(|c: UndoCall| c@) == undo_plan_spec(self@),
    {
        let mut out: Vec<UndoCall> = Vec::new();
        let mut i: usize = self.entries.len();
        assert(self@.subrange(0, i as int) =~= self@);
        while i > 0
            invariant
                i <= self.entries@.len(),
                undo_plan_spec(self@) == out@.map_values(|c: UndoCall| c@) + undo_plan_spec(self@.subrange(0, i as int)),
            decreases i,
        {
            let ghost sub = self@.subrange(0, i as int);
            assert(sub.drop_last() =~= self@.subrange(0, i as int - 1));
            assert(sub.last() == self.entries@[i as int - 1]@);
            let ghost before = out@.map_values(|c: UndoCall| c@);
            let c = revert_call(self.entries[i - 1].clone());
            out.push(c);
            assert(out@.map_values(|c: UndoCall| c@) =~= before.push(revert_spec(sub.last())));
            assert(undo_plan_spec(sub) == seq![revert_spec(sub.last())] + undo_plan_spec(sub.drop_last()));
            assert(before + undo_plan_spec(sub) =~= before.push(revert_spec(sub.last())) + undo_plan_spec(
                sub.drop_last(),
            ));
            i = i - 1;
        }
        assert(self@.subrange(0, 0) =~= Seq::<UndoEntryView>::empty());
        assert(out@.map_values(|c: UndoCall| c@) =~= out@.map_values(|c: UndoCall| c@) + Seq::<UndoCallView>::empty());
        out
    }
}

/// Collects the index changes of a batch of data changes and applies them at commit,
/// recording how to revert them.
pub struct IndexUpdateContext<'a, I: IndexDataManager, M: IndexMetadataManager> {
    updater: IndexUpdater<'a, I, M>,
    pending_vertex_updates: Vec<(Value, Vec<Tag>)>,
    pending_edge_updates: Vec<Edge>,
    pending_vertex_deletes: Vec<(Value, Vec<Tag>)>,
    pending_edge_deletes: Vec<Edge>,
    undo_log: IndexUndoLog,
    batches: Ghost<Seq<IndexBatchCall>>,
}

/// A batch of index work that a commit hands to the updater (and so to the data
/// manager): the ids of vertices whose entries are deleted, edges whose entries are
/// deleted, vertices (with their tags) and edges whose entries are written.
pub enum IndexBatchCall {
    DeleteVertices(Seq<ValueView>),
    DeleteEdges(Seq<EdgeView>),
    UpdateVertices(Seq<(ValueView, Seq<TagView>)>),
    UpdateEdges(Seq<EdgeView>),
}

/// The batches that a commit hands over for pending changes, in its order: the ids
/// of the vertices to delete, the edges to delete, the vertices to update, the
/// edges to update; a group with nothing pending is not handed over.
pub open spec fn commit_batches(
    vdel: Seq<(ValueView, Seq<TagView>)>,
    edel: Seq<EdgeView>,
    vupd: Seq<(ValueView, Seq<TagView>)>,
    eupd: Seq<EdgeView>,
) -> Seq<IndexBatchCall> {
    (if vdel.len() > 0 {
        seq![IndexBatchCall::DeleteVertices(vdel.map_values(|x: (ValueView, Seq<TagView>)| x.0))]
    } else {
        Seq::empty()
    }) + (if edel.len() > 0 {
        seq![IndexBatchCall::DeleteEdges(edel)]
    } else {
        Seq::empty()
    }) + (if vupd.len() > 0 {
        seq![IndexBatchCall::UpdateVertices(vupd)]
    } else {
        Seq::empty()
    }) + (if eupd.len() > 0 {
        seq![IndexBatchCall::UpdateEdges(eupd)]
    } else {
        Seq::empty()
    })
}

/// The mathematical form of a pending vertex change.
pub open spec fn vertex_changes_view(s: Seq<(Value, Vec<Tag>)>) -> Seq<(ValueView, Seq<TagView>)> {
    s.map_values(|x: (Value, Vec<Tag>)| (x.0@, tags_view(x.1@)))
}

/// The undo entries of vertex changes, change `k` recorded under the index list
/// `lists[k]`.
pub open spec fn vertex_changes_undo(
    inserted: bool,
    space_id: u64,
    lists: Seq<Seq<IndexView>>,
    changes: Seq<(ValueView, Seq<TagView>)>,
) -> Seq<UndoEntryView>
    decreases changes.len(),
{
    if changes.len() == 0 {
        Seq::empty()
    } else {
        vertex_changes_undo(inserted, space_id, lists.drop_last(), changes.drop_last()) + vertex_undo(
            inserted,
            space_id,
            lists.last(),
            changes.last().0,
            changes.last().1,
        )
    }
}

/// The undo entries of edge changes, change `k` recorded under the index list `lists[k]`.
pub open spec fn edge_changes_undo(inserted: bool, space_id: u64, lists: Seq<Seq<IndexView>>, changes: Seq<EdgeView>) -> Seq<
    UndoEntryView,
>
    decreases changes.len(),
{
    if changes.len() == 0 {
        Seq::empty()
    } else {
        edge_changes_undo(inserted, space_id, lists.drop_last(), changes.drop_last()) + edge_undo(
            inserted,
            space_id,
            lists.last(),
            changes.last(),
        )
    }
}

/// The undo entries that a commit records for the pending changes, in its order:
/// vertex deletions, edge deletions, vertex updates, edge updates, each change under
/// the index list the metadata manager gave for it.
pub open spec fn pending_undo(
    space_id: u64,
    l1: Seq<Seq<IndexView>>,
    l2: Seq<Seq<IndexView>>,
    l3: Seq<Seq<IndexView>>,
    l4: Seq<Seq<IndexView>>,
    vdel: Seq<(ValueView, Seq<TagView>)>,
    edel: Seq<EdgeView>,
    vupd: Seq<(ValueView, Seq<TagView>)>,
    eupd: Seq<EdgeView>,
) -> Seq<UndoEntryView> {
    vertex_changes_undo(false, space_id, l1, vdel) + edge_changes_undo(false, space_id, l2, edel)
        + vertex_changes_undo(true, space_id, l3, vupd) + edge_changes_undo(true, space_id, l4, eupd)
}

impl<'a, I: IndexDataManager, M: IndexMetadataManager> IndexUpdateContext<'a, I, M> {
    pub closed spec fn vertex_updates(&self) -> Seq<(ValueView, Seq<TagView>)> {
        vertex_changes_view(self.pending_vertex_updates@)
    }

    pub closed spec fn edge_updates(&self) -> Seq<EdgeView> {
        crate::model::edges_view(self.pending_edge_updates@)
    }

    pub closed spec fn vertex_deletes(&self) -> Seq<(ValueView, Seq<TagView>)> {
        vertex_changes_view(self.pending_vertex_deletes@)
    }

    pub closed spec fn edge_deletes(&self) -> Seq<EdgeView> {
        crate::model::edges_view(self.pending_edge_deletes@)
    }

    pub closed spec fn undo(&self) -> Seq<UndoEntryView> {
        self.undo_log@
    }

    pub closed spec fn space_id_spec(&self) -> u64 {
        self.updater.space_id
    }

    /// The batches this context has handed to the updater so far, oldest first.
    pub closed spec fn handed_over(&self) -> Seq<IndexBatchCall> {
        self.batches@
    }

    /// Whether nothing is pending.
    /// `undo` is the undo log of `self` followed by the undo entries of its pending
    /// changes, each under some index list of the right kind.
    pub open spec fn records_pending(&self, undo: Seq<UndoEntryView>) -> bool {
        exists|l1: Seq<Seq<IndexView>>, l2: Seq<Seq<IndexView>>, l3: Seq<Seq<IndexView>>, l4: Seq<Seq<IndexView>>|
            #![trigger pending_undo(self.space_id_spec(), l1, l2, l3, l4, self.vertex_deletes(), self.edge_deletes(), self.vertex_updates(), self.edge_updates())]
            l1.len() == self.vertex_deletes().len() && l2.len() == self.edge_deletes().len() && l3.len()
                == self.vertex_updates().len() && l4.len() == self.edge_updates().len() && undo == self.undo()
                + pending_undo(
                self.space_id_spec(),
                l1,
                l2,
                l3,
                l4,
                self.vertex_deletes(),
                self.edge_deletes(),
                self.vertex_updates(),
                self.edge_updates(),
            )
    }

    pub open spec fn nothing_pending(&self) -> bool {
        &&& self.vertex_updates().len() == 0
        &&& self.edge_updates().len() == 0
        &&& self.vertex_deletes().len() == 0
        &&& self.edge_deletes().len() == 0
    }

    /// A context for the space `space_id` with nothing pending and an empty undo log.
    pub fn new(index_data_manager: &'a I, index_metadata_manager: &'a M, space_name: String, space_id: u64) -> (r:
        Self)
        ensures
            r.nothing_pending(),
            r.undo() == Seq::<UndoEntryView>::empty(),
            r.space_id_spec() == space_id,
            r.handed_over() == Seq::<IndexBatchCall>::empty(),
    {
        let c = IndexUpdateContext {
            updater: IndexUpdater::new(index_data_manager, index_metadata_manager, space_name, space_id),
            pending_vertex_updates: Vec::new(),
            pending_edge_updates: Vec::new(),
            pending_vertex_deletes: Vec::new(),
            pending_edge_deletes: Vec::new(),
            undo_log: IndexUndoLog::new(),
            batches: Ghost(Seq::empty()),
        };
        assert(c.vertex_updates() =~= Seq::<(ValueView, Seq<TagView>)>::empty());
        assert(c.vertex_deletes() =~= Seq::<(ValueView, Seq<TagView>)>::empty());
        assert(c.edge_updates() =~= Seq::<EdgeView>::empty());
        assert(c.edge_deletes() =~= Seq::<EdgeView>::empty());
        c
    }

    /// Queues the index update of a vertex.
    pub fn add_vertex_update(&mut self, vertex_id: Value, tags: Vec<Tag>)
        ensures
            final(self).vertex_updates() == old(self).vertex_updates().push((vertex_id@, tags_view(tags@))),
            final(self).edge_updates() == old(self).edge_updates(),
            final(self).vertex_deletes() == old(self).vertex_deletes(),
            final(self).edge_deletes() == old(self).edge_deletes(),
            final(self).undo() == old(self).undo(),
            final(self).handed_over() == old(self).handed_over(),
    {
        self.pending_vertex_updates.push((vertex_id, tags));
        assert(self.vertex_updates() =~= old(self).vertex_updates().push((vertex_id@, tags_view(tags@))));
    }

    /// Queues the index update of an edge.
    pub fn add_edge_update(&mut self, edge: Edge)
        ensures
            final(self).edge_updates() == old(self).edge_updates().push(edge@),
            final(self).vertex_updates() == old(self).vertex_updates(),
            final(self).vertex_deletes() == old(self).vertex_deletes(),
            final(self).edge_deletes() == old(self).edge_deletes(),
            final(self).undo() == old(self).undo(),
            final(self).handed_over() == old(self).handed_over(),
    {
        self.pending_edge_updates.push(edge);
        assert(self.edge_updates() =~= old(self).edge_updates().push(edge@));
    }

    /// Queues the index deletion of a vertex; its tags are kept to record the undo entries.
    pub fn add_vertex_delete(&mut self, vertex_id: Value, tags: Vec<Tag>)
        ensures
            final(self).vertex_deletes() == old(self).vertex_deletes().push((vertex_id@, tags_view(tags@))),
            final(self).vertex_updates() == old(self).vertex_updates(),
            final(self).edge_updates() == old(self).edge_updates(),
            final(self).edge_deletes() == old(self).edge_deletes(),
            final(self).undo() == old(self).undo(),
            final(self).handed_over() == old(self).handed_over(),
    {
        self.pending_vertex_deletes.push((vertex_id, tags));
        assert(self.vertex_deletes() =~= old(self).vertex_deletes().push((vertex_id@, tags_view(tags@))));
    }

    /// Queues the index deletion of an edge.
    pub fn add_edge_delete(&mut self, edge: Edge)
        ensures
            final(self).edge_deletes() == old(self).edge_deletes().push(edge@),
            final(self).vertex_updates() == old(self).vertex_updates(),
            final(self).edge_updates() == old(self).edge_updates(),
            final(self).vertex_deletes() == old(self).vertex_deletes(),
            final(self).undo() == old(self).undo(),
            final(self).handed_over() == old(self).handed_over(),
    {
        self.pending_edge_deletes.push(edge);
        assert(self.edge_deletes() =~= old(self).edge_deletes().push(edge@));
    }

    /// Records the undo entries of everything pending, then applies the pending
    /// changes: vertex deletions, edge deletions, vertex updates, edge updates, each
    /// group leaving the queue once applied. On success nothing is pending; entries
    /// already in the undo log stay in it either way.
    pub fn commit(&mut self) -> (r: Result<(), StorageError>)
        ensures
            r is Ok ==> final(self).nothing_pending(),
            old(self).nothing_pending() ==> r is Ok && final(self).undo() == old(self).undo(),
            r is Ok ==> old(self).records_pending(final(self).undo()),
            r is Ok ==> final(self).handed_over() == old(self).handed_over() + commit_batches(
                old(self).vertex_deletes(),
                old(self).edge_deletes(),
                old(self).vertex_updates(),
                old(self).edge_updates(),
            ),
            old(self).undo().len() <= final(self).undo().len(),
            final(self).undo().subrange(0, old(self).undo().len() as int) == old(self).undo(),
    {
        let ghost h0 = old(self).handed_over();
        let ghost vd = old(self).vertex_deletes();
        let ghost ed = old(self).edge_deletes();
        let ghost vu = old(self).vertex_updates();
        let ghost eu = old(self).edge_updates();
        self.record_undo_entries()?;
        let ghost b1: Seq<IndexBatchCall> = if vd.len() > 0 {
            seq![IndexBatchCall::DeleteVertices(vd.map_values(|x: (ValueView, Seq<TagView>)| x.0))]
        } else {
            Seq::empty()
        };
        let ghost b2: Seq<IndexBatchCall> = if ed.len() > 0 {
            seq![IndexBatchCall::DeleteEdges(ed)]
        } else {
            Seq::empty()
        };
        let ghost b3: Seq<IndexBatchCall> = if vu.len() > 0 {
            seq![IndexBatchCall::UpdateVertices(vu)]
        } else {
            Seq::empty()
        };
        let ghost b4: Seq<IndexBatchCall> = if eu.len() > 0 {
            seq![IndexBatchCall::UpdateEdges(eu)]
        } else {
            Seq::empty()
        };
        if self.pending_vertex_deletes.len() > 0 {
            self.hand_over_vertex_deletes()?;
            self.pending_vertex_deletes.clear();
        }
        assert(self.handed_over() =~= h0 + b1);
        if self.pending_edge_deletes.len() > 0 {
            self.hand_over_edge_deletes()?;
            self.pending_edge_deletes.clear();
        }
        assert(self.handed_over() =~= h0 + b1 + b2);
        if self.pending_vertex_updates.len() > 0 {
            self.hand_over_vertex_updates()?;
            self.pending_vertex_updates.clear();
        }
        assert(self.handed_over() =~= h0 + b1 + b2 + b3);
        if self.pending_edge_updates.len() > 0 {
            self.hand_over_edge_updates()?;
            self.pending_edge_updates.clear();
        }
        assert(self.handed_over() =~= h0 + (b1 + b2 + b3 + b4));
        assert(self.vertex_updates() =~= Seq::<(ValueView, Seq<TagView>)>::empty());
        assert(self.vertex_deletes() =~= Seq::<(ValueView, Seq<TagView>)>::empty());
        assert(self.edge_updates() =~= Seq::<EdgeView>::empty());
        assert(self.edge_deletes() =~= Seq::<EdgeView>::empty());
        Ok(())
    }

    /// Hands the ids of the vertices whose deletion is pending to the updater, which
    /// deletes their entries one by one, and notes the batch.
    fn hand_over_vertex_deletes(&mut self) -> (r: Result<(), StorageError>)
        ensures
            final(self).handed_over() == old(self).handed_over().push(
                IndexBatchCall::DeleteVertices(old(self).vertex_deletes().map_values(|x: (ValueView, Seq<TagView>)| x.0)),
            ),
            final(self).pending_vertex_deletes == old(self).pending_vertex_deletes,
            final(self).pending_edge_deletes == old(self).pending_edge_deletes,
            final(self).pending_vertex_updates == old(self).pending_vertex_updates,
            final(self).pending_edge_updates == old(self).pending_edge_updates,
            final(self).undo_log == old(self).undo_log,
            final(self).updater == old(self).updater,
    {
        let mut vertex_ids: Vec<Value> = Vec::new();
        let mut k: usize = 0;
        while k < self.pending_vertex_deletes.len()
            invariant
                k <= self.pending_vertex_deletes@.len(),
                vertex_ids@.len() == k,
                forall|j: int| 0 <= j < k ==> #[trigger] vertex_ids@[j]@ == self.pending_vertex_deletes@[j].0@,
            decreases self.pending_vertex_deletes@.len() - k,
        {
            vertex_ids.push(self.pending_vertex_deletes[k].0.clone());
            k = k + 1;
        }
        let r = self.updater.batch_delete_vertex_indexes(vertex_ids.as_slice());
        assert(vertex_ids@.map_values(|v: Value| v@) =~= old(self).vertex_deletes().map_values(
            |x: (ValueView, Seq<TagView>)| x.0,
        ));
        self.batches = Ghost(self.batches@.push(IndexBatchCall::DeleteVertices(vertex_ids@.map_values(|v: Value| v@))));
        r
    }

    /// Hands the edges whose deletion is pending to the updater and notes the batch.
    fn hand_over_edge_deletes(&mut self) -> (r: Result<(), StorageError>)
        ensures
            final(self).handed_over() == old(self).handed_over().push(IndexBatchCall::DeleteEdges(old(self).edge_deletes())),
            final(self).pending_vertex_deletes == old(self).pending_vertex_deletes,
            final(self).pending_edge_deletes == old(self).pending_edge_deletes,
            final(self).pending_vertex_updates == old(self).pending_vertex_updates,
            final(self).pending_edge_updates == old(self).pending_edge_updates,
            final(self).undo_log == old(self).undo_log,
            final(self).updater == old(self).updater,
    {
        let r = self.updater.batch_delete_edge_indexes(self.pending_edge_deletes.as_slice());
        self.batches = Ghost(self.batches@.push(IndexBatchCall::DeleteEdges(self.edge_deletes())));
        r
    }

    /// Hands the vertices whose update is pending to the updater and notes the batch.
    fn hand_over_vertex_updates(&mut self) -> (r: Result<(), StorageError>)
        ensures
            final(self).handed_over() == old(self).handed_over().push(
                IndexBatchCall::UpdateVertices(old(self).vertex_updates()),
            ),
            final(self).pending_vertex_deletes == old(self).pending_vertex_deletes,
            final(self).pending_edge_deletes == old(self).pending_edge_deletes,
            final(self).pending_vertex_updates == old(self).pending_vertex_updates,
            final(self).pending_edge_updates == old(self).pending_edge_updates,
            final(self).undo_log == old(self).undo_log,
            final(self).updater == old(self).updater,
    {
        let r = self.updater.batch_update_vertex_indexes(self.pending_vertex_updates.as_slice());
        self.batches = Ghost(self.batches@.push(IndexBatchCall::UpdateVertices(self.vertex_updates())));
        r
    }

    /// Hands the edges whose update is pending to the updater and notes the batch.
    fn hand_over_edge_updates(&mut self) -> (r: Result<(), StorageError>)
        ensures
            final(self).handed_over() == old(self).handed_over().push(IndexBatchCall::UpdateEdges(old(self).edge_updates())),
            final(self).pending_vertex_deletes == old(self).pending_vertex_deletes,
            final(self).pending_edge_deletes == old(self).pending_edge_deletes,
            final(self).pending_vertex_updates == old(self).pending_vertex_updates,
            final(self).pending_edge_updates == old(self).pending_edge_updates,
            final(self).undo_log == old(self).undo_log,
            final(self).updater == old(self).updater,
    {
        let r = self.updater.batch_update_edge_indexes(self.pending_edge_updates.as_slice());
        self.batches = Ghost(self.batches@.push(IndexBatchCall::UpdateEdges(self.edge_updates())));
        r
    }

    /// Records, for every pending change, the undo entries under the indexes that the
    /// metadata manager lists for it.
    fn record_undo_entries(&mut self) -> (r: Result<(), StorageError>)
        ensures
            final(self).vertex_updates() == old(self).vertex_updates(),
            final(self).edge_updates() == old(self).edge_updates(),
            final(self).vertex_deletes() == old(self).vertex_deletes(),
            final(self).edge_deletes() == old(self).edge_deletes(),
            final(self).updater == old(self).updater,
            final(self).handed_over() == old(self).handed_over(),
            old(self).undo().len() <= final(self).undo().len(),
            final(self).undo().subrange(0, old(self).undo().len() as int) == old(self).undo(),
            old(self).nothing_pending() ==> r is Ok && final(self).undo() == old(self).undo(),
            r is Ok ==> old(self).records_pending(final(self).undo()),
    {
        let space_id = self.updater.space_id;
        let ghost vd = old(self).vertex_deletes();
        let ghost ed = old(self).edge_deletes();
        let ghost vu = old(self).vertex_updates();
        let ghost eu = old(self).edge_updates();
        let ghost u0 = old(self).undo();
        let ghost mut l1: Seq<Seq<IndexView>> = Seq::empty();
        let ghost mut l2: Seq<Seq<IndexView>> = Seq::empty();
        let ghost mut l3: Seq<Seq<IndexView>> = Seq::empty();
        let ghost mut l4: Seq<Seq<IndexView>> = Seq::empty();
        assert(vd.subrange(0, 0) =~= Seq::<(ValueView, Seq<TagView>)>::empty());
        assert(u0 + vertex_changes_undo(false, space_id, l1, vd.subrange(0, 0)) =~= u0);
        let mut k: usize = 0;
        while k < self.pending_vertex_deletes.len()
            invariant
                k <= self.pending_vertex_deletes@.len(),
                self.pending_vertex_deletes == old(self).pending_vertex_deletes,
                self.pending_edge_deletes == old(self).pending_edge_deletes,
                self.pending_vertex_updates == old(self).pending_vertex_updates,
                self.pending_edge_updates == old(self).pending_edge_updates,
                self.updater == old(self).updater,
                self.batches == old(self).batches,
                old(self).undo().len() <= self.undo().len(),
                self.undo().subrange(0, old(self).undo().len() as int) == old(self).undo(),
                old(self).nothing_pending() ==> self.undo() == old(self).undo(),
                vd == old(self).vertex_deletes(),
                ed == old(self).edge_deletes(),
                vu == old(self).vertex_updates(),
                eu == old(self).edge_updates(),
                u0 == old(self).undo(),
                space_id == old(self).space_id_spec(),
                l1.len() == k,
                self.undo() == u0 + vertex_changes_undo(false, space_id, l1, vd.subrange(0, k as int)),
            decreases self.pending_vertex_deletes@.len() - k,
        {
            let indexes = self.updater.index_metadata_manager.list_tag_indexes(space_id)?;
            let ghost before = self.undo();
            self.undo_log.record_vertex(
                false,
                space_id,
                &indexes,
                &self.pending_vertex_deletes[k].0,
                self.pending_vertex_deletes[k].1.as_slice(),
            );
            assert(self.undo().subrange(0, old(self).undo().len() as int) =~= before.subrange(0, old(self).undo().len() as int));
            proof {
                let sub = vd.subrange(0, k as int + 1);
                assert(sub.drop_last() =~= vd.subrange(0, k as int));
                let nl = l1.push(indexes_view(indexes@));
                assert(nl.drop_last() =~= l1);
                l1 = nl;
            }
            k = k + 1;
        }
        assert(vd.subrange(0, k as int) =~= vd);
        let mut k: usize = 0;
        while k < self.pending_edge_deletes.len()
            invariant
                k <= self.pending_edge_deletes@.len(),
                self.pending_vertex_deletes == old(self).pending_vertex_deletes,
                self.pending_edge_deletes == old(self).pending_edge_deletes,
                self.pending_vertex_updates == old(self).pending_vertex_updates,
                self.pending_edge_updates == old(self).pending_edge_updates,
                self.updater == old(self).updater,
                self.batches == old(self).batches,
                old(self).undo().len() <= self.undo().len(),
                self.undo().subrange(0, old(self).undo().len() as int) == old(self).undo(),
                old(self).nothing_pending() ==> self.undo() == old(self).undo(),
                vd == old(self).vertex_deletes(),
                ed == old(self).edge_deletes(),
                vu == old(self).vertex_updates(),
                eu == old(self).edge_updates(),
                u0 == old(self).undo(),
                space_id == old(self).space_id_spec(),
                l2.len() == k,
                self.undo() == u0 + vertex_changes_undo(false, space_id, l1, vd) + edge_changes_undo(false, space_id, l2, ed.subrange(0, k as int)),
                l1.len() == vd.len(),
            decreases self.pending_edge_deletes@.len() - k,
        {
            let indexes = self.updater.index_metadata_manager.list_edge_indexes(space_id)?;
            let ghost before = self.undo();
            self.undo_log.record_edge(false, space_id, &indexes, &self.pending_edge_deletes[k]);
            assert(self.undo().subrange(0, old(self).undo().len() as int) =~= before.subrange(0, old(self).undo().len() as int));
            proof {
                let sub = ed.subrange(0, k as int + 1);
                assert(sub.drop_last() =~= ed.subrange(0, k as int));
                let nl = l2.push(indexes_view(indexes@));
                assert(nl.drop_last() =~= l2);
                l2 = nl;
            }
            k = k + 1;
        }
        assert(ed.subrange(0, k as int) =~= ed);
        let mut k: usize = 0;
        while k < self.pending_vertex_updates.len()
            invariant
                k <= self.pending_vertex_updates@.len(),
                self.pending_vertex_deletes == old(self).pending_vertex_deletes,
                self.pending_edge_deletes == old(self).pending_edge_deletes,
                self.pending_vertex_updates == old(self).pending_vertex_updates,
                self.pending_edge_updates == old(self).pending_edge_updates,
                self.updater == old(self).updater,
                self.batches == old(self).batches,
                old(self).undo().len() <= self.undo().len(),
                self.undo().subrange(0, old(self).undo().len() as int) == old(self).undo(),
                old(self).nothing_pending() ==> self.undo() == old(self).undo(),
                vd == old(self).vertex_deletes(),
                ed == old(self).edge_deletes(),
                vu == old(self).vertex_updates(),
                eu == old(self).edge_updates(),
                u0 == old(self).undo(),
                space_id == old(self).space_id_spec(),
                l3.len() == k,
                self.undo() == u0 + vertex_changes_undo(false, space_id, l1, vd) + edge_changes_undo(false, space_id, l2, ed) + vertex_changes_undo(true, space_id, l3, vu.subrange(0, k as int)),
                l1.len() == vd.len(),
                l2.len() == ed.len(),
            decreases self.pending_vertex_updates@.len() - k,
        {
            let indexes = self.updater.index_metadata_manager.list_tag_indexes(space_id)?;
            let ghost before = self.undo();
            self.undo_log.record_vertex(
                true,
                space_id,
                &indexes,
                &self.pending_vertex_updates[k].0,
                self.pending_vertex_updates[k].1.as_slice(),
            );
            assert(self.undo().subrange(0, old(self).undo().len() as int) =~= before.subrange(0, old(self).undo().len() as int));
            proof {
                let sub = vu.subrange(0, k as int + 1);
                assert(sub.drop_last() =~= vu.subrange(0, k as int));
                let nl = l3.push(indexes_view(indexes@));
                assert(nl.drop_last() =~= l3);
                l3 = nl;
            }
            k = k + 1;
        }
        assert(vu.subrange(0, k as int) =~= vu);
        let mut k: usize = 0;
        while k < self.pending_edge_updates.len()
            invariant
                k <= self.pending_edge_updates@.len(),
                self.pending_vertex_deletes == old(self).pending_vertex_deletes,
                self.pending_edge_deletes == old(self).pending_edge_deletes,
                self.pending_vertex_updates == old(self).pending_vertex_updates,
                self.pending_edge_updates == old(self).pending_edge_updates,
                self.updater == old(self).updater,
                self.batches == old(self).batches,
                old(self).undo().len() <= self.undo().len(),
                self.undo().subrange(0, old(self).undo().len() as int) == old(self).undo(),
                old(self).nothing_pending() ==> self.undo() == old(self).undo(),
                vd == old(self).vertex_deletes(),
                ed == old(self).edge_deletes(),
                vu == old(self).vertex_updates(),
                eu == old(self).edge_updates(),
                u0 == old(self).undo(),
                space_id == old(self).space_id_spec(),
                l4.len() == k,
                self.undo() == u0 + vertex_changes_undo(false, space_id, l1, vd) + edge_changes_undo(false, space_id, l2, ed) + vertex_changes_undo(true, space_id, l3, vu) + edge_changes_undo(true, space_id, l4, eu.subrange(0, k as int)),
                l1.len() == vd.len(),
                l2.len() == ed.len(),
                l3.len() == vu.len(),
            decreases self.pending_edge_updates@.len() - k,
        {
            let indexes = self.updater.index_metadata_manager.list_edge_indexes(space_id)?;
            let ghost before = self.undo();
            self.undo_log.record_edge(true, space_id, &indexes, &self.pending_edge_updates[k]);
            assert(self.undo().subrange(0, old(self).undo().len() as int) =~= before.subrange(0, old(self).undo().len() as int));
            proof {
                let sub = eu.subrange(0, k as int + 1);
                assert(sub.drop_last() =~= eu.subrange(0, k as int));
                let nl = l4.push(indexes_view(indexes@));
                assert(nl.drop_last() =~= l4);
                l4 = nl;
            }
            k = k + 1;
        }
        assert(eu.subrange(0, k as int) =~= eu);
        proof {
            assert(self.undo() =~= u0 + pending_undo(space_id, l1, l2, l3, l4, vd, ed, vu, eu));
        }
        Ok(())
    }

    /// Reverts the recorded index changes (newest first) and drops everything pending.
    /// If reverting fails, nothing pending is dropped and the entries not yet reverted
    /// stay in the undo log.
    pub fn rollback(&mut self) -> (r: Result<(), StorageError>)
        ensures
            r is Ok ==> final(self).nothing_pending() && final(self).undo() == Seq::<UndoEntryView>::empty(),
            final(self).handed_over() == old(self).handed_over(),
            r is Err ==> {
                &&& final(self).vertex_updates() == old(self).vertex_updates()
                &&& final(self).edge_updates() == old(self).edge_updates()
                &&& final(self).vertex_deletes() == old(self).vertex_deletes()
                &&& final(self).edge_deletes() == old(self).edge_deletes()
                &&& exists|k: int| 0 <= k < old(self).undo().len() && final(self).undo() == old(self).undo().subrange(0, k)
            },
    {
        if !self.undo_log.is_empty() {
            let ghost before = self.undo();
            let r = self.undo_log.execute_undo(self.updater.index_data_manager);
            if r.is_err() {
                proof {
                    let k = choose|k: int| 0 <= k < before.len() && self.undo_log@ == before.subrange(0, k);
                    assert(self.undo() == old(self).undo().subrange(0, k));
                }
                return r;
            }
        }
        self.pending_vertex_updates.clear();
        self.pending_edge_updates.clear();
        self.pending_vertex_deletes.clear();
        self.pending_edge_deletes.clear();
        assert(self.vertex_updates() =~= Seq::<(ValueView, Seq<TagView>)>::empty());
        assert(self.vertex_deletes() =~= Seq::<(ValueView, Seq<TagView>)>::empty());
        assert(self.edge_updates() =~= Seq::<EdgeView>::empty());
        assert(self.edge_deletes() =~= Seq::<EdgeView>::empty());
        Ok(())
    }

    /// The undo log.
    pub fn undo_log(&self) -> (r: &IndexUndoLog)
        ensures
            r@ == self.undo(),
    {
        &self.undo_log
    }

    /// Hands out the undo log, leaving an empty one.
    pub fn take_undo_log(&mut self) -> (r: IndexUndoLog)
        ensures
            r@ == old(self).undo(),
            final(self).undo() == Seq::<UndoEntryView>::empty(),
            final(self).vertex_updates() == old(self).vertex_updates(),
            final(self).edge_updates() == old(self).edge_updates(),
            final(self).vertex_deletes() == old(self).vertex_deletes(),
            final(self).edge_deletes() == old(self).edge_deletes(),
            final(self).handed_over() == old(self).handed_over(),
    {
        let entries = self.undo_log.take_entries();
        let r = IndexUndoLog { entries };
        assert(r@ =~= old(self).undo());
        r
    }
}

} // verus!
