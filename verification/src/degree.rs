//! The degree index: the in- and out-degree of each vertex, kept up to date as edges
//! come and go, with the running totals of all out- and in-degrees.
use vstd::prelude::*;
use dashmap::DashMap;
use crate::index_types::{IndexCategory, PrimaryIndex, VertexId};

verus! {

/// How many edges leave and enter a vertex.
#[derive(Debug, Clone, Copy, PartialEq, Eq, Structural, Default)]
pub struct DegreeInfo {
    pub out_degree: u32,
    pub in_degree: u32,
}

impl DegreeInfo {
    pub fn new(out_degree: u32, in_degree: u32) -> (r: Self)
        ensures
            r == (DegreeInfo { out_degree, in_degree }),
    {
        DegreeInfo { out_degree, in_degree }
    }

    /// All edges at the vertex, leaving and entering.
    pub fn total_degree(&self) -> (r: u64)
        ensures
            r == self.out_degree + self.in_degree,
    {
        self.out_degree as u64 + self.in_degree as u64
    }

    /// Whether no edge leaves or enters the vertex.
    pub fn is_isolated(&self) -> (r: bool)
        ensures
            r == (self.out_degree == 0 && self.in_degree == 0),
    {
        self.out_degree == 0 && self.in_degree == 0
    }
}

/// The pair `(out_degree, in_degree)` of a `DegreeInfo`.
pub open spec fn degree_pair(d: DegreeInfo) -> (u32, u32) {
    (d.out_degree, d.in_degree)
}

// ---------------------------------------------------------------------------
// The concurrent map that holds the degrees
// ---------------------------------------------------------------------------
#[verifier::external_type_specification]
#[verifier::external_body]
#[verifier::reject_recursive_types(K)]
#[verifier::reject_recursive_types(V)]
#[verifier::reject_recursive_types(S)]
pub struct ExDashMap<K, V, S>(DashMap<K, V, S>);

/// What a degree map holds: for each vertex, its `(out_degree, in_degree)`.
pub uninterp spec fn degree_entries(m: DashMap<u64, DegreeInfo>) -> Map<u64, (u32, u32)>;

/// The map without entries.
pub open spec fn no_degrees() -> Map<u64, (u32, u32)> {
    Map::empty()
}

/// `DashMap::new`: an empty map.
#[verifier::external_body]
fn map_new() -> (r: DashMap<u64, DegreeInfo>)
    ensures
        degree_entries(r) == no_degrees(),
{
    DashMap::new()
}

/// `DashMap::with_capacity`: an empty map with room for `capacity` entries. The map
/// rounds the capacity up to a multiple of its shard count with an addition that
/// overflows (and panics) near `usize::MAX`; larger capacities than the bound below
/// are left out.
#[verifier::external_body]
fn map_with_capacity(capacity: usize) -> (r: DashMap<u64, DegreeInfo>)
    requires
        capacity <= isize::MAX / 64,
    ensures
        degree_entries(r) == no_degrees(),
{
    DashMap::with_capacity(capacity)
}

/// `DashMap::get`, copying the value out: the entry of `key`, if there is one.
#[verifier::external_body]
fn map_get(m: &DashMap<u64, DegreeInfo>, key: u64) -> (r: Option<DegreeInfo>)
    ensures
        match r {
            Some(d) => degree_entries(*m).contains_key(key) && degree_entries(*m)[key] == degree_pair(d),
            None => !degree_entries(*m).contains_key(key),
        },
{
    match m.get(&key) {
        Some(entry) => Some(*entry),
        None => None,
    }
}

/// `DashMap::insert`: sets the entry of `key` and returns the value it replaced.
#[verifier::external_body]
fn map_insert(m: &mut DashMap<u64, DegreeInfo>, key: u64, value: DegreeInfo) -> (r: Option<DegreeInfo>)
    ensures
        degree_entries(*final(m)) == degree_entries(*old(m)).insert(key, degree_pair(value)),
        match r {
            Some(d) => degree_entries(*old(m)).contains_key(key) && degree_entries(*old(m))[key] == degree_pair(d),
            None => !degree_entries(*old(m)).contains_key(key),
        },
{
    m.insert(key, value)
}

/// `DashMap::remove`: removes the entry of `key` and returns its value.
#[verifier::external_body]
fn map_remove(m: &mut DashMap<u64, DegreeInfo>, key: u64) -> (r: Option<DegreeInfo>)
    ensures
        degree_entries(*final(m)) == degree_entries(*old(m)).remove(key),
        match r {
            Some(d) => degree_entries(*old(m)).contains_key(key) && degree_entries(*old(m))[key] == degree_pair(d),
            None => !degree_entries(*old(m)).contains_key(key),
        },
{
    match m.remove(&key) {
        Some((_, v)) => Some(v),
        None => None,
    }
}

/// `DashMap::len`: the number of entries.
#[verifier::external_body]
fn map_len(m: &DashMap<u64, DegreeInfo>) -> (r: usize)
    ensures
        r == degree_entries(*m).len(),
{
    m.len()
}

/// `DashMap::is_empty`: whether there is no entry.
#[verifier::external_body]
fn map_is_empty(m: &DashMap<u64, DegreeInfo>) -> (r: bool)
    ensures
        r == (degree_entries(*m).len() == 0),
{
    m.is_empty()
}

/// `DashMap::clear`: removes every entry.
#[verifier::external_body]
fn map_clear(m: &mut DashMap<u64, DegreeInfo>)
    ensures
        degree_entries(*final(m)) == no_degrees(),
{
    m.clear()
}

/// `DashMap::iter`, copying each entry out: every entry exactly once, in the map's
/// own order, which the source leaves open.
#[verifier::external_body]
fn map_entries(m: &DashMap<u64, DegreeInfo>) -> (r: Vec<(u64, DegreeInfo)>)
    ensures
        forall|i: int| #![trigger r@[i]]
            0 <= i < r@.len() ==> degree_entries(*m).contains_key(r@[i].0) && degree_entries(*m)[r@[i].0]
                == degree_pair(r@[i].1),
        forall|i: int, j: int| #![trigger r@[i], r@[j]] 0 <= i < j < r@.len() ==> r@[i].0 != r@[j].0,
        forall|k: u64| #![trigger degree_entries(*m).contains_key(k)]
            degree_entries(*m).contains_key(k) ==> exists|i: int| #![trigger r@[i]] 0 <= i < r@.len() && r@[i].0 == k,
{
    m.iter().map(|e| (*e.key(), *e.value())).collect()
}

// ---------------------------------------------------------------------------
// Sums of degrees
// ---------------------------------------------------------------------------
/// One of the two degrees of a pair.
pub open spec fn degree_of(d: (u32, u32), outgoing: bool) -> int {
    if outgoing {
        d.0 as int
    } else {
        d.1 as int
    }
}

/// The sum of the out-degrees (`outgoing`) or in-degrees of a finite degree map.
pub open spec fn degree_sum(m: Map<u64, (u32, u32)>, outgoing: bool) -> int
    decreases m.dom().len(),
{
    if m.dom().finite() && m.dom().len() > 0 {
        let k = m.dom().choose();
        degree_of(m[k], outgoing) + degree_sum(m.remove(k), outgoing)
    } else {
        0
    }
}

/// The sum does not depend on which entry is taken out first.
pub proof fn lemma_degree_sum_remove(m: Map<u64, (u32, u32)>, k: u64, outgoing: bool)
    requires
        m.dom().finite(),
        m.contains_key(k),
    ensures
        degree_sum(m, outgoing) == degree_of(m[k], outgoing) + degree_sum(m.remove(k), outgoing),
    decreases m.dom().len(),
{
    let c = m.dom().choose();
    if c != k {
        assert(m.remove(c).contains_key(k));
        lemma_degree_sum_remove(m.remove(c), k, outgoing);
        assert(m.remove(k).contains_key(c));
        lemma_degree_sum_remove(m.remove(k), c, outgoing);
        assert(m.remove(c).remove(k) =~= m.remove(k).remove(c));
    } else {
    }
}

/// Sums are never negative.
pub proof fn lemma_degree_sum_nonneg(m: Map<u64, (u32, u32)>, outgoing: bool)
    ensures
        degree_sum(m, outgoing) >= 0,
    decreases m.dom().len(),
{
    if m.dom().finite() && m.dom().len() > 0 {
        let k = m.dom().choose();
        lemma_degree_sum_nonneg(m.remove(k), outgoing);
    }
}

/// Setting the entry of `k` to `v` changes the sum by the difference of the degrees.
pub proof fn lemma_degree_sum_insert(m: Map<u64, (u32, u32)>, k: u64, v: (u32, u32), outgoing: bool)
    requires
        m.dom().finite(),
    ensures
        degree_sum(m.insert(k, v), outgoing) == degree_sum(m, outgoing) + degree_of(v, outgoing) - (if m.contains_key(
            k,
        ) {
            degree_of(m[k], outgoing)
        } else {
            0
        }),
{
    let n = m.insert(k, v);
    lemma_degree_sum_remove(n, k, outgoing);
    if m.contains_key(k) {
        lemma_degree_sum_remove(m, k, outgoing);
        assert(n.remove(k) =~= m.remove(k));
    } else {
        assert(n.remove(k) =~= m);
    }
}

/// The sum of an empty map is zero.
pub proof fn lemma_degree_sum_empty(outgoing: bool)
    ensures
        degree_sum(Map::<u64, (u32, u32)>::empty(), outgoing) == 0,
{
    assert(Map::<u64, (u32, u32)>::empty().dom() =~= Set::<u64>::empty());
}

/// Two to the 64th: the totals count modulo this, as wrapping `u64` counters do.
pub open spec fn total_modulus() -> int {
    0x1_0000_0000_0000_0000
}

/// The degrees of one vertex in a map: its entry, or zero degrees without one.
pub open spec fn degrees_in(m: Map<u64, (u32, u32)>, v: u64) -> (u32, u32) {
    if m.contains_key(v) {
        m[v]
    } else {
        (0, 0)
    }
}

// ---------------------------------------------------------------------------
// The degree index
// ---------------------------------------------------------------------------
/// The degree of every vertex that has an entry, with the running totals of
/// out-degrees and in-degrees. The totals are wrapping counters: each equals the
/// sum of its degrees modulo 2^64.
#[derive(Debug)]
pub struct DegreeIndex {
    degrees: DashMap<VertexId, DegreeInfo>,
    total_out_edges: u64,
    total_in_edges: u64,
}

impl DegreeIndex {
    /// The degree entries.
    pub closed spec fn entries(&self) -> Map<u64, (u32, u32)> {
        degree_entries(self.degrees)
    }

    /// The running total of out-degrees.
    pub closed spec fn out_total(&self) -> u64 {
        self.total_out_edges
    }

    /// The running total of in-degrees.
    pub closed spec fn in_total(&self) -> u64 {
        self.total_in_edges
    }

    /// The entries are finitely many and each total is the sum of its degrees
    /// modulo 2^64.
    pub open spec fn wf(&self) -> bool {
        &&& self.entries().dom().finite()
        &&& self.out_total() as int == degree_sum(self.entries(), true) % total_modulus()
        &&& self.in_total() as int == degree_sum(self.entries(), false) % total_modulus()
    }
}

proof fn lemma_total_step(t: u64, s: int, d: int)
    requires
        t as int == s % total_modulus(),
        s >= 0,
        s + d >= 0,
        -0x1_0000_0000 < d < 0x1_0000_0000,
    ensures
        (if t + d > u64::MAX {
            t + d - total_modulus()
        } else if t + d < 0 {
            t + d + total_modulus()
        } else {
            t + d
        }) == (s + d) % total_modulus(),
{
    assert(((s + d) % total_modulus()) == ((s % total_modulus()) + d) % total_modulus()) by {
        vstd::arithmetic::div_mod::lemma_add_mod_noop(s, d, total_modulus());
        vstd::arithmetic::div_mod::lemma_mod_twice(d, total_modulus());
        vstd::arithmetic::div_mod::lemma_mod_self_0(total_modulus());
        assert(d % total_modulus() == d || d % total_modulus() == d + total_modulus()) by {
            vstd::arithmetic::div_mod::lemma_fundamental_div_mod(d, total_modulus());
        }
        vstd::arithmetic::div_mod::lemma_add_mod_noop(s % total_modulus(), d, total_modulus());
    }
    let x = t + d;
    if x > u64::MAX {
        vstd::arithmetic::div_mod::lemma_mod_multiples_vanish(1, x - total_modulus(), total_modulus());
        vstd::arithmetic::div_mod::lemma_small_mod((x - total_modulus()) as nat, total_modulus() as nat);
    } else if x < 0 {
        vstd::arithmetic::div_mod::lemma_mod_multiples_vanish(-1, x + total_modulus(), total_modulus());
        vstd::arithmetic::div_mod::lemma_small_mod((x + total_modulus()) as nat, total_modulus() as nat);
    } else {
        vstd::arithmetic::div_mod::lemma_small_mod(x as nat, total_modulus() as nat);
    }
}

/// The map after one more edge leaves `v`.
pub open spec fn bump_out(m: Map<u64, (u32, u32)>, v: u64) -> Map<u64, (u32, u32)> {
    m.insert(v, ((degrees_in(m, v).0 + 1) as u32, degrees_in(m, v).1))
}

/// The map after one more edge enters `v`.
pub open spec fn bump_in(m: Map<u64, (u32, u32)>, v: u64) -> Map<u64, (u32, u32)> {
    m.insert(v, (degrees_in(m, v).0, (degrees_in(m, v).1 + 1) as u32))
}

/// The map after one edge fewer leaves `v`; unchanged when `v` has no entry or no
/// out-degree.
pub open spec fn drop_out(m: Map<u64, (u32, u32)>, v: u64) -> Map<u64, (u32, u32)> {
    if m.contains_key(v) && m[v].0 > 0 {
        m.insert(v, ((m[v].0 - 1) as u32, m[v].1))
    } else {
        m
    }
}

/// The map after one edge fewer enters `v`; unchanged when `v` has no entry or no
/// in-degree.
pub open spec fn drop_in(m: Map<u64, (u32, u32)>, v: u64) -> Map<u64, (u32, u32)> {
    if m.contains_key(v) && m[v].1 > 0 {
        m.insert(v, (m[v].0, (m[v].1 - 1) as u32))
    } else {
        m
    }
}

/// Which vertices a listing keeps.
enum DegreeFilter {
    OutAtLeast(u32),
    InAtLeast(u32),
    Isolated,
}

spec fn passes(f: DegreeFilter, d: (u32, u32)) -> bool {
    match f {
        DegreeFilter::OutAtLeast(min) => d.0 >= min,
        DegreeFilter::InAtLeast(min) => d.1 >= min,
        DegreeFilter::Isolated => d.0 == 0 && d.1 == 0,
    }
}

fn test_filter(f: &DegreeFilter, d: &DegreeInfo) -> (r: bool)
    ensures
        r == passes(*f, degree_pair(*d)),
{
    match f {
        DegreeFilter::OutAtLeast(min) => d.out_degree >= *min,
        DegreeFilter::InAtLeast(min) => d.in_degree >= *min,
        DegreeFilter::Isolated => d.is_isolated(),
    }
}

/// The vertices of a listing: each once, each with an entry, all that pass.
pub open spec fn lists_exactly(r: Seq<u64>, m: Map<u64, (u32, u32)>, keep: spec_fn((u32, u32)) -> bool) -> bool {
    &&& forall|i: int| #![trigger r[i]] 0 <= i < r.len() ==> m.contains_key(r[i]) && keep(m[r[i]])
    &&& r.no_duplicates()
    &&& forall|k: u64| #[trigger] m.contains_key(k) && keep(m[k]) ==> r.contains(k)
}

impl DegreeIndex {
    proof fn lemma_wf_after(
        t_out: u64,
        t_in: u64,
        old_m: Map<u64, (u32, u32)>,
        v: u64,
        d: (u32, u32),
    )
        requires
            old_m.dom().finite(),
            t_out as int == degree_sum(old_m, true) % total_modulus(),
            t_in as int == degree_sum(old_m, false) % total_modulus(),
        ensures
            old_m.insert(v, d).dom().finite(),
            ({
                let delta_out = d.0 - degrees_in(old_m, v).0;
                let delta_in = d.1 - degrees_in(old_m, v).1;
                &&& (if t_out + delta_out > u64::MAX {
                    t_out + delta_out - total_modulus()
                } else if t_out + delta_out < 0 {
                    t_out + delta_out + total_modulus()
                } else {
                    t_out + delta_out
                }) == degree_sum(old_m.insert(v, d), true) % total_modulus()
                &&& (if t_in + delta_in > u64::MAX {
                    t_in + delta_in - total_modulus()
                } else if t_in + delta_in < 0 {
                    t_in + delta_in + total_modulus()
                } else {
                    t_in + delta_in
                }) == degree_sum(old_m.insert(v, d), false) % total_modulus()
            }),
    {
        lemma_degree_sum_insert(old_m, v, d, true);
        lemma_degree_sum_insert(old_m, v, d, false);
        lemma_degree_sum_nonneg(old_m, true);
        lemma_degree_sum_nonneg(old_m, false);
        lemma_degree_sum_nonneg(old_m.insert(v, d), true);
        lemma_degree_sum_nonneg(old_m.insert(v, d), false);
        lemma_total_step(t_out, degree_sum(old_m, true), d.0 - degrees_in(old_m, v).0);
        lemma_total_step(t_in, degree_sum(old_m, false), d.1 - degrees_in(old_m, v).1);
    }

    /// An empty index.
    pub fn new() -> (r: Self)
        ensures
            r.wf(),
            r.entries() == no_degrees(),
            r.out_total() == 0,
            r.in_total() == 0,
    {
        proof {
            lemma_degree_sum_empty(true);
            lemma_degree_sum_empty(false);
        }
        DegreeIndex { degrees: map_new(), total_out_edges: 0, total_in_edges: 0 }
    }

    /// An empty index with room for `capacity` vertices.
    pub fn with_capacity(capacity: usize) -> (r: Self)
        requires
            capacity <= isize::MAX / 64,
        ensures
            r.wf(),
            r.entries() == no_degrees(),
            r.out_total() == 0,
            r.in_total() == 0,
    {
        proof {
            lemma_degree_sum_empty(true);
            lemma_degree_sum_empty(false);
        }
        DegreeIndex { degrees: map_with_capacity(capacity), total_out_edges: 0, total_in_edges: 0 }
    }

    /// The degrees of `vertex_id`, if it has an entry.
    pub fn get(&self, vertex_id: VertexId) -> (r: Option<DegreeInfo>)
        ensures
            match r {
                Some(d) => self.entries().contains_key(vertex_id) && self.entries()[vertex_id] == degree_pair(d),
                None => !self.entries().contains_key(vertex_id),
            },
    {
        map_get(&self.degrees, vertex_id)
    }

    /// The out-degree of `vertex_id` (zero without an entry).
    pub fn out_degree(&self, vertex_id: VertexId) -> (r: u32)
        ensures
            r == degrees_in(self.entries(), vertex_id).0,
    {
        match map_get(&self.degrees, vertex_id) {
            Some(d) => d.out_degree,
            None => 0,
        }
    }

    /// The in-degree of `vertex_id` (zero without an entry).
    pub fn in_degree(&self, vertex_id: VertexId) -> (r: u32)
        ensures
            r == degrees_in(self.entries(), vertex_id).1,
    {
        match map_get(&self.degrees, vertex_id) {
            Some(d) => d.in_degree,
            None => 0,
        }
    }

    /// The out- plus in-degree of `vertex_id` (zero without an entry).
    pub fn total_degree(&self, vertex_id: VertexId) -> (r: u64)
        ensures
            r == degrees_in(self.entries(), vertex_id).0 + degrees_in(self.entries(), vertex_id).1,
    {
        match map_get(&self.degrees, vertex_id) {
            Some(d) => d.total_degree(),
            None => 0,
        }
    }

    fn current(&self, vertex_id: VertexId) -> (r: DegreeInfo)
        ensures
            degree_pair(r) == degrees_in(self.entries(), vertex_id),
    {
        match map_get(&self.degrees, vertex_id) {
            Some(d) => d,
            None => DegreeInfo::new(0, 0),
        }
    }

    /// Counts one more edge leaving `vertex_id` (creating its entry if needed) and
    /// returns its new out-degree. Degrees are `u32` counts: an out-degree already at
    /// `u32::MAX` cannot grow, and the caller keeps it below.
    pub fn increment_out_degree(&mut self, vertex_id: VertexId) -> (r: u32)
        requires
            old(self).wf(),
            degrees_in(old(self).entries(), vertex_id).0 < u32::MAX,
        ensures
            final(self).wf(),
            final(self).entries() == bump_out(old(self).entries(), vertex_id),
            r == degrees_in(old(self).entries(), vertex_id).0 + 1,
            final(self).out_total() as int == (old(self).out_total() + 1) % total_modulus(),
            final(self).in_total() == old(self).in_total(),
    {
        let cur = self.current(vertex_id);
        let info = DegreeInfo::new(cur.out_degree + 1, cur.in_degree);
        proof {
            Self::lemma_wf_after(self.total_out_edges, self.total_in_edges, self.entries(), vertex_id, degree_pair(info));
            lemma_total_step(self.total_out_edges, self.total_out_edges as int, 1);
        }
        let _ = map_insert(&mut self.degrees, vertex_id, info);
        self.total_out_edges = self.total_out_edges.wrapping_add(1);
        info.out_degree
    }

    /// Counts one more edge entering `vertex_id` (creating its entry if needed) and
    /// returns its new in-degree. Degrees are `u32` counts: an in-degree already at
    /// `u32::MAX` cannot grow, and the caller keeps it below.
    pub fn increment_in_degree(&mut self, vertex_id: VertexId) -> (r: u32)
        requires
            old(self).wf(),
            degrees_in(old(self).entries(), vertex_id).1 < u32::MAX,
        ensures
            final(self).wf(),
            final(self).entries() == bump_in(old(self).entries(), vertex_id),
            r == degrees_in(old(self).entries(), vertex_id).1 + 1,
            final(self).in_total() as int == (old(self).in_total() + 1) % total_modulus(),
            final(self).out_total() == old(self).out_total(),
    {
        let cur = self.current(vertex_id);
        let info = DegreeInfo::new(cur.out_degree, cur.in_degree + 1);
        proof {
            Self::lemma_wf_after(self.total_out_edges, self.total_in_edges, self.entries(), vertex_id, degree_pair(info));
            lemma_total_step(self.total_in_edges, self.total_in_edges as int, 1);
        }
        let _ = map_insert(&mut self.degrees, vertex_id, info);
        self.total_in_edges = self.total_in_edges.wrapping_add(1);
        info.in_degree
    }

    /// Counts one edge fewer leaving `vertex_id` and returns its new out-degree;
    /// `None`, changing nothing, when the vertex has no entry or no out-degree.
    pub fn decrement_out_degree(&mut self, vertex_id: VertexId) -> (r: Option<u32>)
        requires
            old(self).wf(),
        ensures
            final(self).wf(),
            final(self).entries() == drop_out(old(self).entries(), vertex_id),
            ({
                let m = old(self).entries();
                if m.contains_key(vertex_id) && m[vertex_id].0 > 0 {
                    &&& r == Some((m[vertex_id].0 - 1) as u32)
                    &&& final(self).out_total() as int == (old(self).out_total() + total_modulus() - 1)
                        % total_modulus()
                } else {
                    &&& r is None
                    &&& final(self).out_total() == old(self).out_total()
                }
            }),
            final(self).in_total() == old(self).in_total(),
    {
        match map_get(&self.degrees, vertex_id) {
            Some(d) => {
                if d.out_degree > 0 {
                    let info = DegreeInfo::new(d.out_degree - 1, d.in_degree);
                    proof {
                        Self::lemma_wf_after(
                            self.total_out_edges,
                            self.total_in_edges,
                            self.entries(),
                            vertex_id,
                            degree_pair(info),
                        );
                        lemma_total_step(self.total_out_edges, self.total_out_edges + total_modulus(), -1);
                        vstd::arithmetic::div_mod::lemma_mod_add_multiples_vanish(
                            self.total_out_edges as int,
                            total_modulus(),
                        );
                        vstd::arithmetic::div_mod::lemma_small_mod(self.total_out_edges as nat, total_modulus() as nat);
                    }
                    let _ = map_insert(&mut self.degrees, vertex_id, info);
                    self.total_out_edges = self.total_out_edges.wrapping_sub(1);
                    Some(info.out_degree)
                } else {
                    None
                }
            },
            None => None,
        }
    }

    /// Counts one edge fewer entering `vertex_id` and returns its new in-degree;
    /// `None`, changing nothing, when the vertex has no entry or no in-degree.
    pub fn decrement_in_degree(&mut self, vertex_id: VertexId) -> (r: Option<u32>)
        requires
            old(self).wf(),
        ensures
            final(self).wf(),
            final(self).entries() == drop_in(old(self).entries(), vertex_id),
            ({
                let m = old(self).entries();
                if m.contains_key(vertex_id) && m[vertex_id].1 > 0 {
                    &&& r == Some((m[vertex_id].1 - 1) as u32)
                    &&& final(self).in_total() as int == (old(self).in_total() + total_modulus() - 1)
                        % total_modulus()
                } else {
                    &&& r is None
                    &&& final(self).in_total() == old(self).in_total()
                }
            }),
            final(self).out_total() == old(self).out_total(),
    {
        match map_get(&self.degrees, vertex_id) {
            Some(d) => {
                if d.in_degree > 0 {
                    let info = DegreeInfo::new(d.out_degree, d.in_degree - 1);
                    proof {
                        Self::lemma_wf_after(
                            self.total_out_edges,
                            self.total_in_edges,
                            self.entries(),
                            vertex_id,
                            degree_pair(info),
                        );
                        lemma_total_step(self.total_in_edges, self.total_in_edges + total_modulus(), -1);
                        vstd::arithmetic::div_mod::lemma_mod_add_multiples_vanish(
                            self.total_in_edges as int,
                            total_modulus(),
                        );
                        vstd::arithmetic::div_mod::lemma_small_mod(self.total_in_edges as nat, total_modulus() as nat);
                    }
                    let _ = map_insert(&mut self.degrees, vertex_id, info);
                    self.total_in_edges = self.total_in_edges.wrapping_sub(1);
                    Some(info.in_degree)
                } else {
                    None
                }
            },
            None => None,
        }
    }

    /// Counts an edge from `src` to `dst`: one more out-degree for `src`, one more
    /// in-degree for `dst`.
    pub fn insert_edge(&mut self, src: VertexId, dst: VertexId)
        requires
            old(self).wf(),
            degrees_in(old(self).entries(), src).0 < u32::MAX,
            degrees_in(old(self).entries(), dst).1 < u32::MAX,
        ensures
            final(self).wf(),
            final(self).entries() == bump_in(bump_out(old(self).entries(), src), dst),
    {
        self.increment_out_degree(src);
        self.increment_in_degree(dst);
    }

    /// Uncounts an edge from `src` to `dst`: one out-degree fewer for `src` and one
    /// in-degree fewer for `dst`, each only where there is one to take.
    pub fn remove_edge(&mut self, src: VertexId, dst: VertexId)
        requires
            old(self).wf(),
        ensures
            final(self).wf(),
            final(self).entries() == drop_in(drop_out(old(self).entries(), src), dst),
    {
        self.decrement_out_degree(src);
        self.decrement_in_degree(dst);
    }

    /// Sets the degrees of `vertex_id`, moving the totals by the change.
    pub fn set_degree(&mut self, vertex_id: VertexId, out_degree: u32, in_degree: u32)
        requires
            old(self).wf(),
        ensures
            final(self).wf(),
            final(self).entries() == old(self).entries().insert(vertex_id, (out_degree, in_degree)),
    {
        let ghost t_out = self.total_out_edges;
        let ghost t_in = self.total_in_edges;
        let ghost m = self.entries();
        proof {
            Self::lemma_wf_after(t_out, t_in, m, vertex_id, (out_degree, in_degree));
        }
        let old_entry = map_insert(&mut self.degrees, vertex_id, DegreeInfo::new(out_degree, in_degree));
        match old_entry {
            Some(old_info) => {
                let out_diff: i64 = out_degree as i64 - old_info.out_degree as i64;
                let in_diff: i64 = in_degree as i64 - old_info.in_degree as i64;
                if out_diff > 0 {
                    self.total_out_edges = self.total_out_edges.wrapping_add(out_diff as u64);
                } else if out_diff < 0 {
                    self.total_out_edges = self.total_out_edges.wrapping_sub((-out_diff) as u64);
                }
                if in_diff > 0 {
                    self.total_in_edges = self.total_in_edges.wrapping_add(in_diff as u64);
                } else if in_diff < 0 {
                    self.total_in_edges = self.total_in_edges.wrapping_sub((-in_diff) as u64);
                }
            },
            None => {
                self.total_out_edges = self.total_out_edges.wrapping_add(out_degree as u64);
                self.total_in_edges = self.total_in_edges.wrapping_add(in_degree as u64);
            },
        }
    }

    /// The number of vertices with an entry.
    pub fn len(&self) -> (r: usize)
        ensures
            r == self.entries().len(),
    {
        map_len(&self.degrees)
    }

    /// Whether no vertex has an entry.
    pub fn is_empty(&self) -> (r: bool)
        ensures
            r == (self.entries().len() == 0),
    {
        map_is_empty(&self.degrees)
    }

    /// The running total of out-degrees.
    pub fn total_out_edges(&self) -> (r: u64)
        ensures
            r == self.out_total(),
    {
        self.total_out_edges
    }

    /// The running total of in-degrees.
    pub fn total_in_edges(&self) -> (r: u64)
        ensures
            r == self.in_total(),
    {
        self.total_in_edges
    }

    /// Both running totals together. Their `u64` sum overflows past `u64::MAX`; such
    /// states are left out.
    pub fn total_edges(&self) -> (r: u64)
        requires
            self.out_total() + self.in_total() <= u64::MAX,
        ensures
            r == self.out_total() + self.in_total(),
    {
        self.total_out_edges() + self.total_in_edges()
    }

    /// Removes every entry and zeroes the totals.
    pub fn clear(&mut self)
        ensures
            final(self).wf(),
            final(self).entries() == no_degrees(),
            final(self).out_total() == 0,
            final(self).in_total() == 0,
    {
        proof {
            lemma_degree_sum_empty(true);
            lemma_degree_sum_empty(false);
        }
        map_clear(&mut self.degrees);
        self.total_out_edges = 0;
        self.total_in_edges = 0;
    }

    /// Removes the entry of `vertex_id`, taking its degrees off the totals, and
    /// returns it.
    pub fn remove_vertex(&mut self, vertex_id: VertexId) -> (r: Option<DegreeInfo>)
        requires
            old(self).wf(),
        ensures
            final(self).wf(),
            final(self).entries() == old(self).entries().remove(vertex_id),
            match r {
                Some(d) => old(self).entries().contains_key(vertex_id) && old(self).entries()[vertex_id] == degree_pair(
                    d,
                ),
                None => !old(self).entries().contains_key(vertex_id),
            },
    {
        let ghost m = self.entries();
        let removed = map_remove(&mut self.degrees, vertex_id);
        match removed {
            Some(info) => {
                proof {
                    lemma_degree_sum_remove(m, vertex_id, true);
                    lemma_degree_sum_remove(m, vertex_id, false);
                    lemma_degree_sum_nonneg(m.remove(vertex_id), true);
                    lemma_degree_sum_nonneg(m.remove(vertex_id), false);
                    lemma_total_step(self.total_out_edges, degree_sum(m, true), -(info.out_degree as int));
                    lemma_total_step(self.total_in_edges, degree_sum(m, false), -(info.in_degree as int));
                }
                self.total_out_edges = self.total_out_edges.wrapping_sub(info.out_degree as u64);
                self.total_in_edges = self.total_in_edges.wrapping_sub(info.in_degree as u64);
            },
            None => {
                assert(m.remove(vertex_id) =~= m);
            },
        }
        removed
    }

    fn vertices_where(&self, filter: DegreeFilter) -> (r: Vec<VertexId>)
        ensures
            lists_exactly(r@, self.entries(), |d: (u32, u32)| passes(filter, d)),
    {
        let items = map_entries(&self.degrees);
        let ghost m = self.entries();
        let mut out: Vec<VertexId> = Vec::new();
        let mut i: usize = 0;
        while i < items.len()
            invariant
                i <= items@.len(),
                m == self.entries(),
                forall|j: int| #![trigger items@[j]]
                    0 <= j < items@.len() ==> m.contains_key(items@[j].0) && m[items@[j].0] == degree_pair(items@[j].1),
                forall|a: int, b: int| #![trigger items@[a], items@[b]] 0 <= a < b < items@.len() ==> items@[a].0 != items@[b].0,
                forall|a: int| 0 <= a < out@.len() ==> #[trigger] m.contains_key(out@[a]) && passes(filter, m[out@[a]]),
                forall|a: int| #![trigger out@[a]]
                    0 <= a < out@.len() ==> exists|j: int| #![trigger items@[j]] 0 <= j < i && items@[j].0 == out@[a],
                out@.no_duplicates(),
                forall|j: int| #![trigger items@[j]] 0 <= j < i && passes(filter, m[items@[j].0]) ==> out@.contains(items@[j].0),
            decreases items@.len() - i,
        {
            let (k, d) = items[i];
            assert(items@[i as int].0 == k);
            if test_filter(&filter, &d) {
                proof {
                    assert forall|a: int| 0 <= a < out@.len() implies out@[a] != k by {
                        let j = choose|j: int| #![trigger items@[j]] 0 <= j < i && items@[j].0 == out@[a];
                        assert(items@[j].0 != items@[i as int].0);
                    }
                }
                let ghost before = out@;
                out.push(k);
                proof {
                    assert(out@ == before.push(k));
                    assert forall|a: int| #![trigger out@[a]] 0 <= a < out@.len() implies exists|j: int|
                        #![trigger items@[j]] 0 <= j < i + 1 && items@[j].0 == out@[a] by {
                        if a < before.len() {
                            let j = choose|j: int| #![trigger items@[j]] 0 <= j < i && items@[j].0 == before[a];
                            assert(items@[j].0 == out@[a]);
                        } else {
                            assert(items@[i as int].0 == out@[a]);
                        }
                    }
                    assert forall|j: int| #![trigger items@[j]] 0 <= j < i + 1 && passes(filter, m[items@[j].0]) implies out@.contains(
                        items@[j].0,
                    ) by {
                        if j < i {
                            assert(before.contains(items@[j].0));
                            let x = choose|x: int| 0 <= x < before.len() && before[x] == items@[j].0;
                            assert(out@[x] == items@[j].0);
                        } else {
                            assert(out@[before.len() as int] == k);
                        }
                    }
                }
            }
            i = i + 1;
        }
        proof {
            assert forall|k: u64| #[trigger] m.contains_key(k) && passes(filter, m[k]) implies out@.contains(k) by {
                let j = choose|j: int| #![trigger items@[j]] 0 <= j < items@.len() && items@[j].0 == k;
                assert(passes(filter, m[items@[j].0]));
            }
        }
        out
    }

    /// The vertices whose out-degree is at least `min_degree`, in no particular order.
    pub fn vertices_with_out_degree_at_least(&self, min_degree: u32) -> (r: Vec<VertexId>)
        ensures
            lists_exactly(r@, self.entries(), |d: (u32, u32)| d.0 >= min_degree),
    {
        let r = self.vertices_where(DegreeFilter::OutAtLeast(min_degree));
        proof {
            let m = self.entries();
            assert forall|k: u64| #[trigger] m.contains_key(k) && m[k].0 >= min_degree implies r@.contains(k) by {
                assert(passes(DegreeFilter::OutAtLeast(min_degree), m[k]));
            }
        }
        r
    }

    /// The vertices whose in-degree is at least `min_degree`, in no particular order.
    pub fn vertices_with_in_degree_at_least(&self, min_degree: u32) -> (r: Vec<VertexId>)
        ensures
            lists_exactly(r@, self.entries(), |d: (u32, u32)| d.1 >= min_degree),
    {
        let r = self.vertices_where(DegreeFilter::InAtLeast(min_degree));
        proof {
            let m = self.entries();
            assert forall|k: u64| #[trigger] m.contains_key(k) && m[k].1 >= min_degree implies r@.contains(k) by {
                assert(passes(DegreeFilter::InAtLeast(min_degree), m[k]));
            }
        }
        r
    }

    /// The vertices with an entry but no edges, in no particular order.
    pub fn isolated_vertices(&self) -> (r: Vec<VertexId>)
        ensures
            lists_exactly(r@, self.entries(), |d: (u32, u32)| d.0 == 0 && d.1 == 0),
    {
        let r = self.vertices_where(DegreeFilter::Isolated);
        proof {
            let m = self.entries();
            assert forall|k: u64| #[trigger] m.contains_key(k) && m[k].0 == 0 && m[k].1 == 0 implies r@.contains(k) by {
                assert(passes(DegreeFilter::Isolated, m[k]));
            }
        }
        r
    }

    /// Every entry, once each, in no particular order.
    pub fn iter(&self) -> (r: Vec<(VertexId, DegreeInfo)>)
        ensures
            forall|i: int| #![trigger r@[i]]
                0 <= i < r@.len() ==> self.entries().contains_key(r@[i].0) && self.entries()[r@[i].0] == degree_pair(
                    r@[i].1,
                ),
            forall|i: int, j: int| #![trigger r@[i], r@[j]] 0 <= i < j < r@.len() ==> r@[i].0 != r@[j].0,
            forall|k: u64| #![trigger self.entries().contains_key(k)]
                self.entries().contains_key(k) ==> exists|i: int| #![trigger r@[i]] 0 <= i < r@.len() && r@[i].0 == k,
    {
        map_entries(&self.degrees)
    }
}

impl Default for DegreeIndex {
    fn default() -> (r: Self)
        ensures
            r.wf(),
            r.entries() == no_degrees(),
            r.out_total() == 0,
            r.in_total() == 0,
    {
        Self::new()
    }
}

impl PrimaryIndex for DegreeIndex {
    fn index_name(&self) -> (r: &str)
        ensures
            r@ == "degree_index"@,
    {
        "degree_index"
    }

    fn entry_count(&self) -> (r: usize)
        ensures
            r == self.entries().len(),
    {
        map_len(&self.degrees)
    }

    fn clear(&mut self)
        ensures
            final(self).wf(),
            final(self).entries() == no_degrees(),
            final(self).out_total() == 0,
            final(self).in_total() == 0,
    {
        proof {
            lemma_degree_sum_empty(true);
            lemma_degree_sum_empty(false);
        }
        map_clear(&mut self.degrees);
        self.total_out_edges = 0;
        self.total_in_edges = 0;
    }

    /// The bytes of the entries, each a vertex id and its degrees, saturating at
    /// `usize::MAX`.
    fn memory_usage(&self) -> (r: usize)
        ensures
            r == if self.entries().len() * (8 + vstd::layout::size_of::<DegreeInfo>()) <= usize::MAX {
                self.entries().len() * (8 + vstd::layout::size_of::<DegreeInfo>())
            } else {
                usize::MAX as nat
            },
    {
        let n = map_len(&self.degrees);
        let entry = std::mem::size_of::<VertexId>().saturating_add(std::mem::size_of::<DegreeInfo>());
        let r = match n.checked_mul(entry) {
            Some(x) => x,
            None => usize::MAX,
        };
        proof {
            broadcast use vstd::layout::layout_of_primitives;

            let s = vstd::layout::size_of::<DegreeInfo>();
            assert(vstd::layout::size_of::<u64>() == 8);
            assert(n == self.entries().len());
            if 8 + s <= usize::MAX {
                assert(entry == 8 + s);
                assert(n * entry == self.entries().len() * (8 + s));
                if n * entry <= usize::MAX {
                    assert(r == n * entry);
                } else {
                    assert(r == usize::MAX);
                }
            } else {
                assert(entry == usize::MAX);
                if n == 0 {
                    assert(n * entry == 0 && n * (8 + s) == 0) by (nonlinear_arith)
                        requires
                            n == 0,
                    ;
                } else if n == 1 {
                    assert(n * entry == entry && n * (8 + s) == 8 + s) by (nonlinear_arith)
                        requires
                            n == 1,
                    ;
                } else if n >= 2 {
                    assert(n * (8 + s) >= 8 + s) by (nonlinear_arith)
                        requires
                            n >= 1,
                            8 + s >= 0,
                    ;
                    assert(n * entry >= 2 * entry) by (nonlinear_arith)
                        requires
                            n >= 2,
                            entry >= 0,
                    ;
                }
            }
        }
        r
    }
}

/// Counting an edge and uncounting it again restores the degrees of both ends.
pub proof fn lemma_insert_remove_edge(m: Map<u64, (u32, u32)>, src: u64, dst: u64)
    requires
        degrees_in(m, src).0 < u32::MAX,
        degrees_in(m, dst).1 < u32::MAX,
    ensures
        degrees_in(drop_in(drop_out(bump_in(bump_out(m, src), dst), src), dst), src) == degrees_in(m, src),
        degrees_in(drop_in(drop_out(bump_in(bump_out(m, src), dst), src), dst), dst) == degrees_in(m, dst),
        forall|v: u64|
            v != src && v != dst ==> #[trigger] drop_in(drop_out(bump_in(bump_out(m, src), dst), src), dst).get(v)
                == m.get(v),
{
}

} // verus!
