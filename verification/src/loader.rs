//! Settings and phases of bulk loading.

use vstd::prelude::*;
use crate::csv::{
    blank, chars_of, is_blank, lines_of, parse_number, parse_u64, split_chars, split_on, text_lines,
    text_of, texts_of,
};
use crate::str_map::StrMap;

verus! {

/// Bulk loading configuration
#[derive(Debug, Clone)]
pub struct BulkLoadConfig {
    /// Batch size for processing
    pub batch_size: usize,
    /// Number of parallel workers
    pub worker_count: usize,
    /// Enable progress reporting
    pub enable_progress: bool,
    /// Progress reporting interval (records)
    pub progress_interval: u64,
    /// Enable index updates during loading
    pub enable_index_updates: bool,
    /// Enable transaction batching
    pub enable_transaction_batching: bool,
    /// Transaction batch size
    pub transaction_batch_size: usize,
}

impl Default for BulkLoadConfig {
    fn default() -> (c: Self)
        ensures
            c.batch_size == 10000,
            c.worker_count == 4,
            c.enable_progress,
            c.progress_interval == 10000,
            c.enable_index_updates,
            c.enable_transaction_batching,
            c.transaction_batch_size == 1000,
    {
        BulkLoadConfig {
            batch_size: 10000,
            worker_count: 4,
            enable_progress: true,
            progress_interval: 10000,
            enable_index_updates: true,
            enable_transaction_batching: true,
            transaction_batch_size: 1000,
        }
    }
}

/// Loading phases
#[derive(Debug, Clone, Copy, PartialEq, Eq, Structural)]
pub enum LoadingPhase {
    /// Initializing
    Initializing,
    /// Loading nodes
    LoadingNodes,
    /// Loading relationships
    LoadingRelationships,
    /// Updating indexes
    UpdatingIndexes,
    /// Finalizing
    Finalizing,
    /// Completed
    Completed,
}

/// Where a bulk load stands: its phase and how many nodes and
/// relationships have been loaded.
#[derive(Debug, Clone, Copy, PartialEq, Eq, Structural)]
pub struct LoadStep {
    pub phase: LoadingPhase,
    pub nodes_processed: u64,
    pub relationships_processed: u64,
}

/// Items loaded once one more batch of at most `batch` is loaded after
/// `done` of `total`.
pub open spec fn after_batch(done: u64, batch: usize, total: u64) -> u64 {
    if total - done <= batch {
        total
    } else {
        (done + batch) as u64
    }
}

/// The step that follows `s` when loading `total_nodes` nodes and then
/// `total_rels` relationships in batches of `batch_size`: each loading step
/// loads one batch; an empty kind of item is skipped; once both are loaded
/// the indexes are updated, then the load is finalized and completed.
pub open spec fn load_step_after(s: LoadStep, batch_size: usize, total_nodes: u64, total_rels: u64) -> LoadStep {
    let rels_or_indexes = if total_rels > 0 {
        LoadStep { phase: LoadingPhase::LoadingRelationships, nodes_processed: total_nodes, relationships_processed: 0 }
    } else {
        LoadStep { phase: LoadingPhase::UpdatingIndexes, nodes_processed: total_nodes, relationships_processed: total_rels }
    };
    match s.phase {
        LoadingPhase::Initializing => if total_nodes > 0 {
            LoadStep { phase: LoadingPhase::LoadingNodes, nodes_processed: 0, relationships_processed: 0 }
        } else {
            rels_or_indexes
        },
        LoadingPhase::LoadingNodes => if s.nodes_processed < total_nodes {
            LoadStep { nodes_processed: after_batch(s.nodes_processed, batch_size, total_nodes), ..s }
        } else {
            rels_or_indexes
        },
        LoadingPhase::LoadingRelationships => if s.relationships_processed < total_rels {
            LoadStep { relationships_processed: after_batch(s.relationships_processed, batch_size, total_rels), ..s }
        } else {
            LoadStep { phase: LoadingPhase::UpdatingIndexes, nodes_processed: total_nodes, relationships_processed: total_rels }
        },
        LoadingPhase::UpdatingIndexes => LoadStep { phase: LoadingPhase::Finalizing, ..s },
        LoadingPhase::Finalizing => LoadStep { phase: LoadingPhase::Completed, ..s },
        LoadingPhase::Completed => s,
    }
}

fn batch_end(done: u64, batch: usize, total: u64) -> (r: u64)
    ensures
        r == after_batch(done, batch, total),
{
    if done >= total || total - done <= batch as u64 {
        total
    } else {
        done + batch as u64
    }
}

/// The next step of a bulk load (see `load_step_after`).
pub fn next_load_step(s: LoadStep, batch_size: usize, total_nodes: u64, total_rels: u64) -> (n: LoadStep)
    requires
        batch_size > 0,
    ensures
        n == load_step_after(s, batch_size, total_nodes, total_rels),
        s.nodes_processed <= total_nodes && s.relationships_processed <= total_rels ==> {
            &&& n.nodes_processed <= total_nodes
            &&& n.relationships_processed <= total_rels
        },
{
    let rels_or_indexes = if total_rels > 0 {
        LoadStep { phase: LoadingPhase::LoadingRelationships, nodes_processed: total_nodes, relationships_processed: 0 }
    } else {
        LoadStep { phase: LoadingPhase::UpdatingIndexes, nodes_processed: total_nodes, relationships_processed: total_rels }
    };
    match s.phase {
        LoadingPhase::Initializing => if total_nodes > 0 {
            LoadStep { phase: LoadingPhase::LoadingNodes, nodes_processed: 0, relationships_processed: 0 }
        } else {
            rels_or_indexes
        },
        LoadingPhase::LoadingNodes => if s.nodes_processed < total_nodes {
            LoadStep { nodes_processed: batch_end(s.nodes_processed, batch_size, total_nodes), ..s }
        } else {
            rels_or_indexes
        },
        LoadingPhase::LoadingRelationships => if s.relationships_processed < total_rels {
            LoadStep { relationships_processed: batch_end(s.relationships_processed, batch_size, total_rels), ..s }
        } else {
            LoadStep { phase: LoadingPhase::UpdatingIndexes, nodes_processed: total_nodes, relationships_processed: total_rels }
        },
        LoadingPhase::UpdatingIndexes => LoadStep { phase: LoadingPhase::Finalizing, ..s },
        LoadingPhase::Finalizing => LoadStep { phase: LoadingPhase::Completed, ..s },
        LoadingPhase::Completed => s,
    }
}

/// A node read from a row of a node file: no id yet, the label `Node`, and
/// the row's fields as text properties named by the header's columns.
#[derive(Debug)]
pub struct NodeRecord {
    pub id: Option<u64>,
    pub labels: Vec<String>,
    pub properties: StrMap<String>,
}

/// A relationship read from a row of a relationship file: no id yet, the
/// source and target ids and type from the first three fields, and the
/// further fields as text properties named by the header's columns.
#[derive(Debug)]
pub struct RelationshipRecord {
    pub id: Option<u64>,
    pub source_id: u64,
    pub target_id: u64,
    pub rel_type: String,
    pub properties: StrMap<String>,
}

/// What a relationship row holds.
pub struct RelationshipRow {
    pub source_id: u64,
    pub target_id: u64,
    pub rel_type: Seq<char>,
    pub properties: Map<Seq<char>, Seq<char>>,
}

/// Text properties as texts.
pub open spec fn text_props(m: StrMap<String>) -> Map<Seq<char>, Seq<char>> {
    m.map().map_values(|v: String| v@)
}

/// The properties that fields `lo` up to `hi` give, each named by its
/// column; a column named twice keeps its later field.
pub open spec fn props_between(cols: Seq<Seq<char>>, vals: Seq<Seq<char>>, lo: int, hi: int) -> Map<Seq<char>, Seq<char>>
    decreases hi - lo,
{
    if hi <= lo {
        Map::empty()
    } else {
        props_between(cols, vals, lo, hi - 1).insert(cols[hi - 1], vals[hi - 1])
    }
}

/// The label every node read from a file gets.
pub open spec fn node_label() -> Seq<char> {
    seq!['N', 'o', 'd', 'e']
}

/// The node properties of the data lines `ls` under the columns `cols`: a
/// blank line, or one whose field count differs from the column count, is
/// skipped.
pub open spec fn node_rows(cols: Seq<Seq<char>>, ls: Seq<Seq<char>>) -> Seq<Map<Seq<char>, Seq<char>>>
    decreases ls.len(),
{
    if ls.len() == 0 {
        seq![]
    } else {
        let prev = node_rows(cols, ls.drop_last());
        let vals = split_on(ls.last(), ',');
        if is_blank(ls.last()) || vals.len() != cols.len() {
            prev
        } else {
            prev.push(props_between(cols, vals, 0, cols.len() as int))
        }
    }
}

/// The node properties of a node file: its first line names the columns,
/// each following line is a row (see `node_rows`).
pub open spec fn csv_nodes(t: Seq<char>) -> Seq<Map<Seq<char>, Seq<char>>> {
    let ls = text_lines(t);
    if ls.len() == 0 {
        seq![]
    } else {
        node_rows(split_on(ls[0], ','), ls.drop_first())
    }
}

/// An id field: its number, or 0 where it is none.
pub open spec fn id_or_zero(f: Seq<char>) -> u64 {
    match parse_u64(f) {
        Some(v) => v,
        None => 0,
    }
}

/// The relationship of the fields `vals` under the columns `cols`.
pub open spec fn relationship_row(cols: Seq<Seq<char>>, vals: Seq<Seq<char>>) -> RelationshipRow {
    let hi = if vals.len() < cols.len() { vals.len() } else { cols.len() };
    RelationshipRow {
        source_id: id_or_zero(vals[0]),
        target_id: id_or_zero(vals[1]),
        rel_type: vals[2],
        properties: props_between(cols, vals, 3, hi as int),
    }
}

/// The relationships of the data lines `ls` under the columns `cols`: a
/// blank line, or one with fewer than three fields, is skipped.
pub open spec fn relationship_rows(cols: Seq<Seq<char>>, ls: Seq<Seq<char>>) -> Seq<RelationshipRow>
    decreases ls.len(),
{
    if ls.len() == 0 {
        seq![]
    } else {
        let prev = relationship_rows(cols, ls.drop_last());
        let vals = split_on(ls.last(), ',');
        if is_blank(ls.last()) || vals.len() < 3 {
            prev
        } else {
            prev.push(relationship_row(cols, vals))
        }
    }
}

/// The relationships of a relationship file: its first line names the
/// columns, each following line is a row (see `relationship_rows`).
pub open spec fn csv_relationships(t: Seq<char>) -> Seq<RelationshipRow> {
    let ls = text_lines(t);
    if ls.len() == 0 {
        seq![]
    } else {
        relationship_rows(split_on(ls[0], ','), ls.drop_first())
    }
}

/// What a relationship record holds.
pub open spec fn relationship_view(r: RelationshipRecord) -> RelationshipRow {
    RelationshipRow {
        source_id: r.source_id,
        target_id: r.target_id,
        rel_type: r.rel_type@,
        properties: text_props(r.properties),
    }
}

fn row_properties(cols: &Vec<Vec<char>>, vals: &Vec<Vec<char>>, lo: usize, hi: usize) -> (m: StrMap<String>)
    requires
        lo <= hi,
        hi <= cols.len(),
        hi <= vals.len(),
    ensures
        text_props(m) == props_between(texts_of(cols@), texts_of(vals@), lo as int, hi as int),
{
    let mut m: StrMap<String> = StrMap::new();
    assert(text_props(m) =~= Map::<Seq<char>, Seq<char>>::empty());
    let mut i: usize = lo;
    while i < hi
        invariant
            lo <= i <= hi,
            hi <= cols.len(),
            hi <= vals.len(),
            text_props(m) == props_between(texts_of(cols@), texts_of(vals@), lo as int, i as int),
        decreases hi - i,
    {
        let k = text_of(&cols[i]);
        let v = text_of(&vals[i]);
        let ghost before = text_props(m);
        let ghost kv = k@;
        let ghost vv = v@;
        m.insert(k, v);
        proof {
            assert(text_props(m) =~= before.insert(kv, vv));
            assert(texts_of(cols@)[i as int] == kv);
            assert(texts_of(vals@)[i as int] == vv);
        }
        i = i + 1;
    }
    m
}

fn node_label_text() -> (s: String)
    ensures
        s@ == node_label(),
{
    proof {
        reveal_strlit("Node");
    }
    String::from_str("Node")
}

/// The nodes of a node file (see `csv_nodes`), each with no id and the
/// single label `Node`.
pub fn nodes_from_csv(text: &str) -> (r: Vec<NodeRecord>)
    ensures
        r@.len() == csv_nodes(text@).len(),
        forall|i: int| 0 <= i < r@.len() ==> {
            &&& (#[trigger] r@[i]).id is None
            &&& r@[i].labels@.len() == 1
            &&& r@[i].labels@[0]@ == node_label()
            &&& text_props(r@[i].properties) == csv_nodes(text@)[i]
        },
{
    let cs = chars_of(text);
    let lines = lines_of(&cs);
    let mut out: Vec<NodeRecord> = Vec::new();
    if lines.len() == 0 {
        return out;
    }
    let cols = split_chars(&lines[0], ',');
    let ghost ls = texts_of(lines@);
    let ghost cv = texts_of(cols@);
    assert(ls.drop_first() =~= ls.subrange(1, ls.len() as int));
    let mut k: usize = 1;
    while k < lines.len()
        invariant
            1 <= k <= lines.len(),
            ls == texts_of(lines@),
            cv == texts_of(cols@),
            out@.len() == node_rows(cv, ls.subrange(1, k as int)).len(),
            forall|i: int| 0 <= i < out@.len() ==> {
                &&& (#[trigger] out@[i]).id is None
                &&& out@[i].labels@.len() == 1
                &&& out@[i].labels@[0]@ == node_label()
                &&& text_props(out@[i].properties) == node_rows(cv, ls.subrange(1, k as int))[i]
            },
        decreases lines.len() - k,
    {
        let line = &lines[k];
        let vals = split_chars(line, ',');
        proof {
            assert(ls.subrange(1, k + 1).drop_last() =~= ls.subrange(1, k as int));
            assert(ls.subrange(1, k + 1).last() == line@);
        }
        if !blank(line) && vals.len() == cols.len() {
            let props = row_properties(&cols, &vals, 0, cols.len());
            out.push(NodeRecord { id: None, labels: vec![node_label_text()], properties: props });
        }
        k = k + 1;
    }
    out
}

/// The relationships of a relationship file (see `csv_relationships`), each
/// with no id.
pub fn relationships_from_csv(text: &str) -> (r: Vec<RelationshipRecord>)
    ensures
        r@.len() == csv_relationships(text@).len(),
        forall|i: int| 0 <= i < r@.len() ==> {
            &&& (#[trigger] r@[i]).id is None
            &&& relationship_view(r@[i]) == csv_relationships(text@)[i]
        },
{
    let cs = chars_of(text);
    let lines = lines_of(&cs);
    let mut out: Vec<RelationshipRecord> = Vec::new();
    if lines.len() == 0 {
        return out;
    }
    let cols = split_chars(&lines[0], ',');
    let ghost ls = texts_of(lines@);
    let ghost cv = texts_of(cols@);
    assert(ls.drop_first() =~= ls.subrange(1, ls.len() as int));
    let mut k: usize = 1;
    while k < lines.len()
        invariant
            1 <= k <= lines.len(),
            ls == texts_of(lines@),
            cv == texts_of(cols@),
            out@.len() == relationship_rows(cv, ls.subrange(1, k as int)).len(),
            forall|i: int| 0 <= i < out@.len() ==> {
                &&& (#[trigger] out@[i]).id is None
                &&& relationship_view(out@[i]) == relationship_rows(cv, ls.subrange(1, k as int))[i]
            },
        decreases lines.len() - k,
    {
        let line = &lines[k];
        let vals = split_chars(line, ',');
        proof {
            assert(ls.subrange(1, k + 1).drop_last() =~= ls.subrange(1, k as int));
            assert(ls.subrange(1, k + 1).last() == line@);
        }
        if !blank(line) && vals.len() >= 3 {
            let source_id = match parse_number(&vals[0]) {
                Some(v) => v,
                None => 0,
            };
            let target_id = match parse_number(&vals[1]) {
                Some(v) => v,
                None => 0,
            };
            let rel_type = text_of(&vals[2]);
            let hi = if vals.len() < cols.len() { vals.len() } else { cols.len() };
            let properties = if hi > 3 {
                row_properties(&cols, &vals, 3, hi)
            } else {
                let m: StrMap<String> = StrMap::new();
                assert(text_props(m) =~= Map::<Seq<char>, Seq<char>>::empty());
                m
            };
            let rec = RelationshipRecord { id: None, source_id, target_id, rel_type, properties };
            proof {
                let vv = texts_of(vals@);
                assert(vv[0] == vals@[0]@);
                assert(vv[1] == vals@[1]@);
                assert(vv[2] == vals@[2]@);
                assert(relationship_view(rec) == relationship_row(cv, vv));
            }
            out.push(rec);
        }
        k = k + 1;
    }
    out
}

} // verus!
