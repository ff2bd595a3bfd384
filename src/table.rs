use vstd::prelude::*;

use crate::error::ErrorKind;

verus! {

/// One packed file as the container's entry table lists it.
#[derive(Clone, Debug, PartialEq, Eq)]
pub struct EntryRecord {
    /// Relative path inside the container, `/`-separated.
    pub path: String,
    /// Position of the payload in the container file.
    pub offset: u64,
    /// Exact length of the payload in bytes.
    pub size: u64,
}

/// The mathematical value of a record: (path, offset, size).
pub type RecordView = (Seq<char>, u64, u64);

impl View for EntryRecord {
    type V = RecordView;

    open spec fn view(&self) -> RecordView {
        (self.path@, self.offset, self.size)
    }
}

/// The values of a sequence of records.
pub open spec fn records_view(s: Seq<EntryRecord>) -> Seq<RecordView> {
    s.map_values(|r: EntryRecord| r@)
}

/// First byte past the payload of a record.
pub open spec fn record_end(e: RecordView) -> int {
    e.1 + e.2
}

/// No two records share a path.
pub open spec fn paths_distinct(es: Seq<RecordView>) -> bool {
    forall|i: int, j: int| 0 <= i < j < es.len() ==> #[trigger] es[i].0 != #[trigger] es[j].0
}

/// Every payload lies inside a file of `len` bytes.
pub open spec fn all_within(es: Seq<RecordView>, len: int) -> bool {
    forall|i: int| 0 <= i < es.len() ==> record_end(#[trigger] es[i]) <= len
}

/// The structural invariants of an entry table whose header declares
/// `declared` entries, in a container file of `len` bytes.
pub open spec fn table_valid(declared: int, es: Seq<RecordView>, len: int) -> bool {
    &&& es.len() == declared
    &&& all_within(es, len)
    &&& paths_distinct(es)
}

/// A parsed entry table that has passed every structural check.
#[derive(Debug)]
pub struct EntryTable {
    records: Vec<EntryRecord>,
    container_len: u64,
}

impl View for EntryTable {
    type V = Seq<RecordView>;

    closed spec fn view(&self) -> Seq<RecordView> {
        records_view(self.records@)
    }
}

impl EntryTable {
    /// Length in bytes of the container file the table was checked against.
    pub closed spec fn spec_container_len(&self) -> int {
        self.container_len as int
    }

    /// The table meets the structural invariants for the container it
    /// was checked against.
    pub open spec fn wf(&self) -> bool {
        table_valid(self@.len() as int, self@, self.spec_container_len())
    }

    #[verifier::type_invariant]
    spec fn inv(&self) -> bool {
        self.wf()
    }

    /// Number of entries.
    pub fn len(&self) -> (n: usize)
        ensures
            n == self@.len(),
            self.wf(),
    {
        proof {
            use_type_invariant(self);
        }
        self.records.len()
    }

    /// Whether the table lists no entry.
    pub fn is_empty(&self) -> (b: bool)
        ensures
            b == (self@.len() == 0),
    {
        self.records.len() == 0
    }

    /// Length in bytes of the container file the table was checked against.
    pub fn container_len(&self) -> (n: u64)
        ensures
            n == self.spec_container_len(),
    {
        self.container_len
    }

    /// The entries in table order. The table is held in memory, so every
    /// call yields the same sequence without touching the container.
    pub fn entries(&self) -> (r: &Vec<EntryRecord>)
        ensures
            records_view(r@) == self@,
            self.wf(),
    {
        proof {
            use_type_invariant(self);
        }
        &self.records
    }

    /// The entry at position `i` in table order.
    pub fn entry(&self, i: usize) -> (r: &EntryRecord)
        requires
            i < self@.len(),
        ensures
            r@ == self@[i as int],
    {
        &self.records[i]
    }
}

/// Whether some path occurs twice among the records.
fn find_duplicate(records: &Vec<EntryRecord>) -> (r: bool)
    ensures
        r == !paths_distinct(records_view(records@)),
{
    let ghost es = records_view(records@);
    let n = records.len();
    let mut i: usize = 0;
    while i < n
        invariant
            n == records@.len(),
            es == records_view(records@),
            i <= n,
            forall|a: int, b: int| 0 <= a < b < es.len() && a < i ==> es[a].0 != es[b].0,
        decreases n - i,
    {
        let mut j: usize = i + 1;
        while j < n
            invariant
                n == records@.len(),
                es == records_view(records@),
                i < n,
                i + 1 <= j <= n,
                forall|a: int, b: int| 0 <= a < b < es.len() && a < i ==> es[a].0 != es[b].0,
                forall|b: int| i < b < j ==> es[i as int].0 != es[b].0,
            decreases n - j,
        {
            if records[i].path == records[j].path {
                assert(es[i as int].0 == es[j as int].0);
                return true;
            }
            j = j + 1;
        }
        i = i + 1;
    }
    false
}

/// Checks a table read from a container of `container_len` bytes whose
/// header declares `declared` entries: the count must match, every payload
/// must lie inside the file and no path may repeat. Any violation is
/// `Corrupt`; nothing is truncated or dropped.
pub fn check_table(declared: u64, records: Vec<EntryRecord>, container_len: u64) -> (r: Result<
    EntryTable,
    ErrorKind,
>)
    ensures
        r is Ok <==> table_valid(declared as int, records_view(records@), container_len as int),
        r matches Ok(t) ==> t@ == records_view(records@) && t.spec_container_len()
            == container_len && t.wf(),
        r matches Err(k) ==> k == ErrorKind::Corrupt,
{
    let ghost es = records_view(records@);
    if records.len() as u64 != declared {
        return Err(ErrorKind::Corrupt);
    }
    let n = records.len();
    let mut i: usize = 0;
    while i < n
        invariant
            n == records@.len(),
            es == records_view(records@),
            i <= n,
            forall|a: int| 0 <= a < i ==> record_end(#[trigger] es[a]) <= container_len,
        decreases n - i,
    {
        let rec = &records[i];
        if rec.size > container_len || rec.offset > container_len - rec.size {
            assert(record_end(es[i as int]) > container_len);
            return Err(ErrorKind::Corrupt);
        }
        i = i + 1;
    }
    if find_duplicate(&records) {
        return Err(ErrorKind::Corrupt);
    }
    Ok(EntryTable { records, container_len })
}

/// Total of a list of sizes.
pub open spec fn sum_sizes(sizes: Seq<u64>) -> int
    decreases sizes.len(),
{
    if sizes.len() == 0 {
        0
    } else {
        sum_sizes(sizes.drop_last()) + sizes.last()
    }
}

/// No path occurs twice.
pub open spec fn distinct_paths(paths: Seq<Seq<char>>) -> bool {
    forall|i: int, j: int| 0 <= i < j < paths.len() ==> #[trigger] paths[i] != #[trigger] paths[j]
}

/// The table that lays out files with these paths and sizes one after the
/// other from byte `data_start` on, in the order given.
pub open spec fn built(paths: Seq<Seq<char>>, sizes: Seq<u64>, data_start: int) -> Seq<RecordView> {
    Seq::new(
        paths.len(),
        |i: int| (paths[i], (data_start + sum_sizes(sizes.take(i))) as u64, sizes[i]),
    )
}

/// Length of the container that `built` describes.
pub open spec fn built_len(sizes: Seq<u64>, data_start: int) -> int {
    data_start + sum_sizes(sizes)
}

proof fn lemma_sum_take_step(sizes: Seq<u64>, i: int)
    requires
        0 <= i < sizes.len(),
    ensures
        sum_sizes(sizes.take(i + 1)) == sum_sizes(sizes.take(i)) + sizes[i],
{
    assert(sizes.take(i + 1).drop_last() =~= sizes.take(i));
}

proof fn lemma_sum_take_mono(sizes: Seq<u64>, i: int, j: int)
    requires
        0 <= i <= j <= sizes.len(),
    ensures
        sum_sizes(sizes.take(i)) <= sum_sizes(sizes.take(j)),
    decreases j - i,
{
    if i < j {
        lemma_sum_take_step(sizes, j - 1);
        lemma_sum_take_mono(sizes, i, j - 1);
    }
}

proof fn lemma_sum_take_all(sizes: Seq<u64>)
    ensures
        sum_sizes(sizes.take(sizes.len() as int)) == sum_sizes(sizes),
{
    assert(sizes.take(sizes.len() as int) =~= sizes);
}

/// Builds the entry table for files laid out one after the other from byte
/// `data_start` on: each offset is `data_start` plus the sizes of the files
/// before it, in the order given.
pub fn build_table(paths: Vec<String>, sizes: Vec<u64>, data_start: u64) -> (r: EntryTable)
    requires
        paths@.len() == sizes@.len(),
        distinct_paths(paths@.map_values(|s: String| s@)),
        built_len(sizes@, data_start as int) <= u64::MAX,
    ensures
        r@ == built(paths@.map_values(|s: String| s@), sizes@, data_start as int),
        r.spec_container_len() == built_len(sizes@, data_start as int),
        r.wf(),
{
    let ghost ps = paths@.map_values(|s: String| s@);
    let ghost target = built(ps, sizes@, data_start as int);
    let n = paths.len();
    let mut records: Vec<EntryRecord> = Vec::new();
    let mut offset: u64 = data_start;
    let mut i: usize = 0;
    while i < n
        invariant
            n == paths@.len(),
            n == sizes@.len(),
            ps == paths@.map_values(|s: String| s@),
            target == built(ps, sizes@, data_start as int),
            built_len(sizes@, data_start as int) <= u64::MAX,
            i <= n,
            offset == data_start + sum_sizes(sizes@.take(i as int)),
            records@.len() == i,
            records_view(records@) == target.take(i as int),
        decreases n - i,
    {
        proof {
            lemma_sum_take_step(sizes@, i as int);
            lemma_sum_take_mono(sizes@, i + 1, n as int);
            lemma_sum_take_all(sizes@);
        }
        let size = sizes[i];
        let path = paths[i].clone();
        assert(path@ == ps[i as int]);
        let rec = EntryRecord { path, offset, size };
        assert(rec@ == target[i as int]);
        let ghost prev = records@;
        records.push(rec);
        assert forall|j: int| 0 <= j < i + 1 implies #[trigger] records_view(records@)[j]
            == target.take(i + 1)[j] by {
            if j < i {
                assert(records@[j] == prev[j]);
                assert(records_view(prev)[j] == target.take(i as int)[j]);
            }
        }
        assert(records_view(records@) =~= target.take(i + 1));
        offset = offset + size;
        i = i + 1;
    }
    assert(target.take(n as int) =~= target);
    proof {
        lemma_sum_take_all(sizes@);
        lemma_built_valid(ps, sizes@, data_start as int);
    }
    EntryTable { records, container_len: offset }
}

/// Every payload of a built table lies inside the container it describes,
/// and the paths stay distinct.
proof fn lemma_built_valid(paths: Seq<Seq<char>>, sizes: Seq<u64>, data_start: int)
    requires
        paths.len() == sizes.len(),
        distinct_paths(paths),
        0 <= data_start,
        built_len(sizes, data_start) <= u64::MAX,
    ensures
        table_valid(paths.len() as int, built(paths, sizes, data_start), built_len(sizes, data_start)),
{
    let es = built(paths, sizes, data_start);
    assert forall|i: int| 0 <= i < es.len() implies record_end(#[trigger] es[i]) <= built_len(
        sizes,
        data_start,
    ) by {
        lemma_sum_take_step(sizes, i);
        lemma_sum_take_mono(sizes, i + 1, sizes.len() as int);
        lemma_sum_take_mono(sizes, 0, i);
        lemma_sum_take_all(sizes);
        assert(sizes.take(0) =~= Seq::<u64>::empty());
    }
    assert forall|i: int, j: int| 0 <= i < j < es.len() implies #[trigger] es[i].0
        != #[trigger] es[j].0 by {
        assert(paths[i] != paths[j]);
    }
}

/// Round trip of the entry table: the table built for distinct paths and
/// their sizes passes the structural check against the container it
/// describes, and lists the same paths with the same sizes, in order.
pub proof fn lemma_build_then_check(paths: Seq<Seq<char>>, sizes: Seq<u64>, data_start: u64)
    requires
        paths.len() == sizes.len(),
        distinct_paths(paths),
        built_len(sizes, data_start as int) <= u64::MAX,
    ensures
        table_valid(
            paths.len() as int,
            built(paths, sizes, data_start as int),
            built_len(sizes, data_start as int),
        ),
        built(paths, sizes, data_start as int).len() == paths.len(),
        forall|i: int|
            0 <= i < paths.len() ==> (#[trigger] built(paths, sizes, data_start as int)[i]).0
                == paths[i] && built(paths, sizes, data_start as int)[i].2 == sizes[i],
{
    lemma_built_valid(paths, sizes, data_start as int);
}

/// Entry count: a table that passes the check lists exactly the number of
/// entries its header declares, each path once.
pub proof fn lemma_entry_count(declared: int, es: Seq<RecordView>, len: int)
    requires
        table_valid(declared, es, len),
    ensures
        es.len() == declared,
        forall|i: int, j: int| 0 <= i < es.len() && 0 <= j < es.len() && i != j ==> #[trigger] es[i].0
            != #[trigger] es[j].0,
{
    assert forall|i: int, j: int| 0 <= i < es.len() && 0 <= j < es.len() && i != j implies #[trigger] es[i].0
        != #[trigger] es[j].0 by {
        if i > j {
            assert(es[j].0 != es[i].0);
        }
    }
}

/// End of the data region: the furthest byte that any payload reaches.
pub open spec fn data_end(es: Seq<RecordView>) -> int
    decreases es.len(),
{
    if es.len() == 0 {
        0
    } else if data_end(es.drop_last()) >= record_end(es.last()) {
        data_end(es.drop_last())
    } else {
        record_end(es.last())
    }
}

proof fn lemma_data_end_reached(es: Seq<RecordView>)
    requires
        data_end(es) > 0,
    ensures
        exists|i: int| 0 <= i < es.len() && record_end(#[trigger] es[i]) == data_end(es),
    decreases es.len(),
{
    if data_end(es.drop_last()) >= record_end(es.last()) {
        lemma_data_end_reached(es.drop_last());
        let i = choose|i: int|
            0 <= i < es.drop_last().len() && record_end(#[trigger] es.drop_last()[i]) == data_end(
                es.drop_last(),
            );
        assert(es[i] == es.drop_last()[i]);
    } else {
        assert(record_end(es[es.len() - 1]) == data_end(es));
    }
}

/// Corrupt detection: cutting `k > 0` bytes off a container whose data
/// region runs to its last byte makes its table fail the check.
pub proof fn lemma_truncation_detected(declared: int, es: Seq<RecordView>, len: int, k: int)
    requires
        table_valid(declared, es, len),
        data_end(es) == len,
        0 < k <= len,
    ensures
        !table_valid(declared, es, len - k),
{
    lemma_data_end_reached(es);
    let i = choose|i: int| 0 <= i < es.len() && record_end(#[trigger] es[i]) == data_end(es);
    assert(record_end(es[i]) > len - k);
}

} // verus!
