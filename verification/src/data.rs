//! Datasets: where an ingested dataset lives, the table names it is queried
//! under, how a streamed NDJSON body is counted, and which workflows an
//! ingest starts.

use vstd::prelude::*;
use vstd::string::StringExecFns;

use crate::json::{Json, JsonV};
use crate::mcp::{object4, text_of};
use crate::model::Workflow;
use crate::text::{dec_text, decimal, str_eq, texts};

verus! {

/// The file an ingested dataset is appended to.
pub fn dataset_file_name(name: &str) -> (f: String)
    ensures
        f@ == name@ + ".ndjson"@,
{
    String::from_str(name).concat(".ndjson")
}

/// `s` with each `-` replaced by `_`.
pub open spec fn dashes_to_underscores(s: Seq<char>) -> Seq<char> {
    s.map_values(|c: char| if c == '-' { '_' } else { c })
}

fn underscore_str(c: char) -> (s: &'static str)
    requires
        c == '-',
    ensures
        s@ == seq!['_'],
{
    proof {
        reveal_strlit("_");
    }
    "_"
}

/// The names a dataset is queried under: its own name, and its name with
/// dashes turned into underscores when that differs.
pub open spec fn table_names_of(name: Seq<char>) -> Seq<Seq<char>> {
    if dashes_to_underscores(name) == name {
        seq![name]
    } else {
        seq![name, dashes_to_underscores(name)]
    }
}

/// The names a dataset is queried under.
pub fn table_names(name: &str) -> (v: Vec<String>)
    ensures
        texts(v@) == table_names_of(name@),
{
    let n = name.unicode_len();
    let mut alias = String::new();
    let mut changed = false;
    let mut i: usize = 0;
    while i < n
        invariant
            n == name@.len(),
            i <= n,
            alias@ == dashes_to_underscores(name@.subrange(0, i as int)),
            changed == exists|q: int| 0 <= q < i && name@[q] == '-',
        decreases n - i,
    {
        let c = name.get_char(i);
        let piece = if c == '-' {
            changed = true;
            String::from_str(underscore_str(c))
        } else {
            String::from_str(name.substring_char(i, i + 1))
        };
        proof {
            assert(name@.subrange(i as int, i + 1) =~= seq![c]);
        }
        alias.append(piece.as_str());
        proof {
            assert(dashes_to_underscores(name@.subrange(0, i + 1)) =~= dashes_to_underscores(
                name@.subrange(0, i as int),
            ).push(if c == '-' { '_' } else { c }));
        }
        i = i + 1;
    }
    proof {
        assert(name@.subrange(0, n as int) =~= name@);
    }
    let mut v: Vec<String> = Vec::new();
    v.push(String::from_str(name));
    if changed {
        proof {
            let q = choose|q: int| 0 <= q < n && name@[q] == '-';
            assert(dashes_to_underscores(name@)[q] == '_');
        }
        v.push(alias);
        proof {
            assert(texts(v@) =~= seq![name@, dashes_to_underscores(name@)]);
        }
    } else {
        proof {
            assert(dashes_to_underscores(name@) =~= name@);
            assert(texts(v@) =~= seq![name@]);
        }
    }
    v
}

// ── counting an ingest ───────────────────────────────────────────────────

/// The number of newline bytes in `s`.
pub open spec fn newline_count(s: Seq<u8>) -> nat
    decreases s.len(),
{
    if s.len() == 0 {
        0
    } else {
        newline_count(s.drop_last()) + if s.last() == 10 {
            1nat
        } else {
            0nat
        }
    }
}

/// Newlines counted chunk by chunk add up to the newlines of the whole:
/// how a body is split into chunks does not change its count.
pub proof fn lemma_newline_count_concat(a: Seq<u8>, b: Seq<u8>)
    ensures
        newline_count(a + b) == newline_count(a) + newline_count(b),
    decreases b.len(),
{
    if b.len() > 0 {
        lemma_newline_count_concat(a, b.drop_last());
        assert((a + b).drop_last() =~= a + b.drop_last());
    } else {
        assert(a + b =~= a);
    }
}

proof fn lemma_newline_count_bound(s: Seq<u8>)
    ensures
        newline_count(s) <= s.len(),
        s.len() > 0 && s.last() != 10 ==> newline_count(s) < s.len(),
    decreases s.len(),
{
    if s.len() > 0 {
        lemma_newline_count_bound(s.drop_last());
    }
}

/// The records an NDJSON body holds: one per newline, plus a last line that
/// has none.
pub open spec fn record_count(data: Seq<u8>) -> nat {
    newline_count(data) + if data.len() > 0 && data.last() != 10 {
        1nat
    } else {
        0nat
    }
}

/// The running count of a streamed NDJSON body.
pub struct IngestCounter {
    records: u64,
    bytes: u64,
    ends_with_newline: bool,
    data: Ghost<Seq<u8>>,
}

impl IngestCounter {
    /// The bytes taken in so far.
    pub closed spec fn data(&self) -> Seq<u8> {
        self.data@
    }

    /// The counts agree with the bytes taken in.
    pub closed spec fn wf(&self) -> bool {
        &&& self.records == newline_count(self.data@)
        &&& self.bytes == self.data@.len()
        &&& self.ends_with_newline == (self.data@.len() == 0 || self.data@.last() == 10)
    }

    /// Nothing taken in yet.
    pub fn new() -> (c: IngestCounter)
        ensures
            c.wf(),
            c.data() == Seq::<u8>::empty(),
    {
        IngestCounter { records: 0, bytes: 0, ends_with_newline: true, data: Ghost(Seq::empty()) }
    }

    /// Take in one chunk of the body.
    pub fn feed(&mut self, chunk: &[u8])
        requires
            old(self).wf(),
            old(self).data().len() + chunk@.len() <= u64::MAX,
        ensures
            final(self).wf(),
            final(self).data() == old(self).data() + chunk@,
    {
        if chunk.len() == 0 {
            proof {
                assert(self.data@ + chunk@ =~= self.data@);
            }
            return;
        }
        let mut n: u64 = 0;
        let mut i: usize = 0;
        while i < chunk.len()
            invariant
                i <= chunk@.len(),
                n == newline_count(chunk@.subrange(0, i as int)),
                n <= i,
            decreases chunk.len() - i,
        {
            proof {
                assert(chunk@.subrange(0, i + 1).drop_last() =~= chunk@.subrange(0, i as int));
            }
            if chunk[i] == 10 {
                n = n + 1;
            }
            i = i + 1;
        }
        proof {
            assert(chunk@.subrange(0, chunk@.len() as int) =~= chunk@);
            lemma_newline_count_concat(self.data@, chunk@);
            lemma_newline_count_bound(self.data@ + chunk@);
        }
        self.records = self.records + n;
        self.bytes = self.bytes + chunk.len() as u64;
        self.ends_with_newline = chunk[chunk.len() - 1] == 10;
        self.data = Ghost(self.data@ + chunk@);
        proof {
            assert(self.data@.last() == chunk@.last());
        }
    }

    /// The totals once the body has ended: the records (a last line without
    /// a newline counts), the bytes, and whether the file needs a newline
    /// appended to end that last line.
    pub fn finish(&self) -> (r: (u64, u64, bool))
        requires
            self.wf(),
        ensures
            r.0 == record_count(self.data()),
            r.1 == self.data().len(),
            r.2 == (self.data().len() > 0 && self.data().last() != 10),
    {
        proof {
            lemma_newline_count_bound(self.data@);
        }
        if self.bytes > 0 && !self.ends_with_newline {
            (self.records + 1, self.bytes, true)
        } else {
            (self.records, self.bytes, false)
        }
    }
}

// ── records handed over whole ────────────────────────────────────────────

/// `records` as NDJSON: each record's text followed by a newline.
pub open spec fn ndjson(records: Seq<Seq<char>>) -> Seq<char>
    decreases records.len(),
{
    if records.len() == 0 {
        Seq::empty()
    } else {
        ndjson(records.drop_last()) + records.last() + "\n"@
    }
}

/// The NDJSON that records already written as JSON text are appended as:
/// one record per line, each line ended.
pub fn ndjson_payload(records: &Vec<String>) -> (p: String)
    ensures
        p@ == ndjson(texts(records@)),
{
    let mut p = String::new();
    let mut i: usize = 0;
    while i < records.len()
        invariant
            i <= records@.len(),
            p@ == ndjson(texts(records@).subrange(0, i as int)),
        decreases records.len() - i,
    {
        let ghost before = p@;
        p.append(records[i].as_str());
        p.append("\n");
        proof {
            let a = texts(records@).subrange(0, i + 1);
            assert(a.drop_last() =~= texts(records@).subrange(0, i as int));
            assert(a.last() == records@[i as int]@);
        }
        i = i + 1;
    }
    proof {
        assert(texts(records@).subrange(0, records@.len() as int) =~= texts(records@));
    }
    p
}

/// How many of a result's `height` rows are kept under `limit`, and
/// whether rows were cut: a query fetches one row beyond the cap, so that
/// truncation shows.
pub fn row_cap(height: usize, limit: usize) -> (r: (usize, bool))
    ensures
        r.1 == (height > limit),
        r.0 == if height > limit {
            limit
        } else {
            height
        },
{
    if height > limit {
        (limit, true)
    } else {
        (height, false)
    }
}

// ── ingest triggers ──────────────────────────────────────────────────────

/// What started a run that an ingest into `dataset` triggered.
pub fn ingest_trigger(dataset: &str) -> (t: String)
    ensures
        t@ == "ingest:"@ + dataset@,
{
    String::from_str("ingest:").concat(dataset)
}

/// The workflow runs when data lands in `dataset`.
pub open spec fn triggered_by(w: Workflow, dataset: Seq<char>) -> bool {
    w.spec.triggers.on_ingest matches Some(d) && d@ == dataset
}

/// The positions of the workflows an ingest into `dataset` starts, in order.
pub fn ingest_triggered(workflows: &[Workflow], dataset: &str) -> (v: Vec<usize>)
    ensures
        forall|q: int| 0 <= q < v@.len() ==> (#[trigger] v@[q]) < workflows@.len() && triggered_by(
            workflows@[v@[q] as int],
            dataset@,
        ),
        forall|q1: int, q2: int| 0 <= q1 < q2 < v@.len() ==> v@[q1] < v@[q2],
        forall|i: int| 0 <= i < workflows@.len() && triggered_by(#[trigger] workflows@[i], dataset@) ==> v@.contains(
            i as usize,
        ),
{
    let mut v: Vec<usize> = Vec::new();
    let mut i: usize = 0;
    while i < workflows.len()
        invariant
            i <= workflows@.len(),
            forall|q: int| 0 <= q < v@.len() ==> (#[trigger] v@[q]) < i && triggered_by(
                workflows@[v@[q] as int],
                dataset@,
            ),
            forall|q1: int, q2: int| 0 <= q1 < q2 < v@.len() ==> v@[q1] < v@[q2],
            forall|j: int| 0 <= j < i && triggered_by(#[trigger] workflows@[j], dataset@) ==> v@.contains(j as usize),
        decreases workflows.len() - i,
    {
        let hit = match &workflows[i].spec.triggers.on_ingest {
            Some(d) => str_eq(d.as_str(), dataset),
            None => false,
        };
        if hit {
            let ghost before = v@;
            v.push(i);
            proof {
                assert forall|j: int| 0 <= j < i + 1 && triggered_by(#[trigger] workflows@[j], dataset@) implies v@.contains(
                    j as usize,
                ) by {
                    if j < i {
                        let w = choose|w: int| 0 <= w < before.len() && before[w] == j as usize;
                        assert(v@[w] == j as usize);
                    } else {
                        assert(v@[before.len() as int] == j as usize);
                    }
                }
            }
        }
        i = i + 1;
    }
    v
}

/// The parameters of a run an ingest triggered: the dataset, how many
/// records and bytes landed, and the dataset's file.
pub fn ingest_run_params(dataset: &str, records: u64, bytes: u64, path: &str) -> (j: Json)
    ensures
        j@ == JsonV::Object(
            seq![
                ("dataset"@, text_of(dataset@)),
                ("records"@, JsonV::Number(dec_text(records as nat))),
                ("bytes"@, JsonV::Number(dec_text(bytes as nat))),
                ("path"@, text_of(path@)),
            ],
        ),
{
    object4(
        "dataset",
        Json::Str(String::from_str(dataset)),
        "records",
        Json::Number(decimal(records)),
        "bytes",
        Json::Number(decimal(bytes)),
        "path",
        Json::Str(String::from_str(path)),
    )
}

} // verus!
