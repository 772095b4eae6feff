//! Batch output: turning one extracted record into an output row, and the
//! shared sink that concurrent rows write to. The sink writes the header
//! record exactly once — before the first data record, whichever row
//! completes first — and appends one data record per completed row.

use vstd::prelude::*;

use crate::json::{spec_json_text, deep_obj, JsonVal, JsonValue};

verus! {

broadcast use crate::json::lemma_deep_obj;

/// One record handed to the output sink.
#[derive(Debug)]
pub enum OutputRecord {
    Header(Vec<String>),
    Data(Vec<String>),
}

/// Model of one output record.
pub enum RecVal {
    Header(Seq<Seq<char>>),
    Data(Seq<Seq<char>>),
}

impl OutputRecord {
    /// The mathematical record this value stands for.
    pub open spec fn deep(self) -> RecVal {
        match self {
            OutputRecord::Header(fields) => RecVal::Header(fields.deep_view()),
            OutputRecord::Data(fields) => RecVal::Data(fields.deep_view()),
        }
    }
}

/// Model of a list of output records.
pub open spec fn deep_recs(s: Seq<OutputRecord>) -> Seq<RecVal> {
    s.map_values(|r: OutputRecord| r.deep())
}

/// How one extracted field renders in an output row: a JSON string renders
/// as its text, `null` as the empty field, anything else as its JSON text.
pub open spec fn spec_field_text(v: JsonVal) -> Seq<char> {
    match v {
        JsonVal::Text(s) => s,
        JsonVal::Null => Seq::empty(),
        _ => spec_json_text(v),
    }
}

/// The data row for one batch input: the input value first, then the
/// record's field values in record order.
pub open spec fn spec_data_row(address: Seq<char>, entries: Seq<(Seq<char>, JsonVal)>) -> Seq<
    Seq<char>,
> {
    seq![address] + Seq::new(entries.len(), |i: int| spec_field_text(entries[i].1))
}

/// The header row: the fixed input-value column label first, then the
/// record's field names in record order.
pub open spec fn spec_header_row(label: Seq<char>, entries: Seq<(Seq<char>, JsonVal)>) -> Seq<
    Seq<char>,
> {
    seq![label] + Seq::new(entries.len(), |i: int| entries[i].0)
}

/// Renders one field value.
fn field_text(v: &JsonValue) -> (r: String)
    ensures
        r@ == spec_field_text(v.deep()),
{
    match v {
        JsonValue::Text(s) => s.clone(),
        JsonValue::Null => String::new(),
        _ => v.to_json_text(),
    }
}

/// Builds the data row for one record.
#[verifier::loop_isolation(false)]
pub fn data_row(address: &str, entries: &Vec<(String, JsonValue)>) -> (r: Vec<String>)
    ensures
        r.deep_view() == spec_data_row(address@, deep_obj(entries@)),
{
    let mut row: Vec<String> = Vec::new();
    row.push(address.to_owned());
    let mut i: usize = 0;
    while i < entries.len()
        invariant
            i <= entries.len(),
            row@.len() == i + 1,
            row@[0]@ == address@,
            forall|j: int| 0 <= j < i ==> row@[j + 1]@ == spec_field_text(entries@[j].1.deep()),
        decreases entries.len() - i,
    {
        let f = field_text(&entries[i].1);
        row.push(f);
        i += 1;
    }
    proof {
        assert(row.deep_view() =~= spec_data_row(address@, deep_obj(entries@)));
    }
    row
}

/// Builds the header row for one record.
#[verifier::loop_isolation(false)]
pub fn header_row(label: &str, entries: &Vec<(String, JsonValue)>) -> (r: Vec<String>)
    ensures
        r.deep_view() == spec_header_row(label@, deep_obj(entries@)),
{
    let mut row: Vec<String> = Vec::new();
    row.push(label.to_owned());
    let mut i: usize = 0;
    while i < entries.len()
        invariant
            i <= entries.len(),
            row@.len() == i + 1,
            row@[0]@ == label@,
            forall|j: int| 0 <= j < i ==> row@[j + 1]@ == entries@[j].0@,
        decreases entries.len() - i,
    {
        let k = entries[i].0.clone();
        row.push(k);
        i += 1;
    }
    proof {
        assert(row.deep_view() =~= spec_header_row(label@, deep_obj(entries@)));
    }
    row
}

/// The records a batch sink holds after one more completed row is written:
/// the data row is appended, preceded by the header row if no record was
/// written before.
pub open spec fn spec_sink_write(
    st: (bool, Seq<RecVal>),
    hrow: Seq<Seq<char>>,
    drow: Seq<Seq<char>>,
) -> (bool, Seq<RecVal>) {
    if st.0 {
        (true, st.1.push(RecVal::Data(drow)))
    } else {
        (true, st.1.push(RecVal::Header(hrow)).push(RecVal::Data(drow)))
    }
}

/// The sink state after a whole run: every completed row written in some
/// order, starting from `st`.
pub open spec fn spec_sink_run(
    st: (bool, Seq<RecVal>),
    writes: Seq<(Seq<Seq<char>>, Seq<Seq<char>>)>,
) -> (bool, Seq<RecVal>)
    decreases writes.len(),
{
    if writes.len() == 0 {
        st
    } else {
        spec_sink_run(
            spec_sink_write(st, writes[0].0, writes[0].1),
            writes.subrange(1, writes.len() as int),
        )
    }
}

/// How many header records a record list holds.
pub open spec fn spec_header_count(rs: Seq<RecVal>) -> int
    decreases rs.len(),
{
    if rs.len() == 0 {
        0
    } else {
        spec_header_count(rs.subrange(0, rs.len() - 1)) + (match rs[rs.len() - 1] {
            RecVal::Header(_) => 1int,
            RecVal::Data(_) => 0int,
        })
    }
}

proof fn lemma_header_count_push(rs: Seq<RecVal>, r: RecVal)
    ensures
        spec_header_count(rs.push(r)) == spec_header_count(rs) + (match r {
            RecVal::Header(_) => 1int,
            RecVal::Data(_) => 0int,
        }),
{
    assert(rs.push(r).subrange(0, rs.len() as int) =~= rs);
}

/// The output sink of a batch run. `header_written` is the write-once flag;
/// `records` is what the sink has received, in write order. The surrounding
/// program must hold the sink under mutual exclusion so that each
/// `write_result` call is one atomic step; the contract then guarantees the
/// header appears exactly once however the rows interleave.
#[derive(Debug)]
pub struct BatchSink {
    pub header_written: bool,
    pub records: Vec<OutputRecord>,
}

impl BatchSink {
    /// The sink state as a mathematical value.
    pub open spec fn model(self) -> (bool, Seq<RecVal>) {
        (self.header_written, deep_recs(self.records@))
    }

    /// A record list holds exactly one header iff the flag says so.
    pub open spec fn wf(self) -> bool {
        spec_header_count(deep_recs(self.records@)) == if self.header_written {
            1int
        } else {
            0int
        }
    }

    pub fn new() -> (r: BatchSink)
        ensures
            r.model() == (false, Seq::<RecVal>::empty()),
            r.wf(),
    {
        let r = BatchSink { header_written: false, records: Vec::new() };
        proof {
            assert(deep_recs(r.records@) =~= Seq::<RecVal>::empty());
        }
        r
    }

    /// Writes one completed row: the header row first if none was written
    /// yet — derived, like the data row, from this record — then the data
    /// row. One call is one atomic step of the sink.
    pub fn write_result(&mut self, label: &str, address: &str, entries: &Vec<(String, JsonValue)>)
        ensures
            final(self).model() == spec_sink_write(
                old(self).model(),
                spec_header_row(label@, deep_obj(entries@)),
                spec_data_row(address@, deep_obj(entries@)),
            ),
            old(self).wf() ==> final(self).wf(),
    {
        let ghost st0 = self.model();
        let ghost hrow = spec_header_row(label@, deep_obj(entries@));
        let ghost drow = spec_data_row(address@, deep_obj(entries@));
        if !self.header_written {
            self.header_written = true;
            let hr = header_row(label, entries);
            let ghost before = deep_recs(self.records@);
            self.records.push(OutputRecord::Header(hr));
            proof {
                assert(deep_recs(self.records@) =~= before.push(RecVal::Header(hrow)));
                lemma_header_count_push(before, RecVal::Header(hrow));
            }
        }
        let dr = data_row(address, entries);
        let ghost mid = deep_recs(self.records@);
        self.records.push(OutputRecord::Data(dr));
        proof {
            assert(deep_recs(self.records@) =~= mid.push(RecVal::Data(drow)));
            lemma_header_count_push(mid, RecVal::Data(drow));
        }
    }
}

/// However many rows a batch run writes, and in whatever completion order,
/// the sink receives the header record exactly once — or not at all when no
/// row completes.
pub proof fn lemma_header_once(writes: Seq<(Seq<Seq<char>>, Seq<Seq<char>>)>)
    ensures
        spec_header_count(spec_sink_run((false, Seq::<RecVal>::empty()), writes).1) == if writes.len()
            == 0 {
            0int
        } else {
            1int
        },
{
    lemma_run_preserves_count(writes, (false, Seq::<RecVal>::empty()));
}

proof fn lemma_run_preserves_count(
    writes: Seq<(Seq<Seq<char>>, Seq<Seq<char>>)>,
    st: (bool, Seq<RecVal>),
)
    requires
        spec_header_count(st.1) == if st.0 {
            1int
        } else {
            0int
        },
    ensures
        spec_header_count(spec_sink_run(st, writes).1) == if st.0 || writes.len() > 0 {
            1int
        } else {
            0int
        },
        spec_sink_run(st, writes).0 == (st.0 || writes.len() > 0),
    decreases writes.len(),
{
    if writes.len() > 0 {
        let st1 = spec_sink_write(st, writes[0].0, writes[0].1);
        if st.0 {
            lemma_header_count_push(st.1, RecVal::Data(writes[0].1));
        } else {
            lemma_header_count_push(st.1, RecVal::Header(writes[0].0));
            lemma_header_count_push(
                st.1.push(RecVal::Header(writes[0].0)),
                RecVal::Data(writes[0].1),
            );
        }
        lemma_run_preserves_count(writes.subrange(1, writes.len() as int), st1);
    }
}

} // verus!
