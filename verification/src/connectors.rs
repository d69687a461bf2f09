//! External query engines behind a query's `connector`: how a query is
//! framed for each engine and how what comes back is capped.
//!
//! - **postgres**: read queries over the native protocol; rows come back
//!   column by column.
//! - **clickhouse**: the HTTP interface; the SQL is sent with
//!   `FORMAT JSONEachRow` appended unless it already names a format.
//! - **chdb**: embedded ClickHouse, run inside the Python worker runtime.

use vstd::prelude::*;
use vstd::string::StringExecFns;

use crate::exec::ExecRequest;
use crate::json::{field, items_view, Json, JsonV};
use crate::mcp::{object2, text_of};
use crate::model::Runtime;
use crate::text::{blank, contains_text, is_blank, lines_of, occurs_at, split_lines, texts};

verus! {

/// Rows from an engine, capped at the caller's limit.
#[derive(Debug)]
pub struct ConnectorResult {
    pub rows: Vec<Json>,
    /// More rows were available than the limit let through.
    pub truncated: bool,
}

/// `s` with every letter in upper case, as `str::to_uppercase` maps it.
pub uninterp spec fn uppercased(s: Seq<char>) -> Seq<char>;

/// `str::to_uppercase`; the Unicode case mapping is left to the name
/// `uppercased`.
#[verifier::external_body]
fn to_uppercase(s: &str) -> (r: String)
    ensures
        r@ == uppercased(s@),
{
    s.to_uppercase()
}

/// The body sent to ClickHouse for `sql`: the SQL as it is when, upper-cased,
/// it names a format, and otherwise with `FORMAT JSONEachRow` appended.
pub open spec fn clickhouse_body_text(sql: Seq<char>) -> Seq<char> {
    if exists|i: int| occurs_at(uppercased(sql), "FORMAT "@, i) {
        sql
    } else {
        sql + " FORMAT JSONEachRow"@
    }
}

/// The body sent to ClickHouse for `sql`.
pub fn clickhouse_body(sql: &str) -> (b: String)
    ensures
        b@ == clickhouse_body_text(sql@),
{
    let upper = to_uppercase(sql);
    if contains_text(upper.as_str(), "FORMAT ") {
        String::from_str(sql)
    } else {
        String::from_str(sql).concat(" FORMAT JSONEachRow")
    }
}

/// The lines of `ls` that are not blank, in order.
pub open spec fn nonblank(ls: Seq<Seq<char>>) -> Seq<Seq<char>>
    decreases ls.len(),
{
    if ls.len() == 0 {
        Seq::empty()
    } else {
        nonblank(ls.drop_last()) + if blank(ls.last()) {
            Seq::empty()
        } else {
            seq![ls.last()]
        }
    }
}

/// The lines of a ClickHouse reply that are read as rows: the non-blank
/// lines, up to one more than the limit (so that a cut can be seen).
pub open spec fn clickhouse_row_lines(text: Seq<char>, limit: int) -> Seq<Seq<char>> {
    let rows = nonblank(lines_of(text));
    if rows.len() <= limit {
        rows
    } else {
        rows.take(limit + 1)
    }
}

/// The lines of a ClickHouse reply to read as rows.
pub fn clickhouse_row_lines_of(text: &str, limit: usize) -> (r: Vec<String>)
    ensures
        texts(r@) == clickhouse_row_lines(text@, limit as int),
{
    let lines = split_lines(text);
    let ghost ls = lines_of(text@);
    let mut out: Vec<String> = Vec::new();
    let mut i: usize = 0;
    while i < lines.len()
        invariant
            texts(lines@) == ls,
            ls == lines_of(text@),
            i <= lines.len(),
            texts(out@) == nonblank(ls.subrange(0, i as int)),
            out@.len() <= limit + 1,
        decreases lines.len() - i,
    {
        let ghost before = out@;
        proof {
            assert(ls.subrange(0, i + 1).drop_last() =~= ls.subrange(0, i as int));
            assert(ls.subrange(0, i + 1).last() == lines@[i as int]@);
        }
        if !is_blank(lines[i].as_str()) {
            if out.len() > limit {
                proof {
                    lemma_nonblank_prefix_grows(ls, i as int);
                    assert(texts(out@).len() == out@.len());
                    assert(out@.len() == limit + 1);
                    assert(texts(out@) == nonblank(ls).take(limit + 1)) by {
                        assert(nonblank(ls.subrange(0, i as int)).len() == limit + 1);
                        assert(nonblank(ls).take(limit + 1) =~= nonblank(ls.subrange(0, i as int)));
                    }
                    assert(nonblank(ls).len() > limit);
                    assert(clickhouse_row_lines(text@, limit as int) == nonblank(ls).take(limit + 1));
                }
                return out;
            }
            out.push(lines[i].clone());
            proof {
                assert(texts(out@) =~= texts(before).push(lines@[i as int]@));
            }
        }
        proof {
            assert(texts(out@) =~= nonblank(ls.subrange(0, i + 1)));
        }
        i = i + 1;
    }
    proof {
        assert(ls.subrange(0, ls.len() as int) =~= ls);
        if nonblank(ls).len() > limit {
            assert(nonblank(ls).take(limit + 1) =~= nonblank(ls));
        }
    }
    out
}

proof fn lemma_nonblank_prefix_grows(ls: Seq<Seq<char>>, n: int)
    requires
        0 <= n <= ls.len(),
    ensures
        nonblank(ls).len() >= nonblank(ls.subrange(0, n)).len(),
        nonblank(ls).subrange(0, nonblank(ls.subrange(0, n)).len() as int) == nonblank(ls.subrange(0, n)),
    decreases ls.len() - n,
{
    if n < ls.len() {
        lemma_nonblank_prefix_grows(ls, n + 1);
        assert(ls.subrange(0, n + 1).drop_last() =~= ls.subrange(0, n));
        let a = nonblank(ls.subrange(0, n));
        let b = nonblank(ls.subrange(0, n + 1));
        assert(b.subrange(0, a.len() as int) =~= a);
        assert(nonblank(ls).subrange(0, a.len() as int) =~= nonblank(ls).subrange(0, b.len() as int).subrange(
            0,
            a.len() as int,
        ));
    } else {
        assert(ls.subrange(0, n) =~= ls);
        assert(nonblank(ls).subrange(0, nonblank(ls).len() as int) =~= nonblank(ls));
    }
}

/// The rows within `limit`, and whether any were cut.
pub fn cap_rows(rows: Vec<Json>, limit: usize) -> (r: ConnectorResult)
    ensures
        r.truncated == (rows@.len() > limit),
        r.rows@ == if rows@.len() > limit {
            rows@.take(limit as int)
        } else {
            rows@
        },
{
    let truncated = rows.len() > limit;
    let mut kept = rows;
    kept.truncate(limit);
    ConnectorResult { rows: kept, truncated }
}

/// The job that runs a chDB query inside the Python worker runtime.
pub const CHDB_JOB: &'static str = "
def handler(params, inputs):
    try:
        import chdb
    except ImportError:
        raise RuntimeError(
            \"chdb is not installed in the Python worker environment - pip install chdb\"
        )
    import json
    out = str(chdb.query(params[\"sql\"], \"JSONEachRow\"))
    rows = [json.loads(line) for line in out.splitlines() if line.strip()]
    cap = params[\"cap\"]
    return {\"rows\": rows[:cap], \"truncated\": len(rows) > cap}
";

/// How long a chDB query may run, in seconds.
pub const CHDB_TIMEOUT_SECS: u64 = 300;

/// The execution that runs `sql` on chDB, keeping at most `limit` rows.
pub fn chdb_request(sql: &str, limit: usize) -> (r: ExecRequest)
    ensures
        r.runtime == Runtime::Python,
        r.code@ == CHDB_JOB@,
        r.params@ == JsonV::Object(
            seq![("sql"@, text_of(sql@)), ("cap"@, JsonV::Number(crate::text::dec_text(limit as nat)))],
        ),
        r.inputs@ == JsonV::Null,
        r.timeout_secs == CHDB_TIMEOUT_SECS,
{
    let params = object2(
        "sql",
        Json::Str(String::from_str(sql)),
        "cap",
        Json::Number(crate::text::decimal(limit as u64)),
    );
    ExecRequest {
        runtime: Runtime::Python,
        code: String::from_str(CHDB_JOB),
        params,
        inputs: Json::Null,
        timeout_secs: CHDB_TIMEOUT_SECS,
    }
}

/// The rows a chDB job returned: its `rows` array (an error when it has
/// none), and its `truncated` flag (false when missing or not a boolean).
pub fn chdb_rows(value: &Json) -> (r: Result<ConnectorResult, String>)
    ensures
        match field(value@, "rows"@) {
            JsonV::Array(items) => r matches Ok(c) && items_view(c.rows@) == items && c.truncated == match field(
                value@,
                "truncated"@,
            ) {
                JsonV::Bool(b) => b,
                _ => false,
            },
            _ => r matches Err(m) && m@ == "chdb returned no rows array"@,
        },
{
    match value.field("rows") {
        Json::Array(rows) => {
            let t = value.field("truncated");
            let truncated = match t.as_bool() {
                Some(b) => b,
                None => false,
            };
            Ok(ConnectorResult { rows, truncated })
        },
        _ => Err(String::from_str("chdb returned no rows array")),
    }
}

} // verus!
