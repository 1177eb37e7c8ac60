//! Loading the snapshot into the store: the statement that materialises a
//! table from its columnar files, and the failures a load can report. The
//! store call itself is made outside the library.

use vstd::prelude::*;
use crate::applier::join;
use crate::operation::view_string_seq;

verus! {

/// The two ways loading a snapshot can fail.
#[derive(Debug, Clone)]
pub enum ParquetLoadError {
    ConnectionError(String),
    ExecutionError(String),
}

impl ParquetLoadError {
    /// A human-readable description of the failure.
    pub fn message(&self) -> (r: String)
        ensures
            match self {
                ParquetLoadError::ConnectionError(m) => r@ == "Connection error: "@ + m@,
                ParquetLoadError::ExecutionError(m) => r@ == "Execution error: "@ + m@,
            },
    {
        match self {
            ParquetLoadError::ConnectionError(m) => {
                let mut out = String::new();
                out.append("Connection error: ");
                out.append(m.as_str());
                out
            },
            ParquetLoadError::ExecutionError(m) => {
                let mut out = String::new();
                out.append("Execution error: ");
                out.append(m.as_str());
                out
            },
        }
    }
}

/// Each file path single-quoted, in order.
pub open spec fn quoted_paths(paths: Seq<Seq<char>>) -> Seq<Seq<char>> {
    Seq::new(paths.len(), |i: int| "'"@ + paths[i] + "'"@)
}

/// The statement that creates the table from its columnar files.
pub open spec fn parquet_load_sql(table: Seq<char>, paths: Seq<Seq<char>>) -> Seq<char> {
    "CREATE TABLE "@ + table + " AS SELECT * FROM read_parquet(["@ + join(
        quoted_paths(paths),
        ", "@,
    ) + "]);"@
}

/// Build the statement that materialises `table_name` from the given
/// columnar snapshot files.
pub fn build_parquet_load_sql(table_name: &str, parquet_file_paths: &Vec<String>) -> (r: String)
    ensures
        r@ == parquet_load_sql(table_name@, view_string_seq(parquet_file_paths@)),
{
    let n = parquet_file_paths.len();
    let mut quoted: Vec<String> = Vec::new();
    let mut i: usize = 0;
    while i < n
        invariant
            n == parquet_file_paths@.len(),
            i <= n,
            quoted@.len() == i,
            forall|j: int| 0 <= j < i ==> quoted@[j]@ == "'"@ + parquet_file_paths@[j]@ + "'"@,
        decreases n - i,
    {
        let mut q = String::new();
        q.append("'");
        q.append(parquet_file_paths[i].as_str());
        q.append("'");
        quoted.push(q);
        i += 1;
    }
    proof {
        assert(view_string_seq(quoted@) =~= quoted_paths(view_string_seq(parquet_file_paths@)));
    }
    let files_list = crate::applier::join_strings(&quoted, ", ");
    let mut out = String::new();
    out.append("CREATE TABLE ");
    out.append(table_name);
    out.append(" AS SELECT * FROM read_parquet([");
    out.append(files_list.as_str());
    out.append("]);");
    out
}

} // verus!
