//! Shared helpers: the paths of the persisted documents and the tokenizers
//! for comma-separated column and value lists.
use vstd::prelude::*;
use vstd::string::*;

use crate::query_parser::{spec_csv, spec_get_cols, spec_split_trim, SelectCols};
use crate::table::Table;
use crate::text::{char_in_class, extract, lemma_scan_bounds, scan, trim_str, CharClass};

verus! {

/// The directory that holds every database.
pub const DB_DIR: &'static str = "./sql";

/// The file that holds the current-database pointer, inside `DB_DIR`.
pub const CURR_DB: &'static str = "curr_db";

/// The directory of the database `name`.
pub open spec fn spec_db_path(name: Seq<char>) -> Seq<char> {
    "./sql/"@ + name
}

/// The file name of a table's schema document.
pub open spec fn spec_schema_file(file: Seq<char>) -> Seq<char> {
    file + ".schema.json"@
}

/// The file name of a table's row document.
pub open spec fn spec_table_file(file: Seq<char>) -> Seq<char> {
    file + ".json"@
}

/// The directory of the database `name`.
pub fn get_db_path(name: &str) -> (r: String)
    ensures
        r@ == spec_db_path(name@),
{
    let mut s = String::from_str("./sql/");
    s.append(name);
    s
}

/// The file name of the schema document of the table `file`.
pub fn schema_file(file: &str) -> (r: String)
    ensures
        r@ == spec_schema_file(file@),
{
    let mut s = String::from_str(file);
    s.append(".schema.json");
    s
}

/// The file name of the row document of the table `file`.
pub fn table_file(file: &str) -> (r: String)
    ensures
        r@ == spec_table_file(file@),
{
    let mut s = String::from_str(file);
    s.append(".json");
    s
}

/// Split `t` on commas and trim each segment, keeping empty segments.
pub fn split_trim_tokens(t: &str) -> (r: Vec<String>)
    ensures
        r.deep_view() == spec_split_trim(t@, 0),
{
    let n = t.unicode_len();
    let mut cols: Vec<String> = Vec::new();
    let mut p: usize = 0;
    loop
        invariant
            0 <= p <= n,
            n == t@.len(),
            spec_split_trim(t@, 0) =~= cols.deep_view() + spec_split_trim(t@, p as int),
        decreases n - p,
    {
        let e = scan(t, p, CharClass::NotComma);
        let seg = t.substring_char(p, e);
        let v = trim_str(seg);
        let ghost prev = cols.deep_view();
        cols.push(String::from_str(v));
        proof {
            assert(cols.deep_view() =~= prev.push(v@));
        }
        if e == n {
            proof {
                assert(spec_split_trim(t@, 0) =~= cols.deep_view());
            }
            return cols;
        }
        p = e + 1;
    }
}

/// The column selector of a column-list text: `*` means all columns, and
/// anything else is split on commas with each token trimmed.
pub fn get_cols(query: &str) -> (r: SelectCols)
    ensures
        r@ == spec_get_cols(query@),
{
    let t = trim_str(query);
    let n = t.unicode_len();
    if n == 1 && t.get_char(0) == '*' {
        SelectCols::All
    } else {
        SelectCols::Cols(split_trim_tokens(t))
    }
}

/// The comma-separated value tokens of `query`: maximal runs of characters
/// that are no comma, parenthesis or whitespace.
pub fn get_comma_separated_values(query: &str) -> (r: Vec<String>)
    ensures
        r.deep_view() == spec_csv(query@, 0),
{
    let n = query.unicode_len();
    let mut vals: Vec<String> = Vec::new();
    let mut p: usize = 0;
    while p < n
        invariant
            0 <= p <= n,
            n == query@.len(),
            spec_csv(query@, 0) =~= vals.deep_view() + spec_csv(query@, p as int),
        decreases n - p,
    {
        if char_in_class(CharClass::CsvValue, query.get_char(p)) {
            proof {
                lemma_scan_bounds(query@, p + 1, CharClass::CsvValue);
            }
            let e = scan(query, p, CharClass::CsvValue);
            let tok = extract(query, p, e);
            let ghost prev = vals.deep_view();
            vals.push(tok);
            proof {
                assert(vals.deep_view() =~= prev.push(query@.subrange(p as int, e as int)));
            }
            p = e;
        } else {
            p = p + 1;
        }
    }
    proof {
        assert(spec_csv(query@, 0) =~= vals.deep_view());
    }
    vals
}


/// Copy a vector of strings; the copy has the same view.
pub fn clone_strings(v: &Vec<String>) -> (r: Vec<String>)
    ensures
        r.deep_view() == v.deep_view(),
{
    let mut r: Vec<String> = Vec::new();
    let mut i: usize = 0;
    while i < v.len()
        invariant
            0 <= i <= v.len(),
            r.deep_view() =~= v.deep_view().take(i as int),
        decreases v.len() - i,
    {
        let ghost prev = r.deep_view();
        r.push(v[i].clone());
        proof {
            assert(v.deep_view()[i as int] == v@[i as int]@);
            assert(r.deep_view() =~= prev.push(v@[i as int]@));
            assert(r.deep_view() =~= v.deep_view().take(i + 1));
        }
        i = i + 1;
    }
    proof {
        assert(v.deep_view().take(v.len() as int) =~= v.deep_view());
    }
    r
}


/// The path of a table's schema document: the database directory, a slash,
/// and the schema file name.
pub open spec fn spec_schema_path(db: Seq<char>, table_name: Seq<char>) -> Seq<char> {
    spec_db_path(db) + "/"@ + spec_schema_file(table_name)
}

/// The path of a table's row document.
pub open spec fn spec_table_path(db: Seq<char>, table_name: Seq<char>) -> Seq<char> {
    spec_db_path(db) + "/"@ + spec_table_file(table_name)
}

/// The path of this table's schema document.
pub fn get_schema_path(table: &Table) -> (r: String)
    ensures
        r@ == spec_schema_path(table@.db, table@.table_name),
{
    let mut s = get_db_path(table.db.as_str());
    s.append("/");
    let f = schema_file(table.table_name.as_str());
    s.append(f.as_str());
    proof {
        assert(s@ =~= spec_schema_path(table@.db, table@.table_name));
    }
    s
}

/// The path of this table's row document.
pub fn get_table_path(table: &Table) -> (r: String)
    ensures
        r@ == spec_table_path(table@.db, table@.table_name),
{
    let mut s = get_db_path(table.db.as_str());
    s.append("/");
    let f = table_file(table.table_name.as_str());
    s.append(f.as_str());
    proof {
        assert(s@ =~= spec_table_path(table@.db, table@.table_name));
    }
    s
}

} // verus!
