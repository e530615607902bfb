//! The pattern-based query parser: a fixed, ordered list of independent
//! grammar rules turns raw query text into a typed `Query` value. The first
//! rule whose pattern matches the trimmed input wins; the trial order
//! resolves real overlaps between rules, so specific forms come before
//! generic ones, and `CREATE TABLE` comes before the generic table action.
//! All keywords match case-insensitively; identifiers and values keep their
//! original text.
use vstd::prelude::*;
use vstd::string::*;

use crate::datatype::{spec_parse_type, DataType, DataTypeV, DataTypesErr, DataTypesErrV};
use crate::text::{
    char_in_class, ci_match, ci_seq_eq, extract, find_first_ci, find_last_ci, in_class, is_ws_char,
    lemma_find_first_ci_bounds, lemma_find_last_ci_bounds, lemma_scan_bounds, match_ci_at,
    range_ci_eq, scan, scan_clamped, spec_find_first_ci, spec_find_last_ci, spec_trim, str_eq,
    trim_str, CharClass,
};

verus! {

/// A column name.
pub type ColName = String;

/// The action of a database-level statement.
#[derive(Debug, PartialEq, Eq, Clone, Copy)]
pub enum DatabaseAction {
    Create,
    Drop,
    Use,
}

/// The comparison operator of a condition.
#[derive(Debug, PartialEq, Eq, Clone, Copy)]
pub enum Operator {
    Eq,
    NotEq,
    Gt,
    Lt,
    GtEq,
    LtEq,
}

/// A single binary predicate over one column's value.
#[derive(Debug, PartialEq, Eq, Clone)]
pub struct Condition {
    pub key: String,
    pub value: String,
    pub operator: Operator,
}

/// The mathematical model of a condition.
pub struct ConditionV {
    pub key: Seq<char>,
    pub value: Seq<char>,
    pub operator: Operator,
}

impl View for Condition {
    type V = ConditionV;

    open spec fn view(&self) -> ConditionV {
        ConditionV { key: self.key@, value: self.value@, operator: self.operator }
    }
}

impl DeepView for Condition {
    type V = ConditionV;

    open spec fn deep_view(&self) -> ConditionV {
        self.view()
    }
}

/// Either all columns or an explicit ordered subset.
#[derive(Debug, PartialEq, Eq, Clone)]
pub enum SelectCols {
    All,
    Cols(Vec<String>),
}

/// The mathematical model of a column selector.
pub enum SelectColsV {
    All,
    Cols(Seq<Seq<char>>),
}

impl View for SelectCols {
    type V = SelectColsV;

    open spec fn view(&self) -> SelectColsV {
        match self {
            SelectCols::All => SelectColsV::All,
            SelectCols::Cols(cs) => SelectColsV::Cols(cs.deep_view()),
        }
    }
}

impl DeepView for SelectCols {
    type V = SelectColsV;

    open spec fn deep_view(&self) -> SelectColsV {
        self.view()
    }
}

/// A table-scoped statement.
#[derive(Debug, PartialEq, Eq)]
pub enum TableQuery {
    Create { cols: Vec<String>, types: Vec<String> },
    DropTable,
    Truncate,
    AddCol { col_name: String, datatype: DataType },
    AlterCol { col_name: String, datatype: DataType },
    DropCol(ColName),
    Select { cols: SelectCols, condition: Option<Condition> },
    Insert { cols: SelectCols, values: Vec<Vec<String>> },
    Delete { condition: Condition },
}

/// The mathematical model of a table-scoped statement.
pub enum TableQueryV {
    Create { cols: Seq<Seq<char>>, types: Seq<Seq<char>> },
    DropTable,
    Truncate,
    AddCol { col_name: Seq<char>, datatype: DataTypeV },
    AlterCol { col_name: Seq<char>, datatype: DataTypeV },
    DropCol(Seq<char>),
    Select { cols: SelectColsV, condition: Option<ConditionV> },
    Insert { cols: SelectColsV, values: Seq<Seq<Seq<char>>> },
    Delete { condition: ConditionV },
}

impl View for TableQuery {
    type V = TableQueryV;

    open spec fn view(&self) -> TableQueryV {
        match self {
            TableQuery::Create { cols, types } => TableQueryV::Create {
                cols: cols.deep_view(),
                types: types.deep_view(),
            },
            TableQuery::DropTable => TableQueryV::DropTable,
            TableQuery::Truncate => TableQueryV::Truncate,
            TableQuery::AddCol { col_name, datatype } => TableQueryV::AddCol {
                col_name: col_name@,
                datatype: datatype@,
            },
            TableQuery::AlterCol { col_name, datatype } => TableQueryV::AlterCol {
                col_name: col_name@,
                datatype: datatype@,
            },
            TableQuery::DropCol(c) => TableQueryV::DropCol(c@),
            TableQuery::Select { cols, condition } => TableQueryV::Select {
                cols: cols@,
                condition: match condition {
                    Some(c) => Some(c@),
                    None => None,
                },
            },
            TableQuery::Insert { cols, values } => TableQueryV::Insert {
                cols: cols@,
                values: values.deep_view(),
            },
            TableQuery::Delete { condition } => TableQueryV::Delete { condition: condition@ },
        }
    }
}

/// A parsed statement.
#[derive(Debug, PartialEq, Eq)]
pub enum Query {
    ShowAllDBs,
    ShowCurrDB,
    ShowTables,
    Database { name: String, action: DatabaseAction },
    Table { name: String, query: TableQuery },
}

/// The mathematical model of a parsed statement.
pub enum QueryV {
    ShowAllDBs,
    ShowCurrDB,
    ShowTables,
    Database { name: Seq<char>, action: DatabaseAction },
    Table { name: Seq<char>, query: TableQueryV },
}

impl View for Query {
    type V = QueryV;

    open spec fn view(&self) -> QueryV {
        match self {
            Query::ShowAllDBs => QueryV::ShowAllDBs,
            Query::ShowCurrDB => QueryV::ShowCurrDB,
            Query::ShowTables => QueryV::ShowTables,
            Query::Database { name, action } => QueryV::Database {
                name: name@,
                action: *action,
            },
            Query::Table { name, query } => QueryV::Table { name: name@, query: query@ },
        }
    }
}

/// A parse error; each variant carries the offending text.
#[derive(Debug, PartialEq, Eq)]
pub enum QueryParserError {
    BadQuery(String),
    InvalidDBAction(String),
    InvalidTableAction(String),
    InvalidCondition(String),
    InvalidOperator(String),
    DataTypeErr(DataTypesErr),
}

/// The mathematical model of a parse error.
pub enum QueryParserErrorV {
    BadQuery(Seq<char>),
    InvalidDBAction(Seq<char>),
    InvalidTableAction(Seq<char>),
    InvalidCondition(Seq<char>),
    InvalidOperator(Seq<char>),
    DataTypeErr(DataTypesErrV),
}

impl View for QueryParserError {
    type V = QueryParserErrorV;

    open spec fn view(&self) -> QueryParserErrorV {
        match self {
            QueryParserError::BadQuery(s) => QueryParserErrorV::BadQuery(s@),
            QueryParserError::InvalidDBAction(s) => QueryParserErrorV::InvalidDBAction(s@),
            QueryParserError::InvalidTableAction(s) => QueryParserErrorV::InvalidTableAction(s@),
            QueryParserError::InvalidCondition(s) => QueryParserErrorV::InvalidCondition(s@),
            QueryParserError::InvalidOperator(s) => QueryParserErrorV::InvalidOperator(s@),
            QueryParserError::DataTypeErr(e) => QueryParserErrorV::DataTypeErr(e@),
        }
    }
}

/// The model of a parse outcome.
pub open spec fn res_view(r: Result<Query, QueryParserError>) -> Result<QueryV, QueryParserErrorV> {
    match r {
        Ok(q) => Ok(q@),
        Err(e) => Err(e@),
    }
}

/// What parsing a condition yields. The key runs to the first whitespace or
/// operator character; the operator token follows, around optional
/// whitespace; the value may be wrapped in an optional single and an
/// optional double quote, which are stripped. A structurally unparseable
/// condition is `InvalidCondition`; an unrecognized operator token is
/// `InvalidOperator`.
pub open spec fn spec_parse_condition(c: Seq<char>) -> Result<ConditionV, QueryParserErrorV> {
    let ke = scan_clamped(c, 0, CharClass::CondKey);
    if ke == 0 {
        Err(QueryParserErrorV::InvalidCondition(c))
    } else {
        let os = scan_clamped(c, ke, CharClass::Ws);
        let oe = scan_clamped(c, os, CharClass::CondOp);
        if oe == os {
            Err(QueryParserErrorV::InvalidCondition(c))
        } else {
            let op_txt = c.subrange(os, oe);
            let vs0 = scan_clamped(c, oe, CharClass::Ws);
            let vs1 = if vs0 < c.len() && c[vs0] == '\'' {
                vs0 + 1
            } else {
                vs0
            };
            let vs2 = if vs1 < c.len() && c[vs1] == '"' {
                vs1 + 1
            } else {
                vs1
            };
            let ve = scan_clamped(c, vs2, CharClass::CondValue);
            if ve == vs2 {
                Err(QueryParserErrorV::InvalidCondition(c))
            } else {
                let key = c.subrange(0, ke);
                let value = c.subrange(vs2, ve);
                if op_txt == "="@ {
                    Ok(ConditionV { key, value, operator: Operator::Eq })
                } else if op_txt == "!="@ {
                    Ok(ConditionV { key, value, operator: Operator::NotEq })
                } else if op_txt == ">"@ {
                    Ok(ConditionV { key, value, operator: Operator::Gt })
                } else if op_txt == ">="@ {
                    Ok(ConditionV { key, value, operator: Operator::GtEq })
                } else if op_txt == "<"@ {
                    Ok(ConditionV { key, value, operator: Operator::Lt })
                } else if op_txt == "<="@ {
                    Ok(ConditionV { key, value, operator: Operator::LtEq })
                } else {
                    Err(QueryParserErrorV::InvalidOperator(op_txt))
                }
            }
        }
    }
}

/// The comma-separated value tokens of `q` from position `p` on: each token
/// is a maximal run of characters that are no comma, parenthesis or
/// whitespace.
pub open spec fn spec_csv(q: Seq<char>, p: int) -> Seq<Seq<char>>
    decreases q.len() - p,
{
    if p < 0 || p >= q.len() {
        Seq::empty()
    } else if in_class(CharClass::CsvValue, q[p]) {
        let e0 = scan_clamped(q, p, CharClass::CsvValue);
        let e = if e0 < p + 1 {
            p + 1
        } else {
            e0
        };
        seq![q.subrange(p, e)] + spec_csv(q, e)
    } else {
        spec_csv(q, p + 1)
    }
}

/// The comma-split, individually trimmed segments of `q` from `p` on; empty
/// segments are kept.
pub open spec fn spec_split_trim(q: Seq<char>, i: int) -> Seq<Seq<char>>
    decreases q.len() - i,
{
    if i < 0 || i > q.len() {
        Seq::empty()
    } else {
        let e = scan_clamped(q, i, CharClass::NotComma);
        let v = spec_trim(q.subrange(i, e));
        if e < q.len() {
            seq![v] + spec_split_trim(q, e + 1)
        } else {
            seq![v]
        }
    }
}

/// The column selector a column-list text denotes: `*` means all columns,
/// anything else is split on commas with each token trimmed.
pub open spec fn spec_get_cols(text: Seq<char>) -> SelectColsV {
    let t = spec_trim(text);
    if t.len() == 1 && t[0] == '*' {
        SelectColsV::All
    } else {
        SelectColsV::Cols(spec_split_trim(t, 0))
    }
}

/// The column names of the entry list of a CREATE TABLE statement from
/// position `p` on: an entry is a name run, a single space and a type run.
pub open spec fn spec_entry_cols(q: Seq<char>, p: int) -> Seq<Seq<char>>
    decreases q.len() - p,
{
    if p < 0 || p >= q.len() {
        Seq::empty()
    } else if !in_class(CharClass::EntryName, q[p]) {
        spec_entry_cols(q, p + 1)
    } else {
        let e0 = scan_clamped(q, p, CharClass::EntryName);
        let e = if e0 < p + 1 {
            p + 1
        } else {
            e0
        };
        if e < q.len() && q[e] == ' ' && e + 1 < q.len() && in_class(CharClass::EntryType, q[e + 1]) {
            let t0 = scan_clamped(q, e + 1, CharClass::EntryType);
            let t = if t0 < e + 2 {
                e + 2
            } else {
                t0
            };
            seq![q.subrange(p, e)] + spec_entry_cols(q, t)
        } else {
            spec_entry_cols(q, e)
        }
    }
}

/// The type tokens of the entry list of a CREATE TABLE statement from
/// position `p` on, parallel to `spec_entry_cols`.
pub open spec fn spec_entry_types(q: Seq<char>, p: int) -> Seq<Seq<char>>
    decreases q.len() - p,
{
    if p < 0 || p >= q.len() {
        Seq::empty()
    } else if !in_class(CharClass::EntryName, q[p]) {
        spec_entry_types(q, p + 1)
    } else {
        let e0 = scan_clamped(q, p, CharClass::EntryName);
        let e = if e0 < p + 1 {
            p + 1
        } else {
            e0
        };
        if e < q.len() && q[e] == ' ' && e + 1 < q.len() && in_class(CharClass::EntryType, q[e + 1]) {
            let t0 = scan_clamped(q, e + 1, CharClass::EntryType);
            let t = if t0 < e + 2 {
                e + 2
            } else {
                t0
            };
            seq![q.subrange(e + 1, t)] + spec_entry_types(q, t)
        } else {
            spec_entry_types(q, e)
        }
    }
}

/// The value tuples of an INSERT statement from position `p` on: each tuple
/// is a parenthesized group, split into comma-separated value tokens; both
/// `),(` and `) (` separate consecutive groups.
pub open spec fn spec_row_values(q: Seq<char>, p: int) -> Seq<Seq<Seq<char>>>
    decreases q.len() - p,
{
    if p < 0 || p >= q.len() {
        Seq::empty()
    } else if q[p] == '(' {
        let e0 = scan_clamped(q, p + 1, CharClass::RowBody);
        let e = if e0 < p + 1 {
            p + 1
        } else {
            e0
        };
        if e > p + 1 && e < q.len() && q[e] == ')' {
            seq![spec_csv(q.subrange(p, e + 1), 0)] + spec_row_values(q, e + 1)
        } else {
            spec_row_values(q, p + 1)
        }
    } else {
        spec_row_values(q, p + 1)
    }
}

/// The SHOW rule: `SHOW <payload>` up to a line end.
pub open spec fn show_payload_end(q: Seq<char>) -> int {
    scan_clamped(q, "show "@.len() as int, CharClass::NotLineEnd)
}

pub open spec fn show_applies(q: Seq<char>) -> bool {
    ci_match(q, 0, "show "@) && show_payload_end(q) > "show "@.len()
}

/// The payload names what to show; an unknown payload is a bad query.
pub open spec fn show_result(q: Seq<char>) -> Result<QueryV, QueryParserErrorV> {
    let payload = q.subrange("show "@.len() as int, show_payload_end(q));
    if ci_seq_eq(payload, "databases"@) {
        Ok(QueryV::ShowAllDBs)
    } else if ci_seq_eq(payload, "current database"@) {
        Ok(QueryV::ShowCurrDB)
    } else if ci_seq_eq(payload, "tables"@) {
        Ok(QueryV::ShowTables)
    } else {
        Err(QueryParserErrorV::BadQuery(q))
    }
}

/// The DATABASE rule: `<action> DATABASE <name>`.
pub open spec fn db_tok_end(q: Seq<char>) -> int {
    scan_clamped(q, 0, CharClass::Token)
}

pub open spec fn db_name_end(q: Seq<char>) -> int {
    scan_clamped(q, db_tok_end(q) + " database "@.len(), CharClass::NotSemi)
}

pub open spec fn db_applies(q: Seq<char>) -> bool {
    let e = db_tok_end(q);
    &&& e > 0
    &&& ci_match(q, e, " database "@)
    &&& db_name_end(q) > e + " database "@.len()
}

/// The action keyword must be create, drop or use, case-insensitively.
pub open spec fn db_result(q: Seq<char>) -> Result<QueryV, QueryParserErrorV> {
    let e = db_tok_end(q);
    let tok = q.subrange(0, e);
    let name = q.subrange(e + " database "@.len(), db_name_end(q));
    if ci_seq_eq(tok, "create"@) {
        Ok(QueryV::Database { name, action: DatabaseAction::Create })
    } else if ci_seq_eq(tok, "drop"@) {
        Ok(QueryV::Database { name, action: DatabaseAction::Drop })
    } else if ci_seq_eq(tok, "use"@) {
        Ok(QueryV::Database { name, action: DatabaseAction::Use })
    } else {
        Err(QueryParserErrorV::InvalidDBAction(tok))
    }
}

/// The CREATE TABLE rule: `CREATE TABLE <name>(<entries>)`, tolerant of one
/// whitespace character between name and entries, of surrounding whitespace
/// inside the entry list and of a trailing comma.
pub open spec fn ct_name_end(q: Seq<char>) -> int {
    scan_clamped(q, "create table "@.len() as int, CharClass::NameNoParen)
}

pub open spec fn ct_entries_start(q: Seq<char>) -> int {
    let e = ct_name_end(q);
    if e < q.len() && is_ws_char(q[e]) {
        e + 1
    } else {
        e
    }
}

pub open spec fn ct_entries_end(q: Seq<char>) -> int {
    scan_clamped(q, ct_entries_start(q), CharClass::NotSemi)
}

pub open spec fn create_table_applies(q: Seq<char>) -> bool {
    &&& ci_match(q, 0, "create table "@)
    &&& ct_name_end(q) > "create table "@.len()
    &&& ct_entries_end(q) > ct_entries_start(q)
}

pub open spec fn create_table_result(q: Seq<char>) -> Result<QueryV, QueryParserErrorV> {
    let name = q.subrange("create table "@.len() as int, ct_name_end(q));
    let entries = q.subrange(ct_entries_start(q), ct_entries_end(q));
    Ok(
        QueryV::Table {
            name,
            query: TableQueryV::Create {
                cols: spec_entry_cols(entries, 0),
                types: spec_entry_types(entries, 0),
            },
        },
    )
}

/// The generic TABLE rule: `<action> TABLE <name>`. An ALTER statement is
/// never taken here, since the three ALTER rules are tried later.
pub open spec fn ta_tok_end(q: Seq<char>) -> int {
    scan_clamped(q, 0, CharClass::Token)
}

pub open spec fn ta_name_end(q: Seq<char>) -> int {
    scan_clamped(q, ta_tok_end(q) + " table "@.len(), CharClass::NotSemi)
}

pub open spec fn ta_applies(q: Seq<char>) -> bool {
    let e = ta_tok_end(q);
    &&& e > 0
    &&& ci_match(q, e, " table "@)
    &&& ta_name_end(q) > e + " table "@.len()
    &&& !ci_seq_eq(q.subrange(0, e), "alter"@)
}

/// Only drop and truncate are table actions; any other keyword in this
/// shape is an invalid table action.
pub open spec fn ta_result(q: Seq<char>) -> Result<QueryV, QueryParserErrorV> {
    let e = ta_tok_end(q);
    let tok = q.subrange(0, e);
    let name = q.subrange(e + " table "@.len(), ta_name_end(q));
    if ci_seq_eq(tok, "drop"@) {
        Ok(QueryV::Table { name, query: TableQueryV::DropTable })
    } else if ci_seq_eq(tok, "truncate"@) {
        Ok(QueryV::Table { name, query: TableQueryV::Truncate })
    } else {
        Err(QueryParserErrorV::InvalidTableAction(tok))
    }
}

/// The ALTER TABLE rules share the table-name run after `ALTER TABLE `.
pub open spec fn at_tname_end(q: Seq<char>) -> int {
    scan_clamped(q, "alter table "@.len() as int, CharClass::NotWs)
}

pub open spec fn at_head_applies(q: Seq<char>) -> bool {
    ci_match(q, 0, "alter table "@) && at_tname_end(q) > "alter table "@.len()
}

/// The DROP COLUMN rule: `ALTER TABLE <t> DROP COLUMN <col>`.
pub open spec fn drop_col_applies(q: Seq<char>) -> bool {
    let te = at_tname_end(q);
    let cs = te + " drop column "@.len();
    &&& at_head_applies(q)
    &&& ci_match(q, te, " drop column "@)
    &&& scan_clamped(q, cs, CharClass::Token) > cs
}

pub open spec fn drop_col_result(q: Seq<char>) -> Result<QueryV, QueryParserErrorV> {
    let te = at_tname_end(q);
    let cs = te + " drop column "@.len();
    let name = q.subrange("alter table "@.len() as int, te);
    let col = q.subrange(cs, scan_clamped(q, cs, CharClass::Token));
    Ok(QueryV::Table { name, query: TableQueryV::DropCol(col) })
}

/// The ALTER COLUMN rule: `ALTER TABLE <t> ALTER COLUMN <col> <type>`,
/// where the type token may contain spaces and runs to a line end.
pub open spec fn alter_col_applies(q: Seq<char>) -> bool {
    let te = at_tname_end(q);
    let cs = te + " alter column "@.len();
    let ce = scan_clamped(q, cs, CharClass::Token);
    &&& at_head_applies(q)
    &&& ci_match(q, te, " alter column "@)
    &&& ce > cs
    &&& ce < q.len() && q[ce] == ' '
    &&& scan_clamped(q, ce + 1, CharClass::NotLineEnd) > ce + 1
}

pub open spec fn alter_col_result(q: Seq<char>) -> Result<QueryV, QueryParserErrorV> {
    let te = at_tname_end(q);
    let cs = te + " alter column "@.len();
    let ce = scan_clamped(q, cs, CharClass::Token);
    let name = q.subrange("alter table "@.len() as int, te);
    let col = q.subrange(cs, ce);
    let dt_txt = q.subrange(ce + 1, scan_clamped(q, ce + 1, CharClass::NotLineEnd));
    match spec_parse_type(dt_txt) {
        Ok(dt) => Ok(
            QueryV::Table {
                name,
                query: TableQueryV::AlterCol { col_name: col, datatype: dt },
            },
        ),
        Err(e) => Err(QueryParserErrorV::DataTypeErr(e)),
    }
}

/// The ADD COLUMN rule: `ALTER TABLE <t> ADD <col> <type>`, where the type
/// token contains no whitespace.
pub open spec fn add_col_applies(q: Seq<char>) -> bool {
    let te = at_tname_end(q);
    let cs = te + " add "@.len();
    let ce = scan_clamped(q, cs, CharClass::NotWs);
    &&& at_head_applies(q)
    &&& ci_match(q, te, " add "@)
    &&& ce > cs
    &&& ce < q.len() && q[ce] == ' '
    &&& scan_clamped(q, ce + 1, CharClass::Token) > ce + 1
}

pub open spec fn add_col_result(q: Seq<char>) -> Result<QueryV, QueryParserErrorV> {
    let te = at_tname_end(q);
    let cs = te + " add "@.len();
    let ce = scan_clamped(q, cs, CharClass::NotWs);
    let name = q.subrange("alter table "@.len() as int, te);
    let col = q.subrange(cs, ce);
    let dt_txt = q.subrange(ce + 1, scan_clamped(q, ce + 1, CharClass::Token));
    match spec_parse_type(dt_txt) {
        Ok(dt) => Ok(
            QueryV::Table {
                name,
                query: TableQueryV::AddCol { col_name: col, datatype: dt },
            },
        ),
        Err(e) => Err(QueryParserErrorV::DataTypeErr(e)),
    }
}

/// The SELECT rule: `SELECT <cols> FROM <t> [WHERE <cond>]`; the column
/// text runs to the last ` from ` of the statement, and anything after the
/// table name that is no WHERE clause is ignored.
pub open spec fn sel_from_pos(q: Seq<char>) -> int {
    spec_find_last_ci(q, q.len() as int, " from "@)
}

pub open spec fn sel_tname_end(q: Seq<char>) -> int {
    scan_clamped(q, sel_from_pos(q) + " from "@.len(), CharClass::Token)
}

pub open spec fn select_applies(q: Seq<char>) -> bool {
    let f = sel_from_pos(q);
    &&& ci_match(q, 0, "select "@)
    &&& f > "select "@.len()
    &&& sel_tname_end(q) > f + " from "@.len()
}

pub open spec fn sel_has_where(q: Seq<char>) -> bool {
    let te = sel_tname_end(q);
    ci_match(q, te, " where "@) && scan_clamped(q, te + " where "@.len(), CharClass::NotLineEnd)
        > te + " where "@.len()
}

pub open spec fn select_result(q: Seq<char>) -> Result<QueryV, QueryParserErrorV> {
    let f = sel_from_pos(q);
    let te = sel_tname_end(q);
    let name = q.subrange(f + " from "@.len(), te);
    let cols = spec_get_cols(q.subrange("select "@.len() as int, f));
    if sel_has_where(q) {
        let cs = te + " where "@.len();
        let cond_txt = q.subrange(cs, scan_clamped(q, cs, CharClass::NotLineEnd));
        match spec_parse_condition(cond_txt) {
            Ok(c) => Ok(
                QueryV::Table {
                    name,
                    query: TableQueryV::Select { cols, condition: Some(c) },
                },
            ),
            Err(e) => Err(e),
        }
    } else {
        Ok(QueryV::Table { name, query: TableQueryV::Select { cols, condition: None } })
    }
}

/// The INSERT rule: `INSERT INTO <t> [(<cols>)] VALUES <tuples>`; the
/// column text runs to the first ` values`, and one whitespace character
/// may follow the keyword before the first tuple.
pub open spec fn ins_tname_end(q: Seq<char>) -> int {
    scan_clamped(q, "insert into "@.len() as int, CharClass::Token)
}

pub open spec fn ins_values_pos(q: Seq<char>) -> int {
    spec_find_first_ci(q, ins_tname_end(q), " values"@)
}

pub open spec fn ins_tuples_start(q: Seq<char>) -> int {
    let a = ins_values_pos(q) + " values"@.len();
    if a < q.len() && is_ws_char(q[a]) {
        a + 1
    } else {
        a
    }
}

pub open spec fn insert_applies(q: Seq<char>) -> bool {
    let ts = ins_tuples_start(q);
    &&& ci_match(q, 0, "insert into "@)
    &&& ins_tname_end(q) > "insert into "@.len()
    &&& ins_values_pos(q) >= ins_tname_end(q)
    &&& ts < q.len() && q[ts] == '('
    &&& spec_row_values(q, ts).len() > 0
}

pub open spec fn insert_result(q: Seq<char>) -> Result<QueryV, QueryParserErrorV> {
    let te = ins_tname_end(q);
    let name = q.subrange("insert into "@.len() as int, te);
    let col_toks = spec_csv(q.subrange(te, ins_values_pos(q)), 0);
    let cols = if col_toks.len() == 0 {
        SelectColsV::All
    } else {
        SelectColsV::Cols(col_toks)
    };
    Ok(
        QueryV::Table {
            name,
            query: TableQueryV::Insert { cols, values: spec_row_values(q, ins_tuples_start(q)) },
        },
    )
}

/// The DELETE rule: `DELETE FROM <t> WHERE <cond>`; the condition is
/// mandatory, there is no unconditional delete form.
pub open spec fn del_tname_end(q: Seq<char>) -> int {
    scan_clamped(q, "delete from "@.len() as int, CharClass::NotWs)
}

pub open spec fn delete_applies(q: Seq<char>) -> bool {
    let te = del_tname_end(q);
    let cs = te + " where "@.len();
    &&& ci_match(q, 0, "delete from "@)
    &&& te > "delete from "@.len()
    &&& ci_match(q, te, " where "@)
    &&& scan_clamped(q, cs, CharClass::NotLineEnd) > cs
}

pub open spec fn delete_result(q: Seq<char>) -> Result<QueryV, QueryParserErrorV> {
    let te = del_tname_end(q);
    let cs = te + " where "@.len();
    let name = q.subrange("delete from "@.len() as int, te);
    let cond_txt = q.subrange(cs, scan_clamped(q, cs, CharClass::NotLineEnd));
    match spec_parse_condition(cond_txt) {
        Ok(c) => Ok(QueryV::Table { name, query: TableQueryV::Delete { condition: c } }),
        Err(e) => Err(e),
    }
}

/// What parsing a statement yields: the trimmed input is tried against the
/// grammar rules in their fixed order, and the first rule whose pattern
/// matches decides the outcome; when none matches, the statement is a bad
/// query.
pub open spec fn spec_parse(raw: Seq<char>) -> Result<QueryV, QueryParserErrorV> {
    let q = spec_trim(raw);
    if show_applies(q) {
        show_result(q)
    } else if db_applies(q) {
        db_result(q)
    } else if create_table_applies(q) {
        create_table_result(q)
    } else if ta_applies(q) {
        ta_result(q)
    } else if drop_col_applies(q) {
        drop_col_result(q)
    } else if alter_col_applies(q) {
        alter_col_result(q)
    } else if add_col_applies(q) {
        add_col_result(q)
    } else if select_applies(q) {
        select_result(q)
    } else if insert_applies(q) {
        insert_result(q)
    } else if delete_applies(q) {
        delete_result(q)
    } else {
        Err(QueryParserErrorV::BadQuery(q))
    }
}

/// The parser's entry point, a unit type as the parser keeps no state.
pub struct QueryParser;

impl QueryParser {
    /// Parse one statement; the outcome is exactly what the grammar,
    /// `spec_parse`, assigns to the input.
    pub fn parse(query: &str) -> (r: Result<Query, QueryParserError>)
        ensures
            res_view(r) == spec_parse(query@),
    {
        let q = trim_str(query);
        if let Some(res) = rule_show(q) {
            return res;
        }
        if let Some(res) = rule_db(q) {
            return res;
        }
        if let Some(res) = rule_create_table(q) {
            return res;
        }
        if let Some(res) = rule_table_action(q) {
            return res;
        }
        if let Some(res) = rule_drop_col(q) {
            return res;
        }
        if let Some(res) = rule_alter_col(q) {
            return res;
        }
        if let Some(res) = rule_add_col(q) {
            return res;
        }
        if let Some(res) = rule_select(q) {
            return res;
        }
        if let Some(res) = rule_insert(q) {
            return res;
        }
        if let Some(res) = rule_delete(q) {
            return res;
        }
        Err(QueryParserError::BadQuery(String::from_str(q)))
    }
}

impl Condition {
    /// Parse a condition; the outcome is exactly what
    /// `spec_parse_condition` assigns to the input.
    pub fn parse(query: &str) -> (r: Result<Condition, QueryParserError>)
        ensures
            match r {
                Ok(c) => spec_parse_condition(query@) == Ok::<ConditionV, QueryParserErrorV>(c@),
                Err(e) => spec_parse_condition(query@) == Err::<ConditionV, QueryParserErrorV>(e@),
            },
    {
        let n = query.unicode_len();
        let ke = scan(query, 0, CharClass::CondKey);
        if ke == 0 {
            return Err(QueryParserError::InvalidCondition(String::from_str(query)));
        }
        let os = scan(query, ke, CharClass::Ws);
        let oe = scan(query, os, CharClass::CondOp);
        if oe == os {
            return Err(QueryParserError::InvalidCondition(String::from_str(query)));
        }
        let vs0 = scan(query, oe, CharClass::Ws);
        let mut vs: usize = vs0;
        if vs < n && query.get_char(vs) == '\'' {
            vs = vs + 1;
        }
        if vs < n && query.get_char(vs) == '"' {
            vs = vs + 1;
        }
        let ve = scan(query, vs, CharClass::CondValue);
        if ve == vs {
            return Err(QueryParserError::InvalidCondition(String::from_str(query)));
        }
        let op = query.substring_char(os, oe);
        let operator = if str_eq(op, "=") {
            Operator::Eq
        } else if str_eq(op, "!=") {
            Operator::NotEq
        } else if str_eq(op, ">") {
            Operator::Gt
        } else if str_eq(op, ">=") {
            Operator::GtEq
        } else if str_eq(op, "<") {
            Operator::Lt
        } else if str_eq(op, "<=") {
            Operator::LtEq
        } else {
            return Err(QueryParserError::InvalidOperator(String::from_str(op)));
        };
        Ok(Condition { key: extract(query, 0, ke), value: extract(query, vs, ve), operator })
    }
}

/// The SHOW rule.
fn rule_show(q: &str) -> (r: Option<Result<Query, QueryParserError>>)
    ensures
        match r {
            Some(res) => show_applies(q@) && res_view(res) == show_result(q@),
            None => !show_applies(q@),
        },
{
    if !match_ci_at(q, 0, "show ") {
        return None;
    }
    let k = "show ".unicode_len();
    let e = scan(q, k, CharClass::NotLineEnd);
    if e <= k {
        return None;
    }
    if range_ci_eq(q, k, e, "databases") {
        Some(Ok(Query::ShowAllDBs))
    } else if range_ci_eq(q, k, e, "current database") {
        Some(Ok(Query::ShowCurrDB))
    } else if range_ci_eq(q, k, e, "tables") {
        Some(Ok(Query::ShowTables))
    } else {
        Some(Err(QueryParserError::BadQuery(String::from_str(q))))
    }
}

/// The DATABASE rule.
fn rule_db(q: &str) -> (r: Option<Result<Query, QueryParserError>>)
    ensures
        match r {
            Some(res) => db_applies(q@) && res_view(res) == db_result(q@),
            None => !db_applies(q@),
        },
{
    let e = scan(q, 0, CharClass::Token);
    if e == 0 {
        return None;
    }
    if !match_ci_at(q, e, " database ") {
        return None;
    }
    let n = q.unicode_len();
    let ns = e + " database ".unicode_len();
    let ne = scan(q, ns, CharClass::NotSemi);
    if ne <= ns {
        return None;
    }
    let name = extract(q, ns, ne);
    if range_ci_eq(q, 0, e, "create") {
        Some(Ok(Query::Database { name, action: DatabaseAction::Create }))
    } else if range_ci_eq(q, 0, e, "drop") {
        Some(Ok(Query::Database { name, action: DatabaseAction::Drop }))
    } else if range_ci_eq(q, 0, e, "use") {
        Some(Ok(Query::Database { name, action: DatabaseAction::Use }))
    } else {
        Some(Err(QueryParserError::InvalidDBAction(extract(q, 0, e))))
    }
}

/// Scan the entry list of a CREATE TABLE statement into its column names
/// and type tokens.
fn scan_entries(s: &str) -> (r: (Vec<String>, Vec<String>))
    ensures
        r.0.deep_view() == spec_entry_cols(s@, 0),
        r.1.deep_view() == spec_entry_types(s@, 0),
{
    let n = s.unicode_len();
    let mut cols: Vec<String> = Vec::new();
    let mut types: Vec<String> = Vec::new();
    let mut p: usize = 0;
    while p < n
        invariant
            0 <= p <= n,
            n == s@.len(),
            spec_entry_cols(s@, 0) =~= cols.deep_view() + spec_entry_cols(s@, p as int),
            spec_entry_types(s@, 0) =~= types.deep_view() + spec_entry_types(s@, p as int),
        decreases n - p,
    {
        if !char_in_class(CharClass::EntryName, s.get_char(p)) {
            p = p + 1;
        } else {
            proof {
                lemma_scan_bounds(s@, p + 1, CharClass::EntryName);
            }
            let e = scan(s, p, CharClass::EntryName);
            if e < n && s.get_char(e) == ' ' && e + 1 < n && char_in_class(
                CharClass::EntryType,
                s.get_char(e + 1),
            ) {
                proof {
                    lemma_scan_bounds(s@, e + 2, CharClass::EntryType);
                }
                let t = scan(s, e + 1, CharClass::EntryType);
                let ghost pc = cols.deep_view();
                let ghost pt = types.deep_view();
                cols.push(extract(s, p, e));
                types.push(extract(s, e + 1, t));
                proof {
                    assert(cols.deep_view() =~= pc.push(s@.subrange(p as int, e as int)));
                    assert(types.deep_view() =~= pt.push(s@.subrange(e as int + 1, t as int)));
                }
                p = t;
            } else {
                p = e;
            }
        }
    }
    (cols, types)
}

/// The CREATE TABLE rule.
fn rule_create_table(q: &str) -> (r: Option<Result<Query, QueryParserError>>)
    ensures
        match r {
            Some(res) => create_table_applies(q@) && res_view(res) == create_table_result(q@),
            None => !create_table_applies(q@),
        },
{
    if !match_ci_at(q, 0, "create table ") {
        return None;
    }
    let n = q.unicode_len();
    let k = "create table ".unicode_len();
    let ne = scan(q, k, CharClass::NameNoParen);
    if ne <= k {
        return None;
    }
    let mut es: usize = ne;
    if ne < n && char_in_class(CharClass::Ws, q.get_char(ne)) {
        es = ne + 1;
    }
    let ee = scan(q, es, CharClass::NotSemi);
    if ee <= es {
        return None;
    }
    let entries = q.substring_char(es, ee);
    let pair = scan_entries(entries);
    Some(
        Ok(
            Query::Table {
                name: extract(q, k, ne),
                query: TableQuery::Create { cols: pair.0, types: pair.1 },
            },
        ),
    )
}

/// The generic TABLE rule.
fn rule_table_action(q: &str) -> (r: Option<Result<Query, QueryParserError>>)
    ensures
        match r {
            Some(res) => ta_applies(q@) && res_view(res) == ta_result(q@),
            None => !ta_applies(q@),
        },
{
    let e = scan(q, 0, CharClass::Token);
    if e == 0 {
        return None;
    }
    if !match_ci_at(q, e, " table ") {
        return None;
    }
    let n = q.unicode_len();
    let ns = e + " table ".unicode_len();
    let ne = scan(q, ns, CharClass::NotSemi);
    if ne <= ns {
        return None;
    }
    if range_ci_eq(q, 0, e, "alter") {
        return None;
    }
    let name = extract(q, ns, ne);
    if range_ci_eq(q, 0, e, "drop") {
        Some(Ok(Query::Table { name, query: TableQuery::DropTable }))
    } else if range_ci_eq(q, 0, e, "truncate") {
        Some(Ok(Query::Table { name, query: TableQuery::Truncate }))
    } else {
        Some(Err(QueryParserError::InvalidTableAction(extract(q, 0, e))))
    }
}

/// The DROP COLUMN rule.
fn rule_drop_col(q: &str) -> (r: Option<Result<Query, QueryParserError>>)
    ensures
        match r {
            Some(res) => drop_col_applies(q@) && res_view(res) == drop_col_result(q@),
            None => !drop_col_applies(q@),
        },
{
    if !match_ci_at(q, 0, "alter table ") {
        return None;
    }
    let k = "alter table ".unicode_len();
    let te = scan(q, k, CharClass::NotWs);
    if te <= k {
        return None;
    }
    if !match_ci_at(q, te, " drop column ") {
        return None;
    }
    let n = q.unicode_len();
    let cs = te + " drop column ".unicode_len();
    let ce = scan(q, cs, CharClass::Token);
    if ce <= cs {
        return None;
    }
    Some(
        Ok(
            Query::Table {
                name: extract(q, k, te),
                query: TableQuery::DropCol(extract(q, cs, ce)),
            },
        ),
    )
}

/// The ALTER COLUMN rule.
fn rule_alter_col(q: &str) -> (r: Option<Result<Query, QueryParserError>>)
    ensures
        match r {
            Some(res) => alter_col_applies(q@) && res_view(res) == alter_col_result(q@),
            None => !alter_col_applies(q@),
        },
{
    if !match_ci_at(q, 0, "alter table ") {
        return None;
    }
    let n = q.unicode_len();
    let k = "alter table ".unicode_len();
    let te = scan(q, k, CharClass::NotWs);
    if te <= k {
        return None;
    }
    if !match_ci_at(q, te, " alter column ") {
        return None;
    }
    let cs = te + " alter column ".unicode_len();
    let ce = scan(q, cs, CharClass::Token);
    if ce <= cs {
        return None;
    }
    if !(ce < n && q.get_char(ce) == ' ') {
        return None;
    }
    let de = scan(q, ce + 1, CharClass::NotLineEnd);
    if de <= ce + 1 {
        return None;
    }
    let dt_txt = q.substring_char(ce + 1, de);
    match DataType::parse(dt_txt) {
        Ok(dt) => Some(
            Ok(
                Query::Table {
                    name: extract(q, k, te),
                    query: TableQuery::AlterCol { col_name: extract(q, cs, ce), datatype: dt },
                },
            ),
        ),
        Err(e) => Some(Err(QueryParserError::DataTypeErr(e))),
    }
}

/// The ADD COLUMN rule.
fn rule_add_col(q: &str) -> (r: Option<Result<Query, QueryParserError>>)
    ensures
        match r {
            Some(res) => add_col_applies(q@) && res_view(res) == add_col_result(q@),
            None => !add_col_applies(q@),
        },
{
    if !match_ci_at(q, 0, "alter table ") {
        return None;
    }
    let n = q.unicode_len();
    let k = "alter table ".unicode_len();
    let te = scan(q, k, CharClass::NotWs);
    if te <= k {
        return None;
    }
    if !match_ci_at(q, te, " add ") {
        return None;
    }
    let cs = te + " add ".unicode_len();
    let ce = scan(q, cs, CharClass::NotWs);
    if ce <= cs {
        return None;
    }
    if !(ce < n && q.get_char(ce) == ' ') {
        return None;
    }
    let de = scan(q, ce + 1, CharClass::Token);
    if de <= ce + 1 {
        return None;
    }
    let dt_txt = q.substring_char(ce + 1, de);
    match DataType::parse(dt_txt) {
        Ok(dt) => Some(
            Ok(
                Query::Table {
                    name: extract(q, k, te),
                    query: TableQuery::AddCol { col_name: extract(q, cs, ce), datatype: dt },
                },
            ),
        ),
        Err(e) => Some(Err(QueryParserError::DataTypeErr(e))),
    }
}

/// The SELECT rule.
fn rule_select(q: &str) -> (r: Option<Result<Query, QueryParserError>>)
    ensures
        match r {
            Some(res) => select_applies(q@) && res_view(res) == select_result(q@),
            None => !select_applies(q@),
        },
{
    if !match_ci_at(q, 0, "select ") {
        return None;
    }
    let n = q.unicode_len();
    let k = "select ".unicode_len();
    let f = match find_last_ci(q, n, " from ") {
        Some(f0) => f0,
        None => {
            return None;
        },
    };
    proof {
        lemma_find_last_ci_bounds(q@, n as int, " from "@);
    }
    if f <= k {
        return None;
    }
    let ts = f + " from ".unicode_len();
    let te = scan(q, ts, CharClass::Token);
    if te <= ts {
        return None;
    }
    let name = extract(q, ts, te);
    let cols = crate::utils::get_cols(q.substring_char(k, f));
    if match_ci_at(q, te, " where ") {
        let cs = te + " where ".unicode_len();
        let ce = scan(q, cs, CharClass::NotLineEnd);
        if ce > cs {
            let cond_txt = q.substring_char(cs, ce);
            return match Condition::parse(cond_txt) {
                Ok(c) => Some(
                    Ok(
                        Query::Table {
                            name,
                            query: TableQuery::Select { cols, condition: Some(c) },
                        },
                    ),
                ),
                Err(e) => Some(Err(e)),
            };
        }
    }
    Some(Ok(Query::Table { name, query: TableQuery::Select { cols, condition: None } }))
}

/// Scan the value tuples of an INSERT statement from position `start` on.
fn scan_row_values(s: &str, start: usize) -> (r: Vec<Vec<String>>)
    requires
        start <= s@.len(),
    ensures
        r.deep_view() == spec_row_values(s@, start as int),
{
    let n = s.unicode_len();
    let mut rows: Vec<Vec<String>> = Vec::new();
    let mut p: usize = start;
    while p < n
        invariant
            start <= p <= n,
            n == s@.len(),
            spec_row_values(s@, start as int) =~= rows.deep_view() + spec_row_values(s@, p as int),
        decreases n - p,
    {
        if s.get_char(p) == '(' {
            let e = scan(s, p + 1, CharClass::RowBody);
            if e > p + 1 && e < n && s.get_char(e) == ')' {
                let row_text = s.substring_char(p, e + 1);
                let row = crate::utils::get_comma_separated_values(row_text);
                let ghost prev = rows.deep_view();
                rows.push(row);
                proof {
                    assert(rows.deep_view() =~= prev.push(
                        spec_csv(s@.subrange(p as int, e as int + 1), 0),
                    ));
                }
                p = e + 1;
            } else {
                p = p + 1;
            }
        } else {
            p = p + 1;
        }
    }
    rows
}

/// The INSERT rule.
fn rule_insert(q: &str) -> (r: Option<Result<Query, QueryParserError>>)
    ensures
        match r {
            Some(res) => insert_applies(q@) && res_view(res) == insert_result(q@),
            None => !insert_applies(q@),
        },
{
    if !match_ci_at(q, 0, "insert into ") {
        return None;
    }
    let n = q.unicode_len();
    let k = "insert into ".unicode_len();
    let te = scan(q, k, CharClass::Token);
    if te <= k {
        return None;
    }
    let vpos = match find_first_ci(q, te, " values") {
        Some(v) => v,
        None => {
            return None;
        },
    };
    proof {
        lemma_find_first_ci_bounds(q@, te as int, " values"@);
    }
    let a = vpos + " values".unicode_len();
    let mut ts: usize = a;
    if a < n && char_in_class(CharClass::Ws, q.get_char(a)) {
        ts = a + 1;
    }
    if !(ts < n && q.get_char(ts) == '(') {
        return None;
    }
    let values = scan_row_values(q, ts);
    if values.len() == 0 {
        proof {
            assert(values.deep_view().len() == 0);
        }
        return None;
    }
    let col_toks = crate::utils::get_comma_separated_values(q.substring_char(te, vpos));
    let cols = if col_toks.len() == 0 {
        proof {
            assert(col_toks.deep_view().len() == 0);
        }
        SelectCols::All
    } else {
        SelectCols::Cols(col_toks)
    };
    Some(
        Ok(
            Query::Table {
                name: extract(q, k, te),
                query: TableQuery::Insert { cols, values },
            },
        ),
    )
}

/// The DELETE rule.
fn rule_delete(q: &str) -> (r: Option<Result<Query, QueryParserError>>)
    ensures
        match r {
            Some(res) => delete_applies(q@) && res_view(res) == delete_result(q@),
            None => !delete_applies(q@),
        },
{
    if !match_ci_at(q, 0, "delete from ") {
        return None;
    }
    let k = "delete from ".unicode_len();
    let te = scan(q, k, CharClass::NotWs);
    if te <= k {
        return None;
    }
    if !match_ci_at(q, te, " where ") {
        return None;
    }
    let n = q.unicode_len();
    let cs = te + " where ".unicode_len();
    let ce = scan(q, cs, CharClass::NotLineEnd);
    if ce <= cs {
        return None;
    }
    let cond_txt = q.substring_char(cs, ce);
    match Condition::parse(cond_txt) {
        Ok(c) => Some(
            Ok(
                Query::Table {
                    name: extract(q, k, te),
                    query: TableQuery::Delete { condition: c },
                },
            ),
        ),
        Err(e) => Some(Err(e)),
    }
}

} // verus!
