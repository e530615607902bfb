//! The table storage engine on its in-memory state: a table owns one schema
//! (an ordered column list with a parallel type list) and one row
//! collection (flat mappings from column name to text value). Persistence
//! of the two documents is the caller's concern; every operation here is a
//! pure state transition with an exact contract.
use vstd::prelude::*;
use vstd::string::*;

use crate::datatype::{
    debug_strings, spec_is_valid, DataType, DataTypeV, DataTypesErr, DataTypesErrV,
};
use crate::query_parser::{Condition, ConditionV, Operator, SelectCols, SelectColsV};
use crate::text::{dec_str, lex_lt, spec_trim, str_eq, str_lex_lt, trim_str, usize_to_string};
use crate::utils::clone_strings;

verus! {

/// A table's structure: an ordered column-name list and a parallel ordered
/// type list; the position binds a name to its type.
#[derive(Debug, PartialEq, Eq)]
pub struct Schema {
    pub cols: Vec<String>,
    pub types: Vec<DataType>,
}

/// The mathematical model of a schema.
pub struct SchemaV {
    pub cols: Seq<Seq<char>>,
    pub types: Seq<DataTypeV>,
}

impl View for Schema {
    type V = SchemaV;

    open spec fn view(&self) -> SchemaV {
        SchemaV { cols: self.cols.deep_view(), types: self.types.deep_view() }
    }
}

/// One row: a flat mapping from column name to text value, held as parallel
/// lists; when a name occurs twice, the later binding wins.
#[derive(Debug, PartialEq, Eq)]
pub struct Row {
    pub cols: Vec<String>,
    pub vals: Vec<String>,
}

/// The mathematical model of a row.
pub struct RowV {
    pub cols: Seq<Seq<char>>,
    pub vals: Seq<Seq<char>>,
}

impl View for Row {
    type V = RowV;

    open spec fn view(&self) -> RowV {
        RowV { cols: self.cols.deep_view(), vals: self.vals.deep_view() }
    }
}

impl DeepView for Row {
    type V = RowV;

    open spec fn deep_view(&self) -> RowV {
        self.view()
    }
}

/// One table: its identity and its in-memory state.
#[derive(Debug, PartialEq, Eq)]
pub struct Table {
    pub db: String,
    pub table_name: String,
    pub schema: Schema,
    pub rows: Vec<Row>,
}

/// The mathematical model of a table.
pub struct TableV {
    pub db: Seq<char>,
    pub table_name: Seq<char>,
    pub schema: SchemaV,
    pub rows: Seq<RowV>,
}

impl View for Table {
    type V = TableV;

    open spec fn view(&self) -> TableV {
        TableV {
            db: self.db@,
            table_name: self.table_name@,
            schema: self.schema@,
            rows: self.rows.deep_view(),
        }
    }
}

/// An error of the storage engine, carrying the offending name or message.
#[derive(Debug, PartialEq, Eq)]
pub enum TableError {
    TableNotFond(String),
    ColNotFound(String),
    ColTypeNotFound(String),
    NumberMismatch(String),
    InvalidValue(DataTypesErr),
}

/// The mathematical model of a storage-engine error.
pub enum TableErrorV {
    TableNotFond(Seq<char>),
    ColNotFound(Seq<char>),
    ColTypeNotFound(Seq<char>),
    NumberMismatch(Seq<char>),
    InvalidValue(DataTypesErrV),
}

impl View for TableError {
    type V = TableErrorV;

    open spec fn view(&self) -> TableErrorV {
        match self {
            TableError::TableNotFond(s) => TableErrorV::TableNotFond(s@),
            TableError::ColNotFound(s) => TableErrorV::ColNotFound(s@),
            TableError::ColTypeNotFound(s) => TableErrorV::ColTypeNotFound(s@),
            TableError::NumberMismatch(s) => TableErrorV::NumberMismatch(s@),
            TableError::InvalidValue(e) => TableErrorV::InvalidValue(e@),
        }
    }
}

/// The value bound to `key` in a row; when a name occurs more than once,
/// the later binding wins, and a key bound beyond the shorter of the two
/// lists is absent.
pub open spec fn spec_lookup(r: RowV, key: Seq<char>) -> Option<Seq<char>>
    decreases r.cols.len(),
{
    if r.cols.len() == 0 || r.vals.len() == 0 {
        None
    } else if r.cols.last() == key {
        Some(r.vals.last())
    } else {
        spec_lookup(RowV { cols: r.cols.drop_last(), vals: r.vals.drop_last() }, key)
    }
}

/// How an operator compares a stored value `v` against the condition value
/// `w`: always by lexicographic string order, whatever the column's
/// declared type.
pub open spec fn spec_cmp(op: Operator, v: Seq<char>, w: Seq<char>) -> bool {
    match op {
        Operator::Eq => v == w,
        Operator::NotEq => v != w,
        Operator::Gt => lex_lt(w, v),
        Operator::Lt => lex_lt(v, w),
        Operator::GtEq => !lex_lt(v, w),
        Operator::LtEq => !lex_lt(w, v),
    }
}

/// Whether a row matches a condition: an absent condition matches every
/// row; a condition whose key the row does not bind matches no row; else
/// the stored text is compared lexicographically under the operator.
pub open spec fn spec_match(cond: Option<ConditionV>, r: RowV) -> bool {
    match cond {
        None => true,
        Some(c) => match spec_lookup(r, c.key) {
            None => false,
            Some(v) => spec_cmp(c.operator, v, c.value),
        },
    }
}

/// The first position of `name` in `cols`, or -1 when absent.
pub open spec fn spec_first_index(cols: Seq<Seq<char>>, name: Seq<char>) -> int
    decreases cols.len(),
{
    if cols.len() == 0 {
        -1
    } else if cols.first() == name {
        0
    } else {
        let r = spec_first_index(cols.drop_first(), name);
        if r == -1 {
            -1
        } else {
            r + 1
        }
    }
}

pub proof fn lemma_first_index_found(cols: Seq<Seq<char>>, name: Seq<char>, i: int)
    requires
        0 <= i < cols.len(),
        forall|k: int| 0 <= k < i ==> cols[k] != name,
        cols[i] == name,
    ensures
        spec_first_index(cols, name) == i,
    decreases i,
{
    if i > 0 {
        let tail = cols.drop_first();
        assert forall|k: int| 0 <= k < i - 1 implies tail[k] != name by {
            assert(tail[k] == cols[k + 1]);
        }
        assert(tail[i - 1] == cols[i]);
        lemma_first_index_found(tail, name, i - 1);
    }
}

pub proof fn lemma_first_index_missing(cols: Seq<Seq<char>>, name: Seq<char>)
    requires
        forall|k: int| 0 <= k < cols.len() ==> cols[k] != name,
    ensures
        spec_first_index(cols, name) == -1,
    decreases cols.len(),
{
    if cols.len() > 0 {
        let tail = cols.drop_first();
        assert forall|k: int| 0 <= k < tail.len() implies tail[k] != name by {
            assert(tail[k] == cols[k + 1]);
        }
        lemma_first_index_missing(tail, name);
    }
}

/// What altering a column's type yields: the type at the column's position
/// is replaced; a name absent from the schema is `ColNotFound`, and a
/// position beyond the type list is `ColTypeNotFound`.
pub open spec fn spec_alter(t: TableV, col: Seq<char>, dt: DataTypeV) -> Result<
    TableV,
    TableErrorV,
> {
    let p = spec_first_index(t.schema.cols, col);
    if p == -1 {
        Err(TableErrorV::ColNotFound(col))
    } else if p >= t.schema.types.len() {
        Err(TableErrorV::ColTypeNotFound(col))
    } else {
        Ok(
            TableV {
                schema: SchemaV { cols: t.schema.cols, types: t.schema.types.update(p, dt) },
                ..t
            },
        )
    }
}

/// What adding a column yields: name and type are appended in lockstep;
/// existing rows are not backfilled with the type's default.
pub open spec fn spec_add_col(t: TableV, col: Seq<char>, dt: DataTypeV) -> TableV {
    TableV {
        schema: SchemaV { cols: t.schema.cols.push(col), types: t.schema.types.push(dt) },
        ..t
    }
}

/// What removing a column yields: the column's position leaves both schema
/// lists; the column's values are not stripped from existing rows.
pub open spec fn spec_remove_col(t: TableV, col: Seq<char>) -> Result<TableV, TableErrorV> {
    let p = spec_first_index(t.schema.cols, col);
    if p == -1 {
        Err(TableErrorV::ColNotFound(col))
    } else if p >= t.schema.types.len() {
        Err(TableErrorV::ColTypeNotFound(col))
    } else {
        Ok(
            TableV {
                schema: SchemaV {
                    cols: t.schema.cols.remove(p),
                    types: t.schema.types.remove(p),
                },
                ..t
            },
        )
    }
}

/// The rows a delete keeps: exactly those that do not match the condition,
/// in their original order.
pub open spec fn spec_delete_rows(rows: Seq<RowV>, c: ConditionV) -> Seq<RowV>
    decreases rows.len(),
{
    if rows.len() == 0 {
        Seq::empty()
    } else {
        let rest = spec_delete_rows(rows.drop_first(), c);
        if spec_match(Some(c), rows.first()) {
            rest
        } else {
            seq![rows.first()] + rest
        }
    }
}

/// The values of one row projected to the selected columns, each column
/// name trimmed before the lookup; a column absent from the row is a hard
/// failure, not a null.
pub open spec fn spec_project_vals(r: RowV, sel: Seq<Seq<char>>) -> Result<
    Seq<Seq<char>>,
    TableErrorV,
>
    decreases sel.len(),
{
    if sel.len() == 0 {
        Ok(Seq::empty())
    } else {
        match spec_lookup(r, spec_trim(sel.first())) {
            None => Err(TableErrorV::ColNotFound(sel.first())),
            Some(v) => match spec_project_vals(r, sel.drop_first()) {
                Ok(rest) => Ok(seq![v] + rest),
                Err(e) => Err(e),
            },
        }
    }
}

/// What a select yields: the rows that match the condition, in order,
/// each projected to the selected columns when the selector is not all.
pub open spec fn spec_select_rows(
    rows: Seq<RowV>,
    cols: SelectColsV,
    cond: Option<ConditionV>,
) -> Result<Seq<RowV>, TableErrorV>
    decreases rows.len(),
{
    if rows.len() == 0 {
        Ok(Seq::empty())
    } else {
        let rest = spec_select_rows(rows.drop_first(), cols, cond);
        if !spec_match(cond, rows.first()) {
            rest
        } else {
            let projected: Result<RowV, TableErrorV> = match cols {
                SelectColsV::All => Ok(rows.first()),
                SelectColsV::Cols(sel) => match spec_project_vals(rows.first(), sel) {
                    Ok(vals) => Ok(RowV { cols: sel, vals }),
                    Err(e) => Err(e),
                },
            };
            match projected {
                Err(e) => Err(e),
                Ok(p) => match rest {
                    Ok(rs) => Ok(seq![p] + rs),
                    Err(e) => Err(e),
                },
            }
        }
    }
}

/// The effective column order of an insert: the caller's subset, or the
/// full schema column list in schema order.
pub open spec fn spec_effective_cols(schema: SchemaV, cols: SelectColsV) -> Seq<Seq<char>> {
    match cols {
        SelectColsV::All => schema.cols,
        SelectColsV::Cols(c) => c,
    }
}

/// The declared types of the effective columns, each looked up at its
/// column's first position in the schema.
pub open spec fn spec_col_types(schema: SchemaV, eff: Seq<Seq<char>>) -> Result<
    Seq<DataTypeV>,
    TableErrorV,
>
    decreases eff.len(),
{
    if eff.len() == 0 {
        Ok(Seq::empty())
    } else {
        let p = spec_first_index(schema.cols, eff.first());
        if p == -1 {
            Err(TableErrorV::ColNotFound(eff.first()))
        } else if p >= schema.types.len() {
            Err(TableErrorV::ColTypeNotFound(eff.first()))
        } else {
            match spec_col_types(schema, eff.drop_first()) {
                Ok(rest) => Ok(seq![schema.types[p]] + rest),
                Err(e) => Err(e),
            }
        }
    }
}

/// The message of an insert whose row arity differs from the column count.
pub open spec fn msg_mismatch(idx: nat, row: Seq<Seq<char>>, rlen: nat, clen: nat) -> Seq<char> {
    "[row = "@ + dec_str(idx) + "]["@ + debug_strings(row) + "] validation expr "@ + dec_str(rlen)
        + " != "@ + dec_str(clen)
}

/// Validate one row's values positionally against the effective columns'
/// types; the first failing value decides.
pub open spec fn spec_validate_vals(vals: Seq<Seq<char>>, types: Seq<DataTypeV>) -> Result<
    (),
    DataTypesErrV,
>
    decreases vals.len(),
{
    if vals.len() == 0 || types.len() == 0 {
        Ok(())
    } else {
        match spec_is_valid(types.first(), vals.first()) {
            Err(e) => Err(e),
            Ok(u) => spec_validate_vals(vals.drop_first(), types.drop_first()),
        }
    }
}

/// Check every supplied row: the arity must equal the effective column
/// count exactly, and each value must validate against its column's type.
pub open spec fn spec_check_rows(
    values: Seq<Seq<Seq<char>>>,
    clen: nat,
    types: Seq<DataTypeV>,
    idx: nat,
) -> Result<(), TableErrorV>
    decreases values.len(),
{
    if values.len() == 0 {
        Ok(())
    } else if values.first().len() != clen {
        Err(
            TableErrorV::NumberMismatch(
                msg_mismatch(idx, values.first(), values.first().len(), clen),
            ),
        )
    } else {
        match spec_validate_vals(values.first(), types) {
            Err(e) => Err(TableErrorV::InvalidValue(e)),
            Ok(u) => spec_check_rows(values.drop_first(), clen, types, idx + 1),
        }
    }
}

/// What an insert yields: the effective columns are resolved and typed,
/// every row is checked, and the validated rows are mapped positionally
/// onto the column names and appended to the existing rows.
pub open spec fn spec_insert(t: TableV, cols: SelectColsV, values: Seq<Seq<Seq<char>>>) -> Result<
    TableV,
    TableErrorV,
> {
    let eff = spec_effective_cols(t.schema, cols);
    match spec_col_types(t.schema, eff) {
        Err(e) => Err(e),
        Ok(types) => match spec_check_rows(values, eff.len(), types, 0) {
            Err(e) => Err(e),
            Ok(u) => Ok(
                TableV {
                    rows: t.rows + values.map_values(|v: Seq<Seq<char>>| RowV { cols: eff, vals: v }),
                    ..t
                },
            ),
        },
    }
}

/// The value bound to `key` in `row`, scanning from the latest binding.
fn row_get<'a>(row: &'a Row, key: &str) -> (r: Option<&'a String>)
    ensures
        match r {
            Some(v) => spec_lookup(row@, key@) == Some(v@),
            None => spec_lookup(row@, key@) is None,
        },
{
    let mut ci: usize = row.cols.len();
    let mut vi: usize = row.vals.len();
    proof {
        assert(row@.cols.take(row.cols.len() as int) =~= row@.cols);
        assert(row@.vals.take(row.vals.len() as int) =~= row@.vals);
        assert((RowV { cols: row@.cols, vals: row@.vals }) == row@);
    }
    loop
        invariant
            ci <= row.cols.len(),
            vi <= row.vals.len(),
            spec_lookup(row@, key@) == spec_lookup(
                RowV {
                    cols: row@.cols.take(ci as int),
                    vals: row@.vals.take(vi as int),
                },
                key@,
            ),
        decreases ci,
    {
        if ci == 0 || vi == 0 {
            return None;
        }
        proof {
            assert(row@.cols.take(ci as int).last() == row.cols.deep_view()[ci - 1]);
            assert(row.cols.deep_view()[ci - 1] == row.cols@[ci - 1]@);
            assert(row@.vals.take(vi as int).last() == row.vals@[vi - 1]@);
            assert(row@.cols.take(ci as int).drop_last() =~= row@.cols.take(ci - 1));
            assert(row@.vals.take(vi as int).drop_last() =~= row@.vals.take(vi - 1));
        }
        if str_eq(row.cols[ci - 1].as_str(), key) {
            return Some(&row.vals[vi - 1]);
        }
        ci = ci - 1;
        vi = vi - 1;
    }
}

/// Compare a stored value against a condition value under an operator.
fn cmp_values(op: Operator, v: &str, w: &str) -> (b: bool)
    ensures
        b == spec_cmp(op, v@, w@),
{
    match op {
        Operator::Eq => str_eq(v, w),
        Operator::NotEq => !str_eq(v, w),
        Operator::Gt => str_lex_lt(w, v),
        Operator::Lt => str_lex_lt(v, w),
        Operator::GtEq => !str_lex_lt(v, w),
        Operator::LtEq => !str_lex_lt(w, v),
    }
}

/// The first position of `name` among `cols`, or `None` when absent.
fn first_index_str(cols: &Vec<String>, name: &str) -> (r: Option<usize>)
    ensures
        match r {
            Some(i) => spec_first_index(cols.deep_view(), name@) == i as int && i < cols.len(),
            None => spec_first_index(cols.deep_view(), name@) == -1,
        },
{
    let mut i: usize = 0;
    while i < cols.len()
        invariant
            0 <= i <= cols.len(),
            forall|k: int| 0 <= k < i ==> cols.deep_view()[k] != name@,
        decreases cols.len() - i,
    {
        proof {
            assert(cols.deep_view()[i as int] == cols@[i as int]@);
        }
        if str_eq(cols[i].as_str(), name) {
            proof {
                lemma_first_index_found(cols.deep_view(), name@, i as int);
            }
            return Some(i);
        }
        i = i + 1;
    }
    proof {
        lemma_first_index_missing(cols.deep_view(), name@);
    }
    None
}

/// Copy a row; the copy has the same view.
fn clone_row(r: &Row) -> (c: Row)
    ensures
        c@ == r@,
{
    Row { cols: clone_strings(&r.cols), vals: clone_strings(&r.vals) }
}

impl Table {
    /// A fresh in-memory table of the given identity, with an empty schema
    /// and no rows.
    pub fn new(db: String, table_name: String) -> (t: Table)
        ensures
            t@.db == db@,
            t@.table_name == table_name@,
            t@.schema.cols.len() == 0,
            t@.schema.types.len() == 0,
            t@.rows.len() == 0,
    {
        Table {
            db,
            table_name,
            schema: Schema { cols: Vec::new(), types: Vec::new() },
            rows: Vec::new(),
        }
    }

    /// Set this table to the given schema with no rows, unconditionally
    /// overwriting any previous state; the schema that comes out is exactly
    /// the column and type lists that went in.
    pub fn create(&mut self, cols: Vec<String>, types: Vec<DataType>)
        ensures
            final(self)@ == (TableV {
                schema: SchemaV { cols: cols.deep_view(), types: types.deep_view() },
                rows: Seq::<RowV>::empty(),
                ..old(self)@
            }),
    {
        self.schema = Schema { cols, types };
        self.rows = Vec::new();
        proof {
            assert(self.rows.deep_view() =~= Seq::<RowV>::empty());
        }
    }

    /// Empty the row collection, leaving the schema untouched.
    pub fn truncate(&mut self)
        ensures
            final(self)@ == (TableV { rows: Seq::<RowV>::empty(), ..old(self)@ }),
    {
        self.rows = Vec::new();
        proof {
            assert(self.rows.deep_view() =~= Seq::<RowV>::empty());
        }
    }

    /// Append a column name and its type to the schema in lockstep; the
    /// rows are not backfilled.
    pub fn add_col(&mut self, col_name: String, datatype: DataType)
        ensures
            final(self)@ == spec_add_col(old(self)@, col_name@, datatype@),
    {
        let ghost prev_cols = self.schema.cols.deep_view();
        let ghost prev_types = self.schema.types.deep_view();
        let ghost cv = col_name@;
        let ghost dv = datatype@;
        self.schema.cols.push(col_name);
        self.schema.types.push(datatype);
        proof {
            assert(self.schema.cols.deep_view() =~= prev_cols.push(cv));
            assert(self.schema.types.deep_view() =~= prev_types.push(dv));
        }
    }

    /// Replace the type at the named column's position, as `spec_alter`
    /// describes; on an error the table is unchanged.
    pub fn alter(&mut self, col_name: &str, datatype: DataType) -> (r: Result<(), TableError>)
        ensures
            match r {
                Ok(u) => spec_alter(old(self)@, col_name@, datatype@) == Ok::<
                    TableV,
                    TableErrorV,
                >(final(self)@),
                Err(e) => spec_alter(old(self)@, col_name@, datatype@) == Err::<
                    TableV,
                    TableErrorV,
                >(e@) && final(self)@ == old(self)@,
            },
    {
        match first_index_str(&self.schema.cols, col_name) {
            None => Err(TableError::ColNotFound(String::from_str(col_name))),
            Some(p) => {
                if p >= self.schema.types.len() {
                    Err(TableError::ColTypeNotFound(String::from_str(col_name)))
                } else {
                    let ghost prev_types = self.schema.types.deep_view();
                    let ghost dv = datatype@;
                    self.schema.types.set(p, datatype);
                    proof {
                        assert(self.schema.types.deep_view() =~= prev_types.update(p as int, dv));
                    }
                    Ok(())
                }
            },
        }
    }

    /// Remove the named column's position from both schema lists, as
    /// `spec_remove_col` describes; the rows keep the column's values.
    pub fn remove_col(&mut self, col_name: &str) -> (r: Result<(), TableError>)
        ensures
            match r {
                Ok(u) => spec_remove_col(old(self)@, col_name@) == Ok::<TableV, TableErrorV>(
                    final(self)@,
                ),
                Err(e) => spec_remove_col(old(self)@, col_name@) == Err::<TableV, TableErrorV>(e@)
                    && final(self)@ == old(self)@,
            },
    {
        match first_index_str(&self.schema.cols, col_name) {
            None => Err(TableError::ColNotFound(String::from_str(col_name))),
            Some(p) => {
                if p >= self.schema.types.len() {
                    Err(TableError::ColTypeNotFound(String::from_str(col_name)))
                } else {
                    let ghost prev_cols = self.schema.cols.deep_view();
                    let ghost prev_types = self.schema.types.deep_view();
                    self.schema.cols.remove(p);
                    self.schema.types.remove(p);
                    proof {
                        assert(self.schema.cols.deep_view() =~= prev_cols.remove(p as int));
                        assert(self.schema.types.deep_view() =~= prev_types.remove(p as int));
                    }
                    Ok(())
                }
            },
        }
    }

    /// Whether a row matches a condition, exactly as `spec_match` says: an
    /// absent condition matches everything, an absent key matches nothing,
    /// and all six operators compare the stored text lexicographically.
    pub fn match_query(condition: &Option<Condition>, row: &Row) -> (b: bool)
        ensures
            b == spec_match(
                match condition {
                    Some(c) => Some(c@),
                    None => None,
                },
                row@,
            ),
    {
        match condition {
            None => true,
            Some(c) => match row_get(row, c.key.as_str()) {
                None => false,
                Some(v) => cmp_values(c.operator, v.as_str(), c.value.as_str()),
            },
        }
    }

    /// Remove every row that matches the condition, keeping the others in
    /// their original order.
    pub fn delete(&mut self, condition: Condition)
        ensures
            final(self)@ == (TableV {
                rows: spec_delete_rows(old(self)@.rows, condition@),
                ..old(self)@
            }),
    {
        let opt: Option<Condition> = Some(condition);
        let ghost all = self.rows.deep_view();
        let ghost cv = match &opt {
            Some(c) => c@,
            None => arbitrary(),
        };
        let mut kept: Vec<Row> = Vec::new();
        let mut i: usize = 0;
        proof {
            assert(all.skip(0) =~= all);
            assert(Seq::<RowV>::empty() + spec_delete_rows(all, cv) =~= spec_delete_rows(all, cv));
        }
        while i < self.rows.len()
            invariant
                0 <= i <= self.rows.len(),
                all == self.rows.deep_view(),
                opt matches Some(c) && c@ == cv,
                spec_delete_rows(all, cv) =~= kept.deep_view() + spec_delete_rows(
                    all.skip(i as int),
                    cv,
                ),
            decreases self.rows.len() - i,
        {
            proof {
                assert(all.skip(i as int).first() == all[i as int]);
                assert(all.skip(i as int).drop_first() =~= all.skip(i + 1));
                assert(all[i as int] == self.rows@[i as int]@);
            }
            if !Table::match_query(&opt, &self.rows[i]) {
                let ghost prev = kept.deep_view();
                kept.push(clone_row(&self.rows[i]));
                proof {
                    assert(kept.deep_view() =~= prev.push(all[i as int]));
                    assert(prev + (seq![all[i as int]] + spec_delete_rows(all.skip(i + 1), cv))
                        =~= prev.push(all[i as int]) + spec_delete_rows(all.skip(i + 1), cv));
                }
            }
            i = i + 1;
        }
        proof {
            assert(all.skip(self.rows.len() as int) =~= Seq::<RowV>::empty());
            assert(spec_delete_rows(all, cv) =~= kept.deep_view());
        }
        self.rows = kept;
    }

    /// The rows that match the condition, projected to the selected
    /// columns, as `spec_select_rows` describes; the table is unchanged.
    pub fn select(&self, cols: SelectCols, condition: Option<Condition>) -> (r: Result<
        Vec<Row>,
        TableError,
    >)
        ensures
            match r {
                Ok(rows) => spec_select_rows(
                    self@.rows,
                    cols@,
                    match condition {
                        Some(c) => Some(c@),
                        None => None,
                    },
                ) == Ok::<Seq<RowV>, TableErrorV>(rows.deep_view()),
                Err(e) => spec_select_rows(
                    self@.rows,
                    cols@,
                    match condition {
                        Some(c) => Some(c@),
                        None => None,
                    },
                ) == Err::<Seq<RowV>, TableErrorV>(e@),
            },
    {
        let ghost all = self.rows.deep_view();
        let ghost cv: Option<ConditionV> = match &condition {
            Some(c) => Some(c@),
            None => None,
        };
        let ghost colsv = cols@;
        let mut out: Vec<Row> = Vec::new();
        let mut i: usize = 0;
        proof {
            assert(all.skip(0) =~= all);
            if let Ok(whole) = spec_select_rows(all, colsv, cv) {
                assert(Seq::<RowV>::empty() + whole =~= whole);
            }
        }
        while i < self.rows.len()
            invariant
                0 <= i <= self.rows.len(),
                all == self.rows.deep_view(),
                colsv == cols@,
                cv == (match condition {
                    Some(c) => Some(c@),
                    None => None,
                }),
                spec_select_rows(all, colsv, cv) == (match spec_select_rows(
                    all.skip(i as int),
                    colsv,
                    cv,
                ) {
                    Ok(rest) => Ok::<Seq<RowV>, TableErrorV>(out.deep_view() + rest),
                    Err(e) => Err::<Seq<RowV>, TableErrorV>(e),
                }),
            decreases self.rows.len() - i,
        {
            proof {
                assert(all.skip(i as int).first() == all[i as int]);
                assert(all.skip(i as int).drop_first() =~= all.skip(i + 1));
                assert(all[i as int] == self.rows@[i as int]@);
            }
            if Table::match_query(&condition, &self.rows[i]) {
                match &cols {
                    SelectCols::All => {
                        let ghost prev = out.deep_view();
                        out.push(clone_row(&self.rows[i]));
                        proof {
                            assert(out.deep_view() =~= prev.push(all[i as int]));
                            if let Ok(rest) = spec_select_rows(all.skip(i + 1), colsv, cv) {
                                assert(prev + (seq![all[i as int]] + rest) =~= prev.push(
                                    all[i as int],
                                ) + rest);
                            }
                        }
                    },
                    SelectCols::Cols(sel) => {
                        match project_row(&self.rows[i], sel) {
                            Ok(row) => {
                                let ghost prev = out.deep_view();
                                let ghost proj = row@;
                                out.push(row);
                                proof {
                                    assert(out.deep_view() =~= prev.push(proj));
                                    assert((RowV { cols: proj.cols, vals: proj.vals }) == proj);
                                    if let Ok(rest) = spec_select_rows(all.skip(i + 1), colsv, cv) {
                                        assert(prev + (seq![proj] + rest) =~= prev.push(proj)
                                            + rest);
                                    }
                                }
                            },
                            Err(e) => {
                                return Err(e);
                            },
                        }
                    },
                }
            }
            i = i + 1;
        }
        proof {
            assert(all.skip(self.rows.len() as int) =~= Seq::<RowV>::empty());
            assert(out.deep_view() + Seq::<RowV>::empty() =~= out.deep_view());
        }
        Ok(out)
    }

    /// Validate and append the supplied rows, as `spec_insert` describes:
    /// the effective column order is resolved against the schema, each row
    /// must have exactly as many values as there are effective columns,
    /// each value must validate against its column's declared type, and the
    /// validated rows are appended in order; on an error the table is
    /// unchanged.
    #[verifier::loop_isolation(false)]
    pub fn insert(&mut self, cols: SelectCols, values: Vec<Vec<String>>) -> (r: Result<
        (),
        TableError,
    >)
        ensures
            match r {
                Ok(u) => spec_insert(old(self)@, cols@, values.deep_view()) == Ok::<
                    TableV,
                    TableErrorV,
                >(final(self)@),
                Err(e) => spec_insert(old(self)@, cols@, values.deep_view()) == Err::<
                    TableV,
                    TableErrorV,
                >(e@) && final(self)@ == old(self)@,
            },
    {
        let eff: Vec<String> = match &cols {
            SelectCols::Cols(c) => clone_strings(c),
            SelectCols::All => clone_strings(&self.schema.cols),
        };
        let ghost effv = spec_effective_cols(old(self)@.schema, cols@);
        proof {
            assert(eff.deep_view() == effv);
        }
        // resolve each effective column's declared type by its position
        let mut type_ix: Vec<usize> = Vec::new();
        let mut j: usize = 0;
        proof {
            assert(effv.skip(0) =~= effv);
            if let Ok(whole) = spec_col_types(old(self)@.schema, effv) {
                assert(Seq::new(0, |k: int| old(self)@.schema.types[type_ix@[k] as int]) + whole
                    =~= whole);
            }
        }
        while j < eff.len()
            invariant
                0 <= j <= eff.len(),
                effv == eff.deep_view(),
                self == old(self),
                type_ix.len() == j,
                spec_col_types(old(self)@.schema, effv) == (match spec_col_types(
                    old(self)@.schema,
                    effv.skip(j as int),
                ) {
                    Ok(rest) => Ok::<Seq<DataTypeV>, TableErrorV>(
                        Seq::new(j as nat, |k: int| old(self)@.schema.types[type_ix@[k] as int])
                            + rest,
                    ),
                    Err(e) => Err::<Seq<DataTypeV>, TableErrorV>(e),
                }),
                forall|k: int|
                    0 <= k < j ==> (type_ix@[k] as int) < old(self)@.schema.types.len(),
            decreases eff.len() - j,
        {
            proof {
                assert(effv.skip(j as int).first() == effv[j as int]);
                assert(effv.skip(j as int).drop_first() =~= effv.skip(j + 1));
                assert(effv[j as int] == eff@[j as int]@);
            }
            match first_index_str(&self.schema.cols, eff[j].as_str()) {
                None => {
                    proof {
                        assert(spec_col_types(old(self)@.schema, effv.skip(j as int)) == Err::<
                            Seq<DataTypeV>,
                            TableErrorV,
                        >(TableErrorV::ColNotFound(effv[j as int])));
                    }
                    return Err(TableError::ColNotFound(eff[j].clone()));
                },
                Some(p) => {
                    if p >= self.schema.types.len() {
                        proof {
                            assert(spec_col_types(old(self)@.schema, effv.skip(j as int)) == Err::<
                                Seq<DataTypeV>,
                                TableErrorV,
                            >(TableErrorV::ColTypeNotFound(effv[j as int])));
                        }
                        return Err(TableError::ColTypeNotFound(eff[j].clone()));
                    }
                    let ghost prev = type_ix@;
                    type_ix.push(p);
                    proof {
                        let schema = old(self)@.schema;
                        let f_old = Seq::new(
                            j as nat,
                            |k: int| schema.types[prev[k] as int],
                        );
                        let f_new = Seq::new(
                            (j + 1) as nat,
                            |k: int| schema.types[type_ix@[k] as int],
                        );
                        assert(f_new =~= f_old.push(schema.types[p as int]));
                        assert(Seq::new(j as nat, |k: int| schema.types[type_ix@[k] as int])
                            =~= f_old);
                        if let Ok(rest) = spec_col_types(schema, effv.skip(j + 1)) {
                            assert(f_old + (seq![schema.types[p as int]] + rest) =~= f_new + rest);
                        }
                    }
                },
            }
            j = j + 1;
        }
        proof {
            assert(effv.skip(eff.len() as int) =~= Seq::<Seq<char>>::empty());
        }
        let ghost typesv = Seq::new(
            eff.len() as nat,
            |k: int| old(self)@.schema.types[type_ix@[k] as int],
        );
        proof {
            assert(typesv + Seq::<DataTypeV>::empty() =~= typesv);
            assert(spec_col_types(old(self)@.schema, effv) == Ok::<Seq<DataTypeV>, TableErrorV>(
                typesv,
            ));
        }
        // check every row: arity, then each value against its column type
        let mut i: usize = 0;
        proof {
            assert(values.deep_view().skip(0) =~= values.deep_view());
        }
        while i < values.len()
            invariant
                0 <= i <= values.len(),
                self == old(self),
                effv == eff.deep_view(),
                eff.len() == effv.len(),
                type_ix.len() == eff.len(),
                typesv == Seq::new(
                    eff.len() as nat,
                    |k: int| old(self)@.schema.types[type_ix@[k] as int],
                ),
                forall|k: int|
                    0 <= k < type_ix.len() ==> (type_ix@[k] as int)
                        < old(self)@.schema.types.len(),
                spec_check_rows(values.deep_view(), effv.len(), typesv, 0) == spec_check_rows(
                    values.deep_view().skip(i as int),
                    effv.len(),
                    typesv,
                    i as nat,
                ),
            decreases values.len() - i,
        {
            let ghost vrows = values.deep_view();
            proof {
                assert(vrows.skip(i as int).first() == vrows[i as int]);
                assert(vrows.skip(i as int).drop_first() =~= vrows.skip(i + 1));
                assert(vrows[i as int] == values@[i as int].deep_view());
            }
            if values[i].len() != eff.len() {
                let mut m = String::from_str("[row = ");
                let d1 = usize_to_string(i);
                m.append(d1.as_str());
                m.append("][");
                let dbg = crate::datatype::quote_join(&values[i]);
                m.append(dbg.as_str());
                m.append("] validation expr ");
                let d2 = usize_to_string(values[i].len());
                m.append(d2.as_str());
                m.append(" != ");
                let d3 = usize_to_string(eff.len());
                m.append(d3.as_str());
                proof {
                    assert(m@ =~= msg_mismatch(
                        i as nat,
                        vrows[i as int],
                        vrows[i as int].len(),
                        effv.len(),
                    ));
                    assert(spec_check_rows(vrows.skip(i as int), effv.len(), typesv, i as nat)
                        == Err::<(), TableErrorV>(
                        TableErrorV::NumberMismatch(
                            msg_mismatch(i as nat, vrows[i as int], vrows[i as int].len(), effv.len()),
                        ),
                    ));
                }
                return Err(TableError::NumberMismatch(m));
            }
            // validate the row's values in order
            let row = &values[i];
            let mut k: usize = 0;
            proof {
                assert(values.deep_view()[i as int].skip(0) =~= values.deep_view()[i as int]);
                assert(typesv.skip(0) =~= typesv);
            }
            while k < row.len()
                invariant
                    0 <= k <= row.len(),
                    row == &values@[i as int],
                    0 <= i < values.deep_view().len(),
                    row.len() == typesv.len(),
                    typesv == Seq::new(
                        type_ix.len() as nat,
                        |k2: int| old(self)@.schema.types[type_ix@[k2] as int],
                    ),
                    type_ix.len() == row.len(),
                    self == old(self),
                    forall|k2: int|
                        0 <= k2 < type_ix.len() ==> (type_ix@[k2] as int)
                            < old(self)@.schema.types.len(),
                    spec_validate_vals(values.deep_view()[i as int], typesv) == spec_validate_vals(
                        values.deep_view()[i as int].skip(k as int),
                        typesv.skip(k as int),
                    ),
                decreases row.len() - k,
            {
                let ghost rv = values.deep_view()[i as int];
                proof {
                    assert(rv.skip(k as int).first() == rv[k as int]);
                    assert(rv.skip(k as int).drop_first() =~= rv.skip(k + 1));
                    assert(typesv.skip(k as int).first() == typesv[k as int]);
                    assert(typesv.skip(k as int).drop_first() =~= typesv.skip(k + 1));
                    assert(rv[k as int] == values@[i as int]@[k as int]@);
                }
                let tix = type_ix[k];
                match self.schema.types[tix].is_valid(row[k].as_str()) {
                    Ok(u) => {},
                    Err(e) => {
                        proof {
                            assert(self.schema.types.deep_view()[tix as int] == self.schema.types@[
                                tix as int]@);
                            assert(typesv[k as int] == old(self)@.schema.types[tix as int]);
                            assert(spec_validate_vals(rv.skip(k as int), typesv.skip(k as int))
                                == Err::<(), DataTypesErrV>(e@));
                            let vrows = values.deep_view();
                            assert(vrows.skip(i as int).first() == vrows[i as int]);
                            assert(spec_check_rows(vrows.skip(i as int), typesv.len(), typesv, i as nat)
                                == Err::<(), TableErrorV>(TableErrorV::InvalidValue(e@)));
                        }
                        return Err(TableError::InvalidValue(e));
                    },
                }
                k = k + 1;
            }
            proof {
                let rv = values.deep_view()[i as int];
                assert(rv.skip(row.len() as int) =~= Seq::<Seq<char>>::empty());
                assert(typesv.skip(row.len() as int) =~= Seq::<DataTypeV>::empty());
                assert(spec_validate_vals(rv, typesv) is Ok);
            }
            i = i + 1;
        }
        proof {
            assert(values.deep_view().skip(values.len() as int) =~= Seq::<Seq<Seq<char>>>::empty());
            assert(spec_check_rows(values.deep_view(), effv.len(), typesv, 0) is Ok);
        }
        // append the validated rows, mapped positionally onto the columns
        let ghost prev_rows = self.rows.deep_view();
        let mut i2: usize = 0;
        proof {
            let mapped = values.deep_view().map_values(
                |v: Seq<Seq<char>>| RowV { cols: effv, vals: v },
            );
            assert(mapped.take(0) =~= Seq::<RowV>::empty());
            assert(prev_rows + mapped.take(0) =~= prev_rows);
        }
        while i2 < values.len()
            invariant
                0 <= i2 <= values.len(),
                effv == eff.deep_view(),
                self.db == old(self).db,
                self.table_name == old(self).table_name,
                self.schema == old(self).schema,
                prev_rows == old(self).rows.deep_view(),
                self.rows.deep_view() =~= prev_rows + values.deep_view().map_values(
                    |v: Seq<Seq<char>>| RowV { cols: effv, vals: v },
                ).take(i2 as int),
            decreases values.len() - i2,
        {
            let ghost prev = self.rows.deep_view();
            let new_row = Row { cols: clone_strings(&eff), vals: clone_strings(&values[i2]) };
            proof {
                assert(new_row@ == RowV { cols: effv, vals: values.deep_view()[i2 as int] });
                assert(values.deep_view()[i2 as int] == values@[i2 as int].deep_view());
            }
            self.rows.push(new_row);
            proof {
                let mapped = values.deep_view().map_values(
                    |v: Seq<Seq<char>>| RowV { cols: effv, vals: v },
                );
                assert(self.rows.deep_view() =~= prev.push(mapped[i2 as int]));
                assert(mapped.take(i2 + 1) =~= mapped.take(i2 as int).push(mapped[i2 as int]));
            }
            i2 = i2 + 1;
        }
        proof {
            let mapped = values.deep_view().map_values(
                |v: Seq<Seq<char>>| RowV { cols: effv, vals: v },
            );
            assert(mapped.take(values.len() as int) =~= mapped);
            assert(self.rows.deep_view() =~= prev_rows + mapped);
        }
        Ok(())
    }
}

/// Project one row onto the selected columns, as `spec_project_vals`
/// describes.
fn project_row(row: &Row, sel: &Vec<String>) -> (r: Result<Row, TableError>)
    ensures
        match r {
            Ok(p) => spec_project_vals(row@, sel.deep_view()) == Ok::<
                Seq<Seq<char>>,
                TableErrorV,
            >(p@.vals) && p@.cols == sel.deep_view(),
            Err(e) => spec_project_vals(row@, sel.deep_view()) == Err::<
                Seq<Seq<char>>,
                TableErrorV,
            >(e@),
        },
{
    let ghost selv = sel.deep_view();
    let mut vals: Vec<String> = Vec::new();
    let mut j: usize = 0;
    proof {
        assert(selv.skip(0) =~= selv);
        if let Ok(whole) = spec_project_vals(row@, selv) {
            assert(Seq::<Seq<char>>::empty() + whole =~= whole);
        }
    }
    while j < sel.len()
        invariant
            0 <= j <= sel.len(),
            selv == sel.deep_view(),
            spec_project_vals(row@, selv) == (match spec_project_vals(
                row@,
                selv.skip(j as int),
            ) {
                Ok(rest) => Ok::<Seq<Seq<char>>, TableErrorV>(vals.deep_view() + rest),
                Err(e) => Err::<Seq<Seq<char>>, TableErrorV>(e),
            }),
        decreases sel.len() - j,
    {
        proof {
            assert(selv.skip(j as int).first() == selv[j as int]);
            assert(selv.skip(j as int).drop_first() =~= selv.skip(j + 1));
            assert(selv[j as int] == sel@[j as int]@);
        }
        let trimmed = trim_str(sel[j].as_str());
        match row_get(row, trimmed) {
            None => {
                return Err(TableError::ColNotFound(sel[j].clone()));
            },
            Some(v) => {
                let ghost prev = vals.deep_view();
                let ghost vv = v@;
                vals.push(v.clone());
                proof {
                    assert(vals.deep_view() =~= prev.push(vv));
                    if let Ok(rest) = spec_project_vals(row@, selv.skip(j + 1)) {
                        assert(prev + (seq![vv] + rest) =~= prev.push(vv) + rest);
                    }
                }
            },
        }
        j = j + 1;
    }
    proof {
        assert(selv.skip(sel.len() as int) =~= Seq::<Seq<char>>::empty());
        assert(vals.deep_view() + Seq::<Seq<char>>::empty() =~= vals.deep_view());
    }
    Ok(Row { cols: clone_strings(sel), vals })
}

/// Adding a fresh column and then removing it restores the schema's column
/// and type lists exactly, on any well-formed schema: schema-level
/// idempotence of `add_col` followed by `remove_col`. The column must be
/// fresh, for removal strikes the first occurrence of the name.
pub proof fn lemma_add_then_remove_col(t: TableV, col: Seq<char>, dt: DataTypeV)
    requires
        t.schema.cols.len() == t.schema.types.len(),
        forall|k: int| 0 <= k < t.schema.cols.len() ==> t.schema.cols[k] != col,
    ensures
        spec_remove_col(spec_add_col(t, col, dt), col) == Ok::<TableV, TableErrorV>(t),
{
    let added = spec_add_col(t, col, dt);
    let n = t.schema.cols.len() as int;
    lemma_first_index_found(added.schema.cols, col, n);
    assert(added.schema.cols.remove(n) =~= t.schema.cols);
    assert(added.schema.types.remove(n) =~= t.schema.types);
    assert((SchemaV { cols: t.schema.cols, types: t.schema.types }) == t.schema);
    assert((TableV { schema: t.schema, ..added }) == t);
}

/// A delete whose condition key is absent from a row keeps that row: the
/// row is treated as non-matching, not as an error.
pub proof fn lemma_delete_keeps_missing_key(rows: Seq<RowV>, c: ConditionV, i: int)
    requires
        0 <= i < rows.len(),
        spec_lookup(rows[i], c.key) is None,
    ensures
        spec_delete_rows(rows, c).contains(rows[i]),
    decreases rows.len(),
{
    let rest = spec_delete_rows(rows.drop_first(), c);
    if i == 0 {
        assert(!spec_match(Some(c), rows.first()));
        assert(spec_delete_rows(rows, c) == seq![rows.first()] + rest);
        assert(spec_delete_rows(rows, c)[0] == rows[0]);
    } else {
        assert(rows.drop_first()[i - 1] == rows[i]);
        lemma_delete_keeps_missing_key(rows.drop_first(), c, i - 1);
        let j = choose|j: int| 0 <= j < rest.len() && rest[j] == rows[i];
        if spec_match(Some(c), rows.first()) {
            assert(spec_delete_rows(rows, c)[j] == rows[i]);
        } else {
            assert(spec_delete_rows(rows, c)[j + 1] == rows[i]);
        }
    }
}

} // verus!
