//! The database directory manager on its in-memory state: the set of
//! existing database names and the current-database pointer. The caller
//! keeps this catalog in step with the directory tree and persists the
//! pointer; every decision — duplicate guard, existence checks, pointer
//! validity — is made here with an exact contract.
use vstd::prelude::*;
use vstd::string::*;

use crate::datatype::spec_find_dot;
use crate::table::{lemma_first_index_found, spec_first_index};
use crate::text::{extract, match_exact_at, str_eq, exact_match};
use crate::utils::clone_strings;

verus! {

/// An error of the directory manager, carrying the offending name.
#[derive(Debug, PartialEq, Eq)]
pub enum DatabaseError {
    DuplicatedDB(String),
    NotFound(String),
}

/// The mathematical model of a directory-manager error.
pub enum DatabaseErrorV {
    DuplicatedDB(Seq<char>),
    NotFound(Seq<char>),
}

impl View for DatabaseError {
    type V = DatabaseErrorV;

    open spec fn view(&self) -> DatabaseErrorV {
        match self {
            DatabaseError::DuplicatedDB(s) => DatabaseErrorV::DuplicatedDB(s@),
            DatabaseError::NotFound(s) => DatabaseErrorV::NotFound(s@),
        }
    }
}

/// The catalog: the names of the existing databases, in creation order, and
/// the current-database pointer. The pointer may dangle after a drop; every
/// read of it re-validates existence.
#[derive(Debug, PartialEq, Eq)]
pub struct Database {
    pub dbs: Vec<String>,
    pub curr: Option<String>,
}

/// The mathematical model of the catalog.
pub struct DatabaseV {
    pub dbs: Seq<Seq<char>>,
    pub curr: Option<Seq<char>>,
}

impl View for Database {
    type V = DatabaseV;

    open spec fn view(&self) -> DatabaseV {
        DatabaseV {
            dbs: self.dbs.deep_view(),
            curr: match &self.curr {
                Some(c) => Some(c@),
                None => None,
            },
        }
    }
}

/// Whether a database of this name exists in the catalog.
pub open spec fn spec_db_exists(d: DatabaseV, name: Seq<char>) -> bool {
    exists|i: int| 0 <= i < d.dbs.len() && d.dbs[i] == name
}

/// Whether `f` ends with `suffix`.
pub open spec fn ends_with(f: Seq<char>, suffix: Seq<char>) -> bool {
    f.len() >= suffix.len() && exact_match(f, f.len() - suffix.len(), suffix)
}

/// The table names a directory listing shows: the files whose name ends in
/// the schema-document suffix, each cut at its first dot.
pub open spec fn spec_table_names(files: Seq<Seq<char>>) -> Seq<Seq<char>>
    decreases files.len(),
{
    if files.len() == 0 {
        Seq::empty()
    } else {
        let rest = spec_table_names(files.drop_first());
        if ends_with(files.first(), "schema.json"@) {
            seq![files.first().subrange(0, spec_find_dot(files.first(), 0))] + rest
        } else {
            rest
        }
    }
}

impl Database {
    /// An empty catalog: no databases, no current-database pointer.
    pub fn init() -> (d: Database)
        ensures
            d@.dbs.len() == 0,
            d@.curr is None,
    {
        Database { dbs: Vec::new(), curr: None }
    }

    /// Whether a database of this name exists.
    pub fn exists_db(&self, name: &str) -> (b: bool)
        ensures
            b == spec_db_exists(self@, name@),
    {
        let mut i: usize = 0;
        while i < self.dbs.len()
            invariant
                0 <= i <= self.dbs.len(),
                forall|k: int| 0 <= k < i ==> self@.dbs[k] != name@,
            decreases self.dbs.len() - i,
        {
            proof {
                assert(self@.dbs[i as int] == self.dbs@[i as int]@);
            }
            if str_eq(self.dbs[i].as_str(), name) {
                return true;
            }
            i = i + 1;
        }
        false
    }

    /// `Ok` exactly when a database of this name exists; otherwise the
    /// name is reported as not found.
    pub fn exists_or_err(&self, name: &str) -> (r: Result<(), DatabaseError>)
        ensures
            match r {
                Ok(u) => spec_db_exists(self@, name@),
                Err(e) => !spec_db_exists(self@, name@) && e@ == DatabaseErrorV::NotFound(name@),
            },
    {
        if self.exists_db(name) {
            Ok(())
        } else {
            Err(DatabaseError::NotFound(String::from_str(name)))
        }
    }

    /// Create a database: a duplicate name is refused and the catalog is
    /// unchanged; otherwise the name is appended and the pointer is kept.
    pub fn new(&mut self, name: &str) -> (r: Result<(), DatabaseError>)
        ensures
            match r {
                Ok(u) => !spec_db_exists(old(self)@, name@) && final(self)@.dbs == old(
                    self,
                )@.dbs.push(name@) && final(self)@.curr == old(self)@.curr,
                Err(e) => spec_db_exists(old(self)@, name@) && e@ == DatabaseErrorV::DuplicatedDB(
                    name@,
                ) && final(self)@ == old(self)@,
            },
    {
        if self.exists_db(name) {
            return Err(DatabaseError::DuplicatedDB(String::from_str(name)));
        }
        let ghost prev = self.dbs.deep_view();
        self.dbs.push(String::from_str(name));
        proof {
            assert(self.dbs.deep_view() =~= prev.push(name@));
        }
        Ok(())
    }

    /// Drop a database: an absent name is reported as not found; otherwise
    /// the name's first occurrence leaves the catalog. The pointer is kept,
    /// even when it names the dropped database: every later read of it
    /// re-validates. Whether the database's directory is empty is the
    /// caller's check, made where the directory is removed.
    pub fn drop(&mut self, name: &str) -> (r: Result<(), DatabaseError>)
        ensures
            match r {
                Ok(u) => spec_db_exists(old(self)@, name@) && final(self)@.dbs == old(
                    self,
                )@.dbs.remove(spec_first_index(old(self)@.dbs, name@)) && final(self)@.curr == old(
                    self,
                )@.curr,
                Err(e) => !spec_db_exists(old(self)@, name@) && e@ == DatabaseErrorV::NotFound(
                    name@,
                ) && final(self)@ == old(self)@,
            },
    {
        let mut i: usize = 0;
        while i < self.dbs.len()
            invariant
                0 <= i <= self.dbs.len(),
                self == old(self),
                forall|k: int| 0 <= k < i ==> self@.dbs[k] != name@,
            decreases self.dbs.len() - i,
        {
            proof {
                assert(self@.dbs[i as int] == self.dbs@[i as int]@);
            }
            if str_eq(self.dbs[i].as_str(), name) {
                proof {
                    lemma_first_index_found(self.dbs.deep_view(), name@, i as int);
                    assert(spec_db_exists(old(self)@, name@)) by {
                        assert(old(self)@.dbs[i as int] == name@);
                    }
                }
                let ghost prev = self.dbs.deep_view();
                self.dbs.remove(i);
                proof {
                    assert(self.dbs.deep_view() =~= prev.remove(i as int));
                }
                return Ok(());
            }
            i = i + 1;
        }
        Err(DatabaseError::NotFound(String::from_str(name)))
    }

    /// Select the current database: an absent name is reported as not
    /// found and nothing changes; otherwise the pointer is set to it.
    pub fn use_db(&mut self, name: &str) -> (r: Result<(), DatabaseError>)
        ensures
            match r {
                Ok(u) => spec_db_exists(old(self)@, name@) && final(self)@.curr == Some(name@)
                    && final(self)@.dbs == old(self)@.dbs,
                Err(e) => !spec_db_exists(old(self)@, name@) && e@ == DatabaseErrorV::NotFound(
                    name@,
                ) && final(self)@ == old(self)@,
            },
    {
        if !self.exists_db(name) {
            return Err(DatabaseError::NotFound(String::from_str(name)));
        }
        self.curr = Some(String::from_str(name));
        Ok(())
    }

    /// The current database's name, re-validated against the catalog: an
    /// unset pointer, or one naming a database that has since been
    /// dropped, is reported as not found.
    pub fn get_curr_db(&self) -> (r: Result<String, DatabaseError>)
        ensures
            match r {
                Ok(n) => self@.curr == Some(n@) && spec_db_exists(self@, n@),
                Err(e) => match self@.curr {
                    None => e@ == DatabaseErrorV::NotFound(Seq::<char>::empty()),
                    Some(c) => !spec_db_exists(self@, c) && e@ == DatabaseErrorV::NotFound(c),
                },
            },
    {
        match &self.curr {
            None => Err(DatabaseError::NotFound(String::new())),
            Some(c) => {
                if self.exists_db(c.as_str()) {
                    Ok(c.clone())
                } else {
                    Err(DatabaseError::NotFound(c.clone()))
                }
            },
        }
    }

    /// The names of the existing databases, in catalog order.
    pub fn get_dbs(&self) -> (r: Vec<String>)
        ensures
            r.deep_view() == self@.dbs,
    {
        clone_strings(&self.dbs)
    }

    /// The table names of the database `db_name`, read off the given
    /// directory listing: the files that end in the schema-document suffix,
    /// each cut at its first dot. The listing itself comes from the caller,
    /// who enumerates the database's directory.
    pub fn get_db_tables(&self, db_name: &str, files: &Vec<String>) -> (r: Result<
        Vec<String>,
        DatabaseError,
    >)
        ensures
            match r {
                Ok(names) => spec_db_exists(self@, db_name@) && names.deep_view()
                    == spec_table_names(files.deep_view()),
                Err(e) => !spec_db_exists(self@, db_name@) && e@ == DatabaseErrorV::NotFound(
                    db_name@,
                ),
            },
    {
        if let Err(e) = self.exists_or_err(db_name) {
            return Err(e);
        }
        let ghost fv = files.deep_view();
        let mut names: Vec<String> = Vec::new();
        let mut i: usize = 0;
        proof {
            assert(fv.skip(0) =~= fv);
            assert(Seq::<Seq<char>>::empty() + spec_table_names(fv) =~= spec_table_names(fv));
        }
        while i < files.len()
            invariant
                0 <= i <= files.len(),
                fv == files.deep_view(),
                spec_table_names(fv) =~= names.deep_view() + spec_table_names(fv.skip(i as int)),
            decreases files.len() - i,
        {
            proof {
                assert(fv.skip(i as int).first() == fv[i as int]);
                assert(fv.skip(i as int).drop_first() =~= fv.skip(i + 1));
                assert(fv[i as int] == files@[i as int]@);
            }
            let f = files[i].as_str();
            let n = f.unicode_len();
            let m = "schema.json".unicode_len();
            if n >= m && match_exact_at(f, n - m, "schema.json") {
                let dot = crate::datatype::find_dot(f, 0);
                let ghost prev = names.deep_view();
                names.push(extract(f, 0, dot));
                proof {
                    assert(names.deep_view() =~= prev.push(
                        fv[i as int].subrange(0, spec_find_dot(fv[i as int], 0)),
                    ));
                    assert(prev + (seq![
                        fv[i as int].subrange(0, spec_find_dot(fv[i as int], 0)),
                    ] + spec_table_names(fv.skip(i + 1))) =~= prev.push(
                        fv[i as int].subrange(0, spec_find_dot(fv[i as int], 0)),
                    ) + spec_table_names(fv.skip(i + 1)));
                }
            }
            i = i + 1;
        }
        proof {
            assert(fv.skip(files.len() as int) =~= Seq::<Seq<char>>::empty());
            assert(spec_table_names(fv) =~= names.deep_view());
        }
        Ok(names)
    }
}

} // verus!
