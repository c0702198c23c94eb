//! The database engine: databases, each a set of named tables.
//!
//! The engine holds everything in memory; what a table holds can be written
//! out with `Table::to_bytes` and read back with `packing::decode_entries`.

use crate::column::Column;
use crate::keyed::{
    has_key, keyed_map, keys_of, lemma_keyed_map_absent, lemma_keyed_map_index,
    lemma_keyed_map_push, lemma_keyed_map_remove, lemma_keyed_map_update, unique_keys,
};
use crate::packing::{rows_view, sizes_are_valid, valid_sizes};
use crate::table::{
    remove_indices, insert_error, table_model_wf, FurDBError, Table, TableInfo, TableModel,
};
use crate::views::{lemma_views, views};
use vstd::prelude::*;

verus! {

broadcast use lemma_views;

/// A character that an id may hold: an ASCII letter or digit, `_` or `-`.
pub open spec fn id_char(c: char) -> bool {
    ||| ('a' <= c && c <= 'z')
    ||| ('A' <= c && c <= 'Z')
    ||| ('0' <= c && c <= '9')
    ||| c == '_'
    ||| c == '-'
}

/// An id names a database or a table: it is not empty and holds only
/// `id_char`s, so it can never climb out of the working directory.
pub open spec fn valid_id(id: Seq<char>) -> bool {
    &&& id.len() > 0
    &&& forall|i: int| 0 <= i < id.len() ==> id_char(#[trigger] id[i])
}

/// Whether `id` is a valid id.
pub fn is_id_valid(id: &String) -> (r: bool)
    ensures
        r == valid_id(id@),
{
    let s = id.as_str();
    if !s.is_ascii() {
        proof {
            let i = choose|i: int| 0 <= i < s@.len() && !('\0' <= #[trigger] s@[i] <= '\u{7f}');
            assert(!id_char(s@[i]));
        }
        return false;
    }
    let bytes = s.as_bytes();
    proof {
        vstd::string::is_ascii_spec_bytes(s);
    }
    let n = bytes.len();
    if n == 0 {
        return false;
    }
    let mut i: usize = 0;
    while i < n
        invariant
            0 <= i <= n,
            n == s@.len(),
            s@ == id@,
            bytes@ == Seq::new(s@.len(), |j: int| s@[j] as u8),
            vstd::string::is_ascii(s),
            forall|j: int| 0 <= j < i ==> id_char(#[trigger] s@[j]),
        decreases n - i,
    {
        let b = bytes[i];
        assert(b == s@[i as int] as u8);
        let ok = (b >= 97u8 && b <= 122u8) || (b >= 65u8 && b <= 90u8) || (b >= 48u8 && b <= 57u8)
            || b == 95u8 || b == 45u8;
        if !ok {
            assert(!id_char(s@[i as int]));
            return false;
        }
        i = i + 1;
    }
    true
}

/// Where the engine keeps its databases.
pub struct FurDBConfig {
    pub workdir: String,
}

/// The id of a database.
pub struct DatabaseInfo {
    database_id: String,
}

impl DatabaseInfo {
    pub closed spec fn database_id(&self) -> Seq<char> {
        self.database_id@
    }

    pub fn get_database_id(&self) -> (id: String)
        ensures
            id@ == self.database_id(),
    {
        self.database_id.clone()
    }
}

/// The id of a database and the ids of its tables.
pub struct DatabaseInfoExtra {
    database_info: DatabaseInfo,
    database_tables: Vec<String>,
}

impl DatabaseInfoExtra {
    pub closed spec fn database_id(&self) -> Seq<char> {
        self.database_info.database_id@
    }

    pub closed spec fn tables(&self) -> Seq<Seq<char>> {
        views(self.database_tables@)
    }

    pub fn get_database_info(&self) -> (info: DatabaseInfo)
        ensures
            info.database_id() == self.database_id(),
    {
        DatabaseInfo { database_id: self.database_info.database_id.clone() }
    }

    pub fn get_database_tables(&self) -> (tables: Vec<String>)
        ensures
            views(tables@) == self.tables(),
    {
        clone_strings(&self.database_tables)
    }
}

fn clone_strings(v: &Vec<String>) -> (r: Vec<String>)
    ensures
        views(r@) == views(v@),
{
    let mut out: Vec<String> = Vec::new();
    let mut i: usize = 0;
    while i < v.len()
        invariant
            0 <= i <= v.len(),
            out@.len() == i,
            views(out@) == views(v@).take(i as int),
        decreases v.len() - i,
    {
        out.push(v[i].clone());
        proof {
            assert(views(out@) =~= views(v@).take(i + 1));
        }
        i = i + 1;
    }
    proof {
        assert(views(v@).take(i as int) =~= views(v@));
    }
    out
}

/// What the engine holds: each database, by id, maps each of its tables, by
/// id, to the table's columns and entries.
pub type FurDBModel = Map<Seq<char>, Map<Seq<char>, TableModel>>;

pub open spec fn table_entries(tables: Seq<Table>) -> Seq<(Seq<char>, TableModel)> {
    tables.map_values(|t: Table| (t.id(), t.model()))
}

/// A database.
pub struct Database {
    database_id: String,
    tables: Vec<Table>,
}

impl Database {
    pub closed spec fn id(&self) -> Seq<char> {
        self.database_id@
    }

    /// Each table, by id.
    pub closed spec fn model(&self) -> Map<Seq<char>, TableModel> {
        keyed_map(table_entries(self.tables@))
    }

    pub closed spec fn wf(&self) -> bool {
        &&& valid_id(self.database_id@)
        &&& unique_keys(table_entries(self.tables@))
        &&& forall|i: int|
            0 <= i < self.tables@.len() ==> {
                &&& (#[trigger] self.tables@[i]).wf()
                &&& valid_id(self.tables@[i].id())
                &&& self.tables@[i].database_id() == self.database_id@
            }
    }

    pub fn get_database_info(&self) -> (info: DatabaseInfo)
        ensures
            info.database_id() == self.id(),
    {
        DatabaseInfo { database_id: self.database_id.clone() }
    }

    /// The database's id and its tables' ids, each once, in the order the
    /// tables were created.
    pub fn get_database_info_full(&self) -> (info: DatabaseInfoExtra)
        requires
            self.wf(),
        ensures
            info.database_id() == self.id(),
            info.tables().no_duplicates(),
            info.tables().to_set() == self.model().dom(),
    {
        let mut ids: Vec<String> = Vec::new();
        let ghost e = table_entries(self.tables@);
        let mut i: usize = 0;
        while i < self.tables.len()
            invariant
                0 <= i <= self.tables.len(),
                e == table_entries(self.tables@),
                ids@.len() == i,
                views(ids@) == keys_of(e).take(i as int),
            decreases self.tables.len() - i,
        {
            ids.push(self.tables[i].get_table_id());
            proof {
                assert(views(ids@) =~= keys_of(e).take(i + 1));
            }
            i = i + 1;
        }
        proof {
            let k = views(ids@);
            assert(k =~= keys_of(e));
            assert forall|a: int, b: int| 0 <= a < k.len() && 0 <= b < k.len() && a != b implies k[a]
                != k[b] by {
                assert(k[a] == e[a].0 && k[b] == e[b].0);
            }
            assert forall|q: Seq<char>| k.to_set().contains(q) <==> self.model().dom().contains(q) by {
                if k.to_set().contains(q) {
                    let a = choose|a: int| 0 <= a < k.len() && k[a] == q;
                    assert(e[a].0 == q);
                    assert(has_key(e, q));
                }
                if self.model().dom().contains(q) {
                    let a = choose|a: int| 0 <= a < e.len() && #[trigger] e[a].0 == q;
                    assert(k[a] == q);
                }
            }
            assert(k.to_set() =~= self.model().dom());
        }
        DatabaseInfoExtra {
            database_info: DatabaseInfo { database_id: self.database_id.clone() },
            database_tables: ids,
        }
    }

    fn find_table(&self, id: &String) -> (r: Option<usize>)
        requires
            self.wf(),
        ensures
            match r {
                Some(i) => i < self.tables@.len() && self.tables@[i as int].id() == id@
                    && self.model().contains_key(id@) && self.model()[id@]
                    == self.tables@[i as int].model(),
                None => !self.model().contains_key(id@),
            },
    {
        let ghost e = table_entries(self.tables@);
        let mut i: usize = 0;
        while i < self.tables.len()
            invariant
                0 <= i <= self.tables.len(),
                e == table_entries(self.tables@),
                self.wf(),
                forall|j: int| 0 <= j < i ==> #[trigger] e[j].0 != id@,
            decreases self.tables.len() - i,
        {
            if self.tables[i].is_named(id) {
                proof {
                    assert(e[i as int].0 == id@);
                    lemma_keyed_map_index(e, i as int);
                }
                return Some(i);
            }
            i = i + 1;
        }
        proof {
            lemma_keyed_map_absent(e, id@);
        }
        None
    }

    /// The table with the given id.
    pub fn get_table(&self, id: &String) -> (r: Result<&Table, FurDBError>)
        requires
            self.wf(),
        ensures
            match r {
                Ok(t) => valid_id(id@) && self.model().contains_key(id@) && t.wf() && t.id()
                    == id@ && t.database_id() == self.id() && t.model() == self.model()[id@],
                Err(e) => (!valid_id(id@) && e == FurDBError::InvalidId) || (valid_id(id@)
                    && !self.model().contains_key(id@) && e == FurDBError::TableNotFound),
            },
    {
        if !is_id_valid(id) {
            return Err(FurDBError::InvalidId);
        }
        match self.find_table(id) {
            Some(i) => Ok(&self.tables[i]),
            None => Err(FurDBError::TableNotFound),
        }
    }
}

/// Why a request naming a database is refused, if it is.
pub open spec fn database_error(m: FurDBModel, db: Seq<char>) -> Option<FurDBError> {
    if !valid_id(db) {
        Some(FurDBError::InvalidId)
    } else if !m.contains_key(db) {
        Some(FurDBError::DatabaseNotFound)
    } else {
        None
    }
}

/// Why a request naming a table of a database is refused, if it is: the
/// database is looked up first.
pub open spec fn table_error(m: FurDBModel, db: Seq<char>, t: Seq<char>) -> Option<FurDBError> {
    match database_error(m, db) {
        Some(e) => Some(e),
        None => if !valid_id(t) {
            Some(FurDBError::InvalidId)
        } else if !m[db].contains_key(t) {
            Some(FurDBError::TableNotFound)
        } else {
            None
        },
    }
}

pub open spec fn create_database_error(m: FurDBModel, db: Seq<char>) -> Option<FurDBError> {
    if !valid_id(db) {
        Some(FurDBError::InvalidId)
    } else if m.contains_key(db) {
        Some(FurDBError::DatabaseExists)
    } else {
        None
    }
}

pub open spec fn create_table_error(
    m: FurDBModel,
    db: Seq<char>,
    t: Seq<char>,
    columns: Seq<u128>,
) -> Option<FurDBError> {
    match database_error(m, db) {
        Some(e) => Some(e),
        None => if !valid_id(t) {
            Some(FurDBError::InvalidId)
        } else if m[db].contains_key(t) {
            Some(FurDBError::TableExists)
        } else if !valid_sizes(columns) {
            Some(FurDBError::ColumnsUnfit)
        } else {
            None
        },
    }
}

/// Every table has widths that address entries, and entries that fit them.
pub open spec fn model_wf(m: FurDBModel) -> bool {
    forall|db: Seq<char>, t: Seq<char>|
        #![trigger m[db][t]]
        m.contains_key(db) && m[db].contains_key(t) ==> table_model_wf(m[db][t])
}

/// Why a batch of entries cannot be inserted into a table, if it cannot.
pub open spec fn insert_entries_error(
    m: FurDBModel,
    db: Seq<char>,
    t: Seq<char>,
    rows: Seq<Seq<u128>>,
) -> Option<FurDBError> {
    match table_error(m, db, t) {
        Some(e) => Some(e),
        None => insert_error(rows, m[db][t].columns),
    }
}

/// The model with the entries of one table replaced.
pub open spec fn with_rows(
    m: FurDBModel,
    db: Seq<char>,
    t: Seq<char>,
    rows: Seq<Seq<u128>>,
) -> FurDBModel {
    m.insert(db, m[db].insert(t, TableModel { columns: m[db][t].columns, rows }))
}

pub open spec fn database_entries(dbs: Seq<Database>) -> Seq<(Seq<char>, Map<Seq<char>, TableModel>)> {
    dbs.map_values(|d: Database| (d.id(), d.model()))
}

/// The database engine.
pub struct FurDB {
    config: FurDBConfig,
    databases: Vec<Database>,
}

impl View for FurDB {
    type V = FurDBModel;

    closed spec fn view(&self) -> FurDBModel {
        keyed_map(database_entries(self.databases@))
    }
}

impl FurDB {
    /// The databases' ids are distinct and every database is well formed.
    #[verifier::type_invariant]
    pub closed spec fn wf(&self) -> bool {
        databases_wf(self.databases@)
    }

    pub closed spec fn workdir(&self) -> Seq<char> {
        self.config.workdir@
    }

    /// An engine with no databases.
    pub fn new(config: FurDBConfig) -> (furdb: Self)
        ensures
            furdb@ == FurDBModel::empty(),
            furdb.workdir() == config.workdir@,
    {
        let databases: Vec<Database> = Vec::new();
        proof {
            assert(database_entries(databases@) =~= Seq::empty());
        }
        let furdb = FurDB { config, databases };
        proof {
            assert(furdb@ =~= FurDBModel::empty());
        }
        furdb
    }

    pub fn get_config(&self) -> (config: FurDBConfig)
        ensures
            config.workdir@ == self.workdir(),
    {
        FurDBConfig { workdir: self.config.workdir.clone() }
    }

    /// Every table of a well-formed engine has valid widths and entries that
    /// fit them.
    pub proof fn lemma_model_wf(&self)
        requires
            self.wf(),
        ensures
            model_wf(self@),
    {
        let e = database_entries(self.databases@);
        assert forall|db: Seq<char>, t: Seq<char>|
            #![trigger self@[db][t]]
            self@.contains_key(db) && self@[db].contains_key(t) implies table_model_wf(
            self@[db][t],
        ) by {
            let i = choose|i: int| 0 <= i < e.len() && #[trigger] e[i].0 == db;
            lemma_keyed_map_index(e, i);
            let d = self.databases@[i];
            assert(e[i] == (d.id(), d.model()));
            assert(d.wf());
            let te = table_entries(d.tables@);
            assert(self@[db] == d.model());
            assert(has_key(te, t));
            let j = choose|j: int| 0 <= j < te.len() && #[trigger] te[j].0 == t;
            lemma_keyed_map_index(te, j);
            assert(te[j] == (d.tables@[j].id(), d.tables@[j].model()));
            assert(d.tables@[j].wf());
        }
    }

    fn find_database(&self, id: &String) -> (r: Option<usize>)
        requires
            self.wf(),
        ensures
            match r {
                Some(i) => i < self.databases@.len() && self.databases@[i as int].id() == id@
                    && self@.contains_key(id@) && self@[id@] == self.databases@[i as int].model(),
                None => !self@.contains_key(id@),
            },
    {
        let ghost e = database_entries(self.databases@);
        let mut i: usize = 0;
        while i < self.databases.len()
            invariant
                0 <= i <= self.databases.len(),
                e == database_entries(self.databases@),
                self.wf(),
                forall|j: int| 0 <= j < i ==> #[trigger] e[j].0 != id@,
            decreases self.databases.len() - i,
        {
            if self.databases[i].database_id == *id {
                proof {
                    assert(e[i as int].0 == id@);
                    lemma_keyed_map_index(e, i as int);
                }
                return Some(i);
            }
            i = i + 1;
        }
        proof {
            lemma_keyed_map_absent(e, id@);
        }
        None
    }

    /// The database with the given id.
    pub fn get_database(&self, id: &String) -> (r: Result<&Database, FurDBError>)
        ensures
            match r {
                Ok(d) => database_error(self@, id@) is None && d.wf() && d.id() == id@ && d.model()
                    == self@[id@],
                Err(e) => database_error(self@, id@) == Some(e),
            },
    {
        proof {
            use_type_invariant(self);
        }
        if !is_id_valid(id) {
            return Err(FurDBError::InvalidId);
        }
        match self.find_database(id) {
            Some(i) => {
                assert(self.databases@[i as int].wf());
                Ok(&self.databases[i])
            },
            None => Err(FurDBError::DatabaseNotFound),
        }
    }

    /// Takes the databases out, leaving none behind.
    fn take_databases(&mut self) -> (databases: Vec<Database>)
        ensures
            databases@ == old(self).databases@,
            final(self).databases@ == Seq::<Database>::empty(),
            final(self).config == old(self).config,
    {
        let mut databases: Vec<Database> = Vec::new();
        proof {
            assert(database_entries(databases@) =~= Seq::empty());
        }
        std::mem::swap(&mut databases, &mut self.databases);
        databases
    }

    /// Creates an empty database.
    pub fn create_database(&mut self, id: &String) -> (r: Result<DatabaseInfo, FurDBError>)
        ensures
            final(self).workdir() == old(self).workdir(),
            match r {
                Ok(info) => create_database_error(old(self)@, id@) is None && final(self)@ == old(
                    self,
                )@.insert(id@, Map::empty()) && info.database_id() == id@,
                Err(e) => create_database_error(old(self)@, id@) == Some(e) && final(self)@ == old(
                    self,
                )@,
            },
    {
        proof {
            use_type_invariant(&*self);
        }
        if !is_id_valid(id) {
            return Err(FurDBError::InvalidId);
        }
        if self.find_database(id).is_some() {
            return Err(FurDBError::DatabaseExists);
        }
        let database = Database { database_id: id.clone(), tables: Vec::new() };
        proof {
            assert(table_entries(database.tables@) =~= Seq::empty());
            assert(database.model() =~= Map::empty());
            lemma_keyed_map_push(database_entries(self.databases@), id@, database.model());
        }
        let mut databases = self.take_databases();
        let ghost before = databases@;
        databases.push(database);
        proof {
            assert(database_entries(databases@) =~= database_entries(before).push(
                (id@, database.model()),
            ));
            assert forall|i: int| 0 <= i < databases@.len() implies (
            #[trigger] databases@[i]).wf() by {
                if i < before.len() {
                    assert(databases@[i] == before[i]);
                }
            }
        }
        self.databases = databases;
        Ok(DatabaseInfo { database_id: id.clone() })
    }

    /// Deletes a database and all its tables.
    pub fn delete_database(&mut self, id: &String) -> (r: Result<(), FurDBError>)
        ensures
            final(self).workdir() == old(self).workdir(),
            match r {
                Ok(()) => database_error(old(self)@, id@) is None && final(self)@ == old(
                    self,
                )@.remove(id@),
                Err(e) => database_error(old(self)@, id@) == Some(e) && final(self)@ == old(
                    self,
                )@,
            },
    {
        proof {
            use_type_invariant(&*self);
        }
        if !is_id_valid(id) {
            return Err(FurDBError::InvalidId);
        }
        match self.find_database(id) {
            None => Err(FurDBError::DatabaseNotFound),
            Some(i) => {
                let mut databases = self.take_databases();
                let ghost before = databases@;
                proof {
                    lemma_keyed_map_remove(database_entries(before), i as int);
                }
                databases.remove(i);
                proof {
                    assert(database_entries(databases@) =~= database_entries(before).remove(
                        i as int,
                    ));
                    assert forall|j: int| 0 <= j < databases@.len() implies (
                    #[trigger] databases@[j]).wf() by {
                        if j < i {
                            assert(databases@[j] == before[j]);
                        } else {
                            assert(databases@[j] == before[j + 1]);
                        }
                    }
                }
                self.databases = databases;
                Ok(())
            },
        }
    }

    /// Creates an empty table.
    pub fn create_table(&mut self, db: &String, t: &String, columns: Vec<Column>) -> (r: Result<
        TableInfo,
        FurDBError,
    >)
        ensures
            final(self).workdir() == old(self).workdir(),
            match r {
                Ok(info) => create_table_error(old(self)@, db@, t@, views(columns@)) is None
                    && final(self)@ == old(self)@.insert(
                    db@,
                    old(self)@[db@].insert(
                        t@,
                        TableModel { columns: views(columns@), rows: Seq::empty() },
                    ),
                ) && info.database_id() == db@ && info.table_id() == t@ && info.columns()
                    == views(columns@),
                Err(e) => create_table_error(old(self)@, db@, t@, views(columns@)) == Some(e)
                    && final(self)@ == old(self)@,
            },
    {
        proof {
            use_type_invariant(&*self);
        }
        if !is_id_valid(db) {
            return Err(FurDBError::InvalidId);
        }
        let di = match self.find_database(db) {
            None => {
                return Err(FurDBError::DatabaseNotFound);
            },
            Some(di) => di,
        };
        if !is_id_valid(t) {
            return Err(FurDBError::InvalidId);
        }
        assert(self.databases@[di as int].wf());
        if self.databases[di].find_table(t).is_some() {
            return Err(FurDBError::TableExists);
        }
        let mut sizes: Vec<u128> = Vec::new();
        let mut k: usize = 0;
        while k < columns.len()
            invariant
                0 <= k <= columns.len(),
                sizes@ == views(columns@).take(k as int),
            decreases columns.len() - k,
        {
            sizes.push(columns[k].get_size());
            proof {
                assert(sizes@ =~= views(columns@).take(k + 1));
            }
            k = k + 1;
        }
        proof {
            assert(views(columns@).take(k as int) =~= views(columns@));
        }
        if !sizes_are_valid(&sizes) {
            return Err(FurDBError::ColumnsUnfit);
        }
        let table = Table::new(db.clone(), t.clone(), sizes);
        let info = table.get_table_info();
        let ghost old_self = *self;
        let mut databases = self.take_databases();
        let mut database = databases.remove(di);
        let ghost old_db = database;
        assert(old_db == old_self.databases@[di as int]);
        assert(old_db.wf());
        proof {
            lemma_keyed_map_push(table_entries(database.tables@), t@, table.model());
        }
        database.tables.push(table);
        proof {
            assert(table_entries(database.tables@) =~= table_entries(old_db.tables@).push(
                (t@, table.model()),
            ));
            assert forall|i: int| 0 <= i < database.tables@.len() implies {
                &&& (#[trigger] database.tables@[i]).wf()
                &&& valid_id(database.tables@[i].id())
                &&& database.tables@[i].database_id() == database.database_id@
            } by {
                if i < old_db.tables@.len() {
                    assert(database.tables@[i] == old_db.tables@[i]);
                }
            }
        }
        databases.insert(di, database);
        proof {
            assert(databases@ =~= old_self.databases@.update(di as int, database));
            lemma_replace_database(old_self.databases@, di as int, database);
        }
        self.databases = databases;
        Ok(info)
    }

    /// Deletes a table and its entries.
    pub fn delete_table(&mut self, db: &String, t: &String) -> (r: Result<(), FurDBError>)
        ensures
            final(self).workdir() == old(self).workdir(),
            match r {
                Ok(()) => table_error(old(self)@, db@, t@) is None && final(self)@ == old(
                    self,
                )@.insert(db@, old(self)@[db@].remove(t@)),
                Err(e) => table_error(old(self)@, db@, t@) == Some(e) && final(self)@ == old(
                    self,
                )@,
            },
    {
        proof {
            use_type_invariant(&*self);
        }
        let (di, ti) = match self.locate_table(db, t) {
            Ok(p) => p,
            Err(e) => {
                return Err(e);
            },
        };
        let ghost old_self = *self;
        let mut databases = self.take_databases();
        let mut database = databases.remove(di);
        let ghost old_db = database;
        assert(old_db == old_self.databases@[di as int]);
        assert(old_db.wf());
        proof {
            lemma_keyed_map_remove(table_entries(database.tables@), ti as int);
        }
        database.tables.remove(ti);
        proof {
            assert(table_entries(database.tables@) =~= table_entries(old_db.tables@).remove(
                ti as int,
            ));
            assert forall|i: int| 0 <= i < database.tables@.len() implies {
                &&& (#[trigger] database.tables@[i]).wf()
                &&& valid_id(database.tables@[i].id())
                &&& database.tables@[i].database_id() == database.database_id@
            } by {
                if i < ti {
                    assert(database.tables@[i] == old_db.tables@[i]);
                } else {
                    assert(database.tables@[i] == old_db.tables@[i + 1]);
                }
            }
        }
        databases.insert(di, database);
        proof {
            assert(databases@ =~= old_self.databases@.update(di as int, database));
            lemma_replace_database(old_self.databases@, di as int, database);
        }
        self.databases = databases;
        Ok(())
    }

    /// Appends a batch of entries to a table, all or none.
    pub fn insert_entries(&mut self, db: &String, t: &String, data: &Vec<Vec<u128>>) -> (r: Result<
        (),
        FurDBError,
    >)
        ensures
            final(self).workdir() == old(self).workdir(),
            match r {
                Ok(()) => insert_entries_error(old(self)@, db@, t@, rows_view(data@)) is None
                    && final(self)@ == with_rows(
                    old(self)@,
                    db@,
                    t@,
                    old(self)@[db@][t@].rows + rows_view(data@),
                ),
                Err(e) => insert_entries_error(old(self)@, db@, t@, rows_view(data@)) == Some(e)
                    && final(self)@ == old(self)@,
            },
    {
        proof {
            use_type_invariant(&*self);
        }
        let (di, ti) = match self.locate_table(db, t) {
            Ok(p) => p,
            Err(e) => {
                return Err(e);
            },
        };
        let ghost old_self = *self;
        let mut databases = self.take_databases();
        let mut database = databases.remove(di);
        let ghost old_db = database;
        assert(old_db == old_self.databases@[di as int]);
        assert(old_db.wf());
        let mut table = database.tables.remove(ti);
        assert(table == old_db.tables@[ti as int]);
        let r = table.insert_entries(data);
        database.tables.insert(ti, table);
        databases.insert(di, database);
        proof {
            assert(database.tables@ =~= old_db.tables@.update(ti as int, table));
            assert(databases@ =~= old_self.databases@.update(di as int, database));
            lemma_replace_table(old_self.databases@, di as int, ti as int, database, table);
        }
        self.databases = databases;
        proof {
            lemma_with_same_rows(old_self@, db@, t@);
        }
        r
    }

    /// Removes the entries of a table whose index occurs in `indices`; the
    /// survivors are numbered from 0 again.
    pub fn delete_entries(&mut self, db: &String, t: &String, indices: &Vec<u64>) -> (r: Result<
        (),
        FurDBError,
    >)
        ensures
            final(self).workdir() == old(self).workdir(),
            match r {
                Ok(()) => table_error(old(self)@, db@, t@) is None && final(self)@ == with_rows(
                    old(self)@,
                    db@,
                    t@,
                    remove_indices(old(self)@[db@][t@].rows, indices@),
                ),
                Err(e) => table_error(old(self)@, db@, t@) == Some(e) && final(self)@ == old(
                    self,
                )@,
            },
    {
        proof {
            use_type_invariant(&*self);
        }
        let (di, ti) = match self.locate_table(db, t) {
            Ok(p) => p,
            Err(e) => {
                return Err(e);
            },
        };
        let ghost old_self = *self;
        let mut databases = self.take_databases();
        let mut database = databases.remove(di);
        let ghost old_db = database;
        assert(old_db == old_self.databases@[di as int]);
        assert(old_db.wf());
        let mut table = database.tables.remove(ti);
        assert(table == old_db.tables@[ti as int]);
        table.delete_entries(indices);
        database.tables.insert(ti, table);
        databases.insert(di, database);
        proof {
            assert(database.tables@ =~= old_db.tables@.update(ti as int, table));
            assert(databases@ =~= old_self.databases@.update(di as int, database));
            lemma_replace_table(old_self.databases@, di as int, ti as int, database, table);
        }
        self.databases = databases;
        Ok(())
    }

    /// Removes every entry of a table.
    pub fn delete_all_entries(&mut self, db: &String, t: &String) -> (r: Result<(), FurDBError>)
        ensures
            final(self).workdir() == old(self).workdir(),
            match r {
                Ok(()) => table_error(old(self)@, db@, t@) is None && final(self)@ == with_rows(
                    old(self)@,
                    db@,
                    t@,
                    Seq::empty(),
                ),
                Err(e) => table_error(old(self)@, db@, t@) == Some(e) && final(self)@ == old(
                    self,
                )@,
            },
    {
        proof {
            use_type_invariant(&*self);
        }
        let (di, ti) = match self.locate_table(db, t) {
            Ok(p) => p,
            Err(e) => {
                return Err(e);
            },
        };
        let ghost old_self = *self;
        let mut databases = self.take_databases();
        let mut database = databases.remove(di);
        let ghost old_db = database;
        assert(old_db == old_self.databases@[di as int]);
        assert(old_db.wf());
        let mut table = database.tables.remove(ti);
        assert(table == old_db.tables@[ti as int]);
        table.delete_all_entries();
        database.tables.insert(ti, table);
        databases.insert(di, database);
        proof {
            assert(database.tables@ =~= old_db.tables@.update(ti as int, table));
            assert(databases@ =~= old_self.databases@.update(di as int, database));
            lemma_replace_table(old_self.databases@, di as int, ti as int, database, table);
        }
        self.databases = databases;
        Ok(())
    }

    fn locate_table(&self, db: &String, t: &String) -> (r: Result<(usize, usize), FurDBError>)
        requires
            self.wf(),
        ensures
            match r {
                Ok((di, ti)) => table_error(self@, db@, t@) is None && di < self.databases@.len()
                    && self.databases@[di as int].id() == db@ && self@[db@]
                    == self.databases@[di as int].model() && ti
                    < self.databases@[di as int].tables@.len()
                    && self.databases@[di as int].tables@[ti as int].id() == t@
                    && self@[db@][t@] == self.databases@[di as int].tables@[ti as int].model(),
                Err(e) => table_error(self@, db@, t@) == Some(e),
            },
    {
        if !is_id_valid(db) {
            return Err(FurDBError::InvalidId);
        }
        let di = match self.find_database(db) {
            None => {
                return Err(FurDBError::DatabaseNotFound);
            },
            Some(di) => di,
        };
        if !is_id_valid(t) {
            return Err(FurDBError::InvalidId);
        }
        match self.databases[di].find_table(t) {
            None => Err(FurDBError::TableNotFound),
            Some(ti) => Ok((di, ti)),
        }
    }
}

/// Replacing table `ti` of database `di` with `t2`, which keeps its ids and
/// its columns, updates that table's entries in the model.
proof fn lemma_replace_table(o: Seq<Database>, di: int, ti: int, d2: Database, t2: Table)
    requires
        databases_wf(o),
        0 <= di < o.len(),
        0 <= ti < o[di].tables@.len(),
        d2.database_id == o[di].database_id,
        d2.tables@ == o[di].tables@.update(ti, t2),
        t2.wf(),
        t2.id() == o[di].tables@[ti].id(),
        t2.database_id() == o[di].tables@[ti].database_id(),
        t2.model().columns == o[di].tables@[ti].model().columns,
    ensures
        databases_wf(o.update(di, d2)),
        keyed_map(database_entries(o.update(di, d2))) == with_rows(
            keyed_map(database_entries(o)),
            d2.id(),
            t2.id(),
            t2.model().rows,
        ),
{
    let d = o[di];
    assert(d.wf());
    let te = table_entries(d.tables@);
    lemma_keyed_map_update(te, ti, t2.model());
    assert(table_entries(d2.tables@) =~= te.update(ti, (te[ti].0, t2.model())));
    assert forall|i: int| 0 <= i < d2.tables@.len() implies {
        &&& (#[trigger] d2.tables@[i]).wf()
        &&& valid_id(d2.tables@[i].id())
        &&& d2.tables@[i].database_id() == d2.database_id@
    } by {
        if i != ti {
            assert(d2.tables@[i] == d.tables@[i]);
        }
    }
    lemma_replace_database(o, di, d2);
    let e = database_entries(o);
    lemma_keyed_map_index(e, di);
    lemma_keyed_map_index(te, ti);
    let m = keyed_map(e);
    assert(t2.model() == TableModel { columns: m[d2.id()][t2.id()].columns, rows: t2.model().rows });
}

pub proof fn lemma_with_same_rows(m: FurDBModel, db: Seq<char>, t: Seq<char>)
    requires
        m.contains_key(db),
        m[db].contains_key(t),
    ensures
        with_rows(m, db, t, m[db][t].rows) == m,
{
    let tm = m[db][t];
    assert(TableModel { columns: tm.columns, rows: tm.rows } == tm);
    assert(m[db].insert(t, tm) =~= m[db]);
    assert(m.insert(db, m[db]) =~= m);
}

/// Replacing database `di` with `d`, which keeps its id, updates the model
/// at that id.
proof fn lemma_replace_database(o: Seq<Database>, di: int, d: Database)
    requires
        databases_wf(o),
        0 <= di < o.len(),
        d.wf(),
        d.id() == o[di].id(),
    ensures
        databases_wf(o.update(di, d)),
        keyed_map(database_entries(o.update(di, d))) == keyed_map(database_entries(o)).insert(
            d.id(),
            d.model(),
        ),
{
    let n = o.update(di, d);
    let e = database_entries(o);
    lemma_keyed_map_update(e, di, d.model());
    assert(database_entries(n) =~= e.update(di, (e[di].0, d.model())));
    assert forall|i: int| 0 <= i < n.len() implies (#[trigger] n[i]).wf() by {
        if i != di {
            assert(n[i] == o[i]);
        }
    }
}

/// The databases' ids are distinct and every database is well formed.
pub closed spec fn databases_wf(dbs: Seq<Database>) -> bool {
    &&& unique_keys(database_entries(dbs))
    &&& forall|i: int| 0 <= i < dbs.len() ==> (#[trigger] dbs[i]).wf()
}

} // verus!
