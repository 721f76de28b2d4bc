//! The two record kinds and their verified mapping onto store rows.
//!
//! `Version` rows are stored as they are; a `Config`'s line list is joined
//! with `'\n'` and base64-encoded into the `data` column, and decoding a
//! row reverses that exactly — the decoder's contract pins the decoded
//! lines as the unique preimage of the stored blob.

use vstd::prelude::*;

use crate::codec::{b64_of, decode_text, encode_text};
use crate::error::Error;
use crate::store;
use crate::store::{config_rows_match, ConfigRow, StoredConfig};
use crate::text::{
    join_lines, join_lines_spec, lemma_join_of_split, lemma_split_nonempty, lemma_split_of_join,
    lemma_split_wf, lines_wf, split_lines,
};
use rusqlite::Connection;

verus! {

/// A named profile (for example a machine) that groups configs.
#[derive(Debug, Clone)]
pub struct Version {
    pub id: i32,
    pub name: String,
}

/// A tracked file's path plus its last-known content as ordered lines,
/// scoped to one version.
#[derive(Debug, Clone)]
pub struct Config {
    pub id: i32,
    pub version_id: i32,
    pub path: String,
    pub data: Vec<String>,
}

/// The id that `next_id` hands out over the ids of `m`: one past the
/// largest existing id, or 1 for an empty table.
pub open spec fn is_next_id<V>(id: int, m: Map<int, V>) -> bool {
    &&& forall|k: int| m.dom().contains(k) ==> k < id
    &&& id == 1 || m.dom().contains(id - 1)
}

impl Version {
    /// Creates the `versions` table if it is absent; rows are never
    /// touched.
    pub fn table(c: &mut Connection) -> (r: Result<(), Error>)
        ensures
            store::versions_of(*final(c)) == store::versions_of(*old(c)),
            store::configs_of(*final(c)) == store::configs_of(*old(c)),
            r matches Err(e) ==> e == Error::Storage,
    {
        store::create_versions_table(c)
    }

    /// Inserts this version as a new row.
    pub fn create(&self, c: &mut Connection) -> (r: Result<(), Error>)
        ensures
            match r {
                Ok(_) => !store::versions_of(*old(c)).dom().contains(self.id as int)
                    && store::versions_of(*final(c)) == store::versions_of(*old(c)).insert(
                    self.id as int,
                    self.name@,
                ) && store::configs_of(*final(c)) == store::configs_of(*old(c)),
                Err(e) => e == Error::Storage && store::versions_of(*final(c))
                    == store::versions_of(*old(c)) && store::configs_of(*final(c))
                    == store::configs_of(*old(c)),
            },
    {
        store::insert_version_row(c, self.id, self.name.as_str())
    }

    /// Every version row, in an order the store does not promise.
    pub fn all(c: &Connection) -> (r: Result<Vec<Version>, Error>)
        ensures
            match r {
                Ok(rows) => store::version_rows_match(rows@, store::versions_of(*c)),
                Err(e) => e == Error::Storage,
            },
    {
        store::select_version_rows(c)
    }

    /// The version row with the given id; `NotFound` when no row has it.
    pub fn find(c: &Connection, id: i32) -> (r: Result<Version, Error>)
        ensures
            match r {
                Ok(v) => v.id == id && store::versions_of(*c).contains_pair(id as int, v.name@),
                Err(e) => (e == Error::NotFound || e == Error::Storage) && (e == Error::NotFound
                    ==> !store::versions_of(*c).dom().contains(id as int)),
            },
    {
        match store::find_version_row(c, id) {
            Ok(Some(v)) => Ok(v),
            Ok(None) => Err(Error::NotFound),
            Err(e) => Err(e),
        }
    }

    /// One past the largest existing id, or 1 for an empty table.
    pub fn next_id(c: &Connection) -> (r: Result<i32, Error>)
        ensures
            match r {
                Ok(id) => is_next_id(id as int, store::versions_of(*c)),
                Err(e) => e == Error::Storage,
            },
    {
        let rows = match store::select_version_rows(c) {
            Ok(rows) => rows,
            Err(e) => return Err(e),
        };
        let mut best: Option<i32> = None;
        let mut i: usize = 0;
        while i < rows.len()
            invariant
                i <= rows@.len(),
                store::version_rows_match(rows@, store::versions_of(*c)),
                match best {
                    Some(b) => (exists|j: int| 0 <= j < i && (#[trigger] rows@[j]).id == b)
                        && forall|j: int| 0 <= j < i ==> (#[trigger] rows@[j]).id <= b,
                    None => i == 0,
                },
            decreases rows@.len() - i,
        {
            let id = rows[i].id;
            best = match best {
                Some(b) => if id > b {
                    Some(id)
                } else {
                    Some(b)
                },
                None => Some(id),
            };
            i = i + 1;
        }
        match best {
            None => {
                proof {
                    assert forall|k: int| store::versions_of(*c).dom().contains(k) implies k
                        < 1 by {
                        assert(!store::versions_of(*c).dom().contains(k));
                    }
                }
                Ok(1)
            },
            Some(b) => {
                if b == i32::MAX {
                    Err(Error::Storage)
                } else {
                    proof {
                        let m = store::versions_of(*c);
                        assert forall|k: int| m.dom().contains(k) implies k < b + 1 by {
                            let j = choose|j: int|
                                0 <= j < rows@.len() && (#[trigger] rows@[j]).id as int == k;
                            assert(rows@[j].id <= b);
                        }
                        let wj = choose|j: int| 0 <= j < rows@.len() && (#[trigger] rows@[j]).id
                            == b;
                        assert(m.contains_pair(rows@[wj].id as int, rows@[wj].name@));
                    }
                    Ok(b + 1)
                }
            },
        }
    }

    /// Rewrites one column of the row with the given id; the only column
    /// a version has besides its key is `name`.  A missing id is a no-op,
    /// not an error.
    pub fn update(c: &mut Connection, id: i32, column: &str, value: &str) -> (r: Result<
        (),
        Error,
    >)
        ensures
            match r {
                Ok(_) => column@ == "name"@ && store::versions_of(*final(c)) == (
                if store::versions_of(*old(c)).dom().contains(id as int) {
                    store::versions_of(*old(c)).insert(id as int, value@)
                } else {
                    store::versions_of(*old(c))
                }) && store::configs_of(*final(c)) == store::configs_of(*old(c)),
                Err(e) => store::versions_of(*final(c)) == store::versions_of(*old(c))
                    && store::configs_of(*final(c)) == store::configs_of(*old(c)) && (e
                    == Error::InvalidField || e == Error::Storage) && (e == Error::InvalidField
                    <==> column@ != "name"@),
            },
    {
        if crate::text::str_eq(column, "name") {
            store::update_version_name_row(c, id, value)
        } else {
            Err(Error::InvalidField)
        }
    }
}

impl Config {
    /// The decoded line list is well-formed: at least one line, none
    /// containing the separator.  Every config that comes out of
    /// splitting a text satisfies this.
    pub open spec fn lines_ok(self) -> bool {
        self.data.deep_view().len() >= 1 && lines_wf(self.data.deep_view())
    }

    /// The row this config serializes to, at the specification level.
    pub open spec fn stored(self) -> StoredConfig {
        StoredConfig {
            path: self.path@,
            data: b64_of(join_lines_spec(self.data.deep_view())),
            version_id: self.version_id as int,
        }
    }

    /// Creates the `configs` table if it is absent; rows are never
    /// touched.
    pub fn table(c: &mut Connection) -> (r: Result<(), Error>)
        ensures
            store::versions_of(*final(c)) == store::versions_of(*old(c)),
            store::configs_of(*final(c)) == store::configs_of(*old(c)),
            r matches Err(e) ==> e == Error::Storage,
    {
        store::create_configs_table(c)
    }

    /// The raw row this config serializes to: lines joined with `'\n'`
    /// and base64-encoded into the `data` column.
    pub fn serialize(&self) -> (r: ConfigRow)
        ensures
            r.id == self.id,
            r.path@ == self.path@,
            r.data@ == b64_of(join_lines_spec(self.data.deep_view())),
            r.version_id == self.version_id,
            store::row_stored(r) == self.stored(),
    {
        let joined = join_lines(&self.data);
        let data = encode_text(joined.as_str());
        ConfigRow { id: self.id, path: self.path.clone(), data, version_id: self.version_id }
    }

    /// Decodes a raw row back into a config.  The decoded lines are the
    /// unique well-formed line list whose serialized form is the stored
    /// blob, so decoding is the exact inverse of `serialize`, for every
    /// line list: lines with embedded whitespace, empty lines, and a
    /// final empty line all come back unchanged.
    pub fn decode_row(row: &ConfigRow) -> (r: Result<Config, Error>)
        ensures
            match r {
                Ok(cfg) => cfg.id == row.id && cfg.path@ == row.path@ && cfg.version_id
                    == row.version_id && cfg.lines_ok() && cfg.stored() == store::row_stored(*row)
                    && forall|ls: Seq<Seq<char>>|
                    ls.len() >= 1 && lines_wf(ls) && b64_of(join_lines_spec(ls)) == row.data@
                        ==> ls == cfg.data.deep_view(),
                Err(e) => e == Error::Storage && forall|t: Seq<char>| b64_of(t) != row.data@,
            },
    {
        let text = match decode_text(row.data.as_str()) {
            Ok(t) => t,
            Err(e) => return Err(e),
        };
        let lines = split_lines(text.as_str());
        proof {
            lemma_split_nonempty(text@);
            lemma_split_wf(text@);
            lemma_join_of_split(text@);
        }
        let cfg = Config {
            id: row.id,
            version_id: row.version_id,
            path: row.path.clone(),
            data: lines,
        };
        proof {
            assert forall|ls: Seq<Seq<char>>|
                ls.len() >= 1 && lines_wf(ls) && b64_of(join_lines_spec(ls))
                    == row.data@ implies ls == cfg.data.deep_view() by {
                assert(join_lines_spec(ls) == text@);
                lemma_split_of_join(ls);
            }
        }
        Ok(cfg)
    }

    /// Inserts this config as a new row.
    pub fn create(&self, c: &mut Connection) -> (r: Result<(), Error>)
        ensures
            match r {
                Ok(_) => !store::configs_of(*old(c)).dom().contains(self.id as int)
                    && store::configs_of(*final(c)) == store::configs_of(*old(c)).insert(
                    self.id as int,
                    self.stored(),
                ) && store::versions_of(*final(c)) == store::versions_of(*old(c)),
                Err(e) => e == Error::Storage && store::versions_of(*final(c))
                    == store::versions_of(*old(c)) && store::configs_of(*final(c))
                    == store::configs_of(*old(c)),
            },
    {
        let row = self.serialize();
        store::insert_config_row(
            c,
            row.id,
            row.path.as_str(),
            row.data.as_str(),
            row.version_id,
        )
    }

    /// Every config row decoded, in an order the store does not promise;
    /// fails if any stored blob is not a valid encoding.
    pub fn all(c: &Connection) -> (r: Result<Vec<Config>, Error>)
        ensures
            match r {
                Ok(cfgs) => configs_match(cfgs@, store::configs_of(*c)),
                Err(e) => e == Error::Storage,
            },
    {
        let rows = match store::select_config_rows(c) {
            Ok(rows) => rows,
            Err(e) => return Err(e),
        };
        let mut out: Vec<Config> = Vec::new();
        let mut i: usize = 0;
        while i < rows.len()
            invariant
                i <= rows@.len(),
                config_rows_match(rows@, store::configs_of(*c)),
                out@.len() == i,
                forall|j: int|
                    0 <= j < i ==> (#[trigger] out@[j]).id == rows@[j].id && out@[j].stored()
                        == store::row_stored(rows@[j]) && out@[j].lines_ok(),
            decreases rows@.len() - i,
        {
            let cfg = match Config::decode_row(&rows[i]) {
                Ok(cfg) => cfg,
                Err(e) => return Err(e),
            };
            out.push(cfg);
            i = i + 1;
        }
        proof {
            let m = store::configs_of(*c);
            assert forall|k: int| #[trigger] m.dom().contains(k) implies exists|j: int|
                0 <= j < out@.len() && (#[trigger] out@[j]).id as int == k by {
                let j = choose|j: int| 0 <= j < rows@.len() && (#[trigger] rows@[j]).id as int
                    == k;
                assert(out@[j].id as int == k);
            }
        }
        Ok(out)
    }

    /// The config row with the given id, decoded; `NotFound` when no row
    /// has it.
    pub fn find(c: &Connection, id: i32) -> (r: Result<Config, Error>)
        ensures
            match r {
                Ok(cfg) => cfg.id == id && cfg.lines_ok() && store::configs_of(*c).contains_pair(
                    id as int,
                    cfg.stored(),
                ),
                Err(e) => (e == Error::NotFound || e == Error::Storage) && (e == Error::NotFound
                    ==> !store::configs_of(*c).dom().contains(id as int)),
            },
    {
        let row = match store::find_config_row(c, id) {
            Ok(Some(row)) => row,
            Ok(None) => return Err(Error::NotFound),
            Err(e) => return Err(e),
        };
        match Config::decode_row(&row) {
            Ok(cfg) => Ok(cfg),
            Err(e) => Err(e),
        }
    }

    /// One past the largest existing id, or 1 for an empty table.
    pub fn next_id(c: &Connection) -> (r: Result<i32, Error>)
        ensures
            match r {
                Ok(id) => is_next_id(id as int, store::configs_of(*c)),
                Err(e) => e == Error::Storage,
            },
    {
        let rows = match store::select_config_rows(c) {
            Ok(rows) => rows,
            Err(e) => return Err(e),
        };
        let mut best: Option<i32> = None;
        let mut i: usize = 0;
        while i < rows.len()
            invariant
                i <= rows@.len(),
                config_rows_match(rows@, store::configs_of(*c)),
                match best {
                    Some(b) => (exists|j: int| 0 <= j < i && (#[trigger] rows@[j]).id == b)
                        && forall|j: int| 0 <= j < i ==> (#[trigger] rows@[j]).id <= b,
                    None => i == 0,
                },
            decreases rows@.len() - i,
        {
            let id = rows[i].id;
            best = match best {
                Some(b) => if id > b {
                    Some(id)
                } else {
                    Some(b)
                },
                None => Some(id),
            };
            i = i + 1;
        }
        match best {
            None => {
                proof {
                    assert forall|k: int| store::configs_of(*c).dom().contains(k) implies k
                        < 1 by {
                        assert(!store::configs_of(*c).dom().contains(k));
                    }
                }
                Ok(1)
            },
            Some(b) => {
                if b == i32::MAX {
                    Err(Error::Storage)
                } else {
                    proof {
                        let m = store::configs_of(*c);
                        assert forall|k: int| m.dom().contains(k) implies k < b + 1 by {
                            let j = choose|j: int|
                                0 <= j < rows@.len() && (#[trigger] rows@[j]).id as int == k;
                            assert(rows@[j].id <= b);
                        }
                        let wj = choose|j: int| 0 <= j < rows@.len() && (#[trigger] rows@[j]).id
                            == b;
                        assert(m.contains_pair(rows@[wj].id as int, store::row_stored(rows@[wj])));
                    }
                    Ok(b + 1)
                }
            },
        }
    }

    /// Rewrites one string column — `path` or `data` — of the row with
    /// the given id.  A missing id is a no-op, not an error; re-pointing
    /// a config at another version goes through `update_version_ref`.
    pub fn update(c: &mut Connection, id: i32, column: &str, value: &str) -> (r: Result<
        (),
        Error,
    >)
        ensures
            match r {
                Ok(_) => (column@ == "path"@ || column@ == "data"@) && store::versions_of(
                    *final(c),
                ) == store::versions_of(*old(c)) && store::configs_of(*final(c)) == (
                if store::configs_of(*old(c)).dom().contains(id as int) {
                    store::configs_of(*old(c)).insert(
                        id as int,
                        if column@ == "path"@ {
                            StoredConfig { path: value@, ..store::configs_of(*old(c))[id as int] }
                        } else {
                            StoredConfig { data: value@, ..store::configs_of(*old(c))[id as int] }
                        },
                    )
                } else {
                    store::configs_of(*old(c))
                }),
                Err(e) => store::versions_of(*final(c)) == store::versions_of(*old(c))
                    && store::configs_of(*final(c)) == store::configs_of(*old(c)) && (e
                    == Error::InvalidField || e == Error::Storage) && (e == Error::InvalidField
                    <==> column@ != "path"@ && column@ != "data"@),
            },
    {
        if crate::text::str_eq(column, "path") {
            store::update_config_path_row(c, id, value)
        } else if crate::text::str_eq(column, "data") {
            store::update_config_data_row(c, id, value)
        } else {
            Err(Error::InvalidField)
        }
    }

    /// Re-points the row with the given id at another version.  A missing
    /// id is a no-op, not an error.
    pub fn update_version_ref(c: &mut Connection, id: i32, version_id: i32) -> (r: Result<
        (),
        Error,
    >)
        ensures
            match r {
                Ok(_) => store::versions_of(*final(c)) == store::versions_of(*old(c))
                    && store::configs_of(*final(c)) == (if store::configs_of(
                    *old(c),
                ).dom().contains(id as int) {
                    store::configs_of(*old(c)).insert(
                        id as int,
                        StoredConfig {
                            version_id: version_id as int,
                            ..store::configs_of(*old(c))[id as int]
                        },
                    )
                } else {
                    store::configs_of(*old(c))
                }),
                Err(e) => e == Error::Storage && store::versions_of(*final(c))
                    == store::versions_of(*old(c)) && store::configs_of(*final(c))
                    == store::configs_of(*old(c)),
            },
    {
        store::update_config_version_row(c, id, version_id)
    }
}

/// `cfgs` lists exactly the decoded entries of `m`, in some order.
pub open spec fn configs_match(cfgs: Seq<Config>, m: Map<int, StoredConfig>) -> bool {
    &&& forall|i: int|
        0 <= i < cfgs.len() ==> m.contains_pair((#[trigger] cfgs[i]).id as int, cfgs[i].stored())
            && cfgs[i].lines_ok()
    &&& forall|i: int, j: int|
        0 <= i < cfgs.len() && 0 <= j < cfgs.len() && i != j ==> (#[trigger] cfgs[i]).id != (
        #[trigger] cfgs[j]).id
    &&& forall|k: int|
        #[trigger] m.dom().contains(k) ==> exists|i: int|
            0 <= i < cfgs.len() && (#[trigger] cfgs[i]).id as int == k
}

} // verus!
