//! The query and mutation facade: the operations a caller (for example a
//! command-line front end) invokes, each stated against the abstract
//! table contents.
//!
//! Every operation takes an open connection; the caller owns opening the
//! store and reading or writing real files.  The sync engine's compute
//! halves live here: `write_all` produces exactly what each config's file
//! must hold, and `apply_pull` stores exactly the lines a file's content
//! parses to.

use vstd::prelude::*;
use vstd::string::*;

use crate::codec::b64_of;
use crate::entities::{configs_match, is_next_id, Config, Version};
use crate::error::Error;
use crate::store;
use crate::store::{ConfigRow, StoredConfig};
use crate::text;
use crate::text::{has_suffix, join_lines_spec, parse_content_spec, render_spec};
use rusqlite::Connection;

verus! {

/// Some version row carries this name.
pub open spec fn has_version_named(m: Map<int, Seq<char>>, name: Seq<char>) -> bool {
    exists|k: int| #[trigger] m.dom().contains(k) && m[k] == name
}

/// Some config row carries this path under this version.
pub open spec fn has_config_matching(m: Map<int, StoredConfig>, path: Seq<char>, vid: int) -> bool {
    exists|k: int| #[trigger] m.dom().contains(k) && m[k].path == path && m[k].version_id == vid
}

/// `m` without the entries whose path ends with `suf`.
pub open spec fn configs_without_path_suffix(m: Map<int, StoredConfig>, suf: Seq<char>) -> Map<
    int,
    StoredConfig,
> {
    Map::new(|k: int| m.dom().contains(k) && !has_suffix(m[k].path, suf), |k: int| m[k])
}

/// Ensures both tables exist; never touches rows, and is a no-op when
/// they already exist.
pub fn init_db(c: &mut Connection) -> (r: Result<(), Error>)
    ensures
        store::versions_of(*final(c)) == store::versions_of(*old(c)),
        store::configs_of(*final(c)) == store::configs_of(*old(c)),
        r matches Err(e) ==> e == Error::Storage,
{
    match Config::table(c) {
        Ok(_) => (),
        Err(e) => return Err(e),
    }
    Version::table(c)
}

/// Allocates the next version id and inserts a row with the given name,
/// returning the id it used.
pub fn add_version(c: &mut Connection, name: &str) -> (r: Result<i32, Error>)
    ensures
        match r {
            Ok(id) => is_next_id(id as int, store::versions_of(*old(c))) && store::versions_of(
                *final(c),
            ) == store::versions_of(*old(c)).insert(id as int, name@) && store::configs_of(
                *final(c),
            ) == store::configs_of(*old(c)),
            Err(e) => e == Error::Storage && store::versions_of(*final(c)) == store::versions_of(
                *old(c),
            ) && store::configs_of(*final(c)) == store::configs_of(*old(c)),
        },
{
    let id = match Version::next_id(c) {
        Ok(id) => id,
        Err(e) => return Err(e),
    };
    let v = Version { id, name: name.to_owned() };
    match v.create(c) {
        Ok(_) => Ok(id),
        Err(e) => Err(e),
    }
}

/// Splits the given file content into lines, allocates the next config
/// id, and inserts a row binding the path and content to the given
/// version, returning the id it used.  The caller reads the real file;
/// a file that cannot be read never reaches the store.
pub fn add_config(c: &mut Connection, path: &str, version_id: i32, content: &str) -> (r: Result<
    i32,
    Error,
>)
    ensures
        match r {
            Ok(id) => is_next_id(id as int, store::configs_of(*old(c))) && store::configs_of(
                *final(c),
            ) == store::configs_of(*old(c)).insert(
                id as int,
                StoredConfig {
                    path: path@,
                    data: b64_of(join_lines_spec(parse_content_spec(content@))),
                    version_id: version_id as int,
                },
            ) && store::versions_of(*final(c)) == store::versions_of(*old(c)),
            Err(e) => e == Error::Storage && store::versions_of(*final(c)) == store::versions_of(
                *old(c),
            ) && store::configs_of(*final(c)) == store::configs_of(*old(c)),
        },
{
    let lines = text::parse_content(content);
    let id = match Config::next_id(c) {
        Ok(id) => id,
        Err(e) => return Err(e),
    };
    let cfg = Config { id, version_id, path: path.to_owned(), data: lines };
    match cfg.create(c) {
        Ok(_) => Ok(id),
        Err(e) => Err(e),
    }
}

/// Deletes the config row with the given id; a missing id is a no-op.
/// An id beyond the store's integer range can never name a row, so it
/// too is a successful no-op.
pub fn delete_by_id(c: &mut Connection, id: u64) -> (r: Result<(), Error>)
    ensures
        match r {
            Ok(_) => store::configs_of(*final(c)) == (if id <= i64::MAX as u64 {
                store::configs_of(*old(c)).remove(id as int)
            } else {
                store::configs_of(*old(c))
            }) && store::versions_of(*final(c)) == store::versions_of(*old(c)),
            Err(e) => e == Error::Storage && store::versions_of(*final(c)) == store::versions_of(
                *old(c),
            ) && store::configs_of(*final(c)) == store::configs_of(*old(c)),
        },
{
    if id > i64::MAX as u64 {
        return Ok(());
    }
    store::delete_config_row(c, id as i64)
}

/// Deletes every config row whose path equals the given one exactly;
/// zero matches is a no-op.
pub fn delete_by_path(c: &mut Connection, path: &str) -> (r: Result<(), Error>)
    ensures
        match r {
            Ok(_) => store::configs_of(*final(c)) == store::configs_without_path(
                store::configs_of(*old(c)),
                path@,
            ) && store::versions_of(*final(c)) == store::versions_of(*old(c)),
            Err(e) => e == Error::Storage && store::versions_of(*final(c)) == store::versions_of(
                *old(c),
            ) && store::configs_of(*final(c)) == store::configs_of(*old(c)),
        },
{
    store::delete_configs_at_path(c, path)
}

/// `m` restricted to the rows whose listed prefix was not deleted yet:
/// the first `t` rows of `rows` leave when their path ends with `suf`.
pub open spec fn configs_after_suffix_deletes(
    m: Map<int, StoredConfig>,
    rows: Seq<ConfigRow>,
    t: int,
    suf: Seq<char>,
) -> Map<int, StoredConfig> {
    Map::new(
        |k: int|
            m.dom().contains(k) && !(exists|u: int|
                0 <= u < t && (#[trigger] rows[u]).id as int == k && has_suffix(rows[u].path@, suf)),
        |k: int| m[k],
    )
}

/// Deletes every config row whose path ends with the given name (the
/// trailing token of a path, or any suffix of it); zero matches is a
/// no-op.  Rows already deleted before a storage failure stay deleted.
#[verifier::loop_isolation(false)]
pub fn delete_by_name(c: &mut Connection, name: &str) -> (r: Result<(), Error>)
    ensures
        store::versions_of(*final(c)) == store::versions_of(*old(c)),
        match r {
            Ok(_) => store::configs_of(*final(c)) == configs_without_path_suffix(
                store::configs_of(*old(c)),
                name@,
            ),
            Err(e) => e == Error::Storage && (forall|k: int|
                store::configs_of(*final(c)).dom().contains(k)
                    ==> store::configs_of(*old(c)).contains_pair(
                    k,
                    store::configs_of(*final(c))[k],
                )) && (forall|k: int|
                store::configs_of(*old(c)).dom().contains(k) && !store::configs_of(
                    *final(c),
                ).dom().contains(k) ==> has_suffix(store::configs_of(*old(c))[k].path, name@)),
        },
{
    let ghost m0 = store::configs_of(*c);
    let rows = match store::select_config_rows(c) {
        Ok(rows) => rows,
        Err(e) => return Err(e),
    };
    let ghost v0 = store::versions_of(*c);
    let mut t: usize = 0;
    proof {
        assert(store::configs_of(*c) =~= configs_after_suffix_deletes(m0, rows@, 0, name@));
    }
    while t < rows.len()
        invariant
            t <= rows@.len(),
            store::config_rows_match(rows@, m0),
            store::configs_of(*c) == configs_after_suffix_deletes(m0, rows@, t as int, name@),
            store::versions_of(*c) == v0,
        decreases rows@.len() - t,
    {
        if text::str_ends_with(rows[t].path.as_str(), name) {
            match store::delete_config_row(c, rows[t].id as i64) {
                Ok(_) => {
                    proof {
                        assert(store::configs_of(*c) =~= configs_after_suffix_deletes(
                            m0,
                            rows@,
                            t + 1,
                            name@,
                        ));
                    }
                },
                Err(e) => {
                    proof {
                        lemma_partial_suffix_deletes(m0, rows@, t as int, name@);
                    }
                    return Err(e);
                },
            }
        } else {
            proof {
                assert(store::configs_of(*c) =~= configs_after_suffix_deletes(
                    m0,
                    rows@,
                    t + 1,
                    name@,
                ));
            }
        }
        t = t + 1;
    }
    proof {
        let m = configs_after_suffix_deletes(m0, rows@, rows@.len() as int, name@);
        assert forall|k: int| #[trigger] m0.dom().contains(k) && has_suffix(m0[k].path, name@)
            implies !m.dom().contains(k) by {
            let u = choose|u: int| 0 <= u < rows@.len() && (#[trigger] rows@[u]).id as int == k;
            assert(m0.contains_pair(k, store::row_stored(rows@[u])));
            assert(rows@[u].path@ == m0[k].path);
        }
        assert forall|k: int| #[trigger] m0.dom().contains(k) && !has_suffix(m0[k].path, name@)
            implies m.dom().contains(k) by {
            assert forall|u: int|
                0 <= u < rows@.len() && (#[trigger] rows@[u]).id as int == k implies !has_suffix(
                rows@[u].path@,
                name@,
            ) by {
                assert(m0.contains_pair(k, store::row_stored(rows@[u])));
            }
        }
        assert(m =~= configs_without_path_suffix(m0, name@));
    }
    Ok(())
}

/// From a partially processed row list, what remains is old rows, and
/// what left matched the suffix.
proof fn lemma_partial_suffix_deletes(
    m0: Map<int, StoredConfig>,
    rows: Seq<ConfigRow>,
    t: int,
    suf: Seq<char>,
)
    requires
        store::config_rows_match(rows, m0),
        0 <= t <= rows.len(),
    ensures
        forall|k: int|
            configs_after_suffix_deletes(m0, rows, t, suf).dom().contains(k) ==> m0.contains_pair(
                k,
                configs_after_suffix_deletes(m0, rows, t, suf)[k],
            ),
        forall|k: int|
            m0.dom().contains(k) && !configs_after_suffix_deletes(
                m0,
                rows,
                t,
                suf,
            ).dom().contains(k) ==> has_suffix(m0[k].path, suf),
{
    let m = configs_after_suffix_deletes(m0, rows, t, suf);
    assert forall|k: int| m0.dom().contains(k) && !m.dom().contains(k) implies has_suffix(
        m0[k].path,
        suf,
    ) by {
        let u = choose|u: int|
            0 <= u < t && (#[trigger] rows[u]).id as int == k && has_suffix(rows[u].path@, suf);
        assert(m0.contains_pair(k, store::row_stored(rows[u])));
    }
}

/// Deletes every version row with exactly the given name; configs that
/// pointed at it are left untouched, so their references dangle, as the
/// store's current behavior has it.
pub fn delete_version(c: &mut Connection, name: &str) -> (r: Result<(), Error>)
    ensures
        match r {
            Ok(_) => store::versions_of(*final(c)) == store::versions_without_name(
                store::versions_of(*old(c)),
                name@,
            ) && store::configs_of(*final(c)) == store::configs_of(*old(c)),
            Err(e) => e == Error::Storage && store::versions_of(*final(c)) == store::versions_of(
                *old(c),
            ) && store::configs_of(*final(c)) == store::configs_of(*old(c)),
        },
{
    store::delete_versions_named(c, name)
}

/// What the sync engine writes when pushing the store to the files: for
/// every config row, its path and the exact content its file must hold —
/// every stored line followed by a newline terminator, in stored order.
pub fn write_all(c: &Connection) -> (r: Result<Vec<(String, String)>, Error>)
    ensures
        match r {
            Ok(files) => exists|cfgs: Seq<Config>|
                #![auto]
                configs_match(cfgs, store::configs_of(*c)) && files@.len() == cfgs.len() && forall|
                    i: int,
                |
                    0 <= i < cfgs.len() ==> files@[i].0@ == cfgs[i].path@ && files@[i].1@
                        == render_spec(cfgs[i].data.deep_view()),
            Err(e) => e == Error::Storage,
        },
{
    let cfgs = match Config::all(c) {
        Ok(cfgs) => cfgs,
        Err(e) => return Err(e),
    };
    let mut files: Vec<(String, String)> = Vec::new();
    let mut t: usize = 0;
    while t < cfgs.len()
        invariant
            t <= cfgs@.len(),
            files@.len() == t,
            forall|i: int|
                0 <= i < t ==> (#[trigger] files@[i]).0@ == cfgs@[i].path@ && files@[i].1@
                    == render_spec(cfgs@[i].data.deep_view()),
        decreases cfgs@.len() - t,
    {
        let content = text::render_content(&cfgs[t].data);
        files.push((cfgs[t].path.clone(), content));
        t = t + 1;
    }
    Ok(files)
}

/// What the sync engine stores when pulling one file back: the stored
/// data of the row with the given id becomes the encoded join of the
/// lines the file's content parses to.  A missing id is a no-op.
pub fn apply_pull(c: &mut Connection, id: i32, content: &str) -> (r: Result<(), Error>)
    ensures
        match r {
            Ok(_) => store::versions_of(*final(c)) == store::versions_of(*old(c))
                && store::configs_of(*final(c)) == (if store::configs_of(*old(c)).dom().contains(
                id as int,
            ) {
                store::configs_of(*old(c)).insert(
                    id as int,
                    StoredConfig {
                        data: b64_of(join_lines_spec(parse_content_spec(content@))),
                        ..store::configs_of(*old(c))[id as int]
                    },
                )
            } else {
                store::configs_of(*old(c))
            }),
            Err(e) => e == Error::Storage && store::versions_of(*final(c)) == store::versions_of(
                *old(c),
            ) && store::configs_of(*final(c)) == store::configs_of(*old(c)),
        },
{
    let lines = text::parse_content(content);
    let joined = text::join_lines(&lines);
    let data = crate::codec::encode_text(joined.as_str());
    proof {
        reveal_strlit("data");
        reveal_strlit("path");
        assert("data"@[0] != "path"@[0]);
        assert("data"@ != "path"@);
    }
    Config::update(c, id, "data", data.as_str())
}

/// `m` with every entry named `from` renamed to `to`.
pub open spec fn rename_versions(m: Map<int, Seq<char>>, from: Seq<char>, to: Seq<char>) -> Map<
    int,
    Seq<char>,
> {
    Map::new(|k: int| m.dom().contains(k), |k: int| if m[k] == from {
        to
    } else {
        m[k]
    })
}

/// `m` with the first `t` listed ids renamed to `to`.
pub open spec fn rename_listed(
    m: Map<int, Seq<char>>,
    ids: Seq<i32>,
    t: int,
    to: Seq<char>,
) -> Map<int, Seq<char>> {
    Map::new(
        |k: int| m.dom().contains(k),
        |k: int|
            if exists|u: int| 0 <= u < t && (#[trigger] ids[u]) as int == k {
                to
            } else {
                m[k]
            },
    )
}

/// Renames every version with the old name to the new one.  Rows already
/// renamed before a storage failure stay renamed.
#[verifier::loop_isolation(false)]
pub fn update_version(c: &mut Connection, name: &str, new_name: &str) -> (r: Result<(), Error>)
    ensures
        store::configs_of(*final(c)) == store::configs_of(*old(c)),
        match r {
            Ok(_) => has_version_named(store::versions_of(*old(c)), name@) && store::versions_of(
                *final(c),
            ) == rename_versions(store::versions_of(*old(c)), name@, new_name@),
            Err(e) => {
                &&& (e == Error::NoMatch || e == Error::Storage)
                &&& (e == Error::NoMatch ==> !has_version_named(
                    store::versions_of(*old(c)),
                    name@,
                ) && store::versions_of(*final(c)) == store::versions_of(*old(c)))
                &&& store::versions_of(*final(c)).dom() == store::versions_of(*old(c)).dom()
                &&& forall|k: int|
                    store::versions_of(*old(c)).dom().contains(k) ==> store::versions_of(
                        *final(c),
                    )[k] == store::versions_of(*old(c))[k] || (store::versions_of(*old(c))[k]
                        == name@ && store::versions_of(*final(c))[k] == new_name@)
            },
        },
{
    let ghost v0 = store::versions_of(*c);
    let vs = match Version::all(c) {
        Ok(vs) => vs,
        Err(e) => return Err(e),
    };
    let mut matched: Vec<i32> = Vec::new();
    let mut i: usize = 0;
    while i < vs.len()
        invariant
            i <= vs@.len(),
            forall|t: int|
                0 <= t < matched@.len() ==> v0.contains_pair(
                    (#[trigger] matched@[t]) as int,
                    name@,
                ),
            forall|t: int|
                0 <= t < matched@.len() ==> exists|j: int|
                    0 <= j < i && (#[trigger] matched@[t]) == vs@[j].id,
            forall|t1: int, t2: int|
                0 <= t1 < matched@.len() && 0 <= t2 < matched@.len() && t1 != t2 ==> (
                #[trigger] matched@[t1]) != (#[trigger] matched@[t2]),
            forall|j: int|
                0 <= j < i && (#[trigger] vs@[j]).name@ == name@ ==> exists|t: int|
                    0 <= t < matched@.len() && (#[trigger] matched@[t]) == vs@[j].id,
        decreases vs@.len() - i,
    {
        let ghost m_pre = matched@;
        if text::str_eq(vs[i].name.as_str(), name) {
            matched.push(vs[i].id);
        }
        proof {
            assert forall|j: int|
                0 <= j < i + 1 && (#[trigger] vs@[j]).name@ == name@ implies exists|t: int|
                0 <= t < matched@.len() && (#[trigger] matched@[t]) == vs@[j].id by {
                if j < i {
                    let t = choose|t: int|
                        0 <= t < m_pre.len() && (#[trigger] m_pre[t]) == vs@[j].id;
                    assert(matched@[t] == vs@[j].id);
                } else {
                    assert(matched@[matched@.len() - 1] == vs@[i as int].id);
                }
            }
        }
        i = i + 1;
    }
    proof {
        assert forall|k: int| v0.dom().contains(k) && v0[k] == name@ implies exists|t: int|
            0 <= t < matched@.len() && (#[trigger] matched@[t]) as int == k by {
            let j = choose|j: int| 0 <= j < vs@.len() && (#[trigger] vs@[j]).id as int == k;
            assert(v0.contains_pair(vs@[j].id as int, vs@[j].name@));
            assert(vs@[j].name@ == name@);
        }
    }
    if matched.len() == 0 {
        proof {
            assert forall|k: int| #[trigger] v0.dom().contains(k) implies v0[k] != name@ by {}
        }
        return Err(Error::NoMatch);
    }
    let ghost mids = matched@;
    let mut t: usize = 0;
    proof {
        assert(store::versions_of(*c) =~= rename_listed(v0, mids, 0, new_name@));
    }
    while t < matched.len()
        invariant
            t <= matched@.len(),
            matched@ == mids,
            store::configs_of(*c) == store::configs_of(*old(c)),
            store::versions_of(*c) == rename_listed(v0, mids, t as int, new_name@),
        decreases matched@.len() - t,
    {
        match store::update_version_name_row(c, matched[t], new_name) {
            Ok(_) => {
                proof {
                    assert(store::versions_of(*c) =~= rename_listed(
                        v0,
                        mids,
                        t + 1,
                        new_name@,
                    ));
                }
            },
            Err(e) => {
                proof {
                    lemma_partial_renames(v0, mids, t as int, name@, new_name@);
                }
                return Err(e);
            },
        }
        t = t + 1;
    }
    proof {
        assert(v0.dom().contains(mids[0] as int) && v0[mids[0] as int] == name@);
        assert(store::versions_of(*c) =~= rename_versions(v0, name@, new_name@));
    }
    Ok(())
}

/// From a partially renamed id list, the domain is kept, and every entry
/// is its old value or was renamed from the old name.
proof fn lemma_partial_renames(
    m0: Map<int, Seq<char>>,
    ids: Seq<i32>,
    t: int,
    from: Seq<char>,
    to: Seq<char>,
)
    requires
        forall|u: int| 0 <= u < ids.len() ==> m0.contains_pair((#[trigger] ids[u]) as int, from),
        0 <= t <= ids.len(),
    ensures
        rename_listed(m0, ids, t, to).dom() == m0.dom(),
        forall|k: int|
            m0.dom().contains(k) ==> rename_listed(m0, ids, t, to)[k] == m0[k] || (m0[k] == from
                && rename_listed(m0, ids, t, to)[k] == to),
{
    assert(rename_listed(m0, ids, t, to).dom() =~= m0.dom());
    assert forall|k: int| m0.dom().contains(k) implies rename_listed(m0, ids, t, to)[k] == m0[k]
        || (m0[k] == from && rename_listed(m0, ids, t, to)[k] == to) by {
        if exists|u: int| 0 <= u < t && (#[trigger] ids[u]) as int == k {
            let u = choose|u: int| 0 <= u < t && (#[trigger] ids[u]) as int == k;
            assert(m0.contains_pair(ids[u] as int, from));
        }
    }
}

/// The assignment carries a `field=value` shape.
pub open spec fn assign_has_eq(s: Seq<char>) -> bool {
    text::first_index_of(s, '=') < s.len()
}

/// The field before the first `=` of an assignment.
pub open spec fn assign_field(s: Seq<char>) -> Seq<char> {
    s.take(text::first_index_of(s, '='))
}

/// The value between the first `=` and the next one, or the rest if
/// there is no second `=`.
pub open spec fn assign_value(s: Seq<char>) -> Seq<char> {
    let r = s.skip(text::first_index_of(s, '=') + 1);
    r.take(text::first_index_of(r, '='))
}

/// `m` with every config at `path` under version `vid` re-pathed.
pub open spec fn configs_path_updated(
    m: Map<int, StoredConfig>,
    path: Seq<char>,
    vid: int,
    new_path: Seq<char>,
) -> Map<int, StoredConfig> {
    Map::new(
        |k: int| m.dom().contains(k),
        |k: int|
            if m[k].path == path && m[k].version_id == vid {
                StoredConfig { path: new_path, ..m[k] }
            } else {
                m[k]
            },
    )
}

/// `m` with every config at `path` under version `vid` re-pointed.
pub open spec fn configs_version_updated(
    m: Map<int, StoredConfig>,
    path: Seq<char>,
    vid: int,
    new_vid: int,
) -> Map<int, StoredConfig> {
    Map::new(
        |k: int| m.dom().contains(k),
        |k: int|
            if m[k].path == path && m[k].version_id == vid {
                StoredConfig { version_id: new_vid, ..m[k] }
            } else {
                m[k]
            },
    )
}

/// `m` with the first `t` listed ids re-pathed.
pub open spec fn paths_listed_updated(
    m: Map<int, StoredConfig>,
    ids: Seq<i32>,
    t: int,
    new_path: Seq<char>,
) -> Map<int, StoredConfig> {
    Map::new(
        |k: int| m.dom().contains(k),
        |k: int|
            if exists|u: int| 0 <= u < t && (#[trigger] ids[u]) as int == k {
                StoredConfig { path: new_path, ..m[k] }
            } else {
                m[k]
            },
    )
}

/// `m` with the first `t` listed ids re-pointed.
pub open spec fn versions_listed_updated(
    m: Map<int, StoredConfig>,
    ids: Seq<i32>,
    t: int,
    new_vid: int,
) -> Map<int, StoredConfig> {
    Map::new(
        |k: int| m.dom().contains(k),
        |k: int|
            if exists|u: int| 0 <= u < t && (#[trigger] ids[u]) as int == k {
                StoredConfig { version_id: new_vid, ..m[k] }
            } else {
                m[k]
            },
    )
}

/// Applies one `field=value` assignment to every config matching the old
/// path under the version with the given name.  The field is restricted
/// to `path` and `version`; for `version` the value is itself a version
/// name, resolved to an id before writing.  A single call rewrites every
/// matched row; rows already rewritten before a storage failure stay
/// rewritten.
#[verifier::loop_isolation(false)]
pub fn update_config(c: &mut Connection, path: &str, version: &str, new_value: &str) -> (r: Result<
    (),
    Error,
>)
    ensures
        store::versions_of(*final(c)) == store::versions_of(*old(c)),
        match r {
            Ok(_) => {
                &&& assign_has_eq(new_value@)
                &&& (assign_field(new_value@) == "path"@ || assign_field(new_value@)
                    == "version"@)
                &&& exists|vid: int|
                    {
                        &&& #[trigger] store::versions_of(*old(c)).contains_pair(vid, version@)
                        &&& has_config_matching(store::configs_of(*old(c)), path@, vid)
                        &&& if assign_field(new_value@) == "path"@ {
                            store::configs_of(*final(c)) == configs_path_updated(
                                store::configs_of(*old(c)),
                                path@,
                                vid,
                                assign_value(new_value@),
                            )
                        } else {
                            exists|nvid: int|
                                #[trigger] store::versions_of(*old(c)).contains_pair(
                                    nvid,
                                    assign_value(new_value@),
                                ) && store::configs_of(*final(c)) == configs_version_updated(
                                    store::configs_of(*old(c)),
                                    path@,
                                    vid,
                                    nvid,
                                )
                        }
                    }
            },
            Err(e) => {
                &&& (e == Error::NotFound || e == Error::NoMatch || e == Error::InvalidField || e
                    == Error::Storage)
                &&& (e == Error::NotFound ==> store::configs_of(*final(c)) == store::configs_of(
                    *old(c),
                ) && (!has_version_named(store::versions_of(*old(c)), version@) || (assign_has_eq(
                    new_value@,
                ) && assign_field(new_value@) == "version"@ && !has_version_named(
                    store::versions_of(*old(c)),
                    assign_value(new_value@),
                ))))
                &&& (e == Error::NoMatch ==> store::configs_of(*final(c)) == store::configs_of(
                    *old(c),
                ) && exists|vid: int|
                    #[trigger] store::versions_of(*old(c)).contains_pair(vid, version@)
                        && !has_config_matching(store::configs_of(*old(c)), path@, vid))
                &&& (e == Error::InvalidField ==> store::configs_of(*final(c))
                    == store::configs_of(*old(c)) && (!assign_has_eq(new_value@) || (assign_field(
                    new_value@,
                ) != "path"@ && assign_field(new_value@) != "version"@)))
                &&& (e == Error::Storage ==> store::configs_of(*final(c)).dom()
                    == store::configs_of(*old(c)).dom())
            },
        },
{
    let ghost v0 = store::versions_of(*c);
    let ghost m0 = store::configs_of(*c);
    let vs = match Version::all(c) {
        Ok(vs) => vs,
        Err(e) => return Err(e),
    };
    // resolve the version name to some id carrying it
    let mut vid: i32 = 0;
    let mut vid_found = false;
    let mut j: usize = 0;
    while j < vs.len() && !vid_found
        invariant
            j <= vs@.len(),
            vid_found ==> v0.contains_pair(vid as int, version@),
            !vid_found ==> forall|u: int| 0 <= u < j ==> (#[trigger] vs@[u]).name@ != version@,
        decreases vs@.len() - j + (if vid_found {
            0int
        } else {
            1int
        }),
    {
        if text::str_eq(vs[j].name.as_str(), version) {
            vid = vs[j].id;
            vid_found = true;
        } else {
            j = j + 1;
        }
    }
    if !vid_found {
        proof {
            assert forall|k: int| #[trigger] v0.dom().contains(k) implies v0[k] != version@ by {
                let u = choose|u: int| 0 <= u < vs@.len() && (#[trigger] vs@[u]).id as int == k;
                assert(v0.contains_pair(vs@[u].id as int, vs@[u].name@));
            }
        }
        return Err(Error::NotFound);
    }
    // collect the ids of the configs matching path and version
    let cfgs = match Config::all(c) {
        Ok(cfgs) => cfgs,
        Err(e) => return Err(e),
    };
    let mut matched: Vec<i32> = Vec::new();
    let mut i: usize = 0;
    while i < cfgs.len()
        invariant
            i <= cfgs@.len(),
            forall|t: int|
                0 <= t < matched@.len() ==> m0.dom().contains((#[trigger] matched@[t]) as int)
                    && m0[matched@[t] as int].path == path@ && m0[matched@[t] as int].version_id
                    == vid as int,
            forall|t1: int, t2: int|
                0 <= t1 < matched@.len() && 0 <= t2 < matched@.len() && t1 != t2 ==> (
                #[trigger] matched@[t1]) != (#[trigger] matched@[t2]),
            forall|t: int|
                0 <= t < matched@.len() ==> exists|j2: int|
                    0 <= j2 < i && (#[trigger] matched@[t]) == cfgs@[j2].id,
            forall|j2: int|
                0 <= j2 < i && (#[trigger] cfgs@[j2]).path@ == path@ && cfgs@[j2].version_id
                    == vid ==> exists|t: int|
                    0 <= t < matched@.len() && (#[trigger] matched@[t]) == cfgs@[j2].id,
        decreases cfgs@.len() - i,
    {
        let ghost m_pre = matched@;
        if text::str_eq(cfgs[i].path.as_str(), path) && cfgs[i].version_id == vid {
            matched.push(cfgs[i].id);
            proof {
                assert(m0.contains_pair(cfgs@[i as int].id as int, cfgs@[i as int].stored()));
            }
        }
        proof {
            assert forall|j2: int|
                0 <= j2 < i + 1 && (#[trigger] cfgs@[j2]).path@ == path@ && cfgs@[j2].version_id
                    == vid implies exists|t: int|
                0 <= t < matched@.len() && (#[trigger] matched@[t]) == cfgs@[j2].id by {
                if j2 < i {
                    let t = choose|t: int|
                        0 <= t < m_pre.len() && (#[trigger] m_pre[t]) == cfgs@[j2].id;
                    assert(matched@[t] == cfgs@[j2].id);
                } else {
                    assert(matched@[matched@.len() - 1] == cfgs@[i as int].id);
                }
            }
        }
        i = i + 1;
    }
    proof {
        assert forall|k: int|
            m0.dom().contains(k) && m0[k].path == path@ && m0[k].version_id
                == vid as int implies exists|t: int|
            0 <= t < matched@.len() && (#[trigger] matched@[t]) as int == k by {
            let j2 = choose|j2: int| 0 <= j2 < cfgs@.len() && (#[trigger] cfgs@[j2]).id as int
                == k;
            assert(m0.contains_pair(cfgs@[j2].id as int, cfgs@[j2].stored()));
            assert(cfgs@[j2].path@ == path@ && cfgs@[j2].version_id == vid);
        }
    }
    if matched.len() == 0 {
        proof {
            assert forall|k: int| #[trigger] m0.dom().contains(k) implies !(m0[k].path == path@
                && m0[k].version_id == vid as int) by {}
        }
        return Err(Error::NoMatch);
    }
    // parse the field=value assignment
    let n = new_value.unicode_len();
    let k1 = text::find_char(new_value, '=');
    proof {
        text::lemma_first_index_of(new_value@, '=');
    }
    if k1 == n {
        return Err(Error::InvalidField);
    }
    let field = new_value.substring_char(0, k1);
    let rest = new_value.substring_char(k1 + 1, n);
    proof {
        assert(field@ =~= assign_field(new_value@));
        assert(rest@ =~= new_value@.skip(k1 + 1));
        text::lemma_first_index_of(rest@, '=');
    }
    let k2 = text::find_char(rest, '=');
    let value = rest.substring_char(0, k2);
    proof {
        assert(value@ =~= assign_value(new_value@));
    }
    let ghost mids = matched@;
    if text::str_eq(field, "path") {
        let mut t: usize = 0;
        proof {
            assert(store::configs_of(*c) =~= paths_listed_updated(m0, mids, 0, value@));
        }
        while t < matched.len()
            invariant
                t <= matched@.len(),
                matched@ == mids,
                store::versions_of(*c) == v0,
                store::configs_of(*c) == paths_listed_updated(m0, mids, t as int, value@),
            decreases matched@.len() - t,
        {
            match Config::update(c, matched[t], "path", value) {
                Ok(_) => {
                    proof {
                        assert(store::configs_of(*c) =~= paths_listed_updated(
                            m0,
                            mids,
                            t + 1,
                            value@,
                        ));
                    }
                },
                Err(e) => {
                    proof {
                        assert(store::configs_of(*c).dom() =~= m0.dom());
                    }
                    return Err(e);
                },
            }
            t = t + 1;
        }
        proof {
            assert(v0.contains_pair(vid as int, version@));
            assert(m0.dom().contains(mids[0] as int) && m0[mids[0] as int].path == path@
                && m0[mids[0] as int].version_id == vid as int);
            assert(store::configs_of(*c) =~= configs_path_updated(m0, path@, vid as int, value@));
        }
        Ok(())
    } else if text::str_eq(field, "version") {
        // resolve the new version name to some id carrying it
        let mut nvid: i32 = 0;
        let mut nvid_found = false;
        let mut j2: usize = 0;
        while j2 < vs.len() && !nvid_found
            invariant
                j2 <= vs@.len(),
                nvid_found ==> v0.contains_pair(nvid as int, value@),
                !nvid_found ==> forall|u: int| 0 <= u < j2 ==> (#[trigger] vs@[u]).name@ != value@,
            decreases vs@.len() - j2 + (if nvid_found {
                0int
            } else {
                1int
            }),
        {
            if text::str_eq(vs[j2].name.as_str(), value) {
                nvid = vs[j2].id;
                nvid_found = true;
            } else {
                j2 = j2 + 1;
            }
        }
        if !nvid_found {
            proof {
                assert forall|k: int| #[trigger] v0.dom().contains(k) implies v0[k] != value@ by {
                    let u = choose|u: int| 0 <= u < vs@.len() && (#[trigger] vs@[u]).id as int
                        == k;
                    assert(v0.contains_pair(vs@[u].id as int, vs@[u].name@));
                }
            }
            return Err(Error::NotFound);
        }
        let mut t: usize = 0;
        proof {
            assert(store::configs_of(*c) =~= versions_listed_updated(m0, mids, 0, nvid as int));
        }
        while t < matched.len()
            invariant
                t <= matched@.len(),
                matched@ == mids,
                store::versions_of(*c) == v0,
                store::configs_of(*c) == versions_listed_updated(m0, mids, t as int, nvid as int),
            decreases matched@.len() - t,
        {
            match Config::update_version_ref(c, matched[t], nvid) {
                Ok(_) => {
                    proof {
                        assert(store::configs_of(*c) =~= versions_listed_updated(
                            m0,
                            mids,
                            t + 1,
                            nvid as int,
                        ));
                    }
                },
                Err(e) => {
                    proof {
                        assert(store::configs_of(*c).dom() =~= m0.dom());
                    }
                    return Err(e);
                },
            }
            t = t + 1;
        }
        proof {
            assert(v0.contains_pair(vid as int, version@));
            assert(v0.contains_pair(nvid as int, value@));
            assert(m0.dom().contains(mids[0] as int) && m0[mids[0] as int].path == path@
                && m0[mids[0] as int].version_id == vid as int);
            assert(store::configs_of(*c) =~= configs_version_updated(
                m0,
                path@,
                vid as int,
                nvid as int,
            ));
        }
        Ok(())
    } else {
        Err(Error::InvalidField)
    }
}

/// The tree listing of every config, grouped under its version's name in
/// first-seen order: for each group a header block, then one connector
/// line per path.  Fails with `NotFound` when a config's version
/// reference dangles.
#[verifier::loop_isolation(false)]
pub fn list_configs(c: &Connection) -> (r: Result<String, Error>)
    ensures
        match r {
            Ok(s) => exists|cfgs: Seq<Config>, names: Seq<Seq<char>>|
                #![auto]
                configs_match(cfgs, store::configs_of(*c)) && names.len() == cfgs.len() && (forall|
                    i: int,
                |
                    0 <= i < cfgs.len() ==> store::versions_of(*c).contains_pair(
                        cfgs[i].version_id as int,
                        names[i],
                    )) && s@ == crate::tree::render_tree_spec(
                    Seq::new(cfgs.len(), |i: int| (names[i], cfgs[i].path@)),
                ),
            Err(e) => (e == Error::NotFound || e == Error::Storage) && (e == Error::NotFound
                ==> exists|k: int|
                #[trigger] store::configs_of(*c).dom().contains(k) && !store::versions_of(
                    *c,
                ).dom().contains(store::configs_of(*c)[k].version_id)),
        },
{
    let cfgs = match Config::all(c) {
        Ok(cfgs) => cfgs,
        Err(e) => return Err(e),
    };
    let mut entries: Vec<(String, String)> = Vec::new();
    let ghost mut names: Seq<Seq<char>> = Seq::empty();
    let mut t: usize = 0;
    while t < cfgs.len()
        invariant
            t <= cfgs@.len(),
            entries@.len() == t,
            names.len() == t,
            forall|i: int|
                0 <= i < t ==> store::versions_of(*c).contains_pair(
                    (#[trigger] cfgs@[i]).version_id as int,
                    names[i],
                ),
            forall|i: int|
                0 <= i < t ==> (#[trigger] entries@[i]).0@ == names[i] && entries@[i].1@
                    == cfgs@[i].path@,
        decreases cfgs@.len() - t,
    {
        let v = match Version::find(c, cfgs[t].version_id) {
            Ok(v) => v,
            Err(e) => {
                proof {
                    if e == Error::NotFound {
                        assert(store::configs_of(*c).contains_pair(
                            cfgs@[t as int].id as int,
                            cfgs@[t as int].stored(),
                        ));
                    }
                }
                return Err(e);
            },
        };
        let ghost nm = v.name@;
        entries.push((v.name, cfgs[t].path.clone()));
        proof {
            names = names.push(nm);
        }
        t = t + 1;
    }
    let rendered = match crate::tree::build_tree(&entries) {
        Ok(s) => s,
        Err(e) => return Err(e),
    };
    proof {
        assert(crate::tree::entries_view(entries@) =~= Seq::new(
            cfgs@.len(),
            |i: int| (names[i], cfgs@[i].path@),
        ));
        assert(configs_match(cfgs@, store::configs_of(*c)) && names.len() == cfgs@.len() && (
        forall|i: int|
            0 <= i < cfgs@.len() ==> store::versions_of(*c).contains_pair(
                (#[trigger] cfgs@[i]).version_id as int,
                names[i],
            )) && rendered@ == crate::tree::render_tree_spec(
            Seq::new(cfgs@.len(), |i: int| (names[i], cfgs@[i].path@)),
        ));
    }
    Ok(rendered)
}

/// Keeps the entries whose version name is `name`.
pub open spec fn entry_named(name: Seq<char>) -> spec_fn((Seq<char>, Seq<char>)) -> bool {
    |e: (Seq<char>, Seq<char>)| e.0 == name
}

/// The tree listing restricted to the configs whose version carries the
/// given name: the full entry list filtered to that name, then rendered
/// as `list_configs` renders.
#[verifier::loop_isolation(false)]
pub fn list_version(c: &Connection, name: &str) -> (r: Result<String, Error>)
    ensures
        match r {
            Ok(s) => exists|cfgs: Seq<Config>, names: Seq<Seq<char>>|
                #![auto]
                configs_match(cfgs, store::configs_of(*c)) && names.len() == cfgs.len() && (forall|
                    i: int,
                |
                    0 <= i < cfgs.len() ==> store::versions_of(*c).contains_pair(
                        cfgs[i].version_id as int,
                        names[i],
                    )) && s@ == crate::tree::render_tree_spec(
                    Seq::new(cfgs.len(), |i: int| (names[i], cfgs[i].path@)).filter(
                        |e: (Seq<char>, Seq<char>)| e.0 == name@,
                    ),
                ),
            Err(e) => (e == Error::NotFound || e == Error::Storage) && (e == Error::NotFound
                ==> exists|k: int|
                #[trigger] store::configs_of(*c).dom().contains(k) && !store::versions_of(
                    *c,
                ).dom().contains(store::configs_of(*c)[k].version_id)),
        },
{
    let cfgs = match Config::all(c) {
        Ok(cfgs) => cfgs,
        Err(e) => return Err(e),
    };
    let mut entries: Vec<(String, String)> = Vec::new();
    let ghost mut names: Seq<Seq<char>> = Seq::empty();
    let ghost pred = entry_named(name@);
    let mut t: usize = 0;
    proof {
        reveal(Seq::filter);
        assert(Seq::new(0 as nat, |i: int| (names[i], cfgs@[i].path@)).filter(pred)
            =~= crate::tree::entries_view(entries@));
    }
    while t < cfgs.len()
        invariant
            t <= cfgs@.len(),
            names.len() == t,
            forall|i: int|
                0 <= i < t ==> store::versions_of(*c).contains_pair(
                    (#[trigger] cfgs@[i]).version_id as int,
                    names[i],
                ),
            crate::tree::entries_view(entries@) == Seq::new(
                t as nat,
                |i: int| (names[i], cfgs@[i].path@),
            ).filter(pred),
        decreases cfgs@.len() - t,
    {
        let v = match Version::find(c, cfgs[t].version_id) {
            Ok(v) => v,
            Err(e) => {
                proof {
                    if e == Error::NotFound {
                        assert(store::configs_of(*c).contains_pair(
                            cfgs@[t as int].id as int,
                            cfgs@[t as int].stored(),
                        ));
                    }
                }
                return Err(e);
            },
        };
        let ghost nm = v.name@;
        let ghost full_pre = Seq::new(t as nat, |i: int| (names[i], cfgs@[i].path@));
        let keep = text::str_eq(v.name.as_str(), name);
        if keep {
            entries.push((v.name, cfgs[t].path.clone()));
        }
        proof {
            reveal(Seq::filter);
            names = names.push(nm);
            let full_post = Seq::new((t + 1) as nat, |i: int| (names[i], cfgs@[i].path@));
            assert(full_post.drop_last() =~= full_pre);
            assert(full_post.last() == (nm, cfgs@[t as int].path@));
            if keep {
                assert(crate::tree::entries_view(entries@) =~= full_pre.filter(pred).push(
                    (nm, cfgs@[t as int].path@),
                ));
            }
            assert(crate::tree::entries_view(entries@) =~= full_post.filter(pred));
        }
        t = t + 1;
    }
    let rendered = match crate::tree::build_tree(&entries) {
        Ok(s) => s,
        Err(e) => return Err(e),
    };
    proof {
        assert(configs_match(cfgs@, store::configs_of(*c)) && names.len() == cfgs@.len() && (
        forall|i: int|
            0 <= i < cfgs@.len() ==> store::versions_of(*c).contains_pair(
                (#[trigger] cfgs@[i]).version_id as int,
                names[i],
            )) && rendered@ == crate::tree::render_tree_spec(
            Seq::new(cfgs@.len(), |i: int| (names[i], cfgs@[i].path@)).filter(
                entry_named(name@),
            ),
        ));
    }
    Ok(rendered)
}

/// Pull right after push changes nothing: the lines a config's freshly
/// pushed file parses back to are exactly the stored lines, so the row
/// update `apply_pull` performs is the identity on the table.  Holds for
/// every stored config, since every stored line list comes from splitting
/// a text: at least one line, none containing a newline.
pub proof fn lemma_pull_after_push(m: Map<int, StoredConfig>, cfg: Config)
    requires
        cfg.lines_ok(),
        m.contains_pair(cfg.id as int, cfg.stored()),
    ensures
        b64_of(join_lines_spec(parse_content_spec(render_spec(cfg.data.deep_view()))))
            == cfg.stored().data,
        m.insert(
            cfg.id as int,
            StoredConfig {
                data: b64_of(
                    join_lines_spec(parse_content_spec(render_spec(cfg.data.deep_view()))),
                ),
                ..m[cfg.id as int]
            },
        ) == m,
{
    text::lemma_parse_of_render(cfg.data.deep_view());
    let k = cfg.id as int;
    assert(m[k] == cfg.stored());
    assert(StoredConfig {
        data: b64_of(join_lines_spec(parse_content_spec(render_spec(cfg.data.deep_view())))),
        ..m[k]
    } == m[k]);
    assert(m.insert(k, m[k]) =~= m);
}

} // verus!
