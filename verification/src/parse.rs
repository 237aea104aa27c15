//! Reading a project from the table of a `pom.toml`: the keys that the
//! project recognizes, the errors for what it refuses, and what it keeps.
use vstd::prelude::*;
use crate::text::{split_once, split_once_spec};
use crate::toml_model::{
    lemma_value_view, lemma_lookup_without, lemma_entries_view, key_index, lookup, without, TableView,
    TomlTable, TomlValue, ValueView, toml_value_text, value_to_string, toml_document,
    toml_parse_message, parse_toml_table,
};
use crate::project::{Dependency, Plugin, Project, Properties, Repository};

verus! {

broadcast use lemma_value_view;

/// The string stored under `k`, when there is one.
pub open spec fn string_at(t: TableView, k: Seq<char>) -> Option<Seq<char>> {
    match lookup(t, k) {
        Some(ValueView::String(s)) => Some(s),
        _ => None,
    }
}

/// What an optional string entry gives: `Some(None)` when `k` is absent,
/// `Some(Some(s))` for a string, `None` for a value of another type.
pub open spec fn optional_string_at(t: TableView, k: Seq<char>) -> Option<Option<Seq<char>>> {
    match lookup(t, k) {
        None => Some(None),
        Some(ValueView::String(s)) => Some(Some(s)),
        Some(_) => None,
    }
}

/// What an optional table entry gives: `Some(None)` when `k` is absent,
/// `Some(Some(s))` for a table, `None` for a value of another type.
pub open spec fn optional_table_at(t: TableView, k: Seq<char>) -> Option<Option<TableView>> {
    match lookup(t, k) {
        None => Some(None),
        Some(ValueView::Table(s)) => Some(Some(s)),
        Some(_) => None,
    }
}

pub open spec fn opt_view(o: Option<String>) -> Option<Seq<char>> {
    match o {
        Some(s) => Some(s@),
        None => None,
    }
}

/// The first of two errors that is there.
pub open spec fn or_else(a: Option<Seq<char>>, b: Option<Seq<char>>) -> Option<Seq<char>> {
    if a is Some {
        a
    } else {
        b
    }
}

/// The table without the entries of `keys`.
pub open spec fn without_all(t: TableView, keys: Seq<Seq<char>>) -> TableView
    decreases keys.len(),
{
    if keys.len() == 0 {
        t
    } else {
        without_all(without(t, keys[0]), keys.drop_first())
    }
}

/// Takes the entry `name` out of `table`; it must be a string.
fn mandatory_string(table: &mut TomlTable, name: &str) -> (r: Result<String, ()>)
    ensures
        final(table)@ == without(old(table)@, name@),
        match string_at(old(table)@, name@) {
            Some(s) => r matches Ok(x) && x@ == s,
            None => r is Err,
        },
{
    match table.remove(name) {
        Some(TomlValue::String(s)) => Ok(s),
        _ => Err(()),
    }
}

/// Takes the entry `name` out of `table`; when present, it must be a string.
fn optional_string(table: &mut TomlTable, name: &str) -> (r: Result<Option<String>, ()>)
    ensures
        final(table)@ == without(old(table)@, name@),
        match optional_string_at(old(table)@, name@) {
            Some(o) => r matches Ok(x) && opt_view(x) == o,
            None => r is Err,
        },
{
    if let Some(val) = table.remove(name) {
        if let TomlValue::String(s) = val {
            Ok(Some(s))
        } else {
            Err(())
        }
    } else {
        Ok(None)
    }
}

/// Takes the entry `name` out of `table`; when present, it must be a table.
fn optional_table(table: &mut TomlTable, name: &str) -> (r: Result<Option<TomlTable>, ()>)
    ensures
        final(table)@ == without(old(table)@, name@),
        match optional_table_at(old(table)@, name@) {
            Some(Some(s)) => r matches Ok(Some(x)) && x@ == s,
            Some(None) => r matches Ok(None),
            None => r is Err,
        },
{
    if let Some(val) = table.remove(name) {
        if let TomlValue::Table(t) = val {
            Ok(Some(t))
        } else {
            Err(())
        }
    } else {
        Ok(None)
    }
}

// ---------------------------------------------------------------------------
// Properties

/// The error of `Properties::parse` on a table, if any.
pub open spec fn properties_error(t: TableView) -> Option<Seq<char>> {
    if optional_string_at(t, "release"@) is None {
        Some("expected `release` in `properties` table to be a string"@)
    } else if optional_string_at(t, "encoding"@) is None {
        Some("expected `encoding` in `properties` table to be a string"@)
    } else {
        None
    }
}

/// The properties read from a table: the release and the encoding, and the
/// other entries as they are.
pub open spec fn properties_match(p: Properties, t: TableView) -> bool {
    &&& opt_view(p.release) == optional_string_at(t, "release"@)->0
    &&& opt_view(p.encoding) == optional_string_at(t, "encoding"@)->0
    &&& p.rest@ == without(without(t, "release"@), "encoding"@)
}

impl Properties {
    /// Reads the `[properties]` table.
    pub fn parse(table: TomlTable) -> (r: Result<Properties, String>)
        ensures
            match r {
                Ok(p) => properties_error(table@) is None && properties_match(p, table@),
                Err(e) => properties_error(table@) == Some(e@),
            },
    {
        proof {
            reveal_strlit("release");
            reveal_strlit("encoding");
            assert("release"@[0] != "encoding"@[0]);
            lemma_lookup_without(table@, "release"@, "encoding"@);
        }
        let mut table = table;
        let release = match optional_string(&mut table, "release") {
            Ok(x) => x,
            Err(()) => {
                return Err(String::from_str("expected `release` in `properties` table to be a string"));
            },
        };
        let encoding = match optional_string(&mut table, "encoding") {
            Ok(x) => x,
            Err(()) => {
                return Err(String::from_str("expected `encoding` in `properties` table to be a string"));
            },
        };
        Ok(Properties { release, encoding, rest: table })
    }
}

// ---------------------------------------------------------------------------
// Repositories

/// The error for a repository whose value is not a string.
pub open spec fn repository_message(id: Seq<char>, v: ValueView) -> Seq<char> {
    "expected value of repository `"@ + id + "` to be a string; found `"@ + toml_value_text(v) + "`"@
}

/// The error for the first entry of a `[repositories]` table that is not a
/// string, if any.
pub open spec fn repositories_error(t: TableView) -> Option<Seq<char>>
    decreases t.len(),
{
    if t.len() == 0 {
        None
    } else if t[0].1 is String {
        repositories_error(t.drop_first())
    } else {
        Some(repository_message(t[0].0, t[0].1))
    }
}

/// A repository read from an entry of `[repositories]`: its id is the key,
/// its url the string value, and it has no name.
pub open spec fn repository_matches(r: Repository, id: Seq<char>, v: ValueView) -> bool {
    &&& r.id@ == id
    &&& v == ValueView::String(r.url@)
    &&& r.name is None
}

/// The repositories read from the entries of `[repositories]`, in key order.
pub open spec fn repositories_match(rs: Seq<Repository>, t: TableView) -> bool {
    &&& rs.len() == t.len()
    &&& forall|i: int| 0 <= i < t.len() ==> repository_matches(#[trigger] rs[i], t[i].0, t[i].1)
}

impl Repository {
    /// Reads the repository `id`, whose value must be its url.
    pub fn parse(id: String, value: TomlValue) -> (r: Result<Repository, String>)
        ensures
            match r {
                Ok(repo) => value@ is String && repository_matches(repo, id@, value@),
                Err(e) => !(value@ is String) && e@ == repository_message(id@, value@),
            },
    {
        match value {
            TomlValue::String(url) => Ok(Repository { id, url, name: None }),
            _ => {
                let shown = value_to_string(&value);
                let mut e = String::from_str("expected value of repository `");
                e.append(id.as_str());
                e.append("` to be a string; found `");
                e.append(shown.as_str());
                e.append("`");
                Err(e)
            },
        }
    }
}

/// Reads every entry of `[repositories]`, in key order.
fn parse_repositories(table: TomlTable) -> (r: Result<Vec<Repository>, String>)
    ensures
        match r {
            Ok(rs) => repositories_error(table@) is None && repositories_match(rs@, table@),
            Err(e) => repositories_error(table@) == Some(e@),
        },
{
    let ghost t = table@;
    let mut remaining = table;
    let mut repositories: Vec<Repository> = Vec::new();
    let ghost mut done: int = 0;
    assert(t.skip(0) =~= t);
    while !remaining.is_empty()
        invariant
            0 <= done <= t.len(),
            t == table@,
            remaining@ == t.skip(done),
            repositories_error(t) == repositories_error(remaining@),
            repositories@.len() == done,
            forall|i: int| 0 <= i < done ==> repository_matches(#[trigger] repositories@[i], t[i].0, t[i].1),
        decreases remaining@.len(),
    {
        let ghost rest = remaining@;
        let (key, val) = match remaining.pop_first() {
            Some(kv) => kv,
            None => {
                return Ok(repositories);
            },
        };
        proof {
            assert(rest[0] == t[done]);
            assert(rest.drop_first() =~= t.skip(done + 1));
        }
        let repo = match Repository::parse(key, val) {
            Ok(repo) => repo,
            Err(e) => {
                return Err(e);
            },
        };
        repositories.push(repo);
        proof {
            done = done + 1;
        }
    }
    Ok(repositories)
}


// ---------------------------------------------------------------------------
// Dependencies and plugins

/// The error for a key that does not name `group:artifact`.
pub open spec fn coordinates_message(k: Seq<char>) -> Seq<char> {
    "expected `group:artifact`, found `"@ + k + "`"@
}

/// The error for a specification that is neither a table nor a string.
pub open spec fn specification_message(group: Seq<char>, artifact: Seq<char>) -> Seq<char> {
    "Expected table or version string as specification of "@ + group + "."@ + artifact
}

/// The error of one entry of a `[dependencies]` or `[plugins]` table, if any:
/// its key must hold a `:`, its value must be a table or a version string.
pub open spec fn entry_error(k: Seq<char>, v: ValueView) -> Option<Seq<char>> {
    match split_once_spec(k, ':') {
        None => Some(coordinates_message(k)),
        Some((group, artifact)) => if v is Table || v is String {
            None
        } else {
            Some(specification_message(group, artifact))
        },
    }
}

/// The error of the first entry that has one, if any.
pub open spec fn entries_error(t: TableView) -> Option<Seq<char>>
    decreases t.len(),
{
    if t.len() == 0 {
        None
    } else if entry_error(t[0].0, t[0].1) is Some {
        entry_error(t[0].0, t[0].1)
    } else {
        entries_error(t.drop_first())
    }
}

/// The specification of an entry: a table as it is, a string as the
/// specification that holds only that version.
pub open spec fn entry_spec(v: ValueView) -> TableView {
    match v {
        ValueView::Table(s) => s,
        ValueView::String(x) => seq![("version"@, ValueView::String(x))],
        _ => Seq::empty(),
    }
}

/// What is read from an entry: the group before the first `:` of the key,
/// the artifact after it, and the specification.
pub open spec fn coordinates_match(group: String, artifact: String, spec: TomlTable, k: Seq<char>, v: ValueView) -> bool {
    &&& split_once_spec(k, ':') == Some((group@, artifact@))
    &&& spec@ == entry_spec(v)
}

pub open spec fn triples_match(r: Seq<(String, String, TomlTable)>, t: TableView) -> bool {
    &&& r.len() == t.len()
    &&& forall|i: int| 0 <= i < t.len() ==> coordinates_match(#[trigger] r[i].0, r[i].1, r[i].2, t[i].0, t[i].1)
}

pub open spec fn dependencies_match(ds: Seq<Dependency>, t: TableView) -> bool {
    &&& ds.len() == t.len()
    &&& forall|i: int| 0 <= i < t.len() ==> coordinates_match(#[trigger] ds[i].group, ds[i].artifact, ds[i].spec, t[i].0, t[i].1)
}

pub open spec fn plugins_match(ps: Seq<Plugin>, t: TableView) -> bool {
    &&& ps.len() == t.len()
    &&& forall|i: int| 0 <= i < t.len() ==> coordinates_match(#[trigger] ps[i].group, ps[i].artifact, ps[i].spec, t[i].0, t[i].1)
}

/// Reads the entries of a `[dependencies]` or `[plugins]` table in key order:
/// (group, artifact, specification) for each.
fn parse_dependencies_like(table: TomlTable) -> (r: Result<Vec<(String, String, TomlTable)>, String>)
    ensures
        match r {
            Ok(v) => entries_error(table@) is None && triples_match(v@, table@),
            Err(e) => entries_error(table@) == Some(e@),
        },
{
    let ghost t = table@;
    let mut remaining = table;
    let mut result: Vec<(String, String, TomlTable)> = Vec::new();
    let ghost mut done: int = 0;
    assert(t.skip(0) =~= t);
    while !remaining.is_empty()
        invariant
            0 <= done <= t.len(),
            t == table@,
            remaining@ == t.skip(done),
            entries_error(t) == entries_error(remaining@),
            result@.len() == done,
            forall|i: int| 0 <= i < done ==> coordinates_match(#[trigger] result@[i].0, result@[i].1, result@[i].2, t[i].0, t[i].1),
        decreases remaining@.len(),
    {
        let ghost rest = remaining@;
        let (name, value) = match remaining.pop_first() {
            Some(kv) => kv,
            None => {
                return Ok(result);
            },
        };
        proof {
            assert(rest[0] == t[done]);
            assert(rest.drop_first() =~= t.skip(done + 1));
        }
        let (group, artifact) = match split_once(name.as_str(), ':') {
            Some(ga) => ga,
            None => {
                let mut e = String::from_str("expected `group:artifact`, found `");
                e.append(name.as_str());
                e.append("`");
                return Err(e);
            },
        };
        let spec = match value {
            TomlValue::Table(t) => t,
            TomlValue::String(s) => {
                let mut t = TomlTable::new();
                let _ = t.insert(String::from_str("version"), TomlValue::String(s));
                assert(t@ =~= seq![("version"@, ValueView::String(s@))]);
                t
            },
            _ => {
                let mut e = String::from_str("Expected table or version string as specification of ");
                e.append(group.as_str());
                e.append(".");
                e.append(artifact.as_str());
                return Err(e);
            },
        };
        result.push((group, artifact, spec));
        proof {
            done = done + 1;
        }
    }
    Ok(result)
}

/// Reads the `[dependencies]` table.
fn dependencies_from(table: TomlTable) -> (r: Result<Vec<Dependency>, String>)
    ensures
        match r {
            Ok(v) => entries_error(table@) is None && dependencies_match(v@, table@),
            Err(e) => entries_error(table@) == Some(e@),
        },
{
    let mut triples = match parse_dependencies_like(table) {
        Ok(v) => v,
        Err(e) => {
            return Err(e);
        },
    };
    let ghost all = triples@;
    let mut dependencies: Vec<Dependency> = Vec::new();
    while triples.len() != 0
        invariant
            triples_match(all, table@),
            dependencies@.len() + triples@.len() == all.len(),
            triples@ == all.skip(dependencies@.len() as int),
            forall|i: int| 0 <= i < dependencies@.len() ==> coordinates_match(#[trigger] dependencies@[i].group, dependencies@[i].artifact, dependencies@[i].spec, table@[i].0, table@[i].1),
        decreases triples@.len(),
    {
        let ghost k = dependencies@.len() as int;
        let (group, artifact, spec) = triples.remove(0);
        proof {
            assert(all.skip(k)[0] == all[k]);
            assert(all.skip(k).drop_first() =~= all.skip(k + 1));
        }
        dependencies.push(Dependency { group, artifact, spec });
    }
    Ok(dependencies)
}

/// Reads the `[plugins]` table.
fn plugins_from(table: TomlTable) -> (r: Result<Vec<Plugin>, String>)
    ensures
        match r {
            Ok(v) => entries_error(table@) is None && plugins_match(v@, table@),
            Err(e) => entries_error(table@) == Some(e@),
        },
{
    let mut triples = match parse_dependencies_like(table) {
        Ok(v) => v,
        Err(e) => {
            return Err(e);
        },
    };
    let ghost all = triples@;
    let mut plugins: Vec<Plugin> = Vec::new();
    while triples.len() != 0
        invariant
            triples_match(all, table@),
            plugins@.len() + triples@.len() == all.len(),
            triples@ == all.skip(plugins@.len() as int),
            forall|i: int| 0 <= i < plugins@.len() ==> coordinates_match(#[trigger] plugins@[i].group, plugins@[i].artifact, plugins@[i].spec, table@[i].0, table@[i].1),
        decreases triples@.len(),
    {
        let ghost k = plugins@.len() as int;
        let (group, artifact, spec) = triples.remove(0);
        proof {
            assert(all.skip(k)[0] == all[k]);
            assert(all.skip(k).drop_first() =~= all.skip(k + 1));
        }
        plugins.push(Plugin { group, artifact, spec });
    }
    Ok(plugins)
}


// ---------------------------------------------------------------------------
// The project

/// The keys that a project takes out of its table, in the order it takes them.
pub open spec fn recognized_keys() -> Seq<Seq<char>> {
    seq![
        "group"@,
        "artifact"@,
        "version"@,
        "packaging"@,
        "name"@,
        "url"@,
        "properties"@,
        "repositories"@,
        "dependencies"@,
        "plugins"@,
    ]
}

pub open spec fn table_or_empty(o: Option<TableView>) -> TableView {
    match o {
        Some(t) => t,
        None => Seq::empty(),
    }
}

/// The error for a mandatory string that is missing or of another type.
pub open spec fn mandatory_error(t: TableView, k: Seq<char>, message: Seq<char>) -> Option<Seq<char>> {
    if string_at(t, k) is None {
        Some(message)
    } else {
        None
    }
}

/// The error for an optional string of another type.
pub open spec fn optional_string_error(t: TableView, k: Seq<char>, message: Seq<char>) -> Option<Seq<char>> {
    if optional_string_at(t, k) is None {
        Some(message)
    } else {
        None
    }
}

pub open spec fn properties_part_error(t: TableView) -> Option<Seq<char>> {
    match optional_table_at(t, "properties"@) {
        None => Some("expected `properties` to be a table"@),
        Some(Some(p)) => properties_error(p),
        Some(None) => None,
    }
}

pub open spec fn repositories_part_error(t: TableView) -> Option<Seq<char>> {
    match optional_table_at(t, "repositories"@) {
        None => Some("expected `repositories` to be a table"@),
        Some(Some(r)) => repositories_error(r),
        Some(None) => None,
    }
}

pub open spec fn dependencies_part_error(t: TableView) -> Option<Seq<char>> {
    match optional_table_at(t, "dependencies"@) {
        None => Some("expected `dependencies` to be a table"@),
        Some(Some(d)) => match entries_error(d) {
            Some(e) => Some(e + " for entries in `dependency` table"@),
            None => None,
        },
        Some(None) => None,
    }
}

pub open spec fn plugins_part_error(t: TableView) -> Option<Seq<char>> {
    match optional_table_at(t, "plugins"@) {
        None => Some("expected `plugins` to be a table"@),
        Some(Some(d)) => match entries_error(d) {
            Some(e) => Some(e + " for entries in `plugin` table"@),
            None => None,
        },
        Some(None) => None,
    }
}

/// The error of `Project::parse` on a table, if any: the first of its checks
/// that fails, in this order.
pub open spec fn project_error(t: TableView) -> Option<Seq<char>> {
    or_else(mandatory_error(t, "group"@, "expected string `group`"@),
    or_else(mandatory_error(t, "artifact"@, "expected string `artifact`"@),
    or_else(mandatory_error(t, "version"@, "expected string `version`"@),
    or_else(optional_string_error(t, "packaging"@, "expected `packaging` to be a string"@),
    or_else(optional_string_error(t, "name"@, "expected `name` to be a string"@),
    or_else(optional_string_error(t, "url"@, "expected `url` to be a string"@),
    or_else(properties_part_error(t),
    or_else(repositories_part_error(t),
    or_else(dependencies_part_error(t), plugins_part_error(t))))))))))
}

/// The project read from a table: each recognized key gives its field, and
/// the other entries are kept as they are.
pub open spec fn project_matches(p: Project, t: TableView) -> bool {
    &&& string_at(t, "group"@) == Some(p.group@)
    &&& string_at(t, "artifact"@) == Some(p.artifact@)
    &&& string_at(t, "version"@) == Some(p.version@)
    &&& optional_string_at(t, "packaging"@) == Some(opt_view(p.packaging))
    &&& optional_string_at(t, "name"@) == Some(opt_view(p.name))
    &&& optional_string_at(t, "url"@) == Some(opt_view(p.url))
    &&& properties_part_match(p.properties, t)
    &&& repositories_match(p.repositories@, table_or_empty(optional_table_at(t, "repositories"@)->0))
    &&& dependencies_match(p.dependencies@, table_or_empty(optional_table_at(t, "dependencies"@)->0))
    &&& plugins_match(p.plugins@, table_or_empty(optional_table_at(t, "plugins"@)->0))
    &&& p.rest@ == without_all(t, recognized_keys())
}

/// Taking out entries of other keys leaves the entry of `k` where it is found.
pub proof fn lemma_lookup_without_all(t: TableView, ks: Seq<Seq<char>>, k: Seq<char>)
    requires
        !ks.contains(k),
    ensures
        lookup(without_all(t, ks), k) == lookup(t, k),
    decreases ks.len(),
{
    if ks.len() > 0 {
        assert(ks[0] != k);
        assert forall|i: int| 0 <= i < ks.drop_first().len() implies ks.drop_first()[i] != k by {
            assert(ks.drop_first()[i] == ks[i + 1]);
        }
        lemma_lookup_without_all(without(t, ks[0]), ks.drop_first(), k);
        lemma_lookup_without(t, ks[0], k);
    }
}

/// Taking out one more key after a list of them.
pub proof fn lemma_without_all_push(t: TableView, ks: Seq<Seq<char>>, k: Seq<char>)
    ensures
        without_all(t, ks.push(k)) == without(without_all(t, ks), k),
    decreases ks.len(),
{
    if ks.len() == 0 {
        assert(ks.push(k).drop_first() =~= Seq::<Seq<char>>::empty());
        assert(ks.push(k)[0] == k);
        assert(without_all(without(t, k), Seq::<Seq<char>>::empty()) == without(t, k));
    } else {
        assert(ks.push(k).drop_first() =~= ks.drop_first().push(k));
        assert(ks.push(k)[0] == ks[0]);
        lemma_without_all_push(without(t, ks[0]), ks.drop_first(), k);
    }
}

/// The recognized keys are distinct.
proof fn lemma_recognized_keys_distinct()
    ensures
        forall|i: int, j: int|
            0 <= i < j < 10 ==> recognized_keys()[i] != recognized_keys()[j],
        recognized_keys().len() == 10,
{
    reveal_strlit("group");
    reveal_strlit("artifact");
    reveal_strlit("version");
    reveal_strlit("packaging");
    reveal_strlit("name");
    reveal_strlit("url");
    reveal_strlit("properties");
    reveal_strlit("repositories");
    reveal_strlit("dependencies");
    reveal_strlit("plugins");
    let ks = recognized_keys();
    assert forall|i: int, j: int| 0 <= i < j < 10 implies ks[i] != ks[j] by {
        if ks[i] == ks[j] {
            assert(ks[i].len() == ks[j].len());
            assert(ks[i][0] == ks[j][0]);
        }
    }
}

/// The state of the table after the first `n` recognized keys are taken out,
/// and what its remaining recognized keys hold.
proof fn lemma_taken(t: TableView, n: int)
    requires
        0 <= n < 10,
    ensures
        lookup(without_all(t, recognized_keys().take(n)), recognized_keys()[n]) == lookup(t, recognized_keys()[n]),
        without(without_all(t, recognized_keys().take(n)), recognized_keys()[n]) == without_all(t, recognized_keys().take(n + 1)),
{
    let ks = recognized_keys();
    lemma_recognized_keys_distinct();
    assert(!ks.take(n).contains(ks[n])) by {
        if ks.take(n).contains(ks[n]) {
            let i = choose|i: int| 0 <= i < ks.take(n).len() && ks.take(n)[i] == ks[n];
            assert(ks[i] == ks[n]);
        }
    }
    lemma_lookup_without_all(t, ks.take(n), ks[n]);
    assert(ks.take(n + 1) =~= ks.take(n).push(ks[n]));
    lemma_without_all_push(t, ks.take(n), ks[n]);
}


/// The properties read from the entry `properties` of a project's table.
pub open spec fn properties_part_match(p: Option<Properties>, t: TableView) -> bool {
    match optional_table_at(t, "properties"@)->0 {
        Some(pt) => p matches Some(pp) && properties_match(pp, pt),
        None => p is None,
    }
}

fn take_properties(table: &mut TomlTable) -> (r: Result<Option<Properties>, String>)
    ensures
        final(table)@ == without(old(table)@, "properties"@),
        match r {
            Ok(p) => properties_part_error(old(table)@) is None && properties_part_match(p, old(table)@),
            Err(e) => properties_part_error(old(table)@) == Some(e@),
        },
{
    match optional_table(table, "properties") {
        Err(()) => Err(String::from_str("expected `properties` to be a table")),
        Ok(None) => Ok(None),
        Ok(Some(t)) => match Properties::parse(t) {
            Ok(p) => Ok(Some(p)),
            Err(e) => Err(e),
        },
    }
}

fn take_repositories(table: &mut TomlTable) -> (r: Result<Vec<Repository>, String>)
    ensures
        final(table)@ == without(old(table)@, "repositories"@),
        match r {
            Ok(v) => repositories_part_error(old(table)@) is None && repositories_match(
                v@,
                table_or_empty(optional_table_at(old(table)@, "repositories"@)->0),
            ),
            Err(e) => repositories_part_error(old(table)@) == Some(e@),
        },
{
    match optional_table(table, "repositories") {
        Err(()) => Err(String::from_str("expected `repositories` to be a table")),
        Ok(None) => Ok(Vec::new()),
        Ok(Some(t)) => parse_repositories(t),
    }
}

/// Appends `suffix` to an error message.
fn with_suffix(e: String, suffix: &str) -> (r: String)
    ensures
        r@ == e@ + suffix@,
{
    let mut e = e;
    e.append(suffix);
    e
}

fn take_dependencies(table: &mut TomlTable) -> (r: Result<Vec<Dependency>, String>)
    ensures
        final(table)@ == without(old(table)@, "dependencies"@),
        match r {
            Ok(v) => dependencies_part_error(old(table)@) is None && dependencies_match(
                v@,
                table_or_empty(optional_table_at(old(table)@, "dependencies"@)->0),
            ),
            Err(e) => dependencies_part_error(old(table)@) == Some(e@),
        },
{
    match optional_table(table, "dependencies") {
        Err(()) => Err(String::from_str("expected `dependencies` to be a table")),
        Ok(None) => Ok(Vec::new()),
        Ok(Some(t)) => match dependencies_from(t) {
            Ok(v) => Ok(v),
            Err(e) => Err(with_suffix(e, " for entries in `dependency` table")),
        },
    }
}

fn take_plugins(table: &mut TomlTable) -> (r: Result<Vec<Plugin>, String>)
    ensures
        final(table)@ == without(old(table)@, "plugins"@),
        match r {
            Ok(v) => plugins_part_error(old(table)@) is None && plugins_match(
                v@,
                table_or_empty(optional_table_at(old(table)@, "plugins"@)->0),
            ),
            Err(e) => plugins_part_error(old(table)@) == Some(e@),
        },
{
    match optional_table(table, "plugins") {
        Err(()) => Err(String::from_str("expected `plugins` to be a table")),
        Ok(None) => Ok(Vec::new()),
        Ok(Some(t)) => match plugins_from(t) {
            Ok(v) => Ok(v),
            Err(e) => Err(with_suffix(e, " for entries in `plugin` table")),
        },
    }
}

impl Project {
    /// Reads a project from the table of a `pom.toml`. The keys `group`,
    /// `artifact` and `version` must hold strings; `packaging`, `name` and
    /// `url` may hold strings; `properties`, `repositories`, `dependencies`
    /// and `plugins` may hold tables; every other entry is kept in `rest`.
    pub fn parse(table: TomlTable) -> (r: Result<Project, String>)
        ensures
            match r {
                Ok(p) => project_error(table@) is None && project_matches(p, table@),
                Err(e) => project_error(table@) == Some(e@),
            },
    {
        let ghost t = table@;
        let mut table = table;
        proof {
            assert(recognized_keys().take(0) =~= Seq::<Seq<char>>::empty());
            lemma_taken(t, 0);
        }
        let group = match mandatory_string(&mut table, "group") {
            Ok(s) => s,
            Err(()) => {
                return Err(String::from_str("expected string `group`"));
            },
        };
        proof {
            lemma_taken(t, 1);
        }
        let artifact = match mandatory_string(&mut table, "artifact") {
            Ok(s) => s,
            Err(()) => {
                return Err(String::from_str("expected string `artifact`"));
            },
        };
        proof {
            lemma_taken(t, 2);
        }
        let version = match mandatory_string(&mut table, "version") {
            Ok(s) => s,
            Err(()) => {
                return Err(String::from_str("expected string `version`"));
            },
        };
        proof {
            lemma_taken(t, 3);
        }
        let packaging = match optional_string(&mut table, "packaging") {
            Ok(s) => s,
            Err(()) => {
                return Err(String::from_str("expected `packaging` to be a string"));
            },
        };
        proof {
            lemma_taken(t, 4);
        }
        let name = match optional_string(&mut table, "name") {
            Ok(s) => s,
            Err(()) => {
                return Err(String::from_str("expected `name` to be a string"));
            },
        };
        proof {
            lemma_taken(t, 5);
        }
        let url = match optional_string(&mut table, "url") {
            Ok(s) => s,
            Err(()) => {
                return Err(String::from_str("expected `url` to be a string"));
            },
        };
        proof {
            lemma_taken(t, 6);
        }
        let properties = match take_properties(&mut table) {
            Ok(p) => p,
            Err(e) => {
                return Err(e);
            },
        };
        proof {
            lemma_taken(t, 7);
        }
        let repositories = match take_repositories(&mut table) {
            Ok(v) => v,
            Err(e) => {
                return Err(e);
            },
        };
        proof {
            lemma_taken(t, 8);
        }
        let dependencies = match take_dependencies(&mut table) {
            Ok(v) => v,
            Err(e) => {
                return Err(e);
            },
        };
        proof {
            lemma_taken(t, 9);
        }
        let plugins = match take_plugins(&mut table) {
            Ok(v) => v,
            Err(e) => {
                return Err(e);
            },
        };
        proof {
            assert(recognized_keys().take(10) =~= recognized_keys());
        }
        Ok(Project {
            group,
            artifact,
            version,
            packaging,
            name,
            url,
            properties,
            repositories,
            dependencies,
            plugins,
            rest: table,
        })
    }
}


/// `message` after the words that say that `pom.toml` could not be read.
pub open spec fn pom_toml_error(message: Seq<char>) -> Seq<char> {
    "Error parsing pom.toml: "@ + message
}

fn prefixed(message: String) -> (r: String)
    ensures
        r@ == pom_toml_error(message@),
{
    let mut r = String::from_str("Error parsing pom.toml: ");
    r.append(message.as_str());
    r
}

/// Reads a project from the text of a `pom.toml`: the text must be a TOML
/// document, and its table must describe a project.
pub fn project_from_pom_toml(src: &str) -> (r: Result<Project, String>)
    ensures
        match toml_document(src@) {
            None => r matches Err(e) && e@ == pom_toml_error(toml_parse_message(src@)),
            Some(t) => match r {
                Ok(p) => project_error(t) is None && project_matches(p, t),
                Err(e) => project_error(t) matches Some(m) && e@ == pom_toml_error(m),
            },
        },
{
    let table = match parse_toml_table(src) {
        Ok(t) => t,
        Err(e) => {
            return Err(prefixed(e));
        },
    };
    match Project::parse(table) {
        Ok(p) => Ok(p),
        Err(e) => Err(prefixed(e)),
    }
}

} // verus!
