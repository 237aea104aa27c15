//! What holds of the library as a whole: of the writer's operations, of the
//! writing of tables and projects, of tables and of reading a project.
use vstd::prelude::*;
use crate::text::spaces;
use crate::toml_model::{
    key_index, lookup, without, with_entry, insert_pos, keys_sorted, lemma_key_index,
    lemma_sorted_key_unique, lemma_sorted_remove, lemma_lookup_without, TableView, ValueView,
};
use crate::parse::{
    without_all, recognized_keys, lemma_lookup_without_all, entries_error, entry_error, entry_spec,
    dependencies_match, plugins_match, coordinates_match,
};
use crate::project::{
    Dependency, Plugin, Project, Properties, Repository, optional_element, group_written,
    table_then_close, pom_written, pom_namespace,
};
use crate::xmlwriter::{
    WriterState, Outcome, table_written, entry_written, items_written, array_message, XmlWrite,
    lemma_table_written, lemma_entry_written, lemma_steps_append, lemma_prefix_append,
    lemma_prefix_trans,
};

verus! {

/// A step of writing from `w` that only appends to the output, keeps the
/// indentation, and on success leaves the open tags as they were.
pub open spec fn balanced_step(w: WriterState, step: (WriterState, Outcome)) -> bool {
    &&& w.out.is_prefix_of(step.0.out)
    &&& step.0.indent == w.indent
    &&& step.1 is Ok ==> step.0.tags == w.tags
}

/// A step whose only failure is an array: it fails exactly when `fails`.
pub open spec fn fails_iff(step: (WriterState, Outcome), fails: bool) -> bool {
    &&& step.1 is Err <==> fails
    &&& step.1 is Err ==> step.1 == Err::<(), Seq<char>>(array_message())
}

/// Whether a table holds an array, at any depth.
pub open spec fn table_has_array(t: TableView) -> bool
    decreases t,
{
    if t.len() == 0 {
        false
    } else {
        value_has_array(t[0].1) || table_has_array(t.drop_first())
    }
}

pub open spec fn value_has_array(v: ValueView) -> bool
    decreases v,
{
    match v {
        ValueView::Array(_) => true,
        ValueView::Table(s) => table_has_array(s),
        _ => false,
    }
}

/// Closing a tag undoes opening it: the open tags are as before, and the
/// output has gained the opening line and the closing line at the same
/// indentation.
pub proof fn law_close_undoes_open(ws: WriterState, tag: Seq<char>)
    ensures
        ws.opened(tag).close_step().1 is Ok,
        ws.opened(tag).close_step().0.tags == ws.tags,
        ws.opened(tag).close_step().0.indent == ws.indent,
        ws.opened(tag).close_step().0.out == ws.out + spaces(ws.width()) + "<"@ + tag + ">"@ + "\n"@
            + spaces(ws.width()) + "</"@ + tag + ">"@ + "\n"@,
{
    let o = ws.opened(tag);
    assert(o.tags.drop_last() =~= ws.tags);
    assert(o.close_step().0.out =~= ws.out + spaces(ws.width()) + "<"@ + tag + ">"@ + "\n"@
        + spaces(ws.width()) + "</"@ + tag + ">"@ + "\n"@);
}

/// Closing every tag leaves none open, keeps the indentation, and only
/// appends to the output.
pub proof fn law_all_closed(ws: WriterState)
    ensures
        ws.all_closed().tags.len() == 0,
        ws.all_closed().indent == ws.indent,
        ws.out.is_prefix_of(ws.all_closed().out),
    decreases ws.tags.len(),
{
    if ws.tags.len() == 0 {
        lemma_prefix_append(ws.out, Seq::empty());
        assert(ws.out + Seq::<char>::empty() =~= ws.out);
    } else {
        lemma_steps_append(ws, Seq::empty(), Seq::empty(), Seq::empty());
        law_all_closed(ws.closed());
        lemma_prefix_trans(ws.out, ws.closed().out, ws.all_closed().out);
    }
}

/// Writing a table fails exactly when it holds an array somewhere, and then
/// with the message for arrays.
pub proof fn law_table_fails_iff_array(ws: WriterState, t: TableView)
    ensures
        fails_iff(table_written(ws, t), table_has_array(t)),
        balanced_step(ws, table_written(ws, t)),
    decreases t,
{
    lemma_table_written(ws, t);
    if t.len() > 0 {
        law_entry_fails_iff_array(ws, t[0].0, t[0].1);
        let (ws1, r1) = entry_written(ws, t[0].0, t[0].1);
        if r1 is Ok {
            law_table_fails_iff_array(ws1, t.drop_first());
        }
    }
}

pub proof fn law_entry_fails_iff_array(ws: WriterState, k: Seq<char>, v: ValueView)
    ensures
        fails_iff(entry_written(ws, k, v), value_has_array(v)),
        balanced_step(ws, entry_written(ws, k, v)),
    decreases v,
{
    lemma_entry_written(ws, k, v);
    if let ValueView::Table(s) = v {
        law_table_fails_iff_array(ws.opened(k), s);
        lemma_table_written(ws.opened(k), s);
    }
}

/// Writing items one after the other: when each item is written in a
/// balanced step that fails exactly when `fails` holds of it, so is the
/// whole list, which fails exactly when one of its items does.
pub proof fn law_items_written<T: XmlWrite>(ws: WriterState, items: Seq<T>, fails: spec_fn(T) -> bool)
    requires
        forall|i: int, w: WriterState|
            0 <= i < items.len() ==> balanced_step(w, #[trigger] items[i].written(w)) && fails_iff(
                items[i].written(w),
                fails(items[i]),
            ),
    ensures
        balanced_step(ws, items_written(ws, items)),
        fails_iff(items_written(ws, items), exists|i: int| 0 <= i < items.len() && fails(#[trigger] items[i])),
    decreases items.len(),
{
    if items.len() == 0 {
        lemma_prefix_append(ws.out, Seq::empty());
        assert(ws.out + Seq::<char>::empty() =~= ws.out);
    } else {
        let step = items[0].written(ws);
        assert(balanced_step(ws, step) && fails_iff(step, fails(items[0])));
        let rest = items.drop_first();
        assert forall|i: int, w: WriterState|
            0 <= i < rest.len() implies balanced_step(w, #[trigger] rest[i].written(w)) && fails_iff(
                rest[i].written(w),
                fails(rest[i]),
            ) by {
            assert(rest[i] == items[i + 1]);
        }
        if step.1 is Ok {
            law_items_written(step.0, rest, fails);
            lemma_prefix_trans(ws.out, step.0.out, items_written(step.0, rest).0.out);
            if exists|i: int| 0 <= i < items.len() && fails(#[trigger] items[i]) {
                let i = choose|i: int| 0 <= i < items.len() && fails(#[trigger] items[i]);
                assert(i != 0);
                assert(rest[i - 1] == items[i]);
            }
            if exists|i: int| 0 <= i < rest.len() && fails(#[trigger] rest[i]) {
                let i = choose|i: int| 0 <= i < rest.len() && fails(#[trigger] rest[i]);
                assert(rest[i] == items[i + 1]);
            }
        }
    }
}

/// What a read gives back of a write: after storing `v` under `k`, `k` holds
/// `v` and every other key holds what it held.
pub proof fn law_lookup_with_entry(t: TableView, k: Seq<char>, v: ValueView, other: Seq<char>)
    requires
        keys_sorted(t),
        other != k,
    ensures
        lookup(with_entry(t, k, v), k) == Some(v),
        lookup(with_entry(t, k, v), other) == lookup(t, other),
{
    lemma_key_index(t, k);
    lemma_key_index(t, other);
    let r = with_entry(t, k, v);
    lemma_key_index(r, k);
    lemma_key_index(r, other);
    match key_index(t, k) {
        Some(i) => {
            assert(r[i].0 == k);
            if let Some(j) = key_index(r, k) {
                assert(j <= i);
            }
            match key_index(t, other) {
                Some(j) => {
                    assert(r[j] == t[j]);
                    if let Some(m) = key_index(r, other) {
                        assert(r[m] == t[m] || m == i);
                    }
                },
                None => {},
            }
        },
        None => {
            let p = insert_pos(t, k);
            lemma_insert_pos_bounds(t, k);
            assert(r[p] == (k, v));
            if let Some(j) = key_index(r, k) {
                if j < p {
                    assert(r[j] == t[j]);
                } else if j > p {
                    assert(r[j] == t[j - 1]);
                }
            }
            match key_index(t, other) {
                Some(j) => {
                    let j2 = if j < p { j } else { j + 1 };
                    assert(r[j2] == t[j]);
                    if let Some(m) = key_index(r, other) {
                        if m < p {
                            assert(r[m] == t[m]);
                        } else if m > p {
                            assert(r[m] == t[m - 1]);
                        }
                    }
                },
                None => {
                    if let Some(m) = key_index(r, other) {
                        if m < p {
                            assert(r[m] == t[m]);
                        } else if m > p {
                            assert(r[m] == t[m - 1]);
                        }
                    }
                },
            }
        },
    }
}

proof fn lemma_insert_pos_bounds(t: TableView, k: Seq<char>)
    ensures
        0 <= insert_pos(t, k) <= t.len(),
    decreases t.len(),
{
    if t.len() > 0 {
        lemma_insert_pos_bounds(t.drop_first(), k);
    }
}

/// After the entry of a key is taken out of a table, the key holds nothing.
pub proof fn law_lookup_without(t: TableView, k: Seq<char>)
    requires
        keys_sorted(t),
    ensures
        lookup(without(t, k), k) is None,
{
    lemma_sorted_key_unique(t, k);
    lemma_key_index(without(t, k), k);
}


/// Adding elements keeps the open tags and the indentation and only appends.
proof fn lemma_optional_element(ws: WriterState, tag: Seq<char>, value: Option<String>)
    ensures
        optional_element(ws, tag, value).tags == ws.tags,
        optional_element(ws, tag, value).indent == ws.indent,
        ws.out.is_prefix_of(optional_element(ws, tag, value).out),
{
    match value {
        Some(v) => lemma_steps_append(ws, tag, tag, v@),
        None => {
            lemma_prefix_append(ws.out, Seq::empty());
            assert(ws.out + Seq::<char>::empty() =~= ws.out);
        },
    }
}

/// Writing a table inside a tag that was opened over `ws`, then closing it,
/// is balanced over `ws` and fails exactly when the table holds an array.
proof fn lemma_table_then_close(ws: WriterState, s: WriterState, tag: Seq<char>, t: TableView)
    requires
        s.tags == ws.tags.push(tag),
        s.indent == ws.indent,
        ws.out.is_prefix_of(s.out),
    ensures
        balanced_step(ws, table_then_close(s, t)),
        fails_iff(table_then_close(s, t), table_has_array(t)),
{
    law_table_fails_iff_array(s, t);
    let (s1, r1) = table_written(s, t);
    lemma_prefix_trans(ws.out, s.out, s1.out);
    if r1 is Ok {
        lemma_steps_append(s1, tag, tag, tag);
        lemma_prefix_trans(ws.out, s1.out, s1.close_step().0.out);
        assert(s1.tags.drop_last() =~= ws.tags);
    }
}

/// Writing a repository always succeeds, and leaves the open tags as they were.
pub proof fn law_repository_written(r: Repository, ws: WriterState)
    ensures
        balanced_step(ws, r.written(ws)),
        fails_iff(r.written(ws), false),
{
    let s0 = ws.opened("repository"@);
    let s1 = s0.element("id"@, r.id@);
    let s2 = s1.element("url"@, r.url@);
    let s3 = optional_element(s2, "scope"@, r.name);
    lemma_steps_append(ws, "repository"@, "repository"@, "repository"@);
    lemma_steps_append(s0, "id"@, "id"@, r.id@);
    lemma_steps_append(s1, "url"@, "url"@, r.url@);
    lemma_optional_element(s2, "scope"@, r.name);
    lemma_steps_append(s3, "repository"@, "repository"@, "repository"@);
    lemma_prefix_trans(ws.out, s0.out, s1.out);
    lemma_prefix_trans(ws.out, s1.out, s2.out);
    lemma_prefix_trans(ws.out, s2.out, s3.out);
    lemma_prefix_trans(ws.out, s3.out, s3.close_step().0.out);
    assert(s3.tags.drop_last() =~= ws.tags);
}

/// Writing properties fails exactly when their other entries hold an array,
/// and otherwise leaves the open tags as they were.
pub proof fn law_properties_written(p: Properties, ws: WriterState)
    ensures
        balanced_step(ws, p.written(ws)),
        fails_iff(p.written(ws), table_has_array(p.rest@)),
{
    let s0 = ws.opened("properties"@);
    let s1 = optional_element(s0, "maven.compiler.release"@, p.release);
    let s2 = optional_element(s1, "project.build.sourceEncoding"@, p.encoding);
    lemma_steps_append(ws, "properties"@, "properties"@, "properties"@);
    lemma_optional_element(s0, "maven.compiler.release"@, p.release);
    lemma_optional_element(s1, "project.build.sourceEncoding"@, p.encoding);
    lemma_prefix_trans(ws.out, s0.out, s1.out);
    lemma_prefix_trans(ws.out, s1.out, s2.out);
    lemma_table_then_close(ws, s2, "properties"@, p.rest@);
}

/// Writing a dependency fails exactly when its specification holds an array,
/// and otherwise leaves the open tags as they were.
pub proof fn law_dependency_written(d: Dependency, ws: WriterState)
    ensures
        balanced_step(ws, d.written(ws)),
        fails_iff(d.written(ws), table_has_array(d.spec@)),
{
    let s0 = ws.opened("dependency"@);
    let s1 = s0.element("groupId"@, d.group@);
    let s2 = s1.element("artifactId"@, d.artifact@);
    lemma_steps_append(ws, "dependency"@, "dependency"@, "dependency"@);
    lemma_steps_append(s0, "groupId"@, "groupId"@, d.group@);
    lemma_steps_append(s1, "artifactId"@, "artifactId"@, d.artifact@);
    lemma_prefix_trans(ws.out, s0.out, s1.out);
    lemma_prefix_trans(ws.out, s1.out, s2.out);
    lemma_table_then_close(ws, s2, "dependency"@, d.spec@);
}

/// Writing a plugin fails exactly when its specification holds an array,
/// and otherwise leaves the open tags as they were.
pub proof fn law_plugin_written(p: Plugin, ws: WriterState)
    ensures
        balanced_step(ws, p.written(ws)),
        fails_iff(p.written(ws), table_has_array(p.spec@)),
{
    let s0 = ws.opened("plugin"@);
    let s1 = if p.group@.len() == 0 {
        s0
    } else {
        s0.element("groupId"@, p.group@)
    };
    let s2 = s1.element("artifactId"@, p.artifact@);
    lemma_steps_append(ws, "plugin"@, "plugin"@, "plugin"@);
    lemma_steps_append(s0, "groupId"@, "groupId"@, p.group@);
    lemma_steps_append(s1, "artifactId"@, "artifactId"@, p.artifact@);
    if p.group@.len() == 0 {
        lemma_prefix_append(s0.out, Seq::empty());
        assert(s0.out + Seq::<char>::empty() =~= s0.out);
    }
    lemma_prefix_trans(ws.out, s0.out, s1.out);
    lemma_prefix_trans(ws.out, s1.out, s2.out);
    lemma_table_then_close(ws, s2, "plugin"@, p.spec@);
}

/// Writing a group of items inside a tag of their own is balanced, and fails
/// exactly when one of the items does.
proof fn lemma_group_written<T: XmlWrite>(ws: WriterState, tag: Seq<char>, items: Seq<T>, fails: spec_fn(T) -> bool)
    requires
        forall|i: int, w: WriterState|
            0 <= i < items.len() ==> balanced_step(w, #[trigger] items[i].written(w)) && fails_iff(
                items[i].written(w),
                fails(items[i]),
            ),
    ensures
        balanced_step(ws, group_written(ws, tag, items)),
        fails_iff(group_written(ws, tag, items), exists|i: int| 0 <= i < items.len() && fails(#[trigger] items[i])),
{
    if items.len() == 0 {
        lemma_prefix_append(ws.out, Seq::empty());
        assert(ws.out + Seq::<char>::empty() =~= ws.out);
    } else {
        let s0 = ws.opened(tag);
        lemma_steps_append(ws, tag, tag, tag);
        law_items_written(s0, items, fails);
        let (s1, r1) = items_written(s0, items);
        lemma_prefix_trans(ws.out, s0.out, s1.out);
        if r1 is Ok {
            lemma_steps_append(s1, tag, tag, tag);
            lemma_prefix_trans(ws.out, s1.out, s1.close_step().0.out);
            assert(s1.tags.drop_last() =~= ws.tags);
        }
    }
}

/// Whether writing the project meets an array: in the other entries of its
/// properties, in the specification of a dependency or of a plugin, or in
/// its own other entries.
pub open spec fn project_has_array(p: Project) -> bool {
    ||| (p.properties matches Some(pp) && table_has_array(pp.rest@))
    ||| (exists|i: int| 0 <= i < p.dependencies@.len() && table_has_array(#[trigger] p.dependencies@[i].spec@))
    ||| (exists|i: int| 0 <= i < p.plugins@.len() && table_has_array(#[trigger] p.plugins@[i].spec@))
    ||| table_has_array(p.rest@)
}

pub open spec fn dependency_fails(d: Dependency) -> bool {
    table_has_array(d.spec@)
}

pub open spec fn plugin_fails(p: Plugin) -> bool {
    table_has_array(p.spec@)
}

pub open spec fn repository_fails(r: Repository) -> bool {
    false
}

/// Writing a project fails exactly when it meets an array, and then with the
/// message for arrays; it only appends to the output, and when it succeeds
/// it has closed every tag, those that were open before it too.
pub proof fn law_project_written(p: Project, ws: WriterState)
    ensures
        ws.out.is_prefix_of(p.written(ws).0.out),
        p.header_written(ws).out.is_prefix_of(p.written(ws).0.out),
        fails_iff(p.written(ws), project_has_array(p)),
        p.written(ws).1 is Ok ==> p.written(ws).0.tags.len() == 0,
        p.body_written(ws).1 is Ok ==> p.body_written(ws).0.tags == ws.tags.push("project"@),
{
    let h = p.header_written(ws);
    lemma_header(p, ws);
    let (s1, r1) = p.properties_written(h);
    match p.properties {
        Some(pp) => law_properties_written(pp, h),
        None => {
            lemma_prefix_append(h.out, Seq::empty());
            assert(h.out + Seq::<char>::empty() =~= h.out);
        },
    }
    lemma_prefix_trans(h.out, h.out, s1.out);
    if r1 is Ok {
        assert forall|i: int, w: WriterState|
            0 <= i < p.repositories@.len() implies balanced_step(w, #[trigger] p.repositories@[i].written(w))
                && fails_iff(p.repositories@[i].written(w), repository_fails(p.repositories@[i])) by {
            law_repository_written(p.repositories@[i], w);
        }
        lemma_group_written(s1, "repositories"@, p.repositories@, |r: Repository| repository_fails(r));
        let (s2, r2) = group_written(s1, "repositories"@, p.repositories@);
        lemma_prefix_trans(h.out, s1.out, s2.out);
        if r2 is Ok {
            assert forall|i: int, w: WriterState|
                0 <= i < p.dependencies@.len() implies balanced_step(w, #[trigger] p.dependencies@[i].written(w))
                    && fails_iff(p.dependencies@[i].written(w), dependency_fails(p.dependencies@[i])) by {
                law_dependency_written(p.dependencies@[i], w);
            }
            lemma_group_written(s2, "dependencies"@, p.dependencies@, |d: Dependency| dependency_fails(d));
            let (s3, r3) = group_written(s2, "dependencies"@, p.dependencies@);
            lemma_prefix_trans(h.out, s2.out, s3.out);
            if r3 is Ok {
                lemma_plugins(p, s3);
                let (s4, r4) = p.plugins_written(s3);
                lemma_prefix_trans(h.out, s3.out, s4.out);
                if r4 is Ok {
                    law_table_fails_iff_array(s4, p.rest@);
                    let (s5, r5) = table_written(s4, p.rest@);
                    lemma_prefix_trans(h.out, s4.out, s5.out);
                    if r5 is Ok {
                        law_all_closed(s5);
                        lemma_prefix_trans(h.out, s5.out, s5.all_closed().out);
                    }
                }
            }
        }
    }
    lemma_prefix_trans(ws.out, h.out, p.written(ws).0.out);
}

/// The header pushes the `project` tag and only appends, after its first
/// line.
#[verifier::rlimit(40)]
proof fn lemma_header(p: Project, ws: WriterState)
    ensures
        p.header_written(ws).tags == ws.tags.push("project"@),
        p.header_written(ws).indent == ws.indent,
        (ws.out + spaces(ws.width()) + header_line()).is_prefix_of(p.header_written(ws).out),
        ws.out.is_prefix_of(p.header_written(ws).out),
{
    let s0 = ws.opened_with_attrib("project"@, "xmlns"@, pom_namespace());
    let s1 = s0.element("modelVersion"@, "4.0.0"@);
    let s2 = s1.element("groupId"@, p.group@);
    let s3 = s2.element("artifactId"@, p.artifact@);
    let s4 = s3.element("version"@, p.version@);
    let s5 = optional_element(s4, "name"@, p.name);
    let s6 = optional_element(s5, "url"@, p.url);
    assert(s6 == p.header_written(ws));
    lemma_steps_append(s0, "modelVersion"@, "modelVersion"@, "4.0.0"@);
    lemma_steps_append(s1, "groupId"@, "groupId"@, p.group@);
    lemma_steps_append(s2, "artifactId"@, "artifactId"@, p.artifact@);
    lemma_steps_append(s3, "version"@, "version"@, p.version@);
    lemma_optional_element(s4, "name"@, p.name);
    lemma_optional_element(s5, "url"@, p.url);
    lemma_prefix_trans(s0.out, s1.out, s2.out);
    lemma_prefix_trans(s0.out, s2.out, s3.out);
    lemma_prefix_trans(s0.out, s3.out, s4.out);
    lemma_prefix_trans(s0.out, s4.out, s5.out);
    lemma_prefix_trans(s0.out, s5.out, s6.out);
    lemma_first_line(ws);
    lemma_prefix_append(ws.out, spaces(ws.width()) + header_line());
    assert(ws.out + (spaces(ws.width()) + header_line()) =~= ws.out + spaces(ws.width()) + header_line());
    lemma_prefix_trans(ws.out, s0.out, s6.out);
}

/// The first line of the header.
proof fn lemma_first_line(ws: WriterState)
    ensures
        ws.opened_with_attrib("project"@, "xmlns"@, pom_namespace()).out == ws.out + spaces(ws.width())
            + header_line(),
        ws.opened_with_attrib("project"@, "xmlns"@, pom_namespace()).tags == ws.tags.push("project"@),
{
    assert(ws.opened_with_attrib("project"@, "xmlns"@, pom_namespace()).out =~= ws.out + spaces(ws.width())
        + header_line());
}

/// The plugins inside `build` and `plugins` tags: balanced, failing exactly
/// when a plugin does.
proof fn lemma_plugins(p: Project, ws: WriterState)
    ensures
        balanced_step(ws, p.plugins_written(ws)),
        fails_iff(p.plugins_written(ws), exists|i: int| 0 <= i < p.plugins@.len() && table_has_array(#[trigger] p.plugins@[i].spec@)),
{
    if p.plugins@.len() == 0 {
        lemma_prefix_append(ws.out, Seq::empty());
        assert(ws.out + Seq::<char>::empty() =~= ws.out);
    } else {
        assert forall|i: int, w: WriterState|
            0 <= i < p.plugins@.len() implies balanced_step(w, #[trigger] p.plugins@[i].written(w))
                && fails_iff(p.plugins@[i].written(w), plugin_fails(p.plugins@[i])) by {
            law_plugin_written(p.plugins@[i], w);
        }
        let s0 = ws.opened("build"@);
        lemma_steps_append(ws, "build"@, "build"@, "build"@);
        lemma_group_written(s0, "plugins"@, p.plugins@, |q: Plugin| plugin_fails(q));
        let (s1, r1) = group_written(s0, "plugins"@, p.plugins@);
        lemma_prefix_trans(ws.out, s0.out, s1.out);
        if r1 is Ok {
            lemma_steps_append(s1, "build"@, "build"@, "build"@);
            lemma_prefix_trans(ws.out, s1.out, s1.close_step().0.out);
            assert(s1.tags.drop_last() =~= ws.tags);
        }
    }
}

/// The first line of every POM.
pub open spec fn header_line() -> Seq<char> {
    "<"@ + "project"@ + " "@ + "xmlns"@ + "=\""@ + pom_namespace() + "\">"@ + "\n"@
}

/// The last line of every POM that was written without failure.
pub open spec fn footer_line() -> Seq<char> {
    "</"@ + "project"@ + ">"@ + "\n"@
}

/// A POM starts with the `project` tag and its namespace; when it is written
/// without failure it ends by closing that tag.
pub proof fn law_pom_shape(p: Project)
    ensures
        pom_written(p).0.out.len() >= header_line().len(),
        pom_written(p).0.out.subrange(0, header_line().len() as int) == header_line(),
        pom_written(p).1 is Ok ==> pom_written(p).0.out.len() >= footer_line().len()
            && pom_written(p).0.out.subrange(
            pom_written(p).0.out.len() - footer_line().len(),
            pom_written(p).0.out.len() as int,
        ) == footer_line(),
{
    let ws = WriterState { out: Seq::empty(), tags: Seq::empty(), indent: 2 };
    lemma_header(p, ws);
    law_project_written(p, ws);
    let h = p.header_written(ws);
    assert(ws.width() == 0);
    assert(spaces(0) =~= Seq::<char>::empty());
    assert(ws.out + spaces(ws.width()) + header_line() =~= header_line());
    lemma_prefix_trans(header_line(), h.out, pom_written(p).0.out);
    if pom_written(p).1 is Ok {
        lemma_last_close(p, ws);
    }
}

/// Closing every tag of a state whose only open tag is `project`, at the
/// top level, ends with the closing line of `project`.
#[verifier::rlimit(50)]
proof fn lemma_last_close(p: Project, ws: WriterState)
    requires
        ws == (WriterState { out: Seq::empty(), tags: Seq::empty(), indent: 2 }),
        p.written(ws).1 is Ok,
    ensures
        p.written(ws).0.out.len() >= footer_line().len(),
        p.written(ws).0.out.subrange(
            p.written(ws).0.out.len() - footer_line().len(),
            p.written(ws).0.out.len() as int,
        ) == footer_line(),
{
    law_project_written(p, ws);
    let (s5, r5) = p.body_written(ws);
    assert(s5.tags =~= seq!["project"@]);
    let c = s5.closed();
    assert(c.tags.len() == 0);
    assert(c.all_closed() == c);
    assert(s5.tags.drop_last().len() == 0);
    assert(spaces(0) =~= Seq::<char>::empty());
    assert(c.out =~= s5.out + footer_line());
    assert(c.out.subrange(c.out.len() - footer_line().len(), c.out.len() as int) =~= footer_line());
}


/// A key that holds nothing still holds nothing after other entries are
/// taken out.
proof fn lemma_absent_stays(t: TableView, ks: Seq<Seq<char>>, k: Seq<char>)
    requires
        lookup(t, k) is None,
    ensures
        lookup(without_all(t, ks), k) is None,
    decreases ks.len(),
{
    if ks.len() > 0 {
        if ks[0] != k {
            lemma_lookup_without(t, ks[0], k);
        } else {
            assert(without(t, k) == t);
        }
        lemma_absent_stays(without(t, ks[0]), ks.drop_first(), k);
    }
}

/// Taking out the entries of `ks` leaves no entry for a key in `ks`.
proof fn lemma_without_all_removes(t: TableView, ks: Seq<Seq<char>>, k: Seq<char>)
    requires
        keys_sorted(t),
        ks.contains(k),
    ensures
        lookup(without_all(t, ks), k) is None,
    decreases ks.len(),
{
    if ks[0] == k {
        law_lookup_without(t, k);
        lemma_absent_stays(without(t, k), ks.drop_first(), k);
    } else {
        let i = choose|i: int| 0 <= i < ks.len() && ks[i] == k;
        assert(ks.drop_first()[i - 1] == k);
        lemma_key_index(t, ks[0]);
        if let Some(j) = key_index(t, ks[0]) {
            lemma_sorted_remove(t, j);
        }
        lemma_without_all_removes(without(t, ks[0]), ks.drop_first(), k);
    }
}

/// What a project keeps as its other entries: the table's entries for every
/// key it does not recognize, and none for a key it recognizes.
pub proof fn law_rest_keeps_unrecognized(t: TableView, k: Seq<char>)
    requires
        keys_sorted(t),
    ensures
        lookup(without_all(t, recognized_keys()), k) == if recognized_keys().contains(k) {
            None
        } else {
            lookup(t, k)
        },
{
    if recognized_keys().contains(k) {
        lemma_without_all_removes(t, recognized_keys(), k);
    } else {
        lemma_lookup_without_all(t, recognized_keys(), k);
    }
}


/// Taking out the entry of a key undoes storing a value under it: the table
/// is as it was with that key taken out, so as it was when the key was new.
pub proof fn law_remove_undoes_insert(t: TableView, k: Seq<char>, v: ValueView)
    requires
        keys_sorted(t),
    ensures
        without(with_entry(t, k, v), k) == without(t, k),
        lookup(t, k) is None ==> without(with_entry(t, k, v), k) == t,
{
    lemma_key_index(t, k);
    let r = with_entry(t, k, v);
    lemma_key_index(r, k);
    match key_index(t, k) {
        Some(i) => {
            assert(r[i].0 == k);
            let j = key_index(r, k)->0;
            assert(j <= i);
            if j < i {
                assert(r[j] == t[j]);
            }
            assert(r.remove(i) =~= t.remove(i));
        },
        None => {
            let p = insert_pos(t, k);
            lemma_insert_pos_bounds(t, k);
            assert(r[p] == (k, v));
            let j = key_index(r, k)->0;
            if j < p {
                assert(r[j] == t[j]);
            } else if j > p {
                assert(r[j] == t[j - 1]);
            }
            assert(r.remove(p) =~= t);
        },
    }
}


/// Tables whose entries give the same errors one by one give the same first
/// error.
proof fn lemma_entries_error_pointwise(t: TableView, u: TableView)
    requires
        t.len() == u.len(),
        forall|j: int| 0 <= j < t.len() ==> entry_error(t[j].0, t[j].1) == entry_error(u[j].0, u[j].1),
    ensures
        entries_error(t) == entries_error(u),
    decreases t.len(),
{
    if t.len() > 0 {
        assert forall|j: int| 0 <= j < t.drop_first().len() implies entry_error(t.drop_first()[j].0, t.drop_first()[j].1)
            == entry_error(u.drop_first()[j].0, u.drop_first()[j].1) by {
            assert(t.drop_first()[j] == t[j + 1]);
            assert(u.drop_first()[j] == u[j + 1]);
        }
        lemma_entries_error_pointwise(t.drop_first(), u.drop_first());
    }
}

/// The table that holds only the version `v`.
pub open spec fn version_only(v: Seq<char>) -> TableView {
    seq![("version"@, ValueView::String(v))]
}

/// A bare version string means the same as a table that holds only that
/// version: putting one in place of the other in a `[dependencies]` or
/// `[plugins]` table changes neither its error nor what is read from it.
pub proof fn law_version_shorthand(t: TableView, i: int, v: Seq<char>)
    requires
        0 <= i < t.len(),
        t[i].1 == ValueView::String(v),
    ensures
        entries_error(t.update(i, (t[i].0, ValueView::Table(version_only(v))))) == entries_error(t),
        forall|ds: Seq<Dependency>|
            dependencies_match(ds, t.update(i, (t[i].0, ValueView::Table(version_only(v)))))
                == dependencies_match(ds, t),
        forall|ps: Seq<Plugin>|
            plugins_match(ps, t.update(i, (t[i].0, ValueView::Table(version_only(v))))) == plugins_match(ps, t),
{
    let u = t.update(i, (t[i].0, ValueView::Table(version_only(v))));
    assert(entry_spec(u[i].1) == entry_spec(t[i].1));
    assert forall|j: int| 0 <= j < t.len() implies entry_error(t[j].0, t[j].1) == entry_error(u[j].0, u[j].1)
        && entry_spec(t[j].1) == entry_spec(u[j].1) && t[j].0 == u[j].0 by {
        if j == i {
            assert(u[j] == (t[i].0, ValueView::Table(version_only(v))));
        } else {
            assert(u[j] == t[j]);
        }
    }
    lemma_entries_error_pointwise(t, u);
    assert forall|ds: Seq<Dependency>| dependencies_match(ds, u) == dependencies_match(ds, t) by {
        if dependencies_match(ds, t) {
            assert forall|j: int| 0 <= j < u.len() implies coordinates_match(
                #[trigger] ds[j].group,
                ds[j].artifact,
                ds[j].spec,
                u[j].0,
                u[j].1,
            ) by {
                assert(coordinates_match(ds[j].group, ds[j].artifact, ds[j].spec, t[j].0, t[j].1));
            }
        }
        if dependencies_match(ds, u) {
            assert forall|j: int| 0 <= j < t.len() implies coordinates_match(
                #[trigger] ds[j].group,
                ds[j].artifact,
                ds[j].spec,
                t[j].0,
                t[j].1,
            ) by {
                assert(coordinates_match(ds[j].group, ds[j].artifact, ds[j].spec, u[j].0, u[j].1));
            }
        }
    }
    assert forall|ps: Seq<Plugin>| plugins_match(ps, u) == plugins_match(ps, t) by {
        if plugins_match(ps, t) {
            assert forall|j: int| 0 <= j < u.len() implies coordinates_match(
                #[trigger] ps[j].group,
                ps[j].artifact,
                ps[j].spec,
                u[j].0,
                u[j].1,
            ) by {
                assert(coordinates_match(ps[j].group, ps[j].artifact, ps[j].spec, t[j].0, t[j].1));
            }
        }
        if plugins_match(ps, u) {
            assert forall|j: int| 0 <= j < t.len() implies coordinates_match(
                #[trigger] ps[j].group,
                ps[j].artifact,
                ps[j].spec,
                t[j].0,
                t[j].1,
            ) by {
                assert(coordinates_match(ps[j].group, ps[j].artifact, ps[j].spec, u[j].0, u[j].1));
            }
        }
    }
}


/// The stages of writing a project before its repositories: the properties
/// come right after the header and keep the open tags when they succeed; what
/// is written up to the end of the repositories stays at the start of the
/// whole output.
pub proof fn law_project_stages(p: Project, ws: WriterState)
    ensures
        ({
            let h = p.header_written(ws);
            let (s1, r1) = p.properties_written(h);
            &&& h.tags == ws.tags.push("project"@)
            &&& h.indent == ws.indent
            &&& (r1 is Ok <==> !(p.properties matches Some(pp) && table_has_array(pp.rest@)))
            &&& (r1 is Ok ==> s1.tags == h.tags && s1.indent == h.indent)
            &&& (r1 is Ok ==> group_written(s1, "repositories"@, p.repositories@).0.out.is_prefix_of(
                p.written(ws).0.out,
            ))
        }),
{
    let h = p.header_written(ws);
    lemma_header(p, ws);
    let (s1, r1) = p.properties_written(h);
    match p.properties {
        Some(pp) => law_properties_written(pp, h),
        None => {},
    }
    if r1 is Ok {
        assert forall|i: int, w: WriterState|
            0 <= i < p.repositories@.len() implies balanced_step(w, #[trigger] p.repositories@[i].written(w))
                && fails_iff(p.repositories@[i].written(w), repository_fails(p.repositories@[i])) by {
            law_repository_written(p.repositories@[i], w);
        }
        lemma_group_written(s1, "repositories"@, p.repositories@, |r: Repository| repository_fails(r));
        let (s2, r2) = group_written(s1, "repositories"@, p.repositories@);
        lemma_prefix_append(s2.out, Seq::empty());
        assert(s2.out + Seq::<char>::empty() =~= s2.out);
        if r2 is Ok {
            assert forall|i: int, w: WriterState|
                0 <= i < p.dependencies@.len() implies balanced_step(w, #[trigger] p.dependencies@[i].written(w))
                    && fails_iff(p.dependencies@[i].written(w), dependency_fails(p.dependencies@[i])) by {
                law_dependency_written(p.dependencies@[i], w);
            }
            lemma_group_written(s2, "dependencies"@, p.dependencies@, |d: Dependency| dependency_fails(d));
            let (s3, r3) = group_written(s2, "dependencies"@, p.dependencies@);
            if r3 is Ok {
                lemma_plugins(p, s3);
                let (s4, r4) = p.plugins_written(s3);
                lemma_prefix_trans(s2.out, s3.out, s4.out);
                if r4 is Ok {
                    law_table_fails_iff_array(s4, p.rest@);
                    let (s5, r5) = table_written(s4, p.rest@);
                    lemma_prefix_trans(s2.out, s4.out, s5.out);
                    if r5 is Ok {
                        law_all_closed(s5);
                        lemma_prefix_trans(s2.out, s5.out, s5.all_closed().out);
                    }
                }
            }
        }
    }
}

} // verus!
