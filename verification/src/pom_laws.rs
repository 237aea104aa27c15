//! What a written POM holds, stated as text in terms of the project and the
//! values it is made of: the decimal notation of integers, the element of
//! each scalar entry, the beginning of every POM, its properties and its
//! repositories.
use vstd::prelude::*;
use crate::text::{spaces, nat_decimal, int_decimal, digit_char};
use crate::toml_model::ValueView;
use crate::xmlwriter::{
    WriterState, entry_written, items_written, table_written, XmlWrite, lemma_table_written,
    lemma_steps_append, lemma_prefix_append, lemma_prefix_trans,
};
use crate::project::{
    Project, Properties, Repository, optional_element, group_written, pom_written, pom_namespace,
};
use crate::laws::{law_project_written, law_project_stages, table_has_array};

verus! {

/// Whether `c` is one of the digits `0` to `9`.
pub open spec fn is_digit(c: char) -> bool {
    48 <= (c as int) <= 57
}

/// The number that a digit stands for.
pub open spec fn digit_value(c: char) -> int {
    (c as int) - 48
}

/// The number that a sequence of digits stands for, read in base ten.
pub open spec fn decimal_value(s: Seq<char>) -> int
    decreases s.len(),
{
    if s.len() == 0 {
        0
    } else {
        decimal_value(s.drop_last()) * 10 + digit_value(s.last())
    }
}

/// Digits only, and no leading zero but in `0` itself.
pub open spec fn canonical_digits(s: Seq<char>) -> bool {
    &&& s.len() > 0
    &&& forall|i: int| 0 <= i < s.len() ==> is_digit(#[trigger] s[i])
    &&& (s[0] == '0' ==> s.len() == 1)
}

proof fn lemma_digit_char(d: int)
    requires
        0 <= d < 10,
    ensures
        is_digit(digit_char(d)),
        digit_value(digit_char(d)) == d,
        digit_char(d) == '0' <==> d == 0,
{
}

/// The decimal notation of a natural number is made of digits, without a
/// leading zero, and reads back as the number.
pub proof fn law_nat_decimal(n: nat)
    ensures
        canonical_digits(nat_decimal(n)),
        decimal_value(nat_decimal(n)) == n,
    decreases n,
{
    let t = nat_decimal(n);
    if n < 10 {
        lemma_digit_char(n as int);
        assert(t == seq![digit_char(n as int)]);
        assert(t.drop_last() =~= Seq::<char>::empty());
        assert(decimal_value(t.drop_last()) == 0);
        assert(decimal_value(t) == digit_value(t.last()));
    } else {
        law_nat_decimal(n / 10);
        lemma_digit_char((n % 10) as int);
        let s = nat_decimal(n / 10);
        assert(t == s.push(digit_char((n % 10) as int)));
        assert(t.drop_last() =~= s);
        assert(t.last() == digit_char((n % 10) as int));
        assert(decimal_value(t) == decimal_value(s) * 10 + (n % 10));
        assert(n == (n / 10) * 10 + n % 10);
        assert forall|i: int| 0 <= i < t.len() implies is_digit(#[trigger] t[i]) by {
            if i < s.len() {
                assert(t[i] == s[i]);
            }
        }
        assert(t[0] == s[0]);
        if s[0] == '0' {
            assert(s.len() == 1);
            assert(s.drop_last() =~= Seq::<char>::empty());
            assert(decimal_value(s.drop_last()) == 0);
            assert(s.last() == s[0]);
            assert(decimal_value(s) == digit_value(s[0]));
        }
    }
}

/// The decimal notation of an integer: for a number from zero up its digits,
/// for a negative number a `-` before the digits of its magnitude; either way
/// it reads back as the number.
pub proof fn law_int_decimal(n: int)
    ensures
        n >= 0 ==> canonical_digits(int_decimal(n)) && decimal_value(int_decimal(n)) == n,
        n < 0 ==> int_decimal(n)[0] == '-' && canonical_digits(int_decimal(n).drop_first())
            && decimal_value(int_decimal(n).drop_first()) == -n,
{
    if n >= 0 {
        law_nat_decimal(n as nat);
    } else {
        law_nat_decimal((-n) as nat);
        assert(int_decimal(n).drop_first() =~= nat_decimal((-n) as nat));
    }
}

/// A line of an XML document: `width` spaces, the content, a newline.
pub open spec fn xml_line(width: nat, content: Seq<char>) -> Seq<char> {
    spaces(width) + content + "\n"@
}

/// The line of an element `<tag>value</tag>`.
pub open spec fn element_line(width: nat, tag: Seq<char>, value: Seq<char>) -> Seq<char> {
    xml_line(width, "<"@ + tag + ">"@ + value + "</"@ + tag + ">"@)
}

/// Writing a scalar entry of a table appends one element line at the
/// writer's indentation, whose text is the string itself, the decimal
/// notation of an integer, the float's text, `true` or `false`, or the
/// datetime's text; the open tags stay as they were.
pub proof fn law_scalar_entry(ws: WriterState, k: Seq<char>, v: ValueView)
    ensures
        v is String ==> entry_written(ws, k, v) == (WriterState {
            out: ws.out + element_line(ws.width(), k, v->String_0),
            ..ws
        }, Ok::<(), Seq<char>>(())),
        v is Integer ==> entry_written(ws, k, v) == (WriterState {
            out: ws.out + element_line(ws.width(), k, int_decimal(v->Integer_0 as int)),
            ..ws
        }, Ok::<(), Seq<char>>(())),
        v is Float ==> entry_written(ws, k, v) == (WriterState {
            out: ws.out + element_line(ws.width(), k, v->Float_0),
            ..ws
        }, Ok::<(), Seq<char>>(())),
        v == ValueView::Boolean(true) ==> entry_written(ws, k, v) == (WriterState {
            out: ws.out + element_line(ws.width(), k, "true"@),
            ..ws
        }, Ok::<(), Seq<char>>(())),
        v == ValueView::Boolean(false) ==> entry_written(ws, k, v) == (WriterState {
            out: ws.out + element_line(ws.width(), k, "false"@),
            ..ws
        }, Ok::<(), Seq<char>>(())),
{
    let e = entry_written(ws, k, v).0.out;
    if v is String {
        assert(e =~= ws.out + element_line(ws.width(), k, v->String_0));
    }
    if v is Integer {
        assert(e =~= ws.out + element_line(ws.width(), k, int_decimal(v->Integer_0 as int)));
    }
    if v is Float {
        assert(e =~= ws.out + element_line(ws.width(), k, v->Float_0));
    }
    if v == ValueView::Boolean(true) {
        assert(e =~= ws.out + element_line(ws.width(), k, "true"@));
    }
    if v == ValueView::Boolean(false) {
        assert(e =~= ws.out + element_line(ws.width(), k, "false"@));
    }
}

/// The line of an opening tag `<tag>`.
pub open spec fn open_line(width: nat, tag: Seq<char>) -> Seq<char> {
    xml_line(width, "<"@ + tag + ">"@)
}

/// The line of a closing tag `</tag>`.
pub open spec fn close_line(width: nat, tag: Seq<char>) -> Seq<char> {
    xml_line(width, "</"@ + tag + ">"@)
}

/// The element line of `tag` when the value is present, and nothing when it
/// is not.
pub open spec fn optional_line(width: nat, tag: Seq<char>, value: Option<String>) -> Seq<char> {
    match value {
        Some(v) => element_line(width, tag, v@),
        None => Seq::empty(),
    }
}

/// The writer that a POM is written with: empty, two spaces per level.
pub open spec fn pom_start() -> WriterState {
    WriterState { out: Seq::empty(), tags: Seq::empty(), indent: 2 }
}

proof fn lemma_element_text(ws: WriterState, tag: Seq<char>, value: Seq<char>)
    ensures
        ws.element(tag, value) == (WriterState {
            out: ws.out + element_line(ws.width(), tag, value),
            ..ws
        }),
{
    assert(ws.element(tag, value).out =~= ws.out + element_line(ws.width(), tag, value));
}

proof fn lemma_optional_text(ws: WriterState, tag: Seq<char>, value: Option<String>)
    ensures
        optional_element(ws, tag, value) == (WriterState {
            out: ws.out + optional_line(ws.width(), tag, value),
            ..ws
        }),
{
    match value {
        Some(v) => lemma_element_text(ws, tag, v@),
        None => {
            assert(ws.out + Seq::<char>::empty() =~= ws.out);
        },
    }
}

proof fn lemma_opened_text(ws: WriterState, tag: Seq<char>)
    ensures
        ws.opened(tag) == (WriterState {
            out: ws.out + open_line(ws.width(), tag),
            tags: ws.tags.push(tag),
            indent: ws.indent,
        }),
        ws.opened(tag).width() == ws.width() + ws.indent,
{
    assert(ws.opened(tag).out =~= ws.out + open_line(ws.width(), tag));
    let l = ws.tags.len();
    let i = ws.indent;
    assert((l + 1) * i == l * i + i) by (nonlinear_arith);
}

/// Closing the tag that was opened over `ws` writes its closing line at the
/// width of `ws`.
proof fn lemma_close_text(ws: WriterState, s: WriterState, tag: Seq<char>)
    requires
        s.tags == ws.tags.push(tag),
        s.indent == ws.indent,
    ensures
        s.close_step() == (WriterState {
            out: s.out + close_line(ws.width(), tag),
            tags: ws.tags,
            indent: ws.indent,
        }, Ok::<(), Seq<char>>(())),
{
    assert(s.tags.drop_last() =~= ws.tags);
    assert(s.tags.last() == tag);
    assert(s.close_step().0.out =~= s.out + close_line(ws.width(), tag));
}

/// The first line of every POM: the `project` tag with its namespace.
pub open spec fn project_tag() -> Seq<char> {
    "<"@ + "project"@ + " "@ + "xmlns"@ + "=\""@ + "http://maven.apache.org/POM/4.0.0"@ + "\">"@
}

/// The lines that every POM begins with: the `project` tag and its
/// namespace, then one level in the model version, the group, the artifact
/// and the version, the name when it is given and the url when it is given.
pub open spec fn pom_header_text(p: Project) -> Seq<char> {
    xml_line(0, project_tag()) + element_line(2, "modelVersion"@, "4.0.0"@) + element_line(
        2,
        "groupId"@,
        p.group@,
    ) + element_line(2, "artifactId"@, p.artifact@) + element_line(2, "version"@, p.version@)
        + optional_line(2, "name"@, p.name) + optional_line(2, "url"@, p.url)
}

proof fn lemma_header_text(p: Project)
    ensures
        p.header_written(pom_start()).out == pom_header_text(p),
        p.header_written(pom_start()).tags == seq!["project"@],
        p.header_written(pom_start()).indent == 2,
{
    let ws = pom_start();
    let s0 = ws.opened_with_attrib("project"@, "xmlns"@, pom_namespace());
    assert(spaces(0) =~= Seq::<char>::empty());
    assert(s0.out =~= xml_line(0, project_tag()));
    assert(s0.tags =~= seq!["project"@]);
    let (l, i) = (s0.tags.len(), s0.indent);
    assert(l * i == 2) by (nonlinear_arith)
        requires
            l == 1,
            i == 2,
    ;
    let s1 = s0.element("modelVersion"@, "4.0.0"@);
    lemma_element_text(s0, "modelVersion"@, "4.0.0"@);
    let s2 = s1.element("groupId"@, p.group@);
    lemma_element_text(s1, "groupId"@, p.group@);
    let s3 = s2.element("artifactId"@, p.artifact@);
    lemma_element_text(s2, "artifactId"@, p.artifact@);
    let s4 = s3.element("version"@, p.version@);
    lemma_element_text(s3, "version"@, p.version@);
    let s5 = optional_element(s4, "name"@, p.name);
    lemma_optional_text(s4, "name"@, p.name);
    let s6 = optional_element(s5, "url"@, p.url);
    lemma_optional_text(s5, "url"@, p.url);
    assert(s6 == p.header_written(ws));
    assert(s6.out =~= pom_header_text(p));
}

/// Every POM begins with the `project` tag and its namespace, then, one
/// level in, the model version, the coordinates, the name when the project
/// has one and the url when it has one, each independently of the other.
pub proof fn law_pom_begins_with_header(p: Project)
    ensures
        pom_header_text(p).is_prefix_of(pom_written(p).0.out),
{
    lemma_header_text(p);
    law_project_written(p, pom_start());
}

/// What writing the properties of a project leaves behind is kept at the
/// start of its POM, whether or not writing them failed.
proof fn lemma_properties_kept(p: Project)
    ensures
        p.properties_written(p.header_written(pom_start())).0.out.is_prefix_of(pom_written(p).0.out),
{
    let ws = pom_start();
    law_project_stages(p, ws);
    let h = p.header_written(ws);
    let (s1, r1) = p.properties_written(h);
    if r1 is Ok {
        lemma_repositories_section(s1, p.repositories@);
        lemma_prefix_append(s1.out, repositories_section(p.repositories@, s1.width(), s1.indent));
        lemma_prefix_trans(
            s1.out,
            group_written(s1, "repositories"@, p.repositories@).0.out,
            pom_written(p).0.out,
        );
    } else {
        assert(p.body_written(ws) == (s1, r1));
        assert(pom_written(p).0.out == s1.out);
    }
}

/// The properties of a project come right after the header of its POM: the
/// `properties` tag, then one level in the release as
/// `maven.compiler.release` when it is given, then the encoding as
/// `project.build.sourceEncoding` when it is given, whatever the other
/// entries are.
pub proof fn law_pom_properties(p: Project, pp: Properties)
    requires
        p.properties == Some(pp),
    ensures
        (pom_header_text(p) + open_line(2, "properties"@) + optional_line(
            4,
            "maven.compiler.release"@,
            pp.release,
        ) + optional_line(4, "project.build.sourceEncoding"@, pp.encoding)).is_prefix_of(
            pom_written(p).0.out,
        ),
{
    let ws = pom_start();
    lemma_header_text(p);
    let h = p.header_written(ws);
    assert(h.width() == 2);
    let s0 = h.opened("properties"@);
    lemma_opened_text(h, "properties"@);
    let s1 = optional_element(s0, "maven.compiler.release"@, pp.release);
    lemma_optional_text(s0, "maven.compiler.release"@, pp.release);
    let s2 = optional_element(s1, "project.build.sourceEncoding"@, pp.encoding);
    lemma_optional_text(s1, "project.build.sourceEncoding"@, pp.encoding);
    let head = pom_header_text(p) + open_line(2, "properties"@) + optional_line(
        4,
        "maven.compiler.release"@,
        pp.release,
    ) + optional_line(4, "project.build.sourceEncoding"@, pp.encoding);
    assert(s2.out =~= head);
    lemma_table_written(s2, pp.rest@);
    let (s3, r3) = table_written(s2, pp.rest@);
    lemma_steps_append(s3, "properties"@, "properties"@, "properties"@);
    lemma_prefix_trans(s2.out, s3.out, s3.close_step().0.out);
    lemma_properties_kept(p);
    lemma_prefix_trans(head, pp.written(h).0.out, pom_written(p).0.out);
}

/// The text of one repository: the `repository` tag around its id, its url
/// and, when it has one, its name as `scope`.
pub open spec fn repository_text(r: Repository, width: nat, indent: nat) -> Seq<char> {
    open_line(width, "repository"@) + element_line(width + indent, "id"@, r.id@) + element_line(
        width + indent,
        "url"@,
        r.url@,
    ) + optional_line(width + indent, "scope"@, r.name) + close_line(width, "repository"@)
}

/// The texts of the repositories, one after the other in their order.
pub open spec fn repositories_text(rs: Seq<Repository>, width: nat, indent: nat) -> Seq<char>
    decreases rs.len(),
{
    if rs.len() == 0 {
        Seq::empty()
    } else {
        repository_text(rs[0], width, indent) + repositories_text(rs.drop_first(), width, indent)
    }
}

/// The `repositories` tag around every repository, and nothing when there
/// are none.
pub open spec fn repositories_section(rs: Seq<Repository>, width: nat, indent: nat) -> Seq<char> {
    if rs.len() == 0 {
        Seq::empty()
    } else {
        open_line(width, "repositories"@) + repositories_text(rs, width + indent, indent) + close_line(
            width,
            "repositories"@,
        )
    }
}

proof fn lemma_repository_text(r: Repository, ws: WriterState)
    ensures
        r.written(ws) == (WriterState {
            out: ws.out + repository_text(r, ws.width(), ws.indent),
            ..ws
        }, Ok::<(), Seq<char>>(())),
{
    let s0 = ws.opened("repository"@);
    lemma_opened_text(ws, "repository"@);
    let s1 = s0.element("id"@, r.id@);
    lemma_element_text(s0, "id"@, r.id@);
    let s2 = s1.element("url"@, r.url@);
    lemma_element_text(s1, "url"@, r.url@);
    let s3 = optional_element(s2, "scope"@, r.name);
    lemma_optional_text(s2, "scope"@, r.name);
    lemma_close_text(ws, s3, "repository"@);
    assert(s3.close_step().0.out =~= ws.out + repository_text(r, ws.width(), ws.indent));
}

proof fn lemma_repositories_text(ws: WriterState, rs: Seq<Repository>)
    ensures
        items_written(ws, rs) == (WriterState {
            out: ws.out + repositories_text(rs, ws.width(), ws.indent),
            ..ws
        }, Ok::<(), Seq<char>>(())),
    decreases rs.len(),
{
    if rs.len() == 0 {
        assert(ws.out + Seq::<char>::empty() =~= ws.out);
    } else {
        lemma_repository_text(rs[0], ws);
        let ws1 = rs[0].written(ws).0;
        lemma_repositories_text(ws1, rs.drop_first());
        assert(items_written(ws, rs) == items_written(ws1, rs.drop_first()));
        assert(items_written(ws, rs).0.out =~= ws.out + repositories_text(rs, ws.width(), ws.indent));
    }
}

proof fn lemma_repositories_section(ws: WriterState, rs: Seq<Repository>)
    ensures
        group_written(ws, "repositories"@, rs) == (WriterState {
            out: ws.out + repositories_section(rs, ws.width(), ws.indent),
            ..ws
        }, Ok::<(), Seq<char>>(())),
{
    if rs.len() == 0 {
        assert(ws.out + Seq::<char>::empty() =~= ws.out);
    } else {
        let s0 = ws.opened("repositories"@);
        lemma_opened_text(ws, "repositories"@);
        lemma_repositories_text(s0, rs);
        let s1 = items_written(s0, rs).0;
        lemma_close_text(ws, s1, "repositories"@);
        assert(group_written(ws, "repositories"@, rs).0.out =~= ws.out + repositories_section(
            rs,
            ws.width(),
            ws.indent,
        ));
    }
}

/// The repositories of a project come right after its properties: one
/// `repository` element for each repository, in their order, inside a
/// `repositories` tag one level in, and nothing when there are none. This
/// holds unless writing the properties failed on an array among their other
/// entries, where nothing follows them.
pub proof fn law_pom_repositories(p: Project)
    requires
        !(p.properties matches Some(pp) && table_has_array(pp.rest@)),
    ensures
        (p.properties_written(p.header_written(pom_start())).0.out + repositories_section(
            p.repositories@,
            2,
            2,
        )).is_prefix_of(pom_written(p).0.out),
{
    let ws = pom_start();
    law_project_stages(p, ws);
    lemma_header_text(p);
    let h = p.header_written(ws);
    let s1 = p.properties_written(h).0;
    assert(s1.width() == 2);
    lemma_repositories_section(s1, p.repositories@);
}

} // verus!
