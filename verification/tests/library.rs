use naven::cli::{
    check_group, check_init_dir, initial_version_string, maven_command, is_pom_toml_newer, main_java_text, maven_args, package_dirs,
    pom_toml_text,
};
use naven::parse::project_from_pom_toml;
use naven::text::{i64_decimal, split_once, str_lt};
use naven::{
    Dependency, Plugin, Project, Properties, Repository, TomlDate, TomlDatetime, TomlOffset, TomlTable,
    TomlTime, TomlValue, XmlWrite, XmlWriter,
};

fn s(text: &str) -> TomlValue {
    TomlValue::String(String::from(text))
}

fn table(entries: Vec<(&str, TomlValue)>) -> TomlTable {
    let mut t = TomlTable::new();
    for (k, v) in entries {
        t.insert(String::from(k), v);
    }
    t
}

fn keys(t: &TomlTable) -> Vec<String> {
    (0..t.len()).map(|i| t.entry(i).0.clone()).collect()
}

fn coordinates() -> Vec<(&'static str, TomlValue)> {
    vec![("group", s("g")), ("artifact", s("a")), ("version", s("1"))]
}

fn parse_error(entries: Vec<(&str, TomlValue)>) -> String {
    Project::parse(table(entries)).unwrap_err()
}

// ---------------------------------------------------------------- tables

#[test]
fn table_keeps_keys_in_order() {
    let t = table(vec![("b", s("2")), ("a", s("1")), ("c", s("3")), ("ab", s("4"))]);
    assert_eq!(keys(&t), vec!["a", "ab", "b", "c"]);
}

#[test]
fn table_insert_replaces_in_place() {
    let mut t = table(vec![("b", s("2")), ("a", s("1"))]);
    let old = t.insert(String::from("a"), s("9"));
    assert_eq!(old, Some(s("1")));
    assert_eq!(keys(&t), vec!["a", "b"]);
    assert_eq!(t.entry(0).1, &s("9"));
    assert_eq!(t.len(), 2);
}

#[test]
fn table_read_gives_back_write() {
    let mut t = table(vec![("x", TomlValue::Integer(1))]);
    assert_eq!(t.insert(String::from("y"), TomlValue::Integer(2)), None);
    assert_eq!(t.remove("y"), Some(TomlValue::Integer(2)));
    assert_eq!(t.remove("y"), None);
    assert_eq!(t.remove("x"), Some(TomlValue::Integer(1)));
    assert!(t.is_empty());
}

#[test]
fn table_pop_first_in_key_order() {
    let mut t = table(vec![("z", s("1")), ("m", s("2"))]);
    assert_eq!(t.pop_first(), Some((String::from("m"), s("2"))));
    assert_eq!(t.pop_first(), Some((String::from("z"), s("1"))));
    assert_eq!(t.pop_first(), None);
}

#[test]
fn key_order_is_by_code_point() {
    assert!(str_lt("Z", "a"));
    assert!(str_lt("", "a"));
    assert!(str_lt("ab", "b"));
    assert!(!str_lt("b", "ab"));
    assert!(!str_lt("same", "same"));
    assert!(str_lt("é", "ü"));
}

// ---------------------------------------------------------------- text

#[test]
fn decimal_of_integers() {
    assert_eq!(i64_decimal(0), "0");
    assert_eq!(i64_decimal(42), "42");
    assert_eq!(i64_decimal(-7), "-7");
    assert_eq!(i64_decimal(1000), "1000");
    assert_eq!(i64_decimal(i64::MAX), i64::MAX.to_string());
    assert_eq!(i64_decimal(i64::MIN), i64::MIN.to_string());
}

#[test]
fn split_once_at_first_separator() {
    assert_eq!(split_once("a:b:c", ':'), Some((String::from("a"), String::from("b:c"))));
    assert_eq!(split_once(":b", ':'), Some((String::from(""), String::from("b"))));
    assert_eq!(split_once("ab", ':'), None);
}

// ---------------------------------------------------------------- writer

#[test]
fn writer_elements_and_tags() {
    let mut w = XmlWriter::new(String::new(), 2);
    w.open_tag(String::from("a")).unwrap();
    w.element("b", "x").unwrap();
    w.open_tag_with_attrib(String::from("c"), "k", "v").unwrap();
    w.element("d", "y").unwrap();
    w.close_tag().unwrap();
    w.close_tag().unwrap();
    assert_eq!(
        w.into_output(),
        "<a>\n  <b>x</b>\n  <c k=\"v\">\n    <d>y</d>\n  </c>\n</a>\n"
    );
}

#[test]
fn writer_close_without_open_tag() {
    let mut w = XmlWriter::new(String::from("start\n"), 2);
    assert_eq!(w.close_tag(), Err("no open tags to close"));
    assert_eq!(w.output(), "start\n");
}

#[test]
fn writer_close_all_closes_innermost_first() {
    let mut w = XmlWriter::new(String::new(), 4);
    w.open_tag(String::from("a")).unwrap();
    w.open_tag(String::from("b")).unwrap();
    w.open_tag(String::from("c")).unwrap();
    assert_eq!(w.close_all(), Ok(()));
    assert_eq!(
        w.output(),
        "<a>\n    <b>\n        <c>\n        </c>\n    </b>\n</a>\n"
    );
    assert_eq!(w.close_tag(), Err("no open tags to close"));
}

#[test]
fn writer_open_then_close_restores_depth() {
    let mut w = XmlWriter::new(String::new(), 3);
    w.open_tag(String::from("outer")).unwrap();
    w.open_tag(String::from("t")).unwrap();
    w.close_tag().unwrap();
    w.element("e", "v").unwrap();
    assert_eq!(w.output(), "<outer>\n   <t>\n   </t>\n   <e>v</e>\n");
}

#[test]
fn write_table_renders_scalars() {
    let datetime = TomlDatetime::new(
        Some(TomlDate { year: 1979, month: 5, day: 27 }),
        Some(TomlTime { hour: 7, minute: 32, second: Some(0), nanosecond: None }),
        Some(TomlOffset::Z),
    )
    .unwrap();
    let t = table(vec![
        ("s", s("text")),
        ("i", TomlValue::Integer(-12)),
        ("f", TomlValue::Float(String::from("1.5"))),
        ("b", TomlValue::Boolean(false)),
        ("d", TomlValue::Datetime(datetime)),
        ("n", TomlValue::Table(table(vec![("inner", TomlValue::Integer(3))]))),
    ]);
    let mut w = XmlWriter::new(String::new(), 2);
    assert_eq!(w.write_table(&t), Ok(()));
    assert_eq!(
        w.into_output(),
        "<b>false</b>\n<d>1979-05-27T07:32:00Z</d>\n<f>1.5</f>\n<i>-12</i>\n<n>\n  <inner>3</inner>\n</n>\n<s>text</s>\n"
    );
}

#[test]
fn write_table_renders_local_and_offset_datetimes() {
    let date_only = TomlDatetime::new(Some(TomlDate { year: 2024, month: 1, day: 2 }), None, None).unwrap();
    let time_only = TomlDatetime::new(
        None,
        Some(TomlTime { hour: 0, minute: 32, second: Some(0), nanosecond: Some(999_999_000) }),
        None,
    )
    .unwrap();
    let with_offset = TomlDatetime::new(
        Some(TomlDate { year: 1979, month: 5, day: 27 }),
        Some(TomlTime { hour: 0, minute: 32, second: Some(0), nanosecond: None }),
        Some(TomlOffset::Custom(-420)),
    )
    .unwrap();
    let t = table(vec![
        ("a", TomlValue::Datetime(date_only)),
        ("b", TomlValue::Datetime(time_only)),
        ("c", TomlValue::Datetime(with_offset)),
    ]);
    let mut w = XmlWriter::new(String::new(), 2);
    assert_eq!(w.write_table(&t), Ok(()));
    assert_eq!(
        w.into_output(),
        "<a>2024-01-02</a>\n<b>00:32:00.999999</b>\n<c>1979-05-27T00:32:00-07:00</c>\n"
    );
}

#[test]
fn write_table_refuses_arrays() {
    let t = table(vec![
        ("a", s("1")),
        ("b", TomlValue::Table(table(vec![("c", TomlValue::Array(vec![]))]))),
        ("d", s("never written")),
    ]);
    let mut w = XmlWriter::new(String::new(), 2);
    assert_eq!(w.write_table(&t), Err("unexpected array in TOML"));
    // the output stops at the array, with the enclosing tag left open
    assert_eq!(w.output(), "<a>1</a>\n<b>\n");
    assert_eq!(w.close_all(), Ok(()));
    assert_eq!(w.output(), "<a>1</a>\n<b>\n</b>\n");
}

#[test]
fn items_write_themselves() {
    let repo = Repository {
        id: String::from("r"),
        url: String::from("u"),
        name: Some(String::from("n")),
    };
    let dep = Dependency {
        group: String::from("g"),
        artifact: String::from("a"),
        spec: table(vec![("version", s("1"))]),
    };
    let plugin = Plugin { group: String::new(), artifact: String::from("p"), spec: TomlTable::new() };
    let props = Properties { release: None, encoding: Some(String::from("UTF-8")), rest: TomlTable::new() };
    let mut w = XmlWriter::new(String::new(), 1);
    repo.write(&mut w).unwrap();
    dep.write(&mut w).unwrap();
    plugin.write(&mut w).unwrap();
    props.write(&mut w).unwrap();
    assert_eq!(
        w.into_output(),
        "<repository>\n <id>r</id>\n <url>u</url>\n <scope>n</scope>\n</repository>\n\
         <dependency>\n <groupId>g</groupId>\n <artifactId>a</artifactId>\n <version>1</version>\n</dependency>\n\
         <plugin>\n <artifactId>p</artifactId>\n</plugin>\n\
         <properties>\n <project.build.sourceEncoding>UTF-8</project.build.sourceEncoding>\n</properties>\n"
    );
}

#[test]
fn project_write_closes_tags_opened_before() {
    let project = Project::parse(table(coordinates())).unwrap();
    let mut w = XmlWriter::new(String::new(), 2);
    w.open_tag(String::from("outer")).unwrap();
    assert_eq!(project.write(&mut w), Ok(()));
    assert_eq!(w.close_tag(), Err("no open tags to close"));
    assert!(w.output().ends_with("  </project>\n</outer>\n"));
}

#[test]
fn write_pom_keeps_partial_output_on_failure() {
    let mut entries = coordinates();
    entries.push(("extra", TomlValue::Array(vec![TomlValue::Integer(1)])));
    let project = Project::parse(table(entries)).unwrap();
    let mut out = String::from("before\n");
    assert_eq!(project.write_pom(&mut out), Err("unexpected array in TOML"));
    assert_eq!(
        out,
        "before\n<project xmlns=\"http://maven.apache.org/POM/4.0.0\">\n  <modelVersion>4.0.0</modelVersion>\n  <groupId>g</groupId>\n  <artifactId>a</artifactId>\n  <version>1</version>\n"
    );
}

// ---------------------------------------------------------------- parsing

#[test]
fn parse_fills_fields_and_keeps_rest() {
    let mut entries = coordinates();
    entries.push(("packaging", s("war")));
    entries.push(("zzz", TomlValue::Integer(5)));
    let p = Project::parse(table(entries)).unwrap();
    assert_eq!(p.group, "g");
    assert_eq!(p.artifact, "a");
    assert_eq!(p.version, "1");
    assert_eq!(p.packaging, Some(String::from("war")));
    assert_eq!(p.name, None);
    assert!(p.properties.is_none());
    assert!(p.repositories.is_empty() && p.dependencies.is_empty() && p.plugins.is_empty());
    assert_eq!(keys(&p.rest), vec!["zzz"]);
}

#[test]
fn parse_reads_dependency_shorthand_and_plugins() {
    let mut entries = coordinates();
    entries.push(("dependencies", TomlValue::Table(table(vec![("x:y:z", s("2.0"))]))));
    entries.push(("plugins", TomlValue::Table(table(vec![(":p", TomlValue::Table(TomlTable::new()))]))));
    let p = Project::parse(table(entries)).unwrap();
    assert_eq!(p.dependencies.len(), 1);
    assert_eq!(p.dependencies[0].group, "x");
    assert_eq!(p.dependencies[0].artifact, "y:z");
    assert_eq!(p.dependencies[0].spec, table(vec![("version", s("2.0"))]));
    assert_eq!(p.plugins[0].group, "");
    assert_eq!(p.plugins[0].artifact, "p");
}

#[test]
fn parse_reads_repositories_in_key_order() {
    let mut entries = coordinates();
    entries.push((
        "repositories",
        TomlValue::Table(table(vec![("second", s("https://b")), ("first", s("https://a"))])),
    ));
    let p = Project::parse(table(entries)).unwrap();
    assert_eq!(p.repositories.len(), 2);
    assert_eq!(p.repositories[0].id, "first");
    assert_eq!(p.repositories[0].url, "https://a");
    assert_eq!(p.repositories[1].id, "second");
    assert!(p.repositories[1].name.is_none());
}

#[test]
fn parse_errors_on_mandatory_keys() {
    assert_eq!(parse_error(vec![]), "expected string `group`");
    assert_eq!(
        parse_error(vec![("group", TomlValue::Integer(1)), ("artifact", s("a"))]),
        "expected string `group`"
    );
    assert_eq!(parse_error(vec![("group", s("g"))]), "expected string `artifact`");
    assert_eq!(
        parse_error(vec![("group", s("g")), ("artifact", s("a"))]),
        "expected string `version`"
    );
}

#[test]
fn parse_errors_on_optional_strings() {
    for (key, message) in [
        ("packaging", "expected `packaging` to be a string"),
        ("name", "expected `name` to be a string"),
        ("url", "expected `url` to be a string"),
    ] {
        let mut entries = coordinates();
        entries.push((key, TomlValue::Boolean(true)));
        assert_eq!(parse_error(entries), message);
    }
}

#[test]
fn parse_errors_on_tables() {
    for (key, message) in [
        ("properties", "expected `properties` to be a table"),
        ("repositories", "expected `repositories` to be a table"),
        ("dependencies", "expected `dependencies` to be a table"),
        ("plugins", "expected `plugins` to be a table"),
    ] {
        let mut entries = coordinates();
        entries.push((key, s("x")));
        assert_eq!(parse_error(entries), message);
    }
}

#[test]
fn parse_errors_in_properties() {
    let mut entries = coordinates();
    entries.push((
        "properties",
        TomlValue::Table(table(vec![("release", TomlValue::Integer(17)), ("encoding", TomlValue::Integer(8))])),
    ));
    assert_eq!(parse_error(entries), "expected `release` in `properties` table to be a string");
    let mut entries = coordinates();
    entries.push(("properties", TomlValue::Table(table(vec![("encoding", TomlValue::Integer(8))]))));
    assert_eq!(parse_error(entries), "expected `encoding` in `properties` table to be a string");
}

#[test]
fn parse_error_shows_repository_value_in_toml() {
    let mut entries = coordinates();
    entries.push(("repositories", TomlValue::Table(table(vec![("r", TomlValue::Integer(5))]))));
    assert_eq!(
        parse_error(entries),
        "expected value of repository `r` to be a string; found `5`"
    );
    let mut entries = coordinates();
    entries.push((
        "repositories",
        TomlValue::Table(table(vec![(
            "r",
            TomlValue::Array(vec![TomlValue::Integer(1), TomlValue::Boolean(true)]),
        )])),
    ));
    assert_eq!(
        parse_error(entries),
        "expected value of repository `r` to be a string; found `[1, true]`"
    );
}

#[test]
fn parse_errors_in_dependencies_and_plugins() {
    let mut entries = coordinates();
    entries.push(("dependencies", TomlValue::Table(table(vec![("nocolon", s("1"))]))));
    assert_eq!(
        parse_error(entries),
        "expected `group:artifact`, found `nocolon` for entries in `dependency` table"
    );
    let mut entries = coordinates();
    entries.push(("dependencies", TomlValue::Table(table(vec![("g:a", TomlValue::Integer(1))]))));
    assert_eq!(
        parse_error(entries),
        "Expected table or version string as specification of g.a for entries in `dependency` table"
    );
    let mut entries = coordinates();
    entries.push(("plugins", TomlValue::Table(table(vec![("p", s("1"))]))));
    assert_eq!(
        parse_error(entries),
        "expected `group:artifact`, found `p` for entries in `plugin` table"
    );
}

#[test]
fn parse_reports_first_error() {
    let mut entries = coordinates();
    entries.push(("url", TomlValue::Integer(1)));
    entries.push(("plugins", s("x")));
    assert_eq!(parse_error(entries), "expected `url` to be a string");
}

// ---------------------------------------------------------------- command line

#[test]
fn rebuild_decision() {
    assert!(is_pom_toml_newer(None, Some(5)));
    assert!(is_pom_toml_newer(Some(5), None));
    assert!(is_pom_toml_newer(Some(6), Some(5)));
    assert!(!is_pom_toml_newer(Some(5), Some(5)));
    assert!(!is_pom_toml_newer(Some(-1), Some(5)));
}

#[test]
fn maven_arguments() {
    let args = vec![String::from("naven"), String::from("compile"), String::from("exec:java")];
    assert_eq!(maven_args(&args), vec!["--file", ".pom.xml", "compile", "exec:java"]);
    assert_eq!(maven_args(&vec![]), vec!["--file", ".pom.xml"]);
}

#[test]
fn init_texts() {
    assert_eq!(
        pom_toml_text("org.example", "my-app", &initial_version_string()),
        "group = \"org.example\"\nartifact = \"my-app\"\nversion = \"0.1.0-SNAPSHOT\"\n\n[properties]\nrelease = \"17\"\nencoding = \"UTF-8\"\n\"exec.mainClass\" = \"org.example.Main\""
    );
    assert_eq!(
        main_java_text("org.example"),
        "package org.example;\n\npublic class Main {\n    public static void main(String[] args) {\n        System.out.println(\"\\nHello World!\\n\");\n    }\n}"
    );
    assert_eq!(check_group(""), Err(String::from("group may not be empty")));
    assert_eq!(check_group("x"), Ok(()));
    assert_eq!(package_dirs("org.example"), vec!["src", "main", "java", "org", "example"]);
    assert_eq!(package_dirs("a..b"), vec!["src", "main", "java", "a", "", "b"]);
    assert_eq!(package_dirs(""), vec!["src", "main", "java", ""]);
}

#[test]
fn table_remove_undoes_insert() {
    let before_insert = table(vec![("a", s("1")), ("c", s("3"))]);
    let mut t = before_insert.clone();
    t.insert(String::from("b"), s("2"));
    assert_eq!(keys(&t), vec!["a", "b", "c"]);
    assert_eq!(t.remove("b"), Some(s("2")));
    assert_eq!(t, before_insert);
}

#[test]
fn values_clone_with_same_content() {
    let v = TomlValue::Table(table(vec![
        ("x", TomlValue::Array(vec![TomlValue::Integer(1), s("two")])),
        ("y", TomlValue::Float(String::from("NaN"))),
    ]));
    assert_eq!(v.clone(), v);
}

#[test]
fn maven_command_and_init_dir() {
    assert_eq!(maven_command("./mvnw", true), "./mvnw");
    assert_eq!(maven_command("./mvnw", false), "mvn");
    assert_eq!(check_init_dir(false), Ok(()));
    assert_eq!(
        check_init_dir(true),
        Err(String::from("refusing to init naven project: directoy is non-empty"))
    );
}

#[test]
fn datetime_parts_must_be_well_formed() {
    let date = |year, month, day| Some(TomlDate { year, month, day });
    let time = |hour, minute, second, nanosecond| Some(TomlTime { hour, minute, second, nanosecond });
    assert!(TomlDatetime::new(None, None, None).is_none());
    assert!(TomlDatetime::new(date(2023, 13, 1), None, None).is_none());
    assert!(TomlDatetime::new(date(2023, 2, 29), None, None).is_none());
    assert!(TomlDatetime::new(date(2024, 2, 29), None, None).is_some());
    assert!(TomlDatetime::new(date(1900, 2, 29), None, None).is_none());
    assert!(TomlDatetime::new(date(2000, 2, 29), None, None).is_some());
    assert!(TomlDatetime::new(date(10000, 1, 1), None, None).is_none());
    assert!(TomlDatetime::new(date(2023, 4, 31), None, None).is_none());
    assert!(TomlDatetime::new(None, time(24, 0, None, None), None).is_none());
    assert!(TomlDatetime::new(None, time(23, 60, None, None), None).is_none());
    assert!(TomlDatetime::new(None, time(23, 59, Some(60), None), None).is_some());
    assert!(TomlDatetime::new(None, time(23, 59, Some(61), None), None).is_none());
    assert!(TomlDatetime::new(None, time(1, 2, None, Some(5)), None).is_none());
    assert!(TomlDatetime::new(None, time(1, 2, Some(3), Some(1_000_000_000)), None).is_none());
    assert!(TomlDatetime::new(None, time(1, 2, Some(3), None), Some(TomlOffset::Z)).is_none());
    assert!(TomlDatetime::new(date(2023, 1, 1), time(1, 2, None, None), Some(TomlOffset::Custom(i16::MIN))).is_none());
    assert!(TomlDatetime::new(date(2023, 1, 1), time(1, 2, None, None), Some(TomlOffset::Custom(1440))).is_none());
    let d = TomlDatetime::new(date(2023, 1, 1), time(1, 2, None, None), Some(TomlOffset::Custom(-1439))).unwrap();
    assert_eq!(d.parts(), (date(2023, 1, 1), time(1, 2, None, None), Some(TomlOffset::Custom(-1439))));
}

#[test]
fn datetime_text_of_short_forms() {
    let t = table(vec![
        ("a", TomlValue::Datetime(TomlDatetime::new(None, Some(TomlTime { hour: 7, minute: 5, second: None, nanosecond: None }), None).unwrap())),
        ("b", TomlValue::Datetime(TomlDatetime::new(None, Some(TomlTime { hour: 7, minute: 5, second: Some(9), nanosecond: Some(0) }), None).unwrap())),
        ("c", TomlValue::Datetime(TomlDatetime::new(Some(TomlDate { year: 7, month: 1, day: 9 }), None, None).unwrap())),
    ]);
    let mut w = XmlWriter::new(String::new(), 2);
    assert_eq!(w.write_table(&t), Ok(()));
    assert_eq!(w.into_output(), "<a>07:05</a>\n<b>07:05:09.0</b>\n<c>0007-01-09</c>\n");
}

#[test]
fn repository_error_shows_datetime_in_toml() {
    let mut entries = coordinates();
    let d = TomlDatetime::new(Some(TomlDate { year: 1979, month: 5, day: 27 }), None, None).unwrap();
    entries.push(("repositories", TomlValue::Table(table(vec![("r", TomlValue::Datetime(d))]))));
    assert_eq!(
        parse_error(entries),
        "expected value of repository `r` to be a string; found `1979-05-27`"
    );
}

#[test]
fn pom_toml_text_is_read() {
    let p = project_from_pom_toml(
        "group = \"g\"\nartifact = \"a\"\nversion = \"1\"\nwhen = 1979-05-27T07:32:00Z\nratio = 1.5\nzeta = 2\nalpha = 1\n",
    )
    .unwrap();
    assert_eq!(keys(&p.rest), vec!["alpha", "ratio", "when", "zeta"]);
    let mut out = String::new();
    p.write_pom(&mut out).unwrap();
    assert!(out.contains("  <alpha>1</alpha>\n  <ratio>1.5</ratio>\n  <when>1979-05-27T07:32:00Z</when>\n  <zeta>2</zeta>\n"));
}

#[test]
fn pom_toml_errors_are_prefixed() {
    let e = project_from_pom_toml("group = ").unwrap_err();
    assert!(e.starts_with("Error parsing pom.toml: "));
    assert!(e.len() > "Error parsing pom.toml: ".len());
    assert_eq!(
        project_from_pom_toml("group = \"g\"\n").unwrap_err(),
        "Error parsing pom.toml: expected string `artifact`"
    );
}

#[test]
fn version_string_means_version_table() {
    let short = project_from_pom_toml("group = \"g\"\nartifact = \"a\"\nversion = \"1\"\n[dependencies]\n\"x:y\" = \"2\"\n").unwrap();
    let long = project_from_pom_toml("group = \"g\"\nartifact = \"a\"\nversion = \"1\"\n[dependencies]\n\"x:y\" = { version = \"2\" }\n").unwrap();
    assert_eq!(short.dependencies[0].spec, long.dependencies[0].spec);
    let (mut a, mut b) = (String::new(), String::new());
    short.write_pom(&mut a).unwrap();
    long.write_pom(&mut b).unwrap();
    assert_eq!(a, b);
}
