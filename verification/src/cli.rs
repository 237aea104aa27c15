//! The decisions and texts of the command line tool: when `.pom.xml` is
//! rebuilt, how Maven is called, and what `init` writes.
use vstd::prelude::*;
use crate::text::{find_char, split_once, split_once_spec};

verus! {

/// `.pom.xml` is rebuilt unless both modification times are known and
/// `pom.toml` is not newer than `.pom.xml`. Times are in nanoseconds from the
/// Unix epoch, negative before it.
pub fn is_pom_toml_newer(pom_toml_modified: Option<i128>, pom_xml_modified: Option<i128>) -> (newer: bool)
    ensures
        newer == match (pom_toml_modified, pom_xml_modified) {
            (Some(toml), Some(xml)) => toml > xml,
            _ => true,
        },
{
    match (pom_toml_modified, pom_xml_modified) {
        (Some(toml), Some(xml)) => toml > xml,
        _ => true,
    }
}

/// The Maven to call: the project's wrapper when it exists, else `mvn`.
pub fn maven_command<'a>(wrapper_path: &'a str, wrapper_exists: bool) -> (command: &'a str)
    ensures
        command@ == if wrapper_exists { wrapper_path@ } else { "mvn"@ },
{
    if wrapper_exists {
        wrapper_path
    } else {
        "mvn"
    }
}

/// `init` refuses a directory that already holds something.
pub fn check_init_dir(dir_has_entries: bool) -> (r: Result<(), String>)
    ensures
        r is Ok <==> !dir_has_entries,
        r matches Err(e) ==> e@ == "refusing to init naven project: directoy is non-empty"@,
{
    if dir_has_entries {
        Err(String::from_str("refusing to init naven project: directoy is non-empty"))
    } else {
        Ok(())
    }
}

/// The arguments given to Maven: the generated POM, then every argument of
/// the tool after its own name.
pub fn maven_args(args: &Vec<String>) -> (r: Vec<String>)
    ensures
        r@.len() == 2 + (if args@.len() == 0 { 0 } else { args@.len() - 1 }),
        r@[0]@ == "--file"@,
        r@[1]@ == ".pom.xml"@,
        forall|i: int| 1 <= i < args@.len() ==> r@[i + 1]@ == #[trigger] args@[i]@,
{
    let mut r: Vec<String> = Vec::new();
    r.push(String::from_str("--file"));
    r.push(String::from_str(".pom.xml"));
    let mut i: usize = 1;
    while i < args.len()
        invariant
            1 <= i,
            args@.len() > 0 ==> i <= args@.len(),
            args@.len() == 0 ==> i == 1,
            r@.len() == i + 1,
            r@[0]@ == "--file"@,
            r@[1]@ == ".pom.xml"@,
            forall|j: int| 1 <= j < i ==> r@[j + 1]@ == #[trigger] args@[j]@,
        decreases args@.len() - i,
    {
        r.push(args[i].clone());
        i = i + 1;
    }
    assert(args@.len() > 0 ==> i == args@.len());
    r
}

/// The version of a project that `init` creates.
pub open spec fn initial_version() -> Seq<char> {
    "0.1.0-SNAPSHOT"@
}

pub fn initial_version_string() -> (s: String)
    ensures
        s@ == initial_version(),
{
    String::from_str("0.1.0-SNAPSHOT")
}

/// `init` refuses an empty group.
pub fn check_group(group: &str) -> (r: Result<(), String>)
    ensures
        r is Ok <==> group@.len() != 0,
        r matches Err(e) ==> e@ == "group may not be empty"@,
{
    if group.unicode_len() == 0 {
        Err(String::from_str("group may not be empty"))
    } else {
        Ok(())
    }
}

/// The `pom.toml` that `init` writes.
pub open spec fn pom_toml_template(group: Seq<char>, artifact: Seq<char>, version: Seq<char>) -> Seq<char> {
    "group = \""@ + group + "\"\nartifact = \""@ + artifact + "\"\nversion = \""@ + version
        + "\"\n\n[properties]\nrelease = \"17\"\nencoding = \"UTF-8\"\n\"exec.mainClass\" = \""@ + group
        + ".Main\""@
}

pub fn pom_toml_text(group: &str, artifact: &str, version: &str) -> (s: String)
    ensures
        s@ == pom_toml_template(group@, artifact@, version@),
{
    let mut s = String::from_str("group = \"");
    s.append(group);
    s.append("\"\nartifact = \"");
    s.append(artifact);
    s.append("\"\nversion = \"");
    s.append(version);
    s.append("\"\n\n[properties]\nrelease = \"17\"\nencoding = \"UTF-8\"\n\"exec.mainClass\" = \"");
    s.append(group);
    s.append(".Main\"");
    s
}

/// The `Main.java` that `init` writes.
pub open spec fn main_java_template(group: Seq<char>) -> Seq<char> {
    "package "@ + group
        + ";\n\npublic class Main {\n    public static void main(String[] args) {\n        System.out.println(\"\\nHello World!\\n\");\n    }\n}"@
}

pub fn main_java_text(group: &str) -> (s: String)
    ensures
        s@ == main_java_template(group@),
{
    let mut s = String::from_str("package ");
    s.append(group);
    s.append(
        ";\n\npublic class Main {\n    public static void main(String[] args) {\n        System.out.println(\"\\nHello World!\\n\");\n    }\n}",
    );
    s
}

/// The parts of `s` between occurrences of `c`, as `str::split` gives them.
pub open spec fn split_all(s: Seq<char>, c: char) -> Seq<Seq<char>>
    decreases s.len(),
{
    match split_once_spec(s, c) {
        None => seq![s],
        Some((before, after)) => {
            if after.len() < s.len() {
                seq![before] + split_all(after, c)
            } else {
                seq![before]
            }
        },
    }
}

proof fn lemma_find_char_bound(s: Seq<char>, c: char)
    ensures
        find_char(s, c) matches Some(i) ==> 0 <= i < s.len(),
    decreases s.len(),
{
    if s.len() > 0 {
        lemma_find_char_bound(s.drop_first(), c);
    }
}

/// The directories of the Java package of a group: `src/main/java` then one
/// per dot-separated part of the group.
pub fn package_dirs(group: &str) -> (r: Vec<String>)
    ensures
        r@.len() == 3 + split_all(group@, '.').len(),
        r@[0]@ == "src"@,
        r@[1]@ == "main"@,
        r@[2]@ == "java"@,
        forall|i: int| 0 <= i < split_all(group@, '.').len() ==> r@[i + 3]@ == #[trigger] split_all(group@, '.')[i],
{
    let mut r: Vec<String> = Vec::new();
    r.push(String::from_str("src"));
    r.push(String::from_str("main"));
    r.push(String::from_str("java"));
    let mut rest = String::from_str(group);
    let ghost start = r@.len();
    loop
        invariant
            r@.len() >= 3,
            r@[0]@ == "src"@,
            r@[1]@ == "main"@,
            r@[2]@ == "java"@,
            split_all(group@, '.') == r@.subrange(3, r@.len() as int).map_values(|x: String| x@) + split_all(rest@, '.'),
        decreases rest@.len(),
    {
        proof {
            lemma_find_char_bound(rest@, '.');
        }
        match split_once(rest.as_str(), '.') {
            Some((before, after)) => {
                let ghost old_r = r@;
                let ghost old_rest = rest@;
                r.push(before);
                rest = after;
                assert(r@.subrange(3, r@.len() as int).map_values(|x: String| x@) =~= old_r.subrange(3, old_r.len() as int).map_values(|x: String| x@).push(r@[r@.len() - 1]@));
                assert(split_all(old_rest, '.') == seq![r@[r@.len() - 1]@] + split_all(rest@, '.'));
                assert(split_all(group@, '.') =~= r@.subrange(3, r@.len() as int).map_values(|x: String| x@) + split_all(rest@, '.'));
            },
            None => {
                let ghost old_r = r@;
                let ghost last = rest@;
                r.push(rest);
                assert(split_all(last, '.') == seq![last]);
                assert(r@.subrange(3, r@.len() as int).map_values(|x: String| x@) =~= old_r.subrange(3, old_r.len() as int).map_values(|x: String| x@).push(last));
                assert(split_all(group@, '.') =~= r@.subrange(3, r@.len() as int).map_values(|x: String| x@));
                return r;
            },
        }
    }
}

} // verus!
