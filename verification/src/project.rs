//! A Maven project as `pom.toml` describes it, and how it is written as the
//! XML of a `pom.xml`.
use vstd::prelude::*;
use crate::toml_model::{TomlTable, TableView};
use crate::xmlwriter::{
    WriterState, Outcome, outcome, table_written, items_written, write_items, XmlWrite, XmlWriter,
};

verus! {

/// A Maven project.
#[derive(Clone, Debug)]
pub struct Project {
    pub group: String,
    pub artifact: String,
    pub version: String,
    pub packaging: Option<String>,
    pub name: Option<String>,
    pub url: Option<String>,
    pub properties: Option<Properties>,
    pub repositories: Vec<Repository>,
    pub dependencies: Vec<Dependency>,
    pub plugins: Vec<Plugin>,
    pub rest: TomlTable,
}

/// The `[properties]` of a project.
#[derive(Clone, Debug)]
pub struct Properties {
    pub release: Option<String>,
    pub encoding: Option<String>,
    pub rest: TomlTable,
}

/// A repository to fetch artifacts from.
#[derive(Clone, Debug)]
pub struct Repository {
    pub id: String,
    pub url: String,
    pub name: Option<String>,
}

/// A dependency: its group, its artifact, and the rest of its specification.
#[derive(Clone, Debug)]
pub struct Dependency {
    pub group: String,
    pub artifact: String,
    pub spec: TomlTable,
}

/// A build plugin: its group, its artifact, and the rest of its specification.
#[derive(Clone, Debug)]
pub struct Plugin {
    pub group: String,
    pub artifact: String,
    pub spec: TomlTable,
}

/// The state after writing `<tag>value</tag>` when `value` is present.
pub open spec fn optional_element(ws: WriterState, tag: Seq<char>, value: Option<String>) -> WriterState {
    match value {
        Some(v) => ws.element(tag, v@),
        None => ws,
    }
}

/// The state and outcome of writing `items` inside a tag of their own, and
/// nothing when there are no items.
pub open spec fn group_written<T: XmlWrite>(ws: WriterState, tag: Seq<char>, items: Seq<T>) -> (WriterState, Outcome) {
    if items.len() == 0 {
        (ws, Ok(()))
    } else {
        let (ws1, r1) = items_written(ws.opened(tag), items);
        if r1 is Err {
            (ws1, r1)
        } else {
            ws1.close_step()
        }
    }
}

/// The state and outcome of writing the table `t` inside an open element,
/// then closing it.
pub open spec fn table_then_close(ws: WriterState, t: TableView) -> (WriterState, Outcome) {
    let (ws1, r1) = table_written(ws, t);
    if r1 is Err {
        (ws1, r1)
    } else {
        ws1.close_step()
    }
}

impl XmlWrite for Repository {
    open spec fn written(&self, ws: WriterState) -> (WriterState, Outcome) {
        let s = ws.opened("repository"@).element("id"@, self.id@).element("url"@, self.url@);
        optional_element(s, "scope"@, self.name).close_step()
    }

    fn write(&self, writer: &mut XmlWriter) -> (r: Result<(), &'static str>) {
        writer.open_tag(String::from_str("repository"))?;
        writer.element("id", self.id.as_str())?;
        writer.element("url", self.url.as_str())?;
        if let Some(name) = &self.name {
            writer.element("scope", name.as_str())?;
        }
        writer.close_tag()
    }
}

impl XmlWrite for Properties {
    open spec fn written(&self, ws: WriterState) -> (WriterState, Outcome) {
        let s = ws.opened("properties"@);
        let s = optional_element(s, "maven.compiler.release"@, self.release);
        let s = optional_element(s, "project.build.sourceEncoding"@, self.encoding);
        table_then_close(s, self.rest@)
    }

    fn write(&self, writer: &mut XmlWriter) -> (r: Result<(), &'static str>) {
        writer.open_tag(String::from_str("properties"))?;
        if let Some(release) = &self.release {
            writer.element("maven.compiler.release", release.as_str())?;
        }
        if let Some(encoding) = &self.encoding {
            writer.element("project.build.sourceEncoding", encoding.as_str())?;
        }
        writer.write_table(&self.rest)?;
        writer.close_tag()?;
        Ok(())
    }
}

impl XmlWrite for Dependency {
    open spec fn written(&self, ws: WriterState) -> (WriterState, Outcome) {
        let s = ws.opened("dependency"@).element("groupId"@, self.group@).element(
            "artifactId"@,
            self.artifact@,
        );
        table_then_close(s, self.spec@)
    }

    fn write(&self, writer: &mut XmlWriter) -> (r: Result<(), &'static str>) {
        writer.open_tag(String::from_str("dependency"))?;
        writer.element("groupId", self.group.as_str())?;
        writer.element("artifactId", self.artifact.as_str())?;
        writer.write_table(&self.spec)?;
        writer.close_tag()
    }
}

impl XmlWrite for Plugin {
    /// A plugin without a group is written without `groupId`, which Maven
    /// accepts for some plugins.
    open spec fn written(&self, ws: WriterState) -> (WriterState, Outcome) {
        let s = ws.opened("plugin"@);
        let s = if self.group@.len() == 0 {
            s
        } else {
            s.element("groupId"@, self.group@)
        };
        table_then_close(s.element("artifactId"@, self.artifact@), self.spec@)
    }

    fn write(&self, writer: &mut XmlWriter) -> (r: Result<(), &'static str>) {
        writer.open_tag(String::from_str("plugin"))?;
        if self.group.as_str().unicode_len() != 0 {
            writer.element("groupId", self.group.as_str())?;
        }
        writer.element("artifactId", self.artifact.as_str())?;
        writer.write_table(&self.spec)?;
        writer.close_tag()
    }
}

/// The namespace of a POM.
pub open spec fn pom_namespace() -> Seq<char> {
    "http://maven.apache.org/POM/4.0.0"@
}

impl Project {
    /// The state after the lines that every POM starts with: the `project`
    /// tag, the model version, the coordinates, then the name and the url
    /// when they are given.
    pub open spec fn header_written(&self, ws: WriterState) -> WriterState {
        let s = ws.opened_with_attrib("project"@, "xmlns"@, pom_namespace()).element(
            "modelVersion"@,
            "4.0.0"@,
        ).element("groupId"@, self.group@).element("artifactId"@, self.artifact@).element(
            "version"@,
            self.version@,
        );
        optional_element(optional_element(s, "name"@, self.name), "url"@, self.url)
    }

    /// The state and outcome of writing the properties, when there are some.
    pub open spec fn properties_written(&self, ws: WriterState) -> (WriterState, Outcome) {
        match self.properties {
            Some(p) => p.written(ws),
            None => (ws, Ok(())),
        }
    }

    /// The state and outcome of writing the plugins inside `build` and
    /// `plugins` tags, and nothing when there are none.
    pub open spec fn plugins_written(&self, ws: WriterState) -> (WriterState, Outcome) {
        if self.plugins@.len() == 0 {
            (ws, Ok(()))
        } else {
            let (ws1, r1) = group_written(ws.opened("build"@), "plugins"@, self.plugins@);
            if r1 is Err {
                (ws1, r1)
            } else {
                ws1.close_step()
            }
        }
    }
}

impl Project {
    /// The state and outcome of writing everything but the final closing of
    /// the open tags: each part in turn, stopping at the first that fails.
    pub open spec fn body_written(&self, ws: WriterState) -> (WriterState, Outcome) {
        let s0 = self.header_written(ws);
        let (s1, r1) = self.properties_written(s0);
        let (s2, r2) = group_written(s1, "repositories"@, self.repositories@);
        let (s3, r3) = group_written(s2, "dependencies"@, self.dependencies@);
        let (s4, r4) = self.plugins_written(s3);
        let (s5, r5) = table_written(s4, self.rest@);
        if r1 is Err {
            (s1, r1)
        } else if r2 is Err {
            (s2, r2)
        } else if r3 is Err {
            (s3, r3)
        } else if r4 is Err {
            (s4, r4)
        } else {
            (s5, r5)
        }
    }
}

impl XmlWrite for Project {
    /// The body, then, on success, every open tag is closed, the `project`
    /// tag last.
    open spec fn written(&self, ws: WriterState) -> (WriterState, Outcome) {
        let (s, r) = self.body_written(ws);
        if r is Err {
            (s, r)
        } else {
            (s.all_closed(), Ok(()))
        }
    }

    fn write(&self, writer: &mut XmlWriter) -> (r: Result<(), &'static str>) {
        self.write_header(writer);
        if let Some(properties) = &self.properties {
            properties.write(writer)?;
        }
        write_group(writer, "repositories", &self.repositories)?;
        write_group(writer, "dependencies", &self.dependencies)?;
        self.write_plugins(writer)?;
        writer.write_table(&self.rest)?;
        writer.close_all()
    }
}

/// Writes `items` inside a tag `tag` of their own, and nothing when there
/// are no items.
fn write_group<T: XmlWrite>(writer: &mut XmlWriter, tag: &str, items: &Vec<T>) -> (r: Result<(), &'static str>)
    ensures
        (final(writer)@, outcome(r)) == group_written(old(writer)@, tag@, items@),
{
    if items.len() != 0 {
        writer.open_tag(String::from_str(tag))?;
        write_items(writer, items)?;
        writer.close_tag()
    } else {
        Ok(())
    }
}

impl Project {
    fn write_header(&self, writer: &mut XmlWriter)
        ensures
            final(writer)@ == self.header_written(old(writer)@),
    {
        let _ = writer.open_tag_with_attrib(
            String::from_str("project"),
            "xmlns",
            "http://maven.apache.org/POM/4.0.0",
        );
        let _ = writer.element("modelVersion", "4.0.0");
        let _ = writer.element("groupId", self.group.as_str());
        let _ = writer.element("artifactId", self.artifact.as_str());
        let _ = writer.element("version", self.version.as_str());
        if let Some(name) = &self.name {
            let _ = writer.element("name", name.as_str());
        }
        if let Some(url) = &self.url {
            let _ = writer.element("url", url.as_str());
        }
    }

    fn write_plugins(&self, writer: &mut XmlWriter) -> (r: Result<(), &'static str>)
        ensures
            (final(writer)@, outcome(r)) == self.plugins_written(old(writer)@),
    {
        if self.plugins.len() != 0 {
            writer.open_tag(String::from_str("build"))?;
            write_group(writer, "plugins", &self.plugins)?;
            writer.close_tag()
        } else {
            Ok(())
        }
    }
}

/// The text of a POM for `p`: what writing it with two spaces per level
/// gives, and whether that succeeded.
pub open spec fn pom_written(p: Project) -> (WriterState, Outcome) {
    p.written(WriterState { out: Seq::empty(), tags: Seq::empty(), indent: 2 })
}

impl Project {
    /// Writes the POM of the project, indented by two spaces per level, and
    /// appends it to `out`. On failure `out` holds what was written up to the
    /// failure.
    pub fn write_pom(&self, out: &mut String) -> (r: Result<(), &'static str>)
        ensures
            final(out)@ == old(out)@ + pom_written(*self).0.out,
            outcome(r) == pom_written(*self).1,
    {
        let mut xml_writer = XmlWriter::new(String::new(), 2);
        let r = self.write(&mut xml_writer);
        let text = xml_writer.into_output();
        out.append(text.as_str());
        r
    }
}

} // verus!
