use naven::parse::project_from_pom_toml;



fn parse_pom(toml: &str) -> Result<String, String> {
    let project = project_from_pom_toml(toml)?;
    let mut out = String::new();
    project.write_pom(&mut out)?;
    Ok(out)
}

fn test_compare(pom_toml: &str, pom_xml: &str) {
    match parse_pom(pom_toml) {
        Ok(xml) => assert_eq!(xml.as_str(), pom_xml),
        Err(e) => assert!(false, "{e}"),
    }
}

const COORDINATES: &str = "group = \"org.example\"\nartifact = \"my-app\"\nversion = \"0.1.1\"\n";

const HEAD: &str = "<project xmlns=\"http://maven.apache.org/POM/4.0.0\">
  <modelVersion>4.0.0</modelVersion>
  <groupId>org.example</groupId>
  <artifactId>my-app</artifactId>
  <version>0.1.1</version>
";

#[test]
fn minimal_pom() {
    let expected = format!("{HEAD}</project>\n");
    test_compare(COORDINATES, &expected);
}

#[test]
fn version_only_dependency() {
    let toml = format!("{COORDINATES}\n[dependencies]\n\"com.google.guava:guava\" = \"33.7\"\n");
    let expected = format!(
        "{HEAD}  <dependencies>
    <dependency>
      <groupId>com.google.guava</groupId>
      <artifactId>guava</artifactId>
      <version>33.7</version>
    </dependency>
  </dependencies>
</project>
"
    );
    test_compare(&toml, &expected);
}

#[test]
fn dependency_with_scope() {
    let toml = format!(
        "{COORDINATES}\n[dependencies]\n\"org.junit.jupiter:junit-jupiter\" = {{ version = \"RELEASE\", scope = \"test\" }}\n"
    );
    let expected = format!(
        "{HEAD}  <dependencies>
    <dependency>
      <groupId>org.junit.jupiter</groupId>
      <artifactId>junit-jupiter</artifactId>
      <scope>test</scope>
      <version>RELEASE</version>
    </dependency>
  </dependencies>
</project>
"
    );
    test_compare(&toml, &expected);
}

#[test]
fn dependency_with_arbitrary_data() {
    let toml = format!(
        "{COORDINATES}\n[dependencies.\"org.example:lib\"]\nversion = \"1.2.3\"\noptional = true\nexclusions.exclusion = {{ groupId = \"org.slf4j\", artifactId = \"slf4j-api\" }}\n"
    );
    let expected = format!(
        "{HEAD}  <dependencies>
    <dependency>
      <groupId>org.example</groupId>
      <artifactId>lib</artifactId>
      <exclusions>
        <exclusion>
          <artifactId>slf4j-api</artifactId>
          <groupId>org.slf4j</groupId>
        </exclusion>
      </exclusions>
      <optional>true</optional>
      <version>1.2.3</version>
    </dependency>
  </dependencies>
</project>
"
    );
    test_compare(&toml, &expected);
}

#[test]
fn mixed_dependencies() {
    let toml = format!(
        "{COORDINATES}\n[dependencies]\n\"com.google.guava:guava\" = \"33.7\"\n\"org.junit.jupiter:junit-jupiter\" = {{ version = \"RELEASE\", scope = \"test\" }}\n"
    );
    let expected = format!(
        "{HEAD}  <dependencies>
    <dependency>
      <groupId>com.google.guava</groupId>
      <artifactId>guava</artifactId>
      <version>33.7</version>
    </dependency>
    <dependency>
      <groupId>org.junit.jupiter</groupId>
      <artifactId>junit-jupiter</artifactId>
      <scope>test</scope>
      <version>RELEASE</version>
    </dependency>
  </dependencies>
</project>
"
    );
    test_compare(&toml, &expected);
}

#[test]
fn all_recognized_keys() {
    let toml = format!(
        "{COORDINATES}packaging = \"jar\"\nname = \"My App\"\nurl = \"https://example.org\"\ndescription = \"An example\"\n\n[properties]\nrelease = \"17\"\nencoding = \"UTF-8\"\n\"exec.mainClass\" = \"org.example.Main\"\n\n[repositories]\ncentral = \"https://repo.maven.apache.org/maven2\"\n\n[dependencies]\n\"com.google.guava:guava\" = \"33.7\"\n\n[plugins]\n\"org.codehaus.mojo:exec-maven-plugin\" = {{ version = \"3.5.0\" }}\n"
    );
    let expected = "<project xmlns=\"http://maven.apache.org/POM/4.0.0\">
  <modelVersion>4.0.0</modelVersion>
  <groupId>org.example</groupId>
  <artifactId>my-app</artifactId>
  <version>0.1.1</version>
  <name>My App</name>
  <url>https://example.org</url>
  <properties>
    <maven.compiler.release>17</maven.compiler.release>
    <project.build.sourceEncoding>UTF-8</project.build.sourceEncoding>
    <exec.mainClass>org.example.Main</exec.mainClass>
  </properties>
  <repositories>
    <repository>
      <id>central</id>
      <url>https://repo.maven.apache.org/maven2</url>
    </repository>
  </repositories>
  <dependencies>
    <dependency>
      <groupId>com.google.guava</groupId>
      <artifactId>guava</artifactId>
      <version>33.7</version>
    </dependency>
  </dependencies>
  <build>
    <plugins>
      <plugin>
        <groupId>org.codehaus.mojo</groupId>
        <artifactId>exec-maven-plugin</artifactId>
        <version>3.5.0</version>
      </plugin>
    </plugins>
  </build>
  <description>An example</description>
</project>
";
    test_compare(&toml, expected);
}

#[test]
fn readme_example_has_48_lines() {
    let toml = r#"group = "org.example"
artifact = "my-app"
version = "0.1.0"

[properties]
release = "21"

[dependencies]
"com.google.guava:guava" = "33.7"
"org.junit.jupiter:junit-jupiter" = { version = "RELEASE", scope = "test" }

[plugins]
":maven-assembly-plugin" = {
    configuration.archive.manifest.mainClass = "org.example.my-app.Main",
    configuration.descriptorRefs.descriptorRef = "jar-with-dependencies",
    executions.execution = {
        id = "make-assembly",
        goals.goal = "single",
        phase = "package"
    }
}
"#;
    let xml = parse_pom(toml).unwrap();
    assert_eq!(xml.lines().count(), 48);
    assert!(xml.contains(
        "      <plugin>
        <artifactId>maven-assembly-plugin</artifactId>
        <configuration>
          <archive>
            <manifest>
              <mainClass>org.example.my-app.Main</mainClass>
            </manifest>
          </archive>
          <descriptorRefs>
            <descriptorRef>jar-with-dependencies</descriptorRef>
          </descriptorRefs>
        </configuration>
        <executions>
          <execution>
            <goals>
              <goal>single</goal>
            </goals>
            <id>make-assembly</id>
            <phase>package</phase>
          </execution>
        </executions>
      </plugin>
"
    ));
    assert!(!xml.contains("<groupId></groupId>"));
}

