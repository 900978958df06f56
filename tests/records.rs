use maven_rs::editor::dom::{parse_document, root_element};
use maven_rs::editor::{ElementConverter, HasElementName, InvalidValueError, PomValue, XMLEditorError};
use maven_rs::pom::{
    ChecksumPolicy, Dependency, DependencyParseError, Developer, Parent, Pom, Repository, RepositoryLayout, Scm,
    SCMError, SubRepositoryRules, UpdatePolicy,
};
use maven_rs::settings::Server;
use maven_rs::types::Property;

fn create_xml_to_element<E: ElementConverter + HasElementName>(xml: &str) -> Result<E, XMLEditorError> {
    let actual_xml = format!(
        r#"<?xml version="1.0" encoding="UTF-8"?>
            {xml}
            "#
    );
    let document = parse_document(&actual_xml).unwrap();
    let raw_element = root_element(&document).expect("No root element found");
    let name = maven_rs::editor::dom::name_of(&document, raw_element);
    assert_eq!(name, E::element_name(), "Expected element name to be {}", E::element_name());
    E::from_element(raw_element, &document)
}

#[test]
fn test_simple() {
    let dep = Dependency {
        group_id: "com.google.guava".to_string(),
        artifact_id: "guava".to_string(),
        version: Some("30.1-jre".parse().unwrap()),
        depend_type: None,
        scope: None,
        classifier: None,
    };
    let dep_str = "com.google.guava:guava:30.1-jre";
    assert_eq!(dep, dep_str.parse::<Dependency>().unwrap());
    assert_eq!(dep_str, dep.to_string());
}

#[test]
fn test_is_same_dependency() {
    let dep = Dependency {
        group_id: "com.google.guava".to_string(),
        artifact_id: "guava".to_string(),
        version: Some("30.1-jre".parse().unwrap()),
        depend_type: None,
        scope: None,
        classifier: None,
    };
    let dep2 = Dependency {
        group_id: "com.google.guava".to_string(),
        artifact_id: "guava".to_string(),
        version: Some("30.2-jre".parse().unwrap()),
        depend_type: None,
        scope: None,
        classifier: None,
    };
    assert!(
        dep.is_same_dependency(&dep2),
        "Dependencies should be the same. Because the group id and artifact id are the same."
    );
}

#[test]
fn parse_full() {
    let test_value = r#"
            <dependency>
                <groupId>com.google.guava</groupId>
                <artifactId>guava</artifactId>
                <version>30.1-jre</version>
                <type>jar</type>
                <scope>compile</scope>
                <classifier>tests</classifier>
            </dependency>
        "#;
    let dep = create_xml_to_element::<Dependency>(test_value).unwrap();
    assert_eq!(
        dep,
        Dependency {
            group_id: "com.google.guava".to_string(),
            artifact_id: "guava".to_string(),
            version: Some("30.1-jre".parse().unwrap()),
            depend_type: Some("jar".to_string()),
            scope: Some("compile".to_string()),
            classifier: Some("tests".to_string()),
        }
    );
}

#[test]
fn parse_min() {
    let test_value = r#"
            <dependency>
                <groupId>com.google.guava</groupId>
                <artifactId>guava</artifactId>
                <version>30.1-jre</version>

            </dependency>
        "#;
    let dep = create_xml_to_element::<Dependency>(test_value).unwrap();
    assert_eq!(
        dep,
        Dependency {
            group_id: "com.google.guava".to_string(),
            artifact_id: "guava".to_string(),
            version: Some("30.1-jre".parse().unwrap()),
            ..Default::default()
        }
    );
}

#[test]
fn parse_no_version() {
    let test_value = r#"
            <dependency>
                <groupId>com.google.guava</groupId>
                <artifactId>guava</artifactId>
            </dependency>
        "#;
    let dep = create_xml_to_element::<Dependency>(test_value).unwrap();
    assert_eq!(
        dep,
        Dependency {
            group_id: "com.google.guava".to_string(),
            artifact_id: "guava".to_string(),
            version: None,
            ..Default::default()
        }
    );
}

#[test]
fn developers_test_element_parse() {
    let test_value = r#"
            <developer>
                <id>wyatt-herkamp</id>
                <name>Wyatt Herkamp</name>
                <email>test@wyatt-herkamp.dev</email>
                <url>https://wyatt-herkamp.dev</url>
            </developer>
        "#;
    let dev = Developer {
        id: Some("wyatt-herkamp".to_string()),
        name: Some("Wyatt Herkamp".to_string()),
        email: Some("test@wyatt-herkamp.dev".to_owned()),
        url: Some("https://wyatt-herkamp.dev".to_owned()),
        ..Default::default()
    };
    assert_eq!(create_xml_to_element::<Developer>(test_value).unwrap(), dev);
}

#[test]
fn parent_test_element_parse() {
    let test_value = r#"
            <parent>
                <groupId>dev.wyatt-herkamp</groupId>
                <artifactId>test</artifactId>
                <version>1.0.0</version>
            </parent>
        "#;
    let dep = create_xml_to_element::<Parent>(test_value).unwrap();
    assert_eq!(
        dep,
        Parent {
            group_id: Some("dev.wyatt-herkamp".to_string()),
            artifact_id: Some("test".to_string()),
            version: Some("1.0.0".to_string()),
            ..Default::default()
        }
    );
}

fn inner_layout_test(layout: RepositoryLayout, expected: &str) {
    assert_eq!(layout.to_string(), expected);
    assert_eq!(expected.parse::<RepositoryLayout>().unwrap(), layout);
}

#[test]
fn layout() {
    inner_layout_test(RepositoryLayout::Default, "default");
    inner_layout_test(RepositoryLayout::Legacy, "legacy");
}

fn inner_update_policy_test(policy: UpdatePolicy, expected: &str) {
    assert_eq!(policy.to_string(), expected);
    assert_eq!(expected.parse::<UpdatePolicy>().unwrap(), policy);
}

#[test]
fn update_policy() {
    inner_update_policy_test(UpdatePolicy::Always, "always");
    inner_update_policy_test(UpdatePolicy::Daily, "daily");
    inner_update_policy_test(UpdatePolicy::Interval(5), "interval:5");
    inner_update_policy_test(UpdatePolicy::Never, "never");
}

fn inner_checksum_policy(policy: ChecksumPolicy, expected: &str) {
    assert_eq!(policy.to_string(), expected);
    assert_eq!(expected.parse::<ChecksumPolicy>().unwrap(), policy);
}

#[test]
fn checksum_policy() {
    inner_checksum_policy(ChecksumPolicy::Ignore, "ignore");
    inner_checksum_policy(ChecksumPolicy::Fail, "fail");
    inner_checksum_policy(ChecksumPolicy::Warn, "warn");
}

fn repository_parses_to(value: &str, expected: Repository) {
    let repository = create_xml_to_element::<Repository>(value).unwrap();
    assert_eq!(repository, expected);
}

#[test]
fn basic_repository() {
    repository_parses_to(
        r#"
            <repository>
                <id>central</id>
                <name>Maven Central</name>
                <url>https://repo.maven.apache.org/maven2/</url>
            </repository>
        "#,
        Repository {
            id: Some("central".to_string()),
            name: Some("Maven Central".to_string()),
            url: "https://repo.maven.apache.org/maven2/".to_string(),
            ..Default::default()
        },
    )
}

#[test]
fn just_url() {
    repository_parses_to(
        r#"
            <repository>
                <url>https://repo.maven.apache.org/maven2/</url>
            </repository>
        "#,
        Repository { url: "https://repo.maven.apache.org/maven2/".to_string(), ..Default::default() },
    )
}

#[test]
fn with_release_settings() {
    repository_parses_to(
        r#"
                <repository>
                    <url>https://repo.maven.apache.org/maven2/</url>
                    <releases>
                        <enabled>true</enabled>
                        <updatePolicy>daily</updatePolicy>
                        <checksumPolicy>fail</checksumPolicy>
                    </releases>
                </repository>
            "#,
        Repository {
            url: "https://repo.maven.apache.org/maven2/".to_string(),
            releases: Some(SubRepositoryRules {
                enabled: Some(true),
                update_policy: Some(UpdatePolicy::Daily),
                checksum_policy: Some(ChecksumPolicy::Fail),
            }),
            ..Default::default()
        },
    )
}

#[test]
fn with_snapshot_settings() {
    repository_parses_to(
        r#"
                <repository>
                    <url>https://repo.maven.apache.org/maven2/</url>
                    <snapshots>
                        <enabled>true</enabled>
                        <updatePolicy>daily</updatePolicy>
                        <checksumPolicy>fail</checksumPolicy>
                    </snapshots>
                </repository>
            "#,
        Repository {
            url: "https://repo.maven.apache.org/maven2/".to_string(),
            snapshots: Some(SubRepositoryRules {
                enabled: Some(true),
                update_policy: Some(UpdatePolicy::Daily),
                checksum_policy: Some(ChecksumPolicy::Fail),
            }),
            ..Default::default()
        },
    )
}

#[test]
fn with_empty_sub_rules() {
    repository_parses_to(
        r#"
                <repository>
                    <url>https://repo.maven.apache.org/maven2/</url>
                    <releases> </releases>
                    <snapshots/>
                </repository>
            "#,
        Repository {
            url: "https://repo.maven.apache.org/maven2/".to_string(),
            releases: Some(SubRepositoryRules::default()),
            snapshots: Some(SubRepositoryRules::default()),
            ..Default::default()
        },
    )
}

#[test]
fn repository_without_url_is_missing_an_element() {
    let err = create_xml_to_element::<Repository>("<repository><id>x</id></repository>").unwrap_err();
    assert!(matches!(err, XMLEditorError::MissingElement(e) if e.0 == "url"));
}

#[test]
fn dependency_without_group_is_missing_an_element() {
    let err = create_xml_to_element::<Dependency>("<dependency><artifactId>a</artifactId></dependency>").unwrap_err();
    assert!(matches!(err, XMLEditorError::MissingElement(e) if e.0 == "groupId"));
}

#[test]
fn invalid_policy_text_is_an_invalid_value() {
    let err = create_xml_to_element::<Repository>(
        "<repository><url>u</url><updatePolicy>sometimes</updatePolicy></repository>",
    )
    .unwrap_err();
    assert!(matches!(err, XMLEditorError::InvalidValue(InvalidValueError::InvalidValue { found, .. }) if found == "sometimes"));
}

#[test]
fn invalid_interval_is_a_formatted_value_error() {
    let err = UpdatePolicy::parse("interval:soon").unwrap_err();
    assert_eq!(err, InvalidValueError::InvalidFormattedValue { error: "soon".to_string() });
    assert_eq!(UpdatePolicy::parse("interval:+42").unwrap(), UpdatePolicy::Interval(42));
    assert!(UpdatePolicy::parse("interval:99999999999999999999999").is_err());
    assert_eq!(UpdatePolicy::Interval(120).to_string(), "interval:120");
}

#[test]
fn booleans_are_exactly_true_or_false() {
    assert_eq!(bool::from_str_for_editor("true").unwrap(), true);
    assert_eq!(bool::from_str_for_editor("false").unwrap(), false);
    let err = bool::from_str_for_editor("True").unwrap_err();
    assert_eq!(err, InvalidValueError::InvalidValue { expected: "true or false", found: "True".to_string() });
    assert_eq!(err.to_string(), "Expected true or false found True");
}

#[test]
fn invalid_version_property_is_rejected() {
    let err = create_xml_to_element::<Dependency>(
        "<dependency><groupId>g</groupId><artifactId>a</artifactId><version>1.$x</version></dependency>",
    )
    .unwrap_err();
    assert!(matches!(err, XMLEditorError::InvalidValue(InvalidValueError::InvalidFormattedValue { .. })));
}

#[test]
fn later_duplicate_children_override_earlier_ones() {
    let dep = create_xml_to_element::<Dependency>(
        "<dependency><groupId>g</groupId><artifactId>a</artifactId><scope>test</scope><scope>compile</scope></dependency>",
    )
    .unwrap();
    assert_eq!(dep.scope, Some("compile".to_string()));
}

#[test]
fn coordinates_errors() {
    assert_eq!("nothing".parse::<Dependency>().unwrap_err(), DependencyParseError::MissingSeparator);
    assert_eq!("".parse::<Dependency>().unwrap_err(), DependencyParseError::MissingSeparator);
    assert_eq!("g:a".parse::<Dependency>().unwrap_err(), DependencyParseError::MissingVersion);
    let dep = "g:a:1.0:extra".parse::<Dependency>().unwrap();
    assert_eq!(dep.version, Some(Property::Literal("1.0".to_string())));
}

#[test]
fn pom_paths() {
    let dep = "com.google.guava:guava:30.1-jre".parse::<Dependency>().unwrap();
    assert_eq!(dep.pom_name(), "guava-30.1-jre.pom");
    assert_eq!(dep.pom_path(), "com/google/guava/guava/30.1-jre/guava-30.1-jre.pom");
    assert_eq!(maven_rs::utils::group_id_to_path("org.apache.maven"), "org/apache/maven");
    assert_eq!(maven_rs::utils::group_id_and_artifact_id_to_path("a.b", "c"), "a/b/c");
}

#[test]
fn scm_connection_parts() {
    let scm = Scm { connection: Some("scm:git:https://github.com/x/y".to_string()), ..Default::default() };
    assert_eq!(scm.get_provider_for_connection().unwrap(), Some("git".to_string()));
    assert_eq!(scm.get_provider_specific_for_connection().unwrap(), Some("https://github.com/x/y".to_string()));
    let none = Scm::default();
    assert_eq!(none.get_provider_for_connection().unwrap_err(), SCMError::MissingProvider);
    let bad = Scm { connection: Some("svn:x".to_string()), ..Default::default() };
    assert_eq!(bad.get_provider_for_connection().unwrap_err(), SCMError::DidNotStartWithScm);
    let bare = Scm { connection: Some("scm".to_string()), ..Default::default() };
    assert_eq!(bare.get_provider_for_connection().unwrap_err(), SCMError::MissingProvider);
}

#[test]
fn server_credentials() {
    let server = Server {
        id: "id".to_string(),
        username: Some("u".to_string()),
        password: Some("p".to_string()),
        ..Default::default()
    };
    assert_eq!(server.username_and_password(), Some(("u", "p")));
    assert_eq!(server.private_key_and_passphrase(), None);
}

#[test]
fn test_version_or_group_id_in_parent() {
    const EXAMPLE_POM: &str = r#"
        <?xml version="1.0" encoding="UTF-8"?>
        <project>
            <modelVersion>4.0.0</modelVersion>
            <parent>
                <groupId>com.google.code.gson</groupId>
                <artifactId>gson-parent</artifactId>
                <version>2.11.0</version>
            </parent>

            <artifactId>gson</artifactId>
            <name>Gson</name>
        </project>
        "#;
    let editor = maven_rs::pom::editor::PomEditor::load_from_str(EXAMPLE_POM.trim()).unwrap();
    let pom = Pom {
        group_id: editor.get_group_id(),
        artifact_id: editor.get_artifact_id().unwrap(),
        parent: editor.get_parent().unwrap(),
        version: editor.get_version(),
        name: editor.get_name(),
        description: editor.get_description(),
        url: editor.get_url(),
        scm: editor.get_scm().unwrap(),
    };
    assert_eq!(pom.get_group_id(), Some("com.google.code.gson"));
    assert_eq!(pom.get_version(), Some("2.11.0"));
    assert_eq!(pom.artifact_id, "gson");
}

#[test]
fn rendering_of_values() {
    assert_eq!(true.to_string_for_editor(), "true");
    assert_eq!(ChecksumPolicy::Warn.to_string_for_editor(), "warn");
    assert_eq!(maven_rs::utils::decimal_string(0), "0");
    assert_eq!(maven_rs::utils::decimal_string(1234567), "1234567");
    assert_eq!(maven_rs::utils::parse_usize("0042"), Some(42));
    assert_eq!(maven_rs::utils::parse_usize("+"), None);
    assert_eq!(maven_rs::utils::parse_usize("-1"), None);
    assert_eq!(maven_rs::utils::parse_usize("18446744073709551615"), Some(usize::MAX));
    assert_eq!(maven_rs::utils::parse_usize("18446744073709551616"), None);
}

#[test]
fn an_invalid_earlier_duplicate_is_an_error() {
    let err = create_xml_to_element::<Repository>(
        "<repository><url>u</url><updatePolicy>sometimes</updatePolicy><updatePolicy>daily</updatePolicy></repository>",
    )
    .unwrap_err();
    assert!(matches!(err, XMLEditorError::InvalidValue(InvalidValueError::InvalidValue { found, .. }) if found == "sometimes"));
    let err = create_xml_to_element::<Dependency>(
        "<dependency><groupId>g</groupId><artifactId>a</artifactId><version>${x</version><version>1</version></dependency>",
    )
    .unwrap_err();
    assert!(matches!(err, XMLEditorError::InvalidValue(InvalidValueError::InvalidFormattedValue { .. })));
}

#[test]
fn unknown_update_policy_names_the_accepted_forms() {
    let err = "weekly".parse::<UpdatePolicy>().unwrap_err();
    assert_eq!(
        err,
        InvalidValueError::InvalidValue {
            expected: "always, daily, never, or interval:<number>",
            found: "weekly".to_string()
        }
    );
}
