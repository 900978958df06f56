use maven_rs::editor::XMLEditorError;
use maven_rs::extension::MavenFileExtension;
use maven_rs::meta::{DeployMetadata, SnapshotMetadata, SnapshotVersion, SnapshotVersioning, SnapshotVersions, StableVersioning, StableVersions};
use maven_rs::pom::editor::PomEditor;
use maven_rs::pom::{ChecksumPolicy, Dependency, DistributionRepository, Parent, Plugin, Repository, SubRepositoryRules, UpdatePolicy};
use maven_rs::resolver::{basic_authentication_value, url_with_path};
use maven_rs::types::Property;
use rand::Rng;

#[test]
fn create() {
    let mut editor = PomEditor::default();
    editor.set_group_id(Some("dev.wyatt-herkamp"));
    editor.set_artifact_id(Some("test"));
    let value = editor.write_to_str().unwrap();
    println!("{}", value);
    let mut new_editor = PomEditor::load_from_str(value.as_str()).unwrap();
    assert_eq!(new_editor.get_group_id(), Some("dev.wyatt-herkamp".to_string()));
    assert_eq!(new_editor.get_artifact_id(), Some("test".to_string()));
    new_editor.set_group_id(Some("dev.wyatt-herkamp2"));
    new_editor.set_artifact_id(Some("test2"));
    assert_eq!(new_editor.get_group_id(), Some("dev.wyatt-herkamp2".to_string()));
    assert_eq!(new_editor.get_artifact_id(), Some("test2".to_string()));
    let value = new_editor.write_to_str().unwrap();
    println!("{}", value);
}

#[test]
fn dependencies() {
    let mut editor = PomEditor::new_with_group_and_artifact("dev.wyatt-herkamp", "test");
    let dependency = Dependency {
        group_id: "com.google.guava".to_string(),
        artifact_id: "guava".to_string(),
        version: Some("30.1-jre".parse().unwrap()),
        depend_type: None,
        scope: None,
        classifier: None,
    };
    editor.add_or_update_dependency(dependency.clone()).unwrap();
    let value = editor.write_to_str().unwrap();
    let new_editor = PomEditor::load_from_str(value.as_str()).unwrap();
    let dependencies = new_editor.get_dependencies().unwrap();
    assert!(dependencies.len() == 1);
    assert_eq!(dependencies[0], dependency);
}

#[test]
fn repositories() {
    let mut editor = PomEditor::new_with_group_and_artifact("dev.wyatt-herkamp", "test");
    let repository = Repository {
        id: Some("central".to_string()),
        name: Some("Maven Central Repository".to_string()),
        url: "https://repo.maven.apache.org/maven2".to_string(),
        ..Default::default()
    };
    editor.add_or_update_repository(repository.clone()).unwrap();
    let value = editor.write_to_str().unwrap();
    let new_editor = PomEditor::load_from_str(value.as_str()).unwrap();
    let repositories = new_editor.get_repositories().unwrap();
    assert!(repositories.len() == 1);
    assert_eq!(repositories[0], repository);
}

#[test]
fn build_test_plugins() {
    let mut editor = PomEditor::new_with_group_and_artifact("dev.wyatt-herkamp", "test");
    {
        let mut build_editor = editor.get_or_create_build_element();
        build_editor.set_source_directory("src/main/java");
        build_editor.set_final_name("test");
        let plugin = Plugin {
            group_id: Some("org.apache.maven.plugins".to_string()),
            artifact_id: "maven-compiler-plugin".to_string(),
            version: Some(Property::Literal("3.8.1".to_string())),
        };
        build_editor.add_or_update_plugin(plugin.clone()).unwrap();
        let plugins = build_editor.get_plugins().unwrap();
        assert_eq!(plugins.len(), 1);
        assert_eq!(plugins[0], plugin);
    }
    let value = editor.write_to_str().unwrap();
    println!("{}", value);
}

#[test]
fn test_create_and_delete() {
    let mut editor = PomEditor::new_with_group_and_artifact("dev.wyatt-herkamp", "test");
    assert!(editor.get_build_element_or_none().is_none());
    assert!(!editor.has_build());
    assert!(!editor.delete_build().unwrap());
    {
        let mut build_editor = editor.get_or_create_build_element();
        build_editor.set_source_directory("src/main/java");
        build_editor.set_final_name("test");
        assert_eq!(build_editor.get_source_directory(), Some("src/main/java".to_string()));
        assert_eq!(build_editor.get_final_name(), Some("test".to_string()));
        assert!(build_editor.get_plugins().unwrap().is_empty());
    }
    let value = editor.write_to_str().unwrap();
    let mut editor = PomEditor::load_from_str(&value).unwrap();
    assert!(editor.has_build());
    {
        let build_editor = editor.get_build_element_or_none();
        assert!(build_editor.is_some());
    }
    editor.delete_build().unwrap();
    assert!(!editor.has_build());
}

#[test]
fn test_read_no_dependencies() {
    let xml = r#"<?xml version="1.0" encoding="UTF-8"?>
        <project xmlns="http://maven.apache.org/POM/4.0.0" xmlns:xsi="http://www.w3.org/2001/XMLSchema-instance" xsi:schemaLocation="http://maven.apache.org/POM/4.0.0 http://maven.apache.org/maven-v4_0_0.xsd">
            <modelVersion>4.0.0</modelVersion>
            <groupId>dev.kingtux</groupId>
            <artifactId>test</artifactId>
            <version>1</version>
        </project>
        "#;
    let mut editor = PomEditor::load_from_str(xml).unwrap();
    assert!(!editor.has_dependency_management(), "Should not have dependency management");
    let dependency_management = editor.get_or_create_dependency_management_element();
    let dependencies = dependency_management.get_dependencies().unwrap();
    assert_eq!(dependencies.len(), 0);
}

#[test]
fn distribution_management_test_plugins() {
    let mut editor = PomEditor::new_with_group_and_artifact("dev.wyatt-herkamp", "test");
    {
        let mut distribution_management = editor.get_or_create_distribution_management_element();
        let repository = distribution_management.get_repository().unwrap();
        assert!(repository.is_none());
        let repository = distribution_management.get_snapshot_repository().unwrap();
        assert!(repository.is_none());
        distribution_management
            .set_repository(Some(
                DistributionRepository {
                    id: Some("test".to_string()),
                    name: Some("test".to_string()),
                    url: "https://test.com".to_string(),
                    layout: Some("default".to_string()),
                    ..Default::default()
                }
                .repository(),
            ))
            .unwrap();
        distribution_management
            .set_repository(Some(
                DistributionRepository {
                    id: Some("test".to_string()),
                    name: Some("test".to_string()),
                    url: "https://test.com".to_string(),
                    layout: Some("default".to_string()),
                    ..Default::default()
                }
                .repository(),
            ))
            .unwrap();
        distribution_management
            .set_snapshot_repository(Some(
                DistributionRepository {
                    id: Some("test-snapshot".to_string()),
                    name: Some("test".to_string()),
                    url: "https://test.com".to_string(),
                    layout: Some("default".to_string()),
                    ..Default::default()
                }
                .snapshot_repository(),
            ))
            .unwrap();
        let repository = distribution_management.get_repository().unwrap().unwrap();
        assert_eq!(repository.0.url, "https://test.com");
        let snapshot = distribution_management.get_snapshot_repository().unwrap().unwrap();
        assert_eq!(snapshot.0.id, Some("test-snapshot".to_string()));
    }
    let value = editor.write_to_str().unwrap();
    assert_eq!(value.matches("<repository>").count(), 1);
}

fn random_alphanumeric<R: Rng + ?Sized>(rand: &mut R, length: usize) -> String {
    rand.sample_iter(&rand::distr::Alphanumeric).take(length).map(char::from).collect()
}

fn random_group_id<R: Rng + ?Sized>(rand: &mut R) -> String {
    let number_of_parts = rand.random_range(2..=4);
    let mut parts = Vec::with_capacity(number_of_parts);
    for _ in 0..number_of_parts {
        let part_length = rand.random_range(3..=10);
        parts.push(random_alphanumeric(rand, part_length));
    }
    parts.join(".")
}

fn random_dependency<R: Rng + ?Sized>(rand: &mut R) -> Dependency {
    let group_id = random_group_id(rand);
    let length = rand.random_range(3..=20);
    let artifact_id = random_alphanumeric(rand, length);
    let version = format!(
        "{}.{}.{}",
        rand.random_range(1..=10),
        rand.random_range(0..=10),
        rand.random_range(0..=10)
    );
    Dependency {
        group_id,
        artifact_id,
        version: Some(Property::Literal(version)),
        depend_type: None,
        scope: None,
        classifier: None,
    }
}

fn random_repository<R: Rng + ?Sized>(rand: &mut R) -> Repository {
    let protocol = if rand.random_range(0..=1) == 0 { "http" } else { "https" };
    let domain_length = rand.random_range(5..=15);
    let url = format!("{}://{}.com", protocol, random_alphanumeric(rand, domain_length));
    let id = if rand.random_range(0..=1) == 0 {
        let length = rand.random_range(3..=10);
        Some(random_alphanumeric(rand, length))
    } else {
        None
    };
    let name = if rand.random_range(0..=1) == 0 {
        let length = rand.random_range(3..=10);
        Some(random_alphanumeric(rand, length))
    } else {
        None
    };
    Repository { id, name, url, ..Default::default() }
}

#[test]
fn basic_pom_file_creation() {
    let mut rand = rand::rng();
    for _ in 0..100 {
        let mut pom = PomEditor::default();
        let group_id = random_group_id(&mut rand);
        let length = rand.random_range(3..=20);
        let artifact_id = random_alphanumeric(&mut rand, length);
        pom.set_group_id(Some(group_id.as_str()));
        pom.set_artifact_id(Some(artifact_id.as_str()));
        pom.set_version(Some("1.0.0"));
        for _ in 0..rand.random_range(1..=10) {
            let repository = random_repository(&mut rand);
            pom.add_or_update_repository(repository).unwrap();
        }
        for _ in 0..rand.random_range(1..=10) {
            let dependency = random_dependency(&mut rand);
            pom.add_or_update_dependency(dependency).unwrap();
        }
        let to_string = pom.write_to_str().unwrap();
        let parsed_from_string = PomEditor::load_from_str(&to_string).unwrap();
        assert_eq!(parsed_from_string.get_group_id(), pom.get_group_id());
        assert_eq!(parsed_from_string.get_artifact_id(), pom.get_artifact_id());
        assert_eq!(parsed_from_string.get_version(), pom.get_version());
        assert_eq!(parsed_from_string.get_dependencies().unwrap(), pom.get_dependencies().unwrap());
        assert_eq!(parsed_from_string.get_repositories().unwrap(), pom.get_repositories().unwrap());
    }
}

fn lib_dependency(version: &str) -> Dependency {
    Dependency {
        group_id: "com.x".to_string(),
        artifact_id: "lib".to_string(),
        version: Some(Property::Literal(version.to_string())),
        ..Default::default()
    }
}

#[test]
fn upsert_twice_updates_in_place() {
    let mut editor = PomEditor::default();
    assert!(editor.add_or_update_dependency(lib_dependency("1.0")).unwrap().is_none());
    let previous = editor.add_or_update_dependency(lib_dependency("2.0")).unwrap();
    assert_eq!(previous, Some(lib_dependency("1.0")));
    let dependencies = editor.get_dependencies().unwrap();
    assert_eq!(dependencies, vec![lib_dependency("2.0")]);
    let xml = editor.write_to_str().unwrap();
    assert_eq!(xml.matches("<dependency>").count(), 1);
    assert!(xml.contains("<groupId>com.x</groupId>"));
    assert!(xml.contains("<artifactId>lib</artifactId>"));
    assert!(xml.contains("<version>2.0</version>"));
}

#[test]
fn upsert_same_record_twice_returns_the_stored_record() {
    let mut editor = PomEditor::default();
    editor.add_or_update_dependency(lib_dependency("1.0")).unwrap();
    let stored = editor.get_dependencies().unwrap();
    let again = editor.add_or_update_dependency(lib_dependency("1.0")).unwrap();
    assert_eq!(again, Some(stored[0].clone()));
    assert_eq!(editor.get_dependencies().unwrap().len(), 1);
}

#[test]
fn identities_stay_unique_over_many_upserts() {
    let mut editor = PomEditor::default();
    for i in 0..20 {
        let mut dep = lib_dependency(&format!("{}", i));
        dep.artifact_id = format!("lib{}", i % 4);
        editor.add_or_update_dependency(dep).unwrap();
    }
    let dependencies = editor.get_dependencies().unwrap();
    assert_eq!(dependencies.len(), 4);
    for (i, a) in dependencies.iter().enumerate() {
        for b in dependencies.iter().skip(i + 1) {
            assert!(!a.is_same_dependency(b));
        }
    }
}

#[test]
fn repositories_without_name_never_match() {
    let mut editor = PomEditor::default();
    let repository = Repository { id: Some("x".to_string()), url: "https://x".to_string(), ..Default::default() };
    assert!(editor.add_or_update_repository(repository.clone()).unwrap().is_none());
    assert!(editor.add_or_update_repository(repository.clone()).unwrap().is_none());
    assert_eq!(editor.get_repositories().unwrap().len(), 2);
}

#[test]
fn a_foreign_child_fails_the_whole_list() {
    let xml = r#"<project>
        <dependencies>
            <dependency><groupId>a</groupId><artifactId>b</artifactId></dependency>
            <plugin><artifactId>c</artifactId></plugin>
        </dependencies>
    </project>"#;
    let mut editor = PomEditor::load_from_str(xml).unwrap();
    let err = editor.get_dependencies().unwrap_err();
    assert!(matches!(err, XMLEditorError::UnexpectedElementType { expected: "dependency", ref found } if found == "plugin"));
    let err = editor.add_or_update_dependency(lib_dependency("1")).unwrap_err();
    assert!(matches!(err, XMLEditorError::UnexpectedElementType { .. }));
}

#[test]
fn absent_field_removes_its_element() {
    let mut editor = PomEditor::default();
    editor.add_or_update_dependency(lib_dependency("1.0")).unwrap();
    let mut without_version = lib_dependency("1.0");
    without_version.version = None;
    editor.add_or_update_dependency(without_version).unwrap();
    let xml = editor.write_to_str().unwrap();
    assert!(!xml.contains("<version>"));
    assert_eq!(editor.get_dependencies().unwrap()[0].version, None);
}

#[test]
fn unknown_children_are_kept_on_update() {
    let xml = r#"<project>
        <dependencies>
            <dependency>
                <!-- pinned -->
                <groupId>com.x</groupId><artifactId>lib</artifactId><version>1.0</version>
                <exclusions><exclusion>e</exclusion></exclusions>
            </dependency>
        </dependencies>
    </project>"#;
    let mut editor = PomEditor::load_from_str(xml).unwrap();
    editor.add_or_update_dependency(lib_dependency("2.0")).unwrap();
    let out = editor.write_to_str().unwrap();
    assert!(out.contains("pinned"));
    assert!(out.contains("<exclusion>e</exclusion>"));
    assert!(out.contains("<version>2.0</version>"));
}

#[test]
fn root_must_be_project() {
    let err = PomEditor::load_from_str("<settings/>").unwrap_err();
    assert!(matches!(err, XMLEditorError::UnexpectedElementType { expected: "project", ref found } if found == "settings"));
    assert!(matches!(PomEditor::load_from_str("<project"), Err(XMLEditorError::EditXMLError(_))));
}

#[test]
fn clearing_a_list_keeps_its_element() {
    let mut editor = PomEditor::default();
    editor.add_or_update_dependency(lib_dependency("1.0")).unwrap();
    editor.clear_dependencies().unwrap();
    assert!(editor.get_dependencies().unwrap().is_empty());
    assert!(editor.write_to_str().unwrap().contains("dependencies"));
}

#[test]
fn test_resolable_repository() {
    assert_eq!(
        url_with_path("https://repo1.maven.org/maven2/", "com/google/code/gson/gson/2.11.0/"),
        "https://repo1.maven.org/maven2/com/google/code/gson/gson/2.11.0/"
    );
    assert_eq!(url_with_path("https://host", "a"), "https://host/a");
}

#[test]
fn basic_authentication_encodes_credentials() {
    assert_eq!(basic_authentication_value("user", "pass"), "Basic dXNlcjpwYXNz");
}

#[test]
fn deploy_metadata_names() {
    let metadata = DeployMetadata {
        group_id: "org.kakara".to_string(),
        artifact_id: "engine".to_string(),
        versioning: StableVersioning {
            release: None,
            latest: None,
            versions: StableVersions { version: vec!["1.0-SNAPSHOT".to_string()] },
            last_updated: None,
        },
    };
    assert_eq!(metadata.get_latest_version(), Some(&"1.0-SNAPSHOT".to_string()));
    let (version, name) = metadata.get_latest_artifact_name(MavenFileExtension::from("jar")).unwrap();
    assert_eq!(version, "1.0-SNAPSHOT");
    assert_eq!(name, "engine-1.0-SNAPSHOT.jar");
}

#[test]
fn snapshot_metadata_names() {
    let metadata = SnapshotMetadata {
        group_id: "org.kakara".to_string(),
        artifact_id: "engine".to_string(),
        version: "1.0-SNAPSHOT".to_string(),
        versioning: SnapshotVersioning {
            snapshot: None,
            snapshot_versions: Some(SnapshotVersions {
                snapshot_version: vec![SnapshotVersion {
                    classifier: Some("sources".to_string()),
                    extension: "jar".to_string(),
                    value: "1.0-20210101.010101-1".to_string(),
                    updated: None,
                }],
            }),
            last_updated: None,
        },
    };
    let extension = MavenFileExtension::from("jar").with_classifier("sources".to_string());
    assert_eq!(
        metadata.get_latest_artifact_name(extension),
        Some("engine-1.0-20210101.010101-1-sources.jar".to_string())
    );
    assert_eq!(metadata.get_latest_artifact_name(MavenFileExtension::from("jar")), None);
    let hashed = MavenFileExtension::from(("javadoc".to_string(), "jar".to_string(), "sha256".to_string()));
    assert_eq!(hashed.to_string(), "-javadoc.jar.sha256");
}

#[test]
fn absent_optional_fields_are_removed_on_update() {
    let mut editor = PomEditor::default();
    let mut full = lib_dependency("1.0");
    full.depend_type = Some("jar".to_string());
    full.scope = Some("test".to_string());
    full.classifier = Some("sources".to_string());
    editor.add_or_update_dependency(full).unwrap();
    editor.add_or_update_dependency(lib_dependency("1.0")).unwrap();
    let xml = editor.write_to_str().unwrap();
    assert!(!xml.contains("<type>"));
    assert!(!xml.contains("<scope>"));
    assert!(!xml.contains("<classifier>"));
    assert_eq!(editor.get_dependencies().unwrap(), vec![lib_dependency("1.0")]);
}

#[test]
fn repository_update_rewrites_every_field() {
    let mut editor = PomEditor::default();
    let first = Repository {
        id: Some("a".to_string()),
        name: Some("central".to_string()),
        url: "https://one".to_string(),
        layout: Some("legacy".to_string()),
        releases: Some(SubRepositoryRules { enabled: Some(false), ..Default::default() }),
        ..Default::default()
    };
    editor.add_or_update_repository(first).unwrap();
    let second = Repository {
        id: None,
        name: Some("central".to_string()),
        url: "https://two".to_string(),
        layout: Some("default".to_string()),
        update_policy: Some(UpdatePolicy::Daily),
        checksum_policy: Some(ChecksumPolicy::Warn),
        releases: None,
        snapshots: Some(SubRepositoryRules { enabled: Some(true), ..Default::default() }),
    };
    editor.add_or_update_repository(second.clone()).unwrap();
    assert_eq!(editor.get_repositories().unwrap(), vec![second]);
}

#[test]
fn duplicate_children_are_all_removed() {
    let xml = r#"<project>
        <repositories>
            <repository><id>x</id><name>n</name><url>u</url><id>y</id></repository>
        </repositories>
    </project>"#;
    let mut editor = PomEditor::load_from_str(xml).unwrap();
    let repository = Repository { name: Some("n".to_string()), url: "u".to_string(), ..Default::default() };
    editor.add_or_update_repository(repository.clone()).unwrap();
    assert_eq!(editor.get_repositories().unwrap(), vec![repository]);
}

#[test]
fn parent_update_rewrites_all_fields() {
    let mut editor = PomEditor::default();
    editor
        .set_parent(Some(Parent { group_id: Some("g".to_string()), artifact_id: Some("a".to_string()), ..Default::default() }))
        .unwrap();
    let next = Parent { group_id: Some("h".to_string()), version: Some("2".to_string()), ..Default::default() };
    editor.set_parent(Some(next.clone())).unwrap();
    assert_eq!(editor.get_parent().unwrap(), Some(next));
}

#[test]
fn load_errors() {
    assert!(matches!(PomEditor::load_from_str("<!-- nothing -->"), Err(XMLEditorError::MissingElement(_)) | Err(XMLEditorError::EditXMLError(_))));
}
