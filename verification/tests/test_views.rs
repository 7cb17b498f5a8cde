use godot_properties_parser::parsers::parser_project_file::ProjectFile;
use godot_properties_parser::parsers::parser_scene_file::SceneFile;
use godot_properties_parser::{parse_project_file, parse_scene_file, PropertyFile, Section, UntypedProperty};

fn section(header_type: &str, key: &str, value: &str) -> Section {
    Section {
        header_type: header_type.to_string(),
        properties: vec![UntypedProperty {
            key: key.to_string(),
            value: value.to_string(),
        }],
    }
}

#[test]
fn test_scene_new_is_empty() {
    let scene = SceneFile::new();
    assert!(scene.header.is_none());
    assert_eq!(scene.ext_resources.len(), 0);
    assert_eq!(scene.sub_resources.len(), 0);
    assert_eq!(scene.nodes.len(), 0);
    assert_eq!(scene.connections.len(), 0);
    assert_eq!(scene.editables.len(), 0);
    assert_eq!(scene.all_sections.len(), 0);
}

#[test]
fn test_project_new_is_empty() {
    let project = ProjectFile::new();
    assert_eq!(project.preamble_properties.len(), 0);
    assert!(project.application.is_none());
    assert!(project.rendering.is_none());
    assert_eq!(project.all_sections.len(), 0);
}

#[test]
fn test_scene_header_last_occurrence_wins() {
    let property_file = PropertyFile {
        preamble_properties: vec![],
        sections: vec![section("gd_scene", "format", "2"), section("gd_scene", "format", "3")],
    };
    let scene = SceneFile::from_property_file(property_file);
    let header = scene.header.expect("header should be present");
    assert_eq!(header.properties[0].value, "3");
    assert_eq!(scene.all_sections.len(), 2);
}

#[test]
fn test_project_single_slot_last_occurrence_wins() {
    let input = "[application]\nconfig/name=\"first\"\n\n[application]\nconfig/name=\"second\"\n";
    let (remaining, project) = parse_project_file(input).unwrap();
    assert_eq!(remaining, "");
    let application = project.application.expect("application should be present");
    assert_eq!(application.properties[0].value, "second");
    assert_eq!(project.all_sections.len(), 2, "both occurrences stay in all_sections");
}

#[test]
fn test_project_from_property_file_carries_preamble() {
    let property_file = PropertyFile {
        preamble_properties: vec![UntypedProperty {
            key: "config_version".to_string(),
            value: "5".to_string(),
        }],
        sections: vec![section("application", "config/name", "x"), section("oddball", "k", "v")],
    };
    let project = ProjectFile::from_property_file(property_file);
    assert_eq!(project.preamble_properties.len(), 1);
    assert_eq!(project.preamble_properties[0].key, "config_version");
    assert!(project.application.is_some());
    assert_eq!(project.all_sections.len(), 2);
}

#[test]
fn test_unrecognized_section_only_in_all_sections() {
    let input = "[gd_scene format=3]\n\n[weird_type k=1]\n[node name=\"n\" type=\"Node2D\"]\n";
    let (remaining, scene) = parse_scene_file(input).unwrap();
    assert_eq!(remaining, "");
    assert_eq!(scene.all_sections.len(), 3);
    assert_eq!(scene.nodes.len(), 1);
    assert_eq!(scene.ext_resources.len(), 0);
    assert_eq!(scene.sub_resources.len(), 0);
    assert_eq!(scene.connections.len(), 0);
    assert_eq!(scene.editables.len(), 0);
    // the unrecognized section appears only in all_sections
    let weird_in_all = scene.all_sections.iter().any(|s| s.header_type == "weird_type");
    assert!(weird_in_all);
    assert!(scene.header.is_some());
}

#[test]
fn test_views_are_independent_values() {
    let input = "[gd_scene format=3]\n";
    let (_, scene_a) = parse_scene_file(input).unwrap();
    let (_, scene_b) = parse_scene_file(input).unwrap();
    assert_eq!(scene_a, scene_b);
}
