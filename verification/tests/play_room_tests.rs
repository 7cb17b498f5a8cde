use godot_properties_parser::{parse_property_file, parse_scene_file};

fn content() -> String {
    let mut s = String::new();
    s.push_str("[gd_scene load_steps=46 format=3 uid=\"uid://dji6tdg6ku1xb\"]\n\n");
    for i in 0..31 {
        s.push_str(&format!(
            "[ext_resource type=\"Script\" path=\"res://scripts/item_{}.gd\" id=\"{}_script\"]\n",
            i, i
        ));
    }
    s.push('\n');
    for i in 0..14 {
        s.push_str(&format!(
            "[sub_resource type=\"AtlasTexture\" id=\"AtlasTexture_{}\"]\n",
            i
        ));
        s.push_str("atlas = ExtResource(\"2_tex\")\n");
        s.push_str(&format!("region = [{}, 0, 32, 32]\n\n", i));
    }
    for i in 0..41 {
        s.push_str(&format!(
            "[node name=\"Node_{}\" type=\"Node2D\" parent=\".\"]\n",
            i
        ));
        s.push_str("z_index = 2\n");
        if i == 0 {
            s.push_str("groups = [\"alpha\",\n\"beta\"]\n");
        }
        s.push('\n');
    }
    for i in 0..12 {
        s.push_str(&format!(
            "[connection signal=\"pressed\" from=\"Node_{}\" to=\".\" method=\"on_pressed_{}\"]\n",
            i, i
        ));
    }
    s
}

#[test]
fn play_room_tests_test_parses_successfully() {
    let result = parse_property_file(&content());
    assert!(result.is_ok(), "Failed to parse: {:?}", result.err());
}

#[test]
fn play_room_tests_test_consumes_entire_file() {
    let (remaining, _) = parse_property_file(&content()).unwrap();
    assert_eq!(remaining, "", "Parser did not consume entire file");
}

#[test]
fn play_room_tests_test_section_count() {
    let (_, file) = parse_property_file(&content()).unwrap();
    assert_eq!(file.sections.len(), 99, "Expected 99 sections");
}

#[test]
fn play_room_tests_test_first_section_is_gd_scene() {
    let (_, file) = parse_property_file(&content()).unwrap();
    assert_eq!(file.sections[0].header_type, "gd_scene");
}

#[test]
fn play_room_tests_test_header_properties() {
    let (_, file) = parse_property_file(&content()).unwrap();
    let props = &file.sections[0].properties;
    for (key, expected) in [
        ("load_steps", "46"),
        ("format", "3"),
        ("uid", "uid://dji6tdg6ku1xb"),
    ] {
        let prop = props.iter().find(|p| p.key == key);
        assert!(prop.is_some(), "Should have '{}' property", key);
        assert_eq!(prop.unwrap().value, expected, "Property '{}' should be '{}'", key, expected);
    }
}

#[test]
fn play_room_tests_test_parses_as_scene_file() {
    let result = parse_scene_file(&content());
    assert!(result.is_ok(), "Failed to parse as scene file: {:?}", result.err());
}

#[test]
fn play_room_tests_test_scene_has_header() {
    let (_, scene) = parse_scene_file(&content()).unwrap();
    assert!(scene.header.is_some(), "Scene should have a header");
}

#[test]
fn play_room_tests_test_ext_resources_count() {
    let (_, scene) = parse_scene_file(&content()).unwrap();
    assert_eq!(scene.ext_resources.len(), 31, "Expected 31 external resources");
}

#[test]
fn play_room_tests_test_sub_resources_count() {
    let (_, scene) = parse_scene_file(&content()).unwrap();
    assert_eq!(scene.sub_resources.len(), 14, "Expected 14 sub-resources");
}

#[test]
fn play_room_tests_test_nodes_count() {
    let (_, scene) = parse_scene_file(&content()).unwrap();
    assert_eq!(scene.nodes.len(), 41, "Expected 41 nodes");
}

#[test]
fn play_room_tests_test_connections_count() {
    let (_, scene) = parse_scene_file(&content()).unwrap();
    assert_eq!(scene.connections.len(), 12, "Expected 12 connections");
}

#[test]
fn play_room_tests_test_editables_count() {
    let (_, scene) = parse_scene_file(&content()).unwrap();
    assert_eq!(scene.editables.len(), 0, "Expected 0 editables");
}

#[test]
fn play_room_tests_test_all_ext_resources_have_required_properties() {
    let (_, scene) = parse_scene_file(&content()).unwrap();
    for (i, ext_res) in scene.ext_resources.iter().enumerate() {
        let has_type = ext_res.properties.iter().any(|p| p.key == "type");
        let has_path = ext_res.properties.iter().any(|p| p.key == "path");
        assert!(has_type, "External resource {} should have 'type' property", i);
        assert!(has_path, "External resource {} should have 'path' property", i);
    }
}

#[test]
fn play_room_tests_test_ext_resource_paths_are_quoted() {
    let (_, scene) = parse_scene_file(&content()).unwrap();
    for ext_res in &scene.ext_resources {
        if let Some(path) = ext_res.properties.iter().find(|p| p.key == "path") {
            // Values are parsed without quotes
            assert!(!path.value.is_empty(), "Path should not be empty: {}", path.value);
        }
    }
}

#[test]
fn play_room_tests_test_all_sub_resources_have_required_properties() {
    let (_, scene) = parse_scene_file(&content()).unwrap();
    for (i, sub_res) in scene.sub_resources.iter().enumerate() {
        let has_type = sub_res.properties.iter().any(|p| p.key == "type");
        let has_id = sub_res.properties.iter().any(|p| p.key == "id");
        assert!(has_type, "Sub-resource {} should have 'type' property", i);
        assert!(has_id, "Sub-resource {} should have 'id' property", i);
    }
}

#[test]
fn play_room_tests_test_sub_resource_ids_are_unique() {
    let (_, scene) = parse_scene_file(&content()).unwrap();
    let mut ids = std::collections::HashSet::new();
    for sub_res in &scene.sub_resources {
        if let Some(id_prop) = sub_res.properties.iter().find(|p| p.key == "id") {
            assert!(
                ids.insert(id_prop.value.clone()),
                "Duplicate sub-resource id found: {}",
                id_prop.value
            );
        }
    }
}

#[test]
fn play_room_tests_test_all_nodes_have_name() {
    let (_, scene) = parse_scene_file(&content()).unwrap();
    for (i, node) in scene.nodes.iter().enumerate() {
        let has_name = node.properties.iter().any(|p| p.key == "name");
        assert!(has_name, "Node {} should have 'name' property", i);
    }
}

#[test]
fn play_room_tests_test_node_names_are_quoted() {
    let (_, scene) = parse_scene_file(&content()).unwrap();
    for node in &scene.nodes {
        if let Some(name) = node.properties.iter().find(|p| p.key == "name") {
            // Values are parsed without quotes
            assert!(!name.value.is_empty(), "Node name should not be empty: {}", name.value);
        }
    }
}

#[test]
fn play_room_tests_test_nodes_have_type_or_instance() {
    let (_, scene) = parse_scene_file(&content()).unwrap();
    for (i, node) in scene.nodes.iter().enumerate() {
        let has_type = node.properties.iter().any(|p| p.key == "type");
        let has_instance = node.properties.iter().any(|p| p.key == "instance");
        assert!(
            has_type || has_instance,
            "Node {} should have either 'type' or 'instance' property",
            i
        );
    }
}

#[test]
fn play_room_tests_test_all_connections_have_required_properties() {
    let (_, scene) = parse_scene_file(&content()).unwrap();
    for (i, conn) in scene.connections.iter().enumerate() {
        for key in ["signal", "from", "to", "method"] {
            let has = conn.properties.iter().any(|p| p.key == key);
            assert!(has, "Connection {} should have '{}' property", i, key);
        }
    }
}

#[test]
fn play_room_tests_test_all_sections_have_valid_header_types() {
    let (_, file) = parse_property_file(&content()).unwrap();
    for section in &file.sections {
        assert!(!section.header_type.is_empty(), "Header type should not be empty");
        assert!(
            section.header_type.chars().all(|c| c.is_alphanumeric() || c == '_'),
            "Header type '{}' contains invalid characters",
            section.header_type
        );
    }
}

#[test]
fn play_room_tests_test_categorization_is_complete() {
    let (_, scene) = parse_scene_file(&content()).unwrap();
    let categorized_count = (if scene.header.is_some() { 1 } else { 0 })
        + scene.ext_resources.len()
        + scene.sub_resources.len()
        + scene.nodes.len()
        + scene.connections.len()
        + scene.editables.len();
    assert_eq!(
        categorized_count,
        scene.all_sections.len(),
        "All sections should be categorized"
    );
}
