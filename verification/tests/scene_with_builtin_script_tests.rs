use godot_properties_parser::{parse_property_file, parse_scene_file};

fn script_source() -> String {
    let mut s = String::new();
    s.push_str("extends CanvasLayer\n\n");
    s.push_str("@onready var layout_wrapper : Control = $LayoutWrapper\n");
    s.push_str("@onready var tooltip_container : Control = $TooltipContainer\n");
    s.push_str("@onready var main_tooltip : Control = $MainTooltip\n");
    s.push_str("@export var highlighted_keys : Array[TooltipHighlightedKey] = []\n");
    s.push_str("@export var explanations_delay : float = 1.25\n");
    s.push_str("var current_tooltip_element: Control = null\n");
    s.push_str("var explanations : Array[Node] = []\n\n");
    s.push_str("func _ready():\n");
    s.push_str("\tlayout_wrapper.scale = Vector2(0, 1)\n");
    s.push_str("\tif OS.get_name() == \\\"Android\\\":\n");
    s.push_str("\t\texplanations_delay = 2.0\n\n");
    s.push_str("func conceal():\n");
    s.push_str("\tTweenHelper.tween(layout_wrapper)\n\n");
    s.push_str(
        "func describe(origin_node: Control, content: String, show_extra_explanation: bool = false):\n",
    );
    s.push_str("\tmain_tooltip.text = BBCodeHelper.build(content)\n\n");
    s.push_str("func apply_bbcode_for_common_keys(content: String, show_explanations: bool):\n");
    s.push_str("\treturn BBCodeHelper.build(content)\n\n");
    s.push_str("func add_explanation(node):\n");
    s.push_str("\texplanations.append(node)\n\n");
    s.push_str("func __cleanup():\n");
    s.push_str("\texplanations.clear()\n");
    for i in 0..100 {
        s.push_str(&format!("\tvar filler_{} = {}\n", i, i));
    }
    s
}

fn content() -> String {
    let mut s = String::new();
    s.push_str("[gd_scene load_steps=3 format=3 uid=\"uid://dbu7cb0h10jdt\"]\n\n");
    s.push_str("[ext_resource type=\"Texture2D\" path=\"res://icon.png\" id=\"1_icon\"]\n\n");
    s.push_str(
        "[sub_resource type=\"GDScript\" id=\"GDScript_tooltip\" resource_name=\"TooltipOcerlay\"]\n",
    );
    s.push_str("script/source = \"");
    s.push_str(&script_source());
    s.push_str("\"\n\n");
    s.push_str("[node name=\"TooltipOverlay\" type=\"CanvasLayer\"]\n\n");
    s.push_str("[node name=\"LayoutWrapper\" type=\"Control\" parent=\".\"]\n\n");
    s.push_str("[node name=\"TooltipContainer\" type=\"Control\" parent=\"LayoutWrapper\"]\n\n");
    s.push_str("[node name=\"MainTooltip\" type=\"Label\" parent=\"TooltipContainer\"]\n\n");
    s.push_str("[node name=\"Icon\" type=\"TextureRect\" parent=\"LayoutWrapper\"]\n");
    s.push_str("texture = ExtResource(\"1_icon\")\n");
    s
}

#[test]
fn scene_with_builtin_script_tests_test_parses_successfully() {
    let result = parse_property_file(&content());
    assert!(result.is_ok(), "Failed to parse: {:?}", result.err());
}

#[test]
fn scene_with_builtin_script_tests_test_consumes_entire_file() {
    let (remaining, _) = parse_property_file(&content()).unwrap();
    assert_eq!(remaining, "", "Parser did not consume entire file");
}

#[test]
fn scene_with_builtin_script_tests_test_parses_as_scene_file() {
    let result = parse_scene_file(&content());
    assert!(result.is_ok(), "Failed to parse as scene file: {:?}", result.err());
}

#[test]
fn scene_with_builtin_script_tests_test_section_count() {
    let (_, file) = parse_property_file(&content()).unwrap();
    assert_eq!(file.sections.len(), 8, "Expected 8 sections");
}

#[test]
fn scene_with_builtin_script_tests_test_scene_has_header() {
    let (_, scene) = parse_scene_file(&content()).unwrap();
    assert!(scene.header.is_some(), "Scene should have a header");
}

#[test]
fn scene_with_builtin_script_tests_test_first_section_is_gd_scene() {
    let (_, file) = parse_property_file(&content()).unwrap();
    assert_eq!(file.sections[0].header_type, "gd_scene");
}

#[test]
fn scene_with_builtin_script_tests_test_header_properties() {
    let (_, file) = parse_property_file(&content()).unwrap();
    let props = &file.sections[0].properties;
    for (key, expected) in [
        ("load_steps", "3"),
        ("format", "3"),
        ("uid", "uid://dbu7cb0h10jdt"),
    ] {
        let prop = props.iter().find(|p| p.key == key);
        assert!(prop.is_some(), "Should have '{}' property", key);
        assert_eq!(prop.unwrap().value, expected, "Property '{}' should be '{}'", key, expected);
    }
}

#[test]
fn scene_with_builtin_script_tests_test_ext_resources_count() {
    let (_, scene) = parse_scene_file(&content()).unwrap();
    assert_eq!(scene.ext_resources.len(), 1, "Expected 1 external resource");
}

#[test]
fn scene_with_builtin_script_tests_test_sub_resources_count() {
    let (_, scene) = parse_scene_file(&content()).unwrap();
    assert_eq!(scene.sub_resources.len(), 1, "Expected 1 sub-resource");
}

#[test]
fn scene_with_builtin_script_tests_test_nodes_count() {
    let (_, scene) = parse_scene_file(&content()).unwrap();
    assert_eq!(scene.nodes.len(), 5, "Expected 5 nodes");
}

#[test]
fn scene_with_builtin_script_tests_test_connections_count() {
    let (_, scene) = parse_scene_file(&content()).unwrap();
    assert_eq!(scene.connections.len(), 0, "Expected 0 connections");
}

#[test]
fn scene_with_builtin_script_tests_test_editables_count() {
    let (_, scene) = parse_scene_file(&content()).unwrap();
    assert_eq!(scene.editables.len(), 0, "Expected 0 editables");
}

#[test]
fn scene_with_builtin_script_tests_test_categorization_is_complete() {
    let (_, scene) = parse_scene_file(&content()).unwrap();
    let categorized_count = (if scene.header.is_some() { 1 } else { 0 })
        + scene.ext_resources.len()
        + scene.sub_resources.len()
        + scene.nodes.len()
        + scene.connections.len()
        + scene.editables.len();
    assert_eq!(
        categorized_count,
        scene.all_sections.len(),
        "All sections should be categorized"
    );
}

#[test]
fn scene_with_builtin_script_tests_test_all_sections_have_valid_header_types() {
    let (_, file) = parse_property_file(&content()).unwrap();
    for section in &file.sections {
        assert!(!section.header_type.is_empty(), "Header type should not be empty");
        assert!(
            section.header_type.chars().all(|c| c.is_alphanumeric() || c == '_'),
            "Header type '{}' contains invalid characters",
            section.header_type
        );
    }
}

#[test]
fn scene_with_builtin_script_tests_test_all_ext_resources_have_required_properties() {
    let (_, scene) = parse_scene_file(&content()).unwrap();
    for (i, ext_res) in scene.ext_resources.iter().enumerate() {
        let has_type = ext_res.properties.iter().any(|p| p.key == "type");
        let has_path = ext_res.properties.iter().any(|p| p.key == "path");
        assert!(has_type, "External resource {} should have 'type' property", i);
        assert!(has_path, "External resource {} should have 'path' property", i);
    }
}

#[test]
fn scene_with_builtin_script_tests_test_all_sub_resources_have_required_properties() {
    let (_, scene) = parse_scene_file(&content()).unwrap();
    for (i, sub_res) in scene.sub_resources.iter().enumerate() {
        let has_type = sub_res.properties.iter().any(|p| p.key == "type");
        let has_id = sub_res.properties.iter().any(|p| p.key == "id");
        assert!(has_type, "Sub-resource {} should have 'type' property", i);
        assert!(has_id, "Sub-resource {} should have 'id' property", i);
    }
}

#[test]
fn scene_with_builtin_script_tests_test_all_nodes_have_name() {
    let (_, scene) = parse_scene_file(&content()).unwrap();
    for (i, node) in scene.nodes.iter().enumerate() {
        let has_name = node.properties.iter().any(|p| p.key == "name");
        assert!(has_name, "Node {} should have 'name' property", i);
    }
}

#[test]
fn scene_with_builtin_script_tests_test_ext_resource_paths_are_quoted() {
    let (_, scene) = parse_scene_file(&content()).unwrap();
    for ext_res in &scene.ext_resources {
        if let Some(path) = ext_res.properties.iter().find(|p| p.key == "path") {
            // Values are parsed without quotes
            assert!(!path.value.is_empty(), "Path should not be empty: {}", path.value);
        }
    }
}

#[test]
fn scene_with_builtin_script_tests_test_node_names_are_quoted() {
    let (_, scene) = parse_scene_file(&content()).unwrap();
    for node in &scene.nodes {
        if let Some(name) = node.properties.iter().find(|p| p.key == "name") {
            // Values are parsed without quotes
            assert!(!name.value.is_empty(), "Node name should not be empty: {}", name.value);
        }
    }
}

#[test]
fn scene_with_builtin_script_tests_test_nodes_have_type_or_instance() {
    let (_, scene) = parse_scene_file(&content()).unwrap();
    for (i, node) in scene.nodes.iter().enumerate() {
        let has_type = node.properties.iter().any(|p| p.key == "type");
        let has_instance = node.properties.iter().any(|p| p.key == "instance");
        assert!(
            has_type || has_instance,
            "Node {} should have either 'type' or 'instance' property",
            i
        );
    }
}

#[test]
fn scene_with_builtin_script_tests_test_sub_resource_ids_are_unique() {
    let (_, scene) = parse_scene_file(&content()).unwrap();
    let mut ids = std::collections::HashSet::new();
    for sub_res in &scene.sub_resources {
        if let Some(id_prop) = sub_res.properties.iter().find(|p| p.key == "id") {
            assert!(
                ids.insert(id_prop.value.clone()),
                "Duplicate sub-resource id found: {}",
                id_prop.value
            );
        }
    }
}

#[test]
fn test_sub_resource_has_gdscript_type() {
    let (_, scene) = parse_scene_file(&content()).unwrap();

    assert_eq!(scene.sub_resources.len(), 1, "Should have 1 sub_resource");

    let sub_resource = &scene.sub_resources[0];
    let resource_name = sub_resource
        .properties
        .iter()
        .find(|p| p.key == "resource_name")
        .map(|p| p.value.as_str());

    // Quoted values are stored without their surrounding quotes
    assert_eq!(
        resource_name,
        Some("TooltipOcerlay"),
        "Sub resource should have resource_name property"
    );
}

#[test]
fn test_builtin_script_has_script_source_property() {
    let (_, scene) = parse_scene_file(&content()).unwrap();

    let sub_resource = &scene.sub_resources[0];

    assert_eq!(sub_resource.header_type, "sub_resource");

    let has_type = sub_resource.properties.iter().any(|p| p.key == "type");
    let has_id = sub_resource.properties.iter().any(|p| p.key == "id");
    let has_resource_name = sub_resource
        .properties
        .iter()
        .any(|p| p.key == "resource_name");

    assert!(has_type, "Sub resource should have 'type' property");
    assert!(has_id, "Sub resource should have 'id' property");
    assert!(
        has_resource_name,
        "Sub resource should have 'resource_name' property"
    );

    let script_source = sub_resource
        .properties
        .iter()
        .find(|p| p.key == "script/source");

    assert!(
        script_source.is_some(),
        "Builtin script sub_resource should have 'script/source' property"
    );

    let script_value = &script_source.unwrap().value;

    // The surrounding quotes are stripped; the script text itself remains
    assert!(
        !script_value.is_empty(),
        "script/source value should hold the quoted string's text"
    );

    assert!(
        script_value.contains("extends CanvasLayer"),
        "script/source should contain the GDScript code"
    );

    assert!(
        script_value.contains("func _ready()"),
        "script/source should contain function definitions"
    );

    assert!(
        sub_resource.properties.len() < 10,
        "Sub resource should have a reasonable number of properties (not split script lines)"
    );
}

#[test]
fn test_builtin_script_contains_expected_code() {
    let (_, scene) = parse_scene_file(&content()).unwrap();
    let sub_resource = &scene.sub_resources[0];

    let script_source = sub_resource
        .properties
        .iter()
        .find(|p| p.key == "script/source")
        .expect("Sub resource should have 'script/source' property");

    let script_value = &script_source.value;

    assert!(
        script_value.contains("extends CanvasLayer"),
        "Script should extend CanvasLayer"
    );

    assert!(
        script_value.contains("@onready var layout_wrapper"),
        "Script should have @onready var layout_wrapper"
    );
    assert!(
        script_value.contains("@onready var tooltip_container"),
        "Script should have @onready var tooltip_container"
    );
    assert!(
        script_value.contains("@onready var main_tooltip"),
        "Script should have @onready var main_tooltip"
    );

    assert!(
        script_value.contains("@export var highlighted_keys : Array[TooltipHighlightedKey]"),
        "Script should have @export var highlighted_keys"
    );
    assert!(
        script_value.contains("@export var explanations_delay : float = 1.25"),
        "Script should have @export var explanations_delay"
    );

    assert!(
        script_value.contains("var current_tooltip_element: Control = null"),
        "Script should have var current_tooltip_element"
    );
    assert!(
        script_value.contains("var explanations : Array[Node] = []"),
        "Script should have var explanations"
    );

    assert!(
        script_value.contains("func _ready()"),
        "Script should have _ready() function"
    );
    assert!(
        script_value.contains("func conceal()"),
        "Script should have conceal() function"
    );
    assert!(
        script_value.contains("func describe(origin_node: Control, content: String, show_extra_explanation: bool = false)"),
        "Script should have describe() function with correct signature"
    );
    assert!(
        script_value.contains(
            "func apply_bbcode_for_common_keys(content: String, show_explanations: bool)"
        ),
        "Script should have apply_bbcode_for_common_keys() function"
    );
    assert!(
        script_value.contains("func add_explanation"),
        "Script should have add_explanation() function"
    );
    assert!(
        script_value.contains("func __cleanup()"),
        "Script should have __cleanup() function"
    );

    assert!(
        script_value.contains("layout_wrapper.scale = Vector2(0, 1)"),
        "Script should initialize layout_wrapper scale"
    );
    assert!(
        script_value.contains("if OS.get_name() == \\\"Android\\\""),
        "Script should have Android-specific logic"
    );
    assert!(
        script_value.contains("TweenHelper.tween"),
        "Script should use TweenHelper"
    );
    assert!(
        script_value.contains("BBCodeHelper.build"),
        "Script should use BBCodeHelper"
    );

    let actual_newline_count = script_value.matches('\n').count();
    assert!(
        actual_newline_count > 100,
        "Script should contain over 100 lines of code, found {} actual newlines",
        actual_newline_count
    );
}
