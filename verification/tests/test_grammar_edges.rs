use godot_properties_parser::parse_scene_file;
use godot_properties_parser::{
    parse_header_type_and_consume_enclosure, parse_property_file, properties0, ParseErrorKind,
};

#[test]
fn test_escaped_quote_does_not_terminate_string() {
    // "a\"b" parses as one unbroken span; the escape stays as written
    let input = "x=\"a\\\"b\"";
    let (remaining, props) = properties0(input).unwrap();
    assert_eq!(remaining, "");
    assert_eq!(props.len(), 1);
    assert_eq!(props[0].value, "a\\\"b");
}

#[test]
fn test_backslash_before_terminator_is_consumed_as_escape() {
    // "a\\" ends at the quote after the escaped backslash
    let input = "x=\"a\\\\\" y=2";
    let (remaining, props) = properties0(input).unwrap();
    assert_eq!(remaining, "");
    assert_eq!(props.len(), 2);
    assert_eq!(props[0].value, "a\\\\");
    assert_eq!(props[1].key, "y");
}

#[test]
fn test_multiline_value_keeps_embedded_newline() {
    let input = "value=2300 something=[\"i love\",\n\"cheese\"]";
    let (remaining, props) = properties0(input).unwrap();
    assert_eq!(remaining, "");
    assert_eq!(props.len(), 2);
    assert_eq!(props[1].value, "[\"i love\",\n\"cheese\"]");
}

#[test]
fn test_properties0_empty_input_consumes_none() {
    let (remaining, props) = properties0("").unwrap();
    assert_eq!(remaining, "");
    assert_eq!(props.len(), 0);

    let (remaining, props) = properties0("   \n\t ").unwrap();
    assert_eq!(remaining, "   \n\t ");
    assert_eq!(props.len(), 0);
}

#[test]
fn test_end_to_end_scene() {
    let input ="[gd_scene load_steps=46 format=3 uid=\"uid://test\"]\n\n[ext_resource type=\"Script\" path=\"res://test.gd\"]\n[node name=\"Node\" type=\"Node2D\"]\n";
    let (remaining, scene) = parse_scene_file(input).unwrap();
    assert_eq!(remaining, "");
    assert_eq!(scene.header.as_ref().unwrap().header_type, "gd_scene");
    assert_eq!(scene.ext_resources.len(), 1);
    assert_eq!(scene.nodes.len(), 1);
    assert_eq!(scene.connections.len(), 0);
    assert_eq!(scene.all_sections.len(), 3);
}

#[test]
fn test_unterminated_header_enclosure_fails() {
    let input = "[gdscene something=[1, 2, 3]";
    let result = parse_property_file(input);
    assert!(result.is_err(), "Unterminated header should fail the parse");
    assert_eq!(result.unwrap_err().kind, ParseErrorKind::UnterminatedEnclosure);
}

#[test]
fn test_header_parser_consumes_enclosure() {
    let (remaining, header_type) =
        parse_header_type_and_consume_enclosure("[gdscene something=[1, 2, 3]] tail").unwrap();
    assert_eq!(header_type, "gdscene");
    assert_eq!(remaining, " tail");
}

#[test]
fn test_header_parser_quoted_bracket() {
    // a bracket inside a quoted value is not the header's close
    let (remaining, header_type) =
        parse_header_type_and_consume_enclosure("[node name=\"a]b\"]rest").unwrap();
    assert_eq!(header_type, "node");
    assert_eq!(remaining, "rest");
}

#[test]
fn test_header_parser_error_kinds() {
    let err = parse_header_type_and_consume_enclosure("").unwrap_err();
    assert_eq!(err.kind, ParseErrorKind::UnexpectedEnd);

    let err = parse_header_type_and_consume_enclosure("x[a]").unwrap_err();
    assert_eq!(err.kind, ParseErrorKind::UnexpectedChar);

    let err = parse_header_type_and_consume_enclosure("[=a]").unwrap_err();
    assert_eq!(err.kind, ParseErrorKind::UnexpectedChar);

    let err = parse_header_type_and_consume_enclosure("[abc never closed").unwrap_err();
    assert_eq!(err.kind, ParseErrorKind::UnterminatedEnclosure);
}

#[test]
fn test_duplicate_keys_preserved_in_order() {
    let input = "k=1 k=2 k=3";
    let (remaining, props) = properties0(input).unwrap();
    assert_eq!(remaining, "");
    assert_eq!(props.len(), 3);
    assert_eq!(props[0].value, "1");
    assert_eq!(props[1].value, "2");
    assert_eq!(props[2].value, "3");
    // a lookup by key conventionally takes the first match
    let first = props.iter().find(|p| p.key == "k").unwrap();
    assert_eq!(first.value, "1");
}

#[test]
fn test_unterminated_quoted_value_falls_back_to_bare_token() {
    let input = "x=\"never closed";
    let (remaining, props) = properties0(input).unwrap();
    assert_eq!(remaining, " closed");
    assert_eq!(props.len(), 1);
    assert_eq!(props[0].value, "\"never");
}

#[test]
fn test_dict_value_kept_as_raw_text() {
    let input = "d={\"a\": [1, 2], \"b\": {\"c\": 3}} tail=1";
    let (remaining, props) = properties0(input).unwrap();
    assert_eq!(remaining, "");
    assert_eq!(props.len(), 2);
    assert_eq!(props[0].value, "{\"a\": [1, 2], \"b\": {\"c\": 3}}");
}

#[test]
fn test_body_line_that_is_no_property_list_ends_section() {
    let input = "[node name=\"a\"]\nx=1\nthis is not a property line\n";
    let (remaining, file) = parse_property_file(input).unwrap();
    assert_eq!(file.sections.len(), 1);
    assert_eq!(file.sections[0].properties.len(), 2);
    assert!(remaining.contains("this is not a property line"));
}

#[test]
fn test_comment_lines_are_skipped() {
    let input = "; leading comment\n[node name=\"a\"]\n; body comment\nx=1\n";
    let (remaining, file) = parse_property_file(input).unwrap();
    assert_eq!(remaining, "");
    assert_eq!(file.sections.len(), 1);
    assert_eq!(file.sections[0].properties.len(), 2);
}

#[test]
fn test_unterminated_multiline_literal_degrades_gracefully() {
    // an array that never closes consumes to end of input without hanging
    let input = "[node name=\"a\"]\nx=[1,\n2,\n";
    let result = parse_property_file(input);
    assert!(result.is_ok());
}

#[test]
fn test_header_with_empty_property_list() {
    let input = "[editable]\n";
    let (remaining, file) = parse_property_file(input).unwrap();
    assert_eq!(remaining, "");
    assert_eq!(file.sections.len(), 1);
    assert_eq!(file.sections[0].header_type, "editable");
    assert_eq!(file.sections[0].properties.len(), 0);
}
