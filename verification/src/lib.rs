//! Parser for bracket-sectioned `key=value` configuration text, as used by
//! Godot's scene (`.tscn`), resource (`.tres`) and project (`.godot`) files.
//!
//! The input is one in-memory text buffer. It is parsed into an ordered tree:
//! a `PropertyFile` holds preamble properties and sections; the scene and
//! project views categorize those sections by header type. Values are kept as
//! raw surface text and are never decoded; a quoted value is stored as the
//! text strictly between its quotes, with escape sequences left as written.

pub mod parsers;
pub mod text;

pub use parsers::parser_header::parse_header_type_and_consume_enclosure;
pub use parsers::parser_project_file::{parse_project_file, ProjectFile};
pub use parsers::parser_property::{properties0, UntypedProperty};
pub use parsers::parser_property_file::{parse_property_file, PropertyFile, Section};
pub use parsers::parser_scene_file::{parse_scene_file, SceneFile};
pub use parsers::scan::{ParseError, ParseErrorKind};
