pub mod laws;
pub mod parser_header;
pub mod parser_project_file;
pub mod parser_property;
pub mod parser_property_file;
pub mod parser_scene_file;
pub mod scan;
