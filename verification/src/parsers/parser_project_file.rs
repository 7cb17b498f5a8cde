//! The project view: a categorized projection of a parsed file for
//! project-shaped configuration. Each well-known top-level category is a
//! single optional slot; when a slot's type recurs, the later occurrence
//! overwrites the earlier one, while `all_sections` keeps every section in
//! original order and `preamble_properties` carries the properties standing
//! before the first section.

use vstd::prelude::*;

use crate::parsers::parser_property::{SpecProperty, UntypedProperty};
use crate::parsers::parser_property_file::{
    clone_section, parse_property_file, property_file_spec, section_has_type, FileOutcome,
    PropertyFile, Section, SpecPropertyFile, SpecSection,
};
use crate::parsers::scan::{ParseError, ParseErrorKind};

verus! {

broadcast use vstd::string::group_string_axioms;

/// A project-shaped view of a parsed file.
#[derive(Debug, PartialEq, Clone)]
pub struct ProjectFile {
    /// Properties that appear before the first section.
    pub preamble_properties: Vec<UntypedProperty>,
    /// Application configuration section.
    pub application: Option<Section>,
    /// Audio configuration section.
    pub audio: Option<Section>,
    /// Autoload (singleton nodes) section.
    pub autoload: Option<Section>,
    /// Debug settings section.
    pub debug: Option<Section>,
    /// Display settings section.
    pub display: Option<Section>,
    /// Editor plugins section.
    pub editor_plugins: Option<Section>,
    /// Input mappings section.
    pub input: Option<Section>,
    /// Input devices settings section.
    pub input_devices: Option<Section>,
    /// Internationalization settings section.
    pub internationalization: Option<Section>,
    /// Layer names section.
    pub layer_names: Option<Section>,
    /// Physics settings section.
    pub physics: Option<Section>,
    /// Rendering settings section.
    pub rendering: Option<Section>,
    /// Every section in original order, categorized or not.
    pub all_sections: Vec<Section>,
}

/// The mathematical content of a [`ProjectFile`].
#[verifier::ext_equal]
pub ghost struct SpecProjectFile {
    pub preamble_properties: Seq<SpecProperty>,
    pub application: Option<SpecSection>,
    pub audio: Option<SpecSection>,
    pub autoload: Option<SpecSection>,
    pub debug: Option<SpecSection>,
    pub display: Option<SpecSection>,
    pub editor_plugins: Option<SpecSection>,
    pub input: Option<SpecSection>,
    pub input_devices: Option<SpecSection>,
    pub internationalization: Option<SpecSection>,
    pub layer_names: Option<SpecSection>,
    pub physics: Option<SpecSection>,
    pub rendering: Option<SpecSection>,
    pub all_sections: Seq<SpecSection>,
}

pub open spec fn view_slot(slot: Option<Section>) -> Option<SpecSection> {
    match slot {
        Some(sec) => Some(sec@),
        None => None,
    }
}

impl View for ProjectFile {
    type V = SpecProjectFile;

    open spec fn view(&self) -> SpecProjectFile {
        SpecProjectFile {
            preamble_properties: self.preamble_properties.deep_view(),
            application: view_slot(self.application),
            audio: view_slot(self.audio),
            autoload: view_slot(self.autoload),
            debug: view_slot(self.debug),
            display: view_slot(self.display),
            editor_plugins: view_slot(self.editor_plugins),
            input: view_slot(self.input),
            input_devices: view_slot(self.input_devices),
            internationalization: view_slot(self.internationalization),
            layer_names: view_slot(self.layer_names),
            physics: view_slot(self.physics),
            rendering: view_slot(self.rendering),
            all_sections: self.all_sections.deep_view(),
        }
    }
}

impl DeepView for ProjectFile {
    type V = SpecProjectFile;

    open spec fn deep_view(&self) -> SpecProjectFile {
        self.view()
    }
}

/// The empty project view.
pub open spec fn project_empty() -> SpecProjectFile {
    SpecProjectFile {
        preamble_properties: Seq::empty(),
        application: None,
        audio: None,
        autoload: None,
        debug: None,
        display: None,
        editor_plugins: None,
        input: None,
        input_devices: None,
        internationalization: None,
        layer_names: None,
        physics: None,
        rendering: None,
        all_sections: Seq::empty(),
    }
}

/// Categorize one section into the project view: it always joins
/// `all_sections`; a recognized type additionally fills its single slot,
/// a later occurrence overwriting an earlier one.
pub open spec fn project_add(f: SpecProjectFile, sec: SpecSection) -> SpecProjectFile {
    let f2 = SpecProjectFile { all_sections: f.all_sections.push(sec), ..f };
    if sec.header_type == "application"@ {
        SpecProjectFile { application: Some(sec), ..f2 }
    } else if sec.header_type == "audio"@ {
        SpecProjectFile { audio: Some(sec), ..f2 }
    } else if sec.header_type == "autoload"@ {
        SpecProjectFile { autoload: Some(sec), ..f2 }
    } else if sec.header_type == "debug"@ {
        SpecProjectFile { debug: Some(sec), ..f2 }
    } else if sec.header_type == "display"@ {
        SpecProjectFile { display: Some(sec), ..f2 }
    } else if sec.header_type == "editor_plugins"@ {
        SpecProjectFile { editor_plugins: Some(sec), ..f2 }
    } else if sec.header_type == "input"@ {
        SpecProjectFile { input: Some(sec), ..f2 }
    } else if sec.header_type == "input_devices"@ {
        SpecProjectFile { input_devices: Some(sec), ..f2 }
    } else if sec.header_type == "internationalization"@ {
        SpecProjectFile { internationalization: Some(sec), ..f2 }
    } else if sec.header_type == "layer_names"@ {
        SpecProjectFile { layer_names: Some(sec), ..f2 }
    } else if sec.header_type == "physics"@ {
        SpecProjectFile { physics: Some(sec), ..f2 }
    } else if sec.header_type == "rendering"@ {
        SpecProjectFile { rendering: Some(sec), ..f2 }
    } else {
        f2
    }
}

/// The project view of a whole run of sections, in order, with an empty
/// preamble.
pub open spec fn project_sections(sections: Seq<SpecSection>) -> SpecProjectFile
    decreases sections.len(),
{
    if sections.len() == 0 {
        project_empty()
    } else {
        project_add(project_sections(sections.drop_last()), sections.last())
    }
}

/// The project view of a whole parsed file: the categorized sections plus
/// the file's preamble properties.
pub open spec fn project_of(file: SpecPropertyFile) -> SpecProjectFile {
    SpecProjectFile {
        preamble_properties: file.preamble_properties,
        ..project_sections(file.sections)
    }
}

impl ProjectFile {
    /// Create a new empty project view.
    pub fn new() -> (r: Self)
        ensures
            r@ == project_empty(),
    {
        let r = ProjectFile {
            preamble_properties: Vec::new(),
            application: None,
            audio: None,
            autoload: None,
            debug: None,
            display: None,
            editor_plugins: None,
            input: None,
            input_devices: None,
            internationalization: None,
            layer_names: None,
            physics: None,
            rendering: None,
            all_sections: Vec::new(),
        };
        proof {
            assert(r@ =~= project_empty());
        }
        r
    }

    /// Build the project view of a parsed file by categorizing its sections
    /// in order and carrying its preamble properties over.
    pub fn from_property_file(property_file: PropertyFile) -> (r: Self)
        ensures
            r@ == project_of(property_file@),
    {
        let mut project_file = ProjectFile::new();
        project_file.preamble_properties = property_file.preamble_properties;
        let sections = property_file.sections;
        let ghost all = sections.deep_view();
        let ghost preamble = project_file.preamble_properties.deep_view();
        let mut i: usize = 0;
        while i < sections.len()
            invariant
                i <= sections.len(),
                all == sections.deep_view(),
                project_file@ == (SpecProjectFile {
                    preamble_properties: preamble,
                    ..project_sections(all.subrange(0, i as int))
                }),
            decreases sections.len() - i,
        {
            let ghost before = project_file@;
            let ghost prefix = all.subrange(0, i as int);
            let sec = clone_section(&sections[i]);
            project_file.all_sections.push(clone_section(&sections[i]));
            if section_has_type(&sec, "application") {
                project_file.application = Some(sec);
            } else if section_has_type(&sec, "audio") {
                project_file.audio = Some(sec);
            } else if section_has_type(&sec, "autoload") {
                project_file.autoload = Some(sec);
            } else if section_has_type(&sec, "debug") {
                project_file.debug = Some(sec);
            } else if section_has_type(&sec, "display") {
                project_file.display = Some(sec);
            } else if section_has_type(&sec, "editor_plugins") {
                project_file.editor_plugins = Some(sec);
            } else if section_has_type(&sec, "input") {
                project_file.input = Some(sec);
            } else if section_has_type(&sec, "input_devices") {
                project_file.input_devices = Some(sec);
            } else if section_has_type(&sec, "internationalization") {
                project_file.internationalization = Some(sec);
            } else if section_has_type(&sec, "layer_names") {
                project_file.layer_names = Some(sec);
            } else if section_has_type(&sec, "physics") {
                project_file.physics = Some(sec);
            } else if section_has_type(&sec, "rendering") {
                project_file.rendering = Some(sec);
            }
            proof {
                let next_prefix = all.subrange(0, i + 1);
                assert(next_prefix.drop_last() =~= prefix);
                assert(next_prefix.last() == all[i as int]);
                assert(project_file@.all_sections =~= before.all_sections.push(all[i as int]));
                assert(project_file@ =~= (SpecProjectFile {
                    preamble_properties: preamble,
                    ..project_sections(next_prefix)
                }));
            }
            i = i + 1;
        }
        proof {
            assert(all.subrange(0, sections.len() as int) =~= all);
            assert(project_file@ =~= project_of(property_file@));
        }
        project_file
    }
}

impl Default for ProjectFile {
    fn default() -> (r: Self)
        ensures
            r@ == project_empty(),
    {
        Self::new()
    }
}

/// Parse a project file (`.godot`): a property file whose sections are then
/// categorized into the project view, with the preamble properties carried
/// over. Returns the unconsumed remainder and the view; fails only on an
/// unterminated header enclosure, and then returns no partial view.
pub fn parse_project_file(input: &str) -> (r: Result<(String, ProjectFile), ParseError>)
    ensures
        match property_file_spec(input@) {
            FileOutcome::Done { next, file } => {
                &&& r matches Ok(done)
                &&& done.0@ == input@.subrange(next, input@.len() as int)
                &&& done.1@ == project_of(file)
            },
            FileOutcome::Unterminated { at } => {
                &&& r matches Err(e)
                &&& e.kind == ParseErrorKind::UnterminatedEnclosure
                &&& e.offset as int == at
            },
        },
{
    match parse_property_file(input) {
        Ok((remaining, property_file)) => {
            let project_file = ProjectFile::from_property_file(property_file);
            Ok((remaining, project_file))
        },
        Err(e) => Err(e),
    }
}

/// The last section of a run whose header type reads `name`, if any.
pub open spec fn last_of_type(sections: Seq<SpecSection>, name: Seq<char>) -> Option<SpecSection>
    decreases sections.len(),
{
    if sections.len() == 0 {
        None
    } else if sections.last().header_type == name {
        Some(sections.last())
    } else {
        last_of_type(sections.drop_last(), name)
    }
}

/// The project view preserves the input and follows the last-occurrence
/// policy: `all_sections` is exactly the original run of sections, in
/// order, and each single slot holds exactly the last section of its type,
/// so a repeated type leaves only its final occurrence in the slot and a
/// section of unrecognized type appears only in `all_sections`.
#[verifier::rlimit(50)]
pub proof fn lemma_project_view_shape(sections: Seq<SpecSection>)
    ensures
        project_sections(sections).all_sections == sections,
        project_sections(sections).application == last_of_type(sections, "application"@),
        project_sections(sections).audio == last_of_type(sections, "audio"@),
        project_sections(sections).autoload == last_of_type(sections, "autoload"@),
        project_sections(sections).debug == last_of_type(sections, "debug"@),
        project_sections(sections).display == last_of_type(sections, "display"@),
        project_sections(sections).editor_plugins == last_of_type(sections, "editor_plugins"@),
        project_sections(sections).input == last_of_type(sections, "input"@),
        project_sections(sections).input_devices == last_of_type(sections, "input_devices"@),
        project_sections(sections).internationalization == last_of_type(
            sections,
            "internationalization"@,
        ),
        project_sections(sections).layer_names == last_of_type(sections, "layer_names"@),
        project_sections(sections).physics == last_of_type(sections, "physics"@),
        project_sections(sections).rendering == last_of_type(sections, "rendering"@),
    decreases sections.len(),
{
    reveal_strlit("application");
    reveal_strlit("audio");
    reveal_strlit("autoload");
    reveal_strlit("debug");
    reveal_strlit("display");
    reveal_strlit("editor_plugins");
    reveal_strlit("input");
    reveal_strlit("input_devices");
    reveal_strlit("internationalization");
    reveal_strlit("layer_names");
    reveal_strlit("physics");
    reveal_strlit("rendering");
    assert("application"@.len() == 11);
    assert("audio"@.len() == 5);
    assert("autoload"@.len() == 8);
    assert("debug"@.len() == 5);
    assert("display"@.len() == 7);
    assert("editor_plugins"@.len() == 14);
    assert("input"@.len() == 5);
    assert("input_devices"@.len() == 13);
    assert("internationalization"@.len() == 20);
    assert("layer_names"@.len() == 11);
    assert("physics"@.len() == 7);
    assert("rendering"@.len() == 9);
    assert("audio"@ != "debug"@) by {
        assert("audio"@[0] == 'a');
        assert("debug"@[0] == 'd');
    }
    assert("audio"@ != "input"@) by {
        assert("audio"@[0] == 'a');
        assert("input"@[0] == 'i');
    }
    assert("debug"@ != "input"@) by {
        assert("debug"@[0] == 'd');
        assert("input"@[0] == 'i');
    }
    assert("display"@ != "physics"@) by {
        assert("display"@[0] == 'd');
        assert("physics"@[0] == 'p');
    }
    assert("application"@ != "layer_names"@) by {
        assert("application"@[0] == 'a');
        assert("layer_names"@[0] == 'l');
    }
    if sections.len() == 0 {
        assert(project_sections(sections).all_sections =~= sections);
    } else {
        lemma_project_view_shape(sections.drop_last());
        assert(project_sections(sections).all_sections =~= sections);
    }
}

} // verus!
