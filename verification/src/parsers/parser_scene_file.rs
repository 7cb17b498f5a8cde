//! The scene view: a categorized projection of a parsed file. Sections are
//! bucketed by header type into external resources, sub-resources, nodes,
//! connections and editables, with `gd_scene`/`gd_resource` filling the
//! single header slot (a later occurrence overwrites an earlier one), while
//! `all_sections` keeps every section in original order.

use vstd::prelude::*;

use crate::parsers::parser_property_file::{
    clone_section, parse_property_file, property_file_spec, section_has_type, FileOutcome,
    PropertyFile, Section, SpecSection,
};
use crate::parsers::scan::{ParseError, ParseErrorKind};

verus! {

/// A scene-shaped view of a parsed file.
#[derive(Debug, PartialEq, Clone)]
pub struct SceneFile {
    /// The main scene header (a `gd_scene` or `gd_resource` section).
    pub header: Option<Section>,
    /// External resource sections.
    pub ext_resources: Vec<Section>,
    /// Sub-resource sections.
    pub sub_resources: Vec<Section>,
    /// Node sections.
    pub nodes: Vec<Section>,
    /// Connection (signal) sections.
    pub connections: Vec<Section>,
    /// Editable sections.
    pub editables: Vec<Section>,
    /// Every section in original order, categorized or not.
    pub all_sections: Vec<Section>,
}

/// The mathematical content of a [`SceneFile`].
#[verifier::ext_equal]
pub ghost struct SpecSceneFile {
    pub header: Option<SpecSection>,
    pub ext_resources: Seq<SpecSection>,
    pub sub_resources: Seq<SpecSection>,
    pub nodes: Seq<SpecSection>,
    pub connections: Seq<SpecSection>,
    pub editables: Seq<SpecSection>,
    pub all_sections: Seq<SpecSection>,
}

impl View for SceneFile {
    type V = SpecSceneFile;

    open spec fn view(&self) -> SpecSceneFile {
        SpecSceneFile {
            header: match self.header {
                Some(sec) => Some(sec@),
                None => None,
            },
            ext_resources: self.ext_resources.deep_view(),
            sub_resources: self.sub_resources.deep_view(),
            nodes: self.nodes.deep_view(),
            connections: self.connections.deep_view(),
            editables: self.editables.deep_view(),
            all_sections: self.all_sections.deep_view(),
        }
    }
}

impl DeepView for SceneFile {
    type V = SpecSceneFile;

    open spec fn deep_view(&self) -> SpecSceneFile {
        self.view()
    }
}

/// The empty scene view.
pub open spec fn scene_empty() -> SpecSceneFile {
    SpecSceneFile {
        header: None,
        ext_resources: Seq::empty(),
        sub_resources: Seq::empty(),
        nodes: Seq::empty(),
        connections: Seq::empty(),
        editables: Seq::empty(),
        all_sections: Seq::empty(),
    }
}

/// Header types filling the scene view's single header slot.
pub open spec fn is_scene_header_type(t: Seq<char>) -> bool {
    t == "gd_scene"@ || t == "gd_resource"@
}

/// Categorize one section into the scene view: it always joins
/// `all_sections`; a recognized type additionally fills its slot or list,
/// and for the header slot a later occurrence overwrites an earlier one.
pub open spec fn scene_add(f: SpecSceneFile, sec: SpecSection) -> SpecSceneFile {
    let f2 = SpecSceneFile { all_sections: f.all_sections.push(sec), ..f };
    if is_scene_header_type(sec.header_type) {
        SpecSceneFile { header: Some(sec), ..f2 }
    } else if sec.header_type == "ext_resource"@ {
        SpecSceneFile { ext_resources: f2.ext_resources.push(sec), ..f2 }
    } else if sec.header_type == "sub_resource"@ {
        SpecSceneFile { sub_resources: f2.sub_resources.push(sec), ..f2 }
    } else if sec.header_type == "node"@ {
        SpecSceneFile { nodes: f2.nodes.push(sec), ..f2 }
    } else if sec.header_type == "connection"@ {
        SpecSceneFile { connections: f2.connections.push(sec), ..f2 }
    } else if sec.header_type == "editable"@ {
        SpecSceneFile { editables: f2.editables.push(sec), ..f2 }
    } else {
        f2
    }
}

/// The scene view of a whole run of sections, in order.
pub open spec fn scene_of(sections: Seq<SpecSection>) -> SpecSceneFile
    decreases sections.len(),
{
    if sections.len() == 0 {
        scene_empty()
    } else {
        scene_add(scene_of(sections.drop_last()), sections.last())
    }
}

impl SceneFile {
    /// Create a new empty scene view.
    pub fn new() -> (r: Self)
        ensures
            r@ == scene_empty(),
    {
        let r = SceneFile {
            header: None,
            ext_resources: Vec::new(),
            sub_resources: Vec::new(),
            nodes: Vec::new(),
            connections: Vec::new(),
            editables: Vec::new(),
            all_sections: Vec::new(),
        };
        proof {
            assert(r@ =~= scene_empty());
        }
        r
    }

    /// Build the scene view of a parsed file by categorizing its sections
    /// in order.
    pub fn from_property_file(property_file: PropertyFile) -> (r: Self)
        ensures
            r@ == scene_of(property_file@.sections),
    {
        let mut scene_file = SceneFile::new();
        let sections = property_file.sections;
        let ghost all = sections.deep_view();
        let mut i: usize = 0;
        while i < sections.len()
            invariant
                i <= sections.len(),
                all == sections.deep_view(),
                scene_file@ == scene_of(all.subrange(0, i as int)),
            decreases sections.len() - i,
        {
            let ghost prefix = all.subrange(0, i as int);
            let ghost before = scene_file@;
            let sec = clone_section(&sections[i]);
            scene_file.all_sections.push(clone_section(&sections[i]));
            if section_has_type(&sec, "gd_scene") || section_has_type(&sec, "gd_resource") {
                scene_file.header = Some(sec);
            } else if section_has_type(&sec, "ext_resource") {
                scene_file.ext_resources.push(sec);
            } else if section_has_type(&sec, "sub_resource") {
                scene_file.sub_resources.push(sec);
            } else if section_has_type(&sec, "node") {
                scene_file.nodes.push(sec);
            } else if section_has_type(&sec, "connection") {
                scene_file.connections.push(sec);
            } else if section_has_type(&sec, "editable") {
                scene_file.editables.push(sec);
            }
            proof {
                let next_prefix = all.subrange(0, i + 1);
                assert(next_prefix.drop_last() =~= prefix);
                assert(next_prefix.last() == all[i as int]);
                assert(scene_file@ =~= scene_add(before, all[i as int]));
            }
            i = i + 1;
        }
        proof {
            assert(all.subrange(0, sections.len() as int) =~= all);
        }
        scene_file
    }
}

impl Default for SceneFile {
    fn default() -> (r: Self)
        ensures
            r@ == scene_empty(),
    {
        Self::new()
    }
}

/// Parse a scene file (`.tscn`): a property file whose sections are then
/// categorized into the scene view. Returns the unconsumed remainder and
/// the view; fails only on an unterminated header enclosure, and then
/// returns no partial view.
pub fn parse_scene_file(input: &str) -> (r: Result<(String, SceneFile), ParseError>)
    ensures
        match property_file_spec(input@) {
            FileOutcome::Done { next, file } => {
                &&& r matches Ok(done)
                &&& done.0@ == input@.subrange(next, input@.len() as int)
                &&& done.1@ == scene_of(file.sections)
            },
            FileOutcome::Unterminated { at } => {
                &&& r matches Err(e)
                &&& e.kind == ParseErrorKind::UnterminatedEnclosure
                &&& e.offset as int == at
            },
        },
{
    match parse_property_file(input) {
        Ok((remaining, property_file)) => {
            let scene_file = SceneFile::from_property_file(property_file);
            Ok((remaining, scene_file))
        },
        Err(e) => Err(e),
    }
}

/// A header type the scene view recognizes.
pub open spec fn scene_recognized(t: Seq<char>) -> bool {
    is_scene_header_type(t) || t == "ext_resource"@ || t == "sub_resource"@ || t == "node"@ || t
        == "connection"@ || t == "editable"@
}

/// The scene view preserves the input: `all_sections` is exactly the
/// original run of sections, in order; each categorized list holds only
/// sections of its own type, so a section of unrecognized type appears only
/// in `all_sections`; and the header slot holds only a header-typed
/// section, present exactly when one occurred.
pub proof fn lemma_scene_view_shape(sections: Seq<SpecSection>)
    ensures
        scene_of(sections).all_sections == sections,
        forall|k: int|
            0 <= k < scene_of(sections).ext_resources.len() ==> #[trigger] scene_of(
                sections,
            ).ext_resources[k].header_type == "ext_resource"@,
        forall|k: int|
            0 <= k < scene_of(sections).sub_resources.len() ==> #[trigger] scene_of(
                sections,
            ).sub_resources[k].header_type == "sub_resource"@,
        forall|k: int|
            0 <= k < scene_of(sections).nodes.len() ==> #[trigger] scene_of(
                sections,
            ).nodes[k].header_type == "node"@,
        forall|k: int|
            0 <= k < scene_of(sections).connections.len() ==> #[trigger] scene_of(
                sections,
            ).connections[k].header_type == "connection"@,
        forall|k: int|
            0 <= k < scene_of(sections).editables.len() ==> #[trigger] scene_of(
                sections,
            ).editables[k].header_type == "editable"@,
        scene_of(sections).header matches Some(h) ==> is_scene_header_type(h.header_type),
        (scene_of(sections).header is Some) <==> (exists|k: int|
            0 <= k < sections.len() && is_scene_header_type(
                #[trigger] sections[k].header_type,
            )),
    decreases sections.len(),
{
    if sections.len() == 0 {
        assert(scene_of(sections).all_sections =~= sections);
    } else {
        lemma_scene_view_shape(sections.drop_last());
        let pre = sections.drop_last();
        let last = sections.last();
        assert(scene_of(sections).all_sections =~= pre + seq![last]);
        assert(scene_of(sections).all_sections =~= sections);
        if scene_of(sections).header is Some {
            if is_scene_header_type(last.header_type) {
                assert(sections[sections.len() - 1] == last);
            } else {
                let k = choose|k: int|
                    0 <= k < pre.len() && is_scene_header_type(#[trigger] pre[k].header_type);
                assert(sections[k] == pre[k]);
            }
        }
        if exists|k: int|
            0 <= k < sections.len() && is_scene_header_type(#[trigger] sections[k].header_type) {
            let k = choose|k: int|
                0 <= k < sections.len() && is_scene_header_type(
                    #[trigger] sections[k].header_type,
                );
            if k < pre.len() {
                assert(pre[k] == sections[k]);
            }
        }
    }
}

/// The last header-typed section of a run, if any.
pub open spec fn last_scene_header(sections: Seq<SpecSection>) -> Option<SpecSection>
    decreases sections.len(),
{
    if sections.len() == 0 {
        None
    } else if is_scene_header_type(sections.last().header_type) {
        Some(sections.last())
    } else {
        last_scene_header(sections.drop_last())
    }
}

/// Each categorized list of the scene view is exactly the subsequence of
/// the sections of its type, in original order; and the header slot holds
/// exactly the last header-typed section, so a repeated header type leaves
/// only its final occurrence in the slot.
pub proof fn lemma_scene_lists_exact(sections: Seq<SpecSection>)
    ensures
        scene_of(sections).ext_resources == sections.filter(
            |sec: SpecSection| sec.header_type == "ext_resource"@,
        ),
        scene_of(sections).sub_resources == sections.filter(
            |sec: SpecSection| sec.header_type == "sub_resource"@,
        ),
        scene_of(sections).nodes == sections.filter(
            |sec: SpecSection| sec.header_type == "node"@,
        ),
        scene_of(sections).connections == sections.filter(
            |sec: SpecSection| sec.header_type == "connection"@,
        ),
        scene_of(sections).editables == sections.filter(
            |sec: SpecSection| sec.header_type == "editable"@,
        ),
        scene_of(sections).header == last_scene_header(sections),
    decreases sections.len(),
{
    reveal(Seq::<SpecSection>::filter);
    reveal_strlit("gd_scene");
    reveal_strlit("gd_resource");
    reveal_strlit("ext_resource");
    reveal_strlit("sub_resource");
    reveal_strlit("node");
    reveal_strlit("connection");
    reveal_strlit("editable");
    assert("gd_scene"@.len() == 8);
    assert("gd_resource"@.len() == 11);
    assert("ext_resource"@.len() == 12);
    assert("sub_resource"@.len() == 12);
    assert("node"@.len() == 4);
    assert("connection"@.len() == 10);
    assert("editable"@.len() == 8);
    assert("ext_resource"@ != "sub_resource"@) by {
        assert("ext_resource"@[0] == 'e');
        assert("sub_resource"@[0] == 's');
    }
    assert("gd_scene"@ != "editable"@) by {
        assert("gd_scene"@[0] == 'g');
        assert("editable"@[0] == 'e');
    }
    if sections.len() > 0 {
        lemma_scene_lists_exact(sections.drop_last());
    }
}

/// Categorization is complete on recognized input: when every section's
/// type is recognized by the scene view and at most one section is
/// header-typed, the categorized slots and lists together hold exactly as
/// many sections as `all_sections`.
pub proof fn lemma_scene_categorization_complete(sections: Seq<SpecSection>)
    requires
        forall|k: int|
            0 <= k < sections.len() ==> scene_recognized(#[trigger] sections[k].header_type),
        forall|k1: int, k2: int|
            0 <= k1 < k2 < sections.len() ==> !(is_scene_header_type(
                #[trigger] sections[k1].header_type,
            ) && is_scene_header_type(#[trigger] sections[k2].header_type)),
    ensures
        ({
            let f = scene_of(sections);
            (if f.header is Some {
                1int
            } else {
                0int
            }) + f.ext_resources.len() + f.sub_resources.len() + f.nodes.len()
                + f.connections.len() + f.editables.len() == f.all_sections.len()
        }),
    decreases sections.len(),
{
    lemma_scene_view_shape(sections);
    if sections.len() > 0 {
        let pre = sections.drop_last();
        let last = sections.last();
        assert(forall|k: int| 0 <= k < pre.len() ==> pre[k] == sections[k]);
        lemma_scene_view_shape(pre);
        lemma_scene_categorization_complete(pre);
        assert(sections[sections.len() - 1] == last);
        if is_scene_header_type(last.header_type) {
            assert(forall|k: int|
                0 <= k < pre.len() ==> !is_scene_header_type(#[trigger] pre[k].header_type));
            assert(scene_of(pre).header is None);
        }
    }
}

} // verus!
