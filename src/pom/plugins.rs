use vstd::prelude::*;

use edit_xml::{Document, Element};

use crate::editor::dom::{self, NodeState, nodes, well_formed};
use crate::editor::utils::{
    create_text_elements, find_element, find_element_or_err, first_child, leaves_written, optional_field,
    optional_view, pairs_view, sync_element, synced, text_leaf, lemma_first_named,
};
use crate::editor::{ChildOfListElement, ComparableElement, ElementConverter, HasElementName, PomValue, UpdatableElement, XMLEditorError};
use crate::pom::{is_missing, is_invalid_formatted, optional_rendered, property_fails, property_read};
use crate::types::Property;

verus! {

/// The build section of a project.
#[derive(Debug, Clone, Default)]
pub struct Build {
    pub source_directory: Option<String>,
    pub plugins: Plugins,
}

/// The plugins of a build.
#[derive(Debug, Clone, Default)]
pub struct Plugins {
    pub plugins: Vec<Plugin>,
}

/// A build plugin.
#[derive(Debug, Clone, Default, PartialEq, Eq)]
pub struct Plugin {
    pub group_id: Option<String>,
    pub artifact_id: String,
    pub version: Option<Property>,
}

/// The text of the first child of `e` named `tag`.
pub open spec fn first_text(m: Map<Element, NodeState>, e: Element, tag: Seq<char>) -> Option<Seq<char>> {
    match first_child(m, e, tag) {
        Some(k) => Some(m[k].text),
        None => None,
    }
}

impl Plugin {
    pub open spec fn fields(&self) -> Seq<(Seq<char>, Seq<char>)> {
        optional_field("groupId"@, optional_view(self.group_id)) + seq![("artifactId"@, self.artifact_id@)]
            + optional_field("version"@, optional_rendered(self.version))
    }

    /// Same group id and artifact id.
    pub fn is_same_plugin(&self, other: &Plugin) -> (r: bool)
        ensures
            r == (optional_view(self.group_id) == optional_view(other.group_id) && self.artifact_id@
                == other.artifact_id@),
    {
        let same_group = match (&self.group_id, &other.group_id) {
            (Some(a), Some(b)) => crate::utils::str_eq(a.as_str(), b.as_str()),
            (None, None) => true,
            _ => false,
        };
        same_group && self.artifact_id == other.artifact_id
    }
}

impl HasElementName for Plugin {
    open spec fn tag() -> Seq<char> {
        "plugin"@
    }

    fn element_name() -> (r: &'static str) {
        "plugin"
    }
}

impl ChildOfListElement for Plugin {
    open spec fn container_tag() -> Seq<char> {
        "plugins"@
    }

    fn parent_element_name() -> (r: &'static str) {
        "plugins"
    }
}

impl ComparableElement for Plugin {
    open spec fn same_item(&self, other: &Self) -> bool {
        optional_view(self.group_id) == optional_view(other.group_id) && self.artifact_id@ == other.artifact_id@
    }

    fn is_same_item(&self, other: &Self) -> (r: bool) {
        self.is_same_plugin(other)
    }
}

/// The text of the first child of `element` named `name`.
fn first_text_of(element: Element, name: &str, document: &Document) -> (r: Option<String>)
    requires
        well_formed(*document),
        nodes(*document).dom().contains(element),
    ensures
        optional_view(r) == first_text(nodes(*document), element, name@),
{
    match find_element(element, name, document) {
        Some(k) => {
            proof {
                lemma_first_named(nodes(*document), nodes(*document)[element].children, name@);
            }
            Some(dom::text_of(document, k))
        },
        None => None,
    }
}

impl ElementConverter for Plugin {
    /// A plugin is read from the first child with each tag.
    open spec fn decodes(m: Map<Element, NodeState>, e: Element, r: Result<Self, XMLEditorError>) -> bool {
        let v = first_text(m, e, "version"@);
        if first_text(m, e, "artifactId"@) is None {
            r matches Err(err) && is_missing(err, "artifactId"@)
        } else if property_fails(v) {
            r matches Err(err) && is_invalid_formatted(err)
        } else {
            r matches Ok(p) && {
                &&& optional_view(p.group_id) == first_text(m, e, "groupId"@)
                &&& p.artifact_id@ == first_text(m, e, "artifactId"@)->0
                &&& property_read(v, p.version)
            }
        }
    }

    open spec fn written_as(&self, m: Map<Element, NodeState>, kids: Seq<Element>) -> bool {
        leaves_written(m, kids, self.fields())
    }

    proof fn lemma_written_as_frame(
        &self,
        a: Map<Element, NodeState>,
        b: Map<Element, NodeState>,
        kids: Seq<Element>,
        changed: Set<Element>,
    ) {
        assert forall|i: int| 0 <= i < kids.len() implies text_leaf(b, #[trigger] kids[i], self.fields()[i].0, self.fields()[i].1) by {
            assert(!changed.contains(kids[i]));
        }
    }

    fn from_element(element: Element, document: &Document) -> (r: Result<Self, XMLEditorError>) {
        let group_id = first_text_of(element, "groupId", document);
        let artifact_id = match first_text_of(element, "artifactId", document) {
            Some(a) => a,
            None => return Err(XMLEditorError::MissingElement(crate::editor::utils::MissingElementError("artifactId"))),
        };
        let version = match first_text_of(element, "version", document) {
            Some(t) => match Property::from_str_for_editor(t.as_str()) {
                Ok(p) => Some(p),
                Err(e) => return Err(XMLEditorError::InvalidValue(e)),
            },
            None => None,
        };
        Ok(Plugin { group_id, artifact_id, version })
    }

    fn into_children(self, document: &mut Document) -> (r: Result<Vec<Element>, XMLEditorError>) {
        let ghost me = self;
        let mut fields: Vec<(&str, String)> = Vec::new();
        if let Some(g) = self.group_id {
            fields.push(("groupId", g));
        }
        let ghost f1 = pairs_view(fields@);
        assert(f1 =~= optional_field("groupId"@, optional_view(me.group_id)));
        fields.push(("artifactId", self.artifact_id));
        let ghost f2 = pairs_view(fields@);
        assert(f2 =~= f1 + seq![("artifactId"@, me.artifact_id@)]);
        if let Some(v) = self.version {
            fields.push(("version", v.to_string()));
        }
        assert(pairs_view(fields@) =~= f2 + optional_field("version"@, optional_rendered(me.version)));
        Ok(create_text_elements(document, fields))
    }
}

impl UpdatableElement for Plugin {
    open spec fn updates(&self, a: Map<Element, NodeState>, b: Map<Element, NodeState>, e: Element) -> bool {
        synced(a, b, e, "version"@, optional_rendered(self.version))
    }

    fn update_element(&self, element: Element, document: &mut Document) -> (r: Result<(), XMLEditorError>) {
        proof {
            reveal_strlit("version");
            dom::lemma_plain_name("version"@);
        }
        let version = match &self.version {
            Some(v) => Some(v.to_string()),
            None => None,
        };
        let version_ref: Option<&str> = match &version {
            Some(v) => Some(v.as_str()),
            None => None,
        };
        sync_element(document, element, "version", version_ref);
        Ok(())
    }
}

} // verus!

verus! {

/// Plugin identity is symmetric and transitive, so the general upsert laws apply to every list of them.
pub proof fn lemma_plugin_identity_is_equivalence(v: Seq<(Plugin, Element)>, extra: Seq<Plugin>)
    ensures
        crate::editor::utils::identity_is_equivalence(v, extra),
{
}

} // verus!
