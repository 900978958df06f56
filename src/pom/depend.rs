use vstd::prelude::*;

use edit_xml::{Document, Element};

use crate::editor::dom::{self, NodeState, nodes, holder, well_formed, is_element_of, local_name, first_colon};
use crate::editor::utils::{
    self as eu, create_text_elements, find_or_create_then_set_text_content, last_text, last_texts,
    leaves_written, optional_field, optional_view, pairs_view, sync_element, synced, take_last, unchanged_outside,
    as_str_option, children_parse, validate_children,
    MissingElementError,
};
use crate::editor::{
    ChildOfListElement, ComparableElement, ElementConverter, HasElementName, InvalidValueError, PomValue,
    UpdatableElement, XMLEditorError, content_kept_except,
};
use crate::types::prop::parse_property;
use crate::types::{render, Property, PropertyView};
use crate::utils::group_id_and_artifact_id_and_version_to_path;

verus! {

/// The dependencies of a project.
#[derive(Debug, Clone, Default)]
pub struct Dependencies {
    pub dependencies: Vec<Dependency>,
}

/// Why a `group:artifact:version` string could not be read.
#[derive(Debug, Clone, Copy, PartialEq, Eq)]
pub enum DependencyParseError {
    MissingArtifactId,
    MissingVersion,
    MissingSeparator,
}

/// A dependency in a project descriptor.
#[derive(Debug, Clone, Default, PartialEq, Eq)]
pub struct Dependency {
    /// `<groupId>com.google.guava</groupId>`
    pub group_id: String,
    /// `<artifactId>guava</artifactId>`
    pub artifact_id: String,
    /// `<version>1.0.0</version>`
    pub version: Option<Property>,
    /// `<type>jar</type>`
    pub depend_type: Option<String>,
    pub scope: Option<String>,
    pub classifier: Option<String>,
}

/// The rendered text of an optional property.
pub open spec fn optional_rendered(p: Option<Property>) -> Option<Seq<char>> {
    match p {
        Some(v) => Some(render(v@)),
        None => None,
    }
}

/// An optional property read from an optional text: absent stays absent, present is parsed.
pub open spec fn property_read(text: Option<Seq<char>>, p: Option<Property>) -> bool {
    match text {
        None => p is None,
        Some(t) => p matches Some(q) && parse_property(t, false) == Ok::<PropertyView, (int, crate::utils::parse::ParseContext)>(q@),
    }
}

/// A property text that does not parse.
pub open spec fn property_fails(text: Option<Seq<char>>) -> bool {
    text matches Some(t) && parse_property(t, false) is Err
}

pub open spec fn is_invalid_formatted(r: XMLEditorError) -> bool {
    r matches XMLEditorError::InvalidValue(InvalidValueError::InvalidFormattedValue { .. })
}

pub open spec fn is_missing(r: XMLEditorError, tag: Seq<char>) -> bool {
    r matches XMLEditorError::MissingElement(MissingElementError(t)) && t@ == tag
}

impl Dependency {
    pub open spec fn fields(&self) -> Seq<(Seq<char>, Seq<char>)> {
        seq![("groupId"@, self.group_id@), ("artifactId"@, self.artifact_id@)]
            + optional_field("version"@, optional_rendered(self.version))
            + optional_field("type"@, optional_view(self.depend_type))
            + optional_field("scope"@, optional_view(self.scope))
            + optional_field("classifier"@, optional_view(self.classifier))
    }

    /// Same group id and artifact id.
    pub fn is_same_dependency(&self, other: &Dependency) -> (r: bool)
        ensures
            r == (self.group_id@ == other.group_id@ && self.artifact_id@ == other.artifact_id@),
    {
        self.group_id == other.group_id && self.artifact_id == other.artifact_id
    }

    /// The rendered version, empty when there is none.
    fn version_text(&self) -> (r: String)
        ensures
            r@ == match self.version {
                Some(v) => render(v@),
                None => Seq::empty(),
            },
    {
        match &self.version {
            Some(v) => v.to_string(),
            None => String::new(),
        }
    }

    /// `artifact-version.pom`
    pub fn pom_name(&self) -> (r: String)
        ensures
            r@ == self.artifact_id@ + "-"@ + match self.version {
                Some(v) => render(v@),
                None => Seq::empty(),
            } + ".pom"@,
    {
        let version = self.version_text();
        let mut s = self.artifact_id.clone();
        s.append("-");
        s.append(version.as_str());
        s.append(".pom");
        s
    }

    /// `group/path/artifact/version/artifact-version.pom`
    pub fn pom_path(&self) -> (r: String)
        ensures
            r@ == crate::utils::artifact_version_path(self.group_id@, self.artifact_id@, match self.version {
                Some(v) => render(v@),
                None => Seq::empty(),
            }) + "/"@ + self.artifact_id@ + "-"@ + match self.version {
                Some(v) => render(v@),
                None => Seq::empty(),
            } + ".pom"@,
    {
        let version = self.version_text();
        let mut path = group_id_and_artifact_id_and_version_to_path(
            self.group_id.as_str(),
            self.artifact_id.as_str(),
            version.as_str(),
        );
        path.append("/");
        let name = self.pom_name();
        path.append(name.as_str());
        path
    }

    /// `group:artifact:version`, with an empty version when there is none.
    pub fn to_string(&self) -> (r: String)
        ensures
            r@ == self.group_id@ + ":"@ + self.artifact_id@ + ":"@ + match self.version {
                Some(v) => render(v@),
                None => Seq::empty(),
            },
    {
        let version = self.version_text();
        let mut s = self.group_id.clone();
        s.append(":");
        s.append(self.artifact_id.as_str());
        s.append(":");
        s.append(version.as_str());
        s
    }
}

/// The parts of `group:artifact:version[:more]`, or why there are not enough of them.
pub open spec fn coordinates(s: Seq<char>) -> Result<(Seq<char>, Seq<char>, Seq<char>), DependencyParseError> {
    match first_colon(s, 0) {
        None => Err(DependencyParseError::MissingSeparator),
        Some(i) => match first_colon(s, i + 1) {
            None => Err(DependencyParseError::MissingVersion),
            Some(j) => {
                let k = match first_colon(s, j + 1) {
                    Some(k) => k,
                    None => s.len() as int,
                };
                Ok((s.subrange(0, i), s.subrange(i + 1, j), s.subrange(j + 1, k)))
            },
        },
    }
}

pub proof fn lemma_first_colon_bounds(s: Seq<char>, i: int)
    requires
        0 <= i,
    ensures
        first_colon(s, i) matches Some(k) ==> i <= k < s.len() && s[k] == ':',
    decreases s.len() - i,
{
    if i < s.len() && s[i] != ':' {
        lemma_first_colon_bounds(s, i + 1);
    }
}

impl Dependency {
    /// Reads `group:artifact:version`; anything after a third `:` is ignored and the version
    /// is kept as a literal.
    pub fn from_coordinates(value: &str) -> (r: Result<Dependency, DependencyParseError>)
        ensures
            match coordinates(value@) {
                Ok((g, a, v)) => r matches Ok(d) && {
                    &&& d.group_id@ == g
                    &&& d.artifact_id@ == a
                    &&& (d.version matches Some(p) && p@ == PropertyView::Literal(v))
                    &&& d.depend_type is None
                    &&& d.scope is None
                    &&& d.classifier is None
                },
                Err(e) => r == Err::<Dependency, DependencyParseError>(e),
            },
    {
        let n = value.unicode_len();
        let i = match dom::find_colon(value, 0) {
            Some(i) => i,
            None => return Err(DependencyParseError::MissingSeparator),
        };
        proof {
            lemma_first_colon_bounds(value@, 0);
        }
        let j = match dom::find_colon(value, i + 1) {
            Some(j) => j,
            None => return Err(DependencyParseError::MissingVersion),
        };
        proof {
            lemma_first_colon_bounds(value@, i + 1);
        }
        let k = match dom::find_colon(value, j + 1) {
            Some(k) => k,
            None => n,
        };
        proof {
            lemma_first_colon_bounds(value@, j + 1);
        }
        let group_id = value.substring_char(0, i).to_string();
        let artifact_id = value.substring_char(i + 1, j).to_string();
        let version = value.substring_char(j + 1, k).to_string();
        Ok(Dependency {
            group_id,
            artifact_id,
            version: Some(Property::Literal(version)),
            depend_type: None,
            scope: None,
            classifier: None,
        })
    }
}

impl std::str::FromStr for Dependency {
    type Err = DependencyParseError;

    fn from_str(s: &str) -> (r: Result<Self, Self::Err>)
        ensures
            match coordinates(s@) {
                Ok((g, a, v)) => r matches Ok(d) && {
                    &&& d.group_id@ == g
                    &&& d.artifact_id@ == a
                    &&& (d.version matches Some(p) && p@ == PropertyView::Literal(v))
                    &&& d.depend_type is None
                    &&& d.scope is None
                    &&& d.classifier is None
                },
                Err(e) => r == Err::<Dependency, DependencyParseError>(e),
            },
    {
        Dependency::from_coordinates(s)
    }
}

impl HasElementName for Dependency {
    open spec fn tag() -> Seq<char> {
        "dependency"@
    }

    fn element_name() -> (r: &'static str) {
        "dependency"
    }
}

impl ChildOfListElement for Dependency {
    open spec fn container_tag() -> Seq<char> {
        "dependencies"@
    }

    fn parent_element_name() -> (r: &'static str) {
        "dependencies"
    }
}

impl ComparableElement for Dependency {
    open spec fn same_item(&self, other: &Self) -> bool {
        self.group_id@ == other.group_id@ && self.artifact_id@ == other.artifact_id@
    }

    fn is_same_item(&self, other: &Self) -> (r: bool) {
        self.is_same_dependency(other)
    }
}

impl ElementConverter for Dependency {
    open spec fn decodes(m: Map<Element, NodeState>, e: Element, r: Result<Self, XMLEditorError>) -> bool {
        let kids = m[e].children;
        let g = last_text(m, kids, "groupId"@);
        let a = last_text(m, kids, "artifactId"@);
        let v = last_text(m, kids, "version"@);
        if exists|x: XMLEditorError| children_parse::<Property>(m, kids, "version"@, Err(x)) {
            r matches Err(err) && children_parse::<Property>(m, kids, "version"@, Err(err))
        } else if property_fails(v) {
            r matches Err(err) && is_invalid_formatted(err)
        } else if g is None {
            r matches Err(err) && is_missing(err, "groupId"@)
        } else if a is None {
            r matches Err(err) && is_missing(err, "artifactId"@)
        } else {
            r matches Ok(d) && {
                &&& d.group_id@ == g->0
                &&& d.artifact_id@ == a->0
                &&& property_read(v, d.version)
                &&& optional_view(d.depend_type) == last_text(m, kids, "type"@)
                &&& optional_view(d.scope) == last_text(m, kids, "scope"@)
                &&& optional_view(d.classifier) == last_text(m, kids, "classifier"@)
            }
        }
    }

    open spec fn written_as(&self, m: Map<Element, NodeState>, kids: Seq<Element>) -> bool {
        leaves_written(m, kids, self.fields())
    }

    proof fn lemma_written_as_frame(
        &self,
        a: Map<Element, NodeState>,
        b: Map<Element, NodeState>,
        kids: Seq<Element>,
        changed: Set<Element>,
    ) {
        assert forall|i: int| 0 <= i < kids.len() implies eu::text_leaf(b, #[trigger] kids[i], self.fields()[i].0, self.fields()[i].1) by {
            assert(!changed.contains(kids[i]));
        }
    }

    fn from_element(element: Element, document: &Document) -> (r: Result<Self, XMLEditorError>) {
        match validate_children::<Property>(element, "version", document) {
            Ok(()) => {},
            Err(e) => return Err(e),
        }
        let tags = vec!["groupId", "artifactId", "version", "type", "scope", "classifier"];
        let mut vals = last_texts(element, &tags, document);
        let ghost v0 = vals@;
        let classifier = take_last(&mut vals);
        let scope = take_last(&mut vals);
        let depend_type = take_last(&mut vals);
        let version_text = take_last(&mut vals);
        let artifact_id = take_last(&mut vals);
        let group_id = take_last(&mut vals);
        proof {
            assert(tags[0]@ == "groupId"@);
            assert(tags[1]@ == "artifactId"@);
            assert(tags[2]@ == "version"@);
            assert(tags[3]@ == "type"@);
            assert(tags[4]@ == "scope"@);
            assert(tags[5]@ == "classifier"@);
        }
        let version = match version_text {
            Some(t) => match Property::from_str_for_editor(t.as_str()) {
                Ok(p) => Some(p),
                Err(e) => return Err(XMLEditorError::InvalidValue(e)),
            },
            None => None,
        };
        let group_id = match group_id {
            Some(g) => g,
            None => return Err(XMLEditorError::MissingElement(MissingElementError("groupId"))),
        };
        let artifact_id = match artifact_id {
            Some(a) => a,
            None => return Err(XMLEditorError::MissingElement(MissingElementError("artifactId"))),
        };
        Ok(Dependency { group_id, artifact_id, version, depend_type, scope, classifier })
    }

    fn into_children(self, document: &mut Document) -> (r: Result<Vec<Element>, XMLEditorError>) {
        let ghost me = self;
        let mut fields: Vec<(&str, String)> = Vec::new();
        fields.push(("groupId", self.group_id));
        fields.push(("artifactId", self.artifact_id));
        let ghost f2 = pairs_view(fields@);
        assert(f2 =~= seq![("groupId"@, me.group_id@), ("artifactId"@, me.artifact_id@)]);
        if let Some(v) = self.version {
            fields.push(("version", v.to_string()));
        }
        let ghost f3 = pairs_view(fields@);
        assert(f3 =~= f2 + optional_field("version"@, optional_rendered(me.version)));
        if let Some(t) = self.depend_type {
            fields.push(("type", t));
        }
        let ghost f4 = pairs_view(fields@);
        assert(f4 =~= f3 + optional_field("type"@, optional_view(me.depend_type)));
        if let Some(s) = self.scope {
            fields.push(("scope", s));
        }
        let ghost f5 = pairs_view(fields@);
        assert(f5 =~= f4 + optional_field("scope"@, optional_view(me.scope)));
        if let Some(c) = self.classifier {
            fields.push(("classifier", c));
        }
        assert(pairs_view(fields@) =~= f5 + optional_field("classifier"@, optional_view(me.classifier)));
        Ok(create_text_elements(document, fields))
    }
}

impl UpdatableElement for Dependency {
    open spec fn updates(&self, a: Map<Element, NodeState>, b: Map<Element, NodeState>, e: Element) -> bool {
        exists|m1: Map<Element, NodeState>, m2: Map<Element, NodeState>, m3: Map<Element, NodeState>|
            synced(a, m1, e, "version"@, optional_rendered(self.version))
                && synced(m1, m2, e, "type"@, optional_view(self.depend_type))
                && synced(m2, m3, e, "scope"@, optional_view(self.scope))
                && synced(m3, b, e, "classifier"@, optional_view(self.classifier))
    }

    fn update_element(&self, element: Element, document: &mut Document) -> (r: Result<(), XMLEditorError>) {
        proof {
            reveal_strlit("version");
            reveal_strlit("type");
            reveal_strlit("scope");
            reveal_strlit("classifier");
            dom::lemma_plain_name("version"@);
            dom::lemma_plain_name("type"@);
            dom::lemma_plain_name("scope"@);
            dom::lemma_plain_name("classifier"@);
        }
        let version = match &self.version {
            Some(v) => Some(v.to_string()),
            None => None,
        };
        let version_ref: Option<&str> = match &version {
            Some(v) => Some(v.as_str()),
            None => None,
        };
        sync_element(document, element, "version", version_ref);
        let ghost m1 = nodes(*document);
        sync_element(document, element, "type", as_str_option(&self.depend_type));
        let ghost m2 = nodes(*document);
        sync_element(document, element, "scope", as_str_option(&self.scope));
        let ghost m3 = nodes(*document);
        sync_element(document, element, "classifier", as_str_option(&self.classifier));
        proof {
            let b = nodes(*document);
            crate::editor::utils::lemma_synced_then(m2, m3, b, element, "scope"@, optional_view(self.scope));
            crate::editor::utils::lemma_synced_then(m1, m2, b, element, "type"@, optional_view(self.depend_type));
            crate::editor::utils::lemma_synced_then(nodes(*old(document)), m1, b, element, "version"@, optional_rendered(self.version));
        }
        Ok(())
    }
}

} // verus!

verus! {

use crate::editor::utils::{first_match, first_match_from};

/// No two dependencies of the list share group id and artifact id.
pub open spec fn keys_unique(v: Seq<(Dependency, Element)>) -> bool {
    forall|i: int, j: int| 0 <= i < j < v.len() ==> !v[i].0.same_item(&v[j].0)
}

/// The list after an upsert of `item`: the first record that is the same item is replaced by
/// `stored`, the record the document holds afterwards, or `stored` is appended.
pub open spec fn upserted(v: Seq<(Dependency, Element)>, item: Dependency, stored: Dependency, e: Element) -> Seq<(Dependency, Element)> {
    match first_match(v, item) {
        Some(i) => v.update(i, (stored, v[i].1)),
        None => v.push((stored, e)),
    }
}

proof fn lemma_first_match_from(v: Seq<(Dependency, Element)>, item: Dependency, from: int)
    requires
        0 <= from <= v.len(),
    ensures
        match first_match_from(v, item, from) {
            Some(i) => from <= i < v.len() && v[i].0.same_item(&item) && forall|j: int|
                from <= j < i ==> !v[j].0.same_item(&item),
            None => forall|j: int| from <= j < v.len() ==> !v[j].0.same_item(&item),
        },
    decreases v.len() - from,
{
    if from < v.len() && !v[from].0.same_item(&item) {
        lemma_first_match_from(v, item, from + 1);
    }
}

/// Upserting a record keeps group and artifact ids unique in a list where they were unique,
/// when the stored record keeps the identity of the upserted one.
pub proof fn lemma_upsert_keeps_identities_unique(
    v: Seq<(Dependency, Element)>,
    item: Dependency,
    stored: Dependency,
    e: Element,
)
    requires
        keys_unique(v),
        stored.same_item(&item),
    ensures
        keys_unique(upserted(v, item, stored, e)),
{
    lemma_first_match_from(v, item, 0);
    let w = upserted(v, item, stored, e);
    assert forall|i: int, j: int| 0 <= i < j < w.len() implies !w[i].0.same_item(&w[j].0) by {
        match first_match(v, item) {
            Some(k) => {
                if i == k {
                    assert(!v[k].0.same_item(&v[j].0));
                } else if j == k {
                    assert(!v[i].0.same_item(&v[k].0));
                }
            },
            None => {
                if j == v.len() {
                    assert(!v[i].0.same_item(&item));
                }
            },
        }
    }
}

/// Upserting the same record twice: the second upsert finds the record the first one stored
/// and returns it, and afterwards exactly one record of the list has that identity.
pub proof fn lemma_upsert_twice(
    v: Seq<(Dependency, Element)>,
    item: Dependency,
    first: Dependency,
    e1: Element,
    second: Dependency,
    e2: Element,
)
    requires
        keys_unique(v),
        first.same_item(&item),
        second.same_item(&item),
    ensures
        ({
            let v1 = upserted(v, item, first, e1);
            &&& first_match(v1, item) matches Some(k) && v1[k].0 == first
            &&& exists|k: int|
                0 <= k < upserted(v1, item, second, e2).len() && (#[trigger] upserted(v1, item, second, e2)[k]).0.same_item(&item)
                    && forall|j: int|
                    0 <= j < upserted(v1, item, second, e2).len() && j != k ==> !upserted(v1, item, second, e2)[j].0.same_item(&item)
        }),
{
    let v1 = upserted(v, item, first, e1);
    lemma_first_match_from(v, item, 0);
    lemma_upsert_keeps_identities_unique(v, item, first, e1);
    lemma_first_match_from(v1, item, 0);
    let k = match first_match(v, item) {
        Some(i) => i,
        None => v.len() as int,
    };
    assert(v1[k].0 == first);
    assert(first_match(v1, item) == Some(k)) by {
        if let Some(m) = first_match(v1, item) {
            if m < k {
                assert(v1[m] == v[m]);
            } else if m > k {
                assert(!v1[k].0.same_item(&item));
            }
        } else {
            assert(!v1[k].0.same_item(&item));
        }
    }
    let v2 = upserted(v1, item, second, e2);
    lemma_upsert_keeps_identities_unique(v1, item, second, e2);
    assert(v2.len() == v1.len());
    assert(v2[k].0 == second);
    assert forall|j: int| 0 <= j < v2.len() && j != k implies !v2[j].0.same_item(&item) by {
        assert(v2[j] == v1[j]);
        if j < k {
            assert(!v1[j].0.same_item(&v1[k].0));
        } else {
            assert(!v1[k].0.same_item(&v1[j].0));
        }
    }
    assert(v2[k].0.same_item(&item));
}

} // verus!

verus! {

use crate::editor::utils::{lemma_last_named, last_named};

/// A dependency written as new elements reads back with its own group id and artifact id.
pub proof fn lemma_written_dependency_identity(m: Map<Element, NodeState>, kids: Seq<Element>, item: Dependency)
    requires
        item.written_as(m, kids),
    ensures
        last_text(m, kids, "groupId"@) == Some(item.group_id@),
        last_text(m, kids, "artifactId"@) == Some(item.artifact_id@),
{
    reveal_strlit("groupId");
    reveal_strlit("artifactId");
    reveal_strlit("version");
    reveal_strlit("type");
    reveal_strlit("scope");
    reveal_strlit("classifier");
    dom::lemma_plain_name("groupId"@);
    dom::lemma_plain_name("artifactId"@);
    let f = item.fields();
    assert(f[0] == ("groupId"@, item.group_id@));
    assert(f[1] == ("artifactId"@, item.artifact_id@));
    assert forall|j: int| 2 <= j < f.len() implies f[j].0 != "groupId"@ && f[j].0 != "artifactId"@ by {
        let tail = optional_field("version"@, optional_rendered(item.version)) + optional_field(
            "type"@,
            optional_view(item.depend_type),
        ) + optional_field("scope"@, optional_view(item.scope)) + optional_field("classifier"@, optional_view(item.classifier));
        assert(f =~= seq![("groupId"@, item.group_id@), ("artifactId"@, item.artifact_id@)] + tail);
        assert(f[j] == tail[j - 2]);
    }
    assert(text_leaf_names(m, kids, f));
    lemma_last_named(m, kids, "groupId"@);
    lemma_last_named(m, kids, "artifactId"@);
    assert(m[kids[0]].name == "groupId"@);
    assert(m[kids[1]].name == "artifactId"@);
    assert("artifactId"@ != "groupId"@) by {
        assert("artifactId"@.len() != "groupId"@.len());
    }
    assert(m[kids[0]].text == item.group_id@);
    assert(m[kids[1]].text == item.artifact_id@);
    match last_named(m, kids, "groupId"@) {
        Some(i) => {
            if i >= 2 {
                assert(m[kids[i]].name == local_name(f[i].0));
                assert(f[i].0 != "groupId"@);
                dom::lemma_plain_name(f[i].0);
            }
            assert(i == 0);
        },
        None => {
            assert(m[kids[0]].name == "groupId"@);
        },
    }
    match last_named(m, kids, "artifactId"@) {
        Some(i) => {
            if i >= 2 {
                assert(m[kids[i]].name == local_name(f[i].0));
                assert(f[i].0 != "artifactId"@);
                dom::lemma_plain_name(f[i].0);
            }
            assert(i == 1);
        },
        None => {
            assert(m[kids[1]].name == "artifactId"@);
        },
    }
}

spec fn text_leaf_names(m: Map<Element, NodeState>, kids: Seq<Element>, f: Seq<(Seq<char>, Seq<char>)>) -> bool {
    forall|i: int| 0 <= i < kids.len() ==> m[#[trigger] kids[i]].name == local_name(f[i].0)
}

} // verus!

verus! {

use crate::editor::utils::{lemma_synced_keeps_other, upsert_outcome, list_decodes, appended, written_element};

/// The last child of `e` named `tag` exists and has no children of its own.
pub open spec fn leaf_field(m: Map<Element, NodeState>, e: Element, tag: Seq<char>) -> bool {
    last_named(m, m[e].children, tag) matches Some(i) && m[m[e].children[i]].children.len() == 0
}

pub open spec fn children_known(m: Map<Element, NodeState>, e: Element) -> bool {
    forall|i: int| 0 <= i < m[e].children.len() ==> m.dom().contains(#[trigger] m[e].children[i])
}

proof fn lemma_step_keeps(
    a: Map<Element, NodeState>,
    b: Map<Element, NodeState>,
    e: Element,
    tag: Seq<char>,
    value: Option<Seq<char>>,
)
    requires
        synced(a, b, e, tag, value),
        local_name(tag) == tag,
        tag != "groupId"@,
        tag != "artifactId"@,
        children_known(a, e),
        leaf_field(a, e, "groupId"@),
        leaf_field(a, e, "artifactId"@),
    ensures
        children_known(b, e),
        leaf_field(b, e, "groupId"@),
        leaf_field(b, e, "artifactId"@),
        last_text(b, b[e].children, "groupId"@) == last_text(a, a[e].children, "groupId"@),
        last_text(b, b[e].children, "artifactId"@) == last_text(a, a[e].children, "artifactId"@),
{
    lemma_synced_keeps_other(a, b, e, tag, value, "groupId"@);
    lemma_synced_keeps_other(a, b, e, tag, value, "artifactId"@);
}

/// Updating a dependency element keeps the group id and artifact id it reads with, when those
/// children hold only text.
pub proof fn lemma_update_keeps_identity(item: Dependency, a: Map<Element, NodeState>, b: Map<Element, NodeState>, e: Element)
    requires
        item.updates(a, b, e),
        children_known(a, e),
        leaf_field(a, e, "groupId"@),
        leaf_field(a, e, "artifactId"@),
    ensures
        last_text(b, b[e].children, "groupId"@) == last_text(a, a[e].children, "groupId"@),
        last_text(b, b[e].children, "artifactId"@) == last_text(a, a[e].children, "artifactId"@),
{
    reveal_strlit("groupId");
    reveal_strlit("artifactId");
    reveal_strlit("version");
    reveal_strlit("type");
    reveal_strlit("scope");
    reveal_strlit("classifier");
    dom::lemma_plain_name("version"@);
    dom::lemma_plain_name("type"@);
    dom::lemma_plain_name("scope"@);
    dom::lemma_plain_name("classifier"@);
    let (m1, m2, m3) = choose|m1: Map<Element, NodeState>, m2: Map<Element, NodeState>, m3: Map<Element, NodeState>|
        synced(a, m1, e, "version"@, optional_rendered(item.version))
            && synced(m1, m2, e, "type"@, optional_view(item.depend_type))
            && synced(m2, m3, e, "scope"@, optional_view(item.scope))
            && synced(m3, b, e, "classifier"@, optional_view(item.classifier));
    lemma_step_keeps(a, m1, e, "version"@, optional_rendered(item.version));
    lemma_step_keeps(m1, m2, e, "type"@, optional_view(item.depend_type));
    lemma_step_keeps(m2, m3, e, "scope"@, optional_view(item.scope));
    lemma_step_keeps(m3, b, e, "classifier"@, optional_view(item.classifier));
}

/// After adding or updating `item` in an existing list, the element that holds it reads with
/// the group id and artifact id of `item`: the stored record is the same item. Updated elements
/// must hold their group id and artifact id as text.
pub proof fn lemma_upsert_stores_identity(
    a: Map<Element, NodeState>,
    b: Map<Element, NodeState>,
    c: Element,
    insert_into: Element,
    item: Dependency,
    r: Result<Option<Dependency>, XMLEditorError>,
)
    requires
        upsert_outcome(a, b, Some(c), insert_into, item, r),
        r is Ok,
        a.dom().contains(c),
        children_known(a, c),
        forall|i: int|
            0 <= i < a[c].children.len() ==> {
                &&& #[trigger] a[c].children[i] != c
                &&& !a[a[c].children[i]].children.contains(c)
                &&& children_known(a, a[c].children[i])
                &&& leaf_field(a, a[c].children[i], "groupId"@)
                &&& leaf_field(a, a[c].children[i], "artifactId"@)
            },
    ensures
        exists|k: Element|
            b.dom().contains(k) && b[c].children.contains(k) && #[trigger] last_text(b, b[k].children, "groupId"@)
                == Some(item.group_id@) && last_text(b, b[k].children, "artifactId"@) == Some(item.artifact_id@),
{
    let res = choose|res: Result<Vec<(Dependency, Element)>, XMLEditorError>|
        #![trigger list_decodes::<Dependency>(a, a[c].children, res)]
        list_decodes::<Dependency>(a, a[c].children, res) && match res {
            Err(err) => r matches Err(e) && e == err && b == a,
            Ok(v) => match first_match(v@, item) {
                Some(i) => r matches Ok(Some(prev)) && prev == v[i].0 && item.updates(a, b, a[c].children[i])
                    && crate::editor::utils::unchanged_outside(a, b, a[c].children[i]),
                None => r matches Ok(None) && appended(a, b, c, item),
            },
        };
    if let Ok(v) = res {
        lemma_first_match_from(v@, item, 0);
        match first_match(v@, item) {
            Some(i) => {
                let k = a[c].children[i];
                assert(v[i].1 == k);
                assert(Dependency::decodes(a, k, Ok(v[i].0)));
                assert(v@[i].0.same_item(&item));
                lemma_update_keeps_identity(item, a, b, k);
                assert(a.dom().contains(k));
                assert(b.dom().contains(k));
                assert(b[c].children.contains(k)) by {
                    assert(k != c);
                    assert(!a[k].children.contains(c));
                    assert(b[c].children == a[c].children);
                    assert(b[c].children[i] == k);
                }
            },
            None => {
                let k = b[c].children.last();
                assert(written_element(a, b, k, item));
                lemma_written_dependency_identity(b, b[k].children, item);
                assert(b[c].children.contains(k)) by {
                    assert(b[c].children[b[c].children.len() - 1] == k);
                }
            },
        }
    }
}

} // verus!

verus! {

use crate::editor::utils::{lemma_last_named_same_names, lemma_first_named, first_named};

/// The group id and artifact id texts an element reads with.
pub open spec fn record_key(m: Map<Element, NodeState>, k: Element) -> (Option<Seq<char>>, Option<Seq<char>>) {
    (last_text(m, m[k].children, "groupId"@), last_text(m, m[k].children, "artifactId"@))
}

/// The element's children are known, and its group id and artifact id are held as text.
pub open spec fn fields_are_text(m: Map<Element, NodeState>, k: Element) -> bool {
    &&& m.dom().contains(k)
    &&& children_known(m, k)
    &&& leaf_field(m, k, "groupId"@)
    &&& leaf_field(m, k, "artifactId"@)
}

proof fn lemma_step_keeps_other_record(
    a: Map<Element, NodeState>,
    b: Map<Element, NodeState>,
    e: Element,
    tag: Seq<char>,
    value: Option<Seq<char>>,
    k: Element,
)
    requires
        synced(a, b, e, tag, value),
        k != e,
        !a[e].children.contains(k),
        !a[k].children.contains(e),
        fields_are_text(a, k),
        forall|x: Element| a[k].children.contains(x) ==> !a[e].children.contains(x),
        children_known(a, e),
    ensures
        fields_are_text(b, k),
        record_key(b, k) == record_key(a, k),
        b[k].children == a[k].children,
        !b[e].children.contains(k),
        !b[k].children.contains(e),
        forall|x: Element| b[k].children.contains(x) ==> !b[e].children.contains(x),
        children_known(b, e),
{
    let kids = a[k].children;
    assert(b[k].children == kids);
    assert forall|i: int| 0 <= i < kids.len() implies a[#[trigger] kids[i]].name == b[kids[i]].name by {
        assert(a.dom().contains(kids[i]));
    }
    lemma_last_named_same_names(a, b, kids, "groupId"@);
    lemma_last_named_same_names(a, b, kids, "artifactId"@);
    let ig = last_named(a, kids, "groupId"@)->0;
    let ia = last_named(a, kids, "artifactId"@)->0;
    lemma_last_named(a, kids, "groupId"@);
    lemma_last_named(a, kids, "artifactId"@);
    let xg = kids[ig];
    let xa = kids[ia];
    assert(kids.contains(xg));
    assert(kids.contains(xa));
    assert(a.dom().contains(xg));
    assert(a.dom().contains(xa));
    let ek = a[e].children;
    lemma_first_named(a, ek, tag);
    match (value, first_named(a, ek, tag)) {
        (Some(v), Some(i)) => {
            assert(ek.contains(ek[i]));
            assert(b[e].children == ek);
        },
        (Some(v), None) => {
            let n = b[e].children.last();
            assert(b[e].children =~= ek.push(n));
            assert(!a.dom().contains(n));
            assert forall|x: Element| b[k].children.contains(x) implies !b[e].children.contains(x) by {
                if b[e].children.contains(x) {
                    let j = choose|j: int| 0 <= j < b[e].children.len() && b[e].children[j] == x;
                    if j < ek.len() {
                        assert(ek[j] == x);
                    } else {
                        let q = choose|q: int| 0 <= q < kids.len() && kids[q] == x;
                        assert(a.dom().contains(kids[q]));
                    }
                }
            }
            assert(!b[e].children.contains(k)) by {
                if b[e].children.contains(k) {
                    let j = choose|j: int| 0 <= j < b[e].children.len() && b[e].children[j] == k;
                    if j < ek.len() {
                        assert(ek[j] == k);
                    }
                }
            }
            assert forall|q: int| 0 <= q < b[e].children.len() implies b.dom().contains(#[trigger] b[e].children[q]) by {
                if q < ek.len() {
                    assert(b[e].children[q] == ek[q]);
                    assert(a.dom().contains(ek[q]));
                }
            }
        },
        (None, _) => {
            crate::editor::utils::lemma_without_tag_subset(a, ek, tag);
            assert forall|x: Element| b[e].children.contains(x) implies ek.contains(x) by {}
            assert forall|q: int| 0 <= q < b[e].children.len() implies b.dom().contains(#[trigger] b[e].children[q]) by {
                assert(b[e].children.contains(b[e].children[q]));
                assert(ek.contains(b[e].children[q]));
                let j = choose|j: int| 0 <= j < ek.len() && ek[j] == b[e].children[q];
                assert(a.dom().contains(ek[j]));
            }
        },
    }
}

proof fn lemma_update_keeps_other_record(item: Dependency, a: Map<Element, NodeState>, b: Map<Element, NodeState>, e: Element, k: Element)
    requires
        item.updates(a, b, e),
        k != e,
        !a[e].children.contains(k),
        !a[k].children.contains(e),
        fields_are_text(a, k),
        forall|x: Element| a[k].children.contains(x) ==> !a[e].children.contains(x),
        children_known(a, e),
    ensures
        fields_are_text(b, k),
        record_key(b, k) == record_key(a, k),
{
    let (m1, m2, m3) = choose|m1: Map<Element, NodeState>, m2: Map<Element, NodeState>, m3: Map<Element, NodeState>|
        synced(a, m1, e, "version"@, optional_rendered(item.version))
            && synced(m1, m2, e, "type"@, optional_view(item.depend_type))
            && synced(m2, m3, e, "scope"@, optional_view(item.scope))
            && synced(m3, b, e, "classifier"@, optional_view(item.classifier));
    lemma_step_keeps_other_record(a, m1, e, "version"@, optional_rendered(item.version), k);
    lemma_step_keeps_other_record(m1, m2, e, "type"@, optional_view(item.depend_type), k);
    lemma_step_keeps_other_record(m2, m3, e, "scope"@, optional_view(item.scope), k);
    lemma_step_keeps_other_record(m3, b, e, "classifier"@, optional_view(item.classifier), k);
}

} // verus!

verus! {

/// A list element whose records are distinct, share no children, and hold their ids as text.
pub open spec fn text_list(m: Map<Element, NodeState>, c: Element) -> bool {
    let kids = m[c].children;
    &&& m.dom().contains(c)
    &&& children_known(m, c)
    &&& forall|i: int|
        0 <= i < kids.len() ==> {
            &&& #[trigger] kids[i] != c
            &&& !m[kids[i]].children.contains(c)
            &&& fields_are_text(m, kids[i])
        }
    &&& forall|i: int, j: int|
        0 <= i < kids.len() && 0 <= j < kids.len() && i != j ==> {
            &&& #[trigger] kids[i] != #[trigger] kids[j]
            &&& !m[kids[i]].children.contains(kids[j])
            &&& forall|x: Element| m[kids[i]].children.contains(x) ==> !m[kids[j]].children.contains(x)
        }
}

proof fn lemma_kept_record_key(a: Map<Element, NodeState>, b: Map<Element, NodeState>, k: Element)
    requires
        fields_are_text(a, k),
        b[k].children == a[k].children,
        forall|x: Element|
            a[k].children.contains(x) ==> b[x].name == a[x].name && (a[x].children.len() == 0 ==> b[x].text
                == a[x].text),
    ensures
        record_key(b, k) == record_key(a, k),
{
    let kids = a[k].children;
    assert forall|i: int| 0 <= i < kids.len() implies a[#[trigger] kids[i]].name == b[kids[i]].name by {
        assert(kids.contains(kids[i]));
    }
    lemma_last_named_same_names(a, b, kids, "groupId"@);
    lemma_last_named_same_names(a, b, kids, "artifactId"@);
    lemma_last_named(a, kids, "groupId"@);
    lemma_last_named(a, kids, "artifactId"@);
    let ig = last_named(a, kids, "groupId"@)->0;
    let ia = last_named(a, kids, "artifactId"@)->0;
    assert(kids.contains(kids[ig]));
    assert(kids.contains(kids[ia]));
}

/// The key a decoded dependency has is the key its element reads with.
proof fn lemma_decoded_key(m: Map<Element, NodeState>, k: Element, d: Dependency)
    requires
        Dependency::decodes(m, k, Ok(d)),
    ensures
        record_key(m, k) == (Some(d.group_id@), Some(d.artifact_id@)),
{
}

/// Adding or updating a dependency in a list whose dependencies have distinct group and
/// artifact ids keeps them distinct: reading the list again finds no two records of one
/// identity. The list's records must hold their ids as text and be laid out as a tree.
pub proof fn lemma_upsert_keeps_list_identities_unique(
    a: Map<Element, NodeState>,
    b: Map<Element, NodeState>,
    c: Element,
    insert_into: Element,
    item: Dependency,
    r: Result<Option<Dependency>, XMLEditorError>,
    v: Vec<(Dependency, Element)>,
    w: Vec<(Dependency, Element)>,
)
    requires
        upsert_outcome(a, b, Some(c), insert_into, item, r),
        r is Ok,
        text_list(a, c),
        list_decodes::<Dependency>(a, a[c].children, Ok(v)),
        keys_unique(v@),
        list_decodes::<Dependency>(b, b[c].children, Ok(w)),
    ensures
        keys_unique(w@),
{
    let kids = a[c].children;
    let res = choose|res: Result<Vec<(Dependency, Element)>, XMLEditorError>|
        #![trigger list_decodes::<Dependency>(a, a[c].children, res)]
        list_decodes::<Dependency>(a, a[c].children, res) && match res {
            Err(err) => r matches Err(e) && e == err && b == a,
            Ok(v) => match first_match(v@, item) {
                Some(i) => r matches Ok(Some(prev)) && prev == v[i].0 && item.updates(a, b, a[c].children[i])
                    && crate::editor::utils::unchanged_outside(a, b, a[c].children[i]),
                None => r matches Ok(None) && appended(a, b, c, item),
            },
        };
    let v0 = res->Ok_0;
    assert forall|j: int| 0 <= j < kids.len() implies (#[trigger] v0@[j]).0.same_item(&item) == v@[j].0.same_item(&item)
        && record_key(a, kids[j]) == (Some(v@[j].0.group_id@), Some(v@[j].0.artifact_id@)) by {
        assert(v0[j].1 == kids[j]);
        assert(v[j].1 == kids[j]);
        lemma_decoded_key(a, kids[j], v0[j].0);
        lemma_decoded_key(a, kids[j], v[j].0);
    }
    assert forall|j: int| 0 <= j < w.len() implies record_key(b, b[c].children[j]) == (Some((#[trigger] w@[j]).0.group_id@), Some(w@[j].0.artifact_id@)) by {
        assert(w[j].1 == b[c].children[j]);
        lemma_decoded_key(b, b[c].children[j], w[j].0);
    }
    lemma_first_match_from(v0@, item, 0);
    match first_match(v0@, item) {
        Some(i) => {
            let k = kids[i];
            assert(b[c].children == kids);
            assert(w.len() == v.len());
            assert forall|j: int| 0 <= j < w.len() implies record_key(b, kids[j]) == record_key(a, #[trigger] kids[j]) by {
                assert(fields_are_text(a, kids[j]));
                if j == i {
                    lemma_update_keeps_identity(item, a, b, k);
                } else {
                    assert(kids[i] != kids[j]);
                    lemma_update_keeps_other_record(item, a, b, k, kids[j]);
                }
            }
            assert forall|p: int, q: int| 0 <= p < q < w.len() implies !w@[p].0.same_item(&w@[q].0) by {
                assert(record_key(b, kids[p]) == record_key(a, kids[p]));
                assert(record_key(b, kids[q]) == record_key(a, kids[q]));
                assert(!v@[p].0.same_item(&v@[q].0));
            }
        },
        None => {
            let n = b[c].children.last();
            assert(b[c].children.drop_last() == kids);
            assert(written_element(a, b, n, item));
            lemma_written_dependency_identity(b, b[n].children, item);
            assert(w.len() == kids.len() + 1);
            assert forall|j: int| 0 <= j < kids.len() implies record_key(b, kids[j]) == record_key(a, #[trigger] kids[j]) by {
                assert(b[c].children[j] == kids[j]);
                assert(fields_are_text(a, kids[j]));
                assert(kids[j] != c);
                assert forall|x: Element| a[kids[j]].children.contains(x) implies b[x].name == a[x].name && (a[x].children.len() == 0 ==> b[x].text == a[x].text) by {
                    let q = choose|q: int| 0 <= q < a[kids[j]].children.len() && a[kids[j]].children[q] == x;
                    assert(a.dom().contains(a[kids[j]].children[q]));
                    assert(x != c);
                }
                lemma_kept_record_key(a, b, kids[j]);
            }
            assert forall|p: int, q: int| 0 <= p < q < w.len() implies !w@[p].0.same_item(&w@[q].0) by {
                assert(b[c].children[p] == kids[p]);
                assert(record_key(b, kids[p]) == record_key(a, kids[p]));
                if q < kids.len() {
                    assert(b[c].children[q] == kids[q]);
                    assert(record_key(b, kids[q]) == record_key(a, kids[q]));
                    assert(!v@[p].0.same_item(&v@[q].0));
                } else {
                    assert(b[c].children[q] == n);
                    assert(!v0@[p].0.same_item(&item));
                }
            }
        },
    }
}

} // verus!

verus! {

/// Upserting the same dependency twice into a list with distinct identities: the second call
/// returns the record that the element stored by the first call reads as.
pub proof fn lemma_second_upsert_returns_stored(
    a: Map<Element, NodeState>,
    b: Map<Element, NodeState>,
    b2: Map<Element, NodeState>,
    c: Element,
    insert_into: Element,
    item: Dependency,
    r1: Result<Option<Dependency>, XMLEditorError>,
    r2: Result<Option<Dependency>, XMLEditorError>,
    v: Vec<(Dependency, Element)>,
)
    requires
        upsert_outcome(a, b, Some(c), insert_into, item, r1),
        r1 is Ok,
        text_list(a, c),
        list_decodes::<Dependency>(a, a[c].children, Ok(v)),
        keys_unique(v@),
        upsert_outcome(b, b2, Some(c), insert_into, item, r2),
        r2 is Ok,
    ensures
        r2 matches Ok(Some(prev)) && exists|k: Element|
            #![trigger Dependency::decodes(b, k, Ok(prev))]
            b[c].children.contains(k) && Dependency::decodes(b, k, Ok(prev)) && last_text(b, b[k].children, "groupId"@)
                == Some(item.group_id@) && last_text(b, b[k].children, "artifactId"@) == Some(item.artifact_id@),
{
    let res2 = choose|res: Result<Vec<(Dependency, Element)>, XMLEditorError>|
        #![trigger list_decodes::<Dependency>(b, b[c].children, res)]
        list_decodes::<Dependency>(b, b[c].children, res) && match res {
            Err(err) => r2 matches Err(e) && e == err && b2 == b,
            Ok(v) => match first_match(v@, item) {
                Some(i) => r2 matches Ok(Some(prev)) && prev == v[i].0 && item.updates(b, b2, b[c].children[i])
                    && crate::editor::utils::unchanged_outside(b, b2, b[c].children[i]),
                None => r2 matches Ok(None) && appended(b, b2, c, item),
            },
        };
    let v2 = res2->Ok_0;
    assert forall|i: int| 0 <= i < a[c].children.len() implies {
        &&& children_known(a, #[trigger] a[c].children[i])
        &&& leaf_field(a, a[c].children[i], "groupId"@)
        &&& leaf_field(a, a[c].children[i], "artifactId"@)
    } by {
        assert(fields_are_text(a, a[c].children[i]));
    }
    lemma_upsert_stores_identity(a, b, c, insert_into, item, r1);
    lemma_upsert_keeps_list_identities_unique(a, b, c, insert_into, item, r1, v, v2);
    let k = choose|k: Element|
        b.dom().contains(k) && b[c].children.contains(k) && #[trigger] last_text(b, b[k].children, "groupId"@)
            == Some(item.group_id@) && last_text(b, b[k].children, "artifactId"@) == Some(item.artifact_id@);
    let j = choose|j: int| 0 <= j < b[c].children.len() && b[c].children[j] == k;
    assert(v2[j].1 == k);
    lemma_decoded_key(b, k, v2[j].0);
    assert(v2@[j].0.same_item(&item));
    lemma_first_match_from(v2@, item, 0);
    match first_match(v2@, item) {
        Some(i2) => {
            if i2 < j {
                assert(v2@[i2].0.same_item(&v2@[j].0));
            }
            assert(i2 == j);
            assert(Dependency::decodes(b, k, Ok(v2[j].0)));
        },
        None => {},
    }
}

} // verus!

verus! {

use crate::editor::utils::lemma_synced_absence;

/// No child of `e` is named `tag`.
pub open spec fn no_child_named(m: Map<Element, NodeState>, e: Element, tag: Seq<char>) -> bool {
    forall|i: int| 0 <= i < m[e].children.len() ==> m[#[trigger] m[e].children[i]].name != tag
}

/// Updating a dependency element with an absent optional field leaves no child with that
/// field's tag, so reading the element again gives the field as absent.
pub proof fn lemma_update_removes_absent_fields(item: Dependency, a: Map<Element, NodeState>, b: Map<Element, NodeState>, e: Element)
    requires
        item.updates(a, b, e),
        children_known(a, e),
    ensures
        item.version is None ==> no_child_named(b, e, "version"@),
        item.depend_type is None ==> no_child_named(b, e, "type"@),
        item.scope is None ==> no_child_named(b, e, "scope"@),
        item.classifier is None ==> no_child_named(b, e, "classifier"@),
{
    reveal_strlit("version");
    reveal_strlit("type");
    reveal_strlit("scope");
    reveal_strlit("classifier");
    dom::lemma_plain_name("version"@);
    dom::lemma_plain_name("type"@);
    dom::lemma_plain_name("scope"@);
    dom::lemma_plain_name("classifier"@);
    let (m1, m2, m3) = choose|m1: Map<Element, NodeState>, m2: Map<Element, NodeState>, m3: Map<Element, NodeState>|
        synced(a, m1, e, "version"@, optional_rendered(item.version))
            && synced(m1, m2, e, "type"@, optional_view(item.depend_type))
            && synced(m2, m3, e, "scope"@, optional_view(item.scope))
            && synced(m3, b, e, "classifier"@, optional_view(item.classifier));
    lemma_synced_absence(a, m1, e, "version"@, optional_rendered(item.version), "version"@);
    lemma_synced_absence(m1, m2, e, "type"@, optional_view(item.depend_type), "version"@);
    lemma_synced_absence(m2, m3, e, "scope"@, optional_view(item.scope), "version"@);
    lemma_synced_absence(m3, b, e, "classifier"@, optional_view(item.classifier), "version"@);
    lemma_synced_absence(m1, m2, e, "type"@, optional_view(item.depend_type), "type"@);
    lemma_synced_absence(m2, m3, e, "scope"@, optional_view(item.scope), "type"@);
    lemma_synced_absence(m3, b, e, "classifier"@, optional_view(item.classifier), "type"@);
    lemma_synced_absence(m2, m3, e, "scope"@, optional_view(item.scope), "scope"@);
    lemma_synced_absence(m3, b, e, "classifier"@, optional_view(item.classifier), "scope"@);
    lemma_synced_absence(m3, b, e, "classifier"@, optional_view(item.classifier), "classifier"@);
}

} // verus!

verus! {

/// Updating a dependency keeps every child of another tag, with its own children.
pub proof fn lemma_update_keeps_unmodelled_children(item: Dependency, a: Map<Element, NodeState>, b: Map<Element, NodeState>, e: Element, x: Element)
    requires
        item.updates(a, b, e),
        a.dom().contains(x),
        a[e].children.contains(x),
        a[x].name != "version"@ && a[x].name != "type"@ && a[x].name != "scope"@ && a[x].name != "classifier"@,
    ensures
        b[e].children.contains(x),
        b[x].name == a[x].name,
        b[x].children == a[x].children,
{
    let (m1, m2, m3) = choose|m1: Map<Element, NodeState>, m2: Map<Element, NodeState>, m3: Map<Element, NodeState>|
        synced(a, m1, e, "version"@, optional_rendered(item.version)) && synced(m1, m2, e, "type"@, optional_view(item.depend_type)) && synced(m2, m3, e, "scope"@, optional_view(item.scope)) && synced(m3, b, e, "classifier"@, optional_view(item.classifier));
    crate::editor::utils::lemma_synced_keeps_other_child(a, m1, e, "version"@, optional_rendered(item.version), x);
    crate::editor::utils::lemma_synced_keeps_other_child(m1, m2, e, "type"@, optional_view(item.depend_type), x);
    crate::editor::utils::lemma_synced_keeps_other_child(m2, m3, e, "scope"@, optional_view(item.scope), x);
    crate::editor::utils::lemma_synced_keeps_other_child(m3, b, e, "classifier"@, optional_view(item.classifier), x);
}

} // verus!

verus! {

use crate::editor::utils::identity_is_equivalence;

/// Dependency identity (same group id and artifact id) is an equivalence, so the general
/// upsert laws apply to every list of dependencies.
pub proof fn lemma_dependency_identity_is_equivalence(v: Seq<(Dependency, Element)>, extra: Seq<Dependency>)
    ensures
        identity_is_equivalence(v, extra),
{
}

} // verus!
