use vstd::prelude::*;

use edit_xml::{Document, Element};

use crate::editor::dom::{self, NodeState, nodes, holder, well_formed, local_name};
use crate::editor::utils::{
    create_element_of_leaves, create_text_elements, find_last_element, find_or_create_then_set_text_content,
    last_named, last_text, last_texts, leaves_written, optional_field, optional_view, pairs_view, sync_element,
    synced, take_last, text_leaf, as_str_option, optional_rendered_value, read_typed, typed_result,
    children_parse, children_decode, validate_children, validate_child_elements,
    MissingElementError,
};
use crate::editor::{
    content_kept_except, extends, fresh_detached, ChildOfListElement, ComparableElement, ElementConverter,
    HasElementName, InvalidValueError, PomValue, UpdatableElement, XMLEditorError,
};
use crate::pom::is_missing;
use crate::types::str_starts_with;
use crate::utils::{decimal, decimal_string, parse_usize, str_eq, unsigned_value};

verus! {

/// The repositories of a project.
#[derive(Debug, Clone, Default)]
pub struct Repositories {
    pub repositories: Vec<Repository>,
}

/// What to do when a checksum does not match.
#[derive(Debug, Clone, Copy, PartialEq, Eq)]
pub enum ChecksumPolicy {
    Ignore,
    Fail,
    Warn,
}

pub open spec fn checksum_policy_of(t: Seq<char>) -> Option<ChecksumPolicy> {
    if t == "ignore"@ {
        Some(ChecksumPolicy::Ignore)
    } else if t == "fail"@ {
        Some(ChecksumPolicy::Fail)
    } else if t == "warn"@ {
        Some(ChecksumPolicy::Warn)
    } else {
        None
    }
}

impl ChecksumPolicy {
    pub fn to_string(&self) -> (r: String)
        ensures
            r@ == self.rendered(),
    {
        self.to_string_for_editor()
    }
}

impl PomValue for ChecksumPolicy {
    open spec fn parses_to(text: Seq<char>, r: Result<Self, InvalidValueError>) -> bool {
        match checksum_policy_of(text) {
            Some(p) => r == Ok::<Self, InvalidValueError>(p),
            None => r matches Err(InvalidValueError::InvalidValue { expected, found }) && found@ == text
                && expected@ == "ignore, fail, or warn"@,
        }
    }

    open spec fn rendered(&self) -> Seq<char> {
        match self {
            ChecksumPolicy::Ignore => "ignore"@,
            ChecksumPolicy::Fail => "fail"@,
            ChecksumPolicy::Warn => "warn"@,
        }
    }

    fn from_str_for_editor(value: &str) -> (r: Result<Self, InvalidValueError>) {
        if str_eq(value, "ignore") {
            Ok(ChecksumPolicy::Ignore)
        } else if str_eq(value, "fail") {
            Ok(ChecksumPolicy::Fail)
        } else if str_eq(value, "warn") {
            Ok(ChecksumPolicy::Warn)
        } else {
            Err(InvalidValueError::InvalidValue { expected: "ignore, fail, or warn", found: value.to_string() })
        }
    }

    fn to_string_for_editor(&self) -> (r: String) {
        match self {
            ChecksumPolicy::Ignore => String::from_str("ignore"),
            ChecksumPolicy::Fail => String::from_str("fail"),
            ChecksumPolicy::Warn => String::from_str("warn"),
        }
    }
}

impl std::str::FromStr for ChecksumPolicy {
    type Err = InvalidValueError;

    fn from_str(s: &str) -> (r: Result<Self, Self::Err>)
        ensures
            <ChecksumPolicy as PomValue>::parses_to(s@, r),
    {
        ChecksumPolicy::from_str_for_editor(s)
    }
}

/// How a repository lays out its files.
#[derive(Debug, Clone, Copy, PartialEq, Eq)]
pub enum RepositoryLayout {
    Default,
    Legacy,
}

pub open spec fn layout_of(t: Seq<char>) -> Option<RepositoryLayout> {
    if t == "default"@ {
        Some(RepositoryLayout::Default)
    } else if t == "legacy"@ {
        Some(RepositoryLayout::Legacy)
    } else {
        None
    }
}

impl RepositoryLayout {
    pub fn to_string(&self) -> (r: String)
        ensures
            r@ == self.rendered(),
    {
        self.to_string_for_editor()
    }
}

impl PomValue for RepositoryLayout {
    open spec fn parses_to(text: Seq<char>, r: Result<Self, InvalidValueError>) -> bool {
        match layout_of(text) {
            Some(p) => r == Ok::<Self, InvalidValueError>(p),
            None => r matches Err(InvalidValueError::InvalidValue { expected, found }) && found@ == text
                && expected@ == "default or legacy"@,
        }
    }

    open spec fn rendered(&self) -> Seq<char> {
        match self {
            RepositoryLayout::Default => "default"@,
            RepositoryLayout::Legacy => "legacy"@,
        }
    }

    fn from_str_for_editor(value: &str) -> (r: Result<Self, InvalidValueError>) {
        if str_eq(value, "default") {
            Ok(RepositoryLayout::Default)
        } else if str_eq(value, "legacy") {
            Ok(RepositoryLayout::Legacy)
        } else {
            Err(InvalidValueError::InvalidValue { expected: "default or legacy", found: value.to_string() })
        }
    }

    fn to_string_for_editor(&self) -> (r: String) {
        match self {
            RepositoryLayout::Default => String::from_str("default"),
            RepositoryLayout::Legacy => String::from_str("legacy"),
        }
    }
}

impl std::str::FromStr for RepositoryLayout {
    type Err = InvalidValueError;

    fn from_str(s: &str) -> (r: Result<Self, Self::Err>)
        ensures
            <RepositoryLayout as PomValue>::parses_to(s@, r),
    {
        RepositoryLayout::from_str_for_editor(s)
    }
}

/// How often a repository is checked for updates.
#[derive(Debug, Clone, Copy, PartialEq, Eq)]
pub enum UpdatePolicy {
    Always,
    Daily,
    /// Every so many minutes.
    Interval(usize),
    Never,
}

/// What `interval:<n>` gives.
pub open spec fn interval_of(rest: Seq<char>) -> Option<UpdatePolicy> {
    match unsigned_value(rest) {
        Some(v) => if v <= usize::MAX {
            Some(UpdatePolicy::Interval(v as usize))
        } else {
            None
        },
        None => None,
    }
}

pub open spec fn is_interval(t: Seq<char>) -> bool {
    crate::types::starts_with(t, "interval:"@)
}

pub open spec fn update_policy_of(t: Seq<char>) -> Option<UpdatePolicy> {
    if t == "always"@ {
        Some(UpdatePolicy::Always)
    } else if t == "daily"@ {
        Some(UpdatePolicy::Daily)
    } else if t == "never"@ {
        Some(UpdatePolicy::Never)
    } else if is_interval(t) {
        interval_of(t.subrange(9, t.len() as int))
    } else {
        None
    }
}

impl PomValue for UpdatePolicy {
    open spec fn parses_to(text: Seq<char>, r: Result<Self, InvalidValueError>) -> bool {
        match update_policy_of(text) {
            Some(p) => r == Ok::<Self, InvalidValueError>(p),
            None => if is_interval(text) {
                r matches Err(InvalidValueError::InvalidFormattedValue { error }) && error@ == text.subrange(
                    9,
                    text.len() as int,
                )
            } else {
                r matches Err(InvalidValueError::InvalidValue { expected, found }) && found@ == text
                    && expected@ == "always, daily, never, or interval:<number>"@
            },
        }
    }

    open spec fn rendered(&self) -> Seq<char> {
        match self {
            UpdatePolicy::Always => "always"@,
            UpdatePolicy::Daily => "daily"@,
            UpdatePolicy::Interval(n) => "interval:"@ + decimal(*n as nat),
            UpdatePolicy::Never => "never"@,
        }
    }

    fn from_str_for_editor(value: &str) -> (r: Result<Self, InvalidValueError>) {
        if str_eq(value, "always") {
            Ok(UpdatePolicy::Always)
        } else if str_eq(value, "daily") {
            Ok(UpdatePolicy::Daily)
        } else if str_eq(value, "never") {
            Ok(UpdatePolicy::Never)
        } else if str_starts_with(value, "interval:") {
            proof {
                reveal_strlit("interval:");
            }
            let n = value.unicode_len();
            let interval = value.substring_char(9, n);
            match parse_usize(interval) {
                Some(v) => Ok(UpdatePolicy::Interval(v)),
                None => Err(InvalidValueError::InvalidFormattedValue { error: interval.to_string() }),
            }
        } else {
            Err(
                InvalidValueError::InvalidValue {
                    expected: "always, daily, never, or interval:<number>",
                    found: value.to_string(),
                },
            )
        }
    }

    fn to_string_for_editor(&self) -> (r: String) {
        match self {
            UpdatePolicy::Always => String::from_str("always"),
            UpdatePolicy::Daily => String::from_str("daily"),
            UpdatePolicy::Interval(n) => {
                let mut s = String::from_str("interval:");
                let digits = decimal_string(*n);
                s.append(digits.as_str());
                s
            },
            UpdatePolicy::Never => String::from_str("never"),
        }
    }
}

impl UpdatePolicy {
    pub fn to_string(&self) -> (r: String)
        ensures
            r@ == self.rendered(),
    {
        self.to_string_for_editor()
    }

    /// Reads `always`, `daily`, `never` or `interval:<minutes>`.
    pub fn parse(value: &str) -> (r: Result<Self, InvalidValueError>)
        ensures
            Self::parses_to(value@, r),
    {
        Self::from_str_for_editor(value)
    }
}

impl std::str::FromStr for UpdatePolicy {
    type Err = InvalidValueError;

    fn from_str(s: &str) -> (r: Result<Self, Self::Err>)
        ensures
            <UpdatePolicy as PomValue>::parses_to(s@, r),
    {
        UpdatePolicy::from_str_for_editor(s)
    }
}

} // verus!

verus! {

/// Rules for the release or snapshot artifacts of a repository.
#[derive(Debug, Clone, Default, PartialEq, Eq)]
pub struct SubRepositoryRules {
    pub enabled: Option<bool>,
    pub update_policy: Option<UpdatePolicy>,
    pub checksum_policy: Option<ChecksumPolicy>,
}

/// The rules held by the last child of `kids` named `tag`, if there is one.
pub open spec fn nested_result(
    m: Map<Element, NodeState>,
    kids: Seq<Element>,
    tag: Seq<char>,
    r: Result<Option<SubRepositoryRules>, XMLEditorError>,
) -> bool {
    match last_named(m, kids, tag) {
        None => r == Ok::<Option<SubRepositoryRules>, XMLEditorError>(None),
        Some(i) => exists|x: Result<SubRepositoryRules, XMLEditorError>|
            #![trigger SubRepositoryRules::decodes(m, kids[i], x)]
            SubRepositoryRules::decodes(m, kids[i], x) && match x {
                Ok(v) => r == Ok::<Option<SubRepositoryRules>, XMLEditorError>(Some(v)),
                Err(e) => r == Err::<Option<SubRepositoryRules>, XMLEditorError>(e),
            },
    }
}

/// `k` is an element named `tag` whose children are the leaves of `rules`.
pub open spec fn nested_written(m: Map<Element, NodeState>, k: Element, tag: Seq<char>, rules: SubRepositoryRules) -> bool {
    &&& m.dom().contains(k)
    &&& m[k].name == local_name(tag)
    &&& leaves_written(m, m[k].children, rules.fields())
}

impl SubRepositoryRules {
    pub open spec fn fields(&self) -> Seq<(Seq<char>, Seq<char>)> {
        optional_field("enabled"@, optional_rendered_value(self.enabled))
            + optional_field("updatePolicy"@, optional_rendered_value(self.update_policy))
            + optional_field("checksumPolicy"@, optional_rendered_value(self.checksum_policy))
    }

    /// The tags and texts of the fields that are set.
    pub fn field_pairs(&self) -> (r: Vec<(&'static str, String)>)
        ensures
            pairs_view(r@) == self.fields(),
    {
        let mut fields: Vec<(&str, String)> = Vec::new();
        if let Some(v) = self.enabled {
            fields.push(("enabled", v.to_string_for_editor()));
        }
        let ghost f1 = pairs_view(fields@);
        assert(f1 =~= optional_field("enabled"@, optional_rendered_value(self.enabled)));
        if let Some(v) = self.update_policy {
            fields.push(("updatePolicy", v.to_string_for_editor()));
        }
        let ghost f2 = pairs_view(fields@);
        assert(f2 =~= f1 + optional_field("updatePolicy"@, optional_rendered_value(self.update_policy)));
        if let Some(v) = self.checksum_policy {
            fields.push(("checksumPolicy", v.to_string_for_editor()));
        }
        assert(pairs_view(fields@) =~= f2 + optional_field("checksumPolicy"@, optional_rendered_value(self.checksum_policy)));
        fields
    }
}

impl ElementConverter for SubRepositoryRules {
    open spec fn decodes(m: Map<Element, NodeState>, e: Element, r: Result<Self, XMLEditorError>) -> bool {
        let kids = m[e].children;
        if exists|x: XMLEditorError| children_parse::<bool>(m, kids, "enabled"@, Err(x)) {
            r matches Err(err) && children_parse::<bool>(m, kids, "enabled"@, Err(err))
        } else         if exists|x: XMLEditorError| children_parse::<UpdatePolicy>(m, kids, "updatePolicy"@, Err(x)) {
            r matches Err(err) && children_parse::<UpdatePolicy>(m, kids, "updatePolicy"@, Err(err))
        } else         if exists|x: XMLEditorError| children_parse::<ChecksumPolicy>(m, kids, "checksumPolicy"@, Err(x)) {
            r matches Err(err) && children_parse::<ChecksumPolicy>(m, kids, "checksumPolicy"@, Err(err))
        } else {
            exists|re: Result<Option<bool>, XMLEditorError>, ru: Result<Option<UpdatePolicy>, XMLEditorError>,
                rc: Result<Option<ChecksumPolicy>, XMLEditorError>|
                #![trigger typed_result(last_text(m, kids, "enabled"@), re), typed_result(last_text(m, kids, "updatePolicy"@), ru), typed_result(last_text(m, kids, "checksumPolicy"@), rc)]
                typed_result(last_text(m, kids, "enabled"@), re) && typed_result(last_text(m, kids, "updatePolicy"@), ru)
                    && typed_result(last_text(m, kids, "checksumPolicy"@), rc) && match (re, ru, rc) {
                    (Err(x), _, _) => r == Err::<Self, XMLEditorError>(x),
                    (Ok(_), Err(x), _) => r == Err::<Self, XMLEditorError>(x),
                    (Ok(_), Ok(_), Err(x)) => r == Err::<Self, XMLEditorError>(x),
                    (Ok(a), Ok(b), Ok(c)) => r == Ok::<Self, XMLEditorError>(
                        SubRepositoryRules { enabled: a, update_policy: b, checksum_policy: c },
                    ),
                }
        }
    }

    open spec fn written_as(&self, m: Map<Element, NodeState>, kids: Seq<Element>) -> bool {
        leaves_written(m, kids, self.fields())
    }

    proof fn lemma_written_as_frame(
        &self,
        a: Map<Element, NodeState>,
        b: Map<Element, NodeState>,
        kids: Seq<Element>,
        changed: Set<Element>,
    ) {
        assert forall|i: int| 0 <= i < kids.len() implies text_leaf(b, #[trigger] kids[i], self.fields()[i].0, self.fields()[i].1) by {
            assert(!changed.contains(kids[i]));
        }
    }

    fn from_element(element: Element, document: &Document) -> (r: Result<Self, XMLEditorError>) {
        match validate_children::<bool>(element, "enabled", document) {
            Ok(()) => {},
            Err(e) => return Err(e),
        }
        match validate_children::<UpdatePolicy>(element, "updatePolicy", document) {
            Ok(()) => {},
            Err(e) => return Err(e),
        }
        match validate_children::<ChecksumPolicy>(element, "checksumPolicy", document) {
            Ok(()) => {},
            Err(e) => return Err(e),
        }
        let tags = vec!["enabled", "updatePolicy", "checksumPolicy"];
        let mut vals = last_texts(element, &tags, document);
        let checksum_policy = take_last(&mut vals);
        let update_policy = take_last(&mut vals);
        let enabled = take_last(&mut vals);
        proof {
            assert(tags[0]@ == "enabled"@);
            assert(tags[1]@ == "updatePolicy"@);
            assert(tags[2]@ == "checksumPolicy"@);
        }
        let re = read_typed::<bool>(enabled);
        let ru = read_typed::<UpdatePolicy>(update_policy);
        let rc = read_typed::<ChecksumPolicy>(checksum_policy);
        let ghost (gre, gru, grc) = (re, ru, rc);
        let enabled = match re {
            Ok(v) => v,
            Err(e) => return Err(e),
        };
        let update_policy = match ru {
            Ok(v) => v,
            Err(e) => return Err(e),
        };
        let checksum_policy = match rc {
            Ok(v) => v,
            Err(e) => return Err(e),
        };
        Ok(SubRepositoryRules { enabled, update_policy, checksum_policy })
    }

    fn into_children(self, document: &mut Document) -> (r: Result<Vec<Element>, XMLEditorError>) {
        let fields = self.field_pairs();
        Ok(create_text_elements(document, fields))
    }
}

} // verus!

verus! {

/// A remote repository that artifacts are fetched from.
#[derive(Debug, Clone, Default, PartialEq, Eq)]
pub struct Repository {
    pub id: Option<String>,
    pub name: Option<String>,
    pub url: String,
    pub layout: Option<String>,
    pub update_policy: Option<UpdatePolicy>,
    pub checksum_policy: Option<ChecksumPolicy>,
    pub releases: Option<SubRepositoryRules>,
    pub snapshots: Option<SubRepositoryRules>,
}

impl Repository {
    /// The fields written as leaves, before the release and snapshot rules.
    pub open spec fn fields(&self) -> Seq<(Seq<char>, Seq<char>)> {
        optional_field("id"@, optional_view(self.id)) + optional_field("name"@, optional_view(self.name))
            + seq![("url"@, self.url@)] + optional_field("layout"@, optional_view(self.layout))
            + optional_field("updatePolicy"@, optional_rendered_value(self.update_policy))
            + optional_field("checksumPolicy"@, optional_rendered_value(self.checksum_policy))
    }

    pub open spec fn nested_count(&self) -> int {
        (if self.releases is Some { 1int } else { 0int }) + (if self.snapshots is Some { 1int } else { 0int })
    }
}

/// A repository is the same as another when it has a name and the other has the same one.
pub open spec fn same_named(a: Option<String>, b: Option<String>) -> bool {
    a is Some && optional_view(a) == optional_view(b)
}

pub fn is_same_named(a: &Option<String>, b: &Option<String>) -> (r: bool)
    ensures
        r == same_named(*a, *b),
{
    match (a, b) {
        (Some(x), Some(y)) => str_eq(x.as_str(), y.as_str()),
        _ => false,
    }
}

impl HasElementName for Repository {
    open spec fn tag() -> Seq<char> {
        "repository"@
    }

    fn element_name() -> (r: &'static str) {
        "repository"
    }
}

impl ChildOfListElement for Repository {
    open spec fn container_tag() -> Seq<char> {
        "repositories"@
    }

    fn parent_element_name() -> (r: &'static str) {
        "repositories"
    }
}

impl ComparableElement for Repository {
    open spec fn same_item(&self, other: &Self) -> bool {
        same_named(self.name, other.name)
    }

    fn is_same_item(&self, other: &Self) -> (r: bool) {
        is_same_named(&self.name, &other.name)
    }
}

impl ElementConverter for Repository {
    open spec fn decodes(m: Map<Element, NodeState>, e: Element, r: Result<Self, XMLEditorError>) -> bool {
        let kids = m[e].children;
        if exists|x: XMLEditorError| children_parse::<UpdatePolicy>(m, kids, "updatePolicy"@, Err(x)) {
            r matches Err(err) && children_parse::<UpdatePolicy>(m, kids, "updatePolicy"@, Err(err))
        } else         if exists|x: XMLEditorError| children_parse::<ChecksumPolicy>(m, kids, "checksumPolicy"@, Err(x)) {
            r matches Err(err) && children_parse::<ChecksumPolicy>(m, kids, "checksumPolicy"@, Err(err))
        } else         if exists|x: XMLEditorError| children_decode::<SubRepositoryRules>(m, kids, "releases"@, Err(x)) {
            r matches Err(err) && children_decode::<SubRepositoryRules>(m, kids, "releases"@, Err(err))
        } else         if exists|x: XMLEditorError| children_decode::<SubRepositoryRules>(m, kids, "snapshots"@, Err(x)) {
            r matches Err(err) && children_decode::<SubRepositoryRules>(m, kids, "snapshots"@, Err(err))
        } else {
            exists|ru: Result<Option<UpdatePolicy>, XMLEditorError>, rc: Result<Option<ChecksumPolicy>, XMLEditorError>,
                rr: Result<Option<SubRepositoryRules>, XMLEditorError>, rs: Result<Option<SubRepositoryRules>, XMLEditorError>|
                #![trigger typed_result(last_text(m, kids, "updatePolicy"@), ru), typed_result(last_text(m, kids, "checksumPolicy"@), rc), nested_result(m, kids, "releases"@, rr), nested_result(m, kids, "snapshots"@, rs)]
                typed_result(last_text(m, kids, "updatePolicy"@), ru) && typed_result(last_text(m, kids, "checksumPolicy"@), rc)
                    && nested_result(m, kids, "releases"@, rr) && nested_result(m, kids, "snapshots"@, rs)
                    && match (ru, rc, rr, rs) {
                    (Err(x), _, _, _) => r == Err::<Self, XMLEditorError>(x),
                    (Ok(_), Err(x), _, _) => r == Err::<Self, XMLEditorError>(x),
                    (Ok(_), Ok(_), Err(x), _) => r == Err::<Self, XMLEditorError>(x),
                    (Ok(_), Ok(_), Ok(_), Err(x)) => r == Err::<Self, XMLEditorError>(x),
                    (Ok(u), Ok(c), Ok(rel), Ok(snap)) => if last_text(m, kids, "url"@) is None {
                        r matches Err(err) && is_missing(err, "url"@)
                    } else {
                        r matches Ok(d) && {
                            &&& optional_view(d.id) == last_text(m, kids, "id"@)
                            &&& optional_view(d.name) == last_text(m, kids, "name"@)
                            &&& d.url@ == last_text(m, kids, "url"@)->0
                            &&& optional_view(d.layout) == last_text(m, kids, "layout"@)
                            &&& d.update_policy == u
                            &&& d.checksum_policy == c
                            &&& d.releases == rel
                            &&& d.snapshots == snap
                        }
                    },
                }
        }
    }

    open spec fn written_as(&self, m: Map<Element, NodeState>, kids: Seq<Element>) -> bool {
        let n = self.fields().len() as int;
        &&& kids.len() == n + self.nested_count()
        &&& leaves_written(m, kids.take(n), self.fields())
        &&& (self.releases matches Some(rel) ==> nested_written(m, kids[n], "releases"@, rel))
        &&& (self.snapshots matches Some(snap) ==> nested_written(
            m,
            kids[n + if self.releases is Some { 1int } else { 0int }],
            "snapshots"@,
            snap,
        ))
    }

    proof fn lemma_written_as_frame(
        &self,
        a: Map<Element, NodeState>,
        b: Map<Element, NodeState>,
        kids: Seq<Element>,
        changed: Set<Element>,
    ) {
        let n = self.fields().len() as int;
        assert forall|i: int| 0 <= i < n implies text_leaf(b, #[trigger] kids.take(n)[i], self.fields()[i].0, self.fields()[i].1) by {
            assert(kids.take(n)[i] == kids[i]);
            assert(!changed.contains(kids[i]));
        }
        if let Some(rel) = self.releases {
            let k = kids[n];
            assert(!changed.contains(k));
            assert forall|j: int| 0 <= j < b[k].children.len() implies text_leaf(b, #[trigger] b[k].children[j], rel.fields()[j].0, rel.fields()[j].1) by {
                assert(a[k].children[j] == b[k].children[j]);
                assert(!changed.contains(a[kids[n]].children[j]));
            }
        }
        if let Some(snap) = self.snapshots {
            let p = n + if self.releases is Some { 1int } else { 0int };
            let k = kids[p];
            assert(!changed.contains(k));
            assert forall|j: int| 0 <= j < b[k].children.len() implies text_leaf(b, #[trigger] b[k].children[j], snap.fields()[j].0, snap.fields()[j].1) by {
                assert(a[k].children[j] == b[k].children[j]);
                assert(!changed.contains(a[kids[p]].children[j]));
            }
        }
    }

    fn from_element(element: Element, document: &Document) -> (r: Result<Self, XMLEditorError>) {
        match validate_children::<UpdatePolicy>(element, "updatePolicy", document) {
            Ok(()) => {},
            Err(e) => return Err(e),
        }
        match validate_children::<ChecksumPolicy>(element, "checksumPolicy", document) {
            Ok(()) => {},
            Err(e) => return Err(e),
        }
        match validate_child_elements::<SubRepositoryRules>(element, "releases", document) {
            Ok(()) => {},
            Err(e) => return Err(e),
        }
        match validate_child_elements::<SubRepositoryRules>(element, "snapshots", document) {
            Ok(()) => {},
            Err(e) => return Err(e),
        }
        let tags = vec!["id", "name", "url", "layout", "updatePolicy", "checksumPolicy"];
        let mut vals = last_texts(element, &tags, document);
        let checksum_policy = take_last(&mut vals);
        let update_policy = take_last(&mut vals);
        let layout = take_last(&mut vals);
        let url = take_last(&mut vals);
        let name = take_last(&mut vals);
        let id = take_last(&mut vals);
        proof {
            assert(tags[0]@ == "id"@);
            assert(tags[1]@ == "name"@);
            assert(tags[2]@ == "url"@);
            assert(tags[3]@ == "layout"@);
            assert(tags[4]@ == "updatePolicy"@);
            assert(tags[5]@ == "checksumPolicy"@);
        }
        let ru = read_typed::<UpdatePolicy>(update_policy);
        let rc = read_typed::<ChecksumPolicy>(checksum_policy);
        let rr = read_rules(element, "releases", document);
        let rs = read_rules(element, "snapshots", document);
        let ghost (gru, grc, grr, grs) = (ru, rc, rr, rs);
        let update_policy = match ru {
            Ok(v) => v,
            Err(e) => return Err(e),
        };
        let checksum_policy = match rc {
            Ok(v) => v,
            Err(e) => return Err(e),
        };
        let releases = match rr {
            Ok(v) => v,
            Err(e) => return Err(e),
        };
        let snapshots = match rs {
            Ok(v) => v,
            Err(e) => return Err(e),
        };
        let url = match url {
            Some(u) => u,
            None => return Err(XMLEditorError::MissingElement(MissingElementError("url"))),
        };
        Ok(Repository { id, name, url, layout, update_policy, checksum_policy, releases, snapshots })
    }

    fn into_children(self, document: &mut Document) -> (r: Result<Vec<Element>, XMLEditorError>) {
        let ghost me = self;
        let ghost a = nodes(*document);
        let fields = self.field_pairs();
        let mut children = create_text_elements(document, fields);
        let ghost n = children.len() as int;
        let ghost m1 = nodes(*document);
        let ghost c1 = children@;
        assert(forall|j: int| 0 <= j < c1.len() ==> m1.dom().contains(#[trigger] c1[j]));
        if let Some(releases) = &self.releases {
            push_rules_element(document, &mut children, "releases", releases);
            assert(forall|j: int| 0 <= j < c1.len() ==> children@[j] == c1[j]);
        }
        let ghost m2 = nodes(*document);
        let ghost c2 = children@;
        assert(forall|j: int| 0 <= j < c1.len() ==> c2[j] == c1[j]);
        assert(forall|j: int| 0 <= j < c2.len() ==> m2.dom().contains(#[trigger] c2[j]));
        if let Some(snapshots) = &self.snapshots {
            push_rules_element(document, &mut children, "snapshots", snapshots);
        }
        proof {
            let b = nodes(*document);
            assert(forall|j: int| 0 <= j < c2.len() ==> children@[j] == c2[j]);
            assert(children@.take(n) =~= c2.take(n));
            assert forall|i: int| 0 <= i < n implies text_leaf(b, #[trigger] children@.take(n)[i], me.fields()[i].0, me.fields()[i].1) by {
                assert(children@[i] == c2[i]);
                assert(c2[i] == c1[i]);
                assert(m1.dom().contains(c1[i]));
                assert(b[children@[i]] == m1[children@[i]]);
            }
            if let Some(rel) = me.releases {
                let k = children@[n];
                assert(k == c2[n]);
                assert(m2.dom().contains(k));
                assert(b[k] == m2[k]);
                assert forall|j: int| 0 <= j < b[k].children.len() implies text_leaf(b, #[trigger] b[k].children[j], rel.fields()[j].0, rel.fields()[j].1) by {
                    assert(text_leaf(m2, m2[k].children[j], rel.fields()[j].0, rel.fields()[j].1));
                    assert(m2.dom().contains(m2[k].children[j]));
                    assert(b[m2[k].children[j]] == m2[m2[k].children[j]]);
                }
            }
            assert forall|i: int| 0 <= i < children.len() implies {
                &&& !a.dom().contains(#[trigger] children@[i])
                &&& b.dom().contains(children@[i])
                &&& b[children@[i]].parent is None
            } by {
                if i < n {
                    assert(children@[i] == c2[i]);
                    assert(c2[i] == c1[i]);
                    assert(m1.dom().contains(c1[i]));
                    assert(b[children@[i]] == m1[children@[i]]);
                } else if i < c2.len() {
                    assert(m2.dom().contains(children@[i]));
                    assert(b[children@[i]] == m2[children@[i]]);
                }
            }
            assert forall|i: int, j: int| 0 <= i < j < children.len() implies children@[i] != children@[j] by {
                if j < n {
                    assert(children@[i] == c1[i]);
                    assert(children@[j] == c1[j]);
                } else if j < c2.len() {
                    assert(children@[j] == c2[j]);
                    assert(children@[i] == c2[i]);
                    assert(m1.dom().contains(c2[i])) by {
                        assert(c2[i] == c1[i]);
                    }
                } else {
                    assert(m2.dom().contains(c2[i]));
                    assert(children@[i] == c2[i]);
                }
            }
            assert(extends(a, b));
            assert(me.written_as(b, children@));
        }
        Ok(children)
    }
}

impl Repository {
    /// The tags and texts of the leaves, in canonical order.
    pub fn field_pairs(&self) -> (r: Vec<(&'static str, String)>)
        ensures
            pairs_view(r@) == self.fields(),
    {
        let mut fields: Vec<(&str, String)> = Vec::new();
        if let Some(v) = &self.id {
            fields.push(("id", v.clone()));
        }
        let ghost f1 = pairs_view(fields@);
        assert(f1 =~= optional_field("id"@, optional_view(self.id)));
        if let Some(v) = &self.name {
            fields.push(("name", v.clone()));
        }
        let ghost f2 = pairs_view(fields@);
        assert(f2 =~= f1 + optional_field("name"@, optional_view(self.name)));
        fields.push(("url", self.url.clone()));
        let ghost f3 = pairs_view(fields@);
        assert(f3 =~= f2 + seq![("url"@, self.url@)]);
        if let Some(v) = &self.layout {
            fields.push(("layout", v.clone()));
        }
        let ghost f4 = pairs_view(fields@);
        assert(f4 =~= f3 + optional_field("layout"@, optional_view(self.layout)));
        if let Some(v) = self.update_policy {
            fields.push(("updatePolicy", v.to_string_for_editor()));
        }
        let ghost f5 = pairs_view(fields@);
        assert(f5 =~= f4 + optional_field("updatePolicy"@, optional_rendered_value(self.update_policy)));
        if let Some(v) = self.checksum_policy {
            fields.push(("checksumPolicy", v.to_string_for_editor()));
        }
        assert(pairs_view(fields@) =~= f5 + optional_field("checksumPolicy"@, optional_rendered_value(self.checksum_policy)));
        fields
    }
}

/// Appends to `children` a new element named `tag` holding the leaves of `rules`.
fn push_rules_element(document: &mut Document, children: &mut Vec<Element>, tag: &str, rules: &SubRepositoryRules)
    requires
        well_formed(*old(document)),
        forall|j: int| 0 <= j < old(children).len() ==> nodes(*old(document)).dom().contains(#[trigger] old(children)@[j]),
    ensures
        well_formed(*final(document)),
        holder(*final(document)) == holder(*old(document)),
        extends(nodes(*old(document)), nodes(*final(document))),
        final(children)@.len() == old(children)@.len() + 1,
        final(children)@.drop_last() == old(children)@,
        !nodes(*old(document)).dom().contains(final(children)@.last()),
        nodes(*final(document))[final(children)@.last()].parent is None,
        nested_written(nodes(*final(document)), final(children)@.last(), tag@, *rules),
        forall|j: int| 0 <= j < nodes(*final(document))[final(children)@.last()].children.len()
            ==> !nodes(*old(document)).dom().contains(#[trigger] nodes(*final(document))[final(children)@.last()].children[j]),
{
    let e = create_element_of_leaves(document, tag, rules.field_pairs());
    children.push(e);
    assert(children@.drop_last() =~= old(children)@);
}

/// The rules held by the last child of `element` named `tag`, if there is one.
pub fn read_rules(element: Element, tag: &str, document: &Document) -> (r: Result<Option<SubRepositoryRules>, XMLEditorError>)
    requires
        well_formed(*document),
        nodes(*document).dom().contains(element),
    ensures
        nested_result(nodes(*document), nodes(*document)[element].children, tag@, r),
{
    match find_last_element(element, tag, document) {
        None => Ok(None),
        Some(k) => {
            proof {
                crate::editor::utils::lemma_last_named(nodes(*document), nodes(*document)[element].children, tag@);
                let i = last_named(nodes(*document), nodes(*document)[element].children, tag@)->0;
                assert(nodes(*document).dom().contains(nodes(*document)[element].children[i]));
            }
            let x = SubRepositoryRules::from_element(k, document);
            let ghost xg = x;
            match x {
                Ok(v) => Ok(Some(v)),
                Err(e) => Err(e),
            }
        },
    }
}

impl UpdatableElement for Repository {
    /// Every managed field is written, or removed when absent; other children stay.
    open spec fn updates(&self, a: Map<Element, NodeState>, b: Map<Element, NodeState>, e: Element) -> bool {
        exists|m6: Map<Element, NodeState>, m7: Map<Element, NodeState>|
            repository_fields_synced(a, m6, e, self.id, self.name, self.url@, self.layout, self.update_policy, self.checksum_policy)
                && rules_synced(m6, m7, e, "releases"@, self.releases)
                && rules_synced(m7, b, e, "snapshots"@, self.snapshots)
    }

    fn update_element(&self, element: Element, document: &mut Document) -> (r: Result<(), XMLEditorError>) {
        proof {
            reveal_strlit("releases");
            reveal_strlit("snapshots");
            dom::lemma_plain_name("releases"@);
            dom::lemma_plain_name("snapshots"@);
        }
        let ghost m0 = nodes(*document);
        update_repository_fields(
            document,
            element,
            &self.id,
            &self.name,
            &self.url,
            &self.layout,
            &self.update_policy,
            &self.checksum_policy,
        );
        let ghost m6 = nodes(*document);
        sync_rules(document, element, "releases", &self.releases);
        let ghost m7 = nodes(*document);
        sync_rules(document, element, "snapshots", &self.snapshots);
        proof {
            let b = nodes(*document);
            lemma_rules_facts(m7, b, element, "snapshots"@, self.snapshots);
            lemma_rules_facts(m6, m7, element, "releases"@, self.releases);
            lemma_outside_then(m6, m7, b, element);
            lemma_outside_then(m0, m6, b, element);
        }
        Ok(())
    }
}

/// What a rules step keeps.
pub proof fn lemma_rules_facts(
    a: Map<Element, NodeState>,
    b: Map<Element, NodeState>,
    parent: Element,
    tag: Seq<char>,
    rules: Option<SubRepositoryRules>,
)
    requires
        rules_synced(a, b, parent, tag, rules),
        a.dom().contains(parent),
    ensures
        a.dom().subset_of(b.dom()),
        unchanged_outside(a, b, parent),
        forall|x: Element| a.dom().contains(x) && b[parent].children.contains(x) ==> a[parent].children.contains(x),
        b[parent].parent == a[parent].parent,
        b[parent].name == a[parent].name,
{
    if rules is None {
        lemma_synced_facts(a, b, parent, tag, None);
    }
}

} // verus!

verus! {

use crate::editor::dom::{is_element_of, is_ancestor};
use crate::editor::utils::{find_element, first_child, unchanged_outside, lemma_outside_then, lemma_synced_facts, replace_all_elements};
use crate::pom::{DistributionRepository};

/// How `b` follows from `a` when the child of `parent` named `tag` is made to hold `rules`:
/// written into the first such child, appended when there is none, removed when `rules` is `None`.
pub open spec fn rules_synced(
    a: Map<Element, NodeState>,
    b: Map<Element, NodeState>,
    parent: Element,
    tag: Seq<char>,
    rules: Option<SubRepositoryRules>,
) -> bool {
    match rules {
        None => synced(a, b, parent, tag, None),
        Some(r) => {
            &&& a.dom().subset_of(b.dom())
            &&& b[parent].parent == a[parent].parent
            &&& b[parent].name == a[parent].name
            &&& unchanged_outside(a, b, parent)
            &&& forall|x: Element| a.dom().contains(x) && b[parent].children.contains(x) ==> a[parent].children.contains(x)
            &&& forall|x: Element|
                #![trigger b[x]]
                a.dom().contains(x) && a[parent].children.contains(x) && first_child(a, parent, tag) != Some(x) ==> {
                    &&& b[parent].children.contains(x)
                    &&& b[x].name == a[x].name
                    &&& b[x].children == a[x].children
                }
            &&& match first_child(a, parent, tag) {
                Some(k) => b[parent].children == a[parent].children && nested_written(b, k, tag, r),
                None => {
                    &&& b[parent].children.len() == a[parent].children.len() + 1
                    &&& b[parent].children.drop_last() == a[parent].children
                    &&& !a.dom().contains(b[parent].children.last())
                    &&& nested_written(b, b[parent].children.last(), tag, r)
                },
            }
        },
    }
}

impl SubRepositoryRules {
    pub fn copy_rules(&self) -> (r: SubRepositoryRules)
        ensures
            r == *self,
    {
        SubRepositoryRules { enabled: self.enabled, update_policy: self.update_policy, checksum_policy: self.checksum_policy }
    }
}

/// The text of an optional value as it is written.
pub fn render_option<V: PomValue>(o: &Option<V>) -> (r: Option<String>)
    ensures
        optional_view(r) == optional_rendered_value(*o),
{
    match o {
        Some(v) => Some(v.to_string_for_editor()),
        None => None,
    }
}

/// Makes the first child of `parent` named `tag` hold `rules`, or removes every such child.
pub fn sync_rules(document: &mut Document, parent: Element, tag: &str, rules: &Option<SubRepositoryRules>)
    requires
        well_formed(*old(document)),
        is_element_of(*old(document), parent),
        tag@ == local_name(tag@),
    ensures
        well_formed(*final(document)),
        holder(*final(document)) == holder(*old(document)),
        rules_synced(nodes(*old(document)), nodes(*final(document)), parent, tag@, *rules),
{
    let ghost a = nodes(*document);
    match rules {
        None => sync_element(document, parent, tag, None),
        Some(r) => {
            let found = find_element(parent, tag, document);
            proof {
                crate::editor::utils::lemma_first_named(a, a[parent].children, tag@);
            }
            match found {
                Some(k) => {
                    proof {
                        let i = crate::editor::utils::first_named(a, a[parent].children, tag@)->0;
                        assert(a[parent].children[i] == k);
                        assert(a.dom().contains(k));
                        assert(a[k].parent == Some(parent));
                        assert(k != parent);
                        assert(!a[k].children.contains(parent)) by {
                            if a[k].children.contains(parent) {
                                let j = choose|j: int| 0 <= j < a[k].children.len() && a[k].children[j] == parent;
                                assert(a[a[k].children[j]].parent == Some(k));
                            }
                        }
                    }
                    let _ = replace_all_elements(r.copy_rules(), k, document);
                    proof {
                        let b = nodes(*document);
                        assert(b[parent].children == a[parent].children);
                        assert(first_child(a, parent, tag@) == Some(k));
                        assert(nested_written(b, k, tag@, *r));
                    }
                },
                None => {
                    let e = create_element_of_leaves(document, tag, r.field_pairs());
                    let ghost m1 = nodes(*document);
                    proof {
                        crate::editor::dom::lemma_fresh_not_ancestor(a, m1, e, parent);
                    }
                    let _ = dom::push_child(document, parent, e);
                    proof {
                        let b = nodes(*document);
                        assert(b[parent].children.drop_last() =~= a[parent].children);
                        assert forall|x: Element| #![trigger b[x]]
                            a.dom().contains(x) && a[parent].children.contains(x) && first_child(a, parent, tag@) != Some(x) implies {
                                &&& b[parent].children.contains(x)
                                &&& b[x].name == a[x].name
                                &&& b[x].children == a[x].children
                            } by {
                            let j = choose|j: int| 0 <= j < a[parent].children.len() && a[parent].children[j] == x;
                            assert(b[parent].children[j] == x);
                            assert(m1[x] == a[x]);
                            assert(x != e);
                            assert(x != parent) by {
                                if x == parent {
                                    assert(a[a[parent].children[j]].parent == Some(parent));
                                }
                            }
                        }
                        assert forall|j: int| 0 <= j < b[e].children.len() implies text_leaf(b, #[trigger] b[e].children[j], r.fields()[j].0, r.fields()[j].1) by {
                            assert(text_leaf(m1, m1[e].children[j], r.fields()[j].0, r.fields()[j].1));
                            assert(m1[e].children[j] != parent);
                        }
                        assert forall|x: Element| a.dom().contains(x) && b[parent].children.contains(x) implies a[parent].children.contains(x) by {
                            let j = choose|j: int| 0 <= j < b[parent].children.len() && b[parent].children[j] == x;
                            if j < a[parent].children.len() {
                                assert(b[parent].children.drop_last()[j] == x);
                            }
                        }
                        assert forall|x: Element| #![trigger b[x]]
                            a.dom().contains(x) && x != parent && !a[parent].children.contains(x) implies {
                                &&& b[x].name == a[x].name
                                &&& b[x].children == a[x].children
                                &&& (a[x].children.len() == 0 ==> b[x].text == a[x].text)
                            } by {
                            assert(m1[x] == a[x]);
                        }
                    }
                },
            }
        },
    }
}

/// What an update of a repository element does: each managed field is written or removed.
pub open spec fn repository_fields_synced(
    a: Map<Element, NodeState>,
    b: Map<Element, NodeState>,
    e: Element,
    id: Option<String>,
    name: Option<String>,
    url: Seq<char>,
    layout: Option<String>,
    update_policy: Option<UpdatePolicy>,
    checksum_policy: Option<ChecksumPolicy>,
) -> bool {
    exists|m1: Map<Element, NodeState>, m2: Map<Element, NodeState>, m3: Map<Element, NodeState>, m4: Map<Element, NodeState>, m5: Map<Element, NodeState>|
        synced(a, m1, e, "id"@, optional_view(id)) && synced(m1, m2, e, "name"@, optional_view(name))
            && synced(m2, m3, e, "url"@, Some(url)) && synced(m3, m4, e, "layout"@, optional_view(layout))
            && synced(m4, m5, e, "updatePolicy"@, optional_rendered_value(update_policy))
            && synced(m5, b, e, "checksumPolicy"@, optional_rendered_value(checksum_policy))
}

/// Writes or removes the fields that repositories and distribution repositories share.
pub fn update_repository_fields(
    document: &mut Document,
    element: Element,
    id: &Option<String>,
    name: &Option<String>,
    url: &String,
    layout: &Option<String>,
    update_policy: &Option<UpdatePolicy>,
    checksum_policy: &Option<ChecksumPolicy>,
)
    requires
        well_formed(*old(document)),
        is_element_of(*old(document), element),
    ensures
        well_formed(*final(document)),
        holder(*final(document)) == holder(*old(document)),
        nodes(*old(document)).dom().subset_of(nodes(*final(document)).dom()),
        nodes(*final(document))[element].parent == nodes(*old(document))[element].parent,
        nodes(*final(document))[element].name == nodes(*old(document))[element].name,
        unchanged_outside(nodes(*old(document)), nodes(*final(document)), element),
        forall|x: Element|
            nodes(*old(document)).dom().contains(x) && nodes(*final(document))[element].children.contains(x)
                ==> nodes(*old(document))[element].children.contains(x),
        repository_fields_synced(nodes(*old(document)), nodes(*final(document)), element, *id, *name, url@, *layout, *update_policy, *checksum_policy),
{
    proof {
        reveal_strlit("id");
        reveal_strlit("name");
        reveal_strlit("url");
        reveal_strlit("layout");
        reveal_strlit("updatePolicy");
        reveal_strlit("checksumPolicy");
        dom::lemma_plain_name("id"@);
        dom::lemma_plain_name("name"@);
        dom::lemma_plain_name("url"@);
        dom::lemma_plain_name("layout"@);
        dom::lemma_plain_name("updatePolicy"@);
        dom::lemma_plain_name("checksumPolicy"@);
    }
    let ghost m0 = nodes(*document);
    sync_element(document, element, "id", as_str_option(id));
    let ghost m1 = nodes(*document);
    sync_element(document, element, "name", as_str_option(name));
    let ghost m2 = nodes(*document);
    find_or_create_then_set_text_content(document, element, "url", url.as_str());
    let ghost m3 = nodes(*document);
    sync_element(document, element, "layout", as_str_option(layout));
    let ghost m4 = nodes(*document);
    let up = render_option(update_policy);
    sync_element(document, element, "updatePolicy", as_str_option(&up));
    let ghost m5 = nodes(*document);
    let cp = render_option(checksum_policy);
    sync_element(document, element, "checksumPolicy", as_str_option(&cp));
    proof {
        let b = nodes(*document);
        lemma_synced_facts(m5, b, element, "checksumPolicy"@, optional_rendered_value(*checksum_policy));
        lemma_synced_facts(m4, m5, element, "updatePolicy"@, optional_rendered_value(*update_policy));
        lemma_synced_facts(m3, m4, element, "layout"@, optional_view(*layout));
        lemma_synced_facts(m2, m3, element, "url"@, Some(url@));
        lemma_synced_facts(m1, m2, element, "name"@, optional_view(*name));
        lemma_synced_facts(m0, m1, element, "id"@, optional_view(*id));
        lemma_outside_then(m4, m5, b, element);
        lemma_outside_then(m3, m4, b, element);
        lemma_outside_then(m2, m3, b, element);
        lemma_outside_then(m1, m2, b, element);
        lemma_outside_then(m0, m1, b, element);
        assert(repository_fields_synced(m0, b, element, *id, *name, url@, *layout, *update_policy, *checksum_policy));
    }
}

} // verus!

verus! {

/// Writing the shared repository fields keeps every child of another tag, with its own children.
pub proof fn lemma_fields_keep_unmodelled_children(
    a: Map<Element, NodeState>,
    b: Map<Element, NodeState>,
    e: Element,
    id: Option<String>,
    name: Option<String>,
    url: Seq<char>,
    layout: Option<String>,
    update_policy: Option<UpdatePolicy>,
    checksum_policy: Option<ChecksumPolicy>,
    x: Element,
)
    requires
        repository_fields_synced(a, b, e, id, name, url, layout, update_policy, checksum_policy),
        a.dom().contains(x),
        a[e].children.contains(x),
        a[x].name != "id"@ && a[x].name != "name"@ && a[x].name != "url"@ && a[x].name != "layout"@ && a[x].name != "updatePolicy"@ && a[x].name != "checksumPolicy"@,
    ensures
        b.dom().contains(x),
        b[e].children.contains(x),
        b[x].name == a[x].name,
        b[x].children == a[x].children,
{
    let (m1, m2, m3, m4, m5) = choose|m1: Map<Element, NodeState>, m2: Map<Element, NodeState>, m3: Map<Element, NodeState>, m4: Map<Element, NodeState>, m5: Map<Element, NodeState>|
        synced(a, m1, e, "id"@, optional_view(id)) && synced(m1, m2, e, "name"@, optional_view(name)) && synced(m2, m3, e, "url"@, Some(url)) && synced(m3, m4, e, "layout"@, optional_view(layout)) && synced(m4, m5, e, "updatePolicy"@, optional_rendered_value(update_policy)) && synced(m5, b, e, "checksumPolicy"@, optional_rendered_value(checksum_policy));
    crate::editor::utils::lemma_synced_keeps_other_child(a, m1, e, "id"@, optional_view(id), x);
    crate::editor::utils::lemma_synced_keeps_other_child(m1, m2, e, "name"@, optional_view(name), x);
    crate::editor::utils::lemma_synced_keeps_other_child(m2, m3, e, "url"@, Some(url), x);
    crate::editor::utils::lemma_synced_keeps_other_child(m3, m4, e, "layout"@, optional_view(layout), x);
    crate::editor::utils::lemma_synced_keeps_other_child(m4, m5, e, "updatePolicy"@, optional_rendered_value(update_policy), x);
    crate::editor::utils::lemma_synced_keeps_other_child(m5, b, e, "checksumPolicy"@, optional_rendered_value(checksum_policy), x);
}

proof fn lemma_rules_keep_other_child(
    a: Map<Element, NodeState>,
    b: Map<Element, NodeState>,
    e: Element,
    tag: Seq<char>,
    rules: Option<SubRepositoryRules>,
    x: Element,
)
    requires
        rules_synced(a, b, e, tag, rules),
        a.dom().contains(x),
        a[e].children.contains(x),
        a[x].name != tag,
    ensures
        b.dom().contains(x),
        b[e].children.contains(x),
        b[x].name == a[x].name,
        b[x].children == a[x].children,
{
    if rules is None {
        crate::editor::utils::lemma_synced_keeps_other_child(a, b, e, tag, None, x);
    } else {
        crate::editor::utils::lemma_first_named(a, a[e].children, tag);
    }
}

/// Updating a repository keeps every child of a tag it does not manage, with its own children.
pub proof fn lemma_repository_update_keeps_unmodelled_children(item: Repository, a: Map<Element, NodeState>, b: Map<Element, NodeState>, e: Element, x: Element)
    requires
        item.updates(a, b, e),
        a.dom().contains(x),
        a[e].children.contains(x),
        a[x].name != "id"@ && a[x].name != "name"@ && a[x].name != "url"@ && a[x].name != "layout"@ && a[x].name != "updatePolicy"@ && a[x].name != "checksumPolicy"@ && a[x].name != "releases"@ && a[x].name != "snapshots"@,
    ensures
        b[e].children.contains(x),
        b[x].name == a[x].name,
        b[x].children == a[x].children,
{
    let (m6, m7) = choose|m6: Map<Element, NodeState>, m7: Map<Element, NodeState>|
        repository_fields_synced(a, m6, e, item.id, item.name, item.url@, item.layout, item.update_policy, item.checksum_policy)
            && rules_synced(m6, m7, e, "releases"@, item.releases)
            && rules_synced(m7, b, e, "snapshots"@, item.snapshots);
    lemma_fields_keep_unmodelled_children(a, m6, e, item.id, item.name, item.url@, item.layout, item.update_policy, item.checksum_policy, x);
    lemma_rules_keep_other_child(m6, m7, e, "releases"@, item.releases, x);
    lemma_rules_keep_other_child(m7, b, e, "snapshots"@, item.snapshots, x);
}

} // verus!

verus! {

/// Repository identity is symmetric and transitive, so the general upsert laws apply to every list of them.
pub proof fn lemma_repository_identity_is_equivalence(v: Seq<(Repository, Element)>, extra: Seq<Repository>)
    ensures
        crate::editor::utils::identity_is_equivalence(v, extra),
{
}

} // verus!
