use vstd::prelude::*;

use edit_xml::{Document, Element};

use crate::editor::dom::{self, NodeState, nodes};
use crate::editor::utils::{
    create_text_elements, find_or_create_then_set_text_content, last_text, last_texts, leaves_written,
    optional_field, optional_view, pairs_view, replace_all_elements, sync_element, synced, take_last, text_leaf,
    as_str_option, clone_option, MissingElementError,
};
use crate::editor::{
    ChildOfListElement, ComparableElement, ElementConverter, HasElementName, UpdatableElement, XMLEditorError,
};
use crate::pom::is_missing;

verus! {

/// Credentials for a server, by id.
#[derive(Debug, Clone, Default, PartialEq)]
pub struct Server {
    pub id: String,
    pub username: Option<String>,
    pub password: Option<String>,
    pub private_key: Option<String>,
    pub passphrase: Option<String>,
    pub file_permissions: Option<String>,
    pub directory_permissions: Option<String>,
}

impl Server {
    pub open spec fn fields(&self) -> Seq<(Seq<char>, Seq<char>)> {
        seq![("id"@, self.id@)]
            + optional_field("username"@, optional_view(self.username))
            + optional_field("password"@, optional_view(self.password))
            + optional_field("privateKey"@, optional_view(self.private_key))
            + optional_field("passphrase"@, optional_view(self.passphrase))
            + optional_field("filePermissions"@, optional_view(self.file_permissions))
            + optional_field("directoryPermissions"@, optional_view(self.directory_permissions))
    }
}

impl HasElementName for Server {
    open spec fn tag() -> Seq<char> {
        "server"@
    }

    fn element_name() -> (r: &'static str) {
        "server"
    }
}

impl ChildOfListElement for Server {
    open spec fn container_tag() -> Seq<char> {
        "servers"@
    }

    fn parent_element_name() -> (r: &'static str) {
        "servers"
    }
}

impl ComparableElement for Server {
    open spec fn same_item(&self, other: &Self) -> bool {
        self.id@ == other.id@
    }

    fn is_same_item(&self, other: &Self) -> (r: bool) {
        self.id == other.id
    }
}

impl ElementConverter for Server {
    open spec fn decodes(m: Map<Element, NodeState>, e: Element, r: Result<Self, XMLEditorError>) -> bool {
        let kids = m[e].children;
        if last_text(m, kids, "id"@) is None {
            r matches Err(err) && is_missing(err, "id"@)
        } else 
        {
            r matches Ok(d) && {
                &&& d.id@ == last_text(m, kids, "id"@)->0
                &&& optional_view(d.username) == last_text(m, kids, "username"@)
                &&& optional_view(d.password) == last_text(m, kids, "password"@)
                &&& optional_view(d.private_key) == last_text(m, kids, "privateKey"@)
                &&& optional_view(d.passphrase) == last_text(m, kids, "passphrase"@)
                &&& optional_view(d.file_permissions) == last_text(m, kids, "filePermissions"@)
                &&& optional_view(d.directory_permissions) == last_text(m, kids, "directoryPermissions"@)
            }
        }
    }

    open spec fn written_as(&self, m: Map<Element, NodeState>, kids: Seq<Element>) -> bool {
        leaves_written(m, kids, self.fields())
    }

    proof fn lemma_written_as_frame(
        &self,
        a: Map<Element, NodeState>,
        b: Map<Element, NodeState>,
        kids: Seq<Element>,
        changed: Set<Element>,
    ) {
        assert forall|i: int| 0 <= i < kids.len() implies text_leaf(b, #[trigger] kids[i], self.fields()[i].0, self.fields()[i].1) by {
            assert(!changed.contains(kids[i]));
        }
    }

    fn from_element(element: Element, document: &Document) -> (r: Result<Self, XMLEditorError>) {
        let tags = vec!["id", "username", "password", "privateKey", "passphrase", "filePermissions", "directoryPermissions"];
        let mut vals = last_texts(element, &tags, document);
        let directory_permissions = take_last(&mut vals);
        let file_permissions = take_last(&mut vals);
        let passphrase = take_last(&mut vals);
        let private_key = take_last(&mut vals);
        let password = take_last(&mut vals);
        let username = take_last(&mut vals);
        let id = take_last(&mut vals);
        proof {
            assert(tags[0]@ == "id"@);
            assert(tags[1]@ == "username"@);
            assert(tags[2]@ == "password"@);
            assert(tags[3]@ == "privateKey"@);
            assert(tags[4]@ == "passphrase"@);
            assert(tags[5]@ == "filePermissions"@);
            assert(tags[6]@ == "directoryPermissions"@);
        }
        let id = match id {
            Some(v) => v,
            None => return Err(XMLEditorError::MissingElement(MissingElementError("id"))),
        };
        Ok(Server { id, username, password, private_key, passphrase, file_permissions, directory_permissions })
    }

    fn into_children(self, document: &mut Document) -> (r: Result<Vec<Element>, XMLEditorError>) {
        let ghost me = self;
        let mut fields: Vec<(&str, String)> = Vec::new();
        let ghost f0 = pairs_view(fields@);
        assert(f0 =~= Seq::empty());
        fields.push(("id", self.id));
        let ghost f1 = pairs_view(fields@);
        assert(f1 =~= f0 + seq![("id"@, me.id@)]);
        if let Some(v) = self.username {
            fields.push(("username", v));
        }
        let ghost f2 = pairs_view(fields@);
        assert(f2 =~= f1 + optional_field("username"@, optional_view(me.username)));
        if let Some(v) = self.password {
            fields.push(("password", v));
        }
        let ghost f3 = pairs_view(fields@);
        assert(f3 =~= f2 + optional_field("password"@, optional_view(me.password)));
        if let Some(v) = self.private_key {
            fields.push(("privateKey", v));
        }
        let ghost f4 = pairs_view(fields@);
        assert(f4 =~= f3 + optional_field("privateKey"@, optional_view(me.private_key)));
        if let Some(v) = self.passphrase {
            fields.push(("passphrase", v));
        }
        let ghost f5 = pairs_view(fields@);
        assert(f5 =~= f4 + optional_field("passphrase"@, optional_view(me.passphrase)));
        if let Some(v) = self.file_permissions {
            fields.push(("filePermissions", v));
        }
        let ghost f6 = pairs_view(fields@);
        assert(f6 =~= f5 + optional_field("filePermissions"@, optional_view(me.file_permissions)));
        if let Some(v) = self.directory_permissions {
            fields.push(("directoryPermissions", v));
        }
        let ghost f7 = pairs_view(fields@);
        assert(f7 =~= f6 + optional_field("directoryPermissions"@, optional_view(me.directory_permissions)));
        assert(pairs_view(fields@) =~= me.fields());
        Ok(create_text_elements(document, fields))
    }
}

impl UpdatableElement for Server {
    /// The whole element is written again: the shape of the record may change entirely.
    open spec fn updates(&self, a: Map<Element, NodeState>, b: Map<Element, NodeState>, e: Element) -> bool {
        &&& self.written_as(b, b[e].children)
        &&& forall|i: int| 0 <= i < b[e].children.len() ==> !a.dom().contains(#[trigger] b[e].children[i])
    }

    fn update_element(&self, element: Element, document: &mut Document) -> (r: Result<(), XMLEditorError>) {
        replace_all_elements(self.clone_record(), element, document)
    }
}

} // verus!

verus! {

/// A pair of borrowed strings when both are present.
pub open spec fn both_present(a: Option<String>, b: Option<String>, r: Option<(&str, &str)>) -> bool {
    match (a, b) {
        (Some(x), Some(y)) => r matches Some(p) && p.0@ == x@ && p.1@ == y@,
        _ => r is None,
    }
}

impl Server {
    /// A field-by-field copy.
    pub fn clone_record(&self) -> (r: Server)
        ensures
            r == *self,
    {
        Server {
            id: self.id.clone(),
            username: clone_option(&self.username),
            password: clone_option(&self.password),
            private_key: clone_option(&self.private_key),
            passphrase: clone_option(&self.passphrase),
            file_permissions: clone_option(&self.file_permissions),
            directory_permissions: clone_option(&self.directory_permissions),
        }
    }

    /// The user name and password, when both are set.
    pub fn username_and_password(&self) -> (r: Option<(&str, &str)>)
        ensures
            both_present(self.username, self.password, r),
    {
        match (&self.username, &self.password) {
            (Some(username), Some(password)) => Some((username.as_str(), password.as_str())),
            _ => None,
        }
    }

    /// The private key and passphrase, when both are set.
    pub fn private_key_and_passphrase(&self) -> (r: Option<(&str, &str)>)
        ensures
            both_present(self.private_key, self.passphrase, r),
    {
        match (&self.private_key, &self.passphrase) {
            (Some(private_key), Some(passphrase)) => Some((private_key.as_str(), passphrase.as_str())),
            _ => None,
        }
    }
}

} // verus!
