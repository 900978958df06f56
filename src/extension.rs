//! File extensions of artifacts: `{name}-{version}-{classifier}.{extension}.{hash}`.
use vstd::prelude::*;

verus! {

/// The classifier, extension and hash that follow a version in an artifact's file name.
#[derive(Debug, Clone, PartialEq, Eq, Hash, Default)]
pub struct MavenFileExtension {
    pub hash: Option<String>,
    pub file_extension: String,
    pub classifier: Option<String>,
}

/// `-{classifier}.{extension}.{hash}`, the absent parts left out.
pub open spec fn extension_text(classifier: Option<String>, file_extension: Seq<char>, hash: Option<String>) -> Seq<char> {
    (match classifier {
        Some(c) => "-"@ + c@,
        None => Seq::empty(),
    }) + "."@ + file_extension + match hash {
        Some(h) => "."@ + h@,
        None => Seq::empty(),
    }
}

impl MavenFileExtension {
    pub fn with_hash(self, hash: String) -> (r: Self)
        ensures
            r.hash == Some(hash),
            r.file_extension == self.file_extension,
            r.classifier == self.classifier,
    {
        MavenFileExtension { hash: Some(hash), file_extension: self.file_extension, classifier: self.classifier }
    }

    pub fn with_classifier(self, classifier: String) -> (r: Self)
        ensures
            r.classifier == Some(classifier),
            r.file_extension == self.file_extension,
            r.hash == self.hash,
    {
        MavenFileExtension { hash: self.hash, file_extension: self.file_extension, classifier: Some(classifier) }
    }

    /// `-{classifier}.{extension}.{hash}`
    pub fn to_string(&self) -> (r: String)
        ensures
            r@ == extension_text(self.classifier, self.file_extension@, self.hash),
    {
        let mut s = String::new();
        if let Some(classifier) = &self.classifier {
            s.append("-");
            s.append(classifier.as_str());
        }
        s.append(".");
        s.append(self.file_extension.as_str());
        if let Some(hash) = &self.hash {
            s.append(".");
            s.append(hash.as_str());
        }
        proof {
            assert(s@ =~= extension_text(self.classifier, self.file_extension@, self.hash));
        }
        s
    }
}

impl From<String> for MavenFileExtension {
    fn from(value: String) -> (r: Self)
        ensures
            r.file_extension == value && r.hash is None && r.classifier is None,
    {
        MavenFileExtension { hash: None, file_extension: value, classifier: None }
    }
}

impl vstd::std_specs::convert::FromSpecImpl<String> for MavenFileExtension {
    open spec fn obeys_from_spec() -> bool {
        true
    }

    open spec fn from_spec(value: String) -> Self {
        MavenFileExtension { hash: None, file_extension: value, classifier: None }
    }
}

impl<'s> From<&'s str> for MavenFileExtension {
    fn from(value: &'s str) -> (r: Self)
        ensures
            r.file_extension@ == value@ && r.hash is None && r.classifier is None,
    {
        MavenFileExtension { hash: None, file_extension: value.to_string(), classifier: None }
    }
}

impl<'s> vstd::std_specs::convert::FromSpecImpl<&'s str> for MavenFileExtension {
    open spec fn obeys_from_spec() -> bool {
        false
    }

    open spec fn from_spec(value: &'s str) -> Self {
        vstd::pervasive::arbitrary()
    }
}

impl From<(String, String, String)> for MavenFileExtension {
    /// From `(classifier, extension, hash)`.
    fn from(value: (String, String, String)) -> (r: Self)
        ensures
            r.classifier == Some(value.0) && r.file_extension == value.1 && r.hash == Some(value.2),
    {
        let (classifier, file, hash) = value;
        MavenFileExtension { hash: Some(hash), file_extension: file, classifier: Some(classifier) }
    }
}

impl vstd::std_specs::convert::FromSpecImpl<(String, String, String)> for MavenFileExtension {
    open spec fn obeys_from_spec() -> bool {
        true
    }

    open spec fn from_spec(value: (String, String, String)) -> Self {
        MavenFileExtension { hash: Some(value.2), file_extension: value.1, classifier: Some(value.0) }
    }
}

} // verus!
