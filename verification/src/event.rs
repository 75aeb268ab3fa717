//! The event vocabulary that the readers consume: qualified names and the
//! structural events of a document, as plain values.

use vstd::prelude::*;
use vstd::string::StringExecFns;

verus! {

/// The mathematical value of an optional string.
pub open spec fn opt_text(text: Option<String>) -> Option<Seq<char>> {
    match text {
        Some(s) => Some(s@),
        None => None,
    }
}

/// A qualified element name: the local name, the namespace URI it resolved
/// to, and the prefix it was written with.
#[derive(Debug, Clone, PartialEq, Eq)]
pub struct ElementName {
    pub local_name: String,
    pub namespace: Option<String>,
    pub prefix: Option<String>,
}

/// Mathematical model of an [`ElementName`].
pub struct ElementNameView {
    pub local_name: Seq<char>,
    pub namespace: Option<Seq<char>>,
    pub prefix: Option<Seq<char>>,
}

impl ElementNameView {
    /// A name with neither namespace nor prefix.
    pub open spec fn local(local_name: Seq<char>) -> ElementNameView {
        ElementNameView { local_name, namespace: None, prefix: None }
    }

    /// The text `{namespace}prefix:local_name`, where the braces and the
    /// colon appear only with the part they delimit.
    pub open spec fn display(self) -> Seq<char> {
        let namespace = match self.namespace {
            Some(uri) => seq!['{'] + uri + seq!['}'],
            None => Seq::empty(),
        };
        let prefix = match self.prefix {
            Some(p) => p + seq![':'],
            None => Seq::empty(),
        };
        namespace + prefix + self.local_name
    }
}

impl View for ElementName {
    type V = ElementNameView;

    open spec fn view(&self) -> ElementNameView {
        ElementNameView {
            local_name: self.local_name@,
            namespace: opt_text(self.namespace),
            prefix: opt_text(self.prefix),
        }
    }
}

/// Whether two optional strings hold the same text.
fn same_opt_text(a: &Option<String>, b: &Option<String>) -> (r: bool)
    ensures
        r == (opt_text(*a) == opt_text(*b)),
{
    match a {
        Some(x) => match b {
            Some(y) => *x == *y,
            None => false,
        },
        None => b.is_none(),
    }
}

/// A copy of an optional string.
fn copy_opt_text(text: &Option<String>) -> (r: Option<String>)
    ensures
        opt_text(r) == opt_text(*text),
{
    match text {
        Some(s) => Some(s.clone()),
        None => None,
    }
}

impl ElementName {
    /// A name with neither namespace nor prefix.
    pub fn local(local_name: &str) -> (r: ElementName)
        ensures
            r@ == ElementNameView::local(local_name@),
    {
        ElementName { local_name: String::from_str(local_name), namespace: None, prefix: None }
    }

    /// Whether `self` and `other` agree in local name, namespace and prefix.
    pub fn same_as(&self, other: &ElementName) -> (r: bool)
        ensures
            r == (self@ == other@),
    {
        self.local_name == other.local_name && same_opt_text(&self.namespace, &other.namespace)
            && same_opt_text(&self.prefix, &other.prefix)
    }

    /// A copy of this name.
    pub fn duplicate(&self) -> (r: ElementName)
        ensures
            r@ == self@,
    {
        ElementName {
            local_name: self.local_name.clone(),
            namespace: copy_opt_text(&self.namespace),
            prefix: copy_opt_text(&self.prefix),
        }
    }

    /// The name as diagnostics print it: `{namespace}prefix:local_name`.
    pub fn to_string(&self) -> (r: String)
        ensures
            r@ == self@.display(),
    {
        proof {
            reveal_strlit("{");
            reveal_strlit("}");
            reveal_strlit(":");
        }
        let mut out = String::new();
        match &self.namespace {
            Some(uri) => {
                out.append("{");
                out.append(uri.as_str());
                out.append("}");
                assert(out@ =~= seq!['{'] + uri@ + seq!['}']);
            },
            None => {},
        }
        let ghost shown_namespace = out@;
        match &self.prefix {
            Some(p) => {
                out.append(p.as_str());
                out.append(":");
                assert(out@ =~= shown_namespace + (p@ + seq![':']));
            },
            None => {
                assert(out@ =~= shown_namespace + Seq::<char>::empty());
            },
        }
        out.append(self.local_name.as_str());
        out
    }
}

/// One attribute of an opening tag.
#[derive(Debug, Clone, PartialEq, Eq)]
pub struct Attribute {
    pub name: ElementName,
    pub value: String,
}

/// Mathematical model of an [`Attribute`].
pub struct AttributeView {
    pub name: ElementNameView,
    pub value: Seq<char>,
}

impl View for Attribute {
    type V = AttributeView;

    open spec fn view(&self) -> AttributeView {
        AttributeView { name: self.name@, value: self.value@ }
    }
}

/// The mathematical values of a run of attributes.
pub open spec fn attributes_view(attributes: Seq<Attribute>) -> Seq<AttributeView> {
    Seq::new(attributes.len(), |i: int| attributes[i]@)
}

/// The namespace bindings that are in scope at an opening tag: each a
/// prefix and the URI bound to it, in the order of the prefixes.
#[derive(Debug, Clone, PartialEq, Eq)]
pub struct Namespace {
    pub bindings: Vec<(String, String)>,
}

impl View for Namespace {
    type V = Seq<(Seq<char>, Seq<char>)>;

    open spec fn view(&self) -> Seq<(Seq<char>, Seq<char>)> {
        Seq::new(self.bindings@.len(), |i: int| (self.bindings@[i].0@, self.bindings@[i].1@))
    }
}

/// What an event is, with the data that the readers look at.
#[derive(Debug, Clone, PartialEq, Eq)]
pub enum XmlEventKind {
    /// The start of the document, declared or implied.
    StartDocument,
    /// The end of the document.
    EndDocument,
    /// An opening tag.
    StartElement { name: ElementName },
    /// A closing tag.
    EndElement { name: ElementName },
    /// Character data between tags, unescaped.
    Characters(String),
    /// The content of a CDATA section.
    CData(String),
    /// Anything else: a processing instruction, a comment, stray whitespace.
    Other,
}

/// Mathematical model of an [`XmlEventKind`].
pub enum XmlEventKindView {
    StartDocument,
    EndDocument,
    StartElement { name: ElementNameView },
    EndElement { name: ElementNameView },
    Characters(Seq<char>),
    CData(Seq<char>),
    Other,
}

impl View for XmlEventKind {
    type V = XmlEventKindView;

    open spec fn view(&self) -> XmlEventKindView {
        match self {
            XmlEventKind::StartDocument => XmlEventKindView::StartDocument,
            XmlEventKind::EndDocument => XmlEventKindView::EndDocument,
            XmlEventKind::StartElement { name } => XmlEventKindView::StartElement { name: name@ },
            XmlEventKind::EndElement { name } => XmlEventKindView::EndElement { name: name@ },
            XmlEventKind::Characters(text) => XmlEventKindView::Characters(text@),
            XmlEventKind::CData(text) => XmlEventKindView::CData(text@),
            XmlEventKind::Other => XmlEventKindView::Other,
        }
    }
}

/// One structural event of a document. An opening tag comes with its
/// attributes and the namespace bindings in scope; every other event has
/// none. `shown` is the text by which diagnostics show the event.
#[derive(Debug, Clone, PartialEq, Eq)]
pub struct XmlEvent {
    pub kind: XmlEventKind,
    pub attributes: Vec<Attribute>,
    pub namespace: Namespace,
    pub shown: String,
}

/// Mathematical model of an [`XmlEvent`].
pub struct XmlEventView {
    pub kind: XmlEventKindView,
    pub attributes: Seq<AttributeView>,
    pub namespace: Seq<(Seq<char>, Seq<char>)>,
    pub shown: Seq<char>,
}

impl View for XmlEvent {
    type V = XmlEventView;

    open spec fn view(&self) -> XmlEventView {
        XmlEventView {
            kind: self.kind@,
            attributes: attributes_view(self.attributes@),
            namespace: self.namespace@,
            shown: self.shown@,
        }
    }
}

} // verus!
