//! SVG documents as trees of XML nodes.
use vstd::prelude::*;

verus! {

pub const SVG_NAMESPACE: &'static str = "http://www.w3.org/2000/svg";

/// The key of a namespaced XML name: `namespace:local`, or just `local`
/// when there is no namespace (or it is empty).
pub open spec fn spec_name_to_key(namespace: Option<Seq<char>>, local: Seq<char>) -> Seq<char> {
    match namespace {
        Some(ns) => if ns.len() > 0 {
            ns + seq![':'] + local
        } else {
            local
        },
        None => local,
    }
}

/// Qualifies a namespaced XML name, e.g. `("http://...", "namedview")`
/// gives `"http://...:namedview"` and `(None, "desc")` gives `"desc"`.
pub fn name_to_key(namespace: Option<&str>, local: &str) -> (r: String)
    ensures
        r@ == spec_name_to_key(
            match namespace {
                Some(ns) => Some(ns@),
                None => None,
            },
            local@,
        ),
{
    match namespace {
        Some(ns) => {
            if ns.is_empty() {
                return local.to_owned();
            }
            let mut r = ns.to_owned();
            proof {
                reveal_strlit(":");
            }
            r.append(":");
            r.append(local);
            r
        },
        None => local.to_owned(),
    }
}

} // verus!

verus! {

/// The kinds of XML nodes.
#[derive(Debug, Clone, Copy, PartialEq, Eq, Structural)]
pub enum XmlNodeKind {
    Root,
    Element,
    ProcessingInstruction,
    Comment,
    Text,
}

/// One node of a parsed XML document.
#[derive(Debug, PartialEq, Eq)]
pub struct XmlNode {
    pub kind: XmlNodeKind,
    /// The position of the parent node in the document, if any.
    pub parent: Option<usize>,
    /// The element's tag namespace (none for other nodes).
    pub namespace: Option<String>,
    /// The element's local tag name (empty for other nodes).
    pub name: String,
    /// The element's attributes that have no namespace, as name and value.
    pub attributes: Vec<(String, String)>,
    /// The node's text: a text or comment node's content, or the content of
    /// an element's first child when that child is a text node.
    pub text: Option<String>,
}

/// A parsed XML document: its nodes in document order, the first being the
/// document's root node.
#[derive(Debug, PartialEq, Eq)]
pub struct XmlDocument {
    pub nodes: Vec<XmlNode>,
}

/// The value of the first attribute named `name` in `attrs`.
pub open spec fn attribute_of(attrs: Seq<(String, String)>, name: Seq<char>) -> Option<Seq<char>>
    decreases attrs.len(),
{
    if attrs.len() == 0 {
        None
    } else if attrs[0].0@ == name {
        Some(attrs[0].1@)
    } else {
        attribute_of(attrs.drop_first(), name)
    }
}

impl XmlNode {
    /// The value of this node's attribute named `name`, if it has one.
    pub open spec fn spec_attribute(&self, name: Seq<char>) -> Option<Seq<char>> {
        attribute_of(self.attributes@, name)
    }

    pub open spec fn is_element(&self) -> bool {
        self.kind == XmlNodeKind::Element
    }

    /// The key of this node's tag name (see `name_to_key`).
    pub open spec fn key(&self) -> Seq<char> {
        spec_name_to_key(
            match self.namespace {
                Some(ns) => Some(ns@),
                None => None,
            },
            self.name@,
        )
    }

    /// The value of this node's attribute named `name`, if it has one.
    pub fn attribute<'a>(&'a self, name: &str) -> (r: Option<&'a str>)
        ensures
            match r {
                Some(v) => self.spec_attribute(name@) == Some(v@),
                None => self.spec_attribute(name@) is None,
            },
    {
        let mut i: usize = 0;
        let ghost attrs = self.attributes@;
        assert(attrs.skip(0) =~= attrs);
        while i < self.attributes.len()
            invariant
                i <= attrs.len(),
                attrs == self.attributes@,
                attribute_of(attrs, name@) == attribute_of(attrs.skip(i as int), name@),
            decreases attrs.len() - i,
        {
            let pair = &self.attributes[i];
            assert(attrs.skip(i as int)[0] == pair);
            if str_equal(pair.0.as_str(), name) {
                return Some(pair.1.as_str());
            }
            assert(attrs.skip(i as int).drop_first() =~= attrs.skip(i + 1));
            i += 1;
        }
        None
    }

    /// The key of this node's tag name.
    pub fn tag_key(&self) -> (r: String)
        ensures
            r@ == self.key(),
    {
        match &self.namespace {
            Some(ns) => name_to_key(Some(ns.as_str()), self.name.as_str()),
            None => name_to_key(None, self.name.as_str()),
        }
    }
}

/// `a` and `b` hold the same text.
pub fn str_equal(a: &str, b: &str) -> (r: bool)
    ensures
        r == (a@ == b@),
{
    let x = crate::text::chars_of(a);
    let y = crate::text::chars_of(b);
    if x.len() != y.len() {
        return false;
    }
    let mut i: usize = 0;
    while i < x.len()
        invariant
            x@ == a@,
            y@ == b@,
            x@.len() == y@.len(),
            i <= x@.len(),
            forall|k: int| 0 <= k < i ==> x@[k] == y@[k],
        decreases x@.len() - i,
    {
        if x[i] != y[i] {
            return false;
        }
        i += 1;
    }
    assert(x@ =~= y@);
    true
}

impl XmlDocument {
    /// Every parent precedes its children.
    pub open spec fn wf(&self) -> bool {
        forall|i: int|
            0 <= i < self.nodes@.len() ==> match (#[trigger] self.nodes@[i]).parent {
                Some(p) => p < i,
                None => true,
            }
    }

    /// Node `i` is an element whose parent is node `p`.
    pub open spec fn is_element_child(&self, i: int, p: int) -> bool {
        &&& 0 <= i < self.nodes@.len()
        &&& self.nodes@[i].is_element()
        &&& self.nodes@[i].parent == Some(p as usize)
    }

    /// Node `i` is the root element: the first element child of node 0.
    pub open spec fn is_root_element(&self, i: int) -> bool {
        &&& self.is_element_child(i, 0)
        &&& forall|j: int| 0 <= j < i ==> !#[trigger] self.is_element_child(j, 0)
    }

    /// The position of the root element, if there is one.
    pub open spec fn spec_root_element(&self) -> Option<int> {
        if exists|i: int| self.is_root_element(i) {
            Some(choose|i: int| self.is_root_element(i))
        } else {
            None
        }
    }

    /// The position of the root element: the first element child of the
    /// document's root node.
    pub fn root_element(&self) -> (r: Option<usize>)
        ensures
            match r {
                Some(i) => self.spec_root_element() == Some(i as int) && i < self.nodes@.len(),
                None => self.spec_root_element() is None,
            },
    {
        let mut i: usize = 0;
        while i < self.nodes.len()
            invariant
                i <= self.nodes@.len(),
                forall|j: int| 0 <= j < i ==> !#[trigger] self.is_element_child(j, 0),
            decreases self.nodes@.len() - i,
        {
            let node = &self.nodes[i];
            if node.kind == XmlNodeKind::Element && node.parent == Some(0usize) {
                proof {
                    assert(self.is_root_element(i as int));
                    let k = choose|k: int| self.is_root_element(k);
                    assert(self.is_root_element(k));
                    if k < i {
                        assert(!self.is_element_child(k, 0));
                    }
                    if i < k {
                        assert(!self.is_element_child(i as int, 0));
                    }
                }
                return Some(i);
            }
            i += 1;
        }
        None
    }
}

} // verus!

verus! {

#[verifier::external_type_specification]
#[verifier::external_body]
pub struct ExXmlTree<'input>(roxmltree::Document<'input>);

#[verifier::external_type_specification]
#[verifier::external_body]
pub struct ExXmlParseError(roxmltree::Error);

/// Whether `roxmltree` accepts `text` as an XML document.
pub uninterp spec fn xml_parses(text: Seq<char>) -> bool;

/// The number of nodes of the document that `roxmltree` parses from `text`.
pub uninterp spec fn xml_node_count(text: Seq<char>) -> nat;

/// The kind of node `i` of the document parsed from `text`.
pub uninterp spec fn xml_kind_at(text: Seq<char>, i: int) -> XmlNodeKind;

/// The position of the parent of node `i` of the document parsed from `text`.
pub uninterp spec fn xml_parent_at(text: Seq<char>, i: int) -> Option<int>;

/// The tag name of node `i` of the document parsed from `text`: its
/// namespace, if any, and its local name.
pub uninterp spec fn xml_tag_at(text: Seq<char>, i: int) -> (Option<Seq<char>>, Seq<char>);

/// The value of the attribute `name` (without namespace) of node `i` of the
/// document parsed from `text`.
pub uninterp spec fn xml_attribute_at(text: Seq<char>, i: int, name: Seq<char>) -> Option<Seq<char>>;

/// The text of node `i` of the document parsed from `text`.
pub uninterp spec fn xml_text_at(text: Seq<char>, i: int) -> Option<Seq<char>>;

/// A tree that `roxmltree` parsed, kept with the text it was parsed from.
/// Only `parse_xml_tree` makes one, so the tree is always that text's.
struct XmlTree<'a> {
    text: &'a str,
    tree: roxmltree::Document<'a>,
}

impl<'a> View for XmlTree<'a> {
    type V = Seq<char>;

    /// The text that the tree was parsed from.
    closed spec fn view(&self) -> Seq<char> {
        self.text@
    }
}

/// `roxmltree::Document::parse`: succeeds exactly when the text is a
/// well-formed XML document that roxmltree accepts (named `xml_parses`).
/// What the tree holds is stated by the node wrappers below.
#[verifier::external_body]
fn xml_parse<'input>(text: &'input str) -> (r: Result<roxmltree::Document<'input>, roxmltree::Error>)
    ensures
        r is Ok <==> xml_parses(text@),
{
    roxmltree::Document::parse(text)
}

/// Parses `text`, keeping the text with the tree.
fn parse_xml_tree<'a>(text: &'a str) -> (r: Result<XmlTree<'a>, roxmltree::Error>)
    ensures
        r is Ok <==> xml_parses(text@),
        r matches Ok(t) ==> t@ == text@,
{
    match xml_parse(text) {
        Ok(tree) => Ok(XmlTree { text, tree }),
        Err(e) => Err(e),
    }
}

/// The message of a `roxmltree::Error` (its `Display`). The error value is
/// opaque here, so nothing is stated of the message.
#[verifier::external_body]
fn xml_error_message(e: &roxmltree::Error) -> String {
    e.to_string()
}

/// `roxmltree::Document::descendants` of the whole document, counted: the
/// number of nodes. The root node is always there, so there is at least one.
#[verifier::external_body]
fn xml_node_total(t: &XmlTree) -> (r: usize)
    ensures
        r == xml_node_count(t@),
        r >= 1,
{
    t.tree.descendants().len()
}

/// `roxmltree::Node::node_type` of node `i`. Node 0 is the document's root
/// node, and no other node is a root node.
#[verifier::external_body]
fn xml_node_kind(t: &XmlTree, i: usize) -> (r: XmlNodeKind)
    requires
        i < xml_node_count(t@),
    ensures
        r == xml_kind_at(t@, i as int),
        (r == XmlNodeKind::Root) == (i == 0),
{
    match t.tree.get_node(roxmltree::NodeId::from(i)).unwrap().node_type() {
        roxmltree::NodeType::Root => XmlNodeKind::Root,
        roxmltree::NodeType::Element => XmlNodeKind::Element,
        roxmltree::NodeType::PI => XmlNodeKind::ProcessingInstruction,
        roxmltree::NodeType::Comment => XmlNodeKind::Comment,
        roxmltree::NodeType::Text => XmlNodeKind::Text,
    }
}

/// `roxmltree::Node::parent` of node `i`, as the parent's position. The
/// root node has no parent; every other node has one, which precedes it
/// (roxmltree appends a node after its parent).
#[verifier::external_body]
fn xml_node_parent(t: &XmlTree, i: usize) -> (r: Option<usize>)
    requires
        i < xml_node_count(t@),
    ensures
        match r {
            Some(p) => xml_parent_at(t@, i as int) == Some(p as int) && p < i,
            None => xml_parent_at(t@, i as int) is None && i == 0,
        },
{
    match t.tree.get_node(roxmltree::NodeId::from(i)).unwrap().parent() {
        Some(p) => Some(p.id().get_usize()),
        None => None,
    }
}

/// `roxmltree::Node::tag_name` of node `i`: its namespace URI, if any, and
/// its local name.
#[verifier::external_body]
fn xml_node_tag(t: &XmlTree, i: usize) -> (r: (Option<String>, String))
    requires
        i < xml_node_count(t@),
    ensures
        xml_tag_at(t@, i as int) == (
            match r.0 {
                Some(ns) => Some(ns@),
                None => None,
            },
            r.1@,
        ),
{
    let tag = t.tree.get_node(roxmltree::NodeId::from(i)).unwrap().tag_name();
    (tag.namespace().map(str::to_owned), tag.name().to_owned())
}

/// `roxmltree::Node::attribute` of node `i`, for an attribute without
/// namespace: its value, if the node has it.
#[verifier::external_body]
fn xml_node_attribute(t: &XmlTree, i: usize, name: &str) -> (r: Option<String>)
    requires
        i < xml_node_count(t@),
    ensures
        xml_attribute_at(t@, i as int, name@) == match r {
            Some(v) => Some(v@),
            None => None,
        },
{
    t.tree.get_node(roxmltree::NodeId::from(i)).unwrap().attribute(name).map(str::to_owned)
}

/// `roxmltree::Node::text` of node `i`: the text of a text or comment node,
/// or of an element whose first child is text.
#[verifier::external_body]
fn xml_node_text(t: &XmlTree, i: usize) -> (r: Option<String>)
    requires
        i < xml_node_count(t@),
    ensures
        xml_text_at(t@, i as int) == match r {
            Some(v) => Some(v@),
            None => None,
        },
{
    t.tree.get_node(roxmltree::NodeId::from(i)).unwrap().text().map(str::to_owned)
}

/// The text of an optional string.
pub open spec fn opt_text(o: Option<String>) -> Option<Seq<char>> {
    match o {
        Some(s) => Some(s@),
        None => None,
    }
}

/// `node` is node `i` of the document parsed from `text`: the same kind,
/// parent, tag and text, and of the read attributes those that it has.
pub open spec fn node_models(text: Seq<char>, i: int, node: XmlNode) -> bool {
    &&& node.kind == xml_kind_at(text, i)
    &&& match node.parent {
        Some(p) => xml_parent_at(text, i) == Some(p as int),
        None => xml_parent_at(text, i) is None,
    }
    &&& xml_tag_at(text, i) == (opt_text(node.namespace), node.name@)
    &&& opt_text(node.text) == xml_text_at(text, i)
    &&& attributes_read_in_order(node.attributes@)
    &&& forall|k: int|
        0 <= k < read_attribute_list().len() ==> attribute_of(
            node.attributes@,
            #[trigger] read_attribute_list()[k],
        ) == xml_attribute_at(text, i, read_attribute_list()[k])
}

/// `doc` holds, in order, the nodes of the document parsed from `text`.
pub open spec fn models_xml(doc: XmlDocument, text: Seq<char>) -> bool {
    &&& doc.nodes@.len() == xml_node_count(text)
    &&& forall|i: int| 0 <= i < doc.nodes@.len() ==> node_models(text, i, #[trigger] doc.nodes@[i])
}

#[derive(Debug, PartialEq, Eq)]
pub enum DocumentError {
    /// The input holds nothing but white space.
    Empty,
    /// The input is not well-formed XML; the payload is the parser's message.
    Xml(String),
    /// The root element is not `<svg>`; the payload is its name.
    UnexpectedRootElement(String),
    /// The root `<svg>` is in a namespace other than SVG's.
    UnexpectedNamespace(String),
}

/// The names of the attributes that this library reads, in the order it
/// reads them.
pub open spec fn read_attribute_list() -> Seq<Seq<char>> {
    seq![
        "width"@,
        "height"@,
        "viewBox"@,
        "transform"@,
        "id"@,
        "d"@,
        "cx"@,
        "cy"@,
        "rx"@,
        "ry"@,
    ]
}

/// `idx` gives, for each of `attrs`, the position of its name in
/// `read_attribute_list()`, and these positions increase.
pub open spec fn attribute_positions(attrs: Seq<(String, String)>, idx: Seq<int>) -> bool {
    &&& idx.len() == attrs.len()
    &&& forall|j: int|
        0 <= j < idx.len() ==> 0 <= #[trigger] idx[j] < read_attribute_list().len()
            && attrs[j].0@ == read_attribute_list()[idx[j]]
    &&& forall|j: int, k: int| 0 <= j < k < idx.len() ==> #[trigger] idx[j] < #[trigger] idx[k]
}

/// The attributes are some of the read ones, each at most once, in the
/// order in which they are read.
pub open spec fn attributes_read_in_order(attrs: Seq<(String, String)>) -> bool {
    exists|idx: Seq<int>| attribute_positions(attrs, idx)
}

/// The attributes that this library reads.
fn read_attribute_names() -> (r: Vec<&'static str>)
    ensures
        r@.len() == read_attribute_list().len(),
        forall|i: int| 0 <= i < r@.len() ==> (#[trigger] r@[i])@ == read_attribute_list()[i],
{
    vec!["width", "height", "viewBox", "transform", "id", "d", "cx", "cy", "rx", "ry"]
}

/// Adding an attribute at the end changes only the value of a name that
/// was not there.
proof fn lemma_attribute_of_push(attrs: Seq<(String, String)>, pair: (String, String), m: Seq<char>)
    ensures
        attribute_of(attrs.push(pair), m) == match attribute_of(attrs, m) {
            Some(v) => Some(v),
            None => if pair.0@ == m {
                Some(pair.1@)
            } else {
                None
            },
        },
    decreases attrs.len(),
{
    let pushed = attrs.push(pair);
    if attrs.len() == 0 {
        assert(pushed[0] == pair);
        assert(pushed.drop_first() =~= Seq::<(String, String)>::empty());
        assert(attribute_of(pushed.drop_first(), m) is None);
    } else {
        assert(pushed[0] == attrs[0]);
        assert(pushed.drop_first() =~= attrs.drop_first().push(pair));
        lemma_attribute_of_push(attrs.drop_first(), pair, m);
    }
}

/// A name that no attribute has has no value.
proof fn lemma_attribute_of_absent(attrs: Seq<(String, String)>, m: Seq<char>)
    requires
        forall|j: int| 0 <= j < attrs.len() ==> (#[trigger] attrs[j]).0@ != m,
    ensures
        attribute_of(attrs, m) is None,
    decreases attrs.len(),
{
    if attrs.len() > 0 {
        let d = attrs.drop_first();
        assert forall|j: int| 0 <= j < d.len() implies (#[trigger] d[j]).0@ != m by {
            assert(d[j] == attrs[j + 1]);
        }
        lemma_attribute_of_absent(d, m);
    }
}

/// The model of node `position` of the tree `t`.
fn convert_node(t: &XmlTree, position: usize) -> (r: XmlNode)
    requires
        position < xml_node_count(t@),
    ensures
        node_models(t@, position as int, r),
        match r.parent {
            Some(p) => p < position,
            None => position == 0,
        },
        (r.kind == XmlNodeKind::Root) == (position == 0),
        attributes_read_in_order(r.attributes@),
{
    let parent = xml_node_parent(t, position);
    let names = read_attribute_names();
    let ghost list = read_attribute_list();
    let mut attributes: Vec<(String, String)> = Vec::new();
    let ghost mut idx: Seq<int> = Seq::empty();
    let mut k: usize = 0;
    while k < names.len()
        invariant
            k <= names@.len(),
            position < xml_node_count(t@),
            list == read_attribute_list(),
            names@.len() == list.len(),
            forall|i: int| 0 <= i < names@.len() ==> (#[trigger] names@[i])@ == list[i],
            attribute_positions(attributes@, idx),
            forall|j: int| 0 <= j < idx.len() ==> #[trigger] idx[j] < k,
            forall|k2: int|
                0 <= k2 < k ==> attribute_of(attributes@, #[trigger] list[k2]) == xml_attribute_at(
                    t@,
                    position as int,
                    list[k2],
                ),
        decreases names@.len() - k,
    {
        let ghost n = list[k as int];
        let ghost seen = exists|j: int| 0 <= j < k && #[trigger] list[j] == n;
        proof {
            if !seen {
                assert forall|j: int| 0 <= j < attributes@.len() implies (
                #[trigger] attributes@[j]).0@ != n by {
                    assert(attributes@[j].0@ == list[idx[j]]);
                    assert(idx[j] < k);
                }
                lemma_attribute_of_absent(attributes@, n);
            }
        }
        let ghost before = attributes@;
        match xml_node_attribute(t, position, names[k]) {
            Some(v) => {
                let name = names[k].to_owned();
                let pair = (name, v);
                proof {
                    assert forall|m: Seq<char>| true implies attribute_of(before.push(pair), m)
                        == match attribute_of(before, m) {
                        Some(w) => Some(w),
                        None => if pair.0@ == m {
                            Some(pair.1@)
                        } else {
                            None
                        },
                    } by {
                        lemma_attribute_of_push(before, pair, m);
                    }
                }
                attributes.push(pair);
                proof {
                    let old_idx = idx;
                    idx = idx.push(k as int);
                    assert(forall|j: int| 0 <= j < old_idx.len() ==> idx[j] == old_idx[j]);
                    if seen {
                        let j = choose|j: int| 0 <= j < k && #[trigger] list[j] == n;
                        assert(attribute_of(before, list[j]) == xml_attribute_at(
                            t@,
                            position as int,
                            list[j],
                        ));
                    }
                    assert forall|k2: int| 0 <= k2 < k + 1 implies attribute_of(
                        attributes@,
                        #[trigger] list[k2],
                    ) == xml_attribute_at(t@, position as int, list[k2]) by {
                        assert(attributes@ == before.push(pair));
                        if k2 < k {
                            assert(attribute_of(before, list[k2]) == xml_attribute_at(
                                t@,
                                position as int,
                                list[k2],
                            ));
                        }
                    }
                }
            },
            None => {
                proof {
                    if seen {
                        let j = choose|j: int| 0 <= j < k && #[trigger] list[j] == n;
                        assert(attribute_of(before, list[j]) == xml_attribute_at(
                            t@,
                            position as int,
                            list[j],
                        ));
                    }
                }
            },
        }
        k += 1;
    }
    let kind = xml_node_kind(t, position);
    let (namespace, name) = xml_node_tag(t, position);
    let text = xml_node_text(t, position);
    XmlNode { kind, parent, namespace, name, attributes, text }
}

impl XmlDocument {
    /// Node 0 is the document's root node, with no parent; every other node
    /// has a parent and is not a root node.
    pub open spec fn rooted(&self) -> bool {
        &&& self.nodes@.len() >= 1
        &&& self.nodes@[0].kind == XmlNodeKind::Root
        &&& self.nodes@[0].parent is None
        &&& forall|i: int|
            1 <= i < self.nodes@.len() ==> (#[trigger] self.nodes@[i]).kind != XmlNodeKind::Root
                && self.nodes@[i].parent is Some
    }
}

/// The document model of the tree `t`.
fn convert_document(t: &XmlTree) -> (r: XmlDocument)
    ensures
        r.wf(),
        r.rooted(),
        models_xml(r, t@),
        r.nodes@.len() >= 1,
        forall|i: int| 0 <= i < r.nodes@.len() ==> attributes_read_in_order(#[trigger] r.nodes@[i].attributes@),
{
    let n = xml_node_total(t);
    let mut out: Vec<XmlNode> = Vec::new();
    let mut i: usize = 0;
    while i < n
        invariant
            i <= n,
            n == xml_node_count(t@),
            out@.len() == i,
            forall|j: int|
                0 <= j < i ==> match (#[trigger] out@[j]).parent {
                    Some(p) => p < j,
                    None => j == 0,
                },
            forall|j: int| 0 <= j < i ==> ((#[trigger] out@[j]).kind == XmlNodeKind::Root) == (j == 0),
            forall|j: int| 0 <= j < i ==> node_models(t@, j, #[trigger] out@[j]),
            forall|j: int| 0 <= j < i ==> attributes_read_in_order(#[trigger] out@[j].attributes@),
        decreases n - i,
    {
        out.push(convert_node(t, i));
        i += 1;
    }
    let r = XmlDocument { nodes: out };
    assert(r.nodes@[0].parent is None);
    r
}

pub open spec fn svg_name() -> Seq<char> {
    seq!['s', 'v', 'g']
}

pub open spec fn svg_namespace() -> Seq<char> {
    SVG_NAMESPACE@
}

/// The document has an `<svg>` root element, in no namespace or in SVG's.
pub open spec fn has_svg_root(doc: XmlDocument) -> bool {
    match doc.spec_root_element() {
        Some(i) => {
            let root = doc.nodes@[i];
            &&& root.name@ == svg_name()
            &&& match root.namespace {
                Some(ns) => ns@ == svg_namespace(),
                None => true,
            }
        },
        None => false,
    }
}

/// Node `i` of the document parsed from `text` is an element child of its
/// root node.
pub open spec fn xml_is_top_element(text: Seq<char>, i: int) -> bool {
    &&& 0 <= i < xml_node_count(text)
    &&& xml_kind_at(text, i) == XmlNodeKind::Element
    &&& xml_parent_at(text, i) == Some(0int)
}

/// Node `i` is the root element of the document parsed from `text`: the
/// first element child of its root node.
pub open spec fn xml_is_root_element(text: Seq<char>, i: int) -> bool {
    &&& xml_is_top_element(text, i)
    &&& forall|j: int| 0 <= j < i ==> !#[trigger] xml_is_top_element(text, j)
}

/// The position of the root element of the document parsed from `text`.
pub open spec fn xml_root_element(text: Seq<char>) -> Option<int> {
    if exists|i: int| xml_is_root_element(text, i) {
        Some(choose|i: int| xml_is_root_element(text, i))
    } else {
        None
    }
}

/// The document parsed from `text` has an `<svg>` root element, in no
/// namespace or in SVG's.
pub open spec fn xml_root_is_svg(text: Seq<char>) -> bool {
    match xml_root_element(text) {
        Some(i) => {
            &&& xml_tag_at(text, i).1 == svg_name()
            &&& match xml_tag_at(text, i).0 {
                Some(ns) => ns == svg_namespace(),
                None => true,
            }
        },
        None => false,
    }
}

/// A document that models the parse of `text` has the same root element.
proof fn lemma_root_element_models(doc: XmlDocument, text: Seq<char>)
    requires
        models_xml(doc, text),
    ensures
        doc.spec_root_element() == xml_root_element(text),
{
    assert forall|i: int| doc.is_element_child(i, 0) == xml_is_top_element(text, i) by {
        if 0 <= i < doc.nodes@.len() {
            assert(node_models(text, i, doc.nodes@[i]));
        }
    }
    assert forall|i: int| doc.is_root_element(i) == xml_is_root_element(text, i) by {
        if doc.is_root_element(i) {
            assert forall|j: int| 0 <= j < i implies !#[trigger] xml_is_top_element(text, j) by {
                assert(!doc.is_element_child(j, 0));
            }
        }
        if xml_is_root_element(text, i) {
            assert forall|j: int| 0 <= j < i implies !#[trigger] doc.is_element_child(j, 0) by {
                assert(!xml_is_top_element(text, j));
            }
        }
    }
    if exists|i: int| xml_is_root_element(text, i) {
        let a = choose|i: int| doc.is_root_element(i);
        let b = choose|i: int| xml_is_root_element(text, i);
        assert(xml_is_root_element(text, b));
        assert(doc.is_root_element(b));
        assert(doc.is_root_element(a));
        assert(xml_is_root_element(text, a));
        if a < b {
            assert(!xml_is_top_element(text, a));
        }
        if b < a {
            assert(!xml_is_top_element(text, b));
        }
    } else {
        assert forall|i: int| !doc.is_root_element(i) by {
            assert(!xml_is_root_element(text, i));
        }
    }
}

/// Parses `input` as an SVG document: its root element must be `<svg>`,
/// in no namespace or in the SVG namespace. On success the document holds
/// the nodes that `roxmltree` parses from `input`, in document order.
pub fn parse_svg_document(input: &str) -> (r: Result<XmlDocument, DocumentError>)
    ensures
        (r == Err::<XmlDocument, DocumentError>(DocumentError::Empty)) <==> crate::text::trim(
            input@,
        ).len() == 0,
        (r matches Err(DocumentError::Xml(_))) <==> (crate::text::trim(input@).len() > 0
            && !xml_parses(input@)),
        r is Ok <==> (crate::text::trim(input@).len() > 0 && xml_parses(input@) && xml_root_is_svg(
            input@,
        )),
        match r {
            Ok(doc) => doc.wf() && doc.rooted() && models_xml(doc, input@) && has_svg_root(doc),
            Err(DocumentError::UnexpectedRootElement(name)) => {
                &&& crate::text::trim(input@).len() > 0
                &&& xml_parses(input@)
                &&& match xml_root_element(input@) {
                    Some(i) => xml_tag_at(input@, i).1 != svg_name() && name@ == xml_tag_at(
                        input@,
                        i,
                    ).1,
                    None => name@ == Seq::<char>::empty(),
                }
            },
            Err(DocumentError::UnexpectedNamespace(ns)) => {
                &&& crate::text::trim(input@).len() > 0
                &&& xml_parses(input@)
                &&& match xml_root_element(input@) {
                    Some(i) => xml_tag_at(input@, i).1 == svg_name() && xml_tag_at(input@, i).0
                        == Some(ns@) && ns@ != svg_namespace(),
                    None => false,
                }
            },
            Err(_) => true,
        },
{
    let cs = crate::text::chars_of(input);
    if crate::text::trim_chars(cs.as_slice()).len() == 0 {
        return Err(DocumentError::Empty);
    }
    let tree = match parse_xml_tree(input) {
        Ok(t) => t,
        Err(e) => return Err(DocumentError::Xml(xml_error_message(&e))),
    };
    let doc = convert_document(&tree);
    proof {
        lemma_root_element_models(doc, input@);
    }
    let root = match doc.root_element() {
        Some(i) => i,
        None => {
            // A document without elements has no `<svg>` root.
            let empty = String::new();
            assert(empty@ =~= Seq::<char>::empty());
            return Err(DocumentError::UnexpectedRootElement(empty));
        },
    };
    let node = &doc.nodes[root];
    proof {
        assert(node_models(input@, root as int, *node));
    }
    let svg = "svg";
    proof {
        reveal_strlit("svg");
        assert(svg@ =~= svg_name());
    }
    if !str_equal(node.name.as_str(), svg) {
        return Err(DocumentError::UnexpectedRootElement(node.name.clone()));
    }
    match &node.namespace {
        None => {},
        Some(ns) => {
            if !str_equal(ns.as_str(), SVG_NAMESPACE) {
                return Err(DocumentError::UnexpectedNamespace(ns.clone()));
            }
        },
    }
    Ok(doc)
}

/// The root element's `width` attribute.
pub fn width<'a>(doc: &'a XmlDocument, root: usize) -> (r: Option<&'a str>)
    requires
        root < doc.nodes@.len(),
    ensures
        match r {
            Some(v) => doc.nodes@[root as int].spec_attribute("width"@) == Some(v@),
            None => doc.nodes@[root as int].spec_attribute("width"@) is None,
        },
{
    doc.nodes[root].attribute("width")
}

/// The root element's `height` attribute.
pub fn height<'a>(doc: &'a XmlDocument, root: usize) -> (r: Option<&'a str>)
    requires
        root < doc.nodes@.len(),
    ensures
        match r {
            Some(v) => doc.nodes@[root as int].spec_attribute("height"@) == Some(v@),
            None => doc.nodes@[root as int].spec_attribute("height"@) is None,
        },
{
    doc.nodes[root].attribute("height")
}

/// The root element's `viewBox` attribute.
pub fn view_box<'a>(doc: &'a XmlDocument, root: usize) -> (r: Option<&'a str>)
    requires
        root < doc.nodes@.len(),
    ensures
        match r {
            Some(v) => doc.nodes@[root as int].spec_attribute("viewBox"@) == Some(v@),
            None => doc.nodes@[root as int].spec_attribute("viewBox"@) is None,
        },
{
    doc.nodes[root].attribute("viewBox")
}

} // verus!
