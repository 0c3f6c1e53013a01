//! An SVG document with its CNC settings: each element's own `<desc>`
//! settings, the settings in effect for it (inherited from its ancestors),
//! and the origin marker.
use vstd::prelude::*;

use crate::document::{str_equal, DocumentError, XmlDocument, XmlNode};
use crate::gcode_desc::GCodeDesc;
use crate::number::{is_number_token, parse_number, Number, NumberError};

verus! {

pub open spec fn desc_key() -> Seq<char> {
    crate::document::SVG_NAMESPACE@ + seq![':', 'd', 'e', 's', 'c']
}

/// Node `c` is an SVG `<desc>` element child of node `i`.
pub open spec fn is_desc_child(doc: XmlDocument, i: int, c: int) -> bool {
    &&& doc.is_element_child(c, i)
    &&& doc.nodes@[c].key() == desc_key()
}

/// The first `<desc>` child of node `i`, if it has one.
pub open spec fn first_desc_child(doc: XmlDocument, i: int) -> Option<int> {
    if exists|c: int| is_desc_child(doc, i, c) && forall|d: int| 0 <= d < c ==> !#[trigger] is_desc_child(doc, i, d) {
        Some(choose|c: int| is_desc_child(doc, i, c) && forall|d: int| 0 <= d < c ==> !#[trigger] is_desc_child(doc, i, d))
    } else {
        None
    }
}

/// The texts of the children of node `c` from position `j` on, joined.
pub open spec fn child_texts_from(doc: XmlDocument, c: int, j: int) -> Seq<char>
    decreases doc.nodes@.len() - j,
{
    if j < 0 || j >= doc.nodes@.len() {
        seq![]
    } else {
        let here = if doc.nodes@[j].parent == Some(c as usize) {
            match doc.nodes@[j].text {
                Some(t) => t@,
                None => seq![],
            }
        } else {
            seq![]
        };
        here + child_texts_from(doc, c, j + 1)
    }
}

/// The text of node `i`'s own `<desc>`: the texts of that desc's children,
/// joined. This is the YAML that holds the node's `GCodeDesc`.
pub open spec fn spec_own_desc_text(doc: XmlDocument, i: int) -> Option<Seq<char>> {
    match first_desc_child(doc, i) {
        Some(c) => Some(child_texts_from(doc, c, 0)),
        None => None,
    }
}

fn append_text(out: &mut String, t: &str)
    ensures
        final(out)@ == old(out)@ + t@,
{
    out.append(t);
}

/// The text of node `i`'s own `<desc>` child (the first one), if it has one.
pub fn own_desc_text(doc: &XmlDocument, i: usize) -> (r: Option<String>)
    ensures
        match r {
            Some(t) => spec_own_desc_text(*doc, i as int) == Some(t@),
            None => spec_own_desc_text(*doc, i as int) is None,
        },
{
    let n = doc.nodes.len();
    let mut c: usize = 0;
    let key_desc = desc_key_string();
    while c < n
        invariant
            c <= n,
            n == doc.nodes@.len(),
            key_desc@ == desc_key(),
            forall|d: int| 0 <= d < c ==> !#[trigger] is_desc_child(*doc, i as int, d),
        decreases n - c,
    {
        let node = &doc.nodes[c];
        if node.kind == crate::document::XmlNodeKind::Element && node.parent == Some(i)
            && str_equal(node.tag_key().as_str(), key_desc.as_str()) {
            proof {
                assert(is_desc_child(*doc, i as int, c as int));
                let w = choose|w: int|
                    is_desc_child(*doc, i as int, w) && forall|d: int|
                        0 <= d < w ==> !#[trigger] is_desc_child(*doc, i as int, d);
                assert(is_desc_child(*doc, i as int, w));
                if w < c {
                    assert(!is_desc_child(*doc, i as int, w));
                }
                if c < w {
                    assert(!is_desc_child(*doc, i as int, c as int));
                }
            }
            return Some(child_texts(doc, c));
        }
        c += 1;
    }
    None
}

pub fn desc_key_string() -> (r: String)
    ensures
        r@ == desc_key(),
{
    let mut r = crate::document::SVG_NAMESPACE.to_owned();
    proof {
        reveal_strlit(":desc");
    }
    r.append(":desc");
    assert(r@ =~= desc_key());
    r
}

/// The texts of the children of node `c`, joined.
fn child_texts(doc: &XmlDocument, c: usize) -> (r: String)
    ensures
        r@ == child_texts_from(*doc, c as int, 0),
{
    let n = doc.nodes.len();
    let mut out = String::new();
    let mut j: usize = 0;
    while j < n
        invariant
            j <= n,
            n == doc.nodes@.len(),
            child_texts_from(*doc, c as int, 0) =~= out@ + child_texts_from(*doc, c as int, j as int),
        decreases n - j,
    {
        let node = &doc.nodes[j];
        if node.parent == Some(c) {
            match &node.text {
                Some(t) => append_text(&mut out, t.as_str()),
                None => {},
            }
        }
        j += 1;
    }
    out
}

/// The settings of element `i`'s own `<desc>` (non-elements have none).
pub open spec fn own_desc(doc: XmlDocument, descs: Seq<Option<GCodeDesc>>, i: int) -> Option<GCodeDesc> {
    if 0 <= i < descs.len() && 0 <= i < doc.nodes@.len() && doc.nodes@[i].is_element() {
        descs[i]
    } else {
        None
    }
}

/// The settings in effect for element `i`: its own, or else those in
/// effect for its parent element.
pub open spec fn effective_desc(doc: XmlDocument, descs: Seq<Option<GCodeDesc>>, i: int) -> Option<GCodeDesc>
    decreases i,
{
    match own_desc(doc, descs, i) {
        Some(d) => Some(d),
        None => if 0 <= i < doc.nodes@.len() && doc.nodes@[i].is_element() {
            match doc.nodes@[i].parent {
                Some(p) => if 0 <= p < i && doc.nodes@[p as int].is_element() {
                    effective_desc(doc, descs, p as int)
                } else {
                    None
                },
                None => None,
            }
        } else {
            None
        },
    }
}

/// Settings are inherited down the tree of elements: the root element's
/// settings in effect are its own, and an element whose parent is an
/// element has its own settings in effect, or else its parent's.
pub proof fn law_effective_desc_inherits(doc: XmlDocument, descs: Seq<Option<GCodeDesc>>, i: int)
    requires
        doc.wf(),
        doc.rooted(),
        0 <= i < doc.nodes@.len(),
        doc.nodes@[i].is_element(),
    ensures
        doc.is_root_element(i) ==> effective_desc(doc, descs, i) == own_desc(doc, descs, i),
        (doc.nodes@[i].parent matches Some(p) && doc.nodes@[p as int].is_element()) ==> effective_desc(
            doc,
            descs,
            i,
        ) == match own_desc(doc, descs, i) {
            Some(d) => Some(d),
            None => effective_desc(doc, descs, doc.nodes@[i].parent.unwrap() as int),
        },
{
    assert(match doc.nodes@[i].parent {
        Some(p) => p < i,
        None => true,
    });
    if doc.is_root_element(i) {
        assert(doc.nodes@[0].kind == crate::document::XmlNodeKind::Root);
    }
}

/// Element `i`'s own settings mark it as the origin.
pub open spec fn marks_origin(doc: XmlDocument, descs: Seq<Option<GCodeDesc>>, i: int) -> bool {
    own_desc(doc, descs, i) matches Some(d) && d.origin_marker
}

/// The last element, in document order, that marks the origin.
pub open spec fn last_origin_marker(doc: XmlDocument, descs: Seq<Option<GCodeDesc>>) -> Option<int> {
    if exists|i: int| 0 <= i < doc.nodes@.len() && marks_origin(doc, descs, i) {
        Some(choose|i: int| 0 <= i < doc.nodes@.len() && marks_origin(doc, descs, i) && forall|j: int| i < j < doc.nodes@.len() ==> !#[trigger] marks_origin(doc, descs, j))
    } else {
        None
    }
}

pub open spec fn circle_name() -> Seq<char> {
    seq!['c', 'i', 'r', 'c', 'l', 'e']
}

pub open spec fn cx_name() -> Seq<char> {
    seq!['c', 'x']
}

pub open spec fn cy_name() -> Seq<char> {
    seq!['c', 'y']
}

#[derive(Debug, PartialEq, Eq)]
pub enum LoadError {
    Document(DocumentError),
    /// The origin marker is not a `<circle>`; the payload is its name.
    OriginMarkerNotCircle(String),
    /// The origin-marker circle lacks this attribute.
    OriginMarkerMissingAttribute(&'static str),
    /// The origin-marker circle's attribute is not a number.
    OriginMarkerInvalidAttribute { attribute: &'static str, source: NumberError },
}

/// The origin that `node`, marked as the origin, gives: the texts of its
/// `cx` and `cy`, or why it gives none.
pub open spec fn origin_of(node: XmlNode, r: Result<Option<(Number, Number)>, LoadError>) -> bool {
    if node.name@ != circle_name() {
        r matches Err(LoadError::OriginMarkerNotCircle(n)) && n@ == node.name@
    } else {
        match (node.spec_attribute(cx_name()), node.spec_attribute(cy_name())) {
            (None, _) => r matches Err(LoadError::OriginMarkerMissingAttribute(a)) && a@ == cx_name(),
            (Some(_), None) => r matches Err(LoadError::OriginMarkerMissingAttribute(a)) && a@ == cy_name(),
            (Some(x), Some(y)) => if !is_number_token(x) {
                r matches Err(LoadError::OriginMarkerInvalidAttribute { attribute, source: NumberError::NotANumber(t) })
                    && attribute@ == cx_name() && t@ == x
            } else if !is_number_token(y) {
                r matches Err(LoadError::OriginMarkerInvalidAttribute { attribute, source: NumberError::NotANumber(t) })
                    && attribute@ == cy_name() && t@ == y
            } else {
                r matches Ok(Some((a, b))) && a@ == x && b@ == y
            },
        }
    }
}

/// The origin given by the origin-marker element `node`.
pub fn resolve_origin_marker(node: &XmlNode) -> (r: Result<Option<(Number, Number)>, LoadError>)
    ensures
        origin_of(*node, r),
{
    proof {
        reveal_strlit("circle");
        reveal_strlit("cx");
        reveal_strlit("cy");
        assert("circle"@ =~= circle_name());
        assert("cx"@ =~= cx_name());
        assert("cy"@ =~= cy_name());
    }
    if !str_equal(node.name.as_str(), "circle") {
        return Err(LoadError::OriginMarkerNotCircle(node.name.clone()));
    }
    let cx = match node.attribute("cx") {
        Some(v) => v,
        None => return Err(LoadError::OriginMarkerMissingAttribute("cx")),
    };
    let cy = match node.attribute("cy") {
        Some(v) => v,
        None => return Err(LoadError::OriginMarkerMissingAttribute("cy")),
    };
    let x = match parse_number(cx) {
        Ok(x) => x,
        Err(source) => return Err(LoadError::OriginMarkerInvalidAttribute { attribute: "cx", source }),
    };
    let y = match parse_number(cy) {
        Ok(y) => y,
        Err(source) => return Err(LoadError::OriginMarkerInvalidAttribute { attribute: "cy", source }),
    };
    Ok(Some((x, y)))
}

fn copy_desc(d: &Option<GCodeDesc>) -> (r: Option<GCodeDesc>)
    ensures
        r == *d,
{
    match d {
        Some(x) => Some(x.duplicate()),
        None => None,
    }
}

/// An SVG document with its settings, read from an `XmlDocument`.
#[derive(Debug)]
pub struct SvgxDocument {
    pub filename: String,
    /// Each node's own `<desc>` settings (only elements have any).
    pub gcode_descs: Vec<Option<GCodeDesc>>,
    /// The settings in effect for each node.
    pub effective_descs: Vec<Option<GCodeDesc>>,
    /// The `cx` and `cy` of the origin-marker circle, in user units.
    pub origin_marker: Option<(Number, Number)>,
}

/// Builds the document's settings from each node's own `<desc>` settings
/// (`descs[i]` for node `i`, parsed from `own_desc_text`).
pub fn load_document(filename: String, doc: &XmlDocument, descs: Vec<Option<GCodeDesc>>) -> (r: Result<SvgxDocument, LoadError>)
    requires
        doc.wf(),
    ensures
        match last_origin_marker(*doc, descs@) {
            Some(m) => origin_of(doc.nodes@[m], match r {
                Ok(sd) => Ok(sd.origin_marker),
                Err(e) => Err(e),
            }),
            None => r matches Ok(sd) && sd.origin_marker is None,
        },
        r matches Ok(sd) ==> {
            &&& sd.filename == filename
            &&& sd.gcode_descs@.len() == doc.nodes@.len()
            &&& sd.effective_descs@.len() == doc.nodes@.len()
            &&& forall|i: int| 0 <= i < doc.nodes@.len() ==> #[trigger] sd.gcode_descs@[i] == own_desc(*doc, descs@, i)
            &&& forall|i: int| 0 <= i < doc.nodes@.len() ==> #[trigger] sd.effective_descs@[i] == effective_desc(*doc, descs@, i)
        },
{
    let n = doc.nodes.len();
    let mut own: Vec<Option<GCodeDesc>> = Vec::new();
    let mut effective: Vec<Option<GCodeDesc>> = Vec::new();
    let mut marker: Option<usize> = None;
    let mut i: usize = 0;
    while i < n
        invariant
            i <= n,
            n == doc.nodes@.len(),
            doc.wf(),
            own@.len() == i,
            effective@.len() == i,
            forall|j: int| 0 <= j < i ==> #[trigger] own@[j] == own_desc(*doc, descs@, j),
            forall|j: int| 0 <= j < i ==> #[trigger] effective@[j] == effective_desc(*doc, descs@, j),
            match marker {
                Some(m) => m < i && marks_origin(*doc, descs@, m as int) && forall|j: int| m < j < i ==> !#[trigger] marks_origin(*doc, descs@, j),
                None => forall|j: int| 0 <= j < i ==> !#[trigger] marks_origin(*doc, descs@, j),
            },
        decreases n - i,
    {
        let node = &doc.nodes[i];
        let is_element = node.kind == crate::document::XmlNodeKind::Element;
        let mine: Option<GCodeDesc> = if is_element && i < descs.len() {
            copy_desc(&descs[i])
        } else {
            None
        };
        assert(mine == own_desc(*doc, descs@, i as int));
        let eff: Option<GCodeDesc> = match &mine {
            Some(d) => Some(d.duplicate()),
            None => if is_element {
                match node.parent {
                    Some(p) => {
                        assert(p < i);
                        if doc.nodes[p].kind == crate::document::XmlNodeKind::Element {
                            copy_desc(&effective[p])
                        } else {
                            None
                        }
                    },
                    None => None,
                }
            } else {
                None
            },
        };
        assert(eff == effective_desc(*doc, descs@, i as int));
        match &mine {
            Some(d) => if d.origin_marker {
                marker = Some(i);
            },
            None => {},
        }
        own.push(mine);
        effective.push(eff);
        i += 1;
    }
    let origin_marker = match marker {
        Some(m) => {
            proof {
                let w = choose|w: int| 0 <= w < doc.nodes@.len() && marks_origin(*doc, descs@, w) && forall|j: int| w < j < doc.nodes@.len() ==> !#[trigger] marks_origin(*doc, descs@, j);
                assert(0 <= w < doc.nodes@.len() && marks_origin(*doc, descs@, w));
                if w < m {
                    assert(!marks_origin(*doc, descs@, m as int));
                }
                if m < w {
                    assert(!marks_origin(*doc, descs@, w));
                }
            }
            resolve_origin_marker(&doc.nodes[m])?
        },
        None => None,
    };
    Ok(SvgxDocument { filename, gcode_descs: own, effective_descs: effective, origin_marker })
}

} // verus!
