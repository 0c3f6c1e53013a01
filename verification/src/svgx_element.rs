//! How a document is carved: which elements are visited, in which order,
//! under which transforms, and what each of them carves.
use vstd::prelude::*;

use crate::document::{str_equal, XmlDocument, XmlNode, XmlNodeKind, SVG_NAMESPACE};
use crate::gcode_desc::{is_cut_depth_of, is_safe_height_of, CutDepth, GCodeDesc, ResolveError};
use crate::length::{spec_parse_length, Length};
use crate::svgx_document::{cx_name, cy_name, desc_key, desc_key_string, SvgxDocument};
use crate::transform::{
    duplicate_transforms, parse_transform_list, spec_parse_transform_list, transform_views,
    Transform,
};

verus! {

/// An element whose key is empty or is SVG's `desc` is not carved, and
/// neither are its descendants.
pub open spec fn stops(node: XmlNode) -> bool {
    node.key().len() == 0 || node.key() == desc_key()
}

/// Element `i` is reached when the document is carved: it is the root
/// element, or a child element of a reached element that does not stop.
pub open spec fn is_visited(doc: XmlDocument, i: int) -> bool
    decreases i,
{
    &&& 0 <= i < doc.nodes@.len()
    &&& doc.nodes@[i].is_element()
    &&& (doc.is_root_element(i) || match doc.nodes@[i].parent {
        Some(p) => 0 <= p < i && is_visited(doc, p as int) && !stops(doc.nodes@[p as int]),
        None => false,
    })
}

/// Element `i` is carved (it is reached and does not stop).
pub open spec fn is_step(doc: XmlDocument, i: int) -> bool {
    is_visited(doc, i) && !stops(doc.nodes@[i])
}

pub open spec fn transform_name() -> Seq<char> {
    seq!['t', 'r', 'a', 'n', 's', 'f', 'o', 'r', 'm']
}

/// The transforms of an element's own `transform` attribute; an empty or
/// malformed attribute gives none.
pub open spec fn own_transforms(node: XmlNode) -> Seq<(Seq<char>, Seq<Seq<char>>)> {
    match node.spec_attribute(transform_name()) {
        Some(t) => if t.len() > 0 {
            match spec_parse_transform_list(t) {
                Ok(ts) => ts,
                Err(_) => seq![],
            }
        } else {
            seq![]
        },
        None => seq![],
    }
}

/// The transforms that apply to element `i`: its own, then those of its
/// ancestors up to the root element (the innermost comes first).
pub open spec fn transform_chain(doc: XmlDocument, i: int) -> Seq<(Seq<char>, Seq<Seq<char>>)>
    decreases i,
{
    if !(0 <= i < doc.nodes@.len()) {
        seq![]
    } else {
        own_transforms(doc.nodes@[i]) + if doc.is_root_element(i) {
            seq![]
        } else {
            match doc.nodes@[i].parent {
                Some(p) => if 0 <= p < i {
                    transform_chain(doc, p as int)
                } else {
                    seq![]
                },
                None => seq![],
            }
        }
    }
}

/// Why carving stopped.
#[derive(Debug, PartialEq, Eq)]
pub enum CarveError {
    /// A carve-depth sentinel could not be resolved.
    Resolve(ResolveError),
}

/// The attribute texts that describe a circle (before they are parsed).
#[derive(Debug, PartialEq)]
pub struct CircleText {
    pub cx: String,
    pub cy: String,
    pub rx: String,
    pub ry: String,
}

/// What an element's path is made from.
#[derive(Debug, PartialEq)]
pub enum PathSource {
    /// A `<path>`'s `d` attribute.
    Path(String),
    /// A `<circle>`'s center and radii.
    Circle(CircleText),
}

/// What a carved element carves.
#[derive(Debug, PartialEq)]
pub struct CarveJob {
    /// The safe height, if the settings give one that is a length.
    pub safe_height: Option<Length>,
    /// The depth to carve to.
    pub depth: CutDepth,
    /// The path to carve, if the element has one.
    pub path: Option<PathSource>,
}

/// One carved element.
#[derive(Debug, PartialEq)]
pub struct CarveStep {
    /// The element's position in the document.
    pub node: usize,
    /// The key of its tag name.
    pub key: String,
    /// Its `id` attribute (empty when it has none).
    pub id: String,
    /// The transforms that apply to it, innermost first.
    pub transforms: Vec<Transform>,
    /// What it carves, when its settings give a carve depth.
    pub job: Option<CarveJob>,
}

pub open spec fn path_key() -> Seq<char> {
    SVG_NAMESPACE@ + seq![':', 'p', 'a', 't', 'h']
}

pub open spec fn circle_key() -> Seq<char> {
    SVG_NAMESPACE@ + seq![':', 'c', 'i', 'r', 'c', 'l', 'e']
}

pub open spec fn auto_text() -> Seq<char> {
    seq!['a', 'u', 't', 'o']
}

/// The value of `node`'s attribute `name`, or `default` when it has none.
pub open spec fn attribute_or(node: XmlNode, name: Seq<char>, default: Seq<char>) -> Seq<char> {
    match node.spec_attribute(name) {
        Some(v) => v,
        None => default,
    }
}

pub open spec fn ends_with_percent(t: Seq<char>) -> bool {
    t.len() > 0 && t.last() == '%'
}

/// `c` holds `node`'s `cx`, `cy`, `rx` and `ry` (defaults `0`, `0`, `auto`,
/// `auto`), or is `None` when one of them is a percentage.
pub open spec fn circle_text_of(node: XmlNode, c: Option<CircleText>) -> bool {
    let cx = attribute_or(node, cx_name(), seq!['0']);
    let cy = attribute_or(node, cy_name(), seq!['0']);
    let rx = attribute_or(node, seq!['r', 'x'], auto_text());
    let ry = attribute_or(node, seq!['r', 'y'], auto_text());
    if ends_with_percent(cx) || ends_with_percent(cy) || ends_with_percent(rx) || ends_with_percent(
        ry,
    ) {
        c is None
    } else {
        c matches Some(t) && t.cx@ == cx && t.cy@ == cy && t.rx@ == rx && t.ry@ == ry
    }
}

/// `p` is what `node`'s path is made from: a `<path>`'s `d`, a
/// `<circle>`'s parameters, or nothing.
pub open spec fn path_source_of(node: XmlNode, p: Option<PathSource>) -> bool {
    if node.key() == path_key() {
        match node.spec_attribute(seq!['d']) {
            Some(d) => p matches Some(PathSource::Path(s)) && s@ == d,
            None => p is None,
        }
    } else if node.key() == circle_key() {
        match p {
            Some(PathSource::Circle(t)) => circle_text_of(node, Some(t)),
            Some(PathSource::Path(_)) => false,
            None => circle_text_of(node, None),
        }
    } else {
        p is None
    }
}

/// `job` is what `node` carves under the settings `eff`: nothing unless
/// they give a carve depth, and nothing when that depth is a sentinel but
/// the element has no path (a sentinel is resolved only where there is a
/// path or circle to carve).
pub open spec fn job_of(node: XmlNode, eff: Option<GCodeDesc>, job: Option<CarveJob>) -> bool {
    match eff {
        Some(d) => match d.carve_depth {
            Some(raw) => if spec_parse_length(raw@) is None && path_source_of(node, None) {
                job is None
            } else {
                job matches Some(j) && is_cut_depth_of(j.depth, raw@) && is_safe_height_of(
                    d,
                    j.safe_height,
                ) && path_source_of(node, j.path)
            },
            None => job is None,
        },
        None => job is None,
    }
}

/// `s` describes the carving of the element it names.
pub open spec fn step_of(doc: XmlDocument, sd: SvgxDocument, s: CarveStep) -> bool {
    let i = s.node as int;
    let node = doc.nodes@[i];
    &&& is_step(doc, i)
    &&& s.key@ == node.key()
    &&& s.id@ == attribute_or(node, seq!['i', 'd'], seq![])
    &&& transform_views(s.transforms@) == transform_chain(doc, i)
    &&& job_of(node, sd.effective_descs@[i], s.job)
}

fn attribute_or_default(node: &XmlNode, name: &str, default: &str) -> (r: String)
    ensures
        r@ == attribute_or(*node, name@, default@),
{
    match node.attribute(name) {
        Some(v) => v.to_owned(),
        None => default.to_owned(),
    }
}

fn ends_with_percent_text(t: &String) -> (r: bool)
    ensures
        r == ends_with_percent(t@),
{
    let cs = crate::text::chars_of(t.as_str());
    cs.len() > 0 && cs[cs.len() - 1] == '%'
}

/// A circle's `cx`, `cy`, `rx` and `ry` texts, or `None` when one of them is
/// a percentage (percentages are not supported).
pub fn circle_parameters(node: &XmlNode) -> (r: Option<CircleText>)
    ensures
        circle_text_of(*node, r),
{
    proof {
        reveal_strlit("cx");
        reveal_strlit("cy");
        reveal_strlit("rx");
        reveal_strlit("ry");
        reveal_strlit("0");
        reveal_strlit("auto");
        assert("cx"@ =~= cx_name());
        assert("cy"@ =~= cy_name());
        assert("rx"@ =~= seq!['r', 'x']);
        assert("ry"@ =~= seq!['r', 'y']);
        assert("0"@ =~= seq!['0']);
        assert("auto"@ =~= auto_text());
    }
    let cx = attribute_or_default(node, "cx", "0");
    let cy = attribute_or_default(node, "cy", "0");
    let rx = attribute_or_default(node, "rx", "auto");
    let ry = attribute_or_default(node, "ry", "auto");
    if ends_with_percent_text(&cx) || ends_with_percent_text(&cy) || ends_with_percent_text(&rx)
        || ends_with_percent_text(&ry) {
        return None;
    }
    Some(CircleText { cx, cy, rx, ry })
}

fn key_string(suffix: &str) -> (r: String)
    ensures
        r@ == SVG_NAMESPACE@ + seq![':'] + suffix@,
{
    let mut r = SVG_NAMESPACE.to_owned();
    proof {
        reveal_strlit(":");
    }
    r.append(":");
    r.append(suffix);
    r
}

/// What an element's path is made from, if it has one.
pub fn element_path_data(node: &XmlNode) -> (r: Option<PathSource>)
    ensures
        path_source_of(*node, r),
{
    proof {
        reveal_strlit("path");
        reveal_strlit("circle");
        reveal_strlit("d");
        assert("d"@ =~= seq!['d']);
    }
    let key = node.tag_key();
    let path_k = key_string("path");
    let circle_k = key_string("circle");
    assert(path_k@ =~= path_key());
    assert(circle_k@ =~= circle_key());
    if str_equal(key.as_str(), path_k.as_str()) {
        match node.attribute("d") {
            Some(d) => Some(PathSource::Path(d.to_owned())),
            None => None,
        }
    } else if str_equal(key.as_str(), circle_k.as_str()) {
        match circle_parameters(node) {
            Some(c) => Some(PathSource::Circle(c)),
            None => None,
        }
    } else {
        None
    }
}

/// What `node` carves under the settings `eff`.
pub fn carve_job(node: &XmlNode, eff: &Option<GCodeDesc>) -> (r: Option<CarveJob>)
    ensures
        job_of(*node, *eff, r),
{
    match eff {
        Some(d) => match d.carve_depth() {
            Some(depth) => {
                let path = element_path_data(node);
                let unresolvable = match (&depth, &path) {
                    (CutDepth::Sentinel(_), None) => true,
                    _ => false,
                };
                if unresolvable {
                    None
                } else {
                    Some(CarveJob { safe_height: d.get_safe_height(), depth, path })
                }
            },
            None => None,
        },
        None => None,
    }
}

/// The transforms of an element's own `transform` attribute.
pub fn element_transforms(node: &XmlNode) -> (r: Vec<Transform>)
    ensures
        transform_views(r@) == own_transforms(*node),
{
    proof {
        reveal_strlit("transform");
        assert("transform"@ =~= transform_name());
    }
    let none: Vec<Transform> = Vec::new();
    assert(transform_views(none@) =~= seq![]);
    match node.attribute("transform") {
        Some(t) => if !t.is_empty() {
            match parse_transform_list(t) {
                Ok(ts) => ts,
                Err(_) => none,
            }
        } else {
            none
        },
        None => none,
    }
}

fn stops_key(key: &String, desc_k: &String) -> (r: bool)
    requires
        desc_k@ == desc_key(),
    ensures
        r == (key@.len() == 0 || key@ == desc_key()),
{
    key.as_str().is_empty() || str_equal(key.as_str(), desc_k.as_str())
}

impl SvgxDocument {
    /// The elements that carving the document carves, in document order:
    /// each with the transforms that apply to it (innermost first; the
    /// document-level transforms follow them) and what it carves.
    pub fn carve_plan(&self, doc: &XmlDocument) -> (plan: Vec<CarveStep>)
        requires
            doc.wf(),
            self.effective_descs@.len() == doc.nodes@.len(),
        ensures
            forall|k: int| 0 <= k < plan@.len() ==> step_of(*doc, *self, #[trigger] plan@[k]),
            forall|k1: int, k2: int|
                0 <= k1 < k2 < plan@.len() ==> (#[trigger] plan@[k1]).node < (#[trigger] plan@[k2]).node,
            forall|i: int| #[trigger] is_step(*doc, i) ==> exists|k: int| 0 <= k < plan@.len() && (#[trigger] plan@[k]).node == i,
    {
        let n = doc.nodes.len();
        let root = doc.root_element();
        let desc_k = desc_key_string();
        let mut visited: Vec<bool> = Vec::new();
        let mut stopped: Vec<bool> = Vec::new();
        let mut chains: Vec<Vec<Transform>> = Vec::new();
        let mut plan: Vec<CarveStep> = Vec::new();
        let mut i: usize = 0;
        while i < n
            invariant
                i <= n,
                n == doc.nodes@.len(),
                doc.wf(),
                self.effective_descs@.len() == n,
                desc_k@ == desc_key(),
                match root {
                    Some(r) => doc.spec_root_element() == Some(r as int),
                    None => doc.spec_root_element() is None,
                },
                visited@.len() == i,
                stopped@.len() == i,
                chains@.len() == i,
                forall|j: int| 0 <= j < i ==> #[trigger] visited@[j] == is_visited(*doc, j),
                forall|j: int| 0 <= j < i ==> #[trigger] stopped@[j] == stops(doc.nodes@[j]),
                forall|j: int| 0 <= j < i && is_visited(*doc, j) ==> transform_views(#[trigger] chains@[j]@) == transform_chain(*doc, j),
                forall|k: int| 0 <= k < plan@.len() ==> step_of(*doc, *self, #[trigger] plan@[k]),
                forall|k: int| 0 <= k < plan@.len() ==> (#[trigger] plan@[k]).node < i,
                forall|k1: int, k2: int|
                    0 <= k1 < k2 < plan@.len() ==> (#[trigger] plan@[k1]).node < (#[trigger] plan@[k2]).node,
                forall|j: int| 0 <= j < i && #[trigger] is_step(*doc, j) ==> exists|k: int| 0 <= k < plan@.len() && (#[trigger] plan@[k]).node == j,
            decreases n - i,
        {
            let node = &doc.nodes[i];
            let key = node.tag_key();
            let stops_here = stops_key(&key, &desc_k);
            let is_root = match root {
                Some(r) => r == i,
                None => false,
            };
            proof {
                if is_root {
                    let r = doc.spec_root_element().unwrap();
                    assert(doc.is_root_element(r));
                } else {
                    if doc.is_root_element(i as int) {
                        assert(exists|w: int| doc.is_root_element(w));
                        let w = choose|w: int| doc.is_root_element(w);
                        assert(doc.is_root_element(w));
                        if w < i {
                            assert(!doc.is_element_child(w, 0));
                        }
                        if i < w {
                            assert(!doc.is_element_child(i as int, 0));
                        }
                    }
                }
            }
            let parent_ok = match node.parent {
                Some(p) => {
                    assert(p < i);
                    visited[p] && !stopped[p]
                },
                None => false,
            };
            let vis = node.kind == XmlNodeKind::Element && (is_root || parent_ok);
            assert(vis == is_visited(*doc, i as int));
            let mut chain: Vec<Transform> = Vec::new();
            if vis {
                chain = element_transforms(node);
                if !is_root {
                    match node.parent {
                        Some(p) => {
                            let mut up = duplicate_transforms(&chains[p]);
                            let ghost before = chain@;
                            chain.append(&mut up);
                            proof {
                                assert(transform_views(chain@) =~= transform_views(before) + transform_chain(*doc, p as int));
                            }
                        },
                        None => {},
                    }
                } else {
                    assert(transform_views(chain@) =~= transform_views(chain@) + seq![]);
                }
                assert(transform_views(chain@) == transform_chain(*doc, i as int));
            }
            if vis && !stops_here {
                let id = attribute_or_default(node, "id", "");
                proof {
                    reveal_strlit("id");
                    reveal_strlit("");
                    assert("id"@ =~= seq!['i', 'd']);
                    assert(""@ =~= seq![]);
                }
                let step = CarveStep {
                    node: i,
                    key,
                    id,
                    transforms: duplicate_transforms(&chain),
                    job: carve_job(node, &self.effective_descs[i]),
                };
                assert(step_of(*doc, *self, step));
                let ghost old_plan = plan@;
                plan.push(step);
                proof {
                    assert(plan@[plan@.len() - 1].node == i);
                    assert forall|j: int| 0 <= j < i + 1 && #[trigger] is_step(*doc, j) implies exists|k: int| 0 <= k < plan@.len() && (#[trigger] plan@[k]).node == j by {
                        if j < i {
                            let k = choose|k: int| 0 <= k < old_plan.len() && (#[trigger] old_plan[k]).node == j;
                            assert(plan@[k] == old_plan[k]);
                        } else {
                            assert(plan@[plan@.len() - 1].node == j);
                        }
                    }
                }
            } else {
                proof {
                    assert forall|j: int| 0 <= j < i + 1 && #[trigger] is_step(*doc, j) implies exists|k: int| 0 <= k < plan@.len() && (#[trigger] plan@[k]).node == j by {
                        if j == i {
                            assert(!is_step(*doc, j));
                        }
                    }
                }
            }
            visited.push(vis);
            stopped.push(stops_here);
            chains.push(chain);
            i += 1;
        }
        plan
    }
}

} // verus!
