use crate::config::{spec_parse_config, EwwConfig};
use crate::error::{ConfigError, ErrorKind};
use crate::xml::{Pos, XmlElement, XmlNode};
use vstd::prelude::*;

verus! {

/// One node of a parsed document in preorder: whether it is an element
/// or character data, its tag or text, its attributes, how many child
/// nodes follow it in the list, and where it starts in the source.
#[derive(Debug, PartialEq)]
pub struct FlatNode {
    pub is_element: bool,
    pub is_text: bool,
    pub tag: String,
    pub text: String,
    pub attrs: Vec<(String, String)>,
    pub n_children: usize,
    pub line: u32,
    pub col: u32,
}

/// The preorder node list that parsing the markup text yields; `None`
/// when the text is not well-formed markup.
pub uninterp spec fn flat_doc_of(text: Seq<char>) -> Option<Vec<FlatNode>>;

/// Relies on roxmltree::Document::parse: whether the text parses, and
/// the tree it denotes, depend on the text alone. The root element and
/// its descendants are handed over in preorder with their child counts.
#[verifier::external_body]
fn parse_flat(text: &str) -> (r: Result<Vec<FlatNode>, String>)
    ensures
        r matches Ok(v) ==> flat_doc_of(text@) == Some(v),
        r is Err ==> flat_doc_of(text@) is None,
{
    let doc = match roxmltree::Document::parse(text) {
        Ok(d) => d,
        Err(e) => return Err(format!("{}", e)),
    };
    Ok(doc.root_element().descendants().map(|n| FlatNode {
        is_element: n.is_element(),
        is_text: n.is_text(),
        tag: n.tag_name().name().to_string(),
        text: n.text().unwrap_or("").to_string(),
        attrs: n.attributes().map(|a| (a.name().to_string(), a.value().to_string())).collect(),
        n_children: n.children().count(),
        line: doc.text_pos_at(n.range().start).row,
        col: doc.text_pos_at(n.range().start).col,
    }).collect())
}

/// The mathematical image of an element: everything but the identity of
/// its strings.
pub struct ElemV {
    pub tag: Seq<char>,
    pub attrs: Seq<(Seq<char>, Seq<char>)>,
    pub children: Seq<NodeV>,
    pub pos: Pos,
}

pub enum NodeV {
    Elem(ElemV),
    Text(Seq<char>),
}

pub open spec fn attr_views(s: Seq<(String, String)>) -> Seq<(Seq<char>, Seq<char>)> {
    Seq::new(s.len(), |i: int| (s[i].0@, s[i].1@))
}

pub open spec fn elem_view(e: XmlElement) -> ElemV
    decreases e,
{
    ElemV {
        tag: e.tag@,
        attrs: attr_views(e.attrs@),
        children: nodes_view(e.children@),
        pos: e.pos,
    }
}

pub open spec fn nodes_view(s: Seq<XmlNode>) -> Seq<NodeV>
    decreases s,
{
    if s.len() == 0 {
        Seq::empty()
    } else {
        nodes_view(s.drop_last()).push(node_view(s.last()))
    }
}

pub open spec fn node_view(n: XmlNode) -> NodeV
    decreases n,
{
    match n {
        XmlNode::Element(e) => NodeV::Elem(elem_view(e)),
        XmlNode::Text(t) => NodeV::Text(t@),
    }
}

/// Markup whitespace: what may stand between elements without meaning.
pub open spec fn is_ws_char(c: char) -> bool {
    c == ' ' || c == '\t' || c == '\n' || c == '\r'
}

pub open spec fn is_ws_only(s: Seq<char>) -> bool {
    forall|i: int| 0 <= i < s.len() ==> is_ws_char(#[trigger] s[i])
}

proof fn lemma_ws_is_ascii(s: Seq<char>)
    requires
        is_ws_only(s),
    ensures
        vstd::utf8::is_ascii_chars(s),
{
    assert forall|i: int| 0 <= i < s.len() implies '\0' <= #[trigger] s[i] <= '\u{7f}' by {
        assert(is_ws_char(s[i]));
    }
}

/// Whether the text consists only of markup whitespace.
fn ws_only_text(s: &str) -> (r: bool)
    ensures
        r == is_ws_only(s@),
{
    broadcast use vstd::string::group_string_axioms;

    if !s.is_ascii() {
        proof {
            if is_ws_only(s@) {
                lemma_ws_is_ascii(s@);
            }
        }
        return false;
    }
    let bytes = s.as_bytes();
    let n = bytes.len();
    proof {
        assert(bytes@ =~= Seq::new(s@.len(), |i: int| s@[i] as u8));
    }
    let mut i: usize = 0;
    while i < n
        invariant
            0 <= i <= n,
            n == s@.len(),
            bytes@ =~= Seq::new(s@.len(), |j: int| s@[j] as u8),
            vstd::utf8::is_ascii_chars(s@),
            forall|j: int| 0 <= j < i ==> is_ws_char(#[trigger] s@[j]),
        decreases n - i,
    {
        let b = bytes[i];
        proof {
            assert(b == s@[i as int] as u8);
            assert('\0' <= s@[i as int] <= '\u{7f}');
        }
        if !(b == 32 || b == 9 || b == 10 || b == 13) {
            proof {
                assert(!is_ws_char(s@[i as int]));
            }
            return false;
        }
        proof {
            assert(is_ws_char(s@[i as int]));
        }
        i = i + 1;
    }
    true
}

/// Rebuilding one preorder entry: an element consumes its children,
/// character data that is only whitespace is dropped, and any other
/// node kind is dropped; a child count on a childless kind, or an index
/// past the end, means the list is not a preorder tree.
pub open spec fn spec_build_one(flat: Seq<FlatNode>, i: int) -> Option<(Option<NodeV>, int)>
    decreases flat.len() - i, 0int,
{
    if i < 0 || i >= flat.len() {
        None
    } else {
        let f = flat[i];
        if f.is_element {
            match spec_build_many(flat, i + 1, f.n_children as int) {
                None => None,
                Some((nodes, next)) => Some(
                    (
                        Some(
                            NodeV::Elem(
                                ElemV {
                                    tag: f.tag@,
                                    attrs: attr_views(f.attrs@),
                                    children: nodes,
                                    pos: Pos { line: f.line, col: f.col },
                                },
                            ),
                        ),
                        next,
                    ),
                ),
            }
        } else if f.is_text {
            if f.n_children != 0 {
                None
            } else if is_ws_only(f.text@) {
                Some((None, i + 1))
            } else {
                Some((Some(NodeV::Text(f.text@)), i + 1))
            }
        } else {
            if f.n_children != 0 {
                None
            } else {
                Some((None, i + 1))
            }
        }
    }
}

pub open spec fn spec_build_many(flat: Seq<FlatNode>, i: int, k: int) -> Option<(Seq<NodeV>, int)>
    decreases flat.len() - i, k,
{
    if k <= 0 {
        Some((Seq::empty(), i))
    } else if i >= flat.len() {
        None
    } else {
        match spec_build_one(flat, i) {
            None => None,
            Some((opt, mid)) => {
                let mid2 = if mid <= i {
                    i + 1
                } else if mid > flat.len() {
                    flat.len() as int
                } else {
                    mid
                };
                match spec_build_many(flat, mid2, k - 1) {
                    None => None,
                    Some((rest, next)) => match opt {
                        None => Some((rest, next)),
                        Some(v) => Some((Seq::empty().push(v) + rest, next)),
                    },
                }
            },
        }
    }
}

/// The whole list rebuilt: entry 0 must be an element and the list must
/// hold exactly its subtree.
pub open spec fn spec_build_root(flat: Seq<FlatNode>) -> Option<ElemV> {
    match spec_build_one(flat, 0) {
        None => None,
        Some((opt, next)) => match opt {
            Some(NodeV::Elem(ev)) => if next == flat.len() {
                Some(ev)
            } else {
                None
            },
            _ => None,
        },
    }
}

proof fn lemma_nodes_view_prepend(n: XmlNode, rest: Seq<XmlNode>)
    ensures
        nodes_view(Seq::empty().push(n) + rest) == Seq::<NodeV>::empty().push(node_view(n))
            + nodes_view(rest),
    decreases rest.len(),
{
    let s = Seq::empty().push(n) + rest;
    if rest.len() == 0 {
        assert(s.len() == 1);
        assert(s.drop_last() =~= Seq::<XmlNode>::empty());
        assert(s[0] == n);
        assert(s.last() == n);
        assert(nodes_view(s.drop_last()) == Seq::<NodeV>::empty());
        assert(nodes_view(s) == Seq::<NodeV>::empty().push(node_view(n)));
        assert(rest =~= Seq::<XmlNode>::empty());
        assert(nodes_view(rest) == Seq::<NodeV>::empty());
        assert(nodes_view(s) =~= Seq::<NodeV>::empty().push(node_view(n)) + nodes_view(rest));
    } else {
        assert(s.drop_last() =~= Seq::empty().push(n) + rest.drop_last());
        assert(s.last() == rest.last());
        lemma_nodes_view_prepend(n, rest.drop_last());
        assert(nodes_view(s) =~= Seq::<NodeV>::empty().push(node_view(n)) + nodes_view(rest));
    }
}

fn clone_attrs(src: &Vec<(String, String)>) -> (r: Vec<(String, String)>)
    ensures
        attr_views(r@) == attr_views(src@),
{
    let n = src.len();
    let mut out: Vec<(String, String)> = Vec::new();
    let mut i: usize = 0;
    while i < n
        invariant
            0 <= i <= n,
            n == src@.len(),
            out@.len() == i,
            forall|j: int|
                0 <= j < i ==> (#[trigger] out@[j]).0@ == src@[j].0@ && out@[j].1@ == src@[j].1@,
        decreases n - i,
    {
        out.push((src[i].0.clone(), src[i].1.clone()));
        i = i + 1;
    }
    proof {
        assert(attr_views(out@) =~= attr_views(src@));
    }
    out
}

fn build_one(flat: &Vec<FlatNode>, i: usize) -> (r: Option<(Option<XmlNode>, usize)>)
    ensures
        match spec_build_one(flat@, i as int) {
            None => r is None,
            Some((opt_v, next)) => r matches Some((opt_n, nx)) && nx == next && (match opt_n {
                Some(n) => opt_v matches Some(v) && node_view(n) == v,
                None => opt_v is None,
            }),
        },
    decreases flat@.len() - i, 0int,
{
    if i >= flat.len() {
        return None;
    }
    let f = &flat[i];
    if f.is_element {
        match build_many(flat, i + 1, f.n_children) {
            None => None,
            Some((nodes, next)) => {
                let elem = XmlElement {
                    tag: f.tag.clone(),
                    attrs: clone_attrs(&f.attrs),
                    children: nodes,
                    pos: Pos { line: f.line, col: f.col },
                };
                Some((Some(XmlNode::Element(elem)), next))
            },
        }
    } else if f.is_text {
        if f.n_children != 0 {
            None
        } else if ws_only_text(f.text.as_str()) {
            Some((None, i + 1))
        } else {
            Some((Some(XmlNode::Text(f.text.clone())), i + 1))
        }
    } else {
        if f.n_children != 0 {
            None
        } else {
            Some((None, i + 1))
        }
    }
}

fn build_many(flat: &Vec<FlatNode>, i: usize, k: usize) -> (r: Option<(Vec<XmlNode>, usize)>)
    ensures
        match spec_build_many(flat@, i as int, k as int) {
            None => r is None,
            Some((nodes_v, next)) => r matches Some((nodes, nx)) && nx == next && nodes_view(
                nodes@,
            ) == nodes_v,
        },
    decreases flat@.len() - i, k,
{
    if k == 0 {
        let nodes: Vec<XmlNode> = Vec::new();
        proof {
            assert(nodes_view(nodes@) =~= Seq::<NodeV>::empty());
        }
        return Some((nodes, i));
    }
    if i >= flat.len() {
        return None;
    }
    match build_one(flat, i) {
        None => None,
        Some((opt, mid)) => {
            let n_flat = flat.len();
            let mid2 = if mid <= i {
                i + 1
            } else if mid > n_flat {
                n_flat
            } else {
                mid
            };
            match build_many(flat, mid2, k - 1) {
                None => None,
                Some((rest, next)) => match opt {
                    None => Some((rest, next)),
                    Some(n) => {
                        let ghost rest0 = rest@;
                        let ghost n0 = n;
                        let mut nodes = rest;
                        nodes.insert(0, n);
                        proof {
                            assert(nodes@ =~= Seq::empty().push(n0) + rest0);
                            lemma_nodes_view_prepend(n0, rest0);
                        }
                        Some((nodes, next))
                    },
                },
            }
        },
    }
}

fn build_root(flat: &Vec<FlatNode>) -> (r: Option<XmlElement>)
    ensures
        match spec_build_root(flat@) {
            None => r is None,
            Some(ev) => r matches Some(root) && elem_view(root) == ev,
        },
{
    match build_one(flat, 0) {
        None => None,
        Some((opt, next)) => match opt {
            Some(XmlNode::Element(root)) => {
                if next == flat.len() {
                    Some(root)
                } else {
                    None
                }
            },
            _ => None,
        },
    }
}

impl EwwConfig {
    /// Compiles a whole document: parses the markup text into a node
    /// tree and assembles the configuration from its root element.
    pub fn from_document_text(text: &str) -> (r: Result<EwwConfig, ConfigError>)
        ensures
            match flat_doc_of(text@) {
                None => r matches Err(e) && e@.kind is XmlSyntax,
                Some(flat) => match spec_build_root(flat@) {
                    None => r matches Err(e) && e@.kind is XmlSyntax,
                    Some(ev) => exists|root: XmlElement|
                        #[trigger] elem_view(root) == ev && (match spec_parse_config(root) {
                            Ok(v) => r matches Ok(c) && c@ == v,
                            Err(e2) => r matches Err(e) && e@ == e2,
                        }),
                },
            },
    {
        let flat = match parse_flat(text) {
            Err(msg) => {
                return Err(ConfigError::plain(ErrorKind::XmlSyntax { msg }));
            },
            Ok(v) => v,
        };
        let root = match build_root(&flat) {
            None => {
                return Err(ConfigError::plain(ErrorKind::XmlSyntax {
                    msg: "document structure is not a preorder tree".to_owned(),
                }));
            },
            Some(e) => e,
        };
        let ghost root0 = root;
        let r = EwwConfig::from_xml_element(root);
        proof {
            let ev = spec_build_root(flat_doc_of(text@)->Some_0@)->Some_0;
            assert(elem_view(root0) == ev && (match spec_parse_config(root0) {
                Ok(v) => r matches Ok(c) && c@ == v,
                Err(e2) => r matches Err(e) && e@ == e2,
            }));
        }
        r
    }
}

} // verus!
