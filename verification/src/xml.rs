use vstd::prelude::*;

verus! {

/// A line/column position in the source document, starting at 1:1.
#[derive(Clone, Copy, Debug, PartialEq, Eq, Structural)]
pub struct Pos {
    pub line: u32,
    pub col: u32,
}

/// One node of a document tree: an element, or a run of character data.
#[derive(Debug, PartialEq)]
pub enum XmlNode {
    Element(XmlElement),
    Text(String),
}

/// An element with its tag, attributes in document order, child nodes in
/// document order, and the position where it starts.
#[derive(Debug, PartialEq)]
pub struct XmlElement {
    pub tag: String,
    pub attrs: Vec<(String, String)>,
    pub children: Vec<XmlNode>,
    pub pos: Pos,
}

/// The first attribute with the given name, if any.
pub open spec fn find_attr(attrs: Seq<(String, String)>, name: Seq<char>) -> Option<String>
    decreases attrs.len(),
{
    if attrs.len() == 0 {
        None
    } else if find_attr(attrs.drop_last(), name) is Some {
        find_attr(attrs.drop_last(), name)
    } else if attrs.last().0@ == name {
        Some(attrs.last().1)
    } else {
        None
    }
}

/// The first child element with the given tag, if any.
pub open spec fn find_elem(children: Seq<XmlNode>, tag: Seq<char>) -> Option<XmlElement>
    decreases children.len(),
{
    if children.len() == 0 {
        None
    } else if find_elem(children.drop_last(), tag) is Some {
        find_elem(children.drop_last(), tag)
    } else if children.last() matches XmlNode::Element(e) && e.tag@ == tag {
        Some(children.last()->Element_0)
    } else {
        None
    }
}


/// Source rendering of attributes: ` name="value"` for each.
pub open spec fn attrs_source(attrs: Seq<(String, String)>) -> Seq<char>
    decreases attrs.len(),
{
    if attrs.len() == 0 {
        Seq::empty()
    } else {
        attrs_source(attrs.drop_last()) + " "@ + attrs.last().0@ + "=\""@ + attrs.last().1@
            + "\""@
    }
}

/// Source rendering of a node: text as itself, an element as its markup.
pub open spec fn node_source(n: XmlNode) -> Seq<char>
    decreases n,
{
    match n {
        XmlNode::Text(t) => t@,
        XmlNode::Element(e) => if e.children@.len() == 0 {
            "<"@ + e.tag@ + attrs_source(e.attrs@) + "/>"@
        } else {
            "<"@ + e.tag@ + attrs_source(e.attrs@) + ">"@ + nodes_source(e.children@) + "</"@
                + e.tag@ + ">"@
        },
    }
}

pub open spec fn nodes_source(s: Seq<XmlNode>) -> Seq<char>
    decreases s,
{
    if s.len() == 0 {
        Seq::empty()
    } else {
        nodes_source(s.drop_last()) + node_source(s.last())
    }
}


/// Number of nodes in a subtree, the measure for recursion over trees.
pub open spec fn node_size(n: XmlNode) -> nat
    decreases n,
{
    match n {
        XmlNode::Text(_) => 1,
        XmlNode::Element(e) => 1 + nodes_size(e.children@),
    }
}

pub open spec fn nodes_size(s: Seq<XmlNode>) -> nat
    decreases s,
{
    if s.len() == 0 {
        0
    } else {
        nodes_size(s.drop_last()) + node_size(s.last())
    }
}

proof fn lemma_nodes_size_bound(s: Seq<XmlNode>, j: int)
    requires
        0 <= j < s.len(),
    ensures
        node_size(s[j]) <= nodes_size(s),
    decreases s.len(),
{
    if j == s.len() - 1 {
    } else {
        lemma_nodes_size_bound(s.drop_last(), j);
    }
}

/// Renders a node back to markup text; a text node is its own text.
pub fn node_source_text(n: &XmlNode) -> (r: String)
    ensures
        r@ == node_source(*n),
    decreases node_size(*n),
{
    broadcast use vstd::std_specs::vec::group_vec_axioms;
    broadcast use vstd::seq::group_seq_axioms;

    match n {
        XmlNode::Text(t) => t.clone(),
        XmlNode::Element(e) => {
            let mut out = String::from_str("<");
            out.append(e.tag.as_str());
            let na = e.attrs.len();
            let mut i: usize = 0;
            while i < na
                invariant
                    0 <= i <= na,
                    na == e.attrs@.len(),
                    out@ == "<"@ + e.tag@ + attrs_source(e.attrs@.take(i as int)),
                decreases na - i,
            {
                out.append(" ");
                out.append(e.attrs[i].0.as_str());
                out.append("=\"");
                out.append(e.attrs[i].1.as_str());
                out.append("\"");
                proof {
                    assert(e.attrs@.take(i + 1).drop_last() =~= e.attrs@.take(i as int));
                    assert(out@ =~= "<"@ + e.tag@ + attrs_source(e.attrs@.take(i + 1)));
                }
                i = i + 1;
            }
            proof {
                assert(e.attrs@.take(na as int) =~= e.attrs@);
            }
            let nc = e.children.len();
            if nc == 0 {
                out.append("/>");
                proof {
                    assert(out@ =~= node_source(*n));
                }
                out
            } else {
                out.append(">");
                let ghost head = out@;
                let mut j: usize = 0;
                while j < nc
                    invariant
                        *n == XmlNode::Element(*e),
                        0 <= j <= nc,
                        nc == e.children@.len(),
                        out@ == head + nodes_source(e.children@.take(j as int)),
                        head == "<"@ + e.tag@ + attrs_source(e.attrs@) + ">"@,
                    decreases nc - j,
                {
                    proof {
                        lemma_nodes_size_bound(e.children@, j as int);
                    }
                    let piece = node_source_text(&e.children[j]);
                    out.append(piece.as_str());
                    proof {
                        assert(e.children@.take(j + 1).drop_last() =~= e.children@.take(j as int));
                        assert(out@ =~= head + nodes_source(e.children@.take(j + 1)));
                    }
                    j = j + 1;
                }
                proof {
                    assert(e.children@.take(nc as int) =~= e.children@);
                }
                out.append("</");
                out.append(e.tag.as_str());
                out.append(">");
                proof {
                    assert(out@ =~= node_source(*n));
                }
                out
            }
        },
    }
}

proof fn lemma_find_attr_extend(attrs: Seq<(String, String)>, name: Seq<char>, k: int)
    requires
        0 <= k <= attrs.len(),
        find_attr(attrs.take(k), name) is Some,
    ensures
        find_attr(attrs, name) == find_attr(attrs.take(k), name),
    decreases attrs.len() - k,
{
    if k < attrs.len() {
        assert(attrs.take(k + 1).drop_last() =~= attrs.take(k));
        lemma_find_attr_extend(attrs, name, k + 1);
    } else {
        assert(attrs.take(k) =~= attrs);
    }
}

proof fn lemma_find_attr_none(attrs: Seq<(String, String)>, name: Seq<char>)
    requires
        forall|i: int| 0 <= i < attrs.len() ==> (#[trigger] attrs[i]).0@ != name,
    ensures
        find_attr(attrs, name) is None,
    decreases attrs.len(),
{
    if attrs.len() > 0 {
        lemma_find_attr_none(attrs.drop_last(), name);
    }
}

proof fn lemma_find_elem_extend(children: Seq<XmlNode>, tag: Seq<char>, k: int)
    requires
        0 <= k <= children.len(),
        find_elem(children.take(k), tag) is Some,
    ensures
        find_elem(children, tag) == find_elem(children.take(k), tag),
    decreases children.len() - k,
{
    if k < children.len() {
        assert(children.take(k + 1).drop_last() =~= children.take(k));
        lemma_find_elem_extend(children, tag, k + 1);
    } else {
        assert(children.take(k) =~= children);
    }
}

proof fn lemma_find_elem_none(children: Seq<XmlNode>, tag: Seq<char>)
    requires
        forall|i: int|
            0 <= i < children.len() ==> !((#[trigger] children[i]) matches XmlNode::Element(e)
                && e.tag@ == tag),
    ensures
        find_elem(children, tag) is None,
    decreases children.len(),
{
    if children.len() > 0 {
        lemma_find_elem_none(children.drop_last(), tag);
    }
}

impl XmlElement {
    /// Value of the first attribute with the given name, cloned out.
    pub fn attr(&self, name: &str) -> (r: Option<String>)
        ensures
            r == find_attr(self.attrs@, name@),
    {
        let needle: String = name.to_owned();
        let n = self.attrs.len();
        let mut i: usize = 0;
        while i < n
            invariant
                0 <= i <= n,
                n == self.attrs@.len(),
                needle@ == name@,
                forall|j: int| 0 <= j < i ==> (#[trigger] self.attrs@[j]).0@ != name@,
            decreases n - i,
        {
            if self.attrs[i].0 == needle {
                proof {
                    assert(self.attrs@.take(i + 1).drop_last() =~= self.attrs@.take(i as int));
                    lemma_find_attr_none(self.attrs@.take(i as int), name@);
                    assert(find_attr(self.attrs@.take(i + 1), name@) == Some(
                        self.attrs@[i as int].1,
                    ));
                    lemma_find_attr_extend(self.attrs@, name@, i + 1);
                }
                return Some(self.attrs[i].1.clone());
            }
            i = i + 1;
        }
        proof {
            assert(self.attrs@.take(n as int) =~= self.attrs@);
            lemma_find_attr_none(self.attrs@, name@);
        }
        None
    }

    /// Index of the first child element with the given tag.
    pub fn find_child_idx(&self, tag: &str) -> (r: Option<usize>)
        ensures
            match r {
                Some(i) => i < self.children@.len() && (self.children@[i as int] matches
                XmlNode::Element(e) && find_elem(self.children@, tag@) == Some(e)),
                None => find_elem(self.children@, tag@) is None,
            },
    {
        let needle: String = tag.to_owned();
        let n = self.children.len();
        let mut i: usize = 0;
        while i < n
            invariant
                0 <= i <= n,
                n == self.children@.len(),
                needle@ == tag@,
                forall|j: int|
                    0 <= j < i ==> !((#[trigger] self.children@[j]) matches XmlNode::Element(e)
                        && e.tag@ == tag@),
            decreases n - i,
        {
            let hit = match &self.children[i] {
                XmlNode::Element(e) => e.tag == needle,
                XmlNode::Text(_) => false,
            };
            if hit {
                proof {
                    assert(self.children@.take(i + 1).drop_last() =~= self.children@.take(i as int));
                    lemma_find_elem_none(self.children@.take(i as int), tag@);
                    lemma_find_elem_extend(self.children@, tag@, i + 1);
                }
                return Some(i);
            }
            i = i + 1;
        }
        proof {
            assert(self.children@.take(n as int) =~= self.children@);
            lemma_find_elem_none(self.children@, tag@);
        }
        None
    }

    /// The first child element with the given tag, borrowed.
    pub fn find_child(&self, tag: &str) -> (r: Option<&XmlElement>)
        ensures
            match r {
                Some(e) => find_elem(self.children@, tag@) == Some(*e),
                None => find_elem(self.children@, tag@) is None,
            },
    {
        match self.find_child_idx(tag) {
            None => None,
            Some(i) => match &self.children[i] {
                XmlNode::Element(e) => Some(e),
                XmlNode::Text(_) => {
                    proof {
                        assert(false);
                    }
                    None
                },
            },
        }
    }
}

} // verus!
