use crate::error::{ConfigError, ErrorKind, ErrorKindView, ErrorView};
use crate::xml::{find_attr, XmlElement, XmlNode};
use vstd::prelude::*;

verus! {

/// One node of a window's render tree: an instantiation of a widget
/// template or primitive, kept as the raw document node.
#[derive(Debug, PartialEq)]
pub struct WidgetUse {
    pub node: XmlNode,
}

impl View for WidgetUse {
    type V = XmlNode;

    open spec fn view(&self) -> XmlNode {
        self.node
    }
}

impl WidgetUse {
    pub fn from_xml_node(node: XmlNode) -> (r: WidgetUse)
        ensures
            r@ == node,
    {
        WidgetUse { node }
    }
}

/// A reusable widget template: its name and the subtree that defines it.
#[derive(Debug, PartialEq)]
pub struct WidgetDefinition {
    pub name: String,
    pub structure: WidgetUse,
}

pub struct WidgetDefinitionView {
    pub name: Seq<char>,
    pub structure: XmlNode,
}

impl View for WidgetDefinition {
    type V = WidgetDefinitionView;

    open spec fn view(&self) -> WidgetDefinitionView {
        WidgetDefinitionView { name: self.name@, structure: self.structure@ }
    }
}

/// What parsing a widget template element yields: its declared name and
/// its single body node, or the first structural fault.
pub open spec fn spec_parse_widget_def(x: XmlElement) -> Result<WidgetDefinitionView, ErrorKindView> {
    if x.tag@ != "def"@ {
        Err(ErrorKindView::TagMismatch { pos: x.pos, expected: "def"@, actual: x.tag@ })
    } else {
        match find_attr(x.attrs@, "name"@) {
            None => Err(ErrorKindView::MissingAttribute { pos: x.pos, attr: "name"@ }),
            Some(name) => {
                if x.children@.len() != 1 {
                    Err(ErrorKindView::ChildCardinality {
                        pos: x.pos,
                        count: x.children@.len() as int,
                    })
                } else {
                    Ok(WidgetDefinitionView { name: name@, structure: x.children@[0] })
                }
            },
        }
    }
}

impl WidgetDefinition {
    /// Parses a `def` element: its `name` attribute and its single child,
    /// the root of the template's widget tree.
    pub fn from_xml_element(xml: XmlElement) -> (r: Result<WidgetDefinition, ConfigError>)
        ensures
            r matches Ok(wd) ==> (spec_parse_widget_def(xml) matches Ok(v) && wd@ == v),
            r matches Err(e) ==> (spec_parse_widget_def(xml) matches Err(kv) && e@ == (ErrorView {
                section: None,
                kind: kv,
            })),
    {
        let needle: String = "def".to_owned();
        if !(xml.tag == needle) {
            return Err(ConfigError::plain(ErrorKind::TagMismatch {
                pos: xml.pos,
                expected: needle,
                actual: xml.tag,
            }));
        }
        let name = match xml.attr("name") {
            None => {
                return Err(ConfigError::plain(ErrorKind::MissingAttribute {
                    pos: xml.pos,
                    attr: "name".to_owned(),
                }));
            },
            Some(n) => n,
        };
        if xml.children.len() != 1 {
            return Err(ConfigError::plain(ErrorKind::ChildCardinality {
                pos: xml.pos,
                count: xml.children.len(),
            }));
        }
        let mut children = xml.children;
        let body = children.remove(0);
        Ok(WidgetDefinition { name, structure: WidgetUse::from_xml_node(body) })
    }
}

} // verus!
