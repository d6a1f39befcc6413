use crate::error::{ConfigError, ErrorKind, ErrorKindView, ErrorView};
use crate::strmap::{keys_unique, map_of, StrMap};
use crate::value::{parse_duration, parse_duration_spec, parse_i32, parse_i32_spec, Interval,
    PrimitiveValue, VarName};
use crate::widget::{spec_parse_widget_def, WidgetDefinition, WidgetDefinitionView, WidgetUse};
use crate::xml::{find_attr, find_elem, node_source, node_source_text, XmlElement, XmlNode};
use vstd::prelude::*;

verus! {

/// A variable whose value is recomputed by periodically running an
/// external command.
#[derive(Debug, PartialEq)]
pub struct ScriptVar {
    pub name: VarName,
    pub command: String,
    pub interval: Interval,
}

pub struct ScriptVarView {
    pub name: Seq<char>,
    pub command: Seq<char>,
    pub interval: Interval,
}

impl View for ScriptVar {
    type V = ScriptVarView;

    open spec fn view(&self) -> ScriptVarView {
        ScriptVarView { name: self.name@, command: self.command@, interval: self.interval }
    }
}

impl Clone for ScriptVar {
    fn clone(&self) -> (r: Self)
        ensures
            r == *self,
    {
        ScriptVar { name: self.name.clone(), command: self.command.clone(), interval: self.interval }
    }
}

/// What parsing a `script-var` element yields: its name, its command
/// text, and its refresh interval, or the first structural fault.
pub open spec fn spec_parse_script_var(x: XmlElement) -> Result<ScriptVarView, ErrorKindView> {
    if x.tag@ != "script-var"@ {
        Err(ErrorKindView::TagMismatch { pos: x.pos, expected: "script-var"@, actual: x.tag@ })
    } else {
        match find_attr(x.attrs@, "name"@) {
            None => Err(ErrorKindView::MissingAttribute { pos: x.pos, attr: "name"@ }),
            Some(name) => match find_attr(x.attrs@, "interval"@) {
                None => Err(ErrorKindView::MissingAttribute { pos: x.pos, attr: "interval"@ }),
                Some(ivtext) => match parse_duration_spec(ivtext@) {
                    None => Err(ErrorKindView::DurationParse { text: ivtext@ }),
                    Some(ms) => {
                        if x.children@.len() != 1 {
                            Err(ErrorKindView::ChildCardinality {
                                pos: x.pos,
                                count: x.children@.len() as int,
                            })
                        } else {
                            match x.children@[0] {
                                XmlNode::Text(t) => Ok(ScriptVarView {
                                    name: name@,
                                    command: t@,
                                    interval: Interval { millis: ms },
                                }),
                                XmlNode::Element(_) => Err(ErrorKindView::ExpectedText {
                                    pos: x.pos,
                                }),
                            }
                        }
                    },
                },
            },
        }
    }
}

impl ScriptVar {
    /// Parses a `script-var` element: `name` and `interval` attributes
    /// and a single text child holding the command.
    pub fn from_xml_element(xml: XmlElement) -> (r: Result<ScriptVar, ConfigError>)
        ensures
            r matches Ok(sv) ==> (spec_parse_script_var(xml) matches Ok(v) && sv@ == v),
            r matches Err(e) ==> (spec_parse_script_var(xml) matches Err(kv) && e@ == (ErrorView {
                section: None,
                kind: kv,
            })),
    {
        let needle: String = "script-var".to_owned();
        if !(xml.tag == needle) {
            return Err(ConfigError::plain(ErrorKind::TagMismatch {
                pos: xml.pos,
                expected: needle,
                actual: xml.tag,
            }));
        }
        let name = match xml.attr("name") {
            None => {
                return Err(ConfigError::plain(ErrorKind::MissingAttribute {
                    pos: xml.pos,
                    attr: "name".to_owned(),
                }));
            },
            Some(n) => n,
        };
        let ivtext = match xml.attr("interval") {
            None => {
                return Err(ConfigError::plain(ErrorKind::MissingAttribute {
                    pos: xml.pos,
                    attr: "interval".to_owned(),
                }));
            },
            Some(t) => t,
        };
        let interval = match parse_duration(ivtext.as_str()) {
            None => {
                return Err(ConfigError::plain(ErrorKind::DurationParse { text: ivtext }));
            },
            Some(iv) => iv,
        };
        if xml.children.len() != 1 {
            return Err(ConfigError::plain(ErrorKind::ChildCardinality {
                pos: xml.pos,
                count: xml.children.len(),
            }));
        }
        let pos = xml.pos;
        let mut children = xml.children;
        match children.remove(0) {
            XmlNode::Text(t) => Ok(ScriptVar { name: VarName(name), command: t, interval }),
            XmlNode::Element(_) => Err(ConfigError::plain(ErrorKind::ExpectedText { pos })),
        }
    }
}

/// A window's geometry and the root of its widget tree.
#[derive(Debug, PartialEq)]
pub struct EwwWindowDefinition {
    pub position: (i32, i32),
    pub size: (i32, i32),
    pub widget: WidgetUse,
}

pub struct EwwWindowDefinitionView {
    pub position: (i32, i32),
    pub size: (i32, i32),
    pub widget: XmlNode,
}

impl View for EwwWindowDefinition {
    type V = EwwWindowDefinitionView;

    open spec fn view(&self) -> EwwWindowDefinitionView {
        EwwWindowDefinitionView { position: self.position, size: self.size, widget: self.widget@ }
    }
}

/// What parsing a `window` element yields: numeric `x`/`y` attributes of
/// its `size` and `pos` children and the single grandchild under its
/// `widget` child, or the first structural fault.
pub open spec fn spec_parse_window(x: XmlElement) -> Result<EwwWindowDefinitionView, ErrorKindView> {
    if x.tag@ != "window"@ {
        Err(ErrorKindView::TagMismatch { pos: x.pos, expected: "window"@, actual: x.tag@ })
    } else {
        match find_elem(x.children@, "size"@) {
            None => Err(ErrorKindView::MissingChild { pos: x.pos, child: "size"@ }),
            Some(se) => match spec_xy(se) {
                Err(k) => Err(k),
                Ok(size) => match find_elem(x.children@, "pos"@) {
                    None => Err(ErrorKindView::MissingChild { pos: x.pos, child: "pos"@ }),
                    Some(pe) => match spec_xy(pe) {
                        Err(k) => Err(k),
                        Ok(position) => match find_elem(x.children@, "widget"@) {
                            None => Err(ErrorKindView::MissingChild {
                                pos: x.pos,
                                child: "widget"@,
                            }),
                            Some(we) => {
                                if we.children@.len() != 1 {
                                    Err(ErrorKindView::ChildCardinality {
                                        pos: we.pos,
                                        count: we.children@.len() as int,
                                    })
                                } else {
                                    Ok(EwwWindowDefinitionView {
                                        position,
                                        size,
                                        widget: we.children@[0],
                                    })
                                }
                            },
                        },
                    },
                },
            },
        }
    }
}

/// The numeric `x` and `y` attributes of a geometry element.
pub open spec fn spec_xy(e: XmlElement) -> Result<(i32, i32), ErrorKindView> {
    match find_attr(e.attrs@, "x"@) {
        None => Err(ErrorKindView::MissingAttribute { pos: e.pos, attr: "x"@ }),
        Some(xs) => match parse_i32_spec(xs@) {
            None => Err(ErrorKindView::IntParse { text: xs@ }),
            Some(xv) => match find_attr(e.attrs@, "y"@) {
                None => Err(ErrorKindView::MissingAttribute { pos: e.pos, attr: "y"@ }),
                Some(ys) => match parse_i32_spec(ys@) {
                    None => Err(ErrorKindView::IntParse { text: ys@ }),
                    Some(yv) => Ok((xv, yv)),
                },
            },
        },
    }
}

fn read_xy(e: &XmlElement) -> (r: Result<(i32, i32), ConfigError>)
    ensures
        r matches Ok(v) ==> spec_xy(*e) == Ok::<(i32, i32), ErrorKindView>(v),
        r matches Err(err) ==> (spec_xy(*e) matches Err(kv) && err@ == (ErrorView {
            section: None,
            kind: kv,
        })),
{
    let xs = match e.attr("x") {
        None => {
            return Err(ConfigError::plain(ErrorKind::MissingAttribute {
                pos: e.pos,
                attr: "x".to_owned(),
            }));
        },
        Some(v) => v,
    };
    let xv = match parse_i32(xs.as_str()) {
        None => {
            return Err(ConfigError::plain(ErrorKind::IntParse { text: xs }));
        },
        Some(v) => v,
    };
    let ys = match e.attr("y") {
        None => {
            return Err(ConfigError::plain(ErrorKind::MissingAttribute {
                pos: e.pos,
                attr: "y".to_owned(),
            }));
        },
        Some(v) => v,
    };
    let yv = match parse_i32(ys.as_str()) {
        None => {
            return Err(ConfigError::plain(ErrorKind::IntParse { text: ys }));
        },
        Some(v) => v,
    };
    Ok((xv, yv))
}

impl EwwWindowDefinition {
    pub fn from_xml_element(xml: XmlElement) -> (r: Result<EwwWindowDefinition, ConfigError>)
        ensures
            r matches Ok(wd) ==> (spec_parse_window(xml) matches Ok(v) && wd@ == v),
            r matches Err(e) ==> (spec_parse_window(xml) matches Err(kv) && e@ == (ErrorView {
                section: None,
                kind: kv,
            })),
    {
        let needle: String = "window".to_owned();
        if !(xml.tag == needle) {
            return Err(ConfigError::plain(ErrorKind::TagMismatch {
                pos: xml.pos,
                expected: needle,
                actual: xml.tag,
            }));
        }
        let size = match xml.find_child("size") {
            None => {
                return Err(ConfigError::plain(ErrorKind::MissingChild {
                    pos: xml.pos,
                    child: "size".to_owned(),
                }));
            },
            Some(se) => match read_xy(se) {
                Err(err) => {
                    return Err(err);
                },
                Ok(v) => v,
            },
        };
        let position = match xml.find_child("pos") {
            None => {
                return Err(ConfigError::plain(ErrorKind::MissingChild {
                    pos: xml.pos,
                    child: "pos".to_owned(),
                }));
            },
            Some(pe) => match read_xy(pe) {
                Err(err) => {
                    return Err(err);
                },
                Ok(v) => v,
            },
        };
        let wi = match xml.find_child_idx("widget") {
            None => {
                return Err(ConfigError::plain(ErrorKind::MissingChild {
                    pos: xml.pos,
                    child: "widget".to_owned(),
                }));
            },
            Some(i) => i,
        };
        let mut children = xml.children;
        let welem = match children.remove(wi) {
            XmlNode::Element(we) => we,
            XmlNode::Text(_) => {
                proof {
                    assert(false);
                }
                return Err(ConfigError::plain(ErrorKind::MissingChild {
                    pos: xml.pos,
                    child: "widget".to_owned(),
                }));
            },
        };
        if welem.children.len() != 1 {
            return Err(ConfigError::plain(ErrorKind::ChildCardinality {
                pos: welem.pos,
                count: welem.children.len(),
            }));
        }
        let mut wchildren = welem.children;
        let root = wchildren.remove(0);
        Ok(EwwWindowDefinition { position, size, widget: WidgetUse::from_xml_node(root) })
    }
}

/// Folding the `definitions` block: each child element parsed as a
/// widget template and keyed by its name, a later name overriding an
/// earlier one; the first fault aborts the fold.
pub open spec fn spec_parse_defs(s: Seq<XmlNode>) -> Result<
    Map<Seq<char>, WidgetDefinitionView>,
    ErrorKindView,
>
    decreases s.len(),
{
    if s.len() == 0 {
        Ok(Map::empty())
    } else {
        match spec_parse_defs(s.drop_last()) {
            Err(k) => Err(k),
            Ok(m) => match s.last() {
                XmlNode::Text(_) => Ok(m),
                XmlNode::Element(e) => match spec_parse_widget_def(e) {
                    Err(k) => Err(k),
                    Ok(wd) => Ok(m.insert(wd.name, wd)),
                },
            },
        }
    }
}

/// Folding the `windows` block: each child element needs a `name`
/// attribute and parses as a window definition.
pub open spec fn spec_parse_windows(s: Seq<XmlNode>) -> Result<
    Map<Seq<char>, EwwWindowDefinitionView>,
    ErrorKindView,
>
    decreases s.len(),
{
    if s.len() == 0 {
        Ok(Map::empty())
    } else {
        match spec_parse_windows(s.drop_last()) {
            Err(k) => Err(k),
            Ok(m) => match s.last() {
                XmlNode::Text(_) => Ok(m),
                XmlNode::Element(e) => match find_attr(e.attrs@, "name"@) {
                    None => Err(ErrorKindView::MissingAttribute { pos: e.pos, attr: "name"@ }),
                    Some(nm) => match spec_parse_window(e) {
                        Err(k) => Err(k),
                        Ok(wd) => Ok(m.insert(nm@, wd)),
                    },
                },
            },
        }
    }
}

/// The value a `var` element declares: its single child rendered as
/// text, or empty text when it has no single child.
pub open spec fn var_content(children: Seq<XmlNode>) -> Seq<char> {
    if children.len() == 1 {
        node_source(children[0])
    } else {
        Seq::empty()
    }
}

/// What folding the `variables` block accumulates.
pub struct VarsAcc {
    pub vars: Map<Seq<char>, Seq<char>>,
    pub svs: Seq<ScriptVarView>,
}

/// Folding the `variables` block: `var` children declare defaults,
/// `script-var` children append script variables in document order, and
/// any other tag is illegal.
pub open spec fn spec_parse_vars(s: Seq<XmlNode>) -> Result<VarsAcc, ErrorKindView>
    decreases s.len(),
{
    if s.len() == 0 {
        Ok(VarsAcc { vars: Map::empty(), svs: Seq::empty() })
    } else {
        match spec_parse_vars(s.drop_last()) {
            Err(k) => Err(k),
            Ok(acc) => match s.last() {
                XmlNode::Text(_) => Ok(acc),
                XmlNode::Element(e) => {
                    if e.tag@ == "var"@ {
                        match find_attr(e.attrs@, "name"@) {
                            None => Err(ErrorKindView::MissingAttribute {
                                pos: e.pos,
                                attr: "name"@,
                            }),
                            Some(nm) => Ok(VarsAcc {
                                vars: acc.vars.insert(nm@, var_content(e.children@)),
                                svs: acc.svs,
                            }),
                        }
                    } else if e.tag@ == "script-var"@ {
                        match spec_parse_script_var(e) {
                            Err(k) => Err(k),
                            Ok(sv) => Ok(VarsAcc { vars: acc.vars, svs: acc.svs.push(sv) }),
                        }
                    } else {
                        Err(ErrorKindView::IllegalElement { pos: e.pos, tag: e.tag@ })
                    }
                },
            },
        }
    }
}

proof fn lemma_parse_defs_err_extend(s: Seq<XmlNode>, k: int)
    requires
        0 <= k <= s.len(),
        spec_parse_defs(s.take(k)) is Err,
    ensures
        spec_parse_defs(s) == spec_parse_defs(s.take(k)),
    decreases s.len() - k,
{
    if k < s.len() {
        assert(s.take(k + 1).drop_last() =~= s.take(k));
        lemma_parse_defs_err_extend(s, k + 1);
    } else {
        assert(s.take(k) =~= s);
    }
}

proof fn lemma_parse_windows_err_extend(s: Seq<XmlNode>, k: int)
    requires
        0 <= k <= s.len(),
        spec_parse_windows(s.take(k)) is Err,
    ensures
        spec_parse_windows(s) == spec_parse_windows(s.take(k)),
    decreases s.len() - k,
{
    if k < s.len() {
        assert(s.take(k + 1).drop_last() =~= s.take(k));
        lemma_parse_windows_err_extend(s, k + 1);
    } else {
        assert(s.take(k) =~= s);
    }
}

proof fn lemma_parse_vars_err_extend(s: Seq<XmlNode>, k: int)
    requires
        0 <= k <= s.len(),
        spec_parse_vars(s.take(k)) is Err,
    ensures
        spec_parse_vars(s) == spec_parse_vars(s.take(k)),
    decreases s.len() - k,
{
    if k < s.len() {
        assert(s.take(k + 1).drop_last() =~= s.take(k));
        lemma_parse_vars_err_extend(s, k + 1);
    } else {
        assert(s.take(k) =~= s);
    }
}

/// The whole compiled configuration.
pub struct ConfigView {
    pub widgets: Map<Seq<char>, WidgetDefinitionView>,
    pub windows: Map<Seq<char>, EwwWindowDefinitionView>,
    pub initial_variables: Map<Seq<char>, Seq<char>>,
    pub script_vars: Seq<ScriptVarView>,
}

/// What assembling the root element yields: the `definitions` and
/// `windows` sections are required, the `variables` section is optional
/// and its absence yields empty defaults and no script variables.
pub open spec fn spec_parse_config(x: XmlElement) -> Result<ConfigView, ErrorView> {
    match find_elem(x.children@, "definitions"@) {
        None => Err(ErrorView {
            section: None,
            kind: ErrorKindView::MissingChild { pos: x.pos, child: "definitions"@ },
        }),
        Some(defs) => match spec_parse_defs(defs.children@) {
            Err(k) => Err(ErrorView { section: Some("error parsing widget definitions"@), kind: k }),
            Ok(widgets) => match find_elem(x.children@, "windows"@) {
                None => Err(ErrorView {
                    section: None,
                    kind: ErrorKindView::MissingChild { pos: x.pos, child: "windows"@ },
                }),
                Some(wins) => match spec_parse_windows(wins.children@) {
                    Err(k) => Err(ErrorView {
                        section: Some("error parsing window definitions"@),
                        kind: k,
                    }),
                    Ok(windows) => match find_elem(x.children@, "variables"@) {
                        None => Ok(ConfigView {
                            widgets,
                            windows,
                            initial_variables: Map::empty(),
                            script_vars: Seq::empty(),
                        }),
                        Some(vars) => match spec_parse_vars(vars.children@) {
                            Err(k) => Err(ErrorView { section: None, kind: k }),
                            Ok(acc) => Ok(ConfigView {
                                widgets,
                                windows,
                                initial_variables: acc.vars,
                                script_vars: acc.svs,
                            }),
                        },
                    },
                },
            },
        },
    }
}

/// The compiled configuration: widget templates, windows and variable
/// declarations, each keyed by name, and script variables in
/// declaration order.
#[derive(Debug)]
pub struct EwwConfig {
    pub widgets: StrMap<WidgetDefinition>,
    pub windows: StrMap<EwwWindowDefinition>,
    pub initial_variables: StrMap<PrimitiveValue>,
    pub script_vars: Vec<ScriptVar>,
}

/// The views of a sequence of script variables, in order.
pub open spec fn script_var_views(s: Seq<ScriptVar>) -> Seq<ScriptVarView> {
    Seq::new(s.len(), |i: int| s[i]@)
}

impl EwwConfig {
    /// The maps hold one entry per name.
    pub open spec fn wf(&self) -> bool {
        keys_unique(self.widgets.entries_seq()) && keys_unique(self.windows.entries_seq())
            && keys_unique(self.initial_variables.entries_seq())
    }
}

impl View for EwwConfig {
    type V = ConfigView;

    open spec fn view(&self) -> ConfigView {
        ConfigView {
            widgets: self.widgets@,
            windows: self.windows@,
            initial_variables: self.initial_variables@,
            script_vars: script_var_views(self.script_vars@),
        }
    }
}

impl EwwConfig {
    /// Assembles the whole configuration from the document's root
    /// element; the first structural fault anywhere aborts assembly.
    #[verifier::loop_isolation(false)]
    pub fn from_xml_element(xml: XmlElement) -> (r: Result<EwwConfig, ConfigError>)
        ensures
            r matches Ok(c) ==> (spec_parse_config(xml) matches Ok(v) && c@ == v && c.wf()),
            r matches Err(e) ==> (spec_parse_config(xml) matches Err(ev) && e@ == ev),
    {
        let d_needle: String = "definitions".to_owned();
        let w_needle: String = "windows".to_owned();
        let v_needle: String = "variables".to_owned();
        let root_pos = xml.pos;
        let mut rest = xml.children;
        let ghost all = rest@;
        let mut defs_opt: Option<XmlElement> = None;
        let mut wins_opt: Option<XmlElement> = None;
        let mut vars_opt: Option<XmlElement> = None;
        let mut k: usize = 0;
        let n_root = rest.len();
        proof {
            assert(all.len() == n_root as int);
            assert(all.take(0) =~= Seq::<XmlNode>::empty());
            reveal_strlit("definitions");
            reveal_strlit("windows");
            reveal_strlit("variables");
        }
        while rest.len() > 0
            invariant
                0 <= k,
                all.len() <= usize::MAX,
                k + rest@.len() == all.len(),
                rest@ == all.skip(k as int),
                d_needle@ == "definitions"@,
                w_needle@ == "windows"@,
                v_needle@ == "variables"@,
                "definitions"@.len() == 11,
                "windows"@.len() == 7,
                "variables"@.len() == 9,
                defs_opt == find_elem(all.take(k as int), "definitions"@),
                wins_opt == find_elem(all.take(k as int), "windows"@),
                vars_opt == find_elem(all.take(k as int), "variables"@),
            decreases rest@.len(),
        {
            let node = rest.remove(0);
            proof {
                assert(all.skip(k as int)[0] == all[k as int]);
                assert(all.skip(k as int).remove(0) =~= all.skip(k + 1));
                assert(all.take(k + 1).drop_last() =~= all.take(k as int));
                assert(all.take(k + 1).last() == all[k as int]);
            }
            match node {
                XmlNode::Element(e) => {
                    if e.tag == d_needle {
                        if defs_opt.is_none() {
                            defs_opt = Some(e);
                        }
                    } else if e.tag == w_needle {
                        if wins_opt.is_none() {
                            wins_opt = Some(e);
                        }
                    } else if e.tag == v_needle {
                        if vars_opt.is_none() {
                            vars_opt = Some(e);
                        }
                    }
                },
                XmlNode::Text(_) => {},
            }
            k = k + 1;
        }
        proof {
            assert(all.take(k as int) =~= all);
        }
        let defs = match defs_opt {
            None => {
                return Err(ConfigError::plain(ErrorKind::MissingChild {
                    pos: root_pos,
                    child: d_needle,
                }));
            },
            Some(d) => d,
        };

        // definitions block
        let mut widgets: StrMap<WidgetDefinition> = StrMap::new();
        let mut drest = defs.children;
        let ghost dall = drest@;
        let mut dk: usize = 0;
        let n_defs = drest.len();
        proof {
            assert(dall.len() == n_defs as int);
            assert(dall.take(0) =~= Seq::<XmlNode>::empty());
        }
        while drest.len() > 0
            invariant
                0 <= dk,
                dall.len() <= usize::MAX,
                dk + drest@.len() == dall.len(),
                drest@ == dall.skip(dk as int),
                spec_parse_defs(dall.take(dk as int)) matches Ok(m) && widgets@ == m,
                keys_unique(widgets.entries_seq()),
            decreases drest@.len(),
        {
            let node = drest.remove(0);
            proof {
                assert(dall.skip(dk as int)[0] == dall[dk as int]);
                assert(dall.skip(dk as int).remove(0) =~= dall.skip(dk + 1));
                assert(dall.take(dk + 1).drop_last() =~= dall.take(dk as int));
                assert(dall.take(dk + 1).last() == dall[dk as int]);
            }
            match node {
                XmlNode::Element(e) => match WidgetDefinition::from_xml_element(e) {
                    Err(err) => {
                        proof {
                            lemma_parse_defs_err_extend(dall, dk + 1);
                        }
                        return Err(err.with_section("error parsing widget definitions"));
                    },
                    Ok(wd) => {
                        let key = wd.name.clone();
                        widgets.insert(key, wd);
                    },
                },
                XmlNode::Text(_) => {},
            }
            dk = dk + 1;
        }
        proof {
            assert(dall.take(dk as int) =~= dall);
        }

        let wins = match wins_opt {
            None => {
                return Err(ConfigError::plain(ErrorKind::MissingChild {
                    pos: root_pos,
                    child: w_needle,
                }));
            },
            Some(w) => w,
        };

        // windows block
        let mut windows: StrMap<EwwWindowDefinition> = StrMap::new();
        let mut wrest = wins.children;
        let ghost wall = wrest@;
        let mut wk: usize = 0;
        let n_wins = wrest.len();
        proof {
            assert(wall.len() == n_wins as int);
            assert(wall.take(0) =~= Seq::<XmlNode>::empty());
        }
        while wrest.len() > 0
            invariant
                0 <= wk,
                wall.len() <= usize::MAX,
                wk + wrest@.len() == wall.len(),
                wrest@ == wall.skip(wk as int),
                spec_parse_windows(wall.take(wk as int)) matches Ok(m) && windows@ == m,
                keys_unique(windows.entries_seq()),
            decreases wrest@.len(),
        {
            let node = wrest.remove(0);
            proof {
                assert(wall.skip(wk as int)[0] == wall[wk as int]);
                assert(wall.skip(wk as int).remove(0) =~= wall.skip(wk + 1));
                assert(wall.take(wk + 1).drop_last() =~= wall.take(wk as int));
                assert(wall.take(wk + 1).last() == wall[wk as int]);
            }
            match node {
                XmlNode::Element(e) => {
                    let name = match e.attr("name") {
                        None => {
                            proof {
                                lemma_parse_windows_err_extend(wall, wk + 1);
                            }
                            return Err(ConfigError::plain(ErrorKind::MissingAttribute {
                                pos: e.pos,
                                attr: "name".to_owned(),
                            }).with_section("error parsing window definitions"));
                        },
                        Some(n) => n,
                    };
                    match EwwWindowDefinition::from_xml_element(e) {
                        Err(err) => {
                            proof {
                                lemma_parse_windows_err_extend(wall, wk + 1);
                            }
                            return Err(err.with_section("error parsing window definitions"));
                        },
                        Ok(wd) => {
                            windows.insert(name, wd);
                        },
                    }
                },
                XmlNode::Text(_) => {},
            }
            wk = wk + 1;
        }
        proof {
            assert(wall.take(wk as int) =~= wall);
        }

        // variables block, optional
        let mut initial_variables: StrMap<PrimitiveValue> = StrMap::new();
        let mut script_vars: Vec<ScriptVar> = Vec::new();
        match vars_opt {
            None => {
                proof {
                    assert(script_var_views(script_vars@) =~= Seq::<ScriptVarView>::empty());
                }
                return Ok(EwwConfig { widgets, windows, initial_variables, script_vars });
            },
            Some(vars) => {
                let var_needle: String = "var".to_owned();
                let sv_needle: String = "script-var".to_owned();
                let mut vrest = vars.children;
                let ghost vall = vrest@;
                let mut vk: usize = 0;
                let n_vars = vrest.len();
                proof {
                    assert(vall.len() == n_vars as int);
                    assert(vall.take(0) =~= Seq::<XmlNode>::empty());
                    assert(script_var_views(script_vars@) =~= Seq::<ScriptVarView>::empty());
                }
                while vrest.len() > 0
                    invariant
                        0 <= vk,
                        vall.len() <= usize::MAX,
                        vk + vrest@.len() == vall.len(),
                        vrest@ == vall.skip(vk as int),
                        var_needle@ == "var"@,
                        sv_needle@ == "script-var"@,
                        spec_parse_vars(vall.take(vk as int)) matches Ok(acc)
                            && initial_variables@ == acc.vars && script_var_views(script_vars@)
                            == acc.svs,
                        keys_unique(initial_variables.entries_seq()),
                    decreases vrest@.len(),
                {
                    let node = vrest.remove(0);
                    proof {
                        assert(vall.skip(vk as int)[0] == vall[vk as int]);
                        assert(vall.skip(vk as int).remove(0) =~= vall.skip(vk + 1));
                        assert(vall.take(vk + 1).drop_last() =~= vall.take(vk as int));
                        assert(vall.take(vk + 1).last() == vall[vk as int]);
                    }
                    match node {
                        XmlNode::Element(e) => {
                            if e.tag == var_needle {
                                let name = match e.attr("name") {
                                    None => {
                                        proof {
                                            lemma_parse_vars_err_extend(vall, vk + 1);
                                        }
                                        return Err(ConfigError::plain(
                                            ErrorKind::MissingAttribute {
                                                pos: e.pos,
                                                attr: "name".to_owned(),
                                            },
                                        ));
                                    },
                                    Some(n) => n,
                                };
                                let text = if e.children.len() == 1 {
                                    node_source_text(&e.children[0])
                                } else {
                                    String::new()
                                };
                                initial_variables.insert(name, PrimitiveValue::from_string(text));
                            } else if e.tag == sv_needle {
                                match ScriptVar::from_xml_element(e) {
                                    Err(err) => {
                                        proof {
                                            lemma_parse_vars_err_extend(vall, vk + 1);
                                        }
                                        return Err(err);
                                    },
                                    Ok(sv) => {
                                        let ghost svs0 = script_vars@;
                                        script_vars.push(sv);
                                        proof {
                                            assert(script_var_views(script_vars@) =~=
                                                script_var_views(svs0).push(sv@));
                                        }
                                    },
                                }
                            } else {
                                proof {
                                    lemma_parse_vars_err_extend(vall, vk + 1);
                                }
                                return Err(ConfigError::plain(ErrorKind::IllegalElement {
                                    pos: e.pos,
                                    tag: e.tag,
                                }));
                            }
                        },
                        XmlNode::Text(_) => {},
                    }
                    vk = vk + 1;
                }
                proof {
                    assert(vall.take(vk as int) =~= vall);
                }
                Ok(EwwConfig { widgets, windows, initial_variables, script_vars })
            },
        }
    }

    pub fn get_widgets(&self) -> (r: &StrMap<WidgetDefinition>)
        ensures
            *r == self.widgets,
    {
        &self.widgets
    }

    pub fn get_windows(&self) -> (r: &StrMap<EwwWindowDefinition>)
        ensures
            *r == self.windows,
    {
        &self.windows
    }

    pub fn get_default_vars(&self) -> (r: &StrMap<PrimitiveValue>)
        ensures
            *r == self.initial_variables,
    {
        &self.initial_variables
    }

    pub fn get_script_vars(&self) -> (r: &Vec<ScriptVar>)
        ensures
            *r == self.script_vars,
    {
        &self.script_vars
    }
}


/// The views of a sequence of primitive values, in order.
pub open spec fn prim_views(s: Seq<PrimitiveValue>) -> Seq<Seq<char>> {
    Seq::new(s.len(), |i: int| s[i]@)
}

/// The first `k` script results as a map: each script variable's name
/// bound to its command's output, a later binding overriding an earlier.
pub open spec fn spec_script_map_prefix(
    svs: Seq<ScriptVarView>,
    outs: Seq<Seq<char>>,
    k: int,
) -> Map<Seq<char>, Seq<char>>
    decreases k,
{
    if k <= 0 {
        Map::empty()
    } else {
        spec_script_map_prefix(svs, outs, k - 1).insert(svs[k - 1].name, outs[k - 1])
    }
}

pub open spec fn spec_script_map(svs: Seq<ScriptVarView>, outs: Seq<Seq<char>>) -> Map<
    Seq<char>,
    Seq<char>,
> {
    spec_script_map_prefix(svs, outs, svs.len() as int)
}

impl EwwConfig {
    /// Merges the script results, given one output per script variable in
    /// declaration order, with the static defaults; a default always
    /// overrides the script result for the same name.
    #[verifier::loop_isolation(false)]
    pub fn generate_initial_state(&self, script_outputs: &Vec<PrimitiveValue>) -> (r: StrMap<
        PrimitiveValue,
    >)
        requires
            script_outputs@.len() == self.script_vars@.len(),
        ensures
            r@ == spec_script_map(self@.script_vars, prim_views(script_outputs@))
                .union_prefer_right(self.initial_variables@),
            keys_unique(r.entries_seq()),
    {
        let ghost svs = self@.script_vars;
        let ghost outs = prim_views(script_outputs@);
        let mut m: StrMap<PrimitiveValue> = StrMap::new();
        let n = self.script_vars.len();
        let mut i: usize = 0;
        while i < n
            invariant
                0 <= i <= n,
                m@ == spec_script_map_prefix(svs, outs, i as int),
                keys_unique(m.entries_seq()),
            decreases n - i,
        {
            let name = self.script_vars[i].name.0.clone();
            let value = script_outputs[i].clone();
            m.insert(name, value);
            i = i + 1;
        }
        let ghost sm = spec_script_map(svs, outs);
        proof {
            assert(m@ =~= sm.union_prefer_right(map_of(
                self.initial_variables.entries_seq().take(0),
            )));
        }
        let dn = self.initial_variables.n_entries();
        let mut j: usize = 0;
        while j < dn
            invariant
                0 <= j <= dn,
                m@ == sm.union_prefer_right(map_of(
                    self.initial_variables.entries_seq().take(j as int),
                )),
                keys_unique(m.entries_seq()),
            decreases dn - j,
        {
            let entry = self.initial_variables.entry_at(j);
            let key = entry.0.clone();
            let value = entry.1.clone();
            m.insert(key, value);
            proof {
                let es = self.initial_variables.entries_seq();
                assert(es.take(j + 1).drop_last() =~= es.take(j as int));
                assert(es.take(j + 1).last() == es[j as int]);
                assert(m@ =~= sm.union_prefer_right(map_of(es.take(j + 1))));
            }
            j = j + 1;
        }
        proof {
            assert(self.initial_variables.entries_seq().take(dn as int)
                =~= self.initial_variables.entries_seq());
        }
        m
    }
}

/// An absent `variables` block yields empty defaults and no script
/// variables, and the initial state derived from such a configuration
/// is empty.
pub proof fn lemma_absent_variables_block(x: XmlElement, v: ConfigView)
    requires
        find_elem(x.children@, "variables"@) is None,
        spec_parse_config(x) matches Ok(vv) && vv == v,
    ensures
        v.initial_variables =~= Map::<Seq<char>, Seq<char>>::empty(),
        v.script_vars =~= Seq::<ScriptVarView>::empty(),
        spec_script_map(v.script_vars, Seq::<Seq<char>>::empty()).union_prefer_right(
            v.initial_variables,
        ) =~= Map::<Seq<char>, Seq<char>>::empty(),
{
}

/// A statically declared default always takes final precedence in the
/// merged initial state: for any name with a default, the merged table
/// holds the default, whatever the scripts produced.
pub proof fn lemma_default_wins(
    svs: Seq<ScriptVarView>,
    outs: Seq<Seq<char>>,
    defaults: Map<Seq<char>, Seq<char>>,
    k: Seq<char>,
)
    requires
        defaults.contains_key(k),
    ensures
        spec_script_map(svs, outs).union_prefer_right(defaults).contains_key(k),
        spec_script_map(svs, outs).union_prefer_right(defaults)[k] == defaults[k],
{
}

/// Of several `window` elements sharing a name, the one the windows map
/// holds is the last of them in document order.
pub proof fn lemma_window_last_wins(
    s: Seq<XmlNode>,
    m: Map<Seq<char>, EwwWindowDefinitionView>,
    j: int,
    e: XmlElement,
    nm: Seq<char>,
    wv: EwwWindowDefinitionView,
)
    requires
        spec_parse_windows(s) matches Ok(mm) && mm == m,
        0 <= j < s.len(),
        s[j] == XmlNode::Element(e),
        find_attr(e.attrs@, "name"@) matches Some(nms) && nms@ == nm,
        spec_parse_window(e) matches Ok(w) && w == wv,
        forall|l: int|
            j < l < s.len() ==> !((#[trigger] s[l]) matches XmlNode::Element(e2) && (find_attr(
                e2.attrs@,
                "name"@,
            ) matches Some(nm2) && nm2@ == nm)),
    ensures
        m.contains_key(nm),
        m[nm] == wv,
    decreases s.len(),
{
    if j == s.len() - 1 {
    } else {
        let dl = s.drop_last();
        let mdl = spec_parse_windows(dl)->Ok_0;
        lemma_window_last_wins(dl, mdl, j, e, nm, wv);
        assert(s[s.len() - 1] == s.last());
        match s.last() {
            XmlNode::Text(_) => {},
            XmlNode::Element(e2) => {
                assert(!(find_attr(e2.attrs@, "name"@) matches Some(nm2) && nm2@ == nm));
            },
        }
    }
}


/// Of several widget templates sharing a name, the one the widgets map
/// holds is the last of them in document order.
pub proof fn lemma_widget_def_last_wins(
    s: Seq<XmlNode>,
    m: Map<Seq<char>, WidgetDefinitionView>,
    j: int,
    e: XmlElement,
    wv: WidgetDefinitionView,
)
    requires
        spec_parse_defs(s) matches Ok(mm) && mm == m,
        0 <= j < s.len(),
        s[j] == XmlNode::Element(e),
        spec_parse_widget_def(e) matches Ok(w) && w == wv,
        forall|l: int|
            j < l < s.len() ==> !((#[trigger] s[l]) matches XmlNode::Element(e2) && (
            spec_parse_widget_def(e2) matches Ok(w2) && w2.name == wv.name)),
    ensures
        m.contains_key(wv.name),
        m[wv.name] == wv,
    decreases s.len(),
{
    if j == s.len() - 1 {
    } else {
        let dl = s.drop_last();
        let mdl = spec_parse_defs(dl)->Ok_0;
        lemma_widget_def_last_wins(dl, mdl, j, e, wv);
        assert(s[s.len() - 1] == s.last());
        match s.last() {
            XmlNode::Text(_) => {},
            XmlNode::Element(e2) => {
                assert(!(spec_parse_widget_def(e2) matches Ok(w2) && w2.name == wv.name));
            },
        }
    }
}

/// Of several `var` elements sharing a name, the default the variables
/// map holds is the last of them in document order.
pub proof fn lemma_default_var_last_wins(
    s: Seq<XmlNode>,
    acc: VarsAcc,
    j: int,
    e: XmlElement,
    nm: Seq<char>,
)
    requires
        spec_parse_vars(s) matches Ok(a) && a == acc,
        0 <= j < s.len(),
        s[j] == XmlNode::Element(e),
        e.tag@ == "var"@,
        find_attr(e.attrs@, "name"@) matches Some(nms) && nms@ == nm,
        forall|l: int|
            j < l < s.len() ==> !((#[trigger] s[l]) matches XmlNode::Element(e2) && e2.tag@
                == "var"@ && (find_attr(e2.attrs@, "name"@) matches Some(nm2) && nm2@ == nm)),
    ensures
        acc.vars.contains_key(nm),
        acc.vars[nm] == var_content(e.children@),
    decreases s.len(),
{
    if j == s.len() - 1 {
    } else {
        let dl = s.drop_last();
        let adl = spec_parse_vars(dl)->Ok_0;
        lemma_default_var_last_wins(dl, adl, j, e, nm);
        assert(s[s.len() - 1] == s.last());
        match s.last() {
            XmlNode::Text(_) => {},
            XmlNode::Element(e2) => {
                if e2.tag@ == "var"@ {
                    assert(!(find_attr(e2.attrs@, "name"@) matches Some(nm2) && nm2@ == nm));
                }
            },
        }
    }
}


} // verus!
