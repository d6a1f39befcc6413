use eww_config::{
    ConfigError, ErrorKind, EwwConfig, EwwWindowDefinition, Interval, Pos, PrimitiveValue,
    ScriptVar, VarName, WidgetDefinition, XmlElement, XmlNode,
};

fn pos() -> Pos {
    Pos { line: 1, col: 1 }
}

fn elem(tag: &str, attrs: &[(&str, &str)], children: Vec<XmlNode>) -> XmlElement {
    XmlElement {
        tag: tag.to_string(),
        attrs: attrs.iter().map(|(k, v)| (k.to_string(), v.to_string())).collect(),
        children,
        pos: pos(),
    }
}

fn text(t: &str) -> XmlNode {
    XmlNode::Text(t.to_string())
}

fn script_var_node(name: &str, interval: &str, command: &str) -> XmlElement {
    elem("script-var", &[("name", name), ("interval", interval)], vec![text(command)])
}

fn window_node(children: Vec<XmlNode>) -> XmlElement {
    elem("window", &[("name", "main")], children)
}

fn size_node() -> XmlNode {
    XmlNode::Element(elem("size", &[("x", "100"), ("y", "200")], vec![]))
}

fn pos_node() -> XmlNode {
    XmlNode::Element(elem("pos", &[("x", "-5"), ("y", "40")], vec![]))
}

fn widget_node() -> XmlNode {
    XmlNode::Element(elem("widget", &[], vec![XmlNode::Element(elem("box", &[], vec![]))]))
}

#[test]
fn script_var_round_trip() {
    let sv = ScriptVar::from_xml_element(script_var_node("x", "10s", "echo hi")).unwrap();
    assert_eq!(
        sv,
        ScriptVar {
            name: VarName("x".to_string()),
            command: "echo hi".to_string(),
            interval: Interval { millis: 10_000 },
        }
    );
}

#[test]
fn script_var_wrong_tag() {
    let err = ScriptVar::from_xml_element(elem("var", &[], vec![])).unwrap_err();
    match err.kind {
        ErrorKind::TagMismatch { expected, actual, .. } => {
            assert_eq!(expected, "script-var");
            assert_eq!(actual, "var");
        },
        k => panic!("unexpected error kind: {:?}", k),
    }
}

#[test]
fn script_var_missing_name() {
    let err =
        ScriptVar::from_xml_element(elem("script-var", &[("interval", "1s")], vec![text("c")]))
            .unwrap_err();
    assert!(matches!(err.kind, ErrorKind::MissingAttribute { ref attr, .. } if attr == "name"));
}

#[test]
fn script_var_missing_interval() {
    let err = ScriptVar::from_xml_element(elem("script-var", &[("name", "x")], vec![text("c")]))
        .unwrap_err();
    assert!(matches!(err.kind, ErrorKind::MissingAttribute { ref attr, .. } if attr == "interval"));
}

#[test]
fn script_var_bad_interval() {
    let err = ScriptVar::from_xml_element(script_var_node("x", "10q", "c")).unwrap_err();
    assert!(matches!(err.kind, ErrorKind::DurationParse { ref text, .. } if text == "10q"));
}

#[test]
fn script_var_no_child() {
    let err =
        ScriptVar::from_xml_element(elem("script-var", &[("name", "x"), ("interval", "1s")], vec![]))
            .unwrap_err();
    assert!(matches!(err.kind, ErrorKind::ChildCardinality { count: 0, .. }));
}

#[test]
fn script_var_element_child() {
    let err = ScriptVar::from_xml_element(elem(
        "script-var",
        &[("name", "x"), ("interval", "1s")],
        vec![XmlNode::Element(elem("b", &[], vec![]))],
    ))
    .unwrap_err();
    assert!(matches!(err.kind, ErrorKind::ExpectedText { .. }));
}

#[test]
fn window_parses_geometry_and_widget() {
    let wd =
        EwwWindowDefinition::from_xml_element(window_node(vec![size_node(), pos_node(), widget_node()]))
            .unwrap();
    assert_eq!(wd.size, (100, 200));
    assert_eq!(wd.position, (-5, 40));
    assert_eq!(wd.widget.node, XmlNode::Element(elem("box", &[], vec![])));
}

#[test]
fn window_missing_pos_names_pos() {
    let err = EwwWindowDefinition::from_xml_element(window_node(vec![size_node(), widget_node()]))
        .unwrap_err();
    match err.kind {
        ErrorKind::MissingChild { child, .. } => assert_eq!(child, "pos"),
        k => panic!("unexpected error kind: {:?}", k),
    }
}

#[test]
fn window_missing_size_names_size() {
    let err = EwwWindowDefinition::from_xml_element(window_node(vec![pos_node(), widget_node()]))
        .unwrap_err();
    assert!(matches!(err.kind, ErrorKind::MissingChild { ref child, .. } if child == "size"));
}

#[test]
fn window_bad_coordinate() {
    let bad_size = XmlNode::Element(elem("size", &[("x", "wide"), ("y", "200")], vec![]));
    let err =
        EwwWindowDefinition::from_xml_element(window_node(vec![bad_size, pos_node(), widget_node()]))
            .unwrap_err();
    assert!(matches!(err.kind, ErrorKind::IntParse { ref text, .. } if text == "wide"));
}

#[test]
fn window_widget_needs_one_child() {
    let empty_widget = XmlNode::Element(elem("widget", &[], vec![]));
    let err =
        EwwWindowDefinition::from_xml_element(window_node(vec![size_node(), pos_node(), empty_widget]))
            .unwrap_err();
    assert!(matches!(err.kind, ErrorKind::ChildCardinality { count: 0, .. }));
}

#[test]
fn widget_definition_parses() {
    let def = WidgetDefinition::from_xml_element(elem(
        "def",
        &[("name", "bar")],
        vec![XmlNode::Element(elem("box", &[], vec![]))],
    ))
    .unwrap();
    assert_eq!(def.name, "bar");
    assert_eq!(def.structure.node, XmlNode::Element(elem("box", &[], vec![])));
}

#[test]
fn widget_definition_needs_name() {
    let err = WidgetDefinition::from_xml_element(elem("def", &[], vec![text("x")])).unwrap_err();
    assert!(matches!(err.kind, ErrorKind::MissingAttribute { ref attr, .. } if attr == "name"));
}

fn root_with(children: Vec<XmlNode>) -> XmlElement {
    elem("eww", &[], children)
}

fn defs_section() -> XmlNode {
    XmlNode::Element(elem(
        "definitions",
        &[],
        vec![XmlNode::Element(elem(
            "def",
            &[("name", "bar")],
            vec![XmlNode::Element(elem("box", &[], vec![]))],
        ))],
    ))
}

fn windows_section() -> XmlNode {
    XmlNode::Element(elem(
        "windows",
        &[],
        vec![XmlNode::Element(window_node(vec![size_node(), pos_node(), widget_node()]))],
    ))
}

#[test]
fn config_missing_definitions_section() {
    let err = EwwConfig::from_xml_element(root_with(vec![windows_section()])).unwrap_err();
    assert!(matches!(err.kind, ErrorKind::MissingChild { ref child, .. } if child == "definitions"));
    assert_eq!(err.section, None);
}

#[test]
fn config_missing_windows_section() {
    let err = EwwConfig::from_xml_element(root_with(vec![defs_section()])).unwrap_err();
    assert!(matches!(err.kind, ErrorKind::MissingChild { ref child, .. } if child == "windows"));
}

#[test]
fn config_wraps_window_errors_with_context() {
    let broken_windows = XmlNode::Element(elem(
        "windows",
        &[],
        vec![XmlNode::Element(window_node(vec![size_node(), widget_node()]))],
    ));
    let err =
        EwwConfig::from_xml_element(root_with(vec![defs_section(), broken_windows])).unwrap_err();
    assert_eq!(err.section.as_deref(), Some("error parsing window definitions"));
    assert!(matches!(err.kind, ErrorKind::MissingChild { ref child, .. } if child == "pos"));
}

#[test]
fn config_wraps_widget_errors_with_context() {
    let broken_defs = XmlNode::Element(elem(
        "definitions",
        &[],
        vec![XmlNode::Element(elem("def", &[], vec![text("x")]))],
    ));
    let err =
        EwwConfig::from_xml_element(root_with(vec![broken_defs, windows_section()])).unwrap_err();
    assert_eq!(err.section.as_deref(), Some("error parsing widget definitions"));
}

#[test]
fn illegal_element_in_variables_names_it() {
    let vars = XmlNode::Element(elem(
        "variables",
        &[],
        vec![XmlNode::Element(elem("foo", &[], vec![]))],
    ));
    let err = EwwConfig::from_xml_element(root_with(vec![defs_section(), windows_section(), vars]))
        .unwrap_err();
    match err {
        ConfigError { section: None, kind: ErrorKind::IllegalElement { tag, .. } } => {
            assert_eq!(tag, "foo");
        },
        e => panic!("unexpected error: {:?}", e),
    }
}

#[test]
fn absent_variables_block_is_empty_not_an_error() {
    let cfg = EwwConfig::from_xml_element(root_with(vec![defs_section(), windows_section()]))
        .unwrap();
    assert!(cfg.get_default_vars().get("anything").is_none());
    assert!(cfg.get_script_vars().is_empty());
    let state = cfg.generate_initial_state(&vec![]);
    assert_eq!(state.n_entries(), 0);
}

#[test]
fn variables_block_collects_vars_and_script_vars() {
    let vars = XmlNode::Element(elem(
        "variables",
        &[],
        vec![
            XmlNode::Element(elem("var", &[("name", "greeting")], vec![text("hello")])),
            XmlNode::Element(elem("var", &[("name", "empty")], vec![])),
            XmlNode::Element(script_var_node("clock", "500ms", "date")),
        ],
    ));
    let cfg = EwwConfig::from_xml_element(root_with(vec![defs_section(), windows_section(), vars]))
        .unwrap();
    assert_eq!(cfg.get_default_vars().get("greeting").unwrap().0, "hello");
    assert_eq!(cfg.get_default_vars().get("empty").unwrap().0, "");
    let svs = cfg.get_script_vars();
    assert_eq!(svs.len(), 1);
    assert_eq!(svs[0].name, VarName("clock".to_string()));
    assert_eq!(svs[0].command, "date");
    assert_eq!(svs[0].interval, Interval { millis: 500 });
}

#[test]
fn var_with_element_child_keeps_its_source() {
    let body = XmlNode::Element(elem("box", &[("a", "1")], vec![text("hi")]));
    let vars = XmlNode::Element(elem(
        "variables",
        &[],
        vec![XmlNode::Element(elem("var", &[("name", "v")], vec![body]))],
    ));
    let cfg = EwwConfig::from_xml_element(root_with(vec![defs_section(), windows_section(), vars]))
        .unwrap();
    assert_eq!(cfg.get_default_vars().get("v").unwrap().0, "<box a=\"1\">hi</box>");
}

#[test]
fn duplicate_window_names_keep_the_later_one() {
    let w1 = XmlNode::Element(elem(
        "window",
        &[("name", "w")],
        vec![size_node(), pos_node(), widget_node()],
    ));
    let later_size = XmlNode::Element(elem("size", &[("x", "1"), ("y", "2")], vec![]));
    let w2 = XmlNode::Element(elem("window", &[("name", "w")], vec![
        later_size,
        pos_node(),
        widget_node(),
    ]));
    let windows = XmlNode::Element(elem("windows", &[], vec![w1, w2]));
    let cfg = EwwConfig::from_xml_element(root_with(vec![defs_section(), windows])).unwrap();
    assert_eq!(cfg.get_windows().len(), 1);
    let got = cfg.get_windows().get("w").unwrap();
    assert_eq!(got.size, (1, 2));
}

#[test]
fn duplicate_var_names_keep_the_later_default() {
    let vars = XmlNode::Element(elem(
        "variables",
        &[],
        vec![
            XmlNode::Element(elem("var", &[("name", "v")], vec![text("first")])),
            XmlNode::Element(elem("var", &[("name", "v")], vec![text("second")])),
        ],
    ));
    let cfg = EwwConfig::from_xml_element(root_with(vec![defs_section(), windows_section(), vars]))
        .unwrap();
    assert_eq!(cfg.get_default_vars().len(), 1);
    assert_eq!(cfg.get_default_vars().get("v").unwrap().0, "second");
}

#[test]
fn defaults_overwrite_script_results() {
    let vars = XmlNode::Element(elem(
        "variables",
        &[],
        vec![
            XmlNode::Element(script_var_node("a", "1s", "echo 1")),
            XmlNode::Element(elem("var", &[("name", "a")], vec![text("default-a")])),
            XmlNode::Element(elem("var", &[("name", "b")], vec![text("default-b")])),
        ],
    ));
    let cfg = EwwConfig::from_xml_element(root_with(vec![defs_section(), windows_section(), vars]))
        .unwrap();
    let outputs = vec![PrimitiveValue("1".to_string())];
    let state = cfg.generate_initial_state(&outputs);
    assert_eq!(state.len(), 2);
    assert_eq!(state.get("a").unwrap().0, "default-a");
    assert_eq!(state.get("b").unwrap().0, "default-b");
}

#[test]
fn script_results_kept_where_no_default() {
    let vars = XmlNode::Element(elem(
        "variables",
        &[],
        vec![
            XmlNode::Element(script_var_node("a", "1s", "echo 1")),
            XmlNode::Element(elem("var", &[("name", "b")], vec![text("default-b")])),
        ],
    ));
    let cfg = EwwConfig::from_xml_element(root_with(vec![defs_section(), windows_section(), vars]))
        .unwrap();
    let outputs = vec![PrimitiveValue("out-a".to_string())];
    let state = cfg.generate_initial_state(&outputs);
    assert_eq!(state.get("a").unwrap().0, "out-a");
    assert_eq!(state.get("b").unwrap().0, "default-b");
}
