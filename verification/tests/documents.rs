use eww_config::{parse_duration, parse_i32, parse_u64, ErrorKind, EwwConfig, Interval, VarName};

#[test]
fn whole_document_compiles() {
    let doc = "\
<eww>
  <definitions>
    <def name=\"bar\">
      <box>content</box>
    </def>
  </definitions>
  <windows>
    <window name=\"main\">
      <size x=\"100\" y=\"25\"/>
      <pos x=\"0\" y=\"-3\"/>
      <widget>
        <bar/>
      </widget>
    </window>
  </windows>
  <variables>
    <var name=\"greeting\">hello</var>
    <script-var name=\"clock\" interval=\"10s\">date +%H:%M</script-var>
  </variables>
</eww>";
    let cfg = EwwConfig::from_document_text(doc).unwrap();
    assert!(cfg.get_widgets().get("bar").is_some());
    let w = cfg.get_windows().get("main").unwrap();
    assert_eq!(w.size, (100, 25));
    assert_eq!(w.position, (0, -3));
    assert_eq!(cfg.get_default_vars().get("greeting").unwrap().0, "hello");
    let svs = cfg.get_script_vars();
    assert_eq!(svs.len(), 1);
    assert_eq!(svs[0].name, VarName("clock".to_string()));
    assert_eq!(svs[0].command, "date +%H:%M");
    assert_eq!(svs[0].interval, Interval { millis: 10_000 });
}

#[test]
fn document_attribute_and_text_values_come_through() {
    // Fails if parsing handed back canned values instead of the document's.
    let doc = "<eww><definitions/><windows><window name=\"other\">\
<size x=\"7\" y=\"8\"/><pos x=\"9\" y=\"10\"/><widget><b/></widget>\
</window></windows></eww>";
    let cfg = EwwConfig::from_document_text(doc).unwrap();
    assert!(cfg.get_windows().get("main").is_none());
    let w = cfg.get_windows().get("other").unwrap();
    assert_eq!(w.size, (7, 8));
    assert_eq!(w.position, (9, 10));
}

#[test]
fn malformed_document_is_a_syntax_error() {
    let err = EwwConfig::from_document_text("<eww><definitions></eww>").unwrap_err();
    assert!(matches!(err.kind, ErrorKind::XmlSyntax { .. }));
}

#[test]
fn document_comments_are_ignored() {
    let doc = "<eww><!-- a note --><definitions/><windows/></eww>";
    let cfg = EwwConfig::from_document_text(doc).unwrap();
    assert!(cfg.get_script_vars().is_empty());
}

#[test]
fn parse_duration_units() {
    assert_eq!(parse_duration("10s"), Some(Interval { millis: 10_000 }));
    assert_eq!(parse_duration("100ms"), Some(Interval { millis: 100 }));
    assert_eq!(parse_duration("5m"), Some(Interval { millis: 300_000 }));
    assert_eq!(parse_duration("2h"), Some(Interval { millis: 7_200_000 }));
    assert_eq!(parse_duration("0s"), Some(Interval { millis: 0 }));
    assert_eq!(parse_duration(""), None);
    assert_eq!(parse_duration("10"), None);
    assert_eq!(parse_duration("s"), None);
    assert_eq!(parse_duration("ten-s"), None);
    assert_eq!(parse_duration("99999999999999999999999s"), None);
}

#[test]
fn parse_i32_values() {
    assert_eq!(parse_i32("0"), Some(0));
    assert_eq!(parse_i32("-42"), Some(-42));
    assert_eq!(parse_i32("+7"), Some(7));
    assert_eq!(parse_i32("2147483647"), Some(i32::MAX));
    assert_eq!(parse_i32("-2147483648"), Some(i32::MIN));
    assert_eq!(parse_i32("2147483648"), None);
    assert_eq!(parse_i32("-2147483649"), None);
    assert_eq!(parse_i32(""), None);
    assert_eq!(parse_i32("12a"), None);
    assert_eq!(parse_i32("١٢"), None);
}

#[test]
fn parse_u64_values() {
    assert_eq!(parse_u64("0"), Some(0));
    assert_eq!(parse_u64("18446744073709551615"), Some(u64::MAX));
    assert_eq!(parse_u64("18446744073709551616"), None);
    assert_eq!(parse_u64("-1"), None);
}
