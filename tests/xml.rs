use wl_mitm::args::WlArgType;
use wl_mitm::protocol::{lookup_known_object_type, WlMsgType};
use wl_mitm::xml::ProtocolError;
use wl_mitm::xmlread::{interfaces_from_xml, protocol_from_xml};

const XML: &str = r#"<protocol name="t">
  <interface name="wl_registry" version="1">
    <description summary="x">text</description>
    <event name="global"><arg name="name" type="uint"/></event>
    <request name="bind"><arg name="name" type="uint"/><arg name="id" type="new_id"/></request>
    <event name="global_remove"><arg name="name" type="uint"/></event>
    <request name="release" type="destructor"/>
  </interface>
  <interface name="ext_thing" version="1">
    <request name="set"><arg name="type" type="enum"/><arg name="msg" type="string"/><arg name="o" type="object" interface="wl_registry"/></request>
  </interface>
</protocol>"#;

#[test]
fn opcodes_count_per_direction() {
    let ifaces = interfaces_from_xml(XML).unwrap();
    assert_eq!(ifaces.len(), 2);
    let reg = &ifaces[0];
    assert_eq!(reg.name_snake, "wl_registry");
    let summary: Vec<(String, WlMsgType, u16, bool)> = reg
        .msgs
        .iter()
        .map(|m| (m.name_snake.clone(), m.msg_type, m.opcode, m.is_destructor))
        .collect();
    assert_eq!(
        summary,
        vec![
            ("global".to_string(), WlMsgType::Event, 0, false),
            ("bind".to_string(), WlMsgType::Request, 0, false),
            ("global_remove".to_string(), WlMsgType::Event, 1, false),
            ("release".to_string(), WlMsgType::Request, 1, true),
        ]
    );
    assert!(reg.msgs.iter().all(|m| m.interface_name_snake == "wl_registry"));
}

#[test]
fn untyped_new_id_expands_to_three_arguments() {
    let ifaces = interfaces_from_xml(XML).unwrap();
    let bind = &ifaces[0].msgs[1];
    let names: Vec<&str> = bind.args.iter().map(|a| a.0.as_str()).collect();
    assert_eq!(names, vec!["name", "id_interface_name", "id_interface_version", "id"]);
    assert!(matches!(bind.args[1].1, WlArgType::String));
    assert!(matches!(bind.args[2].1, WlArgType::Uint));
    assert!(matches!(bind.args[3].1, WlArgType::NewId(None)));
}

#[test]
fn reserved_argument_names_are_renamed() {
    let ifaces = interfaces_from_xml(XML).unwrap();
    let set = &ifaces[1].msgs[0];
    let names: Vec<&str> = set.args.iter().map(|a| a.0.as_str()).collect();
    assert_eq!(names, vec!["_type", "_msg", "o"]);
    assert!(matches!(set.args[2].1, WlArgType::Object));
}

#[test]
fn num_consumed_fds_counts_fd_arguments() {
    let xml = r#"<protocol name="p"><interface name="x" version="1">
      <request name="two"><arg name="a" type="fd"/><arg name="b" type="int"/><arg name="c" type="fd"/></request>
      <request name="none"><arg name="a" type="int"/></request>
    </interface></protocol>"#;
    let ifaces = interfaces_from_xml(xml).unwrap();
    assert_eq!(ifaces[0].msgs[0].num_consumed_fds(), 2);
    assert_eq!(ifaces[0].msgs[1].num_consumed_fds(), 0);
}

#[test]
fn arg_type_names() {
    assert!(matches!(WlArgType::parse("int"), Some(WlArgType::Int)));
    assert!(matches!(WlArgType::parse("new_id"), Some(WlArgType::NewId(None))));
    assert!(matches!(WlArgType::parse("fd"), Some(WlArgType::Fd)));
    assert!(WlArgType::parse("float").is_none());
    let mut t = WlArgType::NewId(None);
    assert!(t.set_interface_name("wl_surface".to_string()).is_ok());
    assert!(matches!(t, WlArgType::NewId(Some(ref s)) if s == "wl_surface"));
    let mut u = WlArgType::Uint;
    assert_eq!(u.set_interface_name("x".to_string()), Err(ProtocolError::InterfaceOnNonNewId));
}

#[test]
fn broken_files_are_refused() {
    assert_eq!(
        interfaces_from_xml(r#"<protocol><interface name="a"><request name="r">"#).err(),
        Some(ProtocolError::UnexpectedEof)
    );
    assert_eq!(
        interfaces_from_xml(r#"<protocol><interface><request name="r"/></interface></protocol>"#).err(),
        Some(ProtocolError::MissingName)
    );
    assert_eq!(
        interfaces_from_xml(r#"<protocol><interface name="a"><request name="r"><arg name="x" type="float"/></request></interface></protocol>"#).err(),
        Some(ProtocolError::UnknownArgType)
    );
    assert_eq!(interfaces_from_xml("<a></b>").err(), Some(ProtocolError::Xml));
}

#[test]
fn protocol_joins_files() {
    let p = protocol_from_xml(&vec![XML.to_string(), r#"<protocol><interface name="more"><event name="e"/></interface></protocol>"#.to_string()]).unwrap();
    assert_eq!(p.interfaces.len(), 3);
    assert_eq!(lookup_known_object_type(&p, "more").unwrap().index, 2);
    assert!(lookup_known_object_type(&p, "absent").is_none());
    let t = lookup_known_object_type(&p, "ext_thing").unwrap();
    assert_eq!(t.interface(&p), "ext_thing");
    assert!(p.find_msg(t, WlMsgType::Request, 0).is_some());
    assert!(p.find_msg(t, WlMsgType::Event, 0).is_none());
}

#[test]
fn events_stop_at_document_end() {
    let evs = wl_mitm::xmlread::xml_events("<a><b/></a>").unwrap();
    assert!(matches!(evs.last(), Some(wl_mitm::xml::XmlEvent::Eof)));
    assert_eq!(evs.iter().filter(|e| matches!(e, wl_mitm::xml::XmlEvent::Eof)).count(), 1);
    let ifaces = wl_mitm::xml::interfaces_from_events(&evs).unwrap();
    assert!(ifaces.is_empty());
}

#[test]
fn missing_end_tag_of_interface_is_unexpected_eof() {
    assert_eq!(
        interfaces_from_xml(r#"<protocol><interface name="a"><request name="r"/>"#).err(),
        Some(ProtocolError::UnexpectedEof)
    );
}
