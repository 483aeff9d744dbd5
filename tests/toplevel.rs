use std::sync::Arc;
use wl_mitm::args::WlArg;
use wl_mitm::codec::WlRawMsg;
use wl_mitm::config::{
    Config, WlExec, WlFilter, WlFilterRequest, WlFilterRequestAction, WlFilterRequestBlockType,
    WlLogging, WlSockets,
};
use wl_mitm::proto::build_message;
use wl_mitm::state::{WlMitmRequestStep, WlMitmState, WlMitmVerdict};
use wl_mitm::wire::Endian;
use wl_mitm::xmlread::protocol_from_xml;

const E: Endian = Endian::Little;

const XML: &str = r#"<protocol name="shell">
  <interface name="wl_display" version="1">
    <request name="sync"><arg name="callback" type="new_id" interface="wl_callback"/></request>
    <request name="get_registry"><arg name="registry" type="new_id" interface="wl_registry"/></request>
    <event name="error"><arg name="object_id" type="object"/><arg name="code" type="uint"/><arg name="message" type="string"/></event>
    <event name="delete_id"><arg name="id" type="uint"/></event>
  </interface>
  <interface name="wl_callback" version="1"><event name="done" type="destructor"><arg name="data" type="uint"/></event></interface>
  <interface name="wl_registry" version="1">
    <request name="bind"><arg name="name" type="uint"/><arg name="id" type="new_id"/></request>
    <event name="global"><arg name="name" type="uint"/><arg name="interface" type="string"/><arg name="version" type="uint"/></event>
  </interface>
  <interface name="wl_compositor" version="4">
    <request name="create_surface"><arg name="id" type="new_id" interface="wl_surface"/></request>
  </interface>
  <interface name="wl_surface" version="4"><request name="destroy" type="destructor"/></interface>
  <interface name="wl_seat" version="1">
    <request name="get_pointer"><arg name="id" type="new_id" interface="wl_pointer"/></request>
  </interface>
  <interface name="wl_pointer" version="1">
    <event name="enter">
      <arg name="serial" type="uint"/><arg name="surface" type="object"/>
      <arg name="surface_x" type="fixed"/><arg name="surface_y" type="fixed"/>
    </event>
  </interface>
  <interface name="xdg_wm_base" version="1">
    <request name="destroy" type="destructor"/>
    <request name="get_xdg_surface">
      <arg name="id" type="new_id" interface="xdg_surface"/>
      <arg name="surface" type="object" interface="wl_surface"/>
    </request>
  </interface>
  <interface name="xdg_surface" version="1">
    <request name="destroy" type="destructor"/>
    <request name="get_toplevel"><arg name="id" type="new_id" interface="xdg_toplevel"/></request>
  </interface>
  <interface name="xdg_toplevel" version="1">
    <request name="destroy" type="destructor"/>
    <request name="set_title"><arg name="title" type="string"/></request>
    <request name="set_app_id"><arg name="app_id" type="string"/></request>
  </interface>
  <interface name="zwlr_screencopy_manager_v1" version="1">
    <request name="capture_output">
      <arg name="frame" type="new_id" interface="zwlr_screencopy_frame_v1"/>
      <arg name="overlay_cursor" type="int"/>
      <arg name="output" type="object" interface="wl_output"/>
    </request>
  </interface>
  <interface name="zwlr_screencopy_frame_v1" version="1"><request name="destroy" type="destructor"/></interface>
</protocol>"#;

fn msg(obj: u32, opcode: u16, args: Vec<WlArg>) -> WlRawMsg<i32> {
    build_message(E, obj, opcode, &args, vec![]).unwrap()
}

fn allowed(st: &mut WlMitmState, m: WlRawMsg<i32>) {
    match st.on_c2s_request(&m) {
        WlMitmRequestStep::Decided(o, None) => assert_eq!(o.1, WlMitmVerdict::Allowed),
        _ => panic!("expected the request to pass"),
    }
}

#[test]
fn ask_command_learns_focused_window() {
    let proto = Arc::new(protocol_from_xml(&vec![XML.to_string()]).unwrap());
    let globals = ["wl_compositor", "xdg_wm_base", "wl_seat", "zwlr_screencopy_manager_v1"];
    let cfg = Arc::new(Config {
        socket: WlSockets { listen: "a".to_string(), upstream: "b".to_string() },
        helpers: WlExec { ask_cmd: Some("ask".to_string()), notify_cmd: None },
        logging: WlLogging { log_all_requests: false, log_all_events: false, log_level: None },
        filter: WlFilter {
            allowed_globals: globals.iter().map(|s| s.to_string()).collect(),
            requests: vec![WlFilterRequest {
                interface: "zwlr_screencopy_manager_v1".to_string(),
                requests: vec!["capture_output".to_string()],
                action: WlFilterRequestAction::Ask,
                desc: None,
                block_type: WlFilterRequestBlockType::Ignore,
                error_code: 0,
            }],
            dry_run: false,
        },
    });
    let mut st = WlMitmState::new(cfg, proto, E).unwrap();
    allowed(&mut st, msg(1, 1, vec![WlArg::NewId(2)]));
    for (name, iface) in [(5u32, "wl_compositor"), (9, "xdg_wm_base"), (10, "wl_seat"), (7, "zwlr_screencopy_manager_v1")] {
        let o = st.on_s2c_event(&msg(2, 0, vec![WlArg::Uint(name), WlArg::Str(iface.to_string()), WlArg::Uint(1)]));
        assert_eq!(o.1, WlMitmVerdict::Allowed);
    }
    for (name, iface, id) in [(5u32, "wl_compositor", 3u32), (9, "xdg_wm_base", 4), (10, "wl_seat", 5), (7, "zwlr_screencopy_manager_v1", 6)] {
        allowed(
            &mut st,
            msg(2, 0, vec![WlArg::Uint(name), WlArg::Str(iface.to_string()), WlArg::Uint(1), WlArg::NewId(id)]),
        );
    }
    allowed(&mut st, msg(3, 0, vec![WlArg::NewId(7)]));
    allowed(&mut st, msg(4, 1, vec![WlArg::NewId(8), WlArg::Object(7)]));
    allowed(&mut st, msg(8, 1, vec![WlArg::NewId(9)]));
    allowed(&mut st, msg(9, 1, vec![WlArg::Str("Editor".to_string())]));
    allowed(&mut st, msg(9, 2, vec![WlArg::Str("org.example.editor".to_string())]));
    allowed(&mut st, msg(5, 0, vec![WlArg::NewId(10)]));

    let before = msg(6, 0, vec![WlArg::NewId(11), WlArg::Int(0), WlArg::Object(3)]);
    match st.on_c2s_request(&before) {
        WlMitmRequestStep::Ask(_, cmd) => {
            assert_eq!(cmd.last_toplevel_title, None);
            assert_eq!(cmd.desc, "");
        },
        _ => panic!("expected an ask"),
    }

    let enter = msg(10, 0, vec![WlArg::Uint(1), WlArg::Object(7), WlArg::Fixed(0), WlArg::Fixed(0)]);
    assert_eq!(st.on_s2c_event(&enter).1, WlMitmVerdict::Allowed);
    let capture = msg(6, 0, vec![WlArg::NewId(12), WlArg::Int(0), WlArg::Object(3)]);
    match st.on_c2s_request(&capture) {
        WlMitmRequestStep::Ask(denied, cmd) => {
            assert_eq!(denied.1, WlMitmVerdict::Filtered);
            assert_eq!(cmd.program, "ask");
            assert_eq!(cmd.last_toplevel_title.as_deref(), Some("Editor"));
            assert_eq!(cmd.last_toplevel_app_id.as_deref(), Some("org.example.editor"));
            assert_eq!(cmd.msg.obj_id, 6);
        },
        _ => panic!("expected an ask"),
    }

    allowed(&mut st, msg(9, 0, vec![]));
    match st.on_c2s_request(&msg(6, 0, vec![WlArg::NewId(13), WlArg::Int(0), WlArg::Object(3)])) {
        WlMitmRequestStep::Ask(_, cmd) => assert_eq!(cmd.last_toplevel_title, None),
        _ => panic!("expected an ask"),
    }
}
