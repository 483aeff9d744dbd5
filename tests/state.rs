use std::sync::Arc;
use wl_mitm::args::WlArg;
use wl_mitm::codec::{DecoderOutcome, WlDecoder, WlRawMsg};
use wl_mitm::config::{
    Config, WlExec, WlFilter, WlFilterRequest, WlFilterRequestAction, WlFilterRequestBlockType,
    WlLogging, WlSockets,
};
use wl_mitm::duplex::{route_event, route_request, WlMitmRoute, REJECTION_MESSAGE};
use wl_mitm::objects::{WlExtensionKind, WlObjectExtension, WlObjects};
use wl_mitm::proto::{build_message, decode_request, WaylandProtocolParsingOutcome};
use wl_mitm::protocol::{lookup_known_object_type, WlMsgType, WlProtocol};
use wl_mitm::state::{ask_outcome, WlMitmOutcome, WlMitmRequestStep, WlMitmState, WlMitmVerdict};
use wl_mitm::wire::Endian;
use wl_mitm::xmlread::protocol_from_xml;

const E: Endian = Endian::Little;

const CORE_XML: &str = r#"<?xml version="1.0" encoding="UTF-8"?>
<protocol name="core">
  <interface name="wl_display" version="1">
    <request name="sync"><arg name="callback" type="new_id" interface="wl_callback"/></request>
    <request name="get_registry"><arg name="registry" type="new_id" interface="wl_registry"/></request>
    <event name="error">
      <arg name="object_id" type="object"/>
      <arg name="code" type="uint"/>
      <arg name="message" type="string"/>
    </event>
    <event name="delete_id"><arg name="id" type="uint"/></event>
  </interface>
  <interface name="wl_registry" version="1">
    <request name="bind"><arg name="name" type="uint"/><arg name="id" type="new_id"/></request>
    <event name="global">
      <arg name="name" type="uint"/>
      <arg name="interface" type="string"/>
      <arg name="version" type="uint"/>
    </event>
    <event name="global_remove"><arg name="name" type="uint"/></event>
  </interface>
  <interface name="wl_callback" version="1">
    <event name="done" type="destructor"><arg name="callback_data" type="uint"/></event>
  </interface>
  <interface name="wl_compositor" version="4">
    <request name="create_surface"><arg name="id" type="new_id" interface="wl_surface"/></request>
  </interface>
  <interface name="wl_surface" version="4">
    <request name="destroy" type="destructor"/>
    <request name="commit"/>
  </interface>
  <interface name="wl_shm" version="1">
    <request name="create_pool">
      <arg name="id" type="new_id" interface="wl_shm_pool"/>
      <arg name="fd" type="fd"/>
      <arg name="size" type="int"/>
    </request>
  </interface>
  <interface name="wl_shm_pool" version="1">
    <request name="destroy" type="destructor"/>
  </interface>
  <interface name="wl_forbidden" version="1">
    <request name="poke"/>
  </interface>
  <interface name="zwlr_screencopy_manager_v1" version="1">
    <request name="capture_output">
      <arg name="frame" type="new_id" interface="zwlr_screencopy_frame_v1"/>
      <arg name="overlay_cursor" type="int"/>
      <arg name="output" type="object" interface="wl_output"/>
    </request>
  </interface>
  <interface name="zwlr_screencopy_frame_v1" version="1">
    <request name="destroy" type="destructor"/>
  </interface>
</protocol>
"#;

fn protocol() -> Arc<WlProtocol> {
    Arc::new(protocol_from_xml(&vec![CORE_XML.to_string()]).unwrap())
}

fn config(rules: Vec<WlFilterRequest>, ask: Option<&str>, dry_run: bool) -> Arc<Config> {
    Arc::new(Config {
        socket: WlSockets { listen: "wl-mitm-0".to_string(), upstream: "wayland-1".to_string() },
        helpers: WlExec { ask_cmd: ask.map(|s| s.to_string()), notify_cmd: None },
        logging: WlLogging { log_all_requests: false, log_all_events: false, log_level: None },
        filter: WlFilter {
            allowed_globals: vec![
                "wl_compositor".to_string(),
                "wl_shm".to_string(),
                "zwlr_screencopy_manager_v1".to_string(),
            ],
            requests: rules,
            dry_run,
        },
    })
}

fn rule(action: WlFilterRequestAction, block_type: WlFilterRequestBlockType, code: u32) -> WlFilterRequest {
    WlFilterRequest {
        interface: "zwlr_screencopy_manager_v1".to_string(),
        requests: vec!["capture_output".to_string()],
        action,
        desc: Some("screen capture".to_string()),
        block_type,
        error_code: code,
    }
}

fn msg(obj: u32, opcode: u16, args: Vec<WlArg>) -> WlRawMsg<i32> {
    build_message(E, obj, opcode, &args, vec![]).unwrap()
}

fn request(st: &mut WlMitmState, m: &WlRawMsg<i32>) -> WlMitmOutcome {
    match st.on_c2s_request(m) {
        WlMitmRequestStep::Decided(o, _) => o,
        WlMitmRequestStep::Ask(_, _) => panic!("unexpected ask"),
    }
}

fn verdict(o: &WlMitmOutcome) -> WlMitmVerdict {
    o.1
}

/// A client that fetched the registry (id 2), with globals advertised.
fn with_registry(cfg: Arc<Config>) -> WlMitmState {
    let mut st = WlMitmState::new(cfg, protocol(), E).unwrap();
    let o = request(&mut st, &msg(1, 1, vec![WlArg::NewId(2)]));
    assert_eq!(verdict(&o), WlMitmVerdict::Allowed);
    st
}

fn global(name: u32, iface: &str, version: u32) -> WlRawMsg<i32> {
    msg(2, 0, vec![WlArg::Uint(name), WlArg::Str(iface.to_string()), WlArg::Uint(version)])
}

fn bind(name: u32, iface: &str, version: u32, id: u32) -> WlRawMsg<i32> {
    msg(
        2,
        0,
        vec![WlArg::Uint(name), WlArg::Str(iface.to_string()), WlArg::Uint(version), WlArg::NewId(id)],
    )
}

fn only_compositor() -> Arc<Config> {
    let mut c = Config {
        socket: WlSockets { listen: "a".to_string(), upstream: "b".to_string() },
        helpers: WlExec { ask_cmd: None, notify_cmd: None },
        logging: WlLogging { log_all_requests: false, log_all_events: false, log_level: None },
        filter: WlFilter { allowed_globals: vec![], requests: vec![], dry_run: false },
    };
    c.filter.allowed_globals.push("wl_compositor".to_string());
    Arc::new(c)
}

#[test]
fn globals_are_filtered_by_name() {
    let mut st = with_registry(only_compositor());
    let g1 = global(5, "wl_compositor", 4);
    let o1 = st.on_s2c_event(&g1);
    assert_eq!(verdict(&o1), WlMitmVerdict::Allowed);
    let g2 = global(6, "wl_forbidden", 1);
    let o2 = st.on_s2c_event(&g2);
    assert_eq!(verdict(&o2), WlMitmVerdict::Filtered);
    let bytes1 = g1.msg_buf.to_vec();
    match route_event(g1, o1.1, false) {
        WlMitmRoute::ToClient(m) => assert_eq!(m.msg_buf.to_vec(), bytes1),
        _ => panic!("first global must reach the client"),
    }
    assert!(matches!(route_event(g2, o2.1, false), WlMitmRoute::Drop));
}

#[test]
fn unknown_global_interface_is_filtered() {
    let mut st = with_registry(config(vec![], None, false));
    let o = st.on_s2c_event(&global(9, "wl_nonexistent", 1));
    assert_eq!(verdict(&o), WlMitmVerdict::Filtered);
}

#[test]
fn binding_a_suppressed_global_terminates() {
    let mut st = with_registry(only_compositor());
    st.on_s2c_event(&global(5, "wl_compositor", 4));
    st.on_s2c_event(&global(6, "wl_forbidden", 1));
    let b = bind(6, "wl_forbidden", 1, 10);
    let o = request(&mut st, &b);
    assert_eq!(verdict(&o), WlMitmVerdict::Terminate);
    assert!(matches!(route_request(E, b, o.1, false), WlMitmRoute::Abort));
}

#[test]
fn binding_under_another_interface_terminates() {
    let mut st = with_registry(only_compositor());
    st.on_s2c_event(&global(5, "wl_compositor", 4));
    let o = request(&mut st, &bind(5, "wl_shm", 1, 10));
    assert_eq!(verdict(&o), WlMitmVerdict::Terminate);
}

#[test]
fn binding_an_advertised_global_records_it() {
    let mut st = with_registry(only_compositor());
    st.on_s2c_event(&global(5, "wl_compositor", 4));
    let o = request(&mut st, &bind(5, "wl_compositor", 4, 10));
    assert_eq!(verdict(&o), WlMitmVerdict::Allowed);
    let o2 = request(&mut st, &msg(10, 0, vec![WlArg::NewId(11)]));
    assert_eq!(verdict(&o2), WlMitmVerdict::Allowed);
}

fn screencopy_state(cfg: Arc<Config>) -> WlMitmState {
    let mut st = with_registry(cfg);
    assert_eq!(
        verdict(&st.on_s2c_event(&global(7, "zwlr_screencopy_manager_v1", 1))),
        WlMitmVerdict::Allowed
    );
    let o = request(&mut st, &bind(7, "zwlr_screencopy_manager_v1", 1, 11));
    assert_eq!(verdict(&o), WlMitmVerdict::Allowed);
    st
}

fn capture() -> WlRawMsg<i32> {
    msg(11, 0, vec![WlArg::NewId(12), WlArg::Int(0), WlArg::Object(3)])
}

#[test]
fn reject_rule_sends_display_error() {
    let cfg = config(
        vec![rule(WlFilterRequestAction::Block, WlFilterRequestBlockType::Reject, 3)],
        None,
        false,
    );
    let mut st = screencopy_state(cfg);
    let c = capture();
    let o = request(&mut st, &c);
    assert_eq!(verdict(&o), WlMitmVerdict::Rejected(3));
    match route_request(E, c, o.1, false) {
        WlMitmRoute::ToClient(m) => {
            let mut expected = Vec::new();
            expected.extend_from_slice(&1u32.to_le_bytes());
            expected.extend_from_slice(&((40u32 << 16) | 0).to_le_bytes());
            expected.extend_from_slice(&11u32.to_le_bytes());
            expected.extend_from_slice(&3u32.to_le_bytes());
            expected.extend_from_slice(&20u32.to_le_bytes());
            expected.extend_from_slice(b"Rejected by wl-mitm\0");
            assert_eq!(m.msg_buf.to_vec(), expected);
            assert_eq!(REJECTION_MESSAGE, "Rejected by wl-mitm");
        },
        _ => panic!("a rejection goes to the client"),
    }
}

#[test]
fn ignore_rule_filters() {
    let cfg = config(
        vec![rule(WlFilterRequestAction::Block, WlFilterRequestBlockType::Ignore, 3)],
        None,
        false,
    );
    let mut st = screencopy_state(cfg);
    let c = capture();
    let o = request(&mut st, &c);
    assert_eq!(verdict(&o), WlMitmVerdict::Filtered);
    assert!(matches!(route_request(E, c, o.1, false), WlMitmRoute::Drop));
}

#[test]
fn ask_rule_follows_command_status() {
    let cfg = config(
        vec![rule(WlFilterRequestAction::Ask, WlFilterRequestBlockType::Ignore, 0)],
        Some("/bin/false"),
        false,
    );
    let mut st = screencopy_state(cfg);
    let c = capture();
    match st.on_c2s_request(&c) {
        WlMitmRequestStep::Ask(denied, cmd) => {
            assert_eq!(cmd.program, "/bin/false");
            assert_eq!(cmd.interface, "zwlr_screencopy_manager_v1");
            assert_eq!(cmd.method, "capture_output");
            assert_eq!(cmd.desc, "screen capture");
            let refused = ask_outcome(denied, false);
            assert_eq!(refused.1, WlMitmVerdict::Filtered);
        },
        _ => panic!("expected an ask"),
    }
    let c2 = capture();
    let mut st2 = screencopy_state(config(
        vec![rule(WlFilterRequestAction::Ask, WlFilterRequestBlockType::Reject, 4)],
        Some("/bin/true"),
        false,
    ));
    match st2.on_c2s_request(&c2) {
        WlMitmRequestStep::Ask(denied, _) => {
            assert_eq!(denied.1, WlMitmVerdict::Rejected(4));
            let granted = ask_outcome(denied, true);
            assert_eq!(granted.1, WlMitmVerdict::Allowed);
            let bytes = c2.msg_buf.to_vec();
            match route_request(E, c2, granted.1, false) {
                WlMitmRoute::ToServer(m) => assert_eq!(m.msg_buf.to_vec(), bytes),
                _ => panic!("an allowed request goes to the server"),
            }
        },
        _ => panic!("expected an ask"),
    }
}

#[test]
fn ask_without_command_blocks() {
    let cfg = config(
        vec![rule(WlFilterRequestAction::Ask, WlFilterRequestBlockType::Reject, 5)],
        None,
        false,
    );
    let mut st = screencopy_state(cfg);
    let o = request(&mut st, &capture());
    assert_eq!(verdict(&o), WlMitmVerdict::Rejected(5));
}

#[test]
fn fds_are_accounted_per_message() {
    let mut st = with_registry(config(vec![], None, false));
    st.on_s2c_event(&global(8, "wl_shm", 1));
    assert_eq!(verdict(&request(&mut st, &bind(8, "wl_shm", 1, 20))), WlMitmVerdict::Allowed);
    let create_pool: WlRawMsg<i32> =
        build_message(E, 20, 0, &vec![WlArg::NewId(21), WlArg::Fd(0), WlArg::Int(4096)], vec![])
            .unwrap();
    let destroy = msg(21, 0, vec![]);
    let mut stream = create_pool.msg_buf.to_vec();
    stream.extend(destroy.msg_buf.to_vec());
    let mut d: WlDecoder<i32> = WlDecoder::new(E);
    let mut first = match d.decode_after_read(&stream, vec![42]) {
        DecoderOutcome::Decoded(m) => m,
        _ => panic!("first frame"),
    };
    let o = request(&mut st, &first);
    assert_eq!(o.0, 1);
    assert_eq!(verdict(&o), WlMitmVerdict::Allowed);
    d.return_unused_fds(&mut first, o.0);
    assert_eq!(first.fds, vec![42]);
    let second = match d.decode_buf() {
        Some(DecoderOutcome::Decoded(m)) => m,
        _ => panic!("second frame"),
    };
    assert!(second.fds.is_empty());
    let o2 = request(&mut st, &second);
    assert_eq!(o2.0, 0);
    assert_eq!(verdict(&o2), WlMitmVerdict::Allowed);
}

#[test]
fn missing_fd_terminates() {
    let mut st = with_registry(config(vec![], None, false));
    st.on_s2c_event(&global(8, "wl_shm", 1));
    request(&mut st, &bind(8, "wl_shm", 1, 20));
    let create_pool = msg(20, 0, vec![WlArg::NewId(21), WlArg::Int(4096)]);
    let o = request(&mut st, &create_pool);
    assert_eq!(verdict(&o), WlMitmVerdict::Terminate);
}

#[test]
fn request_on_half_destroyed_object_terminates() {
    let mut st = with_registry(only_compositor());
    st.on_s2c_event(&global(5, "wl_compositor", 4));
    request(&mut st, &bind(5, "wl_compositor", 4, 10));
    assert_eq!(verdict(&request(&mut st, &msg(10, 0, vec![WlArg::NewId(11)]))), WlMitmVerdict::Allowed);
    assert_eq!(verdict(&request(&mut st, &msg(11, 0, vec![]))), WlMitmVerdict::Allowed);
    let commit = msg(11, 1, vec![]);
    let o = request(&mut st, &commit);
    assert_eq!(verdict(&o), WlMitmVerdict::Terminate);
    assert!(matches!(route_request(E, commit, o.1, true), WlMitmRoute::Abort));
}

#[test]
fn delete_id_releases_half_destroyed_object() {
    let mut st = with_registry(only_compositor());
    st.on_s2c_event(&global(5, "wl_compositor", 4));
    request(&mut st, &bind(5, "wl_compositor", 4, 10));
    request(&mut st, &msg(10, 0, vec![WlArg::NewId(11)]));
    request(&mut st, &msg(11, 0, vec![]));
    let ack = msg(1, 1, vec![WlArg::Uint(11)]);
    assert_eq!(verdict(&st.on_s2c_event(&ack)), WlMitmVerdict::Allowed);
    let o = request(&mut st, &msg(10, 0, vec![WlArg::NewId(11)]));
    assert_eq!(verdict(&o), WlMitmVerdict::Allowed);
}

#[test]
fn reused_id_terminates() {
    let mut st = with_registry(only_compositor());
    st.on_s2c_event(&global(5, "wl_compositor", 4));
    request(&mut st, &bind(5, "wl_compositor", 4, 10));
    request(&mut st, &msg(10, 0, vec![WlArg::NewId(11)]));
    let o = request(&mut st, &msg(10, 0, vec![WlArg::NewId(11)]));
    assert_eq!(verdict(&o), WlMitmVerdict::Terminate);
}

#[test]
fn unknown_request_terminates() {
    let mut st = with_registry(config(vec![], None, false));
    let o = request(&mut st, &msg(1, 9, vec![]));
    assert_eq!(o.0, 0);
    assert_eq!(verdict(&o), WlMitmVerdict::Terminate);
    let o2 = request(&mut st, &msg(77, 0, vec![]));
    assert_eq!(verdict(&o2), WlMitmVerdict::Terminate);
}

#[test]
fn dry_run_lets_blocked_requests_through() {
    let cfg = config(
        vec![rule(WlFilterRequestAction::Block, WlFilterRequestBlockType::Reject, 3)],
        None,
        true,
    );
    let mut st = screencopy_state(cfg);
    let c = capture();
    let bytes = c.msg_buf.to_vec();
    let o = request(&mut st, &c);
    assert_eq!(verdict(&o), WlMitmVerdict::Rejected(3));
    match route_request(E, c, o.1, true) {
        WlMitmRoute::ToServer(m) => assert_eq!(m.msg_buf.to_vec(), bytes),
        _ => panic!("a dry run forwards"),
    }
    let g = global(1, "x", 1);
    assert!(matches!(route_request(E, g, WlMitmVerdict::Terminate, true), WlMitmRoute::Abort));
    let g2 = global(1, "x", 1);
    let b2 = g2.msg_buf.to_vec();
    match route_request(E, g2, WlMitmVerdict::Allowed, false) {
        WlMitmRoute::ToServer(m) => assert_eq!(m.msg_buf.to_vec(), b2),
        _ => panic!("allowed goes through"),
    }
}

#[test]
fn verdict_default_and_allowed() {
    assert_eq!(WlMitmVerdict::default(), WlMitmVerdict::Terminate);
    assert!(WlMitmVerdict::Allowed.is_allowed());
    assert!(!WlMitmVerdict::Rejected(1).is_allowed());
    let o = WlMitmOutcome::default();
    assert_eq!((o.0, o.1), (0, WlMitmVerdict::Terminate));
}

#[test]
fn decoded_request_reports_metadata() {
    let proto = protocol();
    let display = lookup_known_object_type(&proto, "wl_display").unwrap();
    let objects = WlObjects::new(display);
    let m = msg(1, 1, vec![WlArg::NewId(2)]);
    match decode_request(E, &proto, &objects, &m) {
        WaylandProtocolParsingOutcome::Parsed(p) => {
            assert_eq!(p.interface, "wl_display");
            assert_eq!(p.msg_name, "get_registry");
            assert_eq!(p.msg_type, WlMsgType::Request);
            assert_eq!(p.num_consumed_fds, 0);
            assert!(!p.is_destructor);
            let created = p.known_objects_created.as_ref().unwrap();
            assert_eq!(created.len(), 1);
            assert_eq!(created[0].0, 2);
            assert_eq!(created[0].1, lookup_known_object_type(&proto, "wl_registry").unwrap());
            assert_eq!(p.arg_u32("registry"), Some(2));
        },
        _ => panic!("parsed"),
    }
}

#[test]
fn objects_registry_two_phase_destruction() {
    let proto = protocol();
    let display = lookup_known_object_type(&proto, "wl_display").unwrap();
    let surface = lookup_known_object_type(&proto, "wl_surface").unwrap();
    let mut o = WlObjects::new(display);
    assert_eq!(o.lookup_object(1), Some(display));
    o.record_object(surface, 5);
    o.put_object_extension(5, WlObjectExtension::SurfaceXdg(6));
    assert!(matches!(
        o.get_object_extension(5, WlExtensionKind::SurfaceXdg),
        Some(WlObjectExtension::SurfaceXdg(6))
    ));
    o.remove_object(5, true);
    assert!(o.is_half_destroyed(5));
    assert_eq!(o.lookup_object(5), Some(surface));
    assert!(o.get_object_extension(5, WlExtensionKind::SurfaceXdg).is_none());
    o.remove_object(5, false);
    assert!(!o.is_half_destroyed(5));
    assert_eq!(o.lookup_object(5), None);
    o.record_object(surface, 0xff00_0001);
    o.remove_object(0xff00_0001, true);
    assert!(!o.is_half_destroyed(0xff00_0001));
    assert_eq!(o.lookup_object(0xff00_0001), None);
    o.put_object_extension(99, WlObjectExtension::XdgToplevel(1));
    assert!(o.get_object_extension(99, WlExtensionKind::XdgToplevel).is_none());
    o.record_global(3, surface);
    assert_eq!(o.lookup_global(3), Some(surface));
    o.remove_global(3);
    assert_eq!(o.lookup_global(3), None);
}
