use tcptool::connection::{
    connection_id_from_nanos, uuid_v4, ConnCommand, ConnEvent, ConnState, ConnTask, ConnectionConfig,
    ReadOutcome, TaskAction,
};
use tcptool::protocol::builder::build_heartbeat;
use tcptool::protocol::types::ProtocolVersion;

fn task(auto_reconnect: bool) -> ConnTask {
    let mut c = ConnectionConfig::with_id("conn-1".to_string());
    c.auto_reconnect = auto_reconnect;
    c.protocol_version = ProtocolVersion::V2019;
    ConnTask::new(&c)
}

#[test]
fn connection_ids() {
    assert_eq!(connection_id_from_nanos(0x1a2b), "conn-0000000000001a2b");
    assert_eq!(
        connection_id_from_nanos(0x1234_5678_9abc_def0_1122),
        "conn-123456789abcdef01122"
    );
    let id = uuid_v4();
    assert!(id.starts_with("conn-"));
    assert!(id.len() >= 21);
}

#[test]
fn default_settings() {
    let c = ConnectionConfig::default();
    assert!(c.id.starts_with("conn-"));
    assert_eq!(c.name, "新连接");
    assert_eq!(c.host, "127.0.0.1");
    assert_eq!(c.port, 5100);
    assert!(!c.auto_reconnect);
    assert_eq!(c.heartbeat_interval_secs, 30);
    assert_eq!(c.terminal_phone, "013900000001");
    assert_eq!(c.auth_code, "");
    assert_eq!(c.heartbeat_period_secs(), 30);
    let mut z = c.clone();
    z.heartbeat_interval_secs = 0;
    assert_eq!(z.heartbeat_period_secs(), 1);
}

#[test]
fn state_labels() {
    assert_eq!(ConnState::Disconnected.label(), "已断开");
    assert_eq!(ConnState::Connecting.label(), "连接中");
    assert_eq!(ConnState::Connected.label(), "已连接");
    assert_eq!(ConnState::Disconnecting.label(), "断开中");
}

#[test]
fn connect_then_receive_then_close() {
    let mut t = task(false);
    let acts = t.on_command(ConnCommand::Connect);
    assert!(matches!(acts.as_slice(), [TaskAction::SetState(ConnState::Connecting), TaskAction::Open]));
    let acts = t.on_connect_result(true, "");
    assert!(t.open);
    assert!(matches!(acts.as_slice(), [TaskAction::SetState(ConnState::Connected), TaskAction::Emit(ConnEvent::Connected)]));
    let (acts, again) = t.on_read(ReadOutcome::Data(vec![1, 2]));
    assert!(again);
    assert!(matches!(acts.as_slice(), [TaskAction::AppendReceived(a), TaskAction::Emit(ConnEvent::DataReceived(b))] if a == &vec![1, 2] && b == &vec![1, 2]));
    let (acts, again) = t.on_read(ReadOutcome::WouldBlock);
    assert!(!again && acts.is_empty());
    let (acts, again) = t.on_read(ReadOutcome::Closed);
    assert!(!again && !t.open);
    assert!(matches!(acts.as_slice(), [TaskAction::SetState(ConnState::Disconnected), TaskAction::Emit(ConnEvent::Disconnected(m))] if m == "连接关闭"));
}

#[test]
fn failed_connect_and_write() {
    let mut t = task(false);
    let acts = t.on_connect_result(false, "refused");
    assert!(!t.open);
    assert!(matches!(acts.as_slice(), [TaskAction::SetState(ConnState::Disconnected), TaskAction::Emit(ConnEvent::Error(m))] if m == "连接失败: refused"));
    let acts = t.on_write_failed("broken pipe");
    assert!(matches!(acts.as_slice(), [TaskAction::Emit(ConnEvent::Error(m))] if m == "发送失败: broken pipe"));
}

#[test]
fn send_only_when_open() {
    let mut t = task(false);
    assert!(t.on_command(ConnCommand::Send(vec![9])).is_empty());
    t.on_connect_result(true, "");
    let acts = t.on_command(ConnCommand::Send(vec![9]));
    assert!(matches!(acts.as_slice(), [TaskAction::Write(d)] if d == &vec![9]));
}

#[test]
fn heartbeat_ticks_follow_version() {
    let mut t = task(false);
    assert!(t.on_heartbeat_tick().is_empty());
    t.on_connect_result(true, "");
    let acts = t.on_heartbeat_tick();
    let expected = build_heartbeat(ProtocolVersion::V2019, "013900000001", 1);
    assert!(matches!(acts.as_slice(), [TaskAction::Write(d)] if d == &expected));
    assert!(t.on_command(ConnCommand::SetProtocolVersion(ProtocolVersion::V2013)).is_empty());
    let acts = t.on_heartbeat_tick();
    let expected = build_heartbeat(ProtocolVersion::V2013, "013900000001", 1);
    assert!(matches!(acts.as_slice(), [TaskAction::Write(d)] if d == &expected));
}

#[test]
fn user_disconnect_stops_reconnecting() {
    let mut t = task(true);
    t.on_connect_result(true, "");
    let acts = t.on_command(ConnCommand::Disconnect);
    assert!(matches!(acts.as_slice(), [
        TaskAction::SetState(ConnState::Disconnecting),
        TaskAction::Shutdown,
        TaskAction::SetState(ConnState::Disconnected),
        TaskAction::Emit(ConnEvent::Disconnected(m)),
    ] if m == "用户断开"));
    assert!(!t.should_reconnect());
    // a read failure on another connection attempt does not bring it back
    t.on_read(ReadOutcome::Failed);
    assert!(!t.should_reconnect());
    // connecting again re-enables automatic reconnects
    t.on_command(ConnCommand::Connect);
    assert!(t.should_reconnect());
}

#[test]
fn dropped_connection_reconnects() {
    let mut t = task(true);
    t.on_connect_result(true, "");
    let (acts, _) = t.on_read(ReadOutcome::Failed);
    assert!(matches!(acts.as_slice(), [TaskAction::SetState(ConnState::Disconnected)]));
    assert!(t.should_reconnect());
    let acts = t.begin_reconnect();
    assert!(matches!(acts.as_slice(), [TaskAction::SetState(ConnState::Connecting), TaskAction::Open]));
    let acts = t.on_reconnect_result(false);
    assert!(matches!(acts.as_slice(), [TaskAction::SetState(ConnState::Disconnected)]));
    let acts = t.on_reconnect_result(true);
    assert!(t.open && !t.should_reconnect());
    assert!(matches!(acts.as_slice(), [TaskAction::SetState(ConnState::Connected), TaskAction::Emit(ConnEvent::Connected)]));
    let t2 = task(false);
    assert!(!t2.should_reconnect());
}

#[test]
fn state_colors() {
    assert_eq!(ConnState::Disconnected.color(), (160, 160, 160));
    assert_eq!(ConnState::Connecting.color(), (255, 255, 0));
    assert_eq!(ConnState::Connected.color(), (0, 255, 0));
    assert_eq!(ConnState::Disconnecting.color(), (255, 165, 0));
}

#[test]
fn generic_tcp_gets_no_heartbeats() {
    let mut c = ConnectionConfig::with_id("conn-2".to_string());
    c.protocol_version = ProtocolVersion::GenericTcp;
    let mut t = ConnTask::new(&c);
    t.on_connect_result(true, "");
    assert!(t.on_heartbeat_tick().is_empty());
    t.on_command(ConnCommand::SetProtocolVersion(ProtocolVersion::V2013));
    assert_eq!(t.on_heartbeat_tick().len(), 1);
}
