//! Connection settings and the decisions of a managed TCP connection: what
//! to do on each command, connection result, read outcome and timer tick.
//! The caller performs the I/O and reports back.

use vstd::prelude::*;

use crate::protocol::builder::{build_frame_spec, build_heartbeat};
use crate::protocol::text::{hex_lower, owned, push_char, push_hex_lower, push_str, unix_nanos};
use crate::protocol::types::ProtocolVersion;

verus! {

/// Lower-case hexadecimal digits of a number, zero-padded to at least 16.
pub open spec fn hex16_lower(n: nat) -> Seq<char> {
    let h = hex_lower(n);
    if h.len() < 16 {
        Seq::new((16 - h.len()) as nat, |i: int| '0') + h
    } else {
        h
    }
}

proof fn lemma_hex_lower_nonempty(n: nat)
    ensures
        hex_lower(n).len() >= 1,
    decreases n,
{
    if n >= 16 {
        lemma_hex_lower_nonempty(n / 16);
    }
}

/// A connection ID from a nanosecond timestamp: "conn-" and at least 16
/// lower-case hexadecimal digits.
pub fn connection_id_from_nanos(nanos: u128) -> (id: String)
    ensures
        id@ == "conn-"@ + hex16_lower(nanos as nat),
{
    let mut digits = String::new();
    push_hex_lower(&mut digits, nanos);
    let mut id = owned("conn-");
    let n = digits.as_str().as_bytes().len();
    proof {
        crate::protocol::text::lemma_hex_lower_ascii(nanos as nat);
        vstd::utf8::is_ascii_chars_encode_utf8(digits@);
    }
    if n < 16 {
        let mut k: usize = 0;
        while k < 16 - n
            invariant
                k <= 16 - n,
                n < 16,
                id@ == "conn-"@ + Seq::new(k as nat, |i: int| '0'),
            decreases 16 - n - k,
        {
            push_char(&mut id, '0');
            k = k + 1;
            assert(id@ =~= "conn-"@ + Seq::new(k as nat, |i: int| '0'));
        }
    }
    push_str(&mut id, digits.as_str());
    assert(id@ =~= "conn-"@ + hex16_lower(nanos as nat));
    id
}

/// A new connection ID from the current time.
pub fn uuid_v4() -> (id: String)
    ensures
        exists|n: u128| id@ == "conn-"@ + #[trigger] hex16_lower(n as nat),
{
    let nanos = unix_nanos();
    connection_id_from_nanos(nanos)
}

/// Connection settings.
#[derive(Debug, Clone)]
pub struct ConnectionConfig {
    pub id: String,
    pub name: String,
    pub host: String,
    pub port: u16,
    pub auto_reconnect: bool,
    pub heartbeat_interval_secs: u32,
    pub terminal_phone: String,
    pub auth_code: String,
    /// Protocol used to frame what is sent on this connection
    pub protocol_version: ProtocolVersion,
    /// 2019 only: terminal IMEI sent with authentication
    pub imei: String,
    /// 2019 only: software version sent with authentication
    pub software_version: String,
}

impl ConnectionConfig {
    /// Default settings under a given connection ID.
    pub fn with_id(id: String) -> (c: Self)
        ensures
            c.id == id,
            c.name@ == "新连接"@,
            c.host@ == "127.0.0.1"@,
            c.port == 5100,
            !c.auto_reconnect,
            c.heartbeat_interval_secs == 30,
            c.terminal_phone@ == "013900000001"@,
            c.auth_code@ == Seq::<char>::empty(),
            c.protocol_version == ProtocolVersion::V2013,
            c.imei@ == Seq::<char>::empty(),
            c.software_version@ == Seq::<char>::empty(),
    {
        ConnectionConfig {
            id,
            name: owned("新连接"),
            host: owned("127.0.0.1"),
            port: 5100,
            auto_reconnect: false,
            heartbeat_interval_secs: 30,
            terminal_phone: owned("013900000001"),
            auth_code: String::new(),
            protocol_version: ProtocolVersion::V2013,
            imei: String::new(),
            software_version: String::new(),
        }
    }

    /// Seconds between automatic heartbeats of the connection task: the
    /// configured interval, at least one.
    pub fn heartbeat_period_secs(&self) -> (s: u64)
        ensures
            s == (if self.heartbeat_interval_secs >= 1 { self.heartbeat_interval_secs as u64 } else { 1u64 }),
    {
        if self.heartbeat_interval_secs >= 1 {
            self.heartbeat_interval_secs as u64
        } else {
            1
        }
    }
}

impl Default for ConnectionConfig {
    fn default() -> (c: Self)
        ensures
            exists|n: u128| c.id@ == "conn-"@ + #[trigger] hex16_lower(n as nat),
            c.name@ == "新连接"@,
            c.host@ == "127.0.0.1"@,
            c.port == 5100,
            !c.auto_reconnect,
            c.heartbeat_interval_secs == 30,
            c.terminal_phone@ == "013900000001"@,
            c.auth_code@ == Seq::<char>::empty(),
            c.protocol_version == ProtocolVersion::V2013,
            c.imei@ == Seq::<char>::empty(),
            c.software_version@ == Seq::<char>::empty(),
    {
        Self::with_id(uuid_v4())
    }
}

/// Connection state.
#[derive(Debug, Clone, Copy, PartialEq, Eq, Structural)]
pub enum ConnState {
    Disconnected,
    Connecting,
    Connected,
    Disconnecting,
}

impl ConnState {
    /// Label shown for the state.
    pub fn label(&self) -> (r: &'static str)
        ensures
            r@ == (match *self {
                ConnState::Disconnected => "已断开"@,
                ConnState::Connecting => "连接中"@,
                ConnState::Connected => "已连接"@,
                ConnState::Disconnecting => "断开中"@,
            }),
    {
        match self {
            ConnState::Disconnected => "已断开",
            ConnState::Connecting => "连接中",
            ConnState::Connected => "已连接",
            ConnState::Disconnecting => "断开中",
        }
    }

    /// The indicator colour of the state, as red, green and blue: egui's
    /// `Color32::GRAY`, `YELLOW`, `GREEN` and `ORANGE`.
    pub fn color(&self) -> (rgb: (u8, u8, u8))
        ensures
            rgb == (match *self {
                ConnState::Disconnected => (160u8, 160u8, 160u8),
                ConnState::Connecting => (255u8, 255u8, 0u8),
                ConnState::Connected => (0u8, 255u8, 0u8),
                ConnState::Disconnecting => (255u8, 165u8, 0u8),
            }),
    {
        match self {
            ConnState::Disconnected => egui_gray(),
            ConnState::Connecting => egui_yellow(),
            ConnState::Connected => egui_green(),
            ConnState::Disconnecting => egui_orange(),
        }
    }
}

/// egui's `Color32::GRAY` as red, green and blue (`Color32::r`, `g`, `b`),
/// which ecolor defines as `from_rgb(160, 160, 160)`.
#[verifier::external_body]
fn egui_gray() -> (rgb: (u8, u8, u8))
    ensures
        rgb == (160u8, 160u8, 160u8),
{
    let c = egui::Color32::GRAY;
    (c.r(), c.g(), c.b())
}

/// egui's `Color32::YELLOW` as red, green and blue (`Color32::r`, `g`,
/// `b`), which ecolor defines as `from_rgb(255, 255, 0)`.
#[verifier::external_body]
fn egui_yellow() -> (rgb: (u8, u8, u8))
    ensures
        rgb == (255u8, 255u8, 0u8),
{
    let c = egui::Color32::YELLOW;
    (c.r(), c.g(), c.b())
}

/// egui's `Color32::GREEN` as red, green and blue (`Color32::r`, `g`, `b`),
/// which ecolor defines as `from_rgb(0, 255, 0)`.
#[verifier::external_body]
fn egui_green() -> (rgb: (u8, u8, u8))
    ensures
        rgb == (0u8, 255u8, 0u8),
{
    let c = egui::Color32::GREEN;
    (c.r(), c.g(), c.b())
}

/// egui's `Color32::ORANGE` as red, green and blue (`Color32::r`, `g`,
/// `b`), which ecolor defines as `from_rgb(255, 165, 0)`.
#[verifier::external_body]
fn egui_orange() -> (rgb: (u8, u8, u8))
    ensures
        rgb == (255u8, 165u8, 0u8),
{
    let c = egui::Color32::ORANGE;
    (c.r(), c.g(), c.b())
}

/// Events sent from a connection task to the user interface.
#[derive(Debug, Clone)]
pub enum ConnEvent {
    Connected,
    Disconnected(String),
    DataReceived(Vec<u8>),
    Error(String),
}

/// Plain values of an event.
pub enum ConnEventView {
    Connected,
    Disconnected(Seq<char>),
    DataReceived(Seq<u8>),
    Error(Seq<char>),
}

impl View for ConnEvent {
    type V = ConnEventView;

    open spec fn view(&self) -> ConnEventView {
        match self {
            ConnEvent::Connected => ConnEventView::Connected,
            ConnEvent::Disconnected(s) => ConnEventView::Disconnected(s@),
            ConnEvent::DataReceived(d) => ConnEventView::DataReceived(d@),
            ConnEvent::Error(s) => ConnEventView::Error(s@),
        }
    }
}

/// Commands sent from the user interface to a connection task.
#[derive(Debug)]
pub enum ConnCommand {
    Connect,
    Disconnect,
    Send(Vec<u8>),
    /// Frame later heartbeats for this protocol version
    SetProtocolVersion(ProtocolVersion),
}

/// What one read from the socket gave.
#[derive(Debug)]
pub enum ReadOutcome {
    /// Some bytes
    Data(Vec<u8>),
    /// End of stream (zero bytes)
    Closed,
    /// Nothing available now
    WouldBlock,
    /// A read error
    Failed,
}

/// Something the connection task asks its runner to do, in order.
#[derive(Debug)]
pub enum TaskAction {
    /// Publish a new connection state
    SetState(ConnState),
    /// Send an event to the user interface
    Emit(ConnEvent),
    /// Open a connection to the configured address, then report the result
    Open,
    /// Shut the open connection down and drop it
    Shutdown,
    /// Write all these bytes to the open connection, reporting a failure
    Write(Vec<u8>),
    /// Add received bytes to the receive buffer
    AppendReceived(Vec<u8>),
}

/// Plain values of an action.
pub enum TaskActionView {
    SetState(ConnState),
    Emit(ConnEventView),
    Open,
    Shutdown,
    Write(Seq<u8>),
    AppendReceived(Seq<u8>),
}

impl View for TaskAction {
    type V = TaskActionView;

    open spec fn view(&self) -> TaskActionView {
        match self {
            TaskAction::SetState(s) => TaskActionView::SetState(*s),
            TaskAction::Emit(e) => TaskActionView::Emit(e@),
            TaskAction::Open => TaskActionView::Open,
            TaskAction::Shutdown => TaskActionView::Shutdown,
            TaskAction::Write(d) => TaskActionView::Write(d@),
            TaskAction::AppendReceived(d) => TaskActionView::AppendReceived(d@),
        }
    }
}

/// The views of a list of actions.
pub open spec fn actions_view(a: Seq<TaskAction>) -> Seq<TaskActionView> {
    a.map_values(|x: TaskAction| x@)
}

/// The state a connection task keeps between steps.
pub struct ConnTask {
    /// Whether a connection is open
    pub open: bool,
    /// Whether the user asked to disconnect (no automatic reconnect then)
    pub intentional_disconnect: bool,
    pub auto_reconnect: bool,
    pub terminal_phone: String,
    pub protocol_version: ProtocolVersion,
}

impl ConnTask {
    /// A task for a configuration, not connected.
    pub fn new(config: &ConnectionConfig) -> (t: Self)
        ensures
            !t.open,
            !t.intentional_disconnect,
            t.auto_reconnect == config.auto_reconnect,
            t.terminal_phone@ == config.terminal_phone@,
            t.protocol_version == config.protocol_version,
    {
        ConnTask {
            open: false,
            intentional_disconnect: false,
            auto_reconnect: config.auto_reconnect,
            terminal_phone: config.terminal_phone.clone(),
            protocol_version: config.protocol_version,
        }
    }

    /// A command from the user interface. Connect clears a user
    /// disconnect and starts connecting; Disconnect marks a user disconnect,
    /// shuts an open connection down and reports it; Send writes to an open
    /// connection (and is dropped otherwise); a version change is kept for
    /// later heartbeats.
    pub fn on_command(&mut self, cmd: ConnCommand) -> (acts: Vec<TaskAction>)
        ensures
            match cmd {
                ConnCommand::Connect => {
                    &&& !final(self).intentional_disconnect
                    &&& final(self).open == old(self).open
                    &&& actions_view(acts@) == seq![
                        TaskActionView::SetState(ConnState::Connecting),
                        TaskActionView::Open,
                    ]
                },
                ConnCommand::Disconnect => {
                    &&& final(self).intentional_disconnect
                    &&& !final(self).open
                    &&& actions_view(acts@) == (if old(self).open {
                        seq![
                            TaskActionView::SetState(ConnState::Disconnecting),
                            TaskActionView::Shutdown,
                        ]
                    } else {
                        Seq::empty()
                    }) + seq![
                        TaskActionView::SetState(ConnState::Disconnected),
                        TaskActionView::Emit(ConnEventView::Disconnected("用户断开"@)),
                    ]
                },
                ConnCommand::Send(d) => {
                    &&& final(self).intentional_disconnect == old(self).intentional_disconnect
                    &&& final(self).open == old(self).open
                    &&& actions_view(acts@) == (if old(self).open {
                        seq![TaskActionView::Write(d@)]
                    } else {
                        Seq::empty()
                    })
                },
                ConnCommand::SetProtocolVersion(v) => {
                    &&& final(self).intentional_disconnect == old(self).intentional_disconnect
                    &&& final(self).open == old(self).open
                    &&& final(self).protocol_version == v
                    &&& acts@.len() == 0
                },
            },
            final(self).auto_reconnect == old(self).auto_reconnect,
            final(self).terminal_phone == old(self).terminal_phone,
            !(cmd is SetProtocolVersion) ==> final(self).protocol_version == old(self).protocol_version,
    {
        let mut acts: Vec<TaskAction> = Vec::new();
        match cmd {
            ConnCommand::Connect => {
                self.intentional_disconnect = false;
                acts.push(TaskAction::SetState(ConnState::Connecting));
                acts.push(TaskAction::Open);
            },
            ConnCommand::Disconnect => {
                self.intentional_disconnect = true;
                if self.open {
                    self.open = false;
                    acts.push(TaskAction::SetState(ConnState::Disconnecting));
                    acts.push(TaskAction::Shutdown);
                }
                acts.push(TaskAction::SetState(ConnState::Disconnected));
                acts.push(TaskAction::Emit(ConnEvent::Disconnected(owned("用户断开"))));
            },
            ConnCommand::Send(data) => {
                if self.open {
                    acts.push(TaskAction::Write(data));
                }
            },
            ConnCommand::SetProtocolVersion(v) => {
                self.protocol_version = v;
            },
        }
        acts
    }

    /// The result of opening a connection: on success the connection is
    /// open and reported; on failure the state goes back to disconnected and
    /// the error is reported as "连接失败: " and the error text.
    pub fn on_connect_result(&mut self, ok: bool, error: &str) -> (acts: Vec<TaskAction>)
        ensures
            ok ==> final(self).open && actions_view(acts@) == seq![
                TaskActionView::SetState(ConnState::Connected),
                TaskActionView::Emit(ConnEventView::Connected),
            ],
            !ok ==> final(self).open == old(self).open && actions_view(acts@) == seq![
                TaskActionView::SetState(ConnState::Disconnected),
                TaskActionView::Emit(ConnEventView::Error("连接失败: "@ + error@)),
            ],
            final(self).intentional_disconnect == old(self).intentional_disconnect,
            final(self).auto_reconnect == old(self).auto_reconnect,
            final(self).terminal_phone == old(self).terminal_phone,
            final(self).protocol_version == old(self).protocol_version,
    {
        let mut acts: Vec<TaskAction> = Vec::new();
        if ok {
            self.open = true;
            acts.push(TaskAction::SetState(ConnState::Connected));
            acts.push(TaskAction::Emit(ConnEvent::Connected));
        } else {
            let mut msg = owned("连接失败: ");
            push_str(&mut msg, error);
            acts.push(TaskAction::SetState(ConnState::Disconnected));
            acts.push(TaskAction::Emit(ConnEvent::Error(msg)));
        }
        acts
    }

    /// A failed write is reported as "发送失败: " and the error text.
    pub fn on_write_failed(&self, error: &str) -> (acts: Vec<TaskAction>)
        ensures
            actions_view(acts@) == seq![TaskActionView::Emit(ConnEventView::Error("发送失败: "@ + error@))],
    {
        let mut msg = owned("发送失败: ");
        push_str(&mut msg, error);
        let mut acts: Vec<TaskAction> = Vec::new();
        acts.push(TaskAction::Emit(ConnEvent::Error(msg)));
        acts
    }

    /// One read while draining a readable socket; the flag says whether to
    /// read again. Bytes are buffered and reported; end of stream closes the
    /// connection and reports it; a read error closes it silently; nothing
    /// available ends the draining.
    pub fn on_read(&mut self, outcome: ReadOutcome) -> (r: (Vec<TaskAction>, bool))
        ensures
            match outcome {
                ReadOutcome::Data(d) => final(self).open == old(self).open && r.1 && actions_view(r.0@)
                    == seq![
                    TaskActionView::AppendReceived(d@),
                    TaskActionView::Emit(ConnEventView::DataReceived(d@)),
                ],
                ReadOutcome::Closed => !final(self).open && !r.1 && actions_view(r.0@) == seq![
                    TaskActionView::SetState(ConnState::Disconnected),
                    TaskActionView::Emit(ConnEventView::Disconnected("连接关闭"@)),
                ],
                ReadOutcome::WouldBlock => final(self).open == old(self).open && !r.1 && r.0@.len() == 0,
                ReadOutcome::Failed => !final(self).open && !r.1 && actions_view(r.0@) == seq![
                    TaskActionView::SetState(ConnState::Disconnected),
                ],
            },
            final(self).intentional_disconnect == old(self).intentional_disconnect,
            final(self).auto_reconnect == old(self).auto_reconnect,
            final(self).terminal_phone == old(self).terminal_phone,
            final(self).protocol_version == old(self).protocol_version,
    {
        let mut acts: Vec<TaskAction> = Vec::new();
        match outcome {
            ReadOutcome::Data(buf) => {
                let copy = vstd::slice::slice_to_vec(buf.as_slice());
                acts.push(TaskAction::AppendReceived(copy));
                acts.push(TaskAction::Emit(ConnEvent::DataReceived(buf)));
                (acts, true)
            },
            ReadOutcome::Closed => {
                self.open = false;
                acts.push(TaskAction::SetState(ConnState::Disconnected));
                acts.push(TaskAction::Emit(ConnEvent::Disconnected(owned("连接关闭"))));
                (acts, false)
            },
            ReadOutcome::WouldBlock => (acts, false),
            ReadOutcome::Failed => {
                self.open = false;
                acts.push(TaskAction::SetState(ConnState::Disconnected));
                (acts, false)
            },
        }
    }

    /// A heartbeat tick writes a heartbeat frame (serial number 1) when a
    /// connection is open and speaks JT808; a generic TCP connection gets no
    /// heartbeats.
    pub fn on_heartbeat_tick(&self) -> (acts: Vec<TaskAction>)
        ensures
            actions_view(acts@) == (if self.open && self.protocol_version != ProtocolVersion::GenericTcp {
                seq![
                    TaskActionView::Write(
                        build_frame_spec(self.protocol_version, 0x0002, self.terminal_phone@, 1, Seq::empty()),
                    ),
                ]
            } else {
                Seq::empty()
            }),
    {
        let mut acts: Vec<TaskAction> = Vec::new();
        if self.open && self.protocol_version.is_jt808() {
            let hb = build_heartbeat(self.protocol_version, self.terminal_phone.as_str(), 1);
            acts.push(TaskAction::Write(hb));
        }
        acts
    }

    /// Whether to reconnect after a step: no connection open, automatic
    /// reconnect on, and no user disconnect.
    pub fn should_reconnect(&self) -> (r: bool)
        ensures
            r == (!self.open && self.auto_reconnect && !self.intentional_disconnect),
    {
        !self.open && self.auto_reconnect && !self.intentional_disconnect
    }

    /// Starting an automatic reconnect (after the runner's pause): the state
    /// goes to connecting and a connection is opened.
    pub fn begin_reconnect(&self) -> (acts: Vec<TaskAction>)
        ensures
            actions_view(acts@) == seq![TaskActionView::SetState(ConnState::Connecting), TaskActionView::Open],
    {
        let mut acts: Vec<TaskAction> = Vec::new();
        acts.push(TaskAction::SetState(ConnState::Connecting));
        acts.push(TaskAction::Open);
        acts
    }

    /// The result of an automatic reconnect: open and reported on success,
    /// back to disconnected (silently) on failure.
    pub fn on_reconnect_result(&mut self, ok: bool) -> (acts: Vec<TaskAction>)
        ensures
            ok ==> final(self).open && actions_view(acts@) == seq![
                TaskActionView::SetState(ConnState::Connected),
                TaskActionView::Emit(ConnEventView::Connected),
            ],
            !ok ==> final(self).open == old(self).open && actions_view(acts@) == seq![
                TaskActionView::SetState(ConnState::Disconnected),
            ],
            final(self).intentional_disconnect == old(self).intentional_disconnect,
            final(self).auto_reconnect == old(self).auto_reconnect,
            final(self).terminal_phone == old(self).terminal_phone,
            final(self).protocol_version == old(self).protocol_version,
    {
        let mut acts: Vec<TaskAction> = Vec::new();
        if ok {
            self.open = true;
            acts.push(TaskAction::SetState(ConnState::Connected));
            acts.push(TaskAction::Emit(ConnEvent::Connected));
        } else {
            acts.push(TaskAction::SetState(ConnState::Disconnected));
        }
        acts
    }
}

} // verus!
