//! The client as a whole: its configuration, the choice of an app, and the feedback that it gives
//! the host on loss.
use vstd::prelude::*;
use vstd::string::*;

use crate::bytes::{le16_bytes, lemma_little4, little, push_le16, push_slice};
use crate::control::{
    control_message, idr_request, law_control_message, law_feedback, le_i32, loss_report,
    LOSS_STATS, REQUEST_IDR_FRAME,
};
use crate::launch::{App, LaunchConfig};
use crate::rtsp::AnnounceConfig;
use crate::text::{
    chars_of, copy_str, decimal, index_of, law_parsed_decimal, lemma_index_of_is, parse_u32,
    parsed, quote, quoted, same_chars,
};
use crate::video::reassembly::{after_push, Depacketizer, FrameState};
use crate::video::{AccessUnit, Codec};

verus! {

/// How to reach a host and what to stream from it.
pub struct StarfireConfig {
    /// The address of the host.
    pub host: String,
    pub pin: String,
    /// The title of the app to launch.
    pub app_name: String,
    pub width: u32,
    pub height: u32,
    pub fps: u32,
    pub bitrate_kbps: u32,
    pub slices: u32,
    pub fec_percent: u32,
    pub packet_size: u32,
    /// Whether audio is handed on.
    pub audio: bool,
}

impl Default for StarfireConfig {
    fn default() -> (r: Self)
        ensures
            r.host@ == Seq::<char>::empty(),
            r.pin@ == "1234"@,
            r.app_name@ == "Desktop"@,
            r.width == 1920,
            r.height == 1080,
            r.fps == 60,
            r.bitrate_kbps == 20000,
            r.slices == 1,
            r.fec_percent == 50,
            r.packet_size == 1392,
            r.audio,
    {
        StarfireConfig {
            host: String::new(),
            pin: copy_str("1234"),
            app_name: copy_str("Desktop"),
            width: 1920,
            height: 1080,
            fps: 60,
            bitrate_kbps: 20000,
            slices: 1,
            fec_percent: 50,
            packet_size: 1392,
            audio: true,
        }
    }
}

/// What a running session tells.
#[derive(Debug)]
pub enum ClientEvent {
    /// A new frame has been decoded.
    Frame,
    /// The session ended, and why.
    Stopped(String),
}

/// What to launch and what to announce.
pub fn stream_configs(cfg: &StarfireConfig) -> (r: (LaunchConfig, AnnounceConfig))
    ensures
        r.0 == (LaunchConfig { width: cfg.width, height: cfg.height, fps: cfg.fps }),
        r.1 == (AnnounceConfig {
            width: cfg.width,
            height: cfg.height,
            fps: cfg.fps,
            bitrate_kbps: cfg.bitrate_kbps,
            slices_per_frame: cfg.slices,
            fec_percent: cfg.fec_percent,
            packet_size: cfg.packet_size,
            encryption_enabled: 0,
        }),
{
    let base = AnnounceConfig::default();
    let announce = AnnounceConfig {
        width: cfg.width,
        height: cfg.height,
        fps: cfg.fps,
        bitrate_kbps: cfg.bitrate_kbps,
        slices_per_frame: cfg.slices,
        fec_percent: cfg.fec_percent,
        packet_size: cfg.packet_size,
        encryption_enabled: base.encryption_enabled,
    };
    (LaunchConfig { width: cfg.width, height: cfg.height, fps: cfg.fps }, announce)
}

/// The host that a setting names, or what to say where it is missing.
pub fn host_or_stop(given: Option<String>) -> (r: Result<String, ClientEvent>)
    ensures
        match given {
            Some(host) => r matches Ok(h) && h@ == host@,
            None => r matches Err(ClientEvent::Stopped(why)) && why@ == "STARFIRE_HOST not set"@,
        },
{
    match given {
        Some(host) => Ok(host),
        None => Err(ClientEvent::Stopped(copy_str("STARFIRE_HOST not set"))),
    }
}

/// The PIN that a setting gives, or the usual one.
pub fn pin_or_default(given: Option<&str>) -> (r: String)
    ensures
        r@ == match given {
            Some(pin) => pin@,
            None => "1234"@,
        },
{
    match given {
        Some(pin) => copy_str(pin),
        None => copy_str("1234"),
    }
}

/// The title of the app that a setting names, or the usual one.
pub fn app_or_default(given: Option<&str>) -> (r: String)
    ensures
        r@ == match given {
            Some(title) => title@,
            None => "Desktop"@,
        },
{
    match given {
        Some(title) => copy_str(title),
        None => copy_str("Desktop"),
    }
}

/// A number that a setting gives, or `default` if the setting is missing or no number.
pub open spec fn knob_value(setting: Option<Seq<char>>, default: u32) -> u32 {
    match setting {
        Some(s) => match parsed(s, u32::MAX as nat) {
            Some(n) => n as u32,
            None => default,
        },
        None => default,
    }
}

/// The characters of a setting.
pub open spec fn setting_text(s: Option<String>) -> Option<Seq<char>> {
    match s {
        Some(s) => Some(s@),
        None => None,
    }
}

fn knob(setting: &Option<String>, default: u32) -> (r: u32)
    ensures
        r == knob_value(setting_text(*setting), default),
{
    match setting {
        Some(s) => {
            let chars: Vec<char> = chars_of(s.as_str());
            match parse_u32(&chars) {
                Some(n) => n,
                None => default,
            }
        },
        None => default,
    }
}

/// The settings of a stream as they stand in the environment.
pub struct Knobs {
    pub width: Option<String>,
    pub height: Option<String>,
    pub fps: Option<String>,
    pub bitrate_kbps: Option<String>,
    pub slices: Option<String>,
    pub fec_percent: Option<String>,
    pub packet_size: Option<String>,
}

/// What to launch and what to announce, with the usual value for each setting that is missing.
pub fn configs_from_knobs(k: &Knobs) -> (r: (LaunchConfig, AnnounceConfig))
    ensures
        r.1 == (AnnounceConfig {
            width: knob_value(setting_text(k.width), 1920),
            height: knob_value(setting_text(k.height), 1080),
            fps: knob_value(setting_text(k.fps), 60),
            bitrate_kbps: knob_value(setting_text(k.bitrate_kbps), 10_000),
            slices_per_frame: knob_value(setting_text(k.slices), 1),
            fec_percent: knob_value(setting_text(k.fec_percent), 50),
            packet_size: knob_value(setting_text(k.packet_size), 1392),
            encryption_enabled: 0,
        }),
        r.0 == (LaunchConfig { width: r.1.width, height: r.1.height, fps: r.1.fps }),
{
    let base = AnnounceConfig::default();
    let announce = AnnounceConfig {
        width: knob(&k.width, base.width),
        height: knob(&k.height, base.height),
        fps: knob(&k.fps, base.fps),
        bitrate_kbps: knob(&k.bitrate_kbps, base.bitrate_kbps),
        slices_per_frame: knob(&k.slices, base.slices_per_frame),
        fec_percent: knob(&k.fec_percent, base.fec_percent),
        packet_size: knob(&k.packet_size, base.packet_size),
        encryption_enabled: base.encryption_enabled,
    };
    let launch = LaunchConfig {
        width: announce.width,
        height: announce.height,
        fps: announce.fps,
    };
    (launch, announce)
}

/// Whether a setting switches something off.
pub open spec fn says_off(s: Seq<char>) -> bool {
    s == "off"@ || s == "0"@ || s == "false"@ || s == "no"@
}

fn is_text(s: &str, word: &str) -> (r: bool)
    ensures
        r == (s@ == word@),
{
    let a: Vec<char> = chars_of(s);
    let b: Vec<char> = chars_of(word);
    same_chars(&a, &b)
}

/// Whether a setting leaves something on. A missing one does.
pub fn switched_on(setting: Option<&str>) -> (r: bool)
    ensures
        r == match setting {
            Some(s) => !says_off(s@),
            None => true,
        },
{
    match setting {
        Some(s) => !(is_text(s, "off") || is_text(s, "0") || is_text(s, "false") || is_text(
            s,
            "no",
        )),
        None => true,
    }
}

/// The place of the first app with the title among those from `at` on; the number of apps if there
/// is none.
pub open spec fn titled(apps: Seq<App>, title: Seq<char>, at: nat) -> nat
    decreases apps.len() - at,
{
    if at >= apps.len() {
        apps.len()
    } else if apps[at as int].title@ == title {
        at
    } else {
        titled(apps, title, at + 1)
    }
}

/// The titles of the first `n` apps, quoted and with commas between them.
pub open spec fn title_list(apps: Seq<App>, n: nat) -> Seq<char>
    decreases n,
{
    if n == 0 {
        Seq::empty()
    } else {
        title_list(apps, (n - 1) as nat) + (if n == 1 {
            Seq::empty()
        } else {
            ", "@
        }) + quoted(apps[n - 1].title@)
    }
}

/// Choose the first app with a title, and give its id. Where there is none, say which there are.
pub fn choose_app(apps: &[App], title: &str) -> (r: Result<String, String>)
    ensures
        ({
            let at = titled(apps@, title@, 0);
            if at < apps@.len() {
                r matches Ok(id) && id@ == apps@[at as int].id@
            } else {
                r matches Err(why) && why@ == "app "@ + quoted(title@) + " not found in ["@
                    + title_list(apps@, apps@.len()) + "]"@
            }
        }),
{
    let mut list: String = String::new();
    let mut i: usize = 0;
    while i < apps.len()
        invariant
            i <= apps.len(),
            titled(apps@, title@, 0) == titled(apps@, title@, i as nat),
            list@ == title_list(apps@, i as nat),
        decreases apps.len() - i,
    {
        if is_text(apps[i].title.as_str(), title) {
            return Ok(copy_str(apps[i].id.as_str()));
        }
        if i > 0 {
            list.append(", ");
        }
        list.append(quote(apps[i].title.as_str()).as_str());
        assert(list@ =~= title_list(apps@, (i + 1) as nat));
        i += 1;
    }
    let mut why: String = copy_str("app ");
    why.append(quote(title).as_str());
    why.append(" not found in [");
    why.append(list.as_str());
    why.append("]");
    Err(why)
}

/// The arguments with which `curl` enters a PIN through the web interface of a host.
pub open spec fn pin_arguments(
    host: Seq<char>,
    user: Seq<char>,
    password: Seq<char>,
    pin: Seq<char>,
) -> Seq<Seq<char>> {
    seq![
        "-sk"@,
        "--max-time"@,
        "8"@,
        "-u"@,
        user + ":"@ + password,
        "-X"@,
        "POST"@,
        "https://"@ + host + ":47990/api/pin"@,
        "-H"@,
        "Content-Type: application/json"@,
        "-d"@,
        "{\"pin\":\""@ + pin + "\",\"name\":\"starfire\"}"@,
    ]
}

/// The characters of each text.
pub open spec fn texts(v: Seq<String>) -> Seq<Seq<char>> {
    v.map_values(|s: String| s@)
}

/// The arguments with which `curl` enters a PIN through the web interface of a host.
pub fn submit_pin(host: &str, user: &str, password: &str, pin: &str) -> (r: Vec<String>)
    ensures
        texts(r@) == pin_arguments(host@, user@, password@, pin@),
{
    let mut login: String = copy_str(user);
    login.append(":");
    login.append(password);
    let mut url: String = copy_str("https://");
    url.append(host);
    url.append(":47990/api/pin");
    let mut body: String = copy_str("{\"pin\":\"");
    body.append(pin);
    body.append("\",\"name\":\"starfire\"}");
    let mut v: Vec<String> = Vec::with_capacity(12);
    v.push(copy_str("-sk"));
    v.push(copy_str("--max-time"));
    v.push(copy_str("8"));
    v.push(copy_str("-u"));
    v.push(login);
    v.push(copy_str("-X"));
    v.push(copy_str("POST"));
    v.push(url);
    v.push(copy_str("-H"));
    v.push(copy_str("Content-Type: application/json"));
    v.push(copy_str("-d"));
    v.push(body);
    assert(texts(v@) =~= pin_arguments(host@, user@, password@, pin@));
    v
}

/// What has been seen of a stream.
#[verifier::ext_equal]
pub struct LossView {
    /// The index of the last frame that was decoded.
    pub last: Option<u32>,
    /// The frames that were lost since the last report.
    pub lost: u32,
    /// The failures since the last frame or keyframe request.
    pub failures: u32,
}

/// The frames between two indices.
pub open spec fn gap(last: Option<u32>, index: u32) -> u32 {
    match last {
        Some(l) => if index > l + 1 {
            (index - l - 1) as u32
        } else {
            0
        },
        None => 0,
    }
}

/// What has been seen after the frame `index` was decoded.
pub open spec fn after_decoded(v: LossView, index: u32) -> LossView {
    LossView { last: Some(index), lost: v.lost.wrapping_add(gap(v.last, index)), failures: 0 }
}

/// What has been seen after the first `n` of the frames were decoded.
pub open spec fn after_frames(v: LossView, indices: Seq<u32>, n: nat) -> LossView
    decreases n,
{
    if n == 0 {
        v
    } else {
        after_decoded(after_frames(v, indices, (n - 1) as nat), indices[n - 1])
    }
}

/// Where indices only rise, the frames that count as lost are those between the first and the last
/// index that were not decoded.
pub proof fn law_losses_are_the_missing_frames(indices: Seq<u32>, n: nat)
    requires
        0 < n <= indices.len(),
        forall|i: int, j: int| 0 <= i < j < indices.len() ==> indices[i] < indices[j],
    ensures
        after_frames(LossView { last: None, lost: 0, failures: 0 }, indices, n).lost == indices[n - 1]
            - indices[0] + 1 - n,
        after_frames(LossView { last: None, lost: 0, failures: 0 }, indices, n).last == Some(
            indices[n - 1],
        ),
    decreases n,
{
    let v = LossView { last: None, lost: 0, failures: 0 };
    if n == 1 {
        assert(after_frames(v, indices, 0) == v);
    } else {
        law_losses_are_the_missing_frames(indices, (n - 1) as nat);
        assert(indices[n - 2] < indices[n - 1]);
        lemma_indices_rise(indices, (n - 1) as nat);
    }
}

/// Indices that rise are at least as far apart as their places.
proof fn lemma_indices_rise(indices: Seq<u32>, n: nat)
    requires
        0 < n <= indices.len(),
        forall|i: int, j: int| 0 <= i < j < indices.len() ==> indices[i] < indices[j],
    ensures
        indices[n - 1] - indices[0] >= n - 1,
    decreases n,
{
    if n > 1 {
        lemma_indices_rise(indices, (n - 1) as nat);
        assert(indices[n - 2] < indices[n - 1]);
    }
}

/// The number that the bits of `x` stand for in two's complement.
pub open spec fn signed32(x: u32) -> i32 {
    if x < 0x8000_0000 {
        x as i32
    } else {
        (x - 0x1_0000_0000) as i32
    }
}

/// The report of what has been seen, so long after the last one.
pub open spec fn report_bytes(v: LossView, elapsed_ns: u64) -> Seq<u8> {
    let last = match v.last {
        Some(l) => l,
        None => 0,
    };
    control_message(
        LOSS_STATS,
        le_i32(signed32(v.lost)) + le_i32(
            signed32((elapsed_ns / 1_000_000 % 0x1_0000_0000) as u32),
        ) + le_i32(0) + le_i32(signed32(last)),
    )
}

/// The failures in a row, with one more.
pub open spec fn one_more_failure(v: LossView) -> u32 {
    if v.failures == u32::MAX {
        u32::MAX
    } else {
        (v.failures + 1) as u32
    }
}

/// Whether a failure is the one upon which a keyframe is asked for.
pub open spec fn asks_keyframe(v: LossView, since_request_ns: u64) -> bool {
    one_more_failure(v) >= 5 && since_request_ns > 1_000_000_000
}

/// What has been seen after a failure.
pub open spec fn after_failure(v: LossView, since_request_ns: u64) -> LossView {
    LossView {
        failures: if asks_keyframe(v, since_request_ns) {
            0
        } else {
            one_more_failure(v)
        },
        ..v
    }
}

/// What has been seen after the first `n` of the failures, each given by the nanoseconds since a
/// keyframe was last asked for.
pub open spec fn after_failures(v: LossView, since: Seq<u64>, n: nat) -> LossView
    decreases n,
{
    if n == 0 {
        v
    } else {
        after_failure(after_failures(v, since, (n - 1) as nat), since[n - 1])
    }
}

/// After a frame was decoded, no keyframe is asked for upon the next four failures, however long
/// ago one was asked for.
pub proof fn law_few_failures_ask_nothing(v: LossView, index: u32, since: Seq<u64>, n: nat)
    requires
        n < 4,
        n < since.len(),
    ensures
        !asks_keyframe(after_failures(after_decoded(v, index), since, n), since[n as int]),
        after_failures(after_decoded(v, index), since, n).failures == n,
    decreases n,
{
    if n > 0 {
        law_few_failures_ask_nothing(v, index, since, (n - 1) as nat);
    }
}

fn to_signed(x: u32) -> (r: i32)
    ensures
        r == signed32(x),
{
    if x < 0x8000_0000 {
        x as i32
    } else {
        (x as i64 - 0x1_0000_0000) as i32
    }
}

/// Watches a stream for loss, and says when the host is to be told.
pub struct LossMonitor {
    last: Option<u32>,
    lost: u32,
    failures: u32,
}

impl View for LossMonitor {
    type V = LossView;

    closed spec fn view(&self) -> LossView {
        LossView { last: self.last, lost: self.lost, failures: self.failures }
    }
}

/// The nanoseconds between two reports of loss.
pub const REPORT_INTERVAL_NS: u64 = 500_000_000;

/// The nanoseconds between two requests for a keyframe.
pub const KEYFRAME_INTERVAL_NS: u64 = 1_000_000_000;

/// The failures in a row after which a keyframe is asked for.
pub const FAILURES_BEFORE_KEYFRAME: u32 = 5;

impl LossMonitor {
    /// Nothing has been seen.
    pub fn new() -> (r: Self)
        ensures
            r@ == (LossView { last: None, lost: 0, failures: 0 }),
    {
        LossMonitor { last: None, lost: 0, failures: 0 }
    }

    /// The frame `index` was decoded. Frames between it and the last one count as lost, whether
    /// they did not arrive or could not be decoded.
    pub fn on_decoded(&mut self, index: u32)
        ensures
            final(self)@ == after_decoded(old(self)@, index),
    {
        if let Some(last) = self.last {
            if index > last && index - last > 1 {
                self.lost = self.lost.wrapping_add(index - last - 1);
            }
        }
        self.last = Some(index);
        self.failures = 0;
    }

    /// A unit could not be decoded. Says whether to ask for a keyframe, given the nanoseconds since
    /// one was last asked for: after a run of failures, and not too often.
    pub fn on_failure(&mut self, since_request_ns: u64) -> (r: bool)
        ensures
            r == asks_keyframe(old(self)@, since_request_ns),
            final(self)@ == after_failure(old(self)@, since_request_ns),
    {
        if self.failures < u32::MAX {
            self.failures = self.failures + 1;
        }
        if self.failures >= FAILURES_BEFORE_KEYFRAME && since_request_ns > KEYFRAME_INTERVAL_NS {
            self.failures = 0;
            return true;
        }
        false
    }

    /// The report to send, given the nanoseconds since the last one; `None` if it is too early. The
    /// count of lost frames starts again with each report.
    pub fn report(&mut self, elapsed_ns: u64) -> (r: Option<Vec<u8>>)
        ensures
            elapsed_ns <= 500_000_000 ==> r is None && final(self)@ == old(self)@,
            elapsed_ns > 500_000_000 ==> {
                &&& r matches Some(m)
                &&& r->0@ == report_bytes(old(self)@, elapsed_ns)
                &&& final(self)@ == (LossView { lost: 0, ..old(self)@ })
            },
    {
        if elapsed_ns <= REPORT_INTERVAL_NS {
            return None;
        }
        let millis: u32 = (elapsed_ns / 1_000_000 % 0x1_0000_0000) as u32;
        let last: u32 = match self.last {
            Some(l) => l,
            None => 0,
        };
        let m: Vec<u8> = loss_report(to_signed(self.lost), to_signed(millis), to_signed(last));
        self.lost = 0;
        Some(m)
    }
}

/// What happens in a running session.
pub enum LoopEvent {
    /// Time passes: the nanoseconds since the last report of loss.
    Tick { since_report_ns: u64 },
    /// A video datagram came in.
    Datagram { bytes: Vec<u8> },
    /// The decoder gave a frame for the unit with this index.
    Decoded { index: u32 },
    /// The decoder took a unit and gave no frame yet.
    Taken,
    /// The decoder failed: the nanoseconds since a keyframe was last asked for.
    Failed { since_request_ns: u64 },
}

/// What a running session does next.
pub enum LoopAction {
    Nothing,
    /// Send a report of loss to the host.
    Report { message: Vec<u8> },
    /// Hand a unit to the decoder.
    Decode { unit: AccessUnit },
    /// Show the frame that was decoded.
    Show,
    /// Ask the host for a keyframe.
    AskKeyframe { message: Vec<u8> },
}

/// The heart of a running session: from datagrams to units, and from what the decoder makes of them
/// to the feedback for the host.
pub struct Ingest {
    depacketizer: Depacketizer,
    monitor: LossMonitor,
}

impl Ingest {
    /// The frame that is being assembled.
    pub closed spec fn frame(&self) -> FrameState {
        self.depacketizer@
    }

    /// What has been seen of the stream.
    pub closed spec fn seen(&self) -> LossView {
        self.monitor@
    }

    /// The frame that is being assembled is consistent.
    pub closed spec fn wf(&self) -> bool {
        self.depacketizer.wf()
    }

    /// A session that has seen nothing.
    pub fn new(codec: Codec) -> (r: Self)
        ensures
            r.wf(),
            r.seen() == (LossView { last: None, lost: 0, failures: 0 }),
            r.frame() == (FrameState {
                codec,
                frame_index: None,
                data: 0,
                parity: 0,
                shards: Seq::empty(),
                emitted: false,
            }),
    {
        Ingest { depacketizer: Depacketizer::new(codec), monitor: LossMonitor::new() }
    }

    /// Decide what to do on an event.
    pub fn step(&mut self, event: LoopEvent) -> (r: LoopAction)
        requires
            old(self).wf(),
        ensures
            final(self).wf(),
            match event {
                LoopEvent::Tick { since_report_ns } => {
                    &&& final(self).frame() == old(self).frame()
                    &&& if since_report_ns > 500_000_000 {
                        &&& r matches LoopAction::Report { message }
                        &&& message@ == report_bytes(old(self).seen(), since_report_ns)
                        &&& final(self).seen() == (LossView { lost: 0, ..old(self).seen() })
                    } else {
                        r is Nothing && final(self).seen() == old(self).seen()
                    }
                },
                LoopEvent::Datagram { bytes } => {
                    let next = after_push(old(self).frame(), bytes@);
                    &&& final(self).seen() == old(self).seen()
                    &&& final(self).frame() == next.0
                    &&& match next.1 {
                        Some(u) => r matches LoopAction::Decode { unit } && unit@ == u,
                        None => r is Nothing,
                    }
                },
                LoopEvent::Decoded { index } => {
                    &&& r is Show
                    &&& final(self).frame() == old(self).frame()
                    &&& final(self).seen() == after_decoded(old(self).seen(), index)
                },
                LoopEvent::Taken => r is Nothing && final(self).frame() == old(self).frame() && (
                final(self).seen() == old(self).seen()),
                LoopEvent::Failed { since_request_ns } => {
                    &&& final(self).frame() == old(self).frame()
                    &&& final(self).seen() == after_failure(old(self).seen(), since_request_ns)
                    &&& if asks_keyframe(old(self).seen(), since_request_ns) {
                        r matches LoopAction::AskKeyframe { message } && message@
                            == control_message(REQUEST_IDR_FRAME, Seq::empty())
                    } else {
                        r is Nothing
                    }
                },
            },
    {
        match event {
            LoopEvent::Tick { since_report_ns } => match self.monitor.report(since_report_ns) {
                Some(message) => LoopAction::Report { message },
                None => LoopAction::Nothing,
            },
            LoopEvent::Datagram { bytes } => match self.depacketizer.push(&bytes) {
                Some(unit) => LoopAction::Decode { unit },
                None => LoopAction::Nothing,
            },
            LoopEvent::Decoded { index } => {
                self.monitor.on_decoded(index);
                LoopAction::Show
            },
            LoopEvent::Taken => LoopAction::Nothing,
            LoopEvent::Failed { since_request_ns } => if self.monitor.on_failure(since_request_ns) {
                LoopAction::AskKeyframe { message: idr_request() }
            } else {
                LoopAction::Nothing
            },
        }
    }
}

/// A step of the bring-up of a session that can fail.
#[derive(Debug, Clone, Copy, PartialEq, Eq, Structural)]
pub enum BringUp {
    Pair,
    AppList,
    Start,
    Decoder,
}

/// What is said of a step before why it failed.
pub open spec fn bring_up_text(step: BringUp) -> Seq<char> {
    match step {
        BringUp::Pair => "pair: "@,
        BringUp::AppList => "applist: "@,
        BringUp::Start => "session start: "@,
        BringUp::Decoder => "no video decoder on this platform: "@,
    }
}

/// The event that tells that a step failed.
pub fn stopped(step: BringUp, why: &str) -> (r: ClientEvent)
    ensures
        r matches ClientEvent::Stopped(s) && s@ == bring_up_text(step) + why@,
{
    let mut s: String = match step {
        BringUp::Pair => copy_str("pair: "),
        BringUp::AppList => copy_str("applist: "),
        BringUp::Start => copy_str("session start: "),
        BringUp::Decoder => copy_str("no video decoder on this platform: "),
    };
    s.append(why);
    ClientEvent::Stopped(s)
}

/// Audio datagrams that are kept for later, each after its length.
pub struct AudioCapture {
    data: Vec<u8>,
    packets: u64,
}

/// The number of datagrams that a capture holds.
pub const CAPTURED_DATAGRAMS: u64 = 600;

impl AudioCapture {
    /// The bytes of the capture.
    pub closed spec fn bytes(&self) -> Seq<u8> {
        self.data@
    }

    /// The number of datagrams.
    pub closed spec fn count(&self) -> u64 {
        self.packets
    }

    /// Nothing captured.
    pub fn new() -> (r: Self)
        ensures
            r.bytes() == Seq::<u8>::empty(),
            r.count() == 0,
    {
        AudioCapture { data: Vec::new(), packets: 0 }
    }

    /// Keep a datagram, and say whether the capture is complete.
    pub fn keep(&mut self, datagram: &[u8]) -> (r: bool)
        requires
            datagram@.len() <= u16::MAX,
            old(self).count() < 600,
        ensures
            final(self).bytes() == old(self).bytes() + le16_bytes(datagram@.len() as u16)
                + datagram@,
            final(self).count() == old(self).count() + 1,
            r == (final(self).count() >= 600),
    {
        push_le16(&mut self.data, datagram.len() as u16);
        push_slice(&mut self.data, datagram);
        self.packets = self.packets + 1;
        self.packets >= CAPTURED_DATAGRAMS
    }

    /// The bytes of the capture.
    pub fn data(&self) -> (r: &[u8])
        ensures
            r@ == self.bytes(),
    {
        self.data.as_slice()
    }
}

/// A report of loss is read back as hosts read it: the frames lost, the milliseconds since the last
/// report, and the last frame that was decoded. None of them is too large for a signed number.
pub proof fn law_report(v: LossView, elapsed_ns: u64)
    requires
        v.lost < 0x8000_0000,
        elapsed_ns / 1_000_000 < 0x8000_0000,
        v.last matches Some(l) ==> l < 0x8000_0000,
    ensures
        ({
            let m = report_bytes(v, elapsed_ns);
            &&& m.len() == 20
            &&& little(m.subrange(0, 2)) == 0x0201
            &&& little(m.subrange(2, 4)) == 16
            &&& little(m.subrange(4, 8)) == v.lost
            &&& little(m.subrange(8, 12)) == elapsed_ns / 1_000_000
            &&& little(m.subrange(12, 16)) == 0
            &&& little(m.subrange(16, 20)) == match v.last {
                Some(l) => l as nat,
                None => 0,
            }
        }),
{
    let m = report_bytes(v, elapsed_ns);
    let last: u32 = match v.last {
        Some(l) => l,
        None => 0,
    };
    let ms = (elapsed_ns / 1_000_000 % 0x1_0000_0000) as u32;
    let (a, b, c, d) = (
        le_i32(signed32(v.lost)),
        le_i32(signed32(ms)),
        le_i32(0),
        le_i32(signed32(last)),
    );
    law_feedback(signed32(v.lost), signed32(ms), signed32(last));
    let body = a + b + c + d;
    law_control_message(LOSS_STATS, body);
    assert(m == control_message(LOSS_STATS, body));
    assert(m.skip(4) == body);
    assert(m.subrange(4, 8) =~= m.skip(4).subrange(0, 4));
    assert(m.subrange(8, 12) =~= m.skip(4).subrange(4, 8));
    assert(m.subrange(12, 16) =~= m.skip(4).subrange(8, 12));
    assert(m.subrange(16, 20) =~= m.skip(4).subrange(12, 16));
    assert(signed32(v.lost) == v.lost && signed32(ms) == ms && signed32(last) == last);
    assert(ms == elapsed_ns / 1_000_000);
    lemma_little4(body.subrange(0, 4));
    lemma_little4(body.subrange(4, 8));
    lemma_little4(body.subrange(8, 12));
    lemma_little4(body.subrange(12, 16));
}

/// Upon the fifth failure in a row, and upon each one after it, a keyframe is asked for exactly if
/// more than a second has passed since one was last asked for; then the failures are counted anew.
pub proof fn law_fifth_failure(v: LossView, since_request_ns: u64)
    requires
        v.failures >= 4,
    ensures
        asks_keyframe(v, since_request_ns) <==> since_request_ns > 1_000_000_000,
        asks_keyframe(v, since_request_ns) ==> after_failure(v, since_request_ns).failures == 0,
        !asks_keyframe(v, since_request_ns) ==> after_failure(v, since_request_ns).failures >= 5,
        after_failure(v, since_request_ns).lost == v.lost,
        after_failure(v, since_request_ns).last == v.last,
{
}

/// The app that is chosen has the title, and none before it has; where none is chosen, none has it.
pub proof fn law_chosen_app(apps: Seq<App>, title: Seq<char>, at: nat)
    requires
        at <= apps.len(),
    ensures
        at <= titled(apps, title, at) <= apps.len(),
        titled(apps, title, at) < apps.len() ==> apps[titled(apps, title, at) as int].title@
            == title,
        forall|j: int| at <= j < titled(apps, title, at) ==> (#[trigger] apps[j]).title@ != title,
    decreases apps.len() - at,
{
    if at < apps.len() && apps[at as int].title@ != title {
        law_chosen_app(apps, title, at + 1);
    }
}

/// A setting that spells a number gives it.
pub proof fn law_knob(n: u32, default: u32)
    ensures
        knob_value(Some(decimal(n as nat)), default) == n,
        knob_value(None, default) == default,
{
    law_parsed_decimal(n as nat, u32::MAX as nat);
}

/// Whether an option of a command line comes with a value.
pub open spec fn has_option(args: Seq<Seq<char>>, option: Seq<char>, value: Seq<char>) -> bool {
    exists|i: int|
        0 <= i && i + 1 < args.len() && #[trigger] args[i] == option && args[i + 1] == value
}

/// A PIN is entered over the web port of the host itself, with the name and the password before and
/// after the colon of the login.
pub proof fn law_pin_arguments(
    host: Seq<char>,
    user: Seq<char>,
    password: Seq<char>,
    pin: Seq<char>,
)
    requires
        forall|i: int| 0 <= i < user.len() ==> #[trigger] user[i] != ':',
    ensures
        ({
            let args = pin_arguments(host, user, password, pin);
            &&& exists|login: Seq<char>| #[trigger]
                has_option(args, "-u"@, login) && login.take(index_of(login, ':')) == user
                    && login.skip(index_of(login, ':') + 1) == password
            &&& has_option(args, "-X"@, "POST"@)
            &&& has_option(args, "-H"@, "Content-Type: application/json"@)
            &&& has_option(args, "POST"@, "https://"@ + host + ":47990/api/pin"@)
            &&& has_option(args, "-d"@, "{\"pin\":\""@ + pin + "\",\"name\":\"starfire\"}"@)
        }),
{
    let args = pin_arguments(host, user, password, pin);
    reveal_strlit(":");
    let login = user + ":"@ + password;
    assert forall|j: int| 0 <= j < user.len() implies #[trigger] login[j] != ':' by {
        assert(login[j] == user[j]);
    }
    lemma_index_of_is(login, ':', user.len() as int);
    assert(login.take(user.len() as int) =~= user);
    assert(login.skip(user.len() as int + 1) =~= password);
    assert(args[3] == "-u"@ && args[4] == login);
    assert(has_option(args, "-u"@, login));
    assert(args[5] == "-X"@ && args[6] == "POST"@);
    assert(args[8] == "-H"@ && args[9] == "Content-Type: application/json"@);
    assert(args[10] == "-d"@);
}

} // verus!
