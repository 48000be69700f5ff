//! Cuts a packet capture of a session into one transcript or list of datagrams per connection.
//!
//! Frames are told apart by the ports of the host. TCP transcripts are put back together, UDP
//! datagrams are collected with their boundaries, and both become fixture files.
use vstd::prelude::*;
use vstd::string::*;
use vstd::utf8::encode_utf8;

use crate::bytes::{le32_at, le32_bytes, lemma_little4, little, push_le32, push_slice};
use crate::text::{
    chars_of, copy_str, decimal, decimal_string, lemma_split_first, same_chars, split, string_of,
};

pub mod cli;
pub mod flows;
pub mod l2l4;
pub mod layers;
pub mod packets;
pub mod pcap;
pub mod tcp;
pub mod testbuild;
pub mod wire_bench;

use flows::{
    ascending, key_at, key_views, keyed, lemma_keyed_at, lemma_keyed_insert, lemma_keyed_update,
    locate, FlowKey, KeyView,
};
use l2l4::{frame_contents, L4View, Proto};
use layers::{class_of, classify, layer_name, layer_rank, Class, Layer};
use pcap::{magic_order, record_views, records_from, value_at, PcapError};
use tcp::{
    conn_key, conn_keys, conn_transcripts, conns_with, ConnView, ReassembledConn, Reassembler,
    transcript, SegView,
};

verus! {

/// The datagrams of one UDP flow, in the order of capture.
#[derive(Debug, Clone, PartialEq, Eq)]
pub struct UdpFlow {
    pub layer: Layer,
    pub client_ip: String,
    pub client_port: u16,
    pub server_port: u16,
    pub packets: Vec<Vec<u8>>,
}

/// How many packets of each layer were seen.
#[derive(Debug, Clone, PartialEq, Eq)]
pub struct LayerCounts {
    by_rank: [usize; 7],
}

impl LayerCounts {
    /// The number of packets of a layer.
    pub closed spec fn of(&self, layer: Layer) -> nat {
        self.by_rank@[layer_rank(layer)] as nat
    }

    /// No packets.
    pub fn none() -> (r: Self)
        ensures
            forall|layer: Layer| #[trigger] r.of(layer) == 0,
    {
        LayerCounts { by_rank: [0usize;7] }
    }

    fn add(&mut self, layer: Layer)
        requires
            old(self).of(layer) < usize::MAX,
        ensures
            forall|l: Layer| #[trigger]
                final(self).of(l) == old(self).of(l) + if l == layer {
                    1nat
                } else {
                    0nat
                },
    {
        let i: usize = layer.rank();
        let n: usize = self.by_rank[i];
        self.by_rank[i] = n + 1;
        assert forall|l: Layer| #[trigger] self.of(l) == old(self).of(l) + if l == layer {
            1nat
        } else {
            0nat
        } by {}
    }

    /// The number of packets of the layer with the given name; `None` if there were none.
    pub fn get(&self, name: &str) -> (r: Option<&usize>)
        ensures
            match r {
                Some(n) => exists|l: Layer|
                    layer_name(l) == name@ && *n == #[trigger] self.of(l) && self.of(l) > 0,
                None => forall|l: Layer|
                    layer_name(l) == name@ ==> #[trigger] self.of(l) == 0,
            },
    {
        let all: [Layer; 7] = [
            Layer::Audio,
            Layer::Control,
            Layer::HttpControl,
            Layer::HttpsControl,
            Layer::Mdns,
            Layer::Rtsp,
            Layer::Video,
        ];
        let wanted: Vec<char> = chars_of(name);
        let mut i: usize = 0;
        while i < 7
            invariant
                i <= 7,
                wanted@ == name@,
                all@ == seq![
                    Layer::Audio,
                    Layer::Control,
                    Layer::HttpControl,
                    Layer::HttpsControl,
                    Layer::Mdns,
                    Layer::Rtsp,
                    Layer::Video,
                ],
                forall|l: Layer|
                    layer_rank(l) < i && layer_name(l) == name@ ==> #[trigger] self.of(l) == 0,
            decreases 7 - i,
        {
            let layer = all[i];
            assert(layer_rank(layer) == i);
            if same_chars(&chars_of(layer.name()), &wanted) && self.by_rank[i] > 0 {
                assert(self.of(layer) > 0);
                return Some(&self.by_rank[i]);
            }
            i += 1;
            assert forall|l: Layer|
                layer_rank(l) < i && layer_name(l) == name@ implies #[trigger] self.of(l) == 0 by {
                if layer_rank(l) == i - 1 {
                    assert(l == layer);
                }
            }
        }
        None
    }
}

/// What was cut out of a capture.
pub struct Slices {
    pub tcp: Vec<ReassembledConn>,
    pub udp: Vec<UdpFlow>,
    /// Encrypted packets, which are only counted.
    pub https_packets: usize,
    pub counts: LayerCounts,
}

/// What tells a flow from others.
pub open spec fn flow_key(f: UdpFlow) -> KeyView {
    KeyView {
        layer: f.layer,
        client_ip: f.client_ip@,
        client_port: f.client_port,
        server_port: f.server_port,
    }
}

/// The keys of a list of flows.
pub open spec fn flow_keys(v: Seq<UdpFlow>) -> Seq<KeyView> {
    v.map_values(|f: UdpFlow| flow_key(f))
}

/// The contents of a list of packets.
pub open spec fn packet_views(v: Seq<Vec<u8>>) -> Seq<Seq<u8>> {
    v.map_values(|p: Vec<u8>| p@)
}

/// What the frames seen so far hold.
#[verifier::ext_equal]
pub struct Cut {
    pub conns: Map<KeyView, ConnView>,
    pub flows: Map<KeyView, Seq<Seq<u8>>>,
    pub https: nat,
    pub counts: spec_fn(Layer) -> nat,
}

/// What no frames hold.
pub open spec fn empty_cut() -> Cut {
    Cut { conns: Map::empty(), flows: Map::empty(), https: 0, counts: |l: Layer| 0 }
}

/// The flows with one more datagram of the flow `key`.
pub open spec fn flows_with(
    flows: Map<KeyView, Seq<Seq<u8>>>,
    key: KeyView,
    packet: Seq<u8>,
) -> Map<KeyView, Seq<Seq<u8>>> {
    let packets = if flows.contains_key(key) {
        flows[key]
    } else {
        Seq::empty()
    };
    flows.insert(key, packets.push(packet))
}

/// The connection of a packet: its other end than the server is the client.
pub open spec fn key_of(p: L4View, layer: Layer, server_port: u16) -> KeyView {
    if p.dst_port == server_port {
        KeyView { layer, client_ip: p.src_ip, client_port: p.src_port, server_port }
    } else {
        KeyView { layer, client_ip: p.dst_ip, client_port: p.dst_port, server_port }
    }
}

/// What the frames hold with one more packet.
pub open spec fn after_packet(cut: Cut, p: L4View) -> Cut {
    match class_of(p.proto, p.src_port, p.dst_port) {
        None => cut,
        Some(class) => {
            let counted = Cut {
                counts: |l: Layer|
                    (cut.counts)(l) + if l == class.layer {
                        1nat
                    } else {
                        0nat
                    },
                ..cut
            };
            let key = key_of(p, class.layer, class.server_port);
            if class.layer == Layer::HttpsControl {
                Cut { https: cut.https + 1, ..counted }
            } else if p.payload.len() == 0 {
                counted
            } else if p.proto == Proto::Tcp {
                Cut {
                    conns: conns_with(
                        cut.conns,
                        key,
                        p.dst_port == class.server_port,
                        SegView { seq: p.seq, data: p.payload },
                    ),
                    ..counted
                }
            } else {
                Cut { flows: flows_with(cut.flows, key, p.payload), ..counted }
            }
        },
    }
}

/// What the first `n` frames hold.
pub open spec fn after_frames(datalink: u32, frames: Seq<Seq<u8>>, n: nat) -> Cut
    decreases n,
{
    if n == 0 {
        empty_cut()
    } else {
        let cut = after_frames(datalink, frames, (n - 1) as nat);
        match frame_contents(datalink, frames[n - 1]) {
            None => cut,
            Some(p) => after_packet(cut, p),
        }
    }
}

/// Whether `s` is what was cut out: every connection with its transcripts and every flow with
/// its datagrams, in ascending order of their keys, and the counts.
pub open spec fn presents(s: Slices, cut: Cut) -> bool {
    &&& ascending(conn_keys(s.tcp@))
    &&& forall|k: KeyView| #[trigger] cut.conns.contains_key(k) <==> conn_keys(s.tcp@).contains(k)
    &&& forall|i: int|
        0 <= i < s.tcp@.len() ==> cut.conns.contains_key(conn_key(#[trigger] s.tcp@[i])) && (
            s.tcp@[i].c2s@,
            s.tcp@[i].s2c@,
        ) == conn_transcripts(cut.conns[conn_key(s.tcp@[i])])
    &&& ascending(flow_keys(s.udp@))
    &&& forall|k: KeyView| #[trigger] cut.flows.contains_key(k) <==> flow_keys(s.udp@).contains(k)
    &&& forall|i: int|
        0 <= i < s.udp@.len() ==> cut.flows.contains_key(flow_key(#[trigger] s.udp@[i]))
            && packet_views(s.udp@[i].packets@) == cut.flows[flow_key(s.udp@[i])]
    &&& s.https_packets == cut.https
    &&& forall|l: Layer| #[trigger] s.counts.of(l) == (cut.counts)(l)
}

/// Whether a frame holds a packet of a layer.
pub open spec fn is_classified(datalink: u32, frame: Seq<u8>) -> bool {
    frame_contents(datalink, frame) matches Some(p) && class_of(p.proto, p.src_port, p.dst_port)
        is Some
}

/// The number of packets of a layer among the first `n` frames.
pub open spec fn classified(datalink: u32, frames: Seq<Seq<u8>>, n: nat) -> nat
    decreases n,
{
    if n == 0 {
        0
    } else {
        classified(datalink, frames, (n - 1) as nat) + if is_classified(datalink, frames[n - 1]) {
            1nat
        } else {
            0nat
        }
    }
}

/// The packets of all layers.
pub open spec fn total(counts: spec_fn(Layer) -> nat) -> nat {
    counts(Layer::Audio) + counts(Layer::Control) + counts(Layer::HttpControl) + counts(
        Layer::HttpsControl,
    ) + counts(Layer::Mdns) + counts(Layer::Rtsp) + counts(Layer::Video)
}

/// The counts of the layers come to the number of packets of a layer, and the encrypted packets
/// are those of their layer.
pub proof fn law_counts_sum(s: Slices, datalink: u32, frames: Seq<Seq<u8>>)
    requires
        presents(s, after_frames(datalink, frames, frames.len())),
    ensures
        total(|l: Layer| s.counts.of(l)) == classified(datalink, frames, frames.len()),
        s.https_packets == s.counts.of(Layer::HttpsControl),
{
    lemma_counts(datalink, frames, frames.len());
    let counts = after_frames(datalink, frames, frames.len()).counts;
    assert(s.counts.of(Layer::Audio) == counts(Layer::Audio));
    assert(s.counts.of(Layer::Control) == counts(Layer::Control));
    assert(s.counts.of(Layer::HttpControl) == counts(Layer::HttpControl));
    assert(s.counts.of(Layer::HttpsControl) == counts(Layer::HttpsControl));
    assert(s.counts.of(Layer::Mdns) == counts(Layer::Mdns));
    assert(s.counts.of(Layer::Rtsp) == counts(Layer::Rtsp));
    assert(s.counts.of(Layer::Video) == counts(Layer::Video));
}

/// The counts after the first `n` frames.
proof fn lemma_counts(datalink: u32, frames: Seq<Seq<u8>>, n: nat)
    ensures
        total(after_frames(datalink, frames, n).counts) == classified(datalink, frames, n),
        after_frames(datalink, frames, n).https == (after_frames(datalink, frames, n).counts)(
            Layer::HttpsControl,
        ),
    decreases n,
{
    if n > 0 {
        lemma_counts(datalink, frames, (n - 1) as nat);
    }
}

/// The payload of a frame that is a datagram of the flow `key`, unless it is empty.
pub open spec fn datagram_of(datalink: u32, frame: Seq<u8>, key: KeyView) -> Option<Seq<u8>> {
    match frame_contents(datalink, frame) {
        None => None,
        Some(p) => match class_of(p.proto, p.src_port, p.dst_port) {
            None => None,
            Some(class) => if p.proto == Proto::Udp && p.payload.len() > 0 && key_of(
                p,
                class.layer,
                class.server_port,
            ) == key {
                Some(p.payload)
            } else {
                None
            },
        },
    }
}

/// The datagrams of the flow `key` among the first `n` frames that are not empty, in the order of
/// capture.
pub open spec fn datagrams_of(
    datalink: u32,
    frames: Seq<Seq<u8>>,
    n: nat,
    key: KeyView,
) -> Seq<Seq<u8>>
    decreases n,
{
    if n == 0 {
        Seq::empty()
    } else {
        let before = datagrams_of(datalink, frames, (n - 1) as nat, key);
        match datagram_of(datalink, frames[n - 1], key) {
            Some(d) => before.push(d),
            None => before,
        }
    }
}

/// Each flow holds exactly the datagrams of it that are not empty, in the order of capture, and
/// there is a flow wherever there is such a datagram.
pub proof fn law_flow_is_its_datagrams(
    s: Slices,
    datalink: u32,
    frames: Seq<Seq<u8>>,
    key: KeyView,
)
    requires
        presents(s, after_frames(datalink, frames, frames.len())),
    ensures
        flow_keys(s.udp@).contains(key) <==> datagrams_of(
            datalink,
            frames,
            frames.len(),
            key,
        ).len() > 0,
        forall|i: int|
            0 <= i < s.udp@.len() && flow_key(#[trigger] s.udp@[i]) == key ==> packet_views(
                s.udp@[i].packets@,
            ) == datagrams_of(datalink, frames, frames.len(), key),
{
    lemma_flows(datalink, frames, frames.len(), key);
    let cut = after_frames(datalink, frames, frames.len());
    assert(cut.flows.contains_key(key) <==> flow_keys(s.udp@).contains(key));
}

/// The flows after the first `n` frames.
proof fn lemma_flows(datalink: u32, frames: Seq<Seq<u8>>, n: nat, key: KeyView)
    ensures
        ({
            let flows = after_frames(datalink, frames, n).flows;
            let wanted = datagrams_of(datalink, frames, n, key);
            &&& flows.contains_key(key) <==> wanted.len() > 0
            &&& flows.contains_key(key) ==> flows[key] == wanted
        }),
    decreases n,
{
    if n > 0 {
        let m = (n - 1) as nat;
        lemma_flows(datalink, frames, m, key);
        let before = datagrams_of(datalink, frames, m, key);
        if before.len() == 0 {
            assert(before =~= Seq::empty());
        }
    }
}

/// The segment in a frame of the connection `key` and of one direction, unless it is empty.
pub open spec fn segment_of(
    datalink: u32,
    frame: Seq<u8>,
    key: KeyView,
    to_server: bool,
) -> Option<SegView> {
    match frame_contents(datalink, frame) {
        None => None,
        Some(p) => match class_of(p.proto, p.src_port, p.dst_port) {
            None => None,
            Some(class) => if p.proto == Proto::Tcp && class.layer != Layer::HttpsControl
                && p.payload.len() > 0 && key_of(p, class.layer, class.server_port) == key && (
            p.dst_port == class.server_port) == to_server {
                Some(SegView { seq: p.seq, data: p.payload })
            } else {
                None
            },
        },
    }
}

/// The segments of the connection `key` and of one direction among the first `n` frames that are
/// not empty, in the order of capture.
pub open spec fn segments_of(
    datalink: u32,
    frames: Seq<Seq<u8>>,
    n: nat,
    key: KeyView,
    to_server: bool,
) -> Seq<SegView>
    decreases n,
{
    if n == 0 {
        Seq::empty()
    } else {
        let before = segments_of(datalink, frames, (n - 1) as nat, key, to_server);
        match segment_of(datalink, frames[n - 1], key, to_server) {
            Some(s) => before.push(s),
            None => before,
        }
    }
}

/// Each connection holds the transcripts of exactly its segments that are not empty, and there is
/// a connection wherever there is such a segment.
pub proof fn law_connection_is_its_segments(
    s: Slices,
    datalink: u32,
    frames: Seq<Seq<u8>>,
    key: KeyView,
)
    requires
        presents(s, after_frames(datalink, frames, frames.len())),
    ensures
        ({
            let c2s = segments_of(datalink, frames, frames.len(), key, true);
            let s2c = segments_of(datalink, frames, frames.len(), key, false);
            &&& conn_keys(s.tcp@).contains(key) <==> c2s.len() + s2c.len() > 0
            &&& forall|i: int|
                0 <= i < s.tcp@.len() && conn_key(#[trigger] s.tcp@[i]) == key
                    ==> s.tcp@[i].c2s@ == transcript(c2s) && s.tcp@[i].s2c@ == transcript(s2c)
        }),
{
    lemma_conns(datalink, frames, frames.len(), key);
    let cut = after_frames(datalink, frames, frames.len());
    assert(cut.conns.contains_key(key) <==> conn_keys(s.tcp@).contains(key));
    assert forall|i: int|
        0 <= i < s.tcp@.len() && conn_key(#[trigger] s.tcp@[i]) == key implies s.tcp@[i].c2s@
        == transcript(segments_of(datalink, frames, frames.len(), key, true)) && s.tcp@[i].s2c@
        == transcript(segments_of(datalink, frames, frames.len(), key, false)) by {
        let both = (s.tcp@[i].c2s@, s.tcp@[i].s2c@);
        assert(both == conn_transcripts(cut.conns[key]));
    }
}

/// The connections after the first `n` frames.
proof fn lemma_conns(datalink: u32, frames: Seq<Seq<u8>>, n: nat, key: KeyView)
    ensures
        ({
            let conns = after_frames(datalink, frames, n).conns;
            let c2s = segments_of(datalink, frames, n, key, true);
            let s2c = segments_of(datalink, frames, n, key, false);
            &&& conns.contains_key(key) <==> c2s.len() + s2c.len() > 0
            &&& conns.contains_key(key) ==> conns[key] == (ConnView { c2s, s2c })
        }),
    decreases n,
{
    if n > 0 {
        let m = (n - 1) as nat;
        lemma_conns(datalink, frames, m, key);
        let c2s = segments_of(datalink, frames, m, key, true);
        let s2c = segments_of(datalink, frames, m, key, false);
        if c2s.len() + s2c.len() == 0 {
            assert(c2s =~= Seq::empty());
            assert(s2c =~= Seq::empty());
        }
    }
}

/// Collects datagrams by flow.
struct FlowTable {
    keys: Vec<FlowKey>,
    packets: Vec<Vec<Vec<u8>>>,
}

/// The contents of a list of flows.
spec fn flow_views(v: Seq<Vec<Vec<u8>>>) -> Seq<Seq<Seq<u8>>> {
    v.map_values(|p: Vec<Vec<u8>>| packet_views(p@))
}

impl FlowTable {
    spec fn wf(&self) -> bool {
        &&& ascending(key_views(self.keys@))
        &&& self.keys@.len() == self.packets@.len()
    }

    spec fn map(&self) -> Map<KeyView, Seq<Seq<u8>>> {
        keyed(key_views(self.keys@), flow_views(self.packets@))
    }

    fn push(&mut self, key: FlowKey, packet: Vec<u8>)
        requires
            old(self).wf(),
        ensures
            final(self).wf(),
            final(self).map() == flows_with(old(self).map(), key@, packet@),
    {
        let ghost k = key@;
        let ghost x = packet@;
        let (at, found) = locate(&self.keys, &key);
        let ghost ks = key_views(self.keys@);
        let ghost vs = flow_views(self.packets@);
        if !found {
            let fresh: Vec<Vec<u8>> = Vec::new();
            assert(packet_views(fresh@) =~= Seq::empty());
            proof {
                lemma_keyed_insert(ks, vs, at as int, k, Seq::empty());
            }
            self.keys.insert(at, key);
            self.packets.insert(at, fresh);
            assert(key_views(self.keys@) =~= ks.insert(at as int, k));
            assert(flow_views(self.packets@) =~= vs.insert(at as int, Seq::empty()));
        }
        let ghost kt = key_views(self.keys@);
        let ghost vt = flow_views(self.packets@);
        assert(vt[at as int] == packet_views(self.packets@[at as int]@));
        proof {
            lemma_keyed_at(kt, vt, at as int);
            lemma_keyed_update(kt, vt, at as int, vt[at as int].push(x));
        }
        let ghost before = self.packets@[at as int]@;
        self.packets[at].push(packet);
        proof {
            assert(packet_views(self.packets@[at as int]@) =~= packet_views(before).push(x));
            assert(flow_views(self.packets@) =~= vt.update(at as int, vt[at as int].push(x)));
            let had = if old(self).map().contains_key(k) {
                old(self).map()[k]
            } else {
                Seq::empty()
            };
            assert(had == vt[at as int]);
            assert(self.map() =~= flows_with(old(self).map(), k, x));
        }
    }

    fn finish(self) -> (r: Vec<UdpFlow>)
        requires
            self.wf(),
        ensures
            ascending(flow_keys(r@)),
            forall|k: KeyView| #[trigger]
                self.map().contains_key(k) <==> flow_keys(r@).contains(k),
            forall|i: int|
                0 <= i < r@.len() ==> self.map().contains_key(flow_key(#[trigger] r@[i]))
                    && packet_views(r@[i].packets@) == self.map()[flow_key(r@[i])],
    {
        let ghost ks = key_views(self.keys@);
        let ghost vs = flow_views(self.packets@);
        let ghost map = self.map();
        let mut keys = self.keys;
        let mut packets = self.packets;
        let mut back: Vec<UdpFlow> = Vec::new();
        let ghost n = ks.len();
        while keys.len() > 0
            invariant
                keys@.len() == packets@.len(),
                keys@.len() <= n,
                n == ks.len(),
                n == vs.len(),
                key_views(keys@) == ks.take(keys@.len() as int),
                flow_views(packets@) == vs.take(keys@.len() as int),
                back@.len() == n - keys@.len(),
                forall|i: int|
                    0 <= i < back@.len() ==> flow_key(#[trigger] back@[i]) == ks[n - 1 - i]
                        && packet_views(back@[i].packets@) == vs[n - 1 - i],
            decreases keys@.len(),
        {
            let ghost (had_keys, had_packets) = (keys@, packets@);
            match (keys.pop(), packets.pop()) {
                (Some(key), Some(list)) => {
                    assert(key_views(had_keys).last() == key@);
                    assert(flow_views(had_packets).last() == packet_views(list@));
                    back.push(
                        UdpFlow {
                            layer: key.layer,
                            client_ip: key.client_ip,
                            client_port: key.client_port,
                            server_port: key.server_port,
                            packets: list,
                        },
                    );
                    assert(key_views(keys@) =~= ks.take(keys@.len() as int));
                    assert(flow_views(packets@) =~= vs.take(keys@.len() as int));
                },
                _ => {},
            }
        }
        let mut out: Vec<UdpFlow> = Vec::new();
        while back.len() > 0
            invariant
                back@.len() <= n,
                n == ks.len(),
                n == vs.len(),
                out@.len() == n - back@.len(),
                forall|i: int|
                    0 <= i < back@.len() ==> flow_key(#[trigger] back@[i]) == ks[n - 1 - i]
                        && packet_views(back@[i].packets@) == vs[n - 1 - i],
                forall|i: int|
                    0 <= i < out@.len() ==> flow_key(#[trigger] out@[i]) == ks[i]
                        && packet_views(out@[i].packets@) == vs[i],
            decreases back@.len(),
        {
            let ghost had = back@;
            match back.pop() {
                Some(item) => {
                    assert(flow_key(had[had.len() - 1]) == ks[n - had.len()]);
                    out.push(item);
                },
                None => {},
            }
        }
        proof {
            assert(flow_keys(out@) =~= ks);
            assert forall|k: KeyView| #[trigger] map.contains_key(k) <==> flow_keys(
                out@,
            ).contains(k) by {
                if map.contains_key(k) {
                    let i = choose|i: int| key_at(ks, k, i);
                    assert(flow_keys(out@)[i] == k);
                }
                if ks.contains(k) {
                    let i = choose|i: int| 0 <= i < ks.len() && ks[i] == k;
                    lemma_keyed_at(ks, vs, i);
                }
            }
            assert forall|i: int| 0 <= i < out@.len() implies map.contains_key(
                flow_key(#[trigger] out@[i]),
            ) && packet_views(out@[i].packets@) == map[flow_key(out@[i])] by {
                lemma_keyed_at(ks, vs, i);
            }
        }
        out
    }
}

/// Cut a capture into its connections.
pub fn slice(pcap_bytes: &[u8]) -> (r: Result<Slices, PcapError>)
    ensures
        pcap_bytes@.len() < 24 ==> r matches Err(PcapError::TooShort),
        pcap_bytes@.len() >= 24 ==> match magic_order(le32_at(pcap_bytes@, 0)) {
            None => r matches Err(PcapError::BadMagic(m)) && m == le32_at(pcap_bytes@, 0),
            Some(little) => {
                let frames = records_from(pcap_bytes@, little, 24);
                r matches Ok(s) && presents(
                    s,
                    after_frames(value_at(pcap_bytes@, little, 20), frames, frames.len()),
                )
            },
        },
{
    let file = match pcap::parse(pcap_bytes) {
        Ok(file) => file,
        Err(e) => {
            return Err(e);
        },
    };
    let ghost frames = record_views(file.records@);
    let mut reasm = Reassembler::new();
    let mut flows = FlowTable { keys: Vec::new(), packets: Vec::new() };
    let mut counts = LayerCounts::none();
    let mut https_packets: usize = 0;
    assert(flows.map() =~= Map::empty());
    let mut i: usize = 0;
    while i < file.records.len()
        invariant
            i <= file.records.len(),
            frames == record_views(file.records@),
            reasm.wf(),
            flows.wf(),
            reasm@ == after_frames(file.datalink, frames, i as nat).conns,
            flows.map() == after_frames(file.datalink, frames, i as nat).flows,
            https_packets == after_frames(file.datalink, frames, i as nat).https,
            https_packets <= i,
            forall|l: Layer| #[trigger]
                counts.of(l) == (after_frames(file.datalink, frames, i as nat).counts)(l),
            forall|l: Layer| #[trigger] counts.of(l) <= i,
        decreases file.records.len() - i,
    {
        let ghost cut = after_frames(file.datalink, frames, i as nat);
        assert(frames[i as int] == file.records@[i as int].data@);
        let contents = l2l4::parse(file.datalink, &file.records[i].data);
        i += 1;
        if let Some(p) = contents {
            let ghost view = p@;
            assert(after_frames(file.datalink, frames, i as nat) == after_packet(cut, view));
            if let Some(class) = classify(p.proto, p.src_port, p.dst_port) {
                assert(counts.of(class.layer) < i);
                counts.add(class.layer);
                let encrypted = match class.layer {
                    Layer::HttpsControl => true,
                    _ => false,
                };
                if encrypted {
                    https_packets += 1;
                } else {
                    let to_server = p.dst_port == class.server_port;
                    let (client_ip, client_port) = if to_server {
                        (p.src_ip, p.src_port)
                    } else {
                        (p.dst_ip, p.dst_port)
                    };
                    match p.proto {
                        Proto::Tcp => {
                            reasm.push(
                                class.layer,
                                client_ip,
                                client_port,
                                class.server_port,
                                to_server,
                                p.seq,
                                &p.payload,
                            );
                        },
                        Proto::Udp => {
                            if p.payload.len() > 0 {
                                flows.push(
                                    FlowKey {
                                        layer: class.layer,
                                        client_ip,
                                        client_port,
                                        server_port: class.server_port,
                                    },
                                    p.payload,
                                );
                            }
                        },
                    }
                }
            }
        }
    }
    Ok(Slices { tcp: reasm.finish(), udp: flows.finish(), https_packets, counts })
}

/// The first `n` packets, each behind its length.
pub open spec fn framed(packets: Seq<Seq<u8>>, n: nat) -> Seq<u8>
    decreases n,
{
    if n == 0 {
        Seq::empty()
    } else {
        framed(packets, (n - 1) as nat) + le32_bytes(packets[n - 1].len() as u32) + packets[n - 1]
    }
}

/// The packets in a container from `pos` on; what is cut off at its end is left out.
pub open spec fn unframed(b: Seq<u8>, pos: int) -> Seq<Seq<u8>>
    decreases b.len() - pos,
{
    if pos < 0 || pos + 4 > b.len() || pos + 4 + le32_at(b, pos) > b.len() {
        Seq::empty()
    } else {
        let end = pos + 4 + le32_at(b, pos);
        seq![b.subrange(pos + 4, end)] + unframed(b, end)
    }
}

/// Put datagrams into a container that keeps their boundaries: each behind its length.
pub fn encode_frames(packets: &[Vec<u8>]) -> (r: Vec<u8>)
    ensures
        r@ == framed(packet_views(packets@), packets@.len()),
{
    let ghost all = packet_views(packets@);
    let mut out: Vec<u8> = Vec::new();
    let mut i: usize = 0;
    while i < packets.len()
        invariant
            i <= packets.len(),
            all == packet_views(packets@),
            out@ == framed(all, i as nat),
        decreases packets.len() - i,
    {
        assert(all[i as int] == packets@[i as int]@);
        push_le32(&mut out, packets[i].len() as u32);
        push_slice(&mut out, &packets[i]);
        i += 1;
    }
    out
}

/// A container gives back the datagrams that were put in.
pub proof fn law_frames_keep_boundaries(packets: Seq<Seq<u8>>)
    requires
        forall|i: int| 0 <= i < packets.len() ==> (#[trigger] packets[i]).len() <= u32::MAX,
    ensures
        unframed(framed(packets, packets.len()), 0) == packets,
{
    lemma_unframed(packets, packets.len());
    assert(packets.skip(0) =~= packets);
}

/// The bytes of packet `k` in a container.
proof fn lemma_framed_at(packets: Seq<Seq<u8>>, k: nat)
    requires
        k < packets.len(),
        packets[k as int].len() <= u32::MAX,
    ensures
        ({
            let b = framed(packets, packets.len());
            let at = framed(packets, k).len() as int;
            let p = packets[k as int];
            &&& framed(packets, k + 1).len() == at + 4 + p.len()
            &&& at + 4 + p.len() <= b.len()
            &&& le32_at(b, at) == p.len()
            &&& b.subrange(at + 4, at + 4 + p.len()) == p
        }),
{
    let b = framed(packets, packets.len());
    let p = packets[k as int];
    let before = framed(packets, k);
    let at = before.len() as int;
    let len = le32_bytes(p.len() as u32);
    let upto = framed(packets, k + 1);
    lemma_framed_prefix(packets, k + 1, packets.len());
    assert(upto == before + len + p);
    let head = b.take(upto.len() as int);
    assert(head == upto);
    assert(b[at] == head[at] && b[at + 1] == head[at + 1] && b[at + 2] == head[at + 2] && b[at + 3]
        == head[at + 3]);
    assert(head[at] == len[0] && head[at + 1] == len[1] && head[at + 2] == len[2] && head[at + 3]
        == len[3]);
    assert(b.subrange(at + 4, at + 4 + p.len()) =~= p) by {
        assert forall|i: int| 0 <= i < p.len() implies b[at + 4 + i] == p[i] by {
            assert(head[at + 4 + i] == p[i]);
        }
    }
}

proof fn lemma_unframed(packets: Seq<Seq<u8>>, n: nat)
    requires
        n <= packets.len(),
        forall|i: int| 0 <= i < packets.len() ==> (#[trigger] packets[i]).len() <= u32::MAX,
    ensures
        unframed(
            framed(packets, packets.len()),
            framed(packets, (packets.len() - n) as nat).len() as int,
        ) == packets.skip(packets.len() - n),
    decreases n,
{
    if n == 0 {
        assert(packets.skip(packets.len() as int) =~= Seq::empty());
    } else {
        let k = (packets.len() - n) as nat;
        lemma_unframed(packets, (n - 1) as nat);
        lemma_framed_at(packets, k);
        assert((packets.len() - (n - 1)) as nat == k + 1);
        assert(packets.skip(k as int) =~= seq![packets[k as int]] + packets.skip((k + 1) as int));
    }
}

proof fn lemma_framed_prefix(packets: Seq<Seq<u8>>, m: nat, n: nat)
    requires
        m <= n <= packets.len(),
    ensures
        framed(packets, m).len() <= framed(packets, n).len(),
        framed(packets, n).take(framed(packets, m).len() as int) == framed(packets, m),
    decreases n,
{
    let l = framed(packets, m).len() as int;
    if m < n {
        lemma_framed_prefix(packets, m, (n - 1) as nat);
        assert(framed(packets, n).take(l) =~= framed(packets, (n - 1) as nat).take(l));
    } else {
        assert(framed(packets, n).take(l) =~= framed(packets, m));
    }
}

/// What is noted beside every fixture.
#[derive(Debug, Clone, PartialEq, Eq)]
pub struct MetaParams {
    pub sunshine_version: String,
    pub captured: String,
    pub notes: String,
}

/// `s` without backslashes and with apostrophes for quotation marks.
pub open spec fn escaped(s: Seq<char>) -> Seq<char>
    decreases s.len(),
{
    if s.len() == 0 {
        s
    } else if s.last() == '\\' {
        escaped(s.drop_last())
    } else if s.last() == '"' {
        escaped(s.drop_last()).push('\'')
    } else {
        escaped(s.drop_last()).push(s.last())
    }
}

/// The note beside a fixture.
pub open spec fn meta_text(
    layer: Seq<char>,
    version: Seq<char>,
    captured: Seq<char>,
    notes: Seq<char>,
) -> Seq<char> {
    "sunshine_version = \""@ + escaped(version) + "\"\ncaptured = \""@ + escaped(captured)
        + "\"\nlayer = \""@ + escaped(layer) + "\"\nnotes = \""@ + escaped(notes) + "\"\n"@
}

fn escape(s: &str) -> (r: String)
    ensures
        r@ == escaped(s@),
{
    let chars: Vec<char> = chars_of(s);
    let mut out: Vec<char> = Vec::new();
    let mut i: usize = 0;
    while i < chars.len()
        invariant
            i <= chars.len(),
            chars@ == s@,
            out@ == escaped(s@.take(i as int)),
        decreases chars.len() - i,
    {
        let c: char = chars[i];
        assert(s@.take(i + 1).drop_last() =~= s@.take(i as int));
        if c == '"' {
            out.push('\'');
        } else if c != '\\' {
            out.push(c);
        }
        i += 1;
    }
    assert(s@.take(i as int) =~= s@);
    string_of(&out)
}

/// The note beside a fixture.
pub fn meta_toml(layer: &str, version: &str, captured: &str, notes: &str) -> (r: String)
    ensures
        r@ == meta_text(layer@, version@, captured@, notes@),
{
    let mut s: String = copy_str("sunshine_version = \"");
    s.append(escape(version).as_str());
    s.append("\"\ncaptured = \"");
    s.append(escape(captured).as_str());
    s.append("\"\nlayer = \"");
    s.append(escape(layer).as_str());
    s.append("\"\nnotes = \"");
    s.append(escape(notes).as_str());
    s.append("\"\n");
    s
}

/// An address with underscores for colons.
pub open spec fn sanitized(ip: Seq<char>) -> Seq<char> {
    ip.map_values(
        |c: char|
            if c == ':' {
                '_'
            } else {
                c
            },
    )
}

/// Make an address fit for the name of a file.
pub fn sanitize(ip: &str) -> (r: String)
    ensures
        r@ == sanitized(ip@),
{
    let chars: Vec<char> = chars_of(ip);
    let mut out: Vec<char> = Vec::new();
    let mut i: usize = 0;
    while i < chars.len()
        invariant
            i <= chars.len(),
            chars@ == ip@,
            out@ == sanitized(ip@).take(i as int),
        decreases chars.len() - i,
    {
        let c: char = chars[i];
        out.push(
            if c == ':' {
                '_'
            } else {
                c
            },
        );
        i += 1;
        assert(out@ =~= sanitized(ip@).take(i as int));
    }
    assert(out@ =~= sanitized(ip@));
    string_of(&out)
}

/// A file to write: its directory, its name and its bytes.
pub struct FixtureFile {
    pub dir: &'static str,
    pub name: String,
    pub bytes: Vec<u8>,
}

/// What a [`FixtureFile`] holds.
#[verifier::ext_equal]
pub struct FileView {
    pub dir: Seq<char>,
    pub name: Seq<char>,
    pub bytes: Seq<u8>,
}

impl View for FixtureFile {
    type V = FileView;

    open spec fn view(&self) -> FileView {
        FileView { dir: self.dir@, name: self.name@, bytes: self.bytes@ }
    }
}

/// The contents of a list of files.
pub open spec fn file_views(v: Seq<FixtureFile>) -> Seq<FileView> {
    v.map_values(|f: FixtureFile| f@)
}

/// The notes of a fixture: those of the capture, if there are any, and its own.
pub open spec fn all_notes(notes: Seq<char>, own: Seq<char>) -> Seq<char> {
    if notes.len() == 0 {
        own
    } else {
        notes + "; "@ + own
    }
}

/// A fixture and the note beside it.
pub open spec fn fixture(
    layer: Layer,
    base: Seq<char>,
    ext: Seq<char>,
    body: Seq<u8>,
    meta: MetaParams,
    own_note: Seq<char>,
) -> Seq<FileView> {
    seq![
        FileView { dir: layer_name(layer), name: base + "."@ + ext, bytes: body },
        FileView {
            dir: layer_name(layer),
            name: base + ".meta.toml"@,
            bytes: encode_utf8(
                meta_text(
                    layer_name(layer),
                    meta.sunshine_version@,
                    meta.captured@,
                    all_notes(meta.notes@, own_note),
                ),
            ),
        },
    ]
}

/// The name of the fixtures of a client.
pub open spec fn fixture_base(client_ip: Seq<char>, client_port: u16) -> Seq<char> {
    sanitized(client_ip) + "-"@ + decimal(client_port as nat)
}

/// The fixtures of a connection: one for each direction that has bytes.
pub open spec fn conn_files(c: ReassembledConn, meta: MetaParams) -> Seq<FileView> {
    let base = fixture_base(c.client_ip@, c.client_port);
    let up = if c.c2s@.len() > 0 {
        fixture(c.layer, base + "-c2s"@, "bin"@, c.c2s@, meta, "client->server transcript"@)
    } else {
        Seq::empty()
    };
    let down = if c.s2c@.len() > 0 {
        fixture(c.layer, base + "-s2c"@, "bin"@, c.s2c@, meta, "server->client transcript"@)
    } else {
        Seq::empty()
    };
    up + down
}

/// The fixture of a flow.
pub open spec fn flow_files(f: UdpFlow, meta: MetaParams) -> Seq<FileView> {
    fixture(
        f.layer,
        fixture_base(f.client_ip@, f.client_port),
        "frames"@,
        framed(packet_views(f.packets@), f.packets@.len()),
        meta,
        "udp .frames container: u32-LE length-prefixed records; "@ + decimal(f.packets@.len())
            + " datagram(s)"@,
    )
}

/// The fixtures of the first `n` connections.
pub open spec fn conns_files(v: Seq<ReassembledConn>, meta: MetaParams, n: nat) -> Seq<FileView>
    decreases n,
{
    if n == 0 {
        Seq::empty()
    } else {
        conns_files(v, meta, (n - 1) as nat) + conn_files(v[n - 1], meta)
    }
}

/// The fixtures of the first `n` flows.
pub open spec fn flows_files(v: Seq<UdpFlow>, meta: MetaParams, n: nat) -> Seq<FileView>
    decreases n,
{
    if n == 0 {
        Seq::empty()
    } else {
        flows_files(v, meta, (n - 1) as nat) + flow_files(v[n - 1], meta)
    }
}

fn push_fixture(
    out: &mut Vec<FixtureFile>,
    layer: Layer,
    base: &str,
    ext: &str,
    body: &[u8],
    meta: &MetaParams,
    own_note: &str,
)
    ensures
        file_views(final(out)@) == file_views(old(out)@) + fixture(
            layer,
            base@,
            ext@,
            body@,
            *meta,
            own_note@,
        ),
{
    let mut name: String = copy_str(base);
    name.append(".");
    name.append(ext);
    let mut bytes: Vec<u8> = Vec::new();
    push_slice(&mut bytes, body);
    assert(bytes@ =~= body@);
    let notes: String = if meta.notes.as_str().is_empty() {
        copy_str(own_note)
    } else {
        let mut s: String = copy_str(meta.notes.as_str());
        s.append("; ");
        s.append(own_note);
        s
    };
    let text: String = meta_toml(
        layer.name(),
        meta.sunshine_version.as_str(),
        meta.captured.as_str(),
        notes.as_str(),
    );
    let mut meta_name: String = copy_str(base);
    meta_name.append(".meta.toml");
    let mut meta_bytes: Vec<u8> = Vec::new();
    push_slice(&mut meta_bytes, text.as_str().as_bytes());
    assert(meta_bytes@ =~= encode_utf8(text@));
    let ghost before = file_views(out@);
    let first = FixtureFile { dir: layer.name(), name, bytes };
    let second = FixtureFile { dir: layer.name(), name: meta_name, bytes: meta_bytes };
    let ghost (a, b) = (first@, second@);
    out.push(first);
    out.push(second);
    assert(file_views(out@) =~= before.push(a).push(b));
    assert(before.push(a).push(b) =~= before + fixture(
        layer,
        base@,
        ext@,
        body@,
        *meta,
        own_note@,
    ));
}

fn base_of(client_ip: &str, client_port: u16) -> (r: String)
    ensures
        r@ == fixture_base(client_ip@, client_port),
{
    let mut base: String = sanitize(client_ip);
    base.append("-");
    base.append(decimal_string(client_port as u64).as_str());
    base
}

/// The files that the slices are kept in: a transcript for each direction of a connection, a
/// container for each flow, and a note beside each of them.
pub fn write_fixtures(s: &Slices, meta: &MetaParams) -> (r: Vec<FixtureFile>)
    ensures
        file_views(r@) == conns_files(s.tcp@, *meta, s.tcp@.len()) + flows_files(
            s.udp@,
            *meta,
            s.udp@.len(),
        ),
{
    let mut out: Vec<FixtureFile> = Vec::new();
    assert(file_views(out@) =~= Seq::empty());
    let mut i: usize = 0;
    while i < s.tcp.len()
        invariant
            i <= s.tcp.len(),
            file_views(out@) == conns_files(s.tcp@, *meta, i as nat),
        decreases s.tcp.len() - i,
    {
        let c = &s.tcp[i];
        let ghost before = file_views(out@);
        let base: String = base_of(c.client_ip.as_str(), c.client_port);
        if c.c2s.len() > 0 {
            let mut name: String = copy_str(base.as_str());
            name.append("-c2s");
            push_fixture(
                &mut out,
                c.layer,
                name.as_str(),
                "bin",
                &c.c2s,
                meta,
                "client->server transcript",
            );
        }
        let ghost middle = file_views(out@);
        if c.s2c.len() > 0 {
            let mut name: String = copy_str(base.as_str());
            name.append("-s2c");
            push_fixture(
                &mut out,
                c.layer,
                name.as_str(),
                "bin",
                &c.s2c,
                meta,
                "server->client transcript",
            );
        }
        assert(file_views(out@) =~= before + conn_files(*c, *meta));
        i += 1;
    }
    let ghost conns = file_views(out@);
    let mut i: usize = 0;
    assert(conns + flows_files(s.udp@, *meta, 0) =~= conns);
    while i < s.udp.len()
        invariant
            i <= s.udp.len(),
            file_views(out@) == conns + flows_files(s.udp@, *meta, i as nat),
        decreases s.udp.len() - i,
    {
        let f = &s.udp[i];
        let ghost before = file_views(out@);
        let base: String = base_of(f.client_ip.as_str(), f.client_port);
        let body: Vec<u8> = encode_frames(&f.packets);
        let mut note: String = copy_str("udp .frames container: u32-LE length-prefixed records; ");
        note.append(decimal_string(f.packets.len() as u64).as_str());
        note.append(" datagram(s)");
        push_fixture(&mut out, f.layer, base.as_str(), "frames", &body, meta, note.as_str());
        i += 1;
        assert(file_views(out@) =~= conns + flows_files(s.udp@, *meta, i as nat));
    }
    out
}

/// A packet and its reply are of one connection, and go opposite ways in it.
pub proof fn law_reply_is_of_the_connection(p: L4View, reply: L4View, class: Class)
    requires
        class_of(p.proto, p.src_port, p.dst_port) == Some(class),
        p.src_port != p.dst_port,
        reply.proto == p.proto,
        reply.src_ip == p.dst_ip,
        reply.dst_ip == p.src_ip,
        reply.src_port == p.dst_port,
        reply.dst_port == p.src_port,
    ensures
        class_of(reply.proto, reply.src_port, reply.dst_port) == Some(class),
        key_of(reply, class.layer, class.server_port) == key_of(p, class.layer, class.server_port),
        (reply.dst_port == class.server_port) == !(p.dst_port == class.server_port),
        key_of(p, class.layer, class.server_port).client_port != class.server_port,
{
}

/// The fixtures of a connection hold its transcripts: that from the client first, where it has
/// bytes, then that from the server, each with a note beside it.
pub proof fn law_connection_files(c: ReassembledConn, meta: MetaParams)
    ensures
        ({
            let files = conn_files(c, meta);
            let base = sanitized(c.client_ip@) + "-"@ + decimal(c.client_port as nat);
            &&& files.len() == 2 * ((if c.c2s@.len() > 0 {
                1int
            } else {
                0
            }) + (if c.s2c@.len() > 0 {
                1int
            } else {
                0
            }))
            &&& c.c2s@.len() > 0 ==> files[0].bytes == c.c2s@ && files[0].name == base + "-c2s"@ + "."@
                + "bin"@ && files[0].dir == layer_name(c.layer)
            &&& c.s2c@.len() > 0 ==> files[files.len() - 2].bytes == c.s2c@ && files[files.len()
                - 2].name == base + "-s2c"@ + "."@ + "bin"@ && files[files.len() - 2].dir
                == layer_name(c.layer)
            &&& forall|i: int|
                0 <= i < files.len() && i % 2 == 1 ==> (#[trigger] files[i]).name == files[i
                    - 1].name.take(files[i - 1].name.len() - 4) + ".meta.toml"@
        }),
{
    let files = conn_files(c, meta);
    reveal_strlit(".");
    reveal_strlit("bin");
    assert forall|i: int| 0 <= i < files.len() && i % 2 == 1 implies (#[trigger] files[i]).name
        == files[i - 1].name.take(files[i - 1].name.len() - 4) + ".meta.toml"@ by {
        let n = files[i - 1].name;
        assert(i == 1 || i == 3);
        let base = fixture_base(c.client_ip@, c.client_port);
        assert((base + "-c2s"@ + "."@ + "bin"@).take((base + "-c2s"@).len() as int) =~= base
            + "-c2s"@);
        assert((base + "-s2c"@ + "."@ + "bin"@).take((base + "-s2c"@).len() as int) =~= base
            + "-s2c"@);
    }
}

/// What is quoted in a note holds neither quotes nor backslashes; a text without them is as it was.
pub proof fn law_escaped(s: Seq<char>)
    ensures
        forall|i: int|
            0 <= i < escaped(s).len() ==> #[trigger] escaped(s)[i] != '"' && escaped(s)[i] != '\\',
        (forall|i: int| 0 <= i < s.len() ==> #[trigger] s[i] != '"' && s[i] != '\\') ==> escaped(s)
            == s,
    decreases s.len(),
{
    if s.len() > 0 {
        law_escaped(s.drop_last());
        let e = escaped(s.drop_last());
        let r = escaped(s);
        assert forall|i: int| 0 <= i < r.len() implies #[trigger] r[i] != '"' && r[i] != '\\' by {
            if i < e.len() {
                assert(r[i] == e[i]);
            }
        }
        if forall|i: int| 0 <= i < s.len() ==> #[trigger] s[i] != '"' && s[i] != '\\' {
            let t = s.drop_last();
            assert forall|i: int| 0 <= i < t.len() implies #[trigger] t[i] != '"' && t[i] != '\\' by {
                assert(t[i] == s[i]);
            }
            assert(s[s.len() - 1] == s.last());
            assert(t.push(s.last()) =~= s);
        }
    }
}

/// The lines of the note beside a fixture: each thing that is known, by its name and in quotes. None
/// of them holds a line feed.
pub proof fn law_note_lines(
    layer: Seq<char>,
    version: Seq<char>,
    captured: Seq<char>,
    notes: Seq<char>,
)
    requires
        forall|i: int|
            0 <= i < layer.len() ==> #[trigger] layer[i] != '\n' && layer[i] != '"' && layer[i]
                != '\\',
        forall|i: int|
            0 <= i < version.len() ==> #[trigger] version[i] != '\n' && version[i] != '"'
                && version[i] != '\\',
        forall|i: int|
            0 <= i < captured.len() ==> #[trigger] captured[i] != '\n' && captured[i] != '"'
                && captured[i] != '\\',
        forall|i: int|
            0 <= i < notes.len() ==> #[trigger] notes[i] != '\n' && notes[i] != '"' && notes[i]
                != '\\',
    ensures
        split(meta_text(layer, version, captured, notes), '\n') == seq![
            "sunshine_version = "@ + (seq!['"'] + version + seq!['"']),
            "captured = "@ + (seq!['"'] + captured + seq!['"']),
            "layer = "@ + (seq!['"'] + layer + seq!['"']),
            "notes = "@ + (seq!['"'] + notes + seq!['"']),
            Seq::<char>::empty(),
        ],
{
    law_escaped(layer);
    law_escaped(version);
    law_escaped(captured);
    law_escaped(notes);
    let q = seq!['"'];
    let lf = seq!['\n'];
    let none = Seq::<char>::empty();
    let l1 = "sunshine_version = "@ + (q + version + q);
    let l2 = "captured = "@ + (q + captured + q);
    let l3 = "layer = "@ + (q + layer + q);
    let l4 = "notes = "@ + (q + notes + q);
    reveal_strlit("sunshine_version = ");
    reveal_strlit("captured = ");
    reveal_strlit("layer = ");
    reveal_strlit("notes = ");
    assert("sunshine_version = \""@ =~= "sunshine_version = "@ + q) by {
        reveal_strlit("sunshine_version = \"");
    }
    assert("\"\ncaptured = \""@ =~= q + lf + "captured = "@ + q) by {
        reveal_strlit("\"\ncaptured = \"");
    }
    assert("\"\nlayer = \""@ =~= q + lf + "layer = "@ + q) by {
        reveal_strlit("\"\nlayer = \"");
    }
    assert("\"\nnotes = \""@ =~= q + lf + "notes = "@ + q) by {
        reveal_strlit("\"\nnotes = \"");
    }
    assert("\"\n"@ =~= q + lf) by {
        reveal_strlit("\"\n");
    }
    let r4 = l4 + lf + none;
    let r3 = l3 + lf + r4;
    let r2 = l2 + lf + r3;
    assert(meta_text(layer, version, captured, notes) =~= l1 + lf + r2);
    lemma_note_line("sunshine_version = "@, version);
    lemma_note_line("captured = "@, captured);
    lemma_note_line("layer = "@, layer);
    lemma_note_line("notes = "@, notes);
    lemma_split_first(l1, '\n', r2);
    lemma_split_first(l2, '\n', r3);
    lemma_split_first(l3, '\n', r4);
    lemma_split_first(l4, '\n', none);
    lemma_split_first(none, '\n', none);
    assert(split(meta_text(layer, version, captured, notes), '\n') =~= seq![l1, l2, l3, l4, none]);
}

proof fn lemma_note_line(name: Seq<char>, value: Seq<char>)
    requires
        forall|i: int| 0 <= i < name.len() ==> #[trigger] name[i] != '\n',
        forall|i: int| 0 <= i < value.len() ==> #[trigger] value[i] != '\n',
    ensures
        ({
            let l = name + (seq!['"'] + value + seq!['"']);
            forall|i: int| 0 <= i < l.len() ==> #[trigger] l[i] != '\n'
        }),
{
    let l = name + (seq!['"'] + value + seq!['"']);
    let n = name.len() as int;
    assert forall|i: int| 0 <= i < l.len() implies #[trigger] l[i] != '\n' by {
        if i < n {
            assert(l[i] == name[i]);
        } else if n < i <= n + value.len() {
            assert(l[i] == value[i - n - 1]);
        }
    }
}

/// A container grows by one datagram at its end: four bytes for the length, the least significant
/// first, and then the datagram.
pub proof fn law_container(packets: Seq<Seq<u8>>, p: Seq<u8>)
    requires
        p.len() <= u32::MAX,
    ensures
        ({
            let before = framed(packets, packets.len());
            let all = framed(packets.push(p), packets.len() + 1);
            let record = all.skip(before.len() as int);
            &&& all.take(before.len() as int) == before
            &&& record.len() == p.len() + 4
            &&& little(record.take(4)) == p.len()
            &&& record.skip(4) == p
        }),
        framed(Seq::empty(), 0) == Seq::<u8>::empty(),
{
    let before = framed(packets, packets.len());
    let all = framed(packets.push(p), packets.len() + 1);
    lemma_framed_first(packets, packets.push(p), packets.len());
    let head = le32_bytes(p.len() as u32);
    assert(all == before + head + p);
    let record = all.skip(before.len() as int);
    assert(all.take(before.len() as int) =~= before);
    assert(record =~= head + p);
    assert(record.skip(4) =~= p);
    assert(record.take(4) =~= head);
    lemma_little4(head);
}

proof fn lemma_framed_first(a: Seq<Seq<u8>>, b: Seq<Seq<u8>>, n: nat)
    requires
        n <= a.len(),
        n <= b.len(),
        forall|i: int| 0 <= i < n ==> #[trigger] a[i] == b[i],
    ensures
        framed(a, n) == framed(b, n),
    decreases n,
{
    if n > 0 {
        lemma_framed_first(a, b, (n - 1) as nat);
        assert(a[n - 1] == b[n - 1]);
    }
}

/// The fixture of a flow is its container, under the name of its client and in the directory of its
/// layer, with a note beside it.
pub proof fn law_flow_files(f: UdpFlow, meta: MetaParams)
    ensures
        ({
            let files = flow_files(f, meta);
            let name = sanitized(f.client_ip@) + "-"@ + decimal(f.client_port as nat);
            &&& files.len() == 2
            &&& files[0].name == name + ".frames"@
            &&& files[1].name == name + ".meta.toml"@
            &&& files[0].dir == layer_name(f.layer) && files[1].dir == layer_name(f.layer)
            &&& files[0].bytes == framed(packet_views(f.packets@), f.packets@.len())
        }),
{
    let name = sanitized(f.client_ip@) + "-"@ + decimal(f.client_port as nat);
    reveal_strlit(".");
    reveal_strlit("frames");
    reveal_strlit(".frames");
    assert(".frames"@ =~= "."@ + "frames"@);
    assert(name + "."@ + "frames"@ =~= name + ".frames"@);
}

/// The name of a file holds no colon, and an address without one is as it was.
pub proof fn law_sanitized(ip: Seq<char>)
    ensures
        sanitized(ip).len() == ip.len(),
        forall|i: int|
            0 <= i < ip.len() ==> #[trigger] sanitized(ip)[i] != ':' && (ip[i] != ':' ==> sanitized(
                ip,
            )[i] == ip[i]) && (ip[i] == ':' ==> sanitized(ip)[i] == '_'),
{
}

/// Every transcript of a capture is among its files, and so is every container.
pub proof fn law_files_of_all(
    tcp: Seq<ReassembledConn>,
    udp: Seq<UdpFlow>,
    meta: MetaParams,
    n: nat,
    m: nat,
    i: int,
    j: int,
)
    requires
        n <= tcp.len(),
        m <= udp.len(),
        0 <= i < n,
        0 <= j < m,
    ensures
        tcp[i].c2s@.len() > 0 ==> exists|k: int|
            0 <= k < conns_files(tcp, meta, n).len() && (#[trigger] conns_files(
                tcp,
                meta,
                n,
            )[k]).bytes == tcp[i].c2s@,
        tcp[i].s2c@.len() > 0 ==> exists|k: int|
            0 <= k < conns_files(tcp, meta, n).len() && (#[trigger] conns_files(
                tcp,
                meta,
                n,
            )[k]).bytes == tcp[i].s2c@,
        flows_files(udp, meta, m).len() == 2 * m,
        flows_files(udp, meta, m)[2 * j] == flow_files(udp[j], meta)[0],
        flows_files(udp, meta, m)[2 * j + 1] == flow_files(udp[j], meta)[1],
{
    lemma_conns_files(tcp, meta, n, i);
    lemma_flows_files(udp, meta, m, j);
}

proof fn lemma_conns_files(tcp: Seq<ReassembledConn>, meta: MetaParams, n: nat, i: int)
    requires
        n <= tcp.len(),
        0 <= i < n,
    ensures
        tcp[i].c2s@.len() > 0 ==> exists|k: int|
            0 <= k < conns_files(tcp, meta, n).len() && (#[trigger] conns_files(
                tcp,
                meta,
                n,
            )[k]).bytes == tcp[i].c2s@,
        tcp[i].s2c@.len() > 0 ==> exists|k: int|
            0 <= k < conns_files(tcp, meta, n).len() && (#[trigger] conns_files(
                tcp,
                meta,
                n,
            )[k]).bytes == tcp[i].s2c@,
    decreases n,
{
    let m = (n - 1) as nat;
    let all = conns_files(tcp, meta, n);
    let before = conns_files(tcp, meta, m);
    let own = conn_files(tcp[n - 1], meta);
    if i < m {
        lemma_conns_files(tcp, meta, m, i);
        if tcp[i].c2s@.len() > 0 {
            let k = choose|k: int| 0 <= k < before.len() && (#[trigger] before[k]).bytes == tcp[i].c2s@;
            assert(all[k] == before[k]);
        }
        if tcp[i].s2c@.len() > 0 {
            let k = choose|k: int| 0 <= k < before.len() && (#[trigger] before[k]).bytes == tcp[i].s2c@;
            assert(all[k] == before[k]);
        }
    } else {
        law_connection_files(tcp[i], meta);
        if tcp[i].c2s@.len() > 0 {
            assert(all[before.len() as int] == own[0]);
        }
        if tcp[i].s2c@.len() > 0 {
            assert(all[before.len() + own.len() - 2] == own[own.len() - 2]);
        }
    }
}

proof fn lemma_flows_files(udp: Seq<UdpFlow>, meta: MetaParams, m: nat, j: int)
    requires
        m <= udp.len(),
        0 <= j < m,
    ensures
        flows_files(udp, meta, m).len() == 2 * m,
        flows_files(udp, meta, m)[2 * j] == flow_files(udp[j], meta)[0],
        flows_files(udp, meta, m)[2 * j + 1] == flow_files(udp[j], meta)[1],
    decreases m,
{
    let n = (m - 1) as nat;
    let all = flows_files(udp, meta, m);
    let before = flows_files(udp, meta, n);
    if n > 0 {
        lemma_flows_files(
            udp,
            meta,
            n,
            if j < n {
                j
            } else {
                0
            },
        );
    }
    if j < n {
        assert(all[2 * j] == before[2 * j] && all[2 * j + 1] == before[2 * j + 1]);
    }
}

} // verus!
