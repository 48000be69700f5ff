//! The layers of the protocol and the ports that tell them apart.
use vstd::prelude::*;

use crate::slicer::l2l4::Proto;
use crate::text::precedes;

verus! {

/// A layer of the protocol.
#[derive(Debug, Clone, Copy, PartialEq, Eq, Hash, Structural)]
pub enum Layer {
    Mdns,
    HttpControl,
    HttpsControl,
    Rtsp,
    Video,
    Control,
    Audio,
}

/// The name of a layer.
pub open spec fn layer_name(layer: Layer) -> Seq<char> {
    match layer {
        Layer::Mdns => "mdns"@,
        Layer::HttpControl => "http-control"@,
        Layer::HttpsControl => "https-control"@,
        Layer::Rtsp => "rtsp"@,
        Layer::Video => "video"@,
        Layer::Control => "control"@,
        Layer::Audio => "audio"@,
    }
}

/// The place of a layer among the names in alphabetical order.
pub open spec fn layer_rank(layer: Layer) -> int {
    match layer {
        Layer::Audio => 0,
        Layer::Control => 1,
        Layer::HttpControl => 2,
        Layer::HttpsControl => 3,
        Layer::Mdns => 4,
        Layer::Rtsp => 5,
        Layer::Video => 6,
    }
}

impl Layer {
    /// The name of the directory that fixtures of the layer go to.
    pub fn name(self) -> (r: &'static str)
        ensures
            r@ == layer_name(self),
    {
        match self {
            Layer::Mdns => "mdns",
            Layer::HttpControl => "http-control",
            Layer::HttpsControl => "https-control",
            Layer::Rtsp => "rtsp",
            Layer::Video => "video",
            Layer::Control => "control",
            Layer::Audio => "audio",
        }
    }

    /// Whether the layer runs over TCP.
    pub fn is_tcp(self) -> (r: bool)
        ensures
            r == (self == Layer::HttpControl || self == Layer::HttpsControl || self
                == Layer::Rtsp),
    {
        match self {
            Layer::HttpControl => true,
            Layer::HttpsControl => true,
            Layer::Rtsp => true,
            _ => false,
        }
    }

    /// The place of the layer among the names in alphabetical order.
    pub fn rank(self) -> (r: usize)
        ensures
            r == layer_rank(self),
            r < 7,
    {
        match self {
            Layer::Audio => 0,
            Layer::Control => 1,
            Layer::HttpControl => 2,
            Layer::HttpsControl => 3,
            Layer::Mdns => 4,
            Layer::Rtsp => 5,
            Layer::Video => 6,
        }
    }
}

/// Layers are ranked as their names are ordered.
pub proof fn law_rank_is_name_order(a: Layer, b: Layer)
    ensures
        layer_rank(a) < layer_rank(b) <==> precedes(layer_name(a), layer_name(b)),
        layer_rank(a) == layer_rank(b) <==> a == b,
{
    reveal_strlit("mdns");
    reveal_strlit("http-control");
    reveal_strlit("https-control");
    reveal_strlit("rtsp");
    reveal_strlit("video");
    reveal_strlit("control");
    reveal_strlit("audio");
    reveal_with_fuel(precedes, 6);
    if a == b {
        crate::text::lemma_precedes_not_self(layer_name(a));
    }
}

/// The layer of a packet and the port of its server.
#[derive(Debug, Clone, Copy, PartialEq, Eq, Structural)]
pub struct Class {
    pub layer: Layer,
    pub server_port: u16,
}

/// The layer of a server port.
pub open spec fn layer_of_port(proto: Proto, port: u16) -> Option<Layer> {
    match proto {
        Proto::Udp => if port == 5353 {
            Some(Layer::Mdns)
        } else if port == 47998 {
            Some(Layer::Video)
        } else if port == 47999 {
            Some(Layer::Control)
        } else if port == 48000 {
            Some(Layer::Audio)
        } else {
            None
        },
        Proto::Tcp => if port == 47984 {
            Some(Layer::HttpsControl)
        } else if port == 47989 {
            Some(Layer::HttpControl)
        } else if port == 48010 {
            Some(Layer::Rtsp)
        } else {
            None
        },
    }
}

/// The class of a packet from or to a server port: where both ports are server ports, the lower
/// one tells.
pub open spec fn class_of(proto: Proto, src_port: u16, dst_port: u16) -> Option<Class> {
    match (layer_of_port(proto, src_port), layer_of_port(proto, dst_port)) {
        (None, None) => None,
        (Some(a), None) => Some(Class { layer: a, server_port: src_port }),
        (None, Some(b)) => Some(Class { layer: b, server_port: dst_port }),
        (Some(a), Some(b)) => if src_port <= dst_port {
            Some(Class { layer: a, server_port: src_port })
        } else {
            Some(Class { layer: b, server_port: dst_port })
        },
    }
}

fn layer_for(proto: Proto, port: u16) -> (r: Option<Layer>)
    ensures
        r == layer_of_port(proto, port),
{
    match proto {
        Proto::Udp => if port == 5353 {
            Some(Layer::Mdns)
        } else if port == 47998 {
            Some(Layer::Video)
        } else if port == 47999 {
            Some(Layer::Control)
        } else if port == 48000 {
            Some(Layer::Audio)
        } else {
            None
        },
        Proto::Tcp => if port == 47984 {
            Some(Layer::HttpsControl)
        } else if port == 47989 {
            Some(Layer::HttpControl)
        } else if port == 48010 {
            Some(Layer::Rtsp)
        } else {
            None
        },
    }
}

/// The class of a packet; `None` if neither port is a server port.
pub fn classify(proto: Proto, src_port: u16, dst_port: u16) -> (r: Option<Class>)
    ensures
        r == class_of(proto, src_port, dst_port),
{
    match (layer_for(proto, src_port), layer_for(proto, dst_port)) {
        (None, None) => None,
        (Some(a), None) => Some(Class { layer: a, server_port: src_port }),
        (None, Some(b)) => Some(Class { layer: b, server_port: dst_port }),
        (Some(a), Some(b)) => if src_port <= dst_port {
            Some(Class { layer: a, server_port: src_port })
        } else {
            Some(Class { layer: b, server_port: dst_port })
        },
    }
}

/// Which way a packet goes does not change its class.
pub proof fn law_class_of_reply(proto: Proto, a: u16, b: u16)
    ensures
        class_of(proto, a, b) == class_of(proto, b, a),
{
}

/// The ports of a host: a packet between one of them and a port of a client is of its layer, and
/// one between other ports is of none.
pub proof fn law_ports(port: u16)
    requires
        port > 48010,
    ensures
        class_of(Proto::Tcp, 47984, port) == Some(
            Class { layer: Layer::HttpsControl, server_port: 47984 },
        ),
        class_of(Proto::Tcp, 47989, port) == Some(
            Class { layer: Layer::HttpControl, server_port: 47989 },
        ),
        class_of(Proto::Tcp, 48010, port) == Some(Class { layer: Layer::Rtsp, server_port: 48010 }),
        class_of(Proto::Udp, 5353, port) == Some(Class { layer: Layer::Mdns, server_port: 5353 }),
        class_of(Proto::Udp, 47998, port) == Some(Class { layer: Layer::Video, server_port: 47998 }),
        class_of(Proto::Udp, 47999, port) == Some(
            Class { layer: Layer::Control, server_port: 47999 },
        ),
        class_of(Proto::Udp, 48000, port) == Some(Class { layer: Layer::Audio, server_port: 48000 }),
        forall|other: u16|
            other != 47984 && other != 47989 && other != 48010 ==> #[trigger] class_of(
                Proto::Tcp,
                other,
                port,
            ) is None,
        forall|other: u16|
            other != 5353 && other != 47998 && other != 47999 && other != 48000
                ==> #[trigger] class_of(Proto::Udp, other, port) is None,
{
}

/// Where both ports are ports of a host, the lower one is taken for that of the host: the packet is
/// of the class of one between that port and a port of a client.
pub proof fn law_lower_port(proto: Proto, a: u16, b: u16, client: u16)
    requires
        class_of(proto, client, client) is None,
        class_of(proto, a, client) is Some,
        class_of(proto, b, client) is Some,
        a < b,
    ensures
        class_of(proto, a, b) == class_of(proto, a, client),
{
}

} // verus!
