//! The command line of the slicer and the summary that it prints.
use vstd::prelude::*;
use vstd::string::*;

use crate::slicer::layers::{layer_name, Layer};
use crate::slicer::tcp::ReassembledConn;
use crate::slicer::{LayerCounts, Slices, UdpFlow};
use crate::text::{
    begins_with, chars_of, copy_str, decimal, decimal_string, decimal_wide, same_chars, string_of,
    strip_prefix,
};

verus! {

/// What the command line asks for.
#[derive(Debug, Clone, PartialEq, Eq)]
pub struct Args {
    pub input: String,
    pub out: Option<String>,
    /// Only summarize, write nothing.
    pub list: bool,
    pub sunshine_version: String,
    pub captured: String,
    pub notes: String,
}

/// What a command line says so far.
#[verifier::ext_equal]
pub struct ArgsView {
    pub input: Option<Seq<char>>,
    pub out: Option<Seq<char>>,
    pub list: bool,
    pub sunshine_version: Seq<char>,
    pub captured: Seq<char>,
    pub notes: Seq<char>,
}

impl View for Args {
    type V = ArgsView;

    open spec fn view(&self) -> ArgsView {
        ArgsView {
            input: Some(self.input@),
            out: match self.out {
                Some(s) => Some(s@),
                None => None,
            },
            list: self.list,
            sunshine_version: self.sunshine_version@,
            captured: self.captured@,
            notes: self.notes@,
        }
    }
}

/// What an empty command line says.
pub open spec fn no_args() -> ArgsView {
    ArgsView {
        input: None,
        out: None,
        list: false,
        sunshine_version: "UNKNOWN"@,
        captured: "UNKNOWN"@,
        notes: Seq::empty(),
    }
}

/// The contents of a list of strings.
pub open spec fn arg_views(v: Seq<String>) -> Seq<Seq<char>> {
    v.map_values(|s: String| s@)
}

/// Whether a flag takes a value.
pub open spec fn takes_value(x: Seq<char>) -> bool {
    x == "--out"@ || x == "--sunshine-version"@ || x == "--captured"@ || x == "--notes"@
}

/// What is said with the value of a flag.
pub open spec fn with_value(acc: ArgsView, flag: Seq<char>, value: Seq<char>) -> ArgsView {
    if flag == "--out"@ {
        ArgsView { out: Some(value), ..acc }
    } else if flag == "--sunshine-version"@ {
        ArgsView { sunshine_version: value, ..acc }
    } else if flag == "--captured"@ {
        ArgsView { captured: value, ..acc }
    } else {
        ArgsView { notes: value, ..acc }
    }
}

/// What the arguments from `i` on add, or the text of the error.
pub open spec fn args_from(a: Seq<Seq<char>>, i: int, acc: ArgsView) -> Result<
    ArgsView,
    Seq<char>,
>
    decreases a.len() - i,
{
    if i < 0 || i >= a.len() {
        if acc.input is None {
            Err("no input pcap given"@)
        } else {
            Ok(acc)
        }
    } else {
        let x = a[i];
        if x == "--list"@ {
            args_from(a, i + 1, ArgsView { list: true, ..acc })
        } else if takes_value(x) {
            if i + 1 < a.len() {
                args_from(a, i + 2, with_value(acc, x, a[i + 1]))
            } else {
                Err(x + " needs a value"@)
            }
        } else if x == "-h"@ || x == "--help"@ {
            Err("help"@)
        } else if begins_with(x, "--"@) {
            Err("unknown flag "@ + x)
        } else if acc.input is Some {
            Err("more than one input file given"@)
        } else {
            args_from(a, i + 1, ArgsView { input: Some(x), ..acc })
        }
    }
}

fn is_word(s: &str, word: &str) -> (r: bool)
    ensures
        r == (s@ == word@),
{
    same_chars(&chars_of(s), &chars_of(word))
}

/// The optional contents of a string.
spec fn optional(s: Option<String>) -> Option<Seq<char>> {
    match s {
        Some(t) => Some(t@),
        None => None,
    }
}

/// Read the arguments of the program, its own name left out.
pub fn parse_args(args: &[String]) -> (r: Result<Args, String>)
    ensures
        match args_from(arg_views(args@), 0, no_args()) {
            Ok(v) => r matches Ok(a) && a@ == v,
            Err(t) => r matches Err(s) && s@ == t,
        },
{
    let ghost a = arg_views(args@);
    let mut input: Option<String> = None;
    let mut out: Option<String> = None;
    let mut list = false;
    let mut sunshine_version: String = copy_str("UNKNOWN");
    let mut captured: String = copy_str("UNKNOWN");
    let mut notes: String = String::new();
    let mut i: usize = 0;
    while i < args.len()
        invariant
            i <= args.len(),
            a == arg_views(args@),
            args_from(a, 0, no_args()) == args_from(
                a,
                i as int,
                ArgsView {
                    input: optional(input),
                    out: optional(out),
                    list,
                    sunshine_version: sunshine_version@,
                    captured: captured@,
                    notes: notes@,
                },
            ),
        decreases args.len() - i,
    {
        let arg = args[i].as_str();
        assert(a[i as int] == arg@);
        if is_word(arg, "--list") {
            list = true;
            i += 1;
        } else if is_word(arg, "--out") || is_word(arg, "--sunshine-version") || is_word(
            arg,
            "--captured",
        ) || is_word(arg, "--notes") {
            if i + 1 >= args.len() {
                let mut s: String = copy_str(arg);
                s.append(" needs a value");
                return Err(s);
            }
            assert(a[i + 1] == args@[i + 1]@);
            let value: String = copy_str(args[i + 1].as_str());
            if is_word(arg, "--out") {
                out = Some(value);
            } else if is_word(arg, "--sunshine-version") {
                sunshine_version = value;
            } else if is_word(arg, "--captured") {
                captured = value;
            } else {
                notes = value;
            }
            i += 2;
        } else if is_word(arg, "-h") || is_word(arg, "--help") {
            return Err(copy_str("help"));
        } else if strip_prefix(&chars_of(arg), "--").is_some() {
            let mut s: String = copy_str("unknown flag ");
            s.append(arg);
            return Err(s);
        } else if input.is_some() {
            return Err(copy_str("more than one input file given"));
        } else {
            input = Some(copy_str(arg));
            i += 1;
        }
    }
    match input {
        Some(input) => Ok(Args { input, out, list, sunshine_version, captured, notes }),
        None => Err(copy_str("no input pcap given")),
    }
}

/// `s` with spaces up to `width` characters.
pub open spec fn padded(s: Seq<char>, width: nat) -> Seq<char> {
    if s.len() >= width {
        s
    } else {
        s + Seq::new((width - s.len()) as nat, |i: int| ' ')
    }
}

/// The name of a layer in its column.
pub open spec fn layer_column(layer: Layer) -> Seq<char> {
    padded(layer_name(layer), 14)
}

/// The layers in the order of their names.
pub open spec fn ranked_layers() -> Seq<Layer> {
    seq![
        Layer::Audio,
        Layer::Control,
        Layer::HttpControl,
        Layer::HttpsControl,
        Layer::Mdns,
        Layer::Rtsp,
        Layer::Video,
    ]
}

/// A line for each of the first `n` layers of which there were packets.
pub open spec fn count_lines(counts: LayerCounts, n: nat) -> Seq<char>
    decreases n,
{
    if n == 0 {
        Seq::empty()
    } else {
        let layer = ranked_layers()[n - 1];
        let lines = count_lines(counts, (n - 1) as nat);
        if counts.of(layer) == 0 {
            lines
        } else {
            lines + "  "@ + layer_column(layer) + " "@ + decimal(counts.of(layer)) + "\n"@
        }
    }
}

/// The line of a connection.
pub open spec fn conn_line(c: ReassembledConn) -> Seq<char> {
    "  "@ + layer_column(c.layer) + " "@ + c.client_ip@ + ":"@ + decimal(c.client_port as nat)
        + " <-> :"@ + decimal(c.server_port as nat) + "   c2s "@ + decimal(c.c2s@.len())
        + " B, s2c "@ + decimal(c.s2c@.len()) + " B\n"@
}

/// The lines of the first `n` connections.
pub open spec fn conn_lines(v: Seq<ReassembledConn>, n: nat) -> Seq<char>
    decreases n,
{
    if n == 0 {
        Seq::empty()
    } else {
        conn_lines(v, (n - 1) as nat) + conn_line(v[n - 1])
    }
}

/// The bytes of the first `n` packets.
pub open spec fn total_bytes(packets: Seq<Vec<u8>>, n: nat) -> nat
    decreases n,
{
    if n == 0 {
        0
    } else {
        total_bytes(packets, (n - 1) as nat) + packets[n - 1]@.len()
    }
}

/// The line of a flow.
pub open spec fn flow_line(f: UdpFlow) -> Seq<char> {
    "  "@ + layer_column(f.layer) + " "@ + f.client_ip@ + ":"@ + decimal(f.client_port as nat)
        + " -> :"@ + decimal(f.server_port as nat) + "   "@ + decimal(f.packets@.len())
        + " datagram(s), "@ + decimal(total_bytes(f.packets@, f.packets@.len())) + " B\n"@
}

/// The lines of the first `n` flows.
pub open spec fn flow_lines(v: Seq<UdpFlow>, n: nat) -> Seq<char>
    decreases n,
{
    if n == 0 {
        Seq::empty()
    } else {
        flow_lines(v, (n - 1) as nat) + flow_line(v[n - 1])
    }
}

/// Whether no packet of any layer was seen.
pub open spec fn no_packets(counts: LayerCounts) -> bool {
    forall|l: Layer| #[trigger] counts.of(l) == 0
}

/// What a capture holds, in text form.
pub open spec fn summary_text(s: Slices) -> Seq<char> {
    let nothing = if no_packets(s.counts) {
        "  (no Sunshine-port traffic recognized)\n"@
    } else {
        Seq::empty()
    };
    let encrypted = if s.https_packets > 0 {
        "\nnote: "@ + decimal(s.https_packets as nat)
            + " encrypted HTTPS (47984) packet(s) seen but not sliced — capture the plaintext HTTP control port (47989) for those layers.\n"@
    } else {
        Seq::empty()
    };
    "capture summary (packets per layer):\n"@ + nothing + count_lines(s.counts, 7)
        + "\nreassembled:\n"@ + conn_lines(s.tcp@, s.tcp@.len()) + flow_lines(
        s.udp@,
        s.udp@.len(),
    ) + encrypted
}

fn column(layer: Layer) -> (r: String)
    ensures
        r@ == layer_column(layer),
{
    let mut chars: Vec<char> = chars_of(layer.name());
    let ghost name = chars@;
    assert(chars@ =~= name + Seq::new(0, |i: int| ' '));
    while chars.len() < 14
        invariant
            name.len() <= chars@.len(),
            name.len() < 14 ==> chars@.len() <= 14,
            name.len() >= 14 ==> chars@ == name,
            chars@ == name + Seq::new((chars@.len() - name.len()) as nat, |i: int| ' '),
        decreases 14 - chars.len(),
    {
        chars.push(' ');
        assert(chars@ =~= name + Seq::new((chars@.len() - name.len()) as nat, |i: int| ' '));
    }
    assert(chars@ =~= padded(name, 14));
    string_of(&chars)
}

fn count_of(counts: &LayerCounts, layer: Layer) -> (r: usize)
    ensures
        r == counts.of(layer),
{
    match counts.get(layer.name()) {
        Some(n) => {
            proof {
                let l = choose|l: Layer|
                    layer_name(l) == layer_name(layer) && *n == #[trigger] counts.of(l)
                        && counts.of(l) > 0;
                crate::slicer::layers::law_rank_is_name_order(l, layer);
                crate::text::lemma_precedes_not_self(layer_name(layer));
                crate::slicer::layers::law_rank_is_name_order(layer, l);
            }
            *n
        },
        None => 0,
    }
}

fn push_counts(s: &mut String, counts: &LayerCounts)
    ensures
        final(s)@ == old(s)@ + count_lines(*counts, 7),
{
    let all: [Layer; 7] = [
        Layer::Audio,
        Layer::Control,
        Layer::HttpControl,
        Layer::HttpsControl,
        Layer::Mdns,
        Layer::Rtsp,
        Layer::Video,
    ];
    assert(all@ =~= ranked_layers());
    let ghost start = s@;
    assert(start + count_lines(*counts, 0) =~= start);
    let mut i: usize = 0;
    while i < 7
        invariant
            i <= 7,
            all@ == ranked_layers(),
            s@ == start + count_lines(*counts, i as nat),
        decreases 7 - i,
    {
        let n: usize = count_of(counts, all[i]);
        if n > 0 {
            s.append("  ");
            s.append(column(all[i]).as_str());
            s.append(" ");
            s.append(decimal_string(n as u64).as_str());
            s.append("\n");
        }
        i += 1;
        assert(s@ =~= start + count_lines(*counts, i as nat));
    }
}

fn push_conn(s: &mut String, c: &ReassembledConn)
    ensures
        final(s)@ == old(s)@ + conn_line(*c),
{
    s.append("  ");
    s.append(column(c.layer).as_str());
    s.append(" ");
    s.append(c.client_ip.as_str());
    s.append(":");
    s.append(decimal_string(c.client_port as u64).as_str());
    s.append(" <-> :");
    s.append(decimal_string(c.server_port as u64).as_str());
    s.append("   c2s ");
    s.append(decimal_string(c.c2s.len() as u64).as_str());
    s.append(" B, s2c ");
    s.append(decimal_string(c.s2c.len() as u64).as_str());
    s.append(" B\n");
    assert(s@ =~= old(s)@ + conn_line(*c));
}

fn byte_total(packets: &Vec<Vec<u8>>) -> (r: u128)
    ensures
        r == total_bytes(packets@, packets@.len()),
{
    let mut sum: u128 = 0;
    let mut i: usize = 0;
    while i < packets.len()
        invariant
            i <= packets.len(),
            sum == total_bytes(packets@, i as nat),
            sum <= i * 0xffff_ffff_ffff_ffff,
        decreases packets.len() - i,
    {
        assert(i * 0xffff_ffff_ffff_ffff + 0xffff_ffff_ffff_ffff == (i + 1) * 0xffff_ffff_ffff_ffff
            && (i + 1) * 0xffff_ffff_ffff_ffff <= u128::MAX) by (nonlinear_arith)
            requires
                0 <= i < 0xffff_ffff_ffff_ffff,
        ;
        sum = sum + packets[i].len() as u128;
        i += 1;
    }
    sum
}

fn push_flow(s: &mut String, f: &UdpFlow)
    ensures
        final(s)@ == old(s)@ + flow_line(*f),
{
    s.append("  ");
    s.append(column(f.layer).as_str());
    s.append(" ");
    s.append(f.client_ip.as_str());
    s.append(":");
    s.append(decimal_string(f.client_port as u64).as_str());
    s.append(" -> :");
    s.append(decimal_string(f.server_port as u64).as_str());
    s.append("   ");
    s.append(decimal_string(f.packets.len() as u64).as_str());
    s.append(" datagram(s), ");
    s.append(decimal_wide(byte_total(&f.packets)).as_str());
    s.append(" B\n");
    assert(s@ =~= old(s)@ + flow_line(*f));
}

/// What a capture holds, in text form.
pub fn summary(s: &Slices) -> (r: String)
    ensures
        r@ == summary_text(*s),
{
    let mut out: String = copy_str("capture summary (packets per layer):\n");
    let ghost title = out@;
    let empty = count_of(&s.counts, Layer::Audio) == 0 && count_of(&s.counts, Layer::Control) == 0
        && count_of(&s.counts, Layer::HttpControl) == 0 && count_of(
        &s.counts,
        Layer::HttpsControl,
    ) == 0 && count_of(&s.counts, Layer::Mdns) == 0 && count_of(&s.counts, Layer::Rtsp) == 0
        && count_of(&s.counts, Layer::Video) == 0;
    assert(empty == no_packets(s.counts)) by {
        if empty {
            assert forall|l: Layer| #[trigger] s.counts.of(l) == 0 by {
                match l {
                    Layer::Audio => {},
                    Layer::Control => {},
                    Layer::HttpControl => {},
                    Layer::HttpsControl => {},
                    Layer::Mdns => {},
                    Layer::Rtsp => {},
                    Layer::Video => {},
                }
            }
        }
    }
    if empty {
        out.append("  (no Sunshine-port traffic recognized)\n");
    } else {
        assert(out@ =~= title + Seq::empty());
    }
    push_counts(&mut out, &s.counts);
    out.append("\nreassembled:\n");
    let ghost start = out@;
    assert(start + conn_lines(s.tcp@, 0) =~= start);
    let mut i: usize = 0;
    while i < s.tcp.len()
        invariant
            i <= s.tcp.len(),
            out@ == start + conn_lines(s.tcp@, i as nat),
        decreases s.tcp.len() - i,
    {
        push_conn(&mut out, &s.tcp[i]);
        i += 1;
        assert(out@ =~= start + conn_lines(s.tcp@, i as nat));
    }
    let ghost conns = out@;
    assert(conns + flow_lines(s.udp@, 0) =~= conns);
    let mut i: usize = 0;
    while i < s.udp.len()
        invariant
            i <= s.udp.len(),
            out@ == conns + flow_lines(s.udp@, i as nat),
        decreases s.udp.len() - i,
    {
        push_flow(&mut out, &s.udp[i]);
        i += 1;
        assert(out@ =~= conns + flow_lines(s.udp@, i as nat));
    }
    let ghost flows = out@;
    if s.https_packets > 0 {
        out.append("\nnote: ");
        out.append(decimal_string(s.https_packets as u64).as_str());
        out.append(
            " encrypted HTTPS (47984) packet(s) seen but not sliced — capture the plaintext HTTP control port (47989) for those layers.\n",
        );
        assert(out@ =~= flows + ("\nnote: "@ + decimal(s.https_packets as nat)
            + " encrypted HTTPS (47984) packet(s) seen but not sliced — capture the plaintext HTTP control port (47989) for those layers.\n"@));
    } else {
        assert(out@ =~= flows + Seq::empty());
    }
    out
}

/// A name in its column is followed by spaces up to the width of the column.
pub proof fn law_padded(s: Seq<char>, width: nat)
    ensures
        padded(s, width).len() == if s.len() < width {
            width
        } else {
            s.len()
        },
        padded(s, width).take(s.len() as int) == s,
        forall|i: int| s.len() <= i < padded(s, width).len() ==> #[trigger] padded(s, width)[i] == ' ',
{
    assert(padded(s, width).take(s.len() as int) =~= s);
}

/// A flag is told from the others by a letter of its name.
proof fn lemma_flags()
    ensures
        "--list"@ != "--out"@,
        "--list"@ != "--sunshine-version"@,
        "--list"@ != "--captured"@,
        "--list"@ != "--notes"@,
        "--out"@ != "--sunshine-version"@,
        "--out"@ != "--captured"@,
        "--out"@ != "--notes"@,
        "--sunshine-version"@ != "--captured"@,
        "--sunshine-version"@ != "--notes"@,
        "--captured"@ != "--notes"@,
{
    reveal_strlit("--list");
    reveal_strlit("--out");
    reveal_strlit("--sunshine-version");
    reveal_strlit("--captured");
    reveal_strlit("--notes");
    assert("--list"@[2] == 'l' && "--out"@[2] == 'o' && "--sunshine-version"@[2] == 's'
        && "--captured"@[2] == 'c' && "--notes"@[2] == 'n');
}

/// Each flag with a value says its own thing and leaves the others, wherever it stands; the flag
/// without a value takes none of the arguments after it.
pub proof fn law_flags(a: Seq<Seq<char>>, i: int, said: ArgsView)
    requires
        0 <= i && i + 1 < a.len(),
    ensures
        a[i] == "--out"@ ==> args_from(a, i, said) == args_from(
            a,
            i + 2,
            ArgsView { out: Some(a[i + 1]), ..said },
        ),
        a[i] == "--sunshine-version"@ ==> args_from(a, i, said) == args_from(
            a,
            i + 2,
            ArgsView { sunshine_version: a[i + 1], ..said },
        ),
        a[i] == "--captured"@ ==> args_from(a, i, said) == args_from(
            a,
            i + 2,
            ArgsView { captured: a[i + 1], ..said },
        ),
        a[i] == "--notes"@ ==> args_from(a, i, said) == args_from(
            a,
            i + 2,
            ArgsView { notes: a[i + 1], ..said },
        ),
        a[i] == "--list"@ ==> args_from(a, i, said) == args_from(
            a,
            i + 1,
            ArgsView { list: true, ..said },
        ),
{
    lemma_flags();
}

/// A command line of files alone names exactly one.
pub proof fn law_one_input(name: Seq<char>, other: Seq<char>)
    requires
        name.len() > 0 && name[0] != '-',
        other.len() > 0 && other[0] != '-',
    ensures
        args_from(seq![name], 0, no_args()) matches Ok(said) && said.input == Some(name)
            && said.out is None && !said.list,
        args_from(seq![name, other], 0, no_args()) is Err,
        args_from(Seq::empty(), 0, no_args()) is Err,
{
    reveal_strlit("--list");
    reveal_strlit("--out");
    reveal_strlit("--sunshine-version");
    reveal_strlit("--captured");
    reveal_strlit("--notes");
    reveal_strlit("-h");
    reveal_strlit("--help");
    reveal_strlit("--");
    reveal_with_fuel(args_from, 3);
    assert("--list"@[0] == '-' && "--out"@[0] == '-' && "--sunshine-version"@[0] == '-'
        && "--captured"@[0] == '-' && "--notes"@[0] == '-' && "-h"@[0] == '-' && "--help"@[0] == '-'
        && "--"@[0] == '-');
    lemma_no_flag(name);
    lemma_no_flag(other);
}

proof fn lemma_no_flag(x: Seq<char>)
    requires
        x.len() > 0 && x[0] != '-',
    ensures
        !begins_with(x, "--"@),
{
    reveal_strlit("--");
    assert("--"@[0] == '-');
    if begins_with(x, "--"@) {
        assert(x.take("--"@.len() as int)[0] == x[0]);
    }
}

} // verus!
