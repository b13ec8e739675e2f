//! DRGB HID controllers: the model table, channel naming, output layout and the framing
//! of a color frame into HID reports for the four protocol versions.
use vstd::prelude::*;
use crate::layout::{Color, OutputCapabilities, OutputPortDefinition, SegmentType, rgb_bytes, rgb_vec};
use crate::text::{append_decimal, decimal, owned};

verus! {

/// A DRGB model: name, channel count, LEDs per channel and protocol version.
#[derive(Debug)]
pub struct DrgbConfig {
    pub name: &'static str,
    pub num_channels: usize,
    pub leds_per_channel: usize,
    pub version: u8,
}

/// The model a product id names: name, channels, LEDs per channel, protocol version.
pub open spec fn drgb_model(pid: u16) -> Option<(Seq<char>, usize, usize, u8)> {
    if pid == 0x3608 { Some(("DRGB LED V4"@, 8, 10, 4)) }
    else if pid == 0x3616 { Some(("DRGB ULTRA V4F"@, 16, 10, 4)) }
    else if pid == 0x3628 { Some(("DRGB CORE V4F"@, 32, 10, 4)) }
    else if pid == 0x3636 { Some(("DRGB SIG V4F"@, 36, 10, 4)) }
    else if pid == 0x3204 { Some(("Airgoo AG-DRGB04"@, 4, 10, 4)) }
    else if pid == 0x3216 { Some(("Airgoo AG-DRGB16"@, 16, 10, 4)) }
    else if pid == 0x3208 { Some(("DRGB LED V5"@, 8, 10, 4)) }
    else if pid == 0x3215 { Some(("DRGB ULTRA V5"@, 16, 10, 4)) }
    else if pid == 0x3217 { Some(("DRGB ULTRA V5F"@, 16, 10, 4)) }
    else if pid == 0x3228 { Some(("DRGB CORE V5"@, 32, 10, 4)) }
    else if pid == 0x3229 { Some(("DRGB CORE V5F"@, 32, 10, 4)) }
    else if pid == 0x3232 { Some(("DRGB SIG V5F"@, 32, 10, 4)) }
    else if pid == 0x1209 { Some(("DRGB LED V3"@, 8, 10, 3)) }
    else if pid == 0x1221 { Some(("DRGB Ultra V3"@, 16, 10, 3)) }
    else if pid == 0x1226 { Some(("DRGB CORE V3"@, 30, 10, 3)) }
    else if pid == 0x1408 { Some(("DRGB ELITE"@, 8, 10, 1)) }
    else if pid == 0x1410 { Some(("NEEDMAX 10 ELITE"@, 10, 10, 1)) }
    else if pid == 0x1412 { Some(("JPU ELITE"@, 12, 10, 1)) }
    else if pid == 0x1208 { Some(("DRGB LED Controller"@, 8, 10, 2)) }
    else if pid == 0x1220 { Some(("DRGB ULTRA"@, 16, 10, 2)) }
    else if pid == 0x1210 { Some(("DRGB SIG AB"@, 16, 10, 2)) }
    else if pid == 0x1211 { Some(("DRGB SIG CD"@, 6, 10, 2)) }
    else if pid == 0x1215 { Some(("DRGB Strimer Controller"@, 6, 10, 2)) }
    else if pid == 0x6077 { Some(("YICO 8 ELITE"@, 8, 10, 3)) }
    else if pid == 0x6078 { Some(("YICO 08 ELITE"@, 8, 10, 3)) }
    else if pid == 0x6079 { Some(("YICO 08 ELITE"@, 8, 10, 3)) }
    else { None }
}

fn model(name: &'static str, num_channels: usize, version: u8) -> (c: DrgbConfig)
    ensures
        c.name@ == name@ && c.num_channels == num_channels && c.leds_per_channel == 10 && c.version == version,
{
    DrgbConfig { name, num_channels, leds_per_channel: 10, version }
}

/// The model a product id names.
pub fn get_drgb_config(pid: u16) -> (r: Option<DrgbConfig>)
    ensures
        match (r, drgb_model(pid)) {
            (Some(c), Some(m)) => c.name@ == m.0 && c.num_channels == m.1 && c.leds_per_channel == m.2 && c.version == m.3,
            (None, None) => true,
            _ => false,
        },
{
    proof {
        reveal_strlit("DRGB LED V4");
    }
    if pid == 0x3608 { Some(model("DRGB LED V4", 8, 4)) }
    else if pid == 0x3616 { Some(model("DRGB ULTRA V4F", 16, 4)) }
    else if pid == 0x3628 { Some(model("DRGB CORE V4F", 32, 4)) }
    else if pid == 0x3636 { Some(model("DRGB SIG V4F", 36, 4)) }
    else if pid == 0x3204 { Some(model("Airgoo AG-DRGB04", 4, 4)) }
    else if pid == 0x3216 { Some(model("Airgoo AG-DRGB16", 16, 4)) }
    else if pid == 0x3208 { Some(model("DRGB LED V5", 8, 4)) }
    else if pid == 0x3215 { Some(model("DRGB ULTRA V5", 16, 4)) }
    else if pid == 0x3217 { Some(model("DRGB ULTRA V5F", 16, 4)) }
    else if pid == 0x3228 { Some(model("DRGB CORE V5", 32, 4)) }
    else if pid == 0x3229 { Some(model("DRGB CORE V5F", 32, 4)) }
    else if pid == 0x3232 { Some(model("DRGB SIG V5F", 32, 4)) }
    else if pid == 0x1209 { Some(model("DRGB LED V3", 8, 3)) }
    else if pid == 0x1221 { Some(model("DRGB Ultra V3", 16, 3)) }
    else if pid == 0x1226 { Some(model("DRGB CORE V3", 30, 3)) }
    else if pid == 0x1408 { Some(model("DRGB ELITE", 8, 1)) }
    else if pid == 0x1410 { Some(model("NEEDMAX 10 ELITE", 10, 1)) }
    else if pid == 0x1412 { Some(model("JPU ELITE", 12, 1)) }
    else if pid == 0x1208 { Some(model("DRGB LED Controller", 8, 2)) }
    else if pid == 0x1220 { Some(model("DRGB ULTRA", 16, 2)) }
    else if pid == 0x1210 { Some(model("DRGB SIG AB", 16, 2)) }
    else if pid == 0x1211 { Some(model("DRGB SIG CD", 6, 2)) }
    else if pid == 0x1215 { Some(model("DRGB Strimer Controller", 6, 2)) }
    else if pid == 0x6077 { Some(model("YICO 8 ELITE", 8, 3)) }
    else if pid == 0x6078 { Some(model("YICO 08 ELITE", 8, 3)) }
    else if pid == 0x6079 { Some(model("YICO 08 ELITE", 8, 3)) }
    else { None }
}

/// Whether a USB vendor id is one that DRGB devices use.
pub fn is_drgb_vendor(vid: u16) -> (b: bool)
    ensures
        b == (vid == 0x2486 || vid == 0x2023 || vid == 0x1368),
{
    vid == 0x2486 || vid == 0x2023 || vid == 0x1368
}

/// The display name of channel `idx` on a controller with `n` channels.
pub open spec fn drgb_channel_name(n: usize, idx: usize) -> Seq<char> {
    if n == 6 && idx == 0 {
        "Strimer ATX"@ + decimal(idx as nat + 1)
    } else if n == 6 && idx < 3 {
        "Channel C"@ + decimal(idx as nat)
    } else if n == 6 && idx == 3 {
        "Strimer GPU1"@
    } else if n == 6 && idx < 6 {
        "Channel D"@ + decimal((idx - 3) as nat)
    } else if n == 10 || n == 12 {
        "Channel "@ + decimal(idx as nat + 1)
    } else if idx < 8 {
        "Channel A"@ + decimal(idx as nat + 1)
    } else if idx < 16 {
        "Channel B"@ + decimal((idx - 7) as nat)
    } else if n == 30 && idx < 24 {
        "Channel C"@ + decimal((idx - 15) as nat)
    } else if n == 30 && idx < 30 {
        "Channel D"@ + decimal((idx - 23) as nat)
    } else if idx < 22 {
        "Channel C"@ + decimal((idx - 15) as nat)
    } else if idx < 28 {
        "Channel D"@ + decimal((idx - 21) as nat)
    } else if idx < 36 {
        "Channel E"@ + decimal((idx - 27) as nat)
    } else {
        "Channel "@ + decimal(idx as nat + 1)
    }
}

fn prefixed(prefix: &str, n: usize) -> (s: String)
    ensures
        s@ == prefix@ + decimal(n as nat),
{
    let mut s = owned(prefix);
    append_decimal(&mut s, n);
    s
}

/// The display name of channel `idx` on a controller with `num_channels` channels.
pub fn drgb_output_name(num_channels: usize, channel_idx: usize) -> (s: String)
    requires
        channel_idx < usize::MAX,
    ensures
        s@ == drgb_channel_name(num_channels, channel_idx),
{
    let n = num_channels;
    let i = channel_idx;
    if n == 6 {
        if i == 0 {
            return prefixed("Strimer ATX", i + 1);
        }
        if i < 3 {
            return prefixed("Channel C", i);
        }
        if i == 3 {
            return owned("Strimer GPU1");
        }
        if i < 6 {
            return prefixed("Channel D", i - 3);
        }
    }
    if n == 10 || n == 12 {
        return prefixed("Channel ", i + 1);
    }
    if i < 8 {
        return prefixed("Channel A", i + 1);
    }
    if i < 16 {
        return prefixed("Channel B", i - 7);
    }
    if n == 30 {
        if i < 24 {
            return prefixed("Channel C", i - 15);
        }
        if i < 30 {
            return prefixed("Channel D", i - 23);
        }
    }
    if i < 22 {
        return prefixed("Channel C", i - 15);
    }
    if i < 28 {
        return prefixed("Channel D", i - 21);
    }
    if i < 36 {
        return prefixed("Channel E", i - 27);
    }
    prefixed("Channel ", i + 1)
}

/// The output of channel `i`: a linear, editable strip of `leds_per_channel` LEDs whose
/// segments may cover up to all of them.
pub open spec fn drgb_output_is(def: OutputPortDefinition, c: DrgbConfig, i: int) -> bool {
    &&& def.id@ == "channel_"@ + decimal(i as nat)
    &&& def.name@ == drgb_channel_name(c.num_channels, i as usize)
    &&& def.output_type == SegmentType::Linear
    &&& def.leds_count == c.leds_per_channel
    &&& def.matrix is None
    &&& def.capabilities.editable
    &&& def.capabilities.min_total_leds == 0
    &&& def.capabilities.max_total_leds == c.leds_per_channel
    &&& def.capabilities.allowed_total_leds is None
    &&& def.capabilities.allowed_segment_types@ == seq![SegmentType::Linear]
}

/// The outputs of a DRGB controller: one per channel.
pub fn drgb_outputs(config: &DrgbConfig) -> (r: Vec<OutputPortDefinition>)
    ensures
        r@.len() == config.num_channels,
        forall|i: int| 0 <= i < r@.len() ==> drgb_output_is(#[trigger] r@[i], *config, i),
{
    let mut outputs: Vec<OutputPortDefinition> = Vec::new();
    let mut i: usize = 0;
    while i < config.num_channels
        invariant
            i <= config.num_channels,
            outputs@.len() == i,
            forall|a: int| 0 <= a < i ==> drgb_output_is(#[trigger] outputs@[a], *config, a),
        decreases config.num_channels - i,
    {
        let types = vec![SegmentType::Linear];
        assert(types@ =~= seq![SegmentType::Linear]);
        outputs.push(OutputPortDefinition {
            id: prefixed("channel_", i),
            name: drgb_output_name(config.num_channels, i),
            output_type: SegmentType::Linear,
            leds_count: config.leds_per_channel,
            matrix: None,
            capabilities: OutputCapabilities {
                editable: true,
                min_total_leds: 0,
                max_total_leds: config.leds_per_channel,
                allowed_total_leds: None,
                allowed_segment_types: types,
            },
        });
        i = i + 1;
    }
    outputs
}

/// The byte at `i`, zero past the end.
pub open spec fn byte_or_zero(s: Seq<u8>, i: int) -> u8 {
    if 0 <= i < s.len() { s[i] } else { 0 }
}

/// `n` bytes of `s` from `start`, zero past the end.
pub open spec fn window(s: Seq<u8>, start: int, n: nat) -> Seq<u8> {
    Seq::new(n, |k: int| byte_or_zero(s, start + k))
}

/// The report id of packet `i` of `n` in a framed stream opened by `array`.
pub open spec fn fs_packet_id(array: u8, i: int, n: int, last_offset: u8) -> u8 {
    if i == n - 1 { ((array + last_offset + i) % 256) as u8 } else { ((array + i) % 256) as u8 }
}

/// The reports that carry `payload` in `n` packets of 63 bytes, opened by `array`.
pub open spec fn fs_reports(payload: Seq<u8>, n: nat, array: u8, last_offset: u8) -> Seq<Seq<u8>> {
    Seq::new(n, |i: int| seq![0u8, fs_packet_id(array, i, n as int, last_offset)] + window(payload, i * 63, 63))
}

/// The single report that carries 64 bytes of `payload`.
pub open spec fn direct_report(payload: Seq<u8>) -> Seq<u8> {
    seq![0u8] + window(payload, 0, 64)
}

/// `ceil(a / b)`.
pub open spec fn ceil_div(a: nat, b: nat) -> nat {
    (a / b + if a % b > 0 { 1nat } else { 0nat }) as nat
}

/// The header of the V1 and V3 protocols: opener, 0xBB, then each channel's LED count
/// (high, low) for up to 31 channels.
pub open spec fn zone_header(opener: u8, num_channels: usize, leds: usize) -> Seq<u8> {
    Seq::new(64, |k: int| if k == 0 {
        opener
    } else if k == 1 {
        0xBBu8
    } else if k < 2 + 2 * (if num_channels < 31 { num_channels as int } else { 31 }) {
        if k % 2 == 0 { ((leds / 256) % 256) as u8 } else { (leds % 256) as u8 }
    } else {
        0u8
    })
}

/// The V4 header: each of up to 36 channels' LED count (high, low).
pub open spec fn v4_header(num_channels: usize, leds: usize) -> Seq<u8> {
    Seq::new(72, |k: int| if k < 2 * (if num_channels < 36 { num_channels as int } else { 36 }) {
        if k % 2 == 0 { ((leds / 256) % 256) as u8 } else { (leds % 256) as u8 }
    } else {
        0u8
    })
}

/// The number of V4 packets for `total` LEDs: one of 316, then 340 each.
pub open spec fn v4_packets(total: nat) -> nat {
    if total > 316 { 1 + ceil_div((total - 316) as nat, 340) } else { 1 }
}

/// The counter state (high, low, remaining) of V4 packet `i`.
pub open spec fn v4_state(total: usize, i: nat) -> (u8, u8, usize)
    decreases i,
{
    if i == 0 {
        (
            if total / 256 >= 1 { 1u8 } else { 0u8 },
            if total >= 316 { 60u8 } else { (total % 256) as u8 },
            if total > 316 { (total - 316) as usize } else { 0usize },
        )
    } else {
        let s = v4_state(total, (i - 1) as nat);
        let cur = s.2;
        if cur > 0 {
            (
                if cur / 256 >= 1 { 1u8 } else { 0u8 },
                if cur >= 340 { 84u8 } else { (cur % 256) as u8 },
                if cur > 340 { (cur - 340) as usize } else { 0usize },
            )
        } else {
            s
        }
    }
}

/// The V4 reports for `total` LEDs carrying `data`.
pub open spec fn v4_reports(data: Seq<u8>, total: usize) -> Seq<Seq<u8>> {
    let n = v4_packets(total as nat);
    Seq::new(n, |i: int| seq![0u8, ((i + 100) % 256) as u8, ((n + 99) % 256) as u8, v4_state(total, i as nat).0,
        v4_state(total, i as nat).1] + window(data, i * 1020, 1020))
}

/// The V2 reports of one channel's bytes `zone` (channel `z`, `lednum` LEDs).
pub open spec fn v2_zone_reports(zone: Seq<u8>, z: int, lednum: nat) -> Seq<Seq<u8>> {
    let n = ceil_div(lednum, 20);
    Seq::new(n, |p: int| direct_report(seq![((p + 1) % 256) as u8, (n % 256) as u8, (z % 256) as u8, 0xBBu8] + window(zone, p * 60, 60)))
}

/// The colors that go out: at most one frame's worth.
pub open spec fn sent_colors(colors: Seq<Color>, expected: int) -> Seq<Color> {
    if colors.len() > expected { colors.take(expected) } else { colors }
}

/// The V2 reports of channels `0..z`.
pub open spec fn v2_reports(colors: Seq<Color>, lpc: usize, z: nat) -> Seq<Seq<u8>>
    decreases z,
{
    if z == 0 {
        Seq::empty()
    } else {
        let zz = (z - 1) as nat;
        let start = zz * lpc;
        if start >= colors.len() {
            v2_reports(colors, lpc, zz)
        } else {
            let end = if start + lpc < colors.len() { start + lpc } else { colors.len() as int };
            v2_reports(colors, lpc, zz) + v2_zone_reports(rgb_bytes(colors.subrange(start, end)), zz as int, (end - start) as nat)
        }
    }
}

/// The HID reports that send one frame, or the error for an unknown protocol version.
pub open spec fn drgb_frame_reports(c: DrgbConfig, colors: Seq<Color>) -> Result<Seq<Seq<u8>>, Seq<char>> {
    let sent = sent_colors(colors, c.num_channels * c.leds_per_channel);
    let total = sent.len();
    let bytes = rgb_bytes(sent);
    if c.version == 4 {
        Ok(v4_reports(v4_header(c.num_channels, c.leds_per_channel) + bytes, total as usize))
    } else if c.version == 3 {
        Ok(seq![direct_report(zone_header(0x60, c.num_channels, c.leds_per_channel))] + fs_reports(
            bytes,
            ceil_div(total, 21),
            0x64,
            100,
        ))
    } else if c.version == 2 {
        Ok(v2_reports(sent, c.leds_per_channel, c.num_channels as nat))
    } else if c.version == 1 {
        Ok(seq![direct_report(zone_header(0x46, c.num_channels, c.leds_per_channel))] + fs_reports(
            bytes,
            ceil_div(total, 21),
            0x47,
            92,
        ))
    } else {
        Err("Unsupported DRGB protocol version: "@ + decimal(c.version as nat))
    }
}

/// `n` bytes of `s` from `start`, zero past the end.
fn window_vec(s: &Vec<u8>, start: usize, n: usize) -> (r: Vec<u8>)
    ensures
        r@ == window(s@, start as int, n as nat),
{
    let mut r: Vec<u8> = Vec::new();
    let mut k: usize = 0;
    while k < n
        invariant
            k <= n,
            r@ == window(s@, start as int, k as nat),
        decreases n - k,
    {
        let b = if start < s.len() && k < s.len() - start { s[start + k] } else { 0u8 };
        r.push(b);
        proof {
            assert(r@ =~= window(s@, start as int, (k + 1) as nat));
        }
        k = k + 1;
    }
    r
}

/// The report that carries 64 bytes of `payload`.
fn direct_report_vec(payload: &Vec<u8>) -> (r: Vec<u8>)
    ensures
        r@ == direct_report(payload@),
{
    let mut r: Vec<u8> = vec![0u8];
    let w = window_vec(payload, 0, 64);
    let mut k: usize = 0;
    while k < w.len()
        invariant
            k <= w@.len(),
            r@ == seq![0u8] + w@.take(k as int),
        decreases w.len() - k,
    {
        r.push(w[k]);
        proof {
            assert(r@ =~= seq![0u8] + w@.take(k + 1));
        }
        k = k + 1;
    }
    proof {
        assert(w@.take(k as int) =~= w@);
    }
    r
}

/// Joins a short prefix and a window into one report.
fn report_with(prefix: Vec<u8>, body: &Vec<u8>) -> (r: Vec<u8>)
    ensures
        r@ == prefix@ + body@,
{
    let mut r = prefix;
    let ghost p = r@;
    let mut k: usize = 0;
    while k < body.len()
        invariant
            k <= body@.len(),
            r@ == p + body@.take(k as int),
        decreases body.len() - k,
    {
        r.push(body[k]);
        proof {
            assert(r@ =~= p + body@.take(k + 1));
        }
        k = k + 1;
    }
    proof {
        assert(body@.take(k as int) =~= body@);
    }
    r
}

/// The reports that carry `payload` in `n` packets of 63 bytes, opened by `array`.
fn fs_reports_vec(payload: &Vec<u8>, n: usize, array: u8, last_offset: u8, out: &mut Vec<Vec<u8>>)
    requires
        n * 63 <= usize::MAX,
    ensures
        reports_view(final(out)@) == reports_view(old(out)@) + fs_reports(payload@, n as nat, array, last_offset),
{
    let ghost start = reports_view(out@);
    let mut i: usize = 0;
    while i < n
        invariant
            i <= n,
            n * 63 <= usize::MAX,
            reports_view(out@) == start + fs_reports(payload@, n as nat, array, last_offset).take(i as int),
        decreases n - i,
    {
        let id: u8 = if i == n - 1 {
            ((array as usize + last_offset as usize + i) % 256) as u8
        } else {
            ((array as usize + i) % 256) as u8
        };
        assert(i * 63 <= n * 63) by (nonlinear_arith)
            requires
                i < n,
        ;
        let w = window_vec(payload, i * 63, 63);
        let rep = report_with(vec![0u8, id], &w);
        let ghost before = reports_view(out@);
        out.push(rep);
        proof {
            let f = fs_reports(payload@, n as nat, array, last_offset);
            assert(vec_u8_seq(seq![0u8, id]) == seq![0u8, id]);
            assert(rep@ =~= f[i as int]);
            assert(reports_view(out@) =~= before.push(f[i as int]));
            assert(f.take(i + 1) =~= f.take(i as int).push(f[i as int]));
        }
        i = i + 1;
    }
    proof {
        assert(fs_reports(payload@, n as nat, array, last_offset).take(i as int) =~= fs_reports(payload@, n as nat, array, last_offset));
    }
}

/// Identity on byte sequences (names the view of a vector literal).
pub open spec fn vec_u8_seq(s: Seq<u8>) -> Seq<u8> {
    s
}

/// The views of a list of reports.
pub open spec fn reports_view(s: Seq<Vec<u8>>) -> Seq<Seq<u8>> {
    Seq::new(s.len(), |i: int| s[i]@)
}

/// The header of the V1 and V3 protocols.
fn zone_header_vec(opener: u8, num_channels: usize, leds: usize) -> (r: Vec<u8>)
    ensures
        r@ == zone_header(opener, num_channels, leds),
{
    let limit: usize = 2 + 2 * (if num_channels < 31 { num_channels } else { 31 });
    let mut r: Vec<u8> = Vec::new();
    let mut k: usize = 0;
    while k < 64
        invariant
            k <= 64,
            limit == 2 + 2 * (if num_channels < 31 { num_channels as int } else { 31 }),
            r@ == zone_header(opener, num_channels, leds).take(k as int),
        decreases 64 - k,
    {
        let b: u8 = if k == 0 {
            opener
        } else if k == 1 {
            0xBB
        } else if k < limit {
            if k % 2 == 0 { ((leds / 256) % 256) as u8 } else { (leds % 256) as u8 }
        } else {
            0
        };
        r.push(b);
        proof {
            assert(r@ =~= zone_header(opener, num_channels, leds).take(k + 1));
        }
        k = k + 1;
    }
    proof {
        assert(zone_header(opener, num_channels, leds).take(64) =~= zone_header(opener, num_channels, leds));
    }
    r
}

/// The V4 header.
fn v4_header_vec(num_channels: usize, leds: usize) -> (r: Vec<u8>)
    ensures
        r@ == v4_header(num_channels, leds),
{
    let limit: usize = 2 * (if num_channels < 36 { num_channels } else { 36 });
    let mut r: Vec<u8> = Vec::new();
    let mut k: usize = 0;
    while k < 72
        invariant
            k <= 72,
            limit == 2 * (if num_channels < 36 { num_channels as int } else { 36 }),
            r@ == v4_header(num_channels, leds).take(k as int),
        decreases 72 - k,
    {
        let b: u8 = if k < limit {
            if k % 2 == 0 { ((leds / 256) % 256) as u8 } else { (leds % 256) as u8 }
        } else {
            0
        };
        r.push(b);
        proof {
            assert(r@ =~= v4_header(num_channels, leds).take(k + 1));
        }
        k = k + 1;
    }
    proof {
        assert(v4_header(num_channels, leds).take(72) =~= v4_header(num_channels, leds));
    }
    r
}

/// The V4 reports for `total` LEDs carrying `data`.
fn v4_reports_vec(data: &Vec<u8>, total: usize, out: &mut Vec<Vec<u8>>)
    requires
        total <= 0x10_0000,
    ensures
        reports_view(final(out)@) == reports_view(old(out)@) + v4_reports(data@, total),
{
    let ghost start = reports_view(out@);
    let n: usize = if total > 316 { 1 + ((total - 316) / 340 + if (total - 316) % 340 > 0 { 1 } else { 0 }) } else { 1 };
    let mut hig: u8 = if total / 256 >= 1 { 1 } else { 0 };
    let mut low: u8 = if total >= 316 { 60 } else { (total % 256) as u8 };
    let mut cur: usize = if total > 316 { total - 316 } else { 0 };
    let mut i: usize = 0;
    while i < n
        invariant
            n == v4_packets(total as nat),
            n <= 0x1_0000,
            i <= n,
            (hig, low, cur) == v4_state(total, i as nat),
            reports_view(out@) == start + v4_reports(data@, total).take(i as int),
        decreases n - i,
    {
        let w = window_vec(data, i * 1020, 1020);
        let rep = report_with(vec![0u8, ((i + 100) % 256) as u8, ((n + 99) % 256) as u8, hig, low], &w);
        let ghost before = reports_view(out@);
        out.push(rep);
        proof {
            let f = v4_reports(data@, total);
            assert(rep@ =~= f[i as int]);
            assert(reports_view(out@) =~= before.push(f[i as int]));
            assert(f.take(i + 1) =~= f.take(i as int).push(f[i as int]));
        }
        if cur > 0 {
            hig = if cur / 256 >= 1 { 1 } else { 0 };
            low = if cur >= 340 { 84 } else { (cur % 256) as u8 };
            cur = if cur > 340 { cur - 340 } else { 0 };
        }
        i = i + 1;
    }
    proof {
        assert(v4_reports(data@, total).take(i as int) =~= v4_reports(data@, total));
    }
}

/// The V2 reports of channels `0..num_channels`.
fn v2_reports_vec(colors: &[Color], lpc: usize, num_channels: usize, out: &mut Vec<Vec<u8>>)
    requires
        num_channels * lpc <= usize::MAX,
        3 * colors@.len() + 72 <= usize::MAX,
    ensures
        reports_view(final(out)@) == reports_view(old(out)@) + v2_reports(colors@, lpc, num_channels as nat),
{
    let ghost start = reports_view(out@);
    let mut z: usize = 0;
    while z < num_channels
        invariant
            z <= num_channels,
            num_channels * lpc <= usize::MAX,
            3 * colors@.len() + 72 <= usize::MAX,
            reports_view(out@) == start + v2_reports(colors@, lpc, z as nat),
        decreases num_channels - z,
    {
        assert((z + 1) * lpc <= num_channels * lpc) by (nonlinear_arith)
            requires
                z < num_channels,
        ;
        assert((z + 1) * lpc == z * lpc + lpc) by (nonlinear_arith);
        let begin = z * lpc;
        if begin < colors.len() {
            let end = if begin + lpc < colors.len() { begin + lpc } else { colors.len() };
            let mut zone_colors: Vec<Color> = Vec::new();
            let mut c = begin;
            while c < end
                invariant
                    begin <= c <= end,
                    end <= colors@.len(),
                    zone_colors@ == colors@.subrange(begin as int, c as int),
                decreases end - c,
            {
                zone_colors.push(colors[c]);
                proof {
                    assert(zone_colors@ =~= colors@.subrange(begin as int, c + 1));
                }
                c = c + 1;
            }
            let zone = rgb_vec(zone_colors.as_slice());
            let lednum = end - begin;
            let np: usize = lednum / 20 + if lednum % 20 > 0 { 1 } else { 0 };
            let ghost zr = v2_zone_reports(zone@, z as int, lednum as nat);
            let ghost mid = reports_view(out@);
            let mut p: usize = 0;
            while p < np
                invariant
                    p <= np,
                    np == ceil_div(lednum as nat, 20),
                    lednum <= colors@.len(),
                    3 * colors@.len() + 72 <= usize::MAX,
                    zr == v2_zone_reports(zone@, z as int, lednum as nat),
                    reports_view(out@) == mid + zr.take(p as int),
                decreases np - p,
            {
                assert(p * 60 <= 3 * lednum + 60) by (nonlinear_arith)
                    requires
                        p < np,
                        np == lednum / 20 + (if lednum % 20 > 0 { 1int } else { 0int }),
                ;
                let w = window_vec(&zone, p * 60, 60);
                let body = report_with(vec![((p + 1) % 256) as u8, (np % 256) as u8, (z % 256) as u8, 0xBBu8], &w);
                let rep = direct_report_vec(&body);
                let ghost before = reports_view(out@);
                out.push(rep);
                proof {
                    assert(rep@ =~= zr[p as int]);
                    assert(reports_view(out@) =~= before.push(zr[p as int]));
                    assert(zr.take(p + 1) =~= zr.take(p as int).push(zr[p as int]));
                }
                p = p + 1;
            }
            proof {
                assert(zr.take(p as int) =~= zr);
                assert(zone_colors@ =~= colors@.subrange(begin as int, end as int));
                assert(reports_view(out@) =~= start + v2_reports(colors@, lpc, (z + 1) as nat));
            }
        }
        z = z + 1;
    }
}

/// The HID reports that send one frame of colors (extra colors beyond the controller's
/// LEDs are dropped), or the error for an unknown protocol version.
pub fn drgb_frame(config: &DrgbConfig, colors: &[Color]) -> (r: Result<Vec<Vec<u8>>, String>)
    requires
        config.num_channels * config.leds_per_channel <= 0x10_0000,
        3 * colors@.len() + 72 <= usize::MAX,
    ensures
        match (r, drgb_frame_reports(*config, colors@)) {
            (Ok(v), Ok(s)) => reports_view(v@) == s,
            (Err(e), Err(m)) => e@ == m,
            _ => false,
        },
{
    let expected = config.num_channels * config.leds_per_channel;
    let sent: &[Color] = if colors.len() > expected { slice_prefix(colors, expected) } else { colors };
    let total = sent.len();
    let bytes = rgb_vec(sent);
    let mut out: Vec<Vec<u8>> = Vec::new();
    proof {
        assert(reports_view(out@) =~= Seq::<Seq<u8>>::empty());
    }
    if config.version == 4 {
        let mut data = v4_header_vec(config.num_channels, config.leds_per_channel);
        let ghost h = data@;
        let mut k: usize = 0;
        while k < bytes.len()
            invariant
                k <= bytes@.len(),
                data@ == h + bytes@.take(k as int),
            decreases bytes.len() - k,
        {
            data.push(bytes[k]);
            proof {
                assert(data@ =~= h + bytes@.take(k + 1));
            }
            k = k + 1;
        }
        proof {
            assert(bytes@.take(k as int) =~= bytes@);
        }
        v4_reports_vec(&data, total, &mut out);
        Ok(out)
    } else if config.version == 3 || config.version == 1 {
        let (opener, array, last): (u8, u8, u8) = if config.version == 3 { (0x60, 0x64, 100) } else { (0x46, 0x47, 92) };
        let header = zone_header_vec(opener, config.num_channels, config.leds_per_channel);
        out.push(direct_report_vec(&header));
        let n = total / 21 + if total % 21 > 0 { 1 } else { 0 };
        fs_reports_vec(&bytes, n, array, last, &mut out);
        proof {
            assert(reports_view(out@) =~= seq![direct_report(zone_header(opener, config.num_channels, config.leds_per_channel))]
                + fs_reports(bytes@, ceil_div(total as nat, 21), array, last));
        }
        Ok(out)
    } else if config.version == 2 {
        v2_reports_vec(sent, config.leds_per_channel, config.num_channels, &mut out);
        Ok(out)
    } else {
        let mut m = owned("Unsupported DRGB protocol version: ");
        append_decimal(&mut m, config.version as usize);
        Err(m)
    }
}

/// The first `n` elements of a slice.
fn slice_prefix(s: &[Color], n: usize) -> (r: &[Color])
    requires
        n <= s@.len(),
    ensures
        r@ == s@.take(n as int),
{
    let (a, _) = s.split_at(n);
    a
}


/// The command byte that keeps a device showing its last frame.
pub const KEEPALIVE_COMMAND: u8 = 0x65;

/// Nanoseconds without a committed frame after which a keepalive report is due.
pub const KEEPALIVE_AFTER_NANOS: u128 = 1_000_000_000;

/// The report that keeps a device showing its last frame: the keepalive command sent
/// directly.
pub fn keepalive_report() -> (r: Vec<u8>)
    ensures
        r@ == direct_report(seq![KEEPALIVE_COMMAND]),
{
    let payload: Vec<u8> = vec![KEEPALIVE_COMMAND];
    assert(payload@ == seq![KEEPALIVE_COMMAND]);
    direct_report_vec(&payload)
}

/// Whether a keepalive report is due, given the nanoseconds since the last committed
/// frame (`None` where that time cannot be read): only after more than a second.
pub fn keepalive_due(since_last_commit_nanos: Option<u128>) -> (b: bool)
    ensures
        b == match since_last_commit_nanos {
            None => true,
            Some(e) => e > KEEPALIVE_AFTER_NANOS,
        },
{
    match since_last_commit_nanos {
        None => true,
        Some(e) => e > KEEPALIVE_AFTER_NANOS,
    }
}

} // verus!
