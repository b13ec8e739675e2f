//! The UDP protocol of LED matrix devices: queries, configuration fragments and pixel fragments.
use vstd::prelude::*;
use crate::layout::Color;
use crate::text::{append_decimal, concat2, owned, decimal, decimal_string, concat3, trim_str, trimmed};
use crate::layout::{MatrixMap, SegmentType, OutputCapabilities, OutputPortDefinition, same_opt_matrix, leds_sum};

verus! {

/// Query the device information.
pub const CMD_QUERY_INFO: u8 = 0x10;
/// Query the device output configuration (JSON, possibly fragmented).
pub const CMD_QUERY_CONFIG: u8 = 0x14;
/// A fragment of frame pixels.
pub const CMD_FRAGMENT_PIXELS: u8 = 0x12;
/// The protocol version this library speaks.
pub const PROTOCOL_VERSION: u8 = 4;
/// Recommended maximum UDP payload in bytes.
pub const MAX_UDP_PAYLOAD: usize = 1400;

/// The text of bytes decoded as UTF-8, with invalid sequences replaced by U+FFFD.
pub uninterp spec fn utf8_lossy(bytes: Seq<u8>) -> Seq<char>;

/// `String::from_utf8_lossy` (std): decodes UTF-8, replacing invalid sequences by U+FFFD.
/// The contract names the result after the input bytes, and states what std documents for
/// valid input: the text they encode.
#[verifier::external_body]
pub(crate) fn utf8_lossy_string(bytes: &[u8]) -> (s: String)
    ensures
        s@ == utf8_lossy(bytes@),
        vstd::utf8::valid_utf8(bytes@) ==> s@ == vstd::utf8::decode_utf8(bytes@),
{
    String::from_utf8_lossy(bytes).to_string()
}

/// Device information answered to a query.
#[derive(Debug, Clone, PartialEq, Eq)]
pub struct QueryInfo {
    pub version: u8,
    pub width: u16,
    pub height: u16,
    pub pixel_size: u16,
    pub name: String,
    pub description: String,
    pub serial: String,
}

/// One fragment of the configuration answer:
/// `[cmd, msg_id, total_fragments, fragment_index, data_len_lo, data_len_hi, data...]`.
pub struct ConfigFragment<'a> {
    pub msg_id: u8,
    pub total_fragments: u8,
    pub fragment_index: u8,
    pub data: &'a [u8],
}

/// Little-endian 16-bit value.
pub open spec fn le16(lo: u8, hi: u8) -> int {
    lo as int + 256 * (hi as int)
}

/// The byte ranges of a query answer
/// `[cmd, version, w_lo, w_hi, h_lo, h_hi, px_lo, px_hi, name_len, name, desc_len, desc, sn_len, sn]`:
/// the ends of the name, description and serial fields, when all are present.
pub open spec fn query_layout(d: Seq<u8>) -> Option<(int, int, int)> {
    if d.len() < 9 || d[0] != CMD_QUERY_INFO {
        None
    } else {
        let name_end = 9 + d[8] as int;
        if name_end >= d.len() {
            None
        } else {
            let desc_end = name_end + 1 + d[name_end] as int;
            if desc_end >= d.len() {
                None
            } else {
                let serial_end = desc_end + 1 + d[desc_end] as int;
                if serial_end > d.len() {
                    None
                } else {
                    Some((name_end, desc_end, serial_end))
                }
            }
        }
    }
}

/// The message expected for a query answer.
pub open spec fn query_info_of(d: Seq<u8>, info: QueryInfo) -> bool {
    match query_layout(d) {
        None => false,
        Some((name_end, desc_end, serial_end)) => {
            &&& info.version == d[1]
            &&& info.width as int == le16(d[2], d[3])
            &&& info.height as int == le16(d[4], d[5])
            &&& info.pixel_size as int == le16(d[6], d[7])
            &&& info.name@ == utf8_lossy(d.subrange(9, name_end))
            &&& info.description@ == utf8_lossy(d.subrange(name_end + 1, desc_end))
            &&& info.serial@ == utf8_lossy(d.subrange(desc_end + 1, serial_end))
            &&& text_of(d.subrange(9, name_end), info.name@)
            &&& text_of(d.subrange(name_end + 1, desc_end), info.description@)
            &&& text_of(d.subrange(desc_end + 1, serial_end), info.serial@)
        },
    }
}

/// Where bytes are valid UTF-8, the text they encode.
pub open spec fn text_of(bytes: Seq<u8>, text: Seq<char>) -> bool {
    vstd::utf8::valid_utf8(bytes) ==> text == vstd::utf8::decode_utf8(bytes)
}

/// The low byte of a 16-bit value.
pub open spec fn lo_byte(v: u16) -> u8 {
    (v % 256) as u8
}

/// The high byte of a 16-bit value.
pub open spec fn hi_byte(v: u16) -> u8 {
    (v / 256) as u8
}

/// A device information answer with the given fields, the texts as UTF-8 bytes.
pub open spec fn query_answer(
    version: u8,
    width: u16,
    height: u16,
    pixel_size: u16,
    name: Seq<u8>,
    description: Seq<u8>,
    serial: Seq<u8>,
) -> Seq<u8> {
    seq![CMD_QUERY_INFO, version, lo_byte(width), hi_byte(width), lo_byte(height), hi_byte(height),
        lo_byte(pixel_size), hi_byte(pixel_size), name.len() as u8] + name
        + seq![description.len() as u8] + description + seq![serial.len() as u8] + serial
}

/// An answer built from a version, sizes and three texts of at most 255 bytes each, with
/// anything after it, is complete, and the information decoded from it has exactly those
/// fields.
pub proof fn law_query_answer_decodes(
    version: u8,
    width: u16,
    height: u16,
    pixel_size: u16,
    name: Seq<char>,
    description: Seq<char>,
    serial: Seq<char>,
    trailing: Seq<u8>,
    info: QueryInfo,
)
    requires
        vstd::utf8::encode_utf8(name).len() <= 255,
        vstd::utf8::encode_utf8(description).len() <= 255,
        vstd::utf8::encode_utf8(serial).len() <= 255,
    ensures
        ({
            let d = query_answer(
                version,
                width,
                height,
                pixel_size,
                vstd::utf8::encode_utf8(name),
                vstd::utf8::encode_utf8(description),
                vstd::utf8::encode_utf8(serial),
            ) + trailing;
            &&& query_layout(d) is Some
            &&& query_info_of(d, info) ==> {
                &&& info.version == version
                &&& info.width == width
                &&& info.height == height
                &&& info.pixel_size == pixel_size
                &&& info.name@ == name
                &&& info.description@ == description
                &&& info.serial@ == serial
            }
        }),
{
    let nb = vstd::utf8::encode_utf8(name);
    let db = vstd::utf8::encode_utf8(description);
    let sb = vstd::utf8::encode_utf8(serial);
    let d = query_answer(version, width, height, pixel_size, nb, db, sb) + trailing;
    let ne: int = 9 + nb.len() as int;
    let de: int = ne + 1 + db.len();
    let se: int = de + 1 + sb.len();
    assert(d.len() == se + trailing.len());
    assert(d[0] == CMD_QUERY_INFO);
    assert(d[8] == nb.len() as u8);
    assert((nb.len() as u8) as int == nb.len());
    assert(d[ne] == db.len() as u8);
    assert((db.len() as u8) as int == db.len());
    assert(d[de] == sb.len() as u8);
    assert((sb.len() as u8) as int == sb.len());
    assert(query_layout(d) == Some((ne as int, de as int, se as int)));
    assert(d.subrange(9, ne as int) =~= nb);
    assert(d.subrange(ne as int + 1, de as int) =~= db);
    assert(d.subrange(de as int + 1, se as int) =~= sb);
    vstd::utf8::encode_utf8_valid_utf8(name);
    vstd::utf8::encode_utf8_valid_utf8(description);
    vstd::utf8::encode_utf8_valid_utf8(serial);
    vstd::utf8::encode_utf8_decode_utf8(name);
    vstd::utf8::encode_utf8_decode_utf8(description);
    vstd::utf8::encode_utf8_decode_utf8(serial);
    assert(le16(lo_byte(width), hi_byte(width)) == width as int);
    assert(le16(lo_byte(height), hi_byte(height)) == height as int);
    assert(le16(lo_byte(pixel_size), hi_byte(pixel_size)) == pixel_size as int);
}

fn read_le16(lo: u8, hi: u8) -> (v: u16)
    ensures
        v as int == le16(lo, hi),
{
    (lo as u16) + 256 * (hi as u16)
}

/// The LED matrix protocol codec.
pub struct LedMatrixProtocol;

impl LedMatrixProtocol {
    /// The device information query.
    pub fn encode_query_info() -> (r: [u8; 1])
        ensures
            r@ == seq![CMD_QUERY_INFO],
    {
        let r = [CMD_QUERY_INFO];
        assert(r@ =~= seq![CMD_QUERY_INFO]);
        r
    }

    /// The device configuration query.
    pub fn encode_query_config() -> (r: [u8; 1])
        ensures
            r@ == seq![CMD_QUERY_CONFIG],
    {
        let r = [CMD_QUERY_CONFIG];
        assert(r@ =~= seq![CMD_QUERY_CONFIG]);
        r
    }

    /// Decodes a device information answer; `None` unless every field is present.
    pub fn decode_query_response(data: &[u8]) -> (r: Option<QueryInfo>)
        ensures
            match r {
                None => query_layout(data@) is None,
                Some(info) => query_info_of(data@, info),
            },
    {
        if data.len() < 9 || data[0] != CMD_QUERY_INFO {
            return None;
        }
        let version = data[1];
        let width = read_le16(data[2], data[3]);
        let height = read_le16(data[4], data[5]);
        let pixel_size = read_le16(data[6], data[7]);
        let name_len = data[8] as usize;
        let name_end = 9 + name_len;
        if name_end >= data.len() {
            return None;
        }
        let desc_len = data[name_end] as usize;
        let desc_end = name_end + 1 + desc_len;
        if desc_end >= data.len() {
            return None;
        }
        let sn_len = data[desc_end] as usize;
        let serial_end = desc_end + 1 + sn_len;
        if serial_end > data.len() {
            return None;
        }
        let name = utf8_lossy_string(&data[9..name_end]);
        let description = utf8_lossy_string(&data[name_end + 1..desc_end]);
        let serial = utf8_lossy_string(&data[desc_end + 1..serial_end]);
        Some(QueryInfo { version, width, height, pixel_size, name, description, serial })
    }

    /// Decodes a configuration fragment; `None` unless the header is complete and the
    /// announced data length is present.
    pub fn decode_config_fragment(data: &[u8]) -> (r: Option<ConfigFragment<'_>>)
        ensures
            match r {
                None => data@.len() < 6 || data@[0] != CMD_QUERY_CONFIG || data@.len() < 6
                    + le16(data@[4], data@[5]),
                Some(f) => {
                    &&& data@.len() >= 6
                    &&& data@[0] == CMD_QUERY_CONFIG
                    &&& data@.len() >= 6 + le16(data@[4], data@[5])
                    &&& f.msg_id == data@[1]
                    &&& f.total_fragments == data@[2]
                    &&& f.fragment_index == data@[3]
                    &&& f.data@ == data@.subrange(6, 6 + le16(data@[4], data@[5]))
                },
            },
    {
        if data.len() < 6 || data[0] != CMD_QUERY_CONFIG {
            return None;
        }
        let msg_id = data[1];
        let total_fragments = data[2];
        let fragment_index = data[3];
        let data_len = read_le16(data[4], data[5]) as usize;
        if data.len() < 6 + data_len {
            return None;
        }
        Some(ConfigFragment { msg_id, total_fragments, fragment_index, data: &data[6..6 + data_len] })
    }

    /// How many pixels fit in one fragment of at most `max_payload` bytes:
    /// 6 header bytes, then 5 bytes per pixel.
    pub fn max_pixels_per_fragment(max_payload: usize) -> (r: Result<usize, String>)
        ensures
            match r {
                Ok(n) => max_payload > 6 && n == (max_payload - 6) / 5,
                Err(e) => max_payload <= 6 && e@ == "Max UDP payload is too small for fragment header"@,
            },
    {
        if max_payload <= 6 {
            return Err(owned("Max UDP payload is too small for fragment header"));
        }
        Ok((max_payload - 6) / 5)
    }

    /// How many fragments carry `color_count` pixels, at most 255.
    pub fn calc_total_fragments(color_count: usize, max_pixels_per_fragment: usize) -> (r: Result<u8, String>)
        ensures
            match r {
                Ok(n) => max_pixels_per_fragment > 0 && n as int == div_ceil(
                    color_count as int,
                    max_pixels_per_fragment as int,
                ),
                Err(e) => if max_pixels_per_fragment == 0 {
                    e@ == "max_pixels_per_fragment cannot be zero"@
                } else {
                    div_ceil(color_count as int, max_pixels_per_fragment as int) > 255
                        && e@ == "Fragment count exceeds protocol limit (<=255)"@
                },
            },
    {
        if max_pixels_per_fragment == 0 {
            return Err(owned("max_pixels_per_fragment cannot be zero"));
        }
        let q = color_count / max_pixels_per_fragment;
        if color_count % max_pixels_per_fragment != 0 {
            assert(max_pixels_per_fragment >= 2);
            assert(q <= color_count / 2) by (nonlinear_arith)
                requires
                    max_pixels_per_fragment >= 2,
                    q == color_count / max_pixels_per_fragment,
            ;
        }
        let total = q + if color_count % max_pixels_per_fragment != 0 {
            1usize
        } else {
            0usize
        };
        if total > 255 {
            return Err(owned("Fragment count exceeds protocol limit (<=255)"));
        }
        Ok(total as u8)
    }
}

/// `a / b` rounded up.
pub open spec fn div_ceil(a: int, b: int) -> int {
    if a % b == 0 {
        a / b
    } else {
        a / b + 1
    }
}

/// Byte `k` (0..5) of the entry of pixel `index` with color `c`:
/// index low byte, index high byte, R, G, B.
pub open spec fn entry_byte(index: int, c: Color, k: int) -> u8 {
    if k == 0 {
        (index % 256) as u8
    } else if k == 1 {
        ((index / 256) % 256) as u8
    } else if k == 2 {
        c.r
    } else if k == 3 {
        c.g
    } else {
        c.b
    }
}

/// The entries of consecutive pixels starting at LED index `start`.
pub open spec fn pixel_entries(start: int, colors: Seq<Color>) -> Seq<u8> {
    Seq::new((5 * colors.len()) as nat, |i: int| entry_byte(start + i / 5, colors[i / 5], i % 5))
}

/// The header of a pixel fragment carrying `count` pixels.
pub open spec fn fragment_header(frame_id: u8, total_fragments: u8, fragment_index: u8, count: int) -> Seq<u8> {
    seq![CMD_FRAGMENT_PIXELS, frame_id, total_fragments, fragment_index, (count % 256) as u8, ((count / 256) % 256) as u8]
}

/// A complete pixel fragment:
/// `[cmd, frame_id, total_fragments, fragment_index, count_lo, count_hi, (index_lo, index_hi, r, g, b) * count]`.
pub open spec fn fragment_bytes(
    frame_id: u8,
    total_fragments: u8,
    fragment_index: u8,
    start: int,
    colors: Seq<Color>,
) -> Seq<u8> {
    fragment_header(frame_id, total_fragments, fragment_index, colors.len() as int) + pixel_entries(start, colors)
}

/// A pixel fragment starts with the command, frame id, fragment count and index, then its
/// pixel count as two bytes, low byte first; then each pixel takes five bytes: its LED
/// index, low byte first, and its red, green and blue.
pub proof fn law_fragment_layout(
    frame_id: u8,
    total_fragments: u8,
    fragment_index: u8,
    start: int,
    colors: Seq<Color>,
)
    requires
        colors.len() <= 65535,
        0 <= start,
        start + colors.len() <= 65536,
    ensures
        ({
            let f = fragment_bytes(frame_id, total_fragments, fragment_index, start, colors);
            &&& f.len() == 6 + 5 * colors.len()
            &&& f[0] == CMD_FRAGMENT_PIXELS && f[1] == frame_id && f[2] == total_fragments && f[3] == fragment_index
            &&& f[4] as int + 256 * (f[5] as int) == colors.len()
            &&& forall|i: int| 0 <= i < colors.len() ==> {
                &&& #[trigger] f[6 + 5 * i] as int + 256 * (f[6 + 5 * i + 1] as int) == start + i
                &&& f[6 + 5 * i + 2] == colors[i].r
                &&& f[6 + 5 * i + 3] == colors[i].g
                &&& f[6 + 5 * i + 4] == colors[i].b
            }
        }),
{
    let n = colors.len() as int;
    let f = fragment_bytes(frame_id, total_fragments, fragment_index, start, colors);
    assert((n % 256) + 256 * ((n / 256) % 256) == n) by (nonlinear_arith) requires 0 <= n < 65536;
    assert forall|i: int| 0 <= i < colors.len() implies {
        &&& #[trigger] f[6 + 5 * i] as int + 256 * (f[6 + 5 * i + 1] as int) == start + i
        &&& f[6 + 5 * i + 2] == colors[i].r
        &&& f[6 + 5 * i + 3] == colors[i].g
        &&& f[6 + 5 * i + 4] == colors[i].b
    } by {
        assert(5 * i + 4 < 5 * n) by (nonlinear_arith) requires 0 <= i < n;
        assert((5 * i) / 5 == i && (5 * i) % 5 == 0) by (nonlinear_arith) requires 0 <= i;
        assert((5 * i + 1) / 5 == i && (5 * i + 1) % 5 == 1) by (nonlinear_arith) requires 0 <= i;
        assert((5 * i + 2) / 5 == i && (5 * i + 2) % 5 == 2) by (nonlinear_arith) requires 0 <= i;
        assert((5 * i + 3) / 5 == i && (5 * i + 3) % 5 == 3) by (nonlinear_arith) requires 0 <= i;
        assert((5 * i + 4) / 5 == i && (5 * i + 4) % 5 == 4) by (nonlinear_arith) requires 0 <= i;
        let x = start + i;
        assert((x % 256) + 256 * ((x / 256) % 256) == x) by (nonlinear_arith) requires 0 <= x < 65536;
    }
}

/// How many pixels starting at `start` have an index that fits in 16 bits.
pub open spec fn encodable_count(start: int, n: int) -> int {
    if start > 65535 {
        0
    } else if n <= 65536 - start {
        n
    } else {
        65536 - start
    }
}

proof fn lemma_entries_push(start: int, colors: Seq<Color>, k: int)
    requires
        0 <= k < colors.len(),
    ensures
        pixel_entries(start, colors.take(k + 1)) == pixel_entries(start, colors.take(k)) + seq![
            entry_byte(start + k, colors[k], 0),
            entry_byte(start + k, colors[k], 1),
            colors[k].r,
            colors[k].g,
            colors[k].b,
        ],
{
    let a = pixel_entries(start, colors.take(k));
    let b = pixel_entries(start, colors.take(k + 1));
    let t = seq![
        entry_byte(start + k, colors[k], 0),
        entry_byte(start + k, colors[k], 1),
        colors[k].r,
        colors[k].g,
        colors[k].b,
    ];
    assert forall|j: int| 0 <= j < b.len() implies b[j] == (a + t)[j] by {
        if j < 5 * k {
            assert(j / 5 < k) by (nonlinear_arith) requires 0 <= j < 5 * k;
        } else {
            assert(j / 5 == k) by (nonlinear_arith) requires 5 * k <= j < 5 * k + 5;
        }
    }
    assert(b =~= a + t);
}

impl LedMatrixProtocol {
    /// Encodes one pixel fragment into `buffer`. An empty `colors` leaves the buffer alone.
    /// When an LED index exceeds 16 bits, the error comes after the pixels before it were written.
    pub fn encode_fragment_into(
        frame_id: u8,
        total_fragments: u8,
        fragment_index: u8,
        start_index: usize,
        colors: &[Color],
        buffer: &mut Vec<u8>,
    ) -> (r: Result<(), String>)
        ensures
            colors@.len() == 0 ==> r is Ok && final(buffer)@ == old(buffer)@,
            colors@.len() > 65535 ==> final(buffer)@ == old(buffer)@ && (r matches Err(e)
                && e@ == "Fragment pixel count exceeds protocol limit"@),
            0 < colors@.len() <= 65535 ==> {
                let ok = encodable_count(start_index as int, colors@.len() as int);
                &&& final(buffer)@ == fragment_header(frame_id, total_fragments, fragment_index, colors@.len() as int)
                    + pixel_entries(start_index as int, colors@.take(ok))
                &&& if ok == colors@.len() {
                    r is Ok
                } else {
                    r matches Err(e) && e@ == "LED index exceeds u16 range for protocol"@
                }
            },
    {
        if colors.len() == 0 {
            return Ok(());
        }
        if colors.len() > 65535 {
            return Err(owned("Fragment pixel count exceeds protocol limit"));
        }
        let n = colors.len();
        buffer.clear();
        buffer.push(CMD_FRAGMENT_PIXELS);
        buffer.push(frame_id);
        buffer.push(total_fragments);
        buffer.push(fragment_index);
        let count = n as u16;
        buffer.push((count % 256) as u8);
        buffer.push((count / 256) as u8);
        let ghost header = fragment_header(frame_id, total_fragments, fragment_index, n as int);
        assert(buffer@ =~= header + pixel_entries(start_index as int, colors@.take(0)));
        let mut index: usize = start_index;
        let mut k: usize = 0;
        while k < n
            invariant
                n == colors@.len(),
                0 < n <= 65535,
                k <= n,
                index == start_index + k,
                k <= encodable_count(start_index as int, n as int),
                buffer@ == header + pixel_entries(start_index as int, colors@.take(k as int)),
                header == fragment_header(frame_id, total_fragments, fragment_index, n as int),
            decreases n - k,
        {
            if index > 65535 {
                assert(k == encodable_count(start_index as int, n as int));
                return Err(owned("LED index exceeds u16 range for protocol"));
            }
            let color = colors[k];
            let idx = index as u16;
            buffer.push((idx % 256) as u8);
            buffer.push((idx / 256) as u8);
            buffer.push(color.r);
            buffer.push(color.g);
            buffer.push(color.b);
            proof {
                lemma_entries_push(start_index as int, colors@, k as int);
                assert(buffer@ =~= header + pixel_entries(start_index as int, colors@.take(k + 1)));
            }
            index = index + 1;
            k = k + 1;
        }
        assert(k == encodable_count(start_index as int, n as int));
        Ok(())
    }
}

/// "Color buffer size mismatch: expected {expected}, got {got}".
pub open spec fn size_mismatch_message(expected: nat, got: nat) -> Seq<char> {
    "Color buffer size mismatch: expected "@ + decimal(expected) + ", got "@ + decimal(got)
}

/// The pixels of fragment `i` when fragments carry `m` pixels each.
pub open spec fn fragment_colors(colors: Seq<Color>, i: int, m: int) -> Seq<Color> {
    let start = i * m;
    let end = if start + m <= colors.len() { start + m } else { colors.len() as int };
    colors.subrange(start, end)
}

/// Encodes one frame of a device with `led_count` LEDs into pixel fragments of at most
/// `max_pixels` pixels each. LED indices are the positions in `colors`.
pub fn encode_frame(frame_id: u8, colors: &[Color], led_count: usize, max_pixels: usize) -> (r: Result<Vec<Vec<u8>>, String>)
    requires
        led_count <= 65535,
    ensures
        colors@.len() != led_count ==> (r matches Err(e) && e@ == size_mismatch_message(led_count as nat, colors@.len())),
        colors@.len() == led_count && max_pixels == 0 ==> (r matches Err(e) && e@ == "max_pixels_per_fragment cannot be zero"@),
        colors@.len() == led_count && max_pixels > 0 && div_ceil(led_count as int, max_pixels as int) > 255 ==> (r matches Err(e)
            && e@ == "Fragment count exceeds protocol limit (<=255)"@),
        colors@.len() == led_count && max_pixels > 0 && div_ceil(led_count as int, max_pixels as int) <= 255 ==> (r matches Ok(packets) && {
            let total = div_ceil(led_count as int, max_pixels as int);
            &&& packets@.len() == total
            &&& forall|i: int| 0 <= i < total ==> #[trigger] packets@[i]@ == fragment_bytes(
                frame_id,
                total as u8,
                i as u8,
                i * max_pixels,
                fragment_colors(colors@, i, max_pixels as int),
            )
        }),
{
    if colors.len() != led_count {
        let mut msg = owned("Color buffer size mismatch: expected ");
        let a = decimal_string(led_count);
        msg.append(a.as_str());
        msg.append(", got ");
        let b = decimal_string(colors.len());
        msg.append(b.as_str());
        return Err(msg);
    }
    let total = LedMatrixProtocol::calc_total_fragments(led_count, max_pixels)?;
    let mut packets: Vec<Vec<u8>> = Vec::new();
    let mut fi: u8 = 0;
    while fi < total
        invariant
            led_count <= 65535,
            colors@.len() == led_count,
            max_pixels > 0,
            total as int == div_ceil(led_count as int, max_pixels as int),
            fi <= total,
            packets@.len() == fi,
            forall|i: int| 0 <= i < fi ==> #[trigger] packets@[i]@ == fragment_bytes(
                frame_id,
                total,
                i as u8,
                i * max_pixels,
                fragment_colors(colors@, i, max_pixels as int),
            ),
        decreases total - fi,
    {
        proof {
            assert((fi as int) * max_pixels < led_count) by (nonlinear_arith)
                requires
                    fi < total,
                    total as int == div_ceil(led_count as int, max_pixels as int),
                    max_pixels > 0,
            ;
        }
        let start: usize = fi as usize * max_pixels;
        let end: usize = if max_pixels <= led_count - start { start + max_pixels } else { led_count };
        let mut buffer: Vec<u8> = Vec::new();
        let slice = &colors[start..end];
        let _ = LedMatrixProtocol::encode_fragment_into(frame_id, total, fi, start, slice, &mut buffer);
        proof {
            assert(slice@ == fragment_colors(colors@, fi as int, max_pixels as int));
            assert(slice@.take(slice@.len() as int) =~= slice@);
        }
        packets.push(buffer);
        fi = fi + 1;
    }
    Ok(packets)
}

/// "Output '{id}'".
pub open spec fn output_label(id: Seq<char>) -> Seq<char> {
    "Output '"@ + id + "'"@
}

/// The largest LED index in a matrix map, -1 when it has none.
pub open spec fn max_led(map: Seq<Option<usize>>) -> int
    decreases map.len(),
{
    if map.len() == 0 {
        -1
    } else {
        let rest = max_led(map.drop_last());
        match map.last() {
            Some(v) => if v as int > rest {
                v as int
            } else {
                rest
            },
            None => rest,
        }
    }
}

/// Cell `p` repeats an LED index that an earlier cell already holds.
pub open spec fn repeats_earlier(map: Seq<Option<usize>>, p: int) -> bool {
    map[p] is Some && exists|q: int| 0 <= q < p && map[q] == map[p]
}

/// Cell `p` is the first cell that repeats an earlier LED index.
pub open spec fn is_first_repeat(map: Seq<Option<usize>>, p: int) -> bool {
    0 <= p < map.len() && repeats_earlier(map, p) && forall|q: int| 0 <= q < p ==> !repeats_earlier(map, q)
}

/// The first cell that repeats an earlier LED index.
pub open spec fn first_repeat(map: Seq<Option<usize>>) -> int {
    choose|p: int| is_first_repeat(map, p)
}

/// LED index `v` occurs in the map.
pub open spec fn has_led(map: Seq<Option<usize>>, v: int) -> bool {
    exists|p: int| 0 <= p < map.len() && map[p] == Some(v as usize)
}

/// The LED count of a well-formed matrix map: its indices are exactly 0..n, each once.
pub open spec fn matrix_leds_ok(map: Seq<Option<usize>>, n: int) -> bool {
    &&& n == max_led(map) + 1
    &&& n >= 1
    &&& forall|p: int| 0 <= p < map.len() ==> !repeats_earlier(map, p)
    &&& forall|v: int| 0 <= v < n ==> has_led(map, v)
}

/// The result of checking a matrix map.
pub open spec fn matrix_check(id: Seq<char>, m: MatrixMap, r: Result<usize, String>) -> bool {
    let w = m.width as int;
    let h = m.height as int;
    let map = m.map@;
    if w == 0 || h == 0 {
        r matches Err(e) && e@ == output_label(id) + " has invalid matrix size "@ + decimal(w as nat) + "x"@
            + decimal(h as nat)
    } else if w * h > usize::MAX {
        r matches Err(e) && e@ == output_label(id) + " matrix size overflow"@
    } else if map.len() != w * h {
        r matches Err(e) && e@ == output_label(id) + " matrix map length mismatch: expected "@ + decimal((w * h) as nat)
            + ", got "@ + decimal(map.len())
    } else if max_led(map) < 0 {
        r matches Err(e) && e@ == output_label(id) + " matrix has no LEDs"@
    } else if exists|p: int| 0 <= p < map.len() && repeats_earlier(map, p) {
        r matches Err(e) && e@ == output_label(id) + " matrix has duplicate index "@ + decimal(
            map[first_repeat(map)]->0 as nat,
        )
    } else if exists|v: int| 0 <= v <= max_led(map) && !has_led(map, v) {
        r matches Err(e) && e@ == output_label(id) + " matrix indices must cover 0.."@ + decimal(max_led(map) as nat)
            + " without gaps"@
    } else {
        r matches Ok(n) && matrix_leds_ok(map, n as int)
    }
}

proof fn lemma_max_led_bounds(map: Seq<Option<usize>>)
    ensures
        max_led(map) >= -1,
        forall|p: int| 0 <= p < map.len() && map[p] is Some ==> map[p]->0 as int <= max_led(map),
        max_led(map) >= 0 ==> has_led(map, max_led(map)),
        max_led(map) < 0 ==> forall|p: int| 0 <= p < map.len() ==> map[p] is None,
    decreases map.len(),
{
    if map.len() > 0 {
        let rest = map.drop_last();
        lemma_max_led_bounds(rest);
        assert forall|p: int| 0 <= p < map.len() - 1 implies map[p] == rest[p] by {}
        if max_led(map) >= 0 && max_led(map) == max_led(rest) {
            let q = choose|q: int| 0 <= q < rest.len() && rest[q] == Some(max_led(rest) as usize);
            assert(map[q] == rest[q]);
        }
        if max_led(map) >= 0 && max_led(map) != max_led(rest) {
            assert(map[map.len() - 1] == Some(max_led(map) as usize));
        }
    }
}

proof fn lemma_first_repeat(map: Seq<Option<usize>>, p: int)
    requires
        0 <= p < map.len(),
        repeats_earlier(map, p),
    ensures
        exists|p2: int|
            0 <= p2 < map.len() && repeats_earlier(map, p2) && forall|q: int| 0 <= q < p2 ==> !repeats_earlier(map, q),
    decreases p,
{
    if exists|q: int| 0 <= q < p && repeats_earlier(map, q) {
        let q = choose|q: int| 0 <= q < p && repeats_earlier(map, q);
        lemma_first_repeat(map, q);
    } else {
        assert(forall|q: int| 0 <= q < p ==> !repeats_earlier(map, q));
    }
}

fn label_message(id: &str, rest: &str) -> (m: String)
    ensures
        m@ == output_label(id@) + rest@,
{
    let mut m = concat3("Output '", id, "'");
    m.append(rest);
    m
}

/// Checks a matrix map and derives its LED count: the indices must be exactly 0..n,
/// each in one cell.
pub fn leds_count_from_matrix_map(output_id: &str, matrix: &MatrixMap) -> (r: Result<usize, String>)
    requires
        forall|p: int| 0 <= p < matrix.map@.len() && matrix.map@[p] is Some ==> #[trigger] matrix.map@[p]->0 < isize::MAX,
    ensures
        matrix_check(output_id@, *matrix, r),
{
    let width = matrix.width;
    let height = matrix.height;
    if width == 0 || height == 0 {
        let mut m = label_message(output_id, " has invalid matrix size ");
        append_decimal(&mut m, width);
        m.append("x");
        append_decimal(&mut m, height);
        return Err(m);
    }
    let expected_len = match width.checked_mul(height) {
        Some(v) => v,
        None => {
            return Err(label_message(output_id, " matrix size overflow"));
        },
    };
    let map = &matrix.map;
    if map.len() != expected_len {
        let mut m = label_message(output_id, " matrix map length mismatch: expected ");
        append_decimal(&mut m, expected_len);
        m.append(", got ");
        append_decimal(&mut m, map.len());
        return Err(m);
    }
    let mut max_idx: Option<usize> = None;
    let mut p: usize = 0;
    while p < map.len()
        invariant
            p <= map@.len(),
            match max_idx {
                None => max_led(map@.take(p as int)) == -1,
                Some(v) => max_led(map@.take(p as int)) == v as int,
            },
        decreases map.len() - p,
    {
        assert(map@.take(p + 1).drop_last() =~= map@.take(p as int));
        if let Some(idx) = map[p] {
            max_idx = match max_idx {
                None => Some(idx),
                Some(m) => Some(if idx > m { idx } else { m }),
            };
        }
        p = p + 1;
    }
    assert(map@.take(map@.len() as int) =~= map@);
    proof {
        lemma_max_led_bounds(map@);
    }
    let max_idx = match max_idx {
        Some(v) => v,
        None => {
            return Err(label_message(output_id, " matrix has no LEDs"));
        },
    };
    assert(has_led(map@, max_idx as int));
    let leds_count = max_idx + 1;
    let mut seen: Vec<bool> = Vec::new();
    let mut i: usize = 0;
    while i < leds_count
        invariant
            i <= leds_count,
            seen@.len() == i,
            forall|v: int| 0 <= v < i ==> !seen@[v],
        decreases leds_count - i,
    {
        seen.push(false);
        i = i + 1;
    }
    let mut p: usize = 0;
    while p < map.len()
        invariant
            p <= map@.len(),
            width == matrix.width && height == matrix.height && width > 0 && height > 0,
            width * height <= usize::MAX,
            map@ == matrix.map@,
            map@.len() == width * height,
            leds_count == max_led(map@) + 1,
            seen@.len() == leds_count,
            forall|q: int| 0 <= q < map@.len() && map@[q] is Some ==> map@[q]->0 as int <= max_led(map@),
            forall|v: int| 0 <= v < leds_count ==> (seen@[v] <==> exists|q: int| 0 <= q < p && map@[q] == Some(v as usize)),
            forall|q: int| 0 <= q < p ==> !repeats_earlier(map@, q),
        decreases map.len() - p,
    {
        if let Some(idx) = map[p] {
            if seen[idx] {
                proof {
                    let q = choose|q: int| 0 <= q < p && map@[q] == Some(idx);
                    assert(repeats_earlier(map@, p as int));
                    assert(is_first_repeat(map@, p as int));
                    let pc = first_repeat(map@);
                    assert(is_first_repeat(map@, pc));
                    if pc < p {
                        assert(!repeats_earlier(map@, pc));
                    }
                    if pc > p {
                        assert(!repeats_earlier(map@, p as int));
                    }
                    assert(pc == p);
                }
                let mut m = label_message(output_id, " matrix has duplicate index ");
                append_decimal(&mut m, idx);
                return Err(m);
            }
            seen.set(idx, true);
            proof {
                assert forall|q: int| 0 <= q < p && map@[q] is Some implies map@[q] != map@[p as int] by {}
            }
        }
        p = p + 1;
    }
    let mut v: usize = 0;
    while v < leds_count
        invariant
            v <= leds_count,
            width == matrix.width && height == matrix.height && width > 0 && height > 0,
            width * height <= usize::MAX,
            map@ == matrix.map@,
            map@.len() == width * height,
            leds_count == max_led(map@) + 1,
            seen@.len() == leds_count,
            forall|u: int| 0 <= u < leds_count ==> (seen@[u] <==> exists|q: int| 0 <= q < map@.len() && map@[q] == Some(u as usize)),
            forall|u: int| 0 <= u < v ==> has_led(map@, u),
            forall|q: int| 0 <= q < map@.len() ==> !repeats_earlier(map@, q),
        decreases leds_count - v,
    {
        if !seen[v] {
            assert(!has_led(map@, v as int));
            assert(!(exists|p: int| 0 <= p < map@.len() && repeats_earlier(map@, p)));
            assert(max_led(map@) >= 0);
            let mut m = label_message(output_id, " matrix indices must cover 0..");
            append_decimal(&mut m, leds_count - 1);
            m.append(" without gaps");
            return Err(m);
        }
        v = v + 1;
    }
    Ok(leds_count)
}

/// One output as the device describes it in its configuration answer.
#[derive(Clone, Debug)]
pub struct OutputPortConfig {
    pub id: String,
    pub name: String,
    pub output_type: SegmentType,
    pub length: Option<usize>,
    pub matrix: Option<MatrixMap>,
}

/// The device configuration answer.
#[derive(Clone, Debug)]
pub struct DeviceConfigDto {
    pub outputs: Vec<OutputPortConfig>,
}

/// The segment types a user may create on an output of the given type.
pub open spec fn allowed_types_for(output_type: SegmentType) -> Seq<SegmentType> {
    match output_type {
        SegmentType::Single => seq![SegmentType::Single],
        SegmentType::Linear => seq![SegmentType::Single, SegmentType::Linear],
        SegmentType::Matrix => seq![SegmentType::Matrix],
    }
}

/// The capabilities of a device output: only linear outputs may be segmented, and the
/// total LED count is fixed.
pub open spec fn capabilities_ok(c: OutputCapabilities, output_type: SegmentType, leds_count: usize) -> bool {
    &&& c.editable == (output_type == SegmentType::Linear)
    &&& c.min_total_leds == leds_count
    &&& c.max_total_leds == leds_count
    &&& c.allowed_total_leds matches Some(v) && v@ == seq![leds_count]
    &&& c.allowed_segment_types@ == allowed_types_for(output_type)
}

/// The capabilities of a device output.
pub fn capabilities_for_output(output_type: SegmentType, leds_count: usize) -> (c: OutputCapabilities)
    ensures
        capabilities_ok(c, output_type, leds_count),
{
    let allowed_segment_types = match output_type {
        SegmentType::Single => vec![SegmentType::Single],
        SegmentType::Linear => vec![SegmentType::Single, SegmentType::Linear],
        SegmentType::Matrix => vec![SegmentType::Matrix],
    };
    let allowed = vec![leds_count];
    assert(allowed@ =~= seq![leds_count]);
    assert(allowed_segment_types@ =~= allowed_types_for(output_type));
    OutputCapabilities {
        editable: output_type == SegmentType::Linear,
        min_total_leds: leds_count,
        max_total_leds: leds_count,
        allowed_total_leds: Some(allowed),
        allowed_segment_types,
    }
}

/// Every LED index of the optional matrix is below `isize::MAX`.
pub open spec fn matrix_indices_bounded(m: Option<MatrixMap>) -> bool {
    m matches Some(mm) ==> forall|p: int|
        0 <= p < mm.map@.len() && mm.map@[p] is Some ==> #[trigger] mm.map@[p]->0 < isize::MAX
}

/// The output definition that a configured output yields, or the error it is refused with.
pub open spec fn output_def_result(d: OutputPortConfig, r: Result<OutputPortDefinition, String>) -> bool {
    let id = trimmed(d.id@);
    let label = output_label(id);
    match d.output_type {
        SegmentType::Single => if d.matrix is Some {
            r matches Err(e) && e@ == label + " is Single but has matrix data"@
        } else {
            r matches Ok(def) && def_fields(def, d, 1, None)
        },
        SegmentType::Linear => if d.matrix is Some {
            r matches Err(e) && e@ == label + " is Linear but has matrix data"@
        } else if d.length is None {
            r matches Err(e) && e@ == label + " is Linear but missing length"@
        } else if d.length->0 == 0 {
            r matches Err(e) && e@ == label + " has invalid length=0"@
        } else {
            r matches Ok(def) && def_fields(def, d, d.length->0, None)
        },
        SegmentType::Matrix => if d.matrix is None {
            r matches Err(e) && e@ == label + " is Matrix but missing matrix data"@
        } else {
            exists|c: Result<usize, String>| #[trigger] matrix_check(id, d.matrix->0, c) && match c {
                Err(e) => r matches Err(e2) && e2@ == e@,
                Ok(n) => r matches Ok(def) && def_fields(def, d, n, d.matrix),
            }
        },
    }
}

/// The fields of an accepted output definition.
pub open spec fn def_fields(def: OutputPortDefinition, d: OutputPortConfig, leds: usize, m: Option<MatrixMap>) -> bool {
    let id = trimmed(d.id@);
    &&& def.id@ == id
    &&& def.name@ == (if trimmed(d.name@).len() == 0 { id } else { d.name@ })
    &&& def.output_type == d.output_type
    &&& def.leds_count == leds
    &&& same_opt_matrix(def.matrix, m)
    &&& capabilities_ok(def.capabilities, d.output_type, leds)
}

/// Turns one configured output into an output definition.
pub fn output_def_from_dto(dto: &OutputPortConfig) -> (r: Result<OutputPortDefinition, String>)
    requires
        matrix_indices_bounded(dto.matrix),
    ensures
        output_def_result(*dto, r),
{
    let id = owned(trim_str(dto.id.as_str()));
    let name = if trim_str(dto.name.as_str()).is_empty() {
        id.clone()
    } else {
        dto.name.clone()
    };
    let output_type = dto.output_type;
    let leds_count: usize;
    let mut matrix: Option<MatrixMap> = None;
    match output_type {
        SegmentType::Single => {
            if dto.matrix.is_some() {
                return Err(label_message(id.as_str(), " is Single but has matrix data"));
            }
            leds_count = 1;
        },
        SegmentType::Linear => {
            if dto.matrix.is_some() {
                return Err(label_message(id.as_str(), " is Linear but has matrix data"));
            }
            match dto.length {
                None => {
                    return Err(label_message(id.as_str(), " is Linear but missing length"));
                },
                Some(len) => {
                    if len == 0 {
                        return Err(label_message(id.as_str(), " has invalid length=0"));
                    }
                    leds_count = len;
                },
            }
        },
        SegmentType::Matrix => {
            match &dto.matrix {
                None => {
                    return Err(label_message(id.as_str(), " is Matrix but missing matrix data"));
                },
                Some(m) => {
                    let c = leds_count_from_matrix_map(id.as_str(), m);
                    proof {
                        assert(matrix_check(trimmed(dto.id@), dto.matrix->0, c));
                    }
                    match c {
                        Err(e) => {
                            return Err(e);
                        },
                        Ok(n) => {
                            leds_count = n;
                            matrix = Some(m.duplicate());
                        },
                    }
                },
            }
        },
    }
    let capabilities = capabilities_for_output(output_type, leds_count);
    Ok(OutputPortDefinition { id, name, output_type, leds_count, matrix, capabilities })
}

/// Output `i` has a non-empty id that no earlier output has.
pub open spec fn id_ok_at(dtos: Seq<OutputPortConfig>, i: int) -> bool {
    &&& trimmed(dtos[i].id@).len() > 0
    &&& forall|j: int| 0 <= j < i ==> trimmed(dtos[j].id@) != trimmed(dtos[i].id@)
}

/// Output `i` is accepted.
pub open spec fn item_ok(dtos: Seq<OutputPortConfig>, i: int) -> bool {
    id_ok_at(dtos, i) && exists|def: OutputPortDefinition| output_def_result(dtos[i], Ok(def))
}

/// The error with which output `i` is refused, when the earlier ones were accepted.
pub open spec fn item_error(dtos: Seq<OutputPortConfig>, i: int, e: Seq<char>) -> bool {
    let id = trimmed(dtos[i].id@);
    if id.len() == 0 {
        e == "Output id cannot be empty"@
    } else if exists|j: int| 0 <= j < i && trimmed(dtos[j].id@) == id {
        e == "Duplicate output id: "@ + id
    } else {
        exists|s: String| s@ == e && output_def_result(dtos[i], Err(s))
    }
}

/// The configuration is refused with message `e`: every output before some output `i`
/// was accepted, and output `i` is refused with `e`.
pub open spec fn config_refused(dtos: Seq<OutputPortConfig>, e: Seq<char>) -> bool {
    exists|i: int| 0 <= i < dtos.len() && (forall|j: int| 0 <= j < i ==> item_ok(dtos, j))
        && #[trigger] item_error(dtos, i, e)
}

/// Every output is accepted and yields the definition at its position.
pub open spec fn config_accepted(dtos: Seq<OutputPortConfig>, defs: Seq<OutputPortDefinition>) -> bool {
    &&& defs.len() == dtos.len()
    &&& forall|i: int| 0 <= i < dtos.len() ==> id_ok_at(dtos, i) && output_def_result(dtos[i], Ok(#[trigger] defs[i]))
}

/// All matrices of the configuration have bounded LED indices.
pub open spec fn config_indices_bounded(dtos: Seq<OutputPortConfig>) -> bool {
    forall|i: int| 0 <= i < dtos.len() ==> #[trigger] matrix_indices_bounded(dtos[i].matrix)
}

/// Turns the configured outputs into output definitions; the first refused output
/// (empty id, repeated id, or invalid description) refuses the whole configuration.
pub fn build_outputs_from_config(outputs: &Vec<OutputPortConfig>) -> (r: Result<Vec<OutputPortDefinition>, String>)
    requires
        config_indices_bounded(outputs@),
    ensures
        match r {
            Ok(defs) => config_accepted(outputs@, defs@),
            Err(e) => config_refused(outputs@, e@),
        },
{
    let mut defs: Vec<OutputPortDefinition> = Vec::new();
    let mut seen: Vec<String> = Vec::new();
    let mut i: usize = 0;
    while i < outputs.len()
        invariant
            i <= outputs@.len(),
            config_indices_bounded(outputs@),
            defs@.len() == i,
            seen@.len() == i,
            forall|j: int| 0 <= j < i ==> #[trigger] seen@[j]@ == trimmed(outputs@[j].id@),
            forall|j: int| 0 <= j < i ==> #[trigger] id_ok_at(outputs@, j),
            forall|j: int| 0 <= j < i ==> output_def_result(outputs@[j], Ok(#[trigger] defs@[j])),
        decreases outputs.len() - i,
    {
        proof {
            assert forall|j: int| 0 <= j < i implies item_ok(outputs@, j) by {
                assert(output_def_result(outputs@[j], Ok(defs@[j])));
            }
        }
        let dto = &outputs[i];
        let id = owned(trim_str(dto.id.as_str()));
        if id.as_str().is_empty() {
            let e = owned("Output id cannot be empty");
            proof {
                assert(item_error(outputs@, i as int, e@));
            }
            return Err(e);
        }
        let mut k: usize = 0;
        while k < seen.len()
            invariant
                k <= seen@.len(),
                seen@.len() == i,
                i < outputs@.len(),
                id@ == trimmed(outputs@[i as int].id@),
                id@.len() > 0,
                forall|j: int| 0 <= j < i ==> item_ok(outputs@, j),
                forall|j: int| 0 <= j < i ==> #[trigger] seen@[j]@ == trimmed(outputs@[j].id@),
                forall|j: int| 0 <= j < k ==> seen@[j]@ != id@,
            decreases seen.len() - k,
        {
            if seen[k] == id {
                let m = concat2("Duplicate output id: ", id.as_str());
                proof {
                    assert(trimmed(outputs@[k as int].id@) == trimmed(outputs@[i as int].id@));
                    assert(item_error(outputs@, i as int, m@));
                }
                return Err(m);
            }
            k = k + 1;
        }
        proof {
            assert(matrix_indices_bounded(outputs@[i as int].matrix));
            assert(id_ok_at(outputs@, i as int)) by {
                assert forall|j: int| 0 <= j < i implies trimmed(outputs@[j].id@) != trimmed(outputs@[i as int].id@) by {
                    assert(seen@[j]@ == trimmed(outputs@[j].id@));
                }
            }
        }
        match output_def_from_dto(dto) {
            Ok(def) => {
                let ghost before = defs@;
                defs.push(def);
                seen.push(id);
                proof {
                    assert forall|j: int| 0 <= j <= i implies output_def_result(outputs@[j], Ok(#[trigger] defs@[j])) by {
                        if j < i {
                            assert(before[j] == defs@[j]);
                        }
                    }
                }
            },
            Err(e) => {
                proof {
                    assert(item_error(outputs@, i as int, e@));
                }
                return Err(e);
            },
        }
        i = i + 1;
    }
    Ok(defs)
}


/// A device found on the network.
#[derive(Clone, Debug)]
pub struct DiscoveredDevice {
    pub name: String,
    pub ip: String,
    pub port: u16,
}

/// "Unsupported protocol version: device={version}, supported=4".
pub open spec fn version_message(version: u8) -> Seq<char> {
    "Unsupported protocol version: device="@ + decimal(version as nat) + ", supported="@ + decimal(
        PROTOCOL_VERSION as nat,
    )
}

/// Refuses a device that speaks another protocol version.
pub fn check_protocol_version(version: u8) -> (r: Result<(), String>)
    ensures
        r is Ok <==> version == PROTOCOL_VERSION,
        r matches Err(e) ==> e@ == version_message(version),
{
    if version != PROTOCOL_VERSION {
        let mut msg = owned("Unsupported protocol version: device=");
        append_decimal(&mut msg, version as usize);
        msg.append(", supported=");
        append_decimal(&mut msg, PROTOCOL_VERSION as usize);
        return Err(msg);
    }
    Ok(())
}

proof fn lemma_leds_sum_prefix(s: Seq<OutputPortDefinition>, i: int)
    requires
        0 <= i <= s.len(),
    ensures
        0 <= leds_sum(s.take(i)) <= leds_sum(s),
    decreases s.len() - i,
{
    if i < s.len() {
        lemma_leds_sum_prefix(s, i + 1);
        assert(s.take(i + 1).drop_last() =~= s.take(i));
    } else {
        assert(s.take(i) =~= s);
    }
    lemma_leds_sum_nonneg(s.take(i));
}

proof fn lemma_leds_sum_nonneg(s: Seq<OutputPortDefinition>)
    ensures
        leds_sum(s) >= 0,
    decreases s.len(),
{
    if s.len() > 0 {
        lemma_leds_sum_nonneg(s.drop_last());
    }
}

/// What a connection to a device is set up with.
#[derive(Clone, Copy, Debug)]
pub struct DeviceSetup {
    /// The LEDs of all outputs together.
    pub led_count: usize,
    /// The pixels that one fragment carries.
    pub max_pixels_per_fragment: usize,
}

/// "LED count {n} exceeds protocol index limit 65535".
pub open spec fn led_limit_message(n: nat) -> Seq<char> {
    "LED count "@ + decimal(n) + " exceeds protocol index limit "@ + decimal(65535)
}

/// Checks the outputs a device reports: there must be some, with LEDs, and no more
/// LEDs than 16-bit indices reach. Fragments then carry as many pixels as fit in the
/// recommended payload.
pub fn check_device_outputs(outputs: &Vec<OutputPortDefinition>) -> (r: Result<DeviceSetup, String>)
    requires
        leds_sum(outputs@) <= usize::MAX,
    ensures
        outputs@.len() == 0 ==> (r matches Err(e) && e@ == "Device config is empty"@),
        outputs@.len() > 0 && leds_sum(outputs@) == 0 ==> (r matches Err(e) && e@ == "Device reports zero LEDs"@),
        outputs@.len() > 0 && leds_sum(outputs@) > 65535 ==> (r matches Err(e) && e@ == led_limit_message(
            leds_sum(outputs@) as nat,
        )),
        outputs@.len() > 0 && 0 < leds_sum(outputs@) <= 65535 ==> (r matches Ok(setup)
            && setup.led_count == leds_sum(outputs@)
            && setup.max_pixels_per_fragment == (MAX_UDP_PAYLOAD - 6) / 5),
{
    if outputs.len() == 0 {
        return Err(owned("Device config is empty"));
    }
    let mut led_count: usize = 0;
    let mut i: usize = 0;
    while i < outputs.len()
        invariant
            i <= outputs@.len(),
            leds_sum(outputs@) <= usize::MAX,
            led_count == leds_sum(outputs@.take(i as int)),
        decreases outputs@.len() - i,
    {
        proof {
            lemma_leds_sum_prefix(outputs@, i as int + 1);
            assert(outputs@.take(i as int + 1).drop_last() =~= outputs@.take(i as int));
        }
        led_count = led_count + outputs[i].leds_count;
        i = i + 1;
    }
    assert(outputs@.take(i as int) =~= outputs@);
    if led_count == 0 {
        return Err(owned("Device reports zero LEDs"));
    }
    if led_count > 65535 {
        let mut msg = owned("LED count ");
        append_decimal(&mut msg, led_count);
        msg.append(" exceeds protocol index limit ");
        append_decimal(&mut msg, 65535);
        return Err(msg);
    }
    match LedMatrixProtocol::max_pixels_per_fragment(MAX_UDP_PAYLOAD) {
        Ok(max_pixels_per_fragment) => Ok(DeviceSetup { led_count, max_pixels_per_fragment }),
        Err(e) => Err(concat2("Invalid UDP payload setting: ", e.as_str())),
    }
}

/// What an assembler of configuration fragments holds: the message being assembled
/// (after the first fragment), its fragment count, and the data received per index.
pub struct AssemblyView {
    pub msg_id: Option<u8>,
    pub total: nat,
    pub parts: Seq<Option<Seq<u8>>>,
}

/// The received parts joined in index order.
pub open spec fn joined_parts(parts: Seq<Option<Seq<u8>>>) -> Seq<u8>
    decreases parts.len(),
{
    if parts.len() == 0 {
        Seq::empty()
    } else {
        joined_parts(parts.drop_last()) + match parts.last() {
            Some(d) => d,
            None => Seq::empty(),
        }
    }
}

/// Every part has been received.
pub open spec fn all_received(parts: Seq<Option<Seq<u8>>>) -> bool {
    forall|i: int| 0 <= i < parts.len() ==> #[trigger] parts[i] is Some
}

/// The assembler after the first fragment of a message of `total` fragments fixed it.
pub open spec fn started(v: AssemblyView, msg_id: u8, total: u8) -> AssemblyView {
    if v.msg_id is None {
        AssemblyView { msg_id: Some(msg_id), total: total as nat, parts: Seq::new(total as nat, |i: int| None) }
    } else {
        v
    }
}

/// A fragment belongs to the message being assembled and fits in it.
pub open spec fn fragment_fits(v: AssemblyView, msg_id: u8, total: u8, index: u8) -> bool {
    v.msg_id == Some(msg_id) && total as nat == v.total && (index as nat) < v.total
}

/// The assembler after it took a fragment: the message is fixed by the first fragment,
/// and a fragment that fits stores its data at its index, replacing what was there.
pub open spec fn fed(v: AssemblyView, msg_id: u8, total: u8, index: u8, data: Seq<u8>) -> AssemblyView {
    let s = started(v, msg_id, total);
    if fragment_fits(s, msg_id, total, index) {
        AssemblyView { parts: s.parts.update(index as int, Some(data)), ..s }
    } else {
        s
    }
}

/// What feeding one configuration fragment led to.
pub enum AssemblyStep {
    /// The fragment belongs to another message, disagrees on the fragment count or has
    /// an index beyond it; nothing was stored.
    Ignored,
    /// The first fragment announced a message of no fragments.
    Empty,
    /// Stored; fragments are still missing.
    Pending,
    /// Every fragment is in: the data of all fragments in index order.
    Complete(Vec<u8>),
}

/// Reassembles a configuration message from fragments arriving in any order.
pub struct ConfigAssembler {
    msg_id: Option<u8>,
    total_fragments: usize,
    fragments: Vec<Option<Vec<u8>>>,
}

/// The data of received parts.
pub open spec fn parts_view(parts: Seq<Option<Vec<u8>>>) -> Seq<Option<Seq<u8>>> {
    parts.map_values(|p: Option<Vec<u8>>| match p {
        Some(d) => Some(d@),
        None => None,
    })
}

impl View for ConfigAssembler {
    type V = AssemblyView;

    closed spec fn view(&self) -> AssemblyView {
        AssemblyView { msg_id: self.msg_id, total: self.total_fragments as nat, parts: parts_view(self.fragments@) }
    }
}

impl ConfigAssembler {
    /// The assembler holds as many parts as its message has fragments.
    pub closed spec fn wf(&self) -> bool {
        &&& self.fragments@.len() == self.total_fragments
        &&& self.msg_id is None ==> self.total_fragments == 0
    }

    /// An assembler that has seen no fragment.
    pub fn new() -> (a: ConfigAssembler)
        ensures
            a.wf(),
            a@.msg_id is None,
            a@.total == 0,
            a@.parts.len() == 0,
    {
        let a = ConfigAssembler { msg_id: None, total_fragments: 0, fragments: Vec::new() };
        assert(a@.parts =~= Seq::<Option<Seq<u8>>>::empty());
        a
    }

    /// Takes one fragment of the configuration message.
    pub fn on_fragment(&mut self, fragment: &ConfigFragment) -> (step: AssemblyStep)
        requires
            old(self).wf(),
        ensures
            final(self).wf(),
            ({
                let s = started(old(self)@, fragment.msg_id, fragment.total_fragments);
                if old(self)@.msg_id is None && fragment.total_fragments == 0 {
                    step is Empty && final(self)@ == s
                } else if !fragment_fits(s, fragment.msg_id, fragment.total_fragments, fragment.fragment_index) {
                    step is Ignored && final(self)@ == s
                } else {
                    &&& final(self)@ == fed(old(self)@, fragment.msg_id, fragment.total_fragments, fragment.fragment_index, fragment.data@)
                    &&& match step {
                        AssemblyStep::Complete(bytes) => all_received(final(self)@.parts) && bytes@ == joined_parts(final(self)@.parts),
                        AssemblyStep::Pending => !all_received(final(self)@.parts),
                        _ => false,
                    }
                }
            }),
    {
        if self.msg_id.is_none() {
            self.msg_id = Some(fragment.msg_id);
            self.total_fragments = fragment.total_fragments as usize;
            let mut parts: Vec<Option<Vec<u8>>> = Vec::new();
            let mut k: usize = 0;
            while k < self.total_fragments
                invariant
                    k <= self.total_fragments,
                    parts@.len() == k,
                    forall|i: int| 0 <= i < k ==> #[trigger] parts@[i] is None,
                decreases self.total_fragments - k,
            {
                parts.push(None);
                k = k + 1;
            }
            self.fragments = parts;
            assert(self@.parts =~= Seq::new(fragment.total_fragments as nat, |i: int| None::<Seq<u8>>));
            if self.total_fragments == 0 {
                return AssemblyStep::Empty;
            }
        }
        if self.msg_id != Some(fragment.msg_id) || fragment.total_fragments as usize != self.total_fragments {
            return AssemblyStep::Ignored;
        }
        let idx = fragment.fragment_index as usize;
        if idx >= self.total_fragments {
            return AssemblyStep::Ignored;
        }
        let data = vstd::slice::slice_to_vec(fragment.data);
        let ghost before = self.fragments@;
        self.fragments.set(idx, Some(data));
        assert(self@.parts =~= parts_view(before).update(idx as int, Some(fragment.data@)));
        let mut all = true;
        let mut k: usize = 0;
        while k < self.fragments.len()
            invariant
                self.wf(),
                k <= self.fragments@.len(),
                all <==> forall|i: int| 0 <= i < k ==> #[trigger] self.fragments@[i] is Some,
            decreases self.fragments@.len() - k,
        {
            if self.fragments[k].is_none() {
                all = false;
            }
            k = k + 1;
        }
        proof {
            assert(self@.parts.len() == self.fragments@.len());
            if all {
                assert forall|i: int| 0 <= i < self@.parts.len() implies #[trigger] self@.parts[i] is Some by {
                    assert(self.fragments@[i] is Some);
                }
            } else {
                let i = choose|i: int| 0 <= i < self.fragments@.len() && !(#[trigger] self.fragments@[i] is Some);
                assert(!(self@.parts[i] is Some));
            }
        }
        if !all {
            return AssemblyStep::Pending;
        }
        let mut bytes: Vec<u8> = Vec::new();
        let mut k: usize = 0;
        while k < self.fragments.len()
            invariant
                self.wf(),
                k <= self.fragments@.len(),
                bytes@ == joined_parts(parts_view(self.fragments@).take(k as int)),
            decreases self.fragments@.len() - k,
        {
            proof {
                assert(parts_view(self.fragments@).take(k as int + 1).drop_last() =~= parts_view(self.fragments@).take(k as int));
            }
            match &self.fragments[k] {
                Some(d) => {
                    let mut c = vstd::slice::slice_to_vec(d.as_slice());
                    bytes.append(&mut c);
                },
                None => {},
            }
            k = k + 1;
        }
        assert(parts_view(self.fragments@).take(k as int) =~= parts_view(self.fragments@));
        AssemblyStep::Complete(bytes)
    }
}

/// Two fragments of the message being assembled, at different indices, leave the same
/// assembler whichever arrives first.
pub proof fn law_fragment_order_does_not_matter(
    v: AssemblyView,
    msg_id: u8,
    total: u8,
    a: u8,
    da: Seq<u8>,
    b: u8,
    db: Seq<u8>,
)
    requires
        v.msg_id == Some(msg_id),
        v.total == total as nat,
        v.parts.len() == v.total,
        a != b,
    ensures
        fed(fed(v, msg_id, total, a, da), msg_id, total, b, db) == fed(fed(v, msg_id, total, b, db), msg_id, total, a, da),
{
    let x = fed(fed(v, msg_id, total, a, da), msg_id, total, b, db);
    let y = fed(fed(v, msg_id, total, b, db), msg_id, total, a, da);
    assert(x.parts =~= y.parts);
}


/// Every LED of a frame goes out exactly where the fragments put it: LED `j` is pixel
/// `j % max_pixels` of fragment `j / max_pixels`, whose pixels start at LED index
/// `(j / max_pixels) * max_pixels`, so its entry carries index `j` and its color.
pub proof fn law_every_led_in_its_fragment(colors: Seq<Color>, max_pixels: int, j: int)
    requires
        max_pixels > 0,
        0 <= j < colors.len(),
    ensures
        ({
            let i = j / max_pixels;
            let k = j % max_pixels;
            &&& i * max_pixels + k == j
            &&& 0 <= k < fragment_colors(colors, i, max_pixels).len()
            &&& fragment_colors(colors, i, max_pixels)[k] == colors[j]
        }),
{
    let i = j / max_pixels;
    let k = j % max_pixels;
    assert(i * max_pixels + k == j && 0 <= k < max_pixels) by (nonlinear_arith)
        requires
            max_pixels > 0,
            i == j / max_pixels,
            k == j % max_pixels,
    ;
    assert(0 <= i * max_pixels) by (nonlinear_arith)
        requires
            max_pixels > 0,
            i == j / max_pixels,
            j >= 0,
    ;
}

} // verus!
