//! The world map image: shard and player names for the session files, and
//! the decoding of a world session's tile grid.
use vstd::prelude::*;
use vstd::utf8::encode_utf8;
use crate::text::{chars_eq, chars_of, range_eq, contains_seq, find_from, find_seq, lemma_find_seq, occurs_at,
    push_char, push_str, string_from_range};
use crate::png::{encode_png_rgba, png_encodable, png_file};
use crate::validation::{
    ku_id_problem, path_atom_problem, validate_ku_id, validate_level_name, KuId, LevelName,
    ValidationError,
};

verus! {

broadcast use vstd::string::group_string_axioms;

/// Why a map could not be produced.
#[derive(Debug, Clone, Copy, PartialEq, Eq)]
pub enum MapError {
    /// A width or height is missing or zero.
    EmptyDimensions,
    /// A width or height is not a number that fits.
    MalformedDimension,
    /// The map would exceed the image size limits.
    TooLarge,
    /// The session holds no `tiles="..."` data.
    MissingTiles,
    /// The tile data exceeds its size limit.
    TilesTooLarge,
    /// The tile data is not valid base64.
    InvalidBase64,
    /// The pixels could not be encoded as a PNG image.
    ImageEncoding,
}

/// The message shown to clients for an error.
pub open spec fn map_error_text(e: MapError) -> Seq<char> {
    match e {
        MapError::EmptyDimensions => "地图尺寸不能为空"@,
        MapError::MalformedDimension => "地图尺寸格式错误"@,
        MapError::TooLarge => "地图尺寸超过安全限制"@,
        MapError::MissingTiles => "无法在存档中找到地图数据"@,
        MapError::TilesTooLarge => "地图数据超过安全限制"@,
        MapError::InvalidBase64 => "base64解码失败"@,
        MapError::ImageEncoding => "PNG pixel buffer size mismatch"@,
    }
}

impl MapError {
    /// The message shown to clients.
    pub fn message(&self) -> (m: &'static str)
        ensures
            m@ == map_error_text(*self),
    {
        match self {
            MapError::EmptyDimensions => "地图尺寸不能为空",
            MapError::MalformedDimension => "地图尺寸格式错误",
            MapError::TooLarge => "地图尺寸超过安全限制",
            MapError::MissingTiles => "无法在存档中找到地图数据",
            MapError::TilesTooLarge => "地图数据超过安全限制",
            MapError::InvalidBase64 => "base64解码失败",
            MapError::ImageEncoding => "PNG pixel buffer size mismatch",
        }
    }
}

/// A validated shard name.
#[derive(Debug, Clone)]
pub struct MapLevel {
    level_name: LevelName,
}

impl MapLevel {
    pub closed spec fn view(&self) -> Seq<char> {
        self.level_name@
    }

    /// Validates a shard name before it names a cluster-relative path.
    pub fn parse(level_name: &str) -> (r: Result<MapLevel, ValidationError>)
        ensures
            match path_atom_problem(level_name@) {
                None => r matches Ok(l) && l.view() == level_name@,
                Some(reason) => r matches Err(e) && e.field == "level name" && e.reason == reason,
            },
    {
        let level_name = validate_level_name(level_name)?;
        Ok(MapLevel { level_name })
    }

    /// The validated name.
    pub fn as_str(&self) -> (s: &str)
        ensures
            s@ == self.view(),
    {
        self.level_name.as_str()
    }
}

/// A validated Klei user id.
#[derive(Debug, Clone)]
pub struct MapKuId {
    ku_id: KuId,
}

impl MapKuId {
    pub closed spec fn view(&self) -> Seq<char> {
        self.ku_id@
    }

    /// Validates a `KU_...` id before it names a player directory.
    pub fn parse(ku_id: &str) -> (r: Result<MapKuId, ValidationError>)
        ensures
            match ku_id_problem(ku_id@) {
                None => r matches Ok(k) && k.view() == ku_id@,
                Some(reason) => r matches Err(e) && e.field == "KU id" && e.reason == reason,
            },
    {
        let ku_id = validate_ku_id(ku_id)?;
        Ok(MapKuId { ku_id })
    }

    /// The name of the player's session directory: the id and `_`.
    pub fn player_dir_name(&self) -> (s: String)
        ensures
            s@ == self.view().push('_'),
    {
        let mut s = self.ku_id.as_str().to_string();
        push_char(&mut s, '_');
        s
    }
}

/// The cluster-relative path of a shard's generated map image.
pub fn image_relative_path(level: &MapLevel) -> (p: String)
    ensures
        p@ == "dst_map_"@ + level.view() + ".jpg"@,
{
    let mut p = "dst_map_".to_string();
    push_str(&mut p, level.as_str());
    push_str(&mut p, ".jpg");
    p
}

/// The cluster-relative directory of a shard's world sessions.
pub fn session_base_relative(level: &MapLevel) -> (p: String)
    ensures
        p@ == level.view() + "/save/session"@,
{
    let mut p = level.as_str().to_string();
    push_str(&mut p, "/save/session");
    p
}

/// Whether a world session mentions `WalrusHut_Plains`.
pub fn has_walrus_hut_plains(contents: &str) -> (b: bool)
    ensures
        b == contains_seq(contents@, "WalrusHut_Plains"@),
{
    let v = chars_of(contents);
    let pat = chars_of("WalrusHut_Plains");
    let r = find_from(&v, 0, &pat);
    proof {
        assert(v@.skip(0) =~= v@);
        lemma_find_seq(v@, pat@);
    }
    r.is_some()
}

/// The color of a tile id, when the id is known.
pub open spec fn tile_color_spec(tile_id: i32) -> Option<(u8, u8, u8)> {
    if tile_id == 0 { Some((42, 42, 42)) }
    else if tile_id == 1 { Some((42, 42, 44)) }
    else if tile_id == 2 { Some((80, 76, 65)) }
    else if tile_id == 3 { Some((90, 105, 104)) }
    else if tile_id == 4 { Some((117, 107, 85)) }
    else if tile_id == 5 { Some((144, 125, 89)) }
    else if tile_id == 6 { Some((48, 67, 39)) }
    else if tile_id == 7 { Some((40, 47, 18)) }
    else if tile_id == 8 { Some((81, 28, 194)) }
    else if tile_id == 9 { Some((0, 0, 7)) }
    else if tile_id == 10 { Some((85, 69, 48)) }
    else if tile_id == 11 { Some((64, 75, 116)) }
    else if tile_id == 12 { Some((115, 133, 201)) }
    else if tile_id == 13 { Some((139, 131, 115)) }
    else if tile_id == 14 { Some((74, 65, 77)) }
    else if tile_id == 15 { Some((67, 70, 32)) }
    else if tile_id == 16 { Some((75, 75, 73)) }
    else if tile_id == 17 { Some((66, 49, 30)) }
    else if tile_id == 18 { Some((115, 113, 107)) }
    else if tile_id == 19 { Some((86, 86, 81)) }
    else if tile_id == 20 { Some((74, 61, 84)) }
    else if tile_id == 21 { Some((66, 50, 76)) }
    else if tile_id == 22 { Some((39, 38, 39)) }
    else if tile_id == 23 { Some((34, 35, 34)) }
    else if tile_id == 24 { Some((70, 44, 43)) }
    else if tile_id == 25 { Some((62, 76, 61)) }
    else if 26 <= tile_id <= 29 { Some((42, 42, 44)) }
    else if tile_id == 30 { Some((91, 62, 14)) }
    else if tile_id == 31 { Some((117, 86, 46)) }
    else if tile_id == 32 { Some((31, 27, 27)) }
    else if tile_id == 33 || tile_id == 34 { Some((128, 128, 128)) }
    else if tile_id == 35 { Some((47, 44, 47)) }
    else if tile_id == 36 { Some((158, 104, 105)) }
    else if tile_id == 37 { Some((137, 113, 113)) }
    else if tile_id == 38 { Some((81, 97, 100)) }
    else if tile_id == 39 { Some((66, 58, 49)) }
    else if tile_id == 40 { Some((42, 42, 44)) }
    else if tile_id == 41 { Some((119, 113, 97)) }
    else if tile_id == 42 { Some((84, 108, 107)) }
    else if tile_id == 43 { Some((67, 133, 142)) }
    else if tile_id == 44 { Some((154, 146, 186)) }
    else if tile_id == 45 { Some((138, 96, 73)) }
    else if tile_id == 46 { Some((66, 86, 82)) }
    else if tile_id == 47 { Some((61, 57, 46)) }
    else if tile_id == 48 { Some((42, 42, 44)) }
    else if tile_id == 200 { Some((0, 0, 11)) }
    else if tile_id == 201 || tile_id == 202 { Some((18, 66, 73)) }
    else if tile_id == 203 { Some((7, 46, 61)) }
    else if tile_id == 204 { Some((1, 32, 46)) }
    else if tile_id == 205 || tile_id == 206 { Some((6, 54, 81)) }
    else if tile_id == 207 { Some((0, 24, 26)) }
    else if tile_id == 208 { Some((189, 193, 198)) }
    else if tile_id == 247 { Some((42, 42, 44)) }
    else { None }
}

/// The color of a tile id, when the id is known.
pub fn tile_color(tile_id: i32) -> (c: Option<(u8, u8, u8)>)
    ensures
        c == tile_color_spec(tile_id),
{
    match tile_id {
        0 => Some((42, 42, 42)),
        1 => Some((42, 42, 44)),
        2 => Some((80, 76, 65)),
        3 => Some((90, 105, 104)),
        4 => Some((117, 107, 85)),
        5 => Some((144, 125, 89)),
        6 => Some((48, 67, 39)),
        7 => Some((40, 47, 18)),
        8 => Some((81, 28, 194)),
        9 => Some((0, 0, 7)),
        10 => Some((85, 69, 48)),
        11 => Some((64, 75, 116)),
        12 => Some((115, 133, 201)),
        13 => Some((139, 131, 115)),
        14 => Some((74, 65, 77)),
        15 => Some((67, 70, 32)),
        16 => Some((75, 75, 73)),
        17 => Some((66, 49, 30)),
        18 => Some((115, 113, 107)),
        19 => Some((86, 86, 81)),
        20 => Some((74, 61, 84)),
        21 => Some((66, 50, 76)),
        22 => Some((39, 38, 39)),
        23 => Some((34, 35, 34)),
        24 => Some((70, 44, 43)),
        25 => Some((62, 76, 61)),
        26..=29 => Some((42, 42, 44)),
        30 => Some((91, 62, 14)),
        31 => Some((117, 86, 46)),
        32 => Some((31, 27, 27)),
        33 | 34 => Some((128, 128, 128)),
        35 => Some((47, 44, 47)),
        36 => Some((158, 104, 105)),
        37 => Some((137, 113, 113)),
        38 => Some((81, 97, 100)),
        39 => Some((66, 58, 49)),
        40 => Some((42, 42, 44)),
        41 => Some((119, 113, 97)),
        42 => Some((84, 108, 107)),
        43 => Some((67, 133, 142)),
        44 => Some((154, 146, 186)),
        45 => Some((138, 96, 73)),
        46 => Some((66, 86, 82)),
        47 => Some((61, 57, 46)),
        48 => Some((42, 42, 44)),
        200 => Some((0, 0, 11)),
        201 | 202 => Some((18, 66, 73)),
        203 => Some((7, 46, 61)),
        204 => Some((1, 32, 46)),
        205 | 206 => Some((6, 54, 81)),
        207 => Some((0, 24, 26)),
        208 => Some((189, 193, 198)),
        247 => Some((42, 42, 44)),
        _ => None,
    }
}

/// The tile id that an encoded session value stands for: its high byte when
/// that is a known tile, else the id below it, else an ocean id shifted from
/// `0xC8..=0xFF` into `200..`, else 0.
pub open spec fn restore_tile_id_spec(original: i32) -> i32 {
    let high = (original / 256) as i32;
    if tile_color_spec(high) is Some {
        high
    } else if high > 0 && tile_color_spec((high - 1) as i32) is Some {
        (high - 1) as i32
    } else if 0xC8 <= high <= 0xFF && tile_color_spec((200 + (high - 0xC8)) as i32) is Some {
        (200 + (high - 0xC8)) as i32
    } else {
        0
    }
}

/// A session stores a tile as a 16-bit value whose high byte is the tile id:
/// for every known tile id `t` (`0..=48`, `200..=208` and `247`) and every low
/// byte `b`, the value `t * 256 + b` stands for tile `t`, drawn in `t`'s color.
/// In general only the high byte of a value decides its tile.
pub proof fn lemma_restore_tile_id_high_byte(t: i32, b: i32, original: i32)
    ensures
        (0 <= t <= 48 || 200 <= t <= 208 || t == 247) && 0 <= b < 256 ==> restore_tile_id_spec(
            (t * 256 + b) as i32,
        ) == t && tile_color_spec(restore_tile_id_spec((t * 256 + b) as i32)) == tile_color_spec(t)
            && tile_color_spec(t) is Some,
        original >= 0 ==> restore_tile_id_spec(original) == restore_tile_id_spec(
            (original - original % 256) as i32,
        ),
{
    if (0 <= t <= 48 || 200 <= t <= 208 || t == 247) && 0 <= b < 256 {
        assert((t * 256 + b) / 256 == t) by (nonlinear_arith)
            requires
                0 <= b < 256,
                0 <= t <= 247,
        ;
        assert(tile_color_spec(t) is Some);
    }
    if original >= 0 {
        assert((original - original % 256) / 256 == original / 256) by (nonlinear_arith)
            requires
                original >= 0,
        ;
    }
}

/// The tile id that an encoded session value stands for.
pub fn restore_tile_id(original: i32) -> (id: i32)
    requires
        original >= 0,
    ensures
        id == restore_tile_id_spec(original),
{
    let high = original / 256;
    if tile_color(high).is_some() {
        return high;
    }
    if high > 0 && tile_color(high - 1).is_some() {
        return high - 1;
    }
    if 0xC8 <= high && high <= 0xFF {
        let candidate = 200 + (high - 0xC8);
        if tile_color(candidate).is_some() {
            return candidate;
        }
    }
    0
}

/// The value of one base64 digit.
pub open spec fn base64_value_spec(byte: u8) -> Option<u8> {
    if 65 <= byte <= 90 {
        Some((byte - 65) as u8)
    } else if 97 <= byte <= 122 {
        Some((byte - 97 + 26) as u8)
    } else if 48 <= byte <= 57 {
        Some((byte - 48 + 52) as u8)
    } else if byte == 43 {
        Some(62)
    } else if byte == 47 {
        Some(63)
    } else {
        None
    }
}

pub fn base64_value(byte: u8) -> (v: Option<u8>)
    ensures
        v == base64_value_spec(byte),
{
    if 65 <= byte && byte <= 90 {
        Some(byte - 65)
    } else if 97 <= byte && byte <= 122 {
        Some(byte - 97 + 26)
    } else if 48 <= byte && byte <= 57 {
        Some(byte - 48 + 52)
    } else if byte == 43 {
        Some(62)
    } else if byte == 47 {
        Some(63)
    } else {
        None
    }
}

/// ASCII whitespace, as `u8::is_ascii_whitespace`.
pub open spec fn is_ascii_ws(b: u8) -> bool {
    b == 32 || b == 9 || b == 10 || b == 12 || b == 13
}

/// The state of the base64 decoder: output so far, pending bits and their
/// count, and whether padding was seen.
pub struct B64State {
    pub out: Seq<u8>,
    pub buffer: nat,
    pub bits: nat,
    pub saw_padding: bool,
}

/// One input byte: whitespace is skipped, `=` starts the padding, and any
/// digit after the padding or any other byte is an error (`None`). Each
/// digit adds six bits; every complete byte is emitted.
pub open spec fn b64_step(st: B64State, byte: u8) -> Option<B64State> {
    if is_ascii_ws(byte) {
        Some(st)
    } else if byte == 61 {
        Some(B64State { saw_padding: true, ..st })
    } else if st.saw_padding {
        None
    } else {
        match base64_value_spec(byte) {
            None => None,
            Some(v) => {
                let buffer = (st.buffer * 64 + v) as nat;
                let bits = (st.bits + 6) as nat;
                if bits >= 8 {
                    let bits2 = (bits - 8) as nat;
                    let p = pow2(bits2);
                    Some(B64State {
                        out: st.out.push(((buffer / p) % 256) as u8),
                        buffer: (buffer % p) as nat,
                        bits: bits2,
                        saw_padding: false,
                    })
                } else {
                    Some(B64State { out: st.out, buffer, bits, saw_padding: false })
                }
            },
        }
    }
}

pub open spec fn pow2(n: nat) -> nat
    decreases n,
{
    if n == 0 {
        1
    } else {
        2 * pow2((n - 1) as nat)
    }
}

/// The decoder state after `input`, or `None` after an error.
pub open spec fn b64_run(input: Seq<u8>) -> Option<B64State>
    decreases input.len(),
{
    if input.len() == 0 {
        Some(B64State { out: Seq::empty(), buffer: 0, bits: 0, saw_padding: false })
    } else {
        match b64_run(input.drop_last()) {
            None => None,
            Some(st) => b64_step(st, input.last()),
        }
    }
}

/// The bytes that base64 text decodes to, or `None` when it is invalid.
pub open spec fn decode_base64_spec(input: Seq<u8>) -> Option<Seq<u8>> {
    match b64_run(input) {
        Some(st) => Some(st.out),
        None => None,
    }
}

/// Decodes base64 text, ignoring whitespace and everything from the first
/// `=` on as long as only padding and whitespace follow.
pub fn decode_base64(input: &str) -> (r: Result<Vec<u8>, MapError>)
    ensures
        match decode_base64_spec(encode_utf8(input@)) {
            Some(out) => r matches Ok(v) && v@ == out,
            None => r == Err::<Vec<u8>, MapError>(MapError::InvalidBase64),
        },
{
    let bytes = input.as_bytes();
    let ghost bs = bytes@;
    assert(bs == encode_utf8(input@));
    let mut out: Vec<u8> = Vec::new();
    let mut buffer: u32 = 0;
    let mut bits: u32 = 0;
    let mut saw_padding = false;
    let mut i: usize = 0;
    proof {
        assert(bs.take(0) =~= Seq::<u8>::empty());
    }
    while i < bytes.len()
        invariant
            i <= bytes.len(),
            bs == bytes@,
            bs == encode_utf8(input@),
            bits < 8,
            buffer < pow2(bits as nat),
            b64_run(bs.take(i as int)) == Some(
                B64State { out: out@, buffer: buffer as nat, bits: bits as nat, saw_padding },
            ),
        decreases bytes.len() - i,
    {
        let byte = bytes[i];
        proof {
            assert(bs.take(i + 1).drop_last() =~= bs.take(i as int));
            assert(bs.take(i + 1).last() == byte);
            lemma_pow2_small(bits as nat);
        }
        if byte == 32 || byte == 9 || byte == 10 || byte == 12 || byte == 13 {
        } else if byte == 61 {
            saw_padding = true;
        } else if saw_padding {
            proof {
                let st = B64State { out: out@, buffer: buffer as nat, bits: bits as nat, saw_padding };
                assert(b64_step(st, byte) is None);
                assert(b64_run(bs.take(i + 1)) == b64_step(st, byte));
                lemma_b64_none(bs, i + 1);
            }
            return Err(MapError::InvalidBase64);
        } else {
            let v = match base64_value(byte) {
                Some(v) => v,
                None => {
                    proof {
                        let st = B64State { out: out@, buffer: buffer as nat, bits: bits as nat, saw_padding };
                        assert(b64_step(st, byte) is None);
                        assert(b64_run(bs.take(i + 1)) == b64_step(st, byte));
                        lemma_b64_none(bs, i + 1);
                    }
                    return Err(MapError::InvalidBase64);
                },
            };
            let nb = buffer * 64 + v as u32;
            let nbits = bits + 6;
            if nbits >= 8 {
                let rest = nbits - 8;
                proof {
                    lemma_pow2_small(rest as nat);
                }
                let p: u32 = pow2_exec(rest);
                out.push(((nb / p) % 256) as u8);
                let nbuf = nb % p;
                assert(nbuf < p) by (nonlinear_arith)
                    requires
                        p > 0,
                        nbuf == nb % p,
                ;
                buffer = nbuf;
                bits = rest;
            } else {
                proof {
                    lemma_pow2_grow(bits as nat);
                    assert(nb < pow2(nbits as nat));
                }
                buffer = nb;
                bits = nbits;
            }
        }
        i = i + 1;
    }
    proof {
        assert(bs.take(bytes.len() as int) =~= bs);
    }
    Ok(out)
}

pub proof fn lemma_pow2_small(n: nat)
    requires
        n <= 13,
    ensures
        pow2(n) <= 8192,
        pow2(n) >= 1,
        n == 0 ==> pow2(n) == 1,
        n == 1 ==> pow2(n) == 2,
        n == 2 ==> pow2(n) == 4,
        n == 3 ==> pow2(n) == 8,
        n == 4 ==> pow2(n) == 16,
        n == 5 ==> pow2(n) == 32,
        n == 6 ==> pow2(n) == 64,
        n == 7 ==> pow2(n) == 128,
{
    reveal_with_fuel(pow2, 14);
}

/// Once the decoder fails, it stays failed.
pub proof fn lemma_b64_none(bs: Seq<u8>, k: int)
    requires
        0 <= k <= bs.len(),
        b64_run(bs.take(k)) is None,
    ensures
        b64_run(bs) is None,
    decreases bs.len() - k,
{
    if k < bs.len() {
        assert(bs.take(k + 1).drop_last() =~= bs.take(k));
        lemma_b64_none(bs, k + 1);
    } else {
        assert(bs.take(k) =~= bs);
    }
}

pub proof fn lemma_pow2_grow(n: nat)
    requires
        n <= 7,
    ensures
        pow2(n + 6) == pow2(n) * 64,
{
    reveal_with_fuel(pow2, 7);
    lemma_pow2_small(n);
}

fn pow2_exec(n: u32) -> (p: u32)
    requires
        n <= 7,
    ensures
        p == pow2(n as nat),
{
    proof {
        lemma_pow2_small(n as nat);
    }
    if n == 0 { 1 } else if n == 1 { 2 } else if n == 2 { 4 } else if n == 3 { 8 }
    else if n == 4 { 16 } else if n == 5 { 32 } else if n == 6 { 64 } else { 128 }
}

/// The index of the first non-zero byte at or after `from`.
pub open spec fn skip_zeros(b: Seq<u8>, from: int) -> int
    decreases b.len() - from,
{
    if 0 <= from < b.len() && b[from] == 0 {
        skip_zeros(b, from + 1)
    } else {
        from
    }
}

pub proof fn lemma_skip_zeros(b: Seq<u8>, from: int)
    requires
        0 <= from <= b.len(),
    ensures
        from <= skip_zeros(b, from) <= b.len(),
    decreases b.len() - from,
{
    if from < b.len() && b[from] == 0 {
        lemma_skip_zeros(b, from + 1);
    }
}

/// Where the tile data starts: after a `VRSTN` header and its zero padding
/// when the data is longer than the header, else at once.
pub open spec fn tile_data_start(b: Seq<u8>) -> int {
    if b.len() > 5 && b.take(5) == seq![86u8, 82u8, 83u8, 84u8, 78u8] {
        skip_zeros(b, 5)
    } else {
        0
    }
}

/// The tile ids of decoded tile data: little-endian 16-bit values after the
/// header, an odd last byte dropped, each restored to its tile id.
pub open spec fn tile_ids_of(b: Seq<u8>) -> Seq<i32> {
    let data = b.skip(tile_data_start(b));
    let n = data.len() / 2;
    Seq::new(n, |i: int| restore_tile_id_spec((data[2 * i + 1] * 256 + data[2 * i]) as i32))
}

/// The tile ids of a session's base64 tile data.
pub fn decode_tile_ids(tiles_base64: &str) -> (r: Result<Vec<i32>, MapError>)
    ensures
        match decode_base64_spec(encode_utf8(tiles_base64@)) {
            Some(b) => r matches Ok(ids) && ids@ == tile_ids_of(b),
            None => r == Err::<Vec<i32>, MapError>(MapError::InvalidBase64),
        },
{
    let bytes = decode_base64(tiles_base64)?;
    let ghost b = bytes@;
    let mut start: usize = 0;
    if bytes.len() > 5 && bytes[0] == 86 && bytes[1] == 82 && bytes[2] == 83 && bytes[3] == 84 && bytes[4] == 78 {
        assert(b.take(5) =~= seq![86u8, 82u8, 83u8, 84u8, 78u8]);
        start = 5;
        while start < bytes.len() && bytes[start] == 0
            invariant
                5 <= start <= bytes.len(),
                skip_zeros(b, 5) == skip_zeros(b, start as int),
                b == bytes@,
            decreases bytes.len() - start,
        {
            start = start + 1;
        }
    } else {
        proof {
            if b.len() > 5 && b.take(5) == seq![86u8, 82u8, 83u8, 84u8, 78u8] {
                assert(b.take(5)[0] == b[0] && b.take(5)[1] == b[1] && b.take(5)[2] == b[2]);
                assert(b.take(5)[3] == b[3] && b.take(5)[4] == b[4]);
            }
        }
    }
    assert(start as int == tile_data_start(b));
    let ghost data = b.skip(start as int);
    let n = (bytes.len() - start) / 2;
    let mut ids: Vec<i32> = Vec::new();
    let mut k: usize = 0;
    while k < n
        invariant
            start <= bytes.len(),
            n == (bytes.len() - start) / 2,
            b == bytes@,
            data == b.skip(start as int),
            k <= n,
            ids@.len() == k,
            forall|i: int| 0 <= i < k ==> #[trigger] ids@[i] == restore_tile_id_spec((data[2 * i + 1] * 256 + data[2 * i]) as i32),
        decreases n - k,
    {
        let lo = bytes[start + 2 * k];
        let hi = bytes[start + 2 * k + 1];
        let encoded = (hi as i32) * 256 + (lo as i32);
        ids.push(restore_tile_id(encoded));
        k = k + 1;
    }
    assert(ids@ =~= tile_ids_of(b));
    Ok(ids)
}

/// The run of ASCII digits that starts `s`.
pub open spec fn digit_prefix(s: Seq<char>) -> Seq<char>
    decreases s.len(),
{
    if s.len() > 0 && crate::text::is_ascii_digit(s[0]) {
        seq![s[0]] + digit_prefix(s.drop_first())
    } else {
        Seq::empty()
    }
}

/// The number after the first `key=` of a session: 0 when the key or its
/// digits are missing, an error when the digits do not fit `usize`.
pub open spec fn dimension_of(contents: Seq<char>, key: Seq<char>) -> Result<usize, MapError> {
    let marker = key.push('=');
    match find_seq(contents, marker) {
        None => Ok(0),
        Some(i) => {
            let d = digit_prefix(contents.skip(i + marker.len()));
            if d.len() == 0 {
                Ok(0)
            } else {
                match crate::numbers::parse_unsigned(d, usize::MAX as nat) {
                    Some(n) => Ok(n as usize),
                    None => Err(MapError::MalformedDimension),
                }
            }
        },
    }
}

/// The number after the first `key=` of a session.
pub fn extract_dimension(contents: &str, key: &str) -> (r: Result<usize, MapError>)
    ensures
        r == dimension_of(contents@, key@),
{
    let v = chars_of(contents);
    let mut marker = chars_of(key);
    marker.push('=');
    proof {
        assert(v@.skip(0) =~= v@);
    }
    let at = find_from(&v, 0, &marker);
    proof {
        lemma_find_seq(v@, marker@);
    }
    let i = match at {
        None => return Ok(0),
        Some(i) => i,
    };
    let start = i + marker.len();
    let mut end = start;
    proof {
        assert(v@.subrange(start as int, start as int) =~= Seq::<char>::empty());
    }
    while end < v.len() && crate::text::is_digit(v[end])
        invariant
            start <= end <= v.len(),
            digit_prefix(v@.skip(start as int)) == v@.subrange(start as int, end as int) + digit_prefix(v@.skip(end as int)),
        decreases v.len() - end,
    {
        proof {
            assert(v@.skip(end as int).drop_first() =~= v@.skip(end + 1));
            assert(v@.subrange(start as int, end + 1) =~= v@.subrange(start as int, end as int) + seq![v@[end as int]]);
        }
        end = end + 1;
    }
    proof {
        assert(digit_prefix(v@.skip(end as int)) == Seq::<char>::empty());
        assert(v@.subrange(start as int, end as int) + Seq::<char>::empty() =~= v@.subrange(start as int, end as int));
    }
    if end == start {
        return Ok(0);
    }
    match crate::numbers::parse_unsigned_range(&v, start, end, usize::MAX as u64) {
        Some(n) => Ok(n as usize),
        None => Err(MapError::MalformedDimension),
    }
}

/// The base64 tile data between `tiles="` and the next `"`.
pub open spec fn tiles_of(contents: Seq<char>) -> Option<Seq<char>> {
    match find_seq(contents, "tiles=\""@) {
        None => None,
        Some(i) => {
            let rest = contents.skip(i + 7);
            match crate::text::first_index_of(rest, '"') {
                None => None,
                Some(e) => Some(rest.take(e)),
            }
        },
    }
}

/// The base64 tile data of a session.
pub fn extract_tiles_base64(contents: &str) -> (r: Result<String, MapError>)
    ensures
        match tiles_of(contents@) {
            Some(t) => r matches Ok(s) && s@ == t,
            None => r == Err::<String, MapError>(MapError::MissingTiles),
        },
{
    let v = chars_of(contents);
    let marker = chars_of("tiles=\"");
    proof {
        reveal_strlit("tiles=\"");
        assert(v@.skip(0) =~= v@);
    }
    let at = find_from(&v, 0, &marker);
    proof {
        lemma_find_seq(v@, marker@);
    }
    let i = match at {
        None => return Err(MapError::MissingTiles),
        Some(i) => i,
    };
    let start = i + 7;
    proof {
        assert(v@.subrange(start as int, v.len() as int) =~= v@.skip(start as int));
    }
    match crate::text::find_char(&v, start, v.len(), '"') {
        None => Err(MapError::MissingTiles),
        Some(e) => {
            proof {
                assert(v@.skip(start as int).take(e - start) =~= v@.subrange(start as int, e as int));
            }
            Ok(string_from_range(&v, start, e))
        },
    }
}

/// The integer square root of `n`.
pub open spec fn is_isqrt(r: nat, n: nat) -> bool {
    r * r <= n && n < (r + 1) * (r + 1)
}

/// The integer square root of `n`, for `n` below 2^32.
pub fn isqrt(n: u64) -> (r: u64)
    requires
        n < 0x1_0000_0000,
    ensures
        is_isqrt(r as nat, n as nat),
        r <= 0x1_0000,
{
    let mut r: u64 = 0;
    loop
        invariant
            r * r <= n,
            r <= 0xffff,
            n < 0x1_0000_0000,
        decreases n - r,
    {
        let next = r + 1;
        assert(next * next <= 0x1_0000_0000) by (nonlinear_arith)
            requires
                next <= 0x1_0000,
        ;
        let sq = next * next;
        if sq > n {
            return r;
        }
        assert(next <= 0xffff) by (nonlinear_arith)
            requires
                next * next <= n,
                n < 0x1_0000_0000,
        ;
        assert(next <= n) by (nonlinear_arith)
            requires
                next * next <= n,
                next >= 1,
        ;
        r = next;
    }
}

/// Most pixels of one side of a map image.
pub const MAX_MAP_IMAGE_SIDE: usize = 2048;

/// Most pixels of a map image.
pub const MAX_MAP_PIXELS: usize = 16777216;

/// Pixels per tile when the image limits allow it.
pub const TILE_SCALE: usize = 16;

/// The pixels per tile for a grid of `width` x `height` tiles: at most 16,
/// and small enough that each side stays within 2048 pixels and the image
/// within 16777216 pixels.
pub open spec fn tile_scale_of(width: usize, height: usize) -> Result<usize, MapError> {
    let count = width * height;
    if count > usize::MAX {
        Err(MapError::TooLarge)
    } else if count == 0 {
        Err(MapError::EmptyDimensions)
    } else {
        let max_side = if width > height { width } else { height };
        let by_side = MAX_MAP_IMAGE_SIDE as int / max_side as int;
        let q = MAX_MAP_PIXELS as int / count;
        let by_pixels = choose|r: nat| #[trigger] is_isqrt(r, q as nat);
        let max_scale = if by_side < by_pixels { by_side as int } else { by_pixels as int };
        if max_scale == 0 {
            Err(MapError::TooLarge)
        } else if TILE_SCALE < max_scale {
            Ok(TILE_SCALE)
        } else {
            Ok(max_scale as usize)
        }
    }
}

pub proof fn lemma_isqrt_unique(a: nat, b: nat, n: nat)
    requires
        is_isqrt(a, n),
        is_isqrt(b, n),
    ensures
        a == b,
{
    if a < b {
        assert((a + 1) * (a + 1) <= b * b) by (nonlinear_arith)
            requires
                a < b,
        ;
    }
    if b < a {
        assert((b + 1) * (b + 1) <= a * a) by (nonlinear_arith)
            requires
                b < a,
        ;
    }
}

/// The pixels per tile for a grid of `width` x `height` tiles.
pub fn tile_scale_for_dimensions(width: usize, height: usize) -> (r: Result<usize, MapError>)
    ensures
        r == tile_scale_of(width, height),
{
    let count = match width.checked_mul(height) {
        Some(c) => c,
        None => return Err(MapError::TooLarge),
    };
    if count == 0 {
        return Err(MapError::EmptyDimensions);
    }
    let max_side = if width > height { width } else { height };
    let by_side = MAX_MAP_IMAGE_SIDE / max_side;
    let q = MAX_MAP_PIXELS / count;
    let by_pixels = isqrt(q as u64) as usize;
    proof {
        let c = choose|r: nat| #[trigger] is_isqrt(r, q as nat);
        assert(is_isqrt(by_pixels as nat, q as nat));
        lemma_isqrt_unique(c, by_pixels as nat, q as nat);
    }
    let max_scale = if by_side < by_pixels { by_side } else { by_pixels };
    if max_scale == 0 {
        return Err(MapError::TooLarge);
    }
    if TILE_SCALE < max_scale {
        Ok(TILE_SCALE)
    } else {
        Ok(max_scale)
    }
}

/// Byte `k` of the RGBA image of a tile grid `width` tiles wide, each tile
/// drawn as `scale` x `scale` pixels and the grid mirrored left to right; a
/// pixel whose tile is missing stays transparent black, one whose tile id is
/// unknown is opaque black.
pub open spec fn pixel_byte(ids: Seq<i32>, width: nat, scale: nat, k: int) -> u8 {
    let iw = (width * scale) as int;
    let p = k / 4;
    let c = k % 4;
    let px = p % iw;
    let py = p / iw;
    let x = width - 1 - px / (scale as int);
    let y = py / (scale as int);
    let idx = y * width + x;
    if idx < ids.len() {
        let rgb = match tile_color_spec(ids[idx]) {
            Some(t) => t,
            None => (0u8, 0u8, 0u8),
        };
        if c == 0 {
            rgb.0
        } else if c == 1 {
            rgb.1
        } else if c == 2 {
            rgb.2
        } else {
            255
        }
    } else {
        0
    }
}

/// The RGBA image of a tile grid.
#[verifier::opaque]
pub open spec fn rgba_pixels(ids: Seq<i32>, width: nat, height: nat, scale: nat) -> Seq<u8> {
    Seq::new(width * scale * height * scale * 4, |k: int| pixel_byte(ids, width, scale, k))
}

proof fn lemma_pixel_coords(p: nat, width: nat, height: nat, scale: nat)
    requires
        width >= 1,
        scale >= 1,
        p < width * scale * (height * scale),
    ensures
        p % (width * scale) < width * scale,
        (p % (width * scale)) / scale < width,
        p / (width * scale) < height * scale,
        (p / (width * scale)) / scale < height,
        ((p / (width * scale)) / scale) * width + (width - 1 - (p % (width * scale)) / scale) < width * height,
{
    let iw = width * scale;
    assert(iw >= 1) by (nonlinear_arith) requires width >= 1, scale >= 1, iw == width * scale;
    let px = p % iw;
    let py = p / iw;
    assert(px < iw) by (nonlinear_arith) requires iw >= 1, px == p % iw;
    assert(px / scale < width) by (nonlinear_arith) requires px < width * scale, scale >= 1;
    assert(py < height * scale) by (nonlinear_arith) requires p < iw * (height * scale), py == p / iw, iw >= 1;
    assert(py / scale < height) by (nonlinear_arith) requires py < height * scale, scale >= 1;
    let y = py / scale;
    let x = width - 1 - px / scale;
    assert(y * width + x < width * height) by (nonlinear_arith) requires y < height, 0 <= x < width;
}

/// The RGBA image of a tile grid `width` x `height` tiles at `scale` pixels
/// per tile side.
pub fn render_rgba_pixels(ids: &Vec<i32>, width: usize, height: usize, scale: usize) -> (pixels: Vec<u8>)
    requires
        width >= 1,
        height >= 1,
        scale >= 1,
        width * scale * height * scale * 4 <= usize::MAX,
    ensures
        pixels@ == rgba_pixels(ids@, width as nat, height as nat, scale as nat),
{
    assert(width * scale <= width * scale * height * scale && height * scale <= width * scale * height * scale) by (nonlinear_arith)
        requires width >= 1, height >= 1, scale >= 1;
    let iw = width * scale;
    assert(width * scale * height * scale == iw * (height * scale)) by (nonlinear_arith)
        requires iw == width * scale;
    let ih = height * scale;
    assert(width * height <= iw * ih) by (nonlinear_arith)
        requires iw == width * scale, ih == height * scale, scale >= 1;
    let total = iw * ih;
    let mut out: Vec<u8> = Vec::new();
    let mut p: usize = 0;
    while p < total
        invariant
            iw == width * scale,
            ih == height * scale,
            total == iw * ih,
            total * 4 <= usize::MAX,
            width * height <= total,
            width >= 1,
            scale >= 1,
            p <= total,
            out@.len() == 4 * p,
            forall|k: int| 0 <= k < 4 * p ==> #[trigger] out@[k] == pixel_byte(ids@, width as nat, scale as nat, k),
        decreases total - p,
    {
        proof {
            lemma_pixel_coords(p as nat, width as nat, height as nat, scale as nat);
        }
        let px = p % iw;
        let py = p / iw;
        let x = width - 1 - px / scale;
        let y = py / scale;
        let idx = y * width + x;
        let (r, g, b, a) = if idx < ids.len() {
            let rgb = match tile_color(ids[idx]) {
                Some(t) => t,
                None => (0u8, 0u8, 0u8),
            };
            (rgb.0, rgb.1, rgb.2, 255u8)
        } else {
            (0u8, 0u8, 0u8, 0u8)
        };
        let ghost before = out@;
        out.push(r);
        out.push(g);
        out.push(b);
        out.push(a);
        proof {
            assert forall|k: int| 0 <= k < 4 * (p + 1) implies #[trigger] out@[k] == pixel_byte(
                ids@,
                width as nat,
                scale as nat,
                k,
            ) by {
                if k >= 4 * p {
                    assert(k / 4 == p);
                    assert(k % 4 == k - 4 * p);
                } else {
                    assert(out@[k] == before[k]);
                }
            }
        }
        p = p + 1;
    }
    proof {
        reveal(rgba_pixels);
    }
    assert(out@ =~= rgba_pixels(ids@, width as nat, height as nat, scale as nat));
    out
}

/// Most bytes of base64 tile data.
pub const MAX_TILES_BASE64_BYTES: usize = 8388608;

/// The PNG map of base64 tile data for a grid of `h` x `w` tiles at `scale`.
pub open spec fn tiles_map_png(t: Seq<char>, h: usize, w: usize, scale: usize) -> Result<Seq<u8>, MapError> {
    if encode_utf8(t).len() > MAX_TILES_BASE64_BYTES {
        Err(MapError::TilesTooLarge)
    } else {
        match decode_base64_spec(encode_utf8(t)) {
            None => Err(MapError::InvalidBase64),
            Some(b) => {
                let pixels = rgba_pixels(tile_ids_of(b), h as nat, w as nat, scale as nat);
                let iw = (h * scale) as u32;
                let ih = (w * scale) as u32;
                if png_encodable(iw, ih, pixels) {
                    Ok(png_file(iw, ih, pixels))
                } else {
                    Err(MapError::ImageEncoding)
                }
            },
        }
    }
}

/// The PNG map of a world session, or why there is none. The session's
/// `height` becomes the image's tile width and its `width` the tile height.
pub open spec fn session_map_png(c: Seq<char>) -> Result<Seq<u8>, MapError> {
    match dimension_of(c, "height"@) {
        Err(e) => Err(e),
        Ok(h) => match dimension_of(c, "width"@) {
            Err(e) => Err(e),
            Ok(w) => if h == 0 || w == 0 {
                Err(MapError::EmptyDimensions)
            } else {
                match tile_scale_of(h, w) {
                    Err(e) => Err(e),
                    Ok(scale) => match tiles_of(c) {
                        None => Err(MapError::MissingTiles),
                        Some(t) => tiles_map_png(t, h, w, scale),
                    },
                }
            },
        },
    }
}

proof fn lemma_scale_bounds(h: usize, w: usize, scale: usize)
    requires
        tile_scale_of(h, w) == Ok::<usize, MapError>(scale),
    ensures
        scale >= 1,
        h * scale <= MAX_MAP_IMAGE_SIDE,
        w * scale <= MAX_MAP_IMAGE_SIDE,
        h * scale * w * scale * 4 <= 4 * MAX_MAP_PIXELS,
{
    let count = h * w;
    assert(count != 0);
    assert(h >= 1 && w >= 1) by (nonlinear_arith) requires count == h * w, count != 0, h >= 0, w >= 0;
    let max_side = if h > w { h } else { w };
    let by_side = MAX_MAP_IMAGE_SIDE as int / max_side as int;
    let q = MAX_MAP_PIXELS as int / count;
    let by_pixels = choose|r: nat| #[trigger] is_isqrt(r, q as nat);
    assert(exists|r: nat| #[trigger] is_isqrt(r, q as nat)) by {
        assert(q < 0x1_0000_0000);
        let mut r: nat = 0;
        lemma_isqrt_exists(q as nat);
    }
    assert(scale <= by_side);
    assert(scale <= by_pixels);
    assert(h * scale <= max_side * by_side) by (nonlinear_arith) requires h <= max_side, scale <= by_side;
    assert(max_side * by_side <= MAX_MAP_IMAGE_SIDE) by (nonlinear_arith)
        requires by_side == MAX_MAP_IMAGE_SIDE as int / max_side as int, max_side >= 1;
    assert(w * scale <= max_side * by_side) by (nonlinear_arith) requires w <= max_side, scale <= by_side;
    assert(scale * scale <= q) by (nonlinear_arith) requires scale <= by_pixels, by_pixels * by_pixels <= q;
    assert(count * q <= MAX_MAP_PIXELS) by (nonlinear_arith) requires q == MAX_MAP_PIXELS as int / count, count >= 1;
    assert(h * scale * w * scale == count * (scale * scale)) by (nonlinear_arith) requires count == h * w;
    assert(count * (scale * scale) <= count * q) by (nonlinear_arith) requires scale * scale <= q, count >= 0;
}

proof fn lemma_isqrt_exists(n: nat)
    ensures
        exists|r: nat| #[trigger] is_isqrt(r, n),
    decreases n,
{
    if n == 0 {
        assert(is_isqrt(0, 0)) by (nonlinear_arith);
    } else {
        lemma_isqrt_exists((n - 1) as nat);
        let r = choose|r: nat| #[trigger] is_isqrt(r, (n - 1) as nat);
        if (r + 1) * (r + 1) <= n {
            assert(n < (r + 2) * (r + 2)) by (nonlinear_arith)
                requires (r + 1) * (r + 1) <= n, n - 1 < (r + 1) * (r + 1);
            assert(is_isqrt(r + 1, n));
        } else {
            assert(is_isqrt(r, n));
        }
    }
}

/// Renders the PNG map of base64 tile data.
#[verifier::rlimit(100)]
fn map_png_from_tiles(tiles: &str, h: usize, w: usize, scale: usize) -> (r: Result<Vec<u8>, MapError>)
    requires
        h >= 1,
        w >= 1,
        tile_scale_of(h, w) == Ok::<usize, MapError>(scale),
    ensures
        match tiles_map_png(tiles@, h, w, scale) {
            Ok(png) => r matches Ok(v) && v@ == png,
            Err(e) => r == Err::<Vec<u8>, MapError>(e),
        },
{
    proof {
        lemma_scale_bounds(h, w, scale);
    }
    let n = tiles.as_bytes().len();
    assert(n == encode_utf8(tiles@).len());
    if n > MAX_TILES_BASE64_BYTES {
        return Err(MapError::TilesTooLarge);
    }
    let ids = match decode_tile_ids(tiles) {
        Ok(ids) => ids,
        Err(e) => {
            assert(decode_base64_spec(encode_utf8(tiles@)) is None);
            assert(e == MapError::InvalidBase64);
            return Err(e);
        },
    };
    let pixels = render_rgba_pixels(&ids, h, w, scale);
    let image_width = h * scale;
    let image_height = w * scale;
    match encode_png_rgba(image_width as u32, image_height as u32, pixels.as_slice()) {
        Some(png) => Ok(png),
        None => Err(MapError::ImageEncoding),
    }
}

/// Renders the PNG map of a world session.
pub fn render_session_map_png(contents: &str) -> (r: Result<Vec<u8>, MapError>)
    ensures
        match session_map_png(contents@) {
            Ok(png) => r matches Ok(v) && v@ == png,
            Err(e) => r == Err::<Vec<u8>, MapError>(e),
        },
{
    proof {
        reveal_strlit("height");
        reveal_strlit("width");
    }
    let height = match extract_dimension(contents, "height") {
        Ok(n) => n,
        Err(e) => return Err(e),
    };
    let width = match extract_dimension(contents, "width") {
        Ok(n) => n,
        Err(e) => return Err(e),
    };
    if height == 0 || width == 0 {
        return Err(MapError::EmptyDimensions);
    }
    let scale = match tile_scale_for_dimensions(height, width) {
        Ok(s) => s,
        Err(e) => return Err(e),
    };
    let tiles = match extract_tiles_base64(contents) {
        Ok(t) => t,
        Err(e) => return Err(e),
    };
    map_png_from_tiles(tiles.as_str(), height, width, scale)
}

/// Most entries read from one session directory.
pub const MAX_SESSION_DIRECTORY_ENTRIES: usize = 4096;

/// Largest session file read, in bytes.
pub const MAX_SESSION_FILE_BYTES: u64 = 8388608;

/// Largest generated map image read back, in bytes.
pub const MAX_MAP_IMAGE_BYTES: u64 = 75497472;

/// Which files of a session directory can be the latest save.
#[derive(Debug, Clone, Copy, PartialEq, Eq)]
pub enum LatestFileFilter {
    Any,
    /// Files with the extension `meta` are left out.
    ExcludeMetaExtension,
    /// Only files with the extension `meta` count.
    OnlyMetaExtension,
}

/// A regular file met while scanning session directories, in scan order:
/// child directories by name, then their files by name.
pub struct SessionFile {
    /// The child directory holding the file; empty for a direct file.
    pub dir: String,
    pub name: String,
    /// Modification time in nanoseconds from the Unix epoch, negative before it.
    pub modified: i128,
}

/// Whether a file name has the extension `meta`: a last dot that does not
/// start the name, followed by `meta`.
pub open spec fn meta_extension(name: Seq<char>) -> bool {
    name.len() > 5 && name.subrange(name.len() - 5, name.len() as int) == ".meta"@
}

pub open spec fn counts_as_save(filter: LatestFileFilter, name: Seq<char>) -> bool {
    match filter {
        LatestFileFilter::Any => true,
        LatestFileFilter::ExcludeMetaExtension => !meta_extension(name),
        LatestFileFilter::OnlyMetaExtension => meta_extension(name),
    }
}

/// File `i` is the latest save: it counts, no counting file is newer, and
/// every counting file before it is strictly older.
pub open spec fn is_latest_save(files: Seq<SessionFile>, filter: LatestFileFilter, i: int) -> bool {
    &&& 0 <= i < files.len()
    &&& counts_as_save(filter, files[i].name@)
    &&& forall|j: int| 0 <= j < files.len() && counts_as_save(filter, #[trigger] files[j].name@)
        ==> files[j].modified <= files[i].modified
    &&& forall|j: int| 0 <= j < i && counts_as_save(filter, #[trigger] files[j].name@)
        ==> files[j].modified < files[i].modified
}

/// Whether `name` has the extension `meta`.
pub fn has_meta_extension(name: &str) -> (b: bool)
    ensures
        b == meta_extension(name@),
{
    proof {
        reveal_strlit(".meta");
    }
    let v = chars_of(name);
    if v.len() <= 5 {
        return false;
    }
    let pat = chars_of(".meta");
    range_eq(&v, v.len() - 5, v.len(), &pat)
}

/// Whether a file named `name` can be the latest save under `filter`.
pub fn file_counts_as_save(filter: LatestFileFilter, name: &str) -> (b: bool)
    ensures
        b == counts_as_save(filter, name@),
{
    match filter {
        LatestFileFilter::Any => true,
        LatestFileFilter::ExcludeMetaExtension => !has_meta_extension(name),
        LatestFileFilter::OnlyMetaExtension => has_meta_extension(name),
    }
}

/// The index of the latest save among `files`: the newest file that counts,
/// the first in scan order among equally new ones; `None` when none counts.
pub fn latest_session_file(files: &Vec<SessionFile>, filter: LatestFileFilter) -> (r: Option<usize>)
    ensures
        match r {
            None => forall|j: int| 0 <= j < files.len() ==> !counts_as_save(filter, #[trigger] files@[j].name@),
            Some(i) => is_latest_save(files@, filter, i as int),
        },
{
    let mut best: Option<usize> = None;
    let mut k: usize = 0;
    while k < files.len()
        invariant
            k <= files.len(),
            match best {
                None => forall|j: int| 0 <= j < k ==> !counts_as_save(filter, #[trigger] files@[j].name@),
                Some(b) => {
                    &&& b < k
                    &&& counts_as_save(filter, files@[b as int].name@)
                    &&& forall|j: int| 0 <= j < k && counts_as_save(filter, #[trigger] files@[j].name@)
                        ==> files@[j].modified <= files@[b as int].modified
                    &&& forall|j: int| 0 <= j < b && counts_as_save(filter, #[trigger] files@[j].name@)
                        ==> files@[j].modified < files@[b as int].modified
                },
            },
        decreases files.len() - k,
    {
        if file_counts_as_save(filter, files[k].name.as_str()) {
            match best {
                None => {
                    best = Some(k);
                },
                Some(b) => {
                    if files[k].modified > files[b].modified {
                        best = Some(k);
                    }
                },
            }
        }
        k = k + 1;
    }
    best
}

/// The cluster-relative directory of a player's files in a world session.
pub fn player_session_dir(level: &MapLevel, session_id: &str, ku_id: &MapKuId) -> (p: String)
    ensures
        p@ == level.view() + "/save/session/"@ + session_id@ + "/"@ + ku_id.view().push('_'),
{
    let mut p = session_base_relative(level);
    push_char(&mut p, '/');
    push_str(&mut p, session_id);
    push_char(&mut p, '/');
    let d = ku_id.player_dir_name();
    push_str(&mut p, d.as_str());
    proof {
        reveal_strlit("/save/session");
        reveal_strlit("/save/session/");
        reveal_strlit("/");
    }
    assert(p@ =~= level.view() + "/save/session/"@ + session_id@ + "/"@ + ku_id.view().push('_'));
    p
}

} // verus!
