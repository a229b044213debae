//! Base64 encoding and the BMP data URLs of application icons.
use vstd::prelude::*;
use crate::guid::{le_bytes, pow256, push_le_bytes};
use crate::text::string_from_chars;

verus! {

broadcast use vstd::string::group_string_axioms;

/// The base64 alphabet: A-Z, a-z, 0-9, '+', '/'.
pub open spec fn b64_char(i: int) -> char {
    if i < 26 {
        ((65 + i) as u8) as char
    } else if i < 52 {
        ((97 + i - 26) as u8) as char
    } else if i < 62 {
        ((48 + i - 52) as u8) as char
    } else if i == 62 {
        '+'
    } else {
        '/'
    }
}

/// Standard base64 with '=' padding.
pub open spec fn base64(data: Seq<u8>) -> Seq<char>
    decreases data.len(),
{
    if data.len() >= 3 {
        let (b0, b1, b2) = (data[0] as int, data[1] as int, data[2] as int);
        seq![
            b64_char(b0 / 4),
            b64_char((b0 % 4) * 16 + b1 / 16),
            b64_char((b1 % 16) * 4 + b2 / 64),
            b64_char(b2 % 64),
        ] + base64(data.skip(3))
    } else if data.len() == 2 {
        let (b0, b1) = (data[0] as int, data[1] as int);
        seq![b64_char(b0 / 4), b64_char((b0 % 4) * 16 + b1 / 16), b64_char((b1 % 16) * 4), '=']
    } else if data.len() == 1 {
        let b0 = data[0] as int;
        seq![b64_char(b0 / 4), b64_char((b0 % 4) * 16), '=', '=']
    } else {
        seq![]
    }
}

fn b64_char_of(i: u32) -> (c: char)
    requires
        i < 64,
    ensures
        c == b64_char(i as int),
{
    if i < 26 {
        ((65 + i) as u8) as char
    } else if i < 52 {
        ((97 + i - 26) as u8) as char
    } else if i < 62 {
        ((48 + i - 52) as u8) as char
    } else if i == 62 {
        '+'
    } else {
        '/'
    }
}

/// The base64 characters of `data`.
pub fn base64_chars(data: &Vec<u8>) -> (r: Vec<char>)
    ensures
        r@ == base64(data@),
{
    let n = data.len();
    let mut out: Vec<char> = Vec::new();
    let mut i: usize = 0;
    assert(data@.skip(0) =~= data@);
    while n - i >= 3
        invariant
            n == data.len(),
            0 <= i <= n,
            base64(data@) == out@ + base64(data@.skip(i as int)),
        decreases n - i,
    {
        let b0 = data[i] as u32;
        let b1 = data[i + 1] as u32;
        let b2 = data[i + 2] as u32;
        let ghost rest = data@.skip(i as int);
        assert(rest[0] == data@[i as int] && rest[1] == data@[i + 1] && rest[2] == data@[i + 2]);
        assert(rest.skip(3) =~= data@.skip(i + 3));
        let ghost four = seq![
            b64_char(b0 as int / 4),
            b64_char((b0 as int % 4) * 16 + b1 as int / 16),
            b64_char((b1 as int % 16) * 4 + b2 as int / 64),
            b64_char(b2 as int % 64),
        ];
        assert(base64(rest) == four + base64(data@.skip(i + 3)));
        let ghost before = out@;
        out.push(b64_char_of(b0 / 4));
        out.push(b64_char_of((b0 % 4) * 16 + b1 / 16));
        out.push(b64_char_of((b1 % 16) * 4 + b2 / 64));
        out.push(b64_char_of(b2 % 64));
        assert(out@ =~= before + four);
        assert(before + (four + base64(data@.skip(i + 3))) =~= out@ + base64(data@.skip(i + 3)));
        i = i + 3;
    }
    let ghost rest = data@.skip(i as int);
    let ghost before = out@;
    if n - i == 2 {
        let b0 = data[i] as u32;
        let b1 = data[i + 1] as u32;
        assert(rest[0] == data@[i as int] && rest[1] == data@[i + 1]);
        out.push(b64_char_of(b0 / 4));
        out.push(b64_char_of((b0 % 4) * 16 + b1 / 16));
        out.push(b64_char_of((b1 % 16) * 4));
        out.push('=');
        assert(out@ =~= before + base64(rest));
    } else if n - i == 1 {
        let b0 = data[i] as u32;
        assert(rest[0] == data@[i as int]);
        out.push(b64_char_of(b0 / 4));
        out.push(b64_char_of((b0 % 4) * 16));
        out.push('=');
        out.push('=');
        assert(out@ =~= before + base64(rest));
    } else {
        assert(out@ =~= before + base64(rest));
    }
    out
}

/// Encode `data` as base64 with padding.
pub fn base64_encode(data: &Vec<u8>) -> (s: String)
    ensures
        s@ == base64(data@),
{
    let v = base64_chars(data);
    string_from_chars(&v)
}

/// Every three input bytes become four characters, and a final partial
/// group also becomes four characters (padded with '=').
pub proof fn lemma_base64_length(data: Seq<u8>)
    ensures
        base64(data).len() == 4 * ((data.len() + 2) / 3),
    decreases data.len(),
{
    if data.len() >= 3 {
        lemma_base64_length(data.skip(3));
    }
}

/// The value of a base64 alphabet character; -1 for any other character.
pub open spec fn b64_value(c: char) -> int {
    if 'A' <= c && c <= 'Z' {
        c as int - 65
    } else if 'a' <= c && c <= 'z' {
        c as int - 97 + 26
    } else if '0' <= c && c <= '9' {
        c as int - 48 + 52
    } else if c == '+' {
        62
    } else if c == '/' {
        63
    } else {
        -1
    }
}

/// Standard base64 decoding (RFC 4648) of well-formed, padded input: each
/// group of four characters gives three bytes, or fewer when it ends in '='.
pub open spec fn base64_decode(s: Seq<char>) -> Seq<u8>
    decreases s.len(),
{
    if s.len() < 4 {
        seq![]
    } else {
        let (v0, v1, v2, v3) = (b64_value(s[0]), b64_value(s[1]), b64_value(s[2]), b64_value(s[3]));
        let first = (v0 * 4 + v1 / 16) as u8;
        let second = ((v1 % 16) * 16 + v2 / 4) as u8;
        let third = ((v2 % 4) * 64 + v3) as u8;
        if s[2] == '=' {
            seq![first] + base64_decode(s.skip(4))
        } else if s[3] == '=' {
            seq![first, second] + base64_decode(s.skip(4))
        } else {
            seq![first, second, third] + base64_decode(s.skip(4))
        }
    }
}

proof fn lemma_b64_char_value(i: int)
    requires
        0 <= i < 64,
    ensures
        b64_value(b64_char(i)) == i,
        b64_char(i) != '=',
{
}

/// Decoding the base64 text of `data` gives `data` back, and every character
/// of the text is from the base64 alphabet or is the padding '='.
pub proof fn lemma_base64_decodes_back(data: Seq<u8>)
    ensures
        base64_decode(base64(data)) == data,
        forall|j: int| 0 <= j < base64(data).len() ==> #[trigger] b64_value(base64(data)[j]) >= 0 || base64(data)[j]
            == '=',
    decreases data.len(),
{
    let e = base64(data);
    if data.len() >= 3 {
        let (b0, b1, b2) = (data[0], data[1], data[2]);
        let i0 = b0 as int / 4;
        let i1 = (b0 as int % 4) * 16 + b1 as int / 16;
        let i2 = (b1 as int % 16) * 4 + b2 as int / 64;
        let i3 = b2 as int % 64;
        lemma_b64_char_value(i0);
        lemma_b64_char_value(i1);
        lemma_b64_char_value(i2);
        lemma_b64_char_value(i3);
        lemma_base64_decodes_back(data.skip(3));
        assert(e.skip(4) =~= base64(data.skip(3)));
        assert((b0 / 4) * 4 + ((b0 % 4) * 16 + b1 / 16) / 16 == b0) by (bit_vector);
        assert(((((b0 % 4) * 16 + b1 / 16) % 16) * 16 + ((b1 % 16) * 4 + b2 / 64) / 4) == b1) by (bit_vector);
        assert(((((b1 % 16) * 4 + b2 / 64) % 4) * 64 + b2 % 64) == b2) by (bit_vector);
        assert(e[0] == b64_char(i0) && e[1] == b64_char(i1) && e[2] == b64_char(i2) && e[3] == b64_char(i3));
        assert((i0 * 4 + i1 / 16) as u8 == b0);
        assert(((i1 % 16) * 16 + i2 / 4) as u8 == b1);
        assert(((i2 % 4) * 64 + i3) as u8 == b2);
        assert(base64_decode(e) == seq![b0, b1, b2] + base64_decode(e.skip(4)));
        assert(seq![b0, b1, b2] + data.skip(3) =~= data);
        assert forall|j: int| 0 <= j < e.len() implies #[trigger] b64_value(e[j]) >= 0 || e[j] == '=' by {
            if j >= 4 {
                assert(e[j] == base64(data.skip(3))[j - 4]);
            }
        }
    } else if data.len() == 2 {
        let (b0, b1) = (data[0], data[1]);
        let i0 = b0 as int / 4;
        let i1 = (b0 as int % 4) * 16 + b1 as int / 16;
        let i2 = (b1 as int % 16) * 4;
        lemma_b64_char_value(i0);
        lemma_b64_char_value(i1);
        lemma_b64_char_value(i2);
        assert(e.skip(4) =~= Seq::<char>::empty());
        assert((b0 / 4) * 4 + ((b0 % 4) * 16 + b1 / 16) / 16 == b0) by (bit_vector);
        assert(((((b0 % 4) * 16 + b1 / 16) % 16) * 16 + ((b1 % 16) * 4) / 4) == b1) by (bit_vector);
        assert(e[0] == b64_char(i0) && e[1] == b64_char(i1) && e[2] == b64_char(i2) && e[3] == '=');
        assert((i0 * 4 + i1 / 16) as u8 == b0);
        assert(((i1 % 16) * 16 + i2 / 4) as u8 == b1);
        assert(base64_decode(e.skip(4)) =~= Seq::<u8>::empty());
        assert(base64_decode(e) == seq![b0, b1] + base64_decode(e.skip(4)));
        assert(seq![b0, b1] + Seq::<u8>::empty() =~= data);
    } else if data.len() == 1 {
        let b0 = data[0];
        lemma_b64_char_value(b0 as int / 4);
        lemma_b64_char_value((b0 as int % 4) * 16);
        assert(e.skip(4) =~= Seq::<char>::empty());
        assert((b0 / 4) * 4 + ((b0 % 4) * 16) / 16 == b0) by (bit_vector);
        let i0 = b0 as int / 4;
        let i1 = (b0 as int % 4) * 16;
        assert(e[0] == b64_char(i0) && e[1] == b64_char(i1) && e[2] == '=' && e[3] == '=');
        assert((i0 * 4 + i1 / 16) as u8 == b0);
        assert(base64_decode(e.skip(4)) =~= Seq::<u8>::empty());
        assert(base64_decode(e) == seq![b0] + base64_decode(e.skip(4)));
        assert(seq![b0] + Seq::<u8>::empty() =~= data);
    } else {
        assert(data =~= Seq::<u8>::empty());
        assert(base64_decode(e) =~= Seq::<u8>::empty());
    }
}

/// The fields of a BITMAPINFOHEADER, in their memory order.
#[derive(Debug, Clone, Copy, PartialEq, Eq, Structural)]
pub struct BitmapInfoHeader {
    pub size: u32,
    pub width: i32,
    pub height: i32,
    pub planes: u16,
    pub bit_count: u16,
    pub compression: u32,
    pub size_image: u32,
    pub x_pels_per_meter: i32,
    pub y_pels_per_meter: i32,
    pub clr_used: u32,
    pub clr_important: u32,
}

/// Bytes of the info header in memory order (little-endian fields).
pub open spec fn info_header_bytes(h: BitmapInfoHeader) -> Seq<u8> {
    le_bytes(h.size as int, 4) + le_bytes(h.width as u32 as int, 4) + le_bytes(h.height as u32 as int, 4)
        + le_bytes(h.planes as int, 2) + le_bytes(h.bit_count as int, 2) + le_bytes(h.compression as int, 4)
        + le_bytes(h.size_image as int, 4) + le_bytes(h.x_pels_per_meter as u32 as int, 4) + le_bytes(
        h.y_pels_per_meter as u32 as int,
        4,
    ) + le_bytes(h.clr_used as int, 4) + le_bytes(h.clr_important as int, 4)
}

/// Size of the BITMAPFILEHEADER.
pub const FILE_HEADER_SIZE: usize = 14;
/// Size of the BITMAPINFOHEADER.
pub const INFO_HEADER_SIZE: usize = 40;

/// A BMP file: the file header ("BM", total size, two reserved zero words,
/// offset of the pixels), the info header, then the pixels.
pub open spec fn bmp_file(h: BitmapInfoHeader, pixels: Seq<u8>) -> Seq<u8> {
    let total = FILE_HEADER_SIZE + INFO_HEADER_SIZE + pixels.len();
    le_bytes(0x4D42, 2) + le_bytes(total % 0x1_0000_0000, 4) + le_bytes(0, 2) + le_bytes(0, 2) + le_bytes(
        (FILE_HEADER_SIZE + INFO_HEADER_SIZE) as int,
        4,
    ) + info_header_bytes(h) + pixels
}

/// The data-URL prefix of a base64 BMP image.
pub open spec fn bmp_url_prefix() -> Seq<char> {
    "data:image/bmp;base64,"@
}

/// The icon image as a data URL: a BMP file built from the info header and
/// the pixel rows, base64-encoded.
pub fn bmp_data_url(header: &BitmapInfoHeader, pixels: &Vec<u8>) -> (url: String)
    requires
        pixels.len() <= usize::MAX - 54,
    ensures
        url@ == bmp_url_prefix() + base64(bmp_file(*header, pixels@)),
{
    let total: usize = FILE_HEADER_SIZE + INFO_HEADER_SIZE + pixels.len();
    let total32 = ((total as u64) % 0x1_0000_0000) as u32;
    proof {
        reveal_with_fuel(pow256, 5);
    }
    let mut file: Vec<u8> = Vec::new();
    push_le_bytes(&mut file, 0x4D42, 2);
    push_le_bytes(&mut file, total32, 4);
    push_le_bytes(&mut file, 0, 2);
    push_le_bytes(&mut file, 0, 2);
    push_le_bytes(&mut file, 54, 4);
    push_le_bytes(&mut file, header.size, 4);
    push_le_bytes(&mut file, header.width as u32, 4);
    push_le_bytes(&mut file, header.height as u32, 4);
    push_le_bytes(&mut file, header.planes as u32, 2);
    push_le_bytes(&mut file, header.bit_count as u32, 2);
    push_le_bytes(&mut file, header.compression, 4);
    push_le_bytes(&mut file, header.size_image, 4);
    push_le_bytes(&mut file, header.x_pels_per_meter as u32, 4);
    push_le_bytes(&mut file, header.y_pels_per_meter as u32, 4);
    push_le_bytes(&mut file, header.clr_used, 4);
    push_le_bytes(&mut file, header.clr_important, 4);
    let ghost head = file@;
    let mut i: usize = 0;
    while i < pixels.len()
        invariant
            0 <= i <= pixels.len(),
            file@ == head + pixels@.take(i as int),
        decreases pixels.len() - i,
    {
        file.push(pixels[i]);
        i = i + 1;
        assert(file@ =~= head + pixels@.take(i as int));
    }
    assert(pixels@.take(pixels.len() as int) =~= pixels@);
    assert(file@ =~= bmp_file(*header, pixels@));
    let encoded = base64_chars(&file);
    let prefix = "data:image/bmp;base64,";
    proof {
        reveal_strlit("data:image/bmp;base64,");
    }
    let p = crate::text::chars_of(prefix);
    let mut all: Vec<char> = p;
    let ghost pre = all@;
    let mut k: usize = 0;
    while k < encoded.len()
        invariant
            0 <= k <= encoded.len(),
            all@ == pre + encoded@.take(k as int),
        decreases encoded.len() - k,
    {
        all.push(encoded[k]);
        k = k + 1;
        assert(all@ =~= pre + encoded@.take(k as int));
    }
    assert(encoded@.take(encoded.len() as int) =~= encoded@);
    string_from_chars(&all)
}

} // verus!
