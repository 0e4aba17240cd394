//! The Windows shell icon of a file type: what to ask the shell for, and how the
//! bitmaps that it gives become a base64-encoded PNG. Best effort: any failure
//! gives no icon, and the UI falls back to a glyph.

use base64::engine::general_purpose::STANDARD;
use base64::Engine;
use vstd::prelude::*;
use vstd::string::*;

verus! {

/// `FILE_ATTRIBUTE_NORMAL`.
pub const ATTRIBUTE_NORMAL: u32 = 0x0000_0080;

/// `FILE_ATTRIBUTE_DIRECTORY`.
pub const ATTRIBUTE_DIRECTORY: u32 = 0x0000_0010;

/// The name and the attributes that stand for a file type when the shell is asked
/// for its icon: a folder, or a file with the extension (`dat` when it has none).
pub fn icon_query(ext: Option<&str>, is_dir: bool) -> (r: (String, u32))
    ensures
        is_dir ==> r.0@ == "folder"@ && r.1 == ATTRIBUTE_DIRECTORY,
        !is_dir ==> r.1 == ATTRIBUTE_NORMAL && r.0@ == "x."@ + match ext {
            Some(e) => e@,
            None => "dat"@,
        },
{
    let mut name = String::new();
    if is_dir {
        name.append("folder");
        assert(name@ =~= "folder"@);
        (name, ATTRIBUTE_DIRECTORY)
    } else {
        name.append("x.");
        match ext {
            Some(e) => name.append(e),
            None => name.append("dat"),
        }
        assert(name@ =~= "x."@ + match ext {
            Some(e) => e@,
            None => "dat"@,
        });
        (name, ATTRIBUTE_NORMAL)
    }
}

/// Whether a bitmap of 4-byte pixels holds an alpha value other than 0.
pub open spec fn has_alpha(color: Seq<u8>) -> bool {
    exists|i: int| 0 <= 4 * i < color.len() && #[trigger] color[4 * i + 3] != 0
}

/// The alpha value of the pixel `i`. Newer icons carry alpha; older ones are flat,
/// and their mask is white where they are transparent.
pub open spec fn alpha_at(color: Seq<u8>, mask: Seq<u8>, i: int) -> u8 {
    if has_alpha(color) {
        color[4 * i + 3]
    } else if mask[4 * i] == 0 {
        255
    } else {
        0
    }
}

/// The byte `k` of the RGBA pixels of an icon, whose bitmap holds blue, green, red
/// and alpha.
pub open spec fn rgba_at(color: Seq<u8>, mask: Seq<u8>, k: int) -> u8 {
    let i = k / 4;
    if k % 4 == 0 {
        color[4 * i + 2]
    } else if k % 4 == 1 {
        color[4 * i + 1]
    } else if k % 4 == 2 {
        color[4 * i]
    } else {
        alpha_at(color, mask, i)
    }
}

/// The RGBA pixels of an icon.
pub open spec fn rgba_of(color: Seq<u8>, mask: Seq<u8>) -> Seq<u8> {
    Seq::new(color.len(), |k: int| rgba_at(color, mask, k))
}

/// Whether a bitmap of 4-byte pixels holds an alpha value other than 0.
fn any_alpha(color: &Vec<u8>) -> (r: bool)
    requires
        color@.len() % 4 == 0,
    ensures
        r == has_alpha(color@),
{
    let mut k: usize = 0;
    let size: usize = color.len();
    let ghost mut i: int = 0;
    while k < size
        invariant
            k == 4 * i,
            0 <= i,
            k <= size,
            size == color@.len(),
            size % 4 == 0,
            forall|j: int| 0 <= j < i ==> #[trigger] color@[4 * j + 3] == 0,
        decreases size - k,
    {
        if color[k + 3] != 0 {
            assert(color@[4 * i + 3] != 0);
            return true;
        }
        proof {
            i = i + 1;
        }
        k += 4;
    }
    false
}

/// The RGBA pixels of an icon, given its colour bitmap and its mask, both of 4-byte
/// pixels from the top down.
pub fn icon_rgba(color: &Vec<u8>, mask: &Vec<u8>) -> (r: Vec<u8>)
    requires
        color@.len() % 4 == 0,
        mask@.len() == color@.len(),
    ensures
        r@ == rgba_of(color@, mask@),
{
    let carries = any_alpha(color);
    let mut out: Vec<u8> = Vec::new();
    let mut k: usize = 0;
    let size: usize = color.len();
    while k < size
        invariant
            k % 4 == 0,
            k <= size,
            size == color@.len(),
            size == mask@.len(),
            size % 4 == 0,
            carries == has_alpha(color@),
            out@ == rgba_of(color@, mask@).take(k as int),
        decreases size - k,
    {
        let ghost before = out@;
        let ghost i = k as int / 4;
        assert(k == 4 * i);
        let alpha: u8 = if carries {
            color[k + 3]
        } else if mask[k] == 0 {
            255
        } else {
            0
        };
        out.push(color[k + 2]);
        out.push(color[k + 1]);
        out.push(color[k]);
        out.push(alpha);
        assert(alpha == alpha_at(color@, mask@, i));
        assert(rgba_at(color@, mask@, k as int) == color@[4 * i + 2]);
        assert(rgba_at(color@, mask@, k + 1) == color@[4 * i + 1]);
        assert(rgba_at(color@, mask@, k + 2) == color@[4 * i]);
        assert(rgba_at(color@, mask@, k + 3) == alpha);
        assert(out@ =~= rgba_of(color@, mask@).take(k + 4));
        k += 4;
    }
    assert(out@ =~= rgba_of(color@, mask@));
    out
}

/// Whether bytes start with the signature of the PNG format.
pub open spec fn is_png(b: Seq<u8>) -> bool {
    b.len() > 8 && b.take(8) == seq![137u8, 80, 78, 71, 13, 10, 26, 10]
}

/// The PNG file of RGBA pixels.
pub uninterp spec fn png_of(rgba: Seq<u8>, width: u32, height: u32) -> Seq<u8>;

/// `png::Encoder` with the colour type RGBA and 8 bits per channel, its header and
/// its image data: the PNG file of the pixels, behind the signature of the format.
/// Writing to memory does not fail where neither side is 0 and the pixels fill the
/// image.
#[verifier::external_body]
fn encode_png(rgba: &Vec<u8>, width: u32, height: u32) -> (r: Option<Vec<u8>>)
    requires
        width > 0,
        height > 0,
        rgba@.len() == width * height * 4,
    ensures
        r is Some,
        (r->0)@ == png_of(rgba@, width, height),
        is_png((r->0)@),
{
    let mut out = Vec::new();
    {
        let mut encoder = png::Encoder::new(&mut out, width, height);
        encoder.set_color(png::ColorType::Rgba);
        encoder.set_depth(png::BitDepth::Eight);
        let mut writer = encoder.write_header().ok()?;
        writer.write_image_data(rgba).ok()?;
    }
    Some(out)
}

/// The character of a number below 64 in the standard base64 alphabet.
pub open spec fn base64_char(n: int) -> char {
    if n < 26 {
        ('A' as int + n) as char
    } else if n < 52 {
        ('a' as int + (n - 26)) as char
    } else if n < 62 {
        ('0' as int + (n - 52)) as char
    } else if n == 62 {
        '+'
    } else {
        '/'
    }
}

/// The padded base64 text of bytes: four characters for each three bytes.
pub open spec fn base64_of(b: Seq<u8>) -> Seq<char>
    decreases b.len(),
{
    if b.len() == 0 {
        Seq::empty()
    } else if b.len() == 1 {
        seq![base64_char(b[0] as int / 4), base64_char(b[0] as int % 4 * 16), '=', '=']
    } else if b.len() == 2 {
        seq![
            base64_char(b[0] as int / 4),
            base64_char(b[0] as int % 4 * 16 + b[1] as int / 16),
            base64_char(b[1] as int % 16 * 4),
            '=',
        ]
    } else {
        seq![
            base64_char(b[0] as int / 4),
            base64_char(b[0] as int % 4 * 16 + b[1] as int / 16),
            base64_char(b[1] as int % 16 * 4 + b[2] as int / 64),
            base64_char(b[2] as int % 64),
        ] + base64_of(b.skip(3))
    }
}

/// Whether the base64 text of this many bytes has a length that memory can hold: four
/// characters for each three bytes.
pub open spec fn encodable(len: int) -> bool {
    len <= isize::MAX / 4 * 3
}

/// `Engine::encode` of the base64 engine `STANDARD`: the padded text of the bytes in
/// the standard alphabet.
#[verifier::external_body]
fn encode_base64(b: &Vec<u8>) -> (r: String)
    requires
        encodable(b@.len() as int),
    ensures
        r@ == base64_of(b@),
{
    STANDARD.encode(b)
}

/// The base64 text of a PNG file; none when no memory can hold it.
pub fn png_text(file: &Vec<u8>) -> (r: Option<String>)
    ensures
        r is Some <==> encodable(file@.len() as int),
        r matches Some(t) ==> t@ == base64_of(file@),
{
    let most: usize = isize::MAX as usize / 4 * 3;
    if file.len() > most {
        return None;
    }
    Some(encode_base64(file))
}

/// Base64 PNG of an icon, given its size, its colour bitmap and its mask, both of
/// 4-byte pixels from the top down. There is none for an empty icon.
pub fn icon_base64(width: i32, height: i32, color: &Vec<u8>, mask: &Vec<u8>) -> (r: Option<String>)
    requires
        width > 0 && height > 0 ==> color@.len() == width * height * 4,
        mask@.len() == color@.len(),
    ensures
        ({
            let file = png_of(rgba_of(color@, mask@), width as u32, height as u32);
            match r {
                Some(t) => width > 0 && height > 0 && encodable(file.len() as int) && t@
                    == base64_of(file),
                None => width <= 0 || height <= 0 || !encodable(file.len() as int),
            }
        }),
{
    if width <= 0 || height <= 0 {
        return None;
    }
    assert(color@.len() % 4 == 0) by (nonlinear_arith)
        requires
            color@.len() == width * height * 4,
    ;
    let rgba = icon_rgba(color, mask);
    let file = encode_png(&rgba, width as u32, height as u32)?;
    png_text(&file)
}

} // verus!
