//! Images that a session holds. The bytes lie in a directory beside the session
//! file, and a turn carries them as blocks.
use vstd::prelude::*;
use vstd::arithmetic::power::pow;
use crate::paths::{
    beside, extension, extension_of, file_name, in_dir, join_path,
    law_paths_stand_in_their_directory, name_of, parent_of, rename, stem, stem_of,
};
use crate::text::{
    begins, cat2, cat3, cat5, cat7, decimal, ends, holds, lower_ascii, number, occurs_at, put, same,
    size_text, to_lower_ascii,
};
use crate::types::{blocks, BlockV, ContentBlock};

verus! {

/// The largest image that is taken, in bytes.
pub const MAX_BYTES: usize = 5242880;

/// What the user is told where the model cannot see an attached image.
pub const NO_VISION_WARNING: &'static str = "attached, but the active endpoint is not declared \
vision-capable — the image will be ignored or hallucinated; pass --vision (SIRBONE_VISION=1) on an \
OpenAI-compatible endpoint that reads images";

/// What is known of the endpoint after another record: the first one stays.
pub open spec fn recorded(known: Option<bool>, ok: bool) -> Option<bool> {
    match known {
        Some(b) => Some(b),
        None => Some(ok),
    }
}

/// Records whether the endpoint reads images; see [`recorded`].
pub fn set_vision_supported(known: &mut Option<bool>, ok: bool)
    ensures
        *final(known) == recorded(*old(known), ok),
{
    if known.is_none() {
        *known = Some(ok);
    }
}

/// Whether the endpoint reads images; where nothing was recorded, it does not.
pub fn vision_supported(known: &Option<bool>) -> (b: bool)
    ensures
        b == (*known == Some(true)),
{
    match known {
        Some(b) => *b,
        None => false,
    }
}

// ------------------------------------------------------------ attachments

/// A stored image.
#[derive(Debug, PartialEq, Eq)]
pub struct Attachment {
    /// A short label, such as `image_1`.
    pub label: String,
    pub path: String,
    pub media_type: String,
    pub bytes: usize,
    /// The size in pixels, where it is known.
    pub dimensions: Option<(u32, u32)>,
}

/// How many started kilobytes there are.
pub open spec fn kilobytes(bytes: nat) -> nat {
    (bytes + 1023) / 1024
}

/// How an attachment is described: its label, its size in pixels where that is
/// known, and its size on disk.
pub open spec fn description(a: Attachment) -> Seq<char> {
    let size = decimal(kilobytes(a.bytes as nat)) + " KB"@;
    match a.dimensions {
        Some((w, h)) => a.label@ + " · "@ + decimal(w as nat) + "×"@ + decimal(h as nat) + " · "@
            + size,
        None => a.label@ + " · "@ + size,
    }
}

/// What the `base64` crate writes for some bytes, in the standard alphabet and
/// with padding.
pub uninterp spec fn base64_text(bytes: Seq<u8>) -> Seq<char>;

/// Calls `base64::Engine::encode` of the standard engine. The result depends on
/// the bytes alone: four characters for each three bytes begun. It does not
/// return where that many characters do not fit a `usize`.
#[verifier::external_body]
fn encode_base64(bytes: &Vec<u8>) -> (r: String)
    requires
        4 * ((bytes@.len() + 2) / 3) <= usize::MAX,
    ensures
        r@ == base64_text(bytes@),
        r@.len() == 4 * ((bytes@.len() + 2) / 3),
{
    base64::Engine::encode(&base64::engine::general_purpose::STANDARD, bytes)
}

impl Attachment {
    /// Describes the attachment; see [`description`].
    pub fn describe(&self) -> (r: String)
        ensures
            r@ == description(*self),
    {
        let whole: usize = self.bytes / 1024;
        let kb: usize = if self.bytes % 1024 == 0 {
            whole
        } else {
            whole + 1
        };
        assert(kb == kilobytes(self.bytes as nat));
        let size = cat2(size_text(kb).as_str(), " KB");
        match self.dimensions {
            Some((w, h)) => cat7(
                self.label.as_str(),
                " · ",
                number(w as u64).as_str(),
                "×",
                number(h as u64).as_str(),
                " · ",
                size.as_str(),
            ),
            None => cat3(self.label.as_str(), " · ", size.as_str()),
        }
    }

    /// The block that carries the image; `data` is what its file holds.
    pub fn to_block(&self, data: &Vec<u8>) -> (r: ContentBlock)
        requires
            4 * ((data@.len() + 2) / 3) <= usize::MAX,
        ensures
            r@ == (BlockV::Image { media_type: self.media_type@, data: base64_text(data@) }),
    {
        ContentBlock::Image { media_type: self.media_type.clone(), data: encode_base64(data) }
    }
}

/// The directory for the images of a session: beside its file, under the same
/// name.
pub open spec fn attachments_dir(session_path: Seq<char>) -> Seq<char> {
    let stem = match name_of(session_path) {
        Some(n) => stem_of(n),
        None => Seq::empty(),
    };
    beside(session_path, stem + ".attachments"@)
}

/// Computes [`attachments_dir`].
pub fn dir_for(session_path: &str) -> (r: String)
    ensures
        r@ == attachments_dir(session_path@),
{
    let base = match file_name(session_path) {
        Some(n) => stem(n.as_str()),
        None => {
            let none = String::new();
            assert(none@ =~= Seq::empty());
            none
        },
    };
    let full = cat2(base.as_str(), ".attachments");
    rename(session_path, full.as_str())
}

/// The media type that the extension of a file stands for; anything unknown
/// counts as PNG.
pub open spec fn media_type_of(path: Seq<char>) -> Seq<char> {
    let ext = lower_ascii(
        match name_of(path) {
            Some(n) => extension_of(n),
            None => Seq::empty(),
        },
    );
    if ext == "jpg"@ || ext == "jpeg"@ {
        "image/jpeg"@
    } else if ext == "gif"@ {
        "image/gif"@
    } else if ext == "webp"@ {
        "image/webp"@
    } else {
        "image/png"@
    }
}

/// The extension under which an image of that type is stored.
pub open spec fn stored_extension(path: Seq<char>) -> Seq<char> {
    if media_type_of(path) == "image/jpeg"@ {
        "jpeg"@
    } else if media_type_of(path) == "image/gif"@ {
        "gif"@
    } else if media_type_of(path) == "image/webp"@ {
        "webp"@
    } else {
        "png"@
    }
}

/// Computes [`media_type_of`].
pub fn media_type_for(path: &str) -> (r: &'static str)
    ensures
        r@ == media_type_of(path@),
{
    let ext = match file_name(path) {
        Some(n) => to_lower_ascii(extension(n.as_str()).as_str()),
        None => {
            let none = String::new();
            assert(none@ =~= Seq::empty());
            to_lower_ascii(none.as_str())
        },
    };
    let t = ext.as_str();
    if same(t, "jpg") || same(t, "jpeg") {
        "image/jpeg"
    } else if same(t, "gif") {
        "image/gif"
    } else if same(t, "webp") {
        "image/webp"
    } else {
        "image/png"
    }
}

fn extension_for(path: &str) -> (r: &'static str)
    ensures
        r@ == stored_extension(path@),
{
    let m = media_type_for(path);
    if same(m, "image/jpeg") {
        "jpeg"
    } else if same(m, "image/gif") {
        "gif"
    } else if same(m, "image/webp") {
        "webp"
    } else {
        "png"
    }
}

// ------------------------------------------------------------ the name of an image

/// The character of a hexadecimal digit.
pub open spec fn hex_char(d: nat) -> char {
    if d < 10 {
        (d + 48) as char
    } else {
        (d + 87) as char
    }
}

/// The last `width` hexadecimal digits of a number.
pub open spec fn hex_digits(n: nat, width: nat) -> Seq<char>
    decreases width,
{
    if width == 0 {
        Seq::empty()
    } else {
        hex_digits(n / 16, (width - 1) as nat).push(hex_char(n % 16))
    }
}

fn hex_of(d: u8) -> (c: char)
    requires
        d < 16,
    ensures
        c == hex_char(d as nat),
{
    if d < 10 {
        (d + 48) as char
    } else {
        (d + 87) as char
    }
}

fn hex(n: u64, width: usize) -> (r: String)
    ensures
        r@ == hex_digits(n as nat, width as nat),
    decreases width,
{
    if width == 0 {
        let none = String::new();
        assert(none@ =~= Seq::empty());
        return none;
    }
    let mut front = hex(n / 16, width - 1);
    front.push(hex_of((n % 16) as u8));
    front
}

/// The hash of some bytes: `std::hash::DefaultHasher::new`, fed with the bytes.
/// Nothing is said of it: the algorithm may change from release to release.
#[verifier::external_body]
fn hash_of(bytes: &Vec<u8>) -> (r: u64) {
    let mut h = std::hash::DefaultHasher::new();
    std::hash::Hash::hash(bytes.as_slice(), &mut h);
    std::hash::Hasher::finish(&h)
}

/// The name under which bytes of that hash are stored: the hash in sixteen
/// hexadecimal digits.
pub fn digest(hash: u64) -> (r: String)
    ensures
        r@ == hex_digits(hash as nat, 16),
{
    hex(hash, 16)
}

// ------------------------------------------------------------ storing

/// Where bytes of that hash are stored in the directory.
pub open spec fn stored_path(dir: Seq<char>, hash: u64, ext: Seq<char>) -> Seq<char> {
    in_dir(dir, hex_digits(hash as nat, 16) + "."@ + ext)
}

/// The path is the one of some hash.
pub open spec fn stored_as(path: Seq<char>, dir: Seq<char>, ext: Seq<char>) -> bool {
    exists|hash: u64| path == #[trigger] stored_path(dir, hash, ext)
}

fn path_for(dir: &str, hash: u64, ext: &str) -> (r: String)
    ensures
        r@ == stored_path(dir@, hash, ext@),
{
    let d = digest(hash);
    let name = cat3(d.as_str(), ".", ext);
    join_path(dir, name.as_str())
}

/// What an image that is too large is refused with; the front says what it is.
pub open spec fn too_large(front: Seq<char>, bytes: nat) -> Seq<char> {
    front + decimal(bytes / 1048576) + " MB — the limit is "@ + decimal(5) + " MB"@
}

fn refuse_size(front: &str, bytes: usize) -> (r: String)
    ensures
        r@ == too_large(front@, bytes as nat),
{
    cat5(
        front,
        size_text(bytes / 1048576).as_str(),
        " MB — the limit is ",
        number(5).as_str(),
        " MB",
    )
}

/// The attachment for an image file of `bytes` bytes with that hash.
pub fn store_file(dir: &str, label: String, src: &str, bytes: usize, hash: u64) -> (r: Result<
    Attachment,
    String,
>)
    ensures
        match r {
            Ok(a) => {
                &&& bytes <= MAX_BYTES
                &&& a.label == label
                &&& a.media_type@ == media_type_of(src@)
                &&& a.bytes == bytes
                &&& a.dimensions is None
                &&& a.path@ == stored_path(dir@, hash, stored_extension(src@))
            },
            Err(e) => bytes > MAX_BYTES && e@ == too_large("image is "@, bytes as nat),
        },
{
    if bytes > MAX_BYTES {
        return Err(refuse_size("image is ", bytes));
    }
    Ok(
        Attachment {
            label,
            path: path_for(dir, hash, extension_for(src)),
            media_type: media_type_for(src).to_owned(),
            bytes,
            dimensions: None,
        },
    )
}

/// The attachment for an image file; `bytes` is what the file holds. The caller
/// writes them to the attachment's path, unless something lies there already.
/// Which hash stands in the path is not said; see [`store_file`] for the path of
/// each.
pub fn save_file(dir: &str, label: String, src: &str, bytes: &Vec<u8>) -> (r: Result<
    Attachment,
    String,
>)
    ensures
        match r {
            Ok(a) => {
                &&& bytes@.len() <= MAX_BYTES
                &&& a.label == label
                &&& a.media_type@ == media_type_of(src@)
                &&& a.bytes == bytes@.len()
                &&& a.dimensions is None
                &&& stored_as(a.path@, dir@, stored_extension(src@))
            },
            Err(e) => bytes@.len() > MAX_BYTES && e@ == too_large("image is "@, bytes@.len()),
        },
{
    let hash: u64 = hash_of(bytes);
    store_file(dir, label, src, bytes.len(), hash)
}

/// What the `png` crate writes for an image of eight bits for each of red,
/// green, blue and alpha.
pub uninterp spec fn png_bytes(width: u32, height: u32, rgba: Seq<u8>) -> Seq<u8>;

/// The first bytes of every PNG file.
pub open spec fn png_signature() -> Seq<u8> {
    seq![137u8, 80u8, 78u8, 71u8, 13u8, 10u8, 26u8, 10u8]
}

/// Twice the bytes of the image fit a `usize`.
pub open spec fn image_fits(width: u32, height: u32) -> bool {
    2 * ((4 * width + 1) * (height + 1)) <= usize::MAX
}

/// Calls `png::Encoder::write_header` and `png::Writer::write_image_data`. The
/// result depends on the arguments alone. The header is refused exactly where a
/// side is zero, the data exactly where it has not four bytes for each pixel;
/// what is written begins with the signature. The crate's own arithmetic may
/// overflow on an image that does not fit.
#[verifier::external_body]
fn encode_png(width: u32, height: u32, rgba: &Vec<u8>) -> (r: Result<Vec<u8>, bool>)
    requires
        image_fits(width, height),
    ensures
        match r {
            Ok(png) => {
                &&& width > 0 && height > 0 && rgba@.len() == 4 * width * height
                &&& png@ == png_bytes(width, height, rgba@)
                &&& png@.len() >= 8 && png@.take(8) == png_signature()
            },
            Err(true) => width == 0 || height == 0,
            Err(false) => width > 0 && height > 0 && rgba@.len() != 4 * width * height,
        },
{
    let mut out = Vec::new();
    let mut enc = png::Encoder::new(&mut out, width, height);
    enc.set_color(png::ColorType::Rgba);
    enc.set_depth(png::BitDepth::Eight);
    let Ok(mut writer) = enc.write_header() else {
        return Err(true);
    };
    if writer.write_image_data(rgba).is_err() {
        return Err(false);
    }
    drop(writer);
    Ok(out)
}

/// The attachment for an image that was encoded in `bytes` bytes with that hash.
pub fn store_png(
    dir: &str,
    label: String,
    width: u32,
    height: u32,
    bytes: usize,
    hash: u64,
) -> (r: Result<Attachment, String>)
    ensures
        match r {
            Ok(a) => {
                &&& bytes <= MAX_BYTES
                &&& a.label == label
                &&& a.media_type@ == "image/png"@
                &&& a.bytes == bytes
                &&& a.dimensions == Some((width, height))
                &&& a.path@ == stored_path(dir@, hash, "png"@)
            },
            Err(e) => bytes > MAX_BYTES && e@ == too_large(
                "clipboard image encodes to "@,
                bytes as nat,
            ),
        },
{
    if bytes > MAX_BYTES {
        return Err(refuse_size("clipboard image encodes to ", bytes));
    }
    Ok(
        Attachment {
            label,
            path: path_for(dir, hash, "png"),
            media_type: "image/png".to_owned(),
            bytes,
            dimensions: Some((width, height)),
        },
    )
}

/// Encodes raw pixels as PNG. Returns the attachment and the bytes that the
/// caller writes to its path, unless something lies there already. Which hash
/// stands in the path is not said; see [`store_png`] for the path of each.
pub fn save_rgba(dir: &str, label: String, width: u32, height: u32, rgba: &Vec<u8>) -> (r: Result<
    (Attachment, Vec<u8>),
    String,
>)
    requires
        image_fits(width, height),
    ensures
        ({
            let png = png_bytes(width, height, rgba@);
            let whole = width > 0 && height > 0 && rgba@.len() == 4 * width * height;
            match r {
                Ok((a, bytes)) => {
                    &&& whole && png.len() <= MAX_BYTES
                    &&& bytes@ == png
                    &&& png.len() >= 8 && png.take(8) == png_signature()
                    &&& a.label == label
                    &&& a.media_type@ == "image/png"@
                    &&& a.bytes == png.len()
                    &&& a.dimensions == Some((width, height))
                    &&& stored_as(a.path@, dir@, "png"@)
                },
                Err(e) => if width == 0 || height == 0 {
                    e@ == "writing PNG header"@
                } else if !whole {
                    e@ == "encoding PNG"@
                } else {
                    png.len() > MAX_BYTES && e@ == too_large(
                        "clipboard image encodes to "@,
                        png.len(),
                    )
                },
            }
        }),
{
    match encode_png(width, height, rgba) {
        Ok(png) => {
            let hash: u64 = hash_of(&png);
            match store_png(dir, label, width, height, png.len(), hash) {
                Ok(a) => Ok((a, png)),
                Err(e) => Err(e),
            }
        },
        Err(header) => if header {
            Err("writing PNG header".to_owned())
        } else {
            Err("encoding PNG".to_owned())
        },
    }
}

// ------------------------------------------------------------ in a turn

/// The marks of some attachments in the line that the user edits.
pub open spec fn marks(items: Seq<Attachment>) -> Seq<char>
    decreases items.len(),
{
    if items.len() == 0 {
        Seq::empty()
    } else {
        marks(items.drop_last()) + "["@ + items.last().label@ + "] "@
    }
}

/// Computes [`marks`].
pub fn pills(items: &Vec<Attachment>) -> (r: String)
    ensures
        r@ == marks(items@),
{
    let mut out = String::new();
    let mut i: usize = 0;
    assert(items@.take(0) =~= Seq::empty());
    while i < items.len()
        invariant
            i <= items@.len(),
            out@ == marks(items@.take(i as int)),
        decreases items@.len() - i,
    {
        assert(items@.take(i + 1).drop_last() =~= items@.take(i as int));
        let ghost before = out@;
        put(&mut out, "[");
        put(&mut out, items[i].label.as_str());
        put(&mut out, "] ");
        assert(out@ =~= before + "["@ + items@[i as int].label@ + "] "@);
        i += 1;
    }
    assert(items@.take(i as int) =~= items@);
    out
}

/// The bytes of a file, where it could be read.
pub open spec fn file_data(data: Option<Vec<u8>>) -> Option<Seq<u8>> {
    match data {
        Some(d) => Some(d@),
        None => None,
    }
}

/// The image blocks of some attachments: those whose files could be read.
pub open spec fn image_blocks(items: Seq<Attachment>, data: Seq<Option<Vec<u8>>>) -> Seq<BlockV>
    decreases items.len(),
{
    if items.len() == 0 {
        Seq::empty()
    } else {
        let before = image_blocks(items.drop_last(), data);
        match file_data(data[items.len() - 1]) {
            Some(d) => before.push(
                BlockV::Image { media_type: items.last().media_type@, data: base64_text(d) },
            ),
            None => before,
        }
    }
}

/// What the user says in a turn: the images, then the text. `data` holds what
/// each file held, or nothing where it could not be read.
pub fn user_content(items: &Vec<Attachment>, data: &Vec<Option<Vec<u8>>>, text: String) -> (r: Vec<
    ContentBlock,
>)
    requires
        data@.len() == items@.len(),
        forall|i: int|
            0 <= i < data@.len() ==> (file_data(#[trigger] data@[i]) matches Some(d) ==> 4 * ((
            d.len() + 2) / 3) <= usize::MAX),
    ensures
        blocks(r@) == image_blocks(items@, data@).push(BlockV::Text { text: text@ }),
{
    let mut out: Vec<ContentBlock> = Vec::new();
    let mut i: usize = 0;
    assert(items@.take(0) =~= Seq::empty());
    assert(blocks(out@) =~= Seq::empty());
    while i < items.len()
        invariant
            i <= items@.len(),
            data@.len() == items@.len(),
            forall|k: int|
                0 <= k < data@.len() ==> (file_data(#[trigger] data@[k]) matches Some(d) ==> 4 * ((
                d.len() + 2) / 3) <= usize::MAX),
            blocks(out@) == image_blocks(items@.take(i as int), data@),
        decreases items@.len() - i,
    {
        assert(items@.take(i + 1).drop_last() =~= items@.take(i as int));
        assert(items@.take(i + 1).last() == items@[i as int]);
        let ghost before = blocks(out@);
        if let Some(d) = &data[i] {
            assert(file_data(data@[i as int]) == Some(d@));
            let b = items[i].to_block(d);
            let ghost bv = b@;
            out.push(b);
            assert(blocks(out@) =~= before.push(bv));
        }
        i += 1;
    }
    assert(items@.take(i as int) =~= items@);
    let ghost images = blocks(out@);
    let ghost t = text@;
    out.push(ContentBlock::Text { text });
    assert(blocks(out@) =~= images.push(BlockV::Text { text: t }));
    out
}

// ------------------------------------------------------------ laws

proof fn lemma_hex_digits(a: nat, b: nat, width: nat)
    ensures
        hex_digits(a, width).len() == width,
        forall|i: int| 0 <= i < width ==> #[trigger] hex_digits(a, width)[i] != '/',
        hex_digits(a, width) == hex_digits(b, width) && a < pow(16, width) && b < pow(16, width)
            ==> a == b,
    decreases width,
{
    reveal(pow);
    if width > 0 {
        let w = (width - 1) as nat;
        lemma_hex_digits(a / 16, b / 16, w);
        lemma_hex_digits(b / 16, a / 16, w);
        assert(hex_digits(a, width) == hex_digits(a / 16, w).push(hex_char(a % 16)));
        assert(pow(16, width) == 16 * pow(16, w));
        if hex_digits(a, width) == hex_digits(b, width) {
            let (x, y) = (hex_digits(a, width), hex_digits(b, width));
            assert(x.drop_last() =~= hex_digits(a / 16, w));
            assert(y.drop_last() =~= hex_digits(b / 16, w));
            assert(x.last() == hex_char(a % 16) && y.last() == hex_char(b % 16));
        }
    }
}

/// Bytes are stored once for each hash: two hashes never share a path, so no
/// image is taken for another of a different hash.
pub proof fn law_hashes_have_their_own_paths(dir: Seq<char>, a: u64, b: u64, ext: Seq<char>)
    requires
        a != b,
    ensures
        stored_path(dir, a, ext) != stored_path(dir, b, ext),
{
    let (x, y) = (hex_digits(a as nat, 16), hex_digits(b as nat, 16));
    lemma_hex_digits(a as nat, b as nat, 16);
    lemma_hex_digits(b as nat, a as nat, 16);
    assert(pow(16, 16) == 0x1_0000_0000_0000_0000) by {
        reveal_with_fuel(pow, 17);
    }
    let (xs, ys) = (x + "."@ + ext, y + "."@ + ext);
    assert(xs[0] == x[0] && ys[0] == y[0]);
    let (p, q) = (in_dir(dir, xs), in_dir(dir, ys));
    let at = p.len() - xs.len();
    if p == q {
        assert(p.subrange(at, at + 16) =~= x);
        assert(q.subrange(at, at + 16) =~= y);
    }
}

/// The images come before the text, and there are no more of them than
/// attachments.
pub proof fn law_images_precede_the_text(items: Seq<Attachment>, data: Seq<Option<Vec<u8>>>)
    requires
        data.len() >= items.len(),
    ensures
        image_blocks(items, data).len() <= items.len(),
        forall|i: int|
            0 <= i < image_blocks(items, data).len() ==> (#[trigger] image_blocks(
                items,
                data,
            )[i]) is Image,
    decreases items.len(),
{
    if items.len() > 0 {
        law_images_precede_the_text(items.drop_last(), data);
        let before = image_blocks(items.drop_last(), data);
        let after = image_blocks(items, data);
        assert forall|i: int| 0 <= i < after.len() implies (#[trigger] after[i]) is Image by {
            if i < before.len() {
                assert(after[i] == before[i]);
            }
        }
    }
}

/// Whether the endpoint reads images is decided once: later records change
/// nothing.
pub proof fn law_first_record_stays(first: bool, second: bool)
    ensures
        recorded(recorded(None, first), second) == Some(first),
{
}

/// How many of the first attachments could be read.
pub open spec fn readable(data: Seq<Option<Vec<u8>>>, n: int) -> nat
    decreases n,
{
    if n <= 0 {
        0
    } else {
        readable(data, n - 1) + (if data[n - 1] is Some {
            1nat
        } else {
            0
        })
    }
}

/// Every attachment that could be read is sent, with its own type and its own bytes, and
/// in its own place; one that could not be read is left out.
pub proof fn law_readable_images_are_sent(
    items: Seq<Attachment>,
    data: Seq<Option<Vec<u8>>>,
    i: int,
)
    requires
        data.len() == items.len(),
        0 <= i < items.len(),
    ensures
        image_blocks(items, data).len() == readable(data, items.len() as int),
        data[i] matches Some(d) ==> {
            let at = readable(data, i) as int;
            &&& at < image_blocks(items, data).len()
            &&& image_blocks(items, data)[at] == (BlockV::Image {
                media_type: items[i].media_type@,
                data: base64_text(d@),
            })
        },
{
    lemma_images(items, data, i);
}

proof fn lemma_images(items: Seq<Attachment>, data: Seq<Option<Vec<u8>>>, i: int)
    requires
        data.len() >= items.len(),
        0 <= i < items.len(),
    ensures
        image_blocks(items, data).len() == readable(data, items.len() as int),
        data[i] matches Some(d) ==> {
            let at = readable(data, i) as int;
            &&& at < image_blocks(items, data).len()
            &&& image_blocks(items, data)[at] == (BlockV::Image {
                media_type: items[i].media_type@,
                data: base64_text(d@),
            })
        },
    decreases items.len(),
{
    let front = items.drop_last();
    if i < front.len() {
        lemma_images(front, data, i);
    } else if front.len() > 0 {
        lemma_images(front, data, 0);
    } else {
        assert(image_blocks(front, data).len() == 0);
        assert(readable(data, 0) == 0);
    }
}

/// The label of every attachment is marked in the line, in their order.
pub proof fn law_every_attachment_is_marked(a: Seq<Attachment>, b: Seq<Attachment>, i: int)
    ensures
        marks(a + b) == marks(a) + marks(b),
        0 <= i < a.len() ==> holds(marks(a), "["@ + a[i].label@ + "] "@),
    decreases a.len() + b.len(),
{
    if b.len() > 0 {
        law_every_attachment_is_marked(a, b.drop_last(), i);
        assert((a + b).drop_last() =~= a + b.drop_last());
        assert((a + b).last() == b.last());
        let (x, y) = (marks(a), marks(b.drop_last()));
        let l = b.last().label@;
        assert((x + y) + "["@ + l + "] "@ =~= x + (y + "["@ + l + "] "@));
    } else {
        assert(a + b =~= a);
        assert(marks(a) + marks(b) =~= marks(a));
        if 0 <= i < a.len() {
            let front = a.drop_last();
            let (before, all) = (marks(front), marks(a));
            let n = "["@ + a[i].label@ + "] "@;
            if i == front.len() {
                let at = before.len() as int;
                assert(all.subrange(at, at + n.len()) =~= n);
                assert(occurs_at(all, n, at));
            } else {
                law_every_attachment_is_marked(front, Seq::empty(), i);
                let at = choose|at: int| occurs_at(before, n, at);
                assert(all.subrange(at, at + n.len()) =~= before.subrange(at, at + n.len()));
                assert(occurs_at(all, n, at));
            }
        }
    }
}

/// An attachment is described by its label, by its size in pixels where that is known, and
/// by the kilobytes that it fills, the last of them in part.
pub proof fn law_attachments_are_described(a: Attachment)
    ensures
        begins(description(a), a.label@),
        ends(description(a), decimal(kilobytes(a.bytes as nat)) + " KB"@),
        1024 * kilobytes(a.bytes as nat) >= a.bytes,
        a.bytes > 0 ==> 1024 * (kilobytes(a.bytes as nat) - 1) < a.bytes,
        a.dimensions matches Some((w, h)) ==> holds(
            description(a),
            decimal(w as nat) + "×"@ + decimal(h as nat),
        ),
{
    let all = description(a);
    let size = decimal(kilobytes(a.bytes as nat)) + " KB"@;
    assert(all.subrange(0, a.label@.len() as int) =~= a.label@);
    assert(all.subrange(all.len() - size.len(), all.len() as int) =~= size);
    if let Some((w, h)) = a.dimensions {
        let n = decimal(w as nat) + "×"@ + decimal(h as nat);
        let at = (a.label@.len() + " · "@.len()) as int;
        assert(all.subrange(at, at + n.len()) =~= n);
        assert(occurs_at(all, n, at));
    }
}

/// An image is stored under the extension that its media type is named after.
pub proof fn law_extension_fits_the_type(path: Seq<char>)
    ensures
        media_type_of(path) == "image/"@ + stored_extension(path),
{
    reveal_strlit("image/");
    reveal_strlit("image/jpeg");
    reveal_strlit("image/gif");
    reveal_strlit("image/webp");
    reveal_strlit("image/png");
    reveal_strlit("jpeg");
    reveal_strlit("gif");
    reveal_strlit("webp");
    reveal_strlit("png");
    assert("image/jpeg"@ =~= "image/"@ + "jpeg"@);
    assert("image/gif"@ =~= "image/"@ + "gif"@);
    assert("image/webp"@ =~= "image/"@ + "webp"@);
    assert("image/png"@ =~= "image/"@ + "png"@);
    assert("image/gif"@[6] != "image/png"@[6]);
    assert("image/jpeg"@[6] != "image/webp"@[6]);
}

/// The images of a session lie in a directory that is named after its file.
pub proof fn law_images_lie_beside_the_session(path: Seq<char>, name: Seq<char>)
    requires
        name_of(path) == Some(name),
    ensures
        ends(attachments_dir(path), stem_of(name) + ".attachments"@),
{
    let own = stem_of(name) + ".attachments"@;
    law_paths_stand_in_their_directory(path, own);
    if let Some(dir) = parent_of(path) {
        law_paths_stand_in_their_directory(dir, own);
    }
}

/// An image that is refused for its size is told its size in megabytes, and the limit.
pub proof fn law_refused_images_tell_their_size(front: Seq<char>, bytes: nat)
    ensures
        begins(too_large(front, bytes), front + decimal(bytes / 1048576) + " MB"@),
{
    reveal_strlit(" MB");
    reveal_strlit(" MB — the limit is ");
    let all = too_large(front, bytes);
    let lead = front + decimal(bytes / 1048576);
    let n = lead + " MB"@;
    assert(" MB — the limit is "@.subrange(0, 3) =~= " MB"@);
    assert(all.subrange(0, n.len() as int) =~= lead + " MB — the limit is "@.subrange(0, 3));
}

} // verus!
