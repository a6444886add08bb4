use vstd::prelude::*;

verus! {

/// What the first bytes of a cache file say it holds.
#[derive(Clone, Copy, Debug, PartialEq, Eq, Structural)]
pub enum CacheKind {
    Image,
    Video,
    Other,
}

/// The text shown for each kind.
pub open spec fn kind_label(kind: CacheKind) -> Seq<char> {
    match kind {
        CacheKind::Image => "image"@,
        CacheKind::Video => "video"@,
        CacheKind::Other => "other"@,
    }
}

impl CacheKind {
    /// The lowercase name of the kind.
    pub fn label(self) -> (text: &'static str)
        ensures
            text@ == kind_label(self),
    {
        match self {
            CacheKind::Image => "image",
            CacheKind::Video => "video",
            CacheKind::Other => "other",
        }
    }
}

/// One file of the cache directory, as the explorer lists it.
#[derive(Debug)]
pub struct CacheEntry {
    /// The file's full path, in the platform's encoding of OS strings
    /// (`OsStr::as_encoded_bytes`), so that any path is kept exactly.
    pub path: Vec<u8>,
    /// The file's name within the directory.
    pub file_name: String,
    /// The file's size in bytes.
    pub len: u64,
    /// When the file was last modified, in nanoseconds since the Unix epoch
    /// (negative before it), where the platform reports it.
    pub modified: Option<i128>,
    /// What the file's first bytes say it holds.
    pub kind: CacheKind,
}

impl Clone for CacheEntry {
    fn clone(&self) -> (copy: Self)
        ensures
            copy.path@ == self.path@,
            copy.file_name == self.file_name,
            copy.len == self.len,
            copy.modified == self.modified,
            copy.kind == self.kind,
    {
        let path = self.path.clone();
        assert(path@ =~= self.path@);
        CacheEntry {
            path,
            file_name: self.file_name.clone(),
            len: self.len,
            modified: self.modified,
            kind: self.kind,
        }
    }
}

/// `bytes` holds `pattern` starting at offset `start`, with room for all of it.
pub open spec fn holds_at(bytes: Seq<u8>, start: int, pattern: Seq<u8>) -> bool {
    &&& 0 <= start
    &&& start + pattern.len() <= bytes.len()
    &&& bytes.subrange(start, start + pattern.len()) == pattern
}

/// `bytes` begins with `pattern`.
pub open spec fn begins_with(bytes: Seq<u8>, pattern: Seq<u8>) -> bool {
    holds_at(bytes, 0, pattern)
}

/// The PNG file signature.
pub open spec fn png_magic() -> Seq<u8> {
    seq![0x89u8, 0x50u8, 0x4eu8, 0x47u8, 0x0du8, 0x0au8, 0x1au8, 0x0au8]
}

/// The JPEG start-of-image marker and the first byte of the next marker.
pub open spec fn jpeg_magic() -> Seq<u8> {
    seq![0xffu8, 0xd8u8, 0xffu8]
}

/// "GIF87a".
pub open spec fn gif87_magic() -> Seq<u8> {
    seq![0x47u8, 0x49u8, 0x46u8, 0x38u8, 0x37u8, 0x61u8]
}

/// "GIF89a".
pub open spec fn gif89_magic() -> Seq<u8> {
    seq![0x47u8, 0x49u8, 0x46u8, 0x38u8, 0x39u8, 0x61u8]
}

/// "RIFF", the container of WebP and AVI files.
pub open spec fn riff_magic() -> Seq<u8> {
    seq![0x52u8, 0x49u8, 0x46u8, 0x46u8]
}

/// "WEBP", the RIFF form type of WebP images.
pub open spec fn webp_form() -> Seq<u8> {
    seq![0x57u8, 0x45u8, 0x42u8, 0x50u8]
}

/// "AVI ", the RIFF form type of AVI videos.
pub open spec fn avi_form() -> Seq<u8> {
    seq![0x41u8, 0x56u8, 0x49u8, 0x20u8]
}

/// "ftyp", the first box type of ISO base media files (MP4, MOV).
pub open spec fn ftyp_box() -> Seq<u8> {
    seq![0x66u8, 0x74u8, 0x79u8, 0x70u8]
}

/// The EBML header id that starts Matroska and WebM files.
pub open spec fn ebml_magic() -> Seq<u8> {
    seq![0x1au8, 0x45u8, 0xdfu8, 0xa3u8]
}

/// The prefix is that of a PNG, JPEG, GIF or WebP image.
pub open spec fn is_image_prefix(bytes: Seq<u8>) -> bool {
    ||| begins_with(bytes, png_magic())
    ||| begins_with(bytes, jpeg_magic())
    ||| begins_with(bytes, gif87_magic())
    ||| begins_with(bytes, gif89_magic())
    ||| begins_with(bytes, riff_magic()) && holds_at(bytes, 8, webp_form())
}

/// The prefix is that of an MP4/MOV, Matroska/WebM or AVI video.
/// An `ftyp` box counts only when more than twelve bytes were read.
pub open spec fn is_video_prefix(bytes: Seq<u8>) -> bool {
    ||| bytes.len() > 12 && holds_at(bytes, 4, ftyp_box())
    ||| begins_with(bytes, ebml_magic())
    ||| begins_with(bytes, riff_magic()) && holds_at(bytes, 8, avi_form())
}

/// The kind that the first bytes of a file show; image signatures win over video ones.
pub open spec fn sniffed_kind(bytes: Seq<u8>) -> CacheKind {
    if is_image_prefix(bytes) {
        CacheKind::Image
    } else if is_video_prefix(bytes) {
        CacheKind::Video
    } else {
        CacheKind::Other
    }
}

proof fn lemma_begins_with_bytes(bytes: Seq<u8>, pattern: Seq<u8>)
    requires
        pattern.len() <= bytes.len(),
        forall|i: int| 0 <= i < pattern.len() ==> bytes[i] == pattern[i],
    ensures
        begins_with(bytes, pattern),
{
    assert(bytes.subrange(0, pattern.len() as int) =~= pattern);
}

/// Whatever follows `FF D8 FF`, the file is a JPEG image.
pub proof fn lemma_jpeg_start_is_image(bytes: Seq<u8>)
    requires
        bytes.len() >= 3,
        bytes[0] == 0xff,
        bytes[1] == 0xd8,
        bytes[2] == 0xff,
    ensures
        sniffed_kind(bytes) == CacheKind::Image,
{
    lemma_begins_with_bytes(bytes, jpeg_magic());
}

/// The eight-byte PNG signature makes an image.
pub proof fn lemma_png_start_is_image(bytes: Seq<u8>)
    requires
        bytes.len() >= 8,
        bytes[0] == 0x89 && bytes[1] == 0x50 && bytes[2] == 0x4e && bytes[3] == 0x47,
        bytes[4] == 0x0d && bytes[5] == 0x0a && bytes[6] == 0x1a && bytes[7] == 0x0a,
    ensures
        sniffed_kind(bytes) == CacheKind::Image,
{
    lemma_begins_with_bytes(bytes, png_magic());
}

/// "GIF87a" and "GIF89a" make an image.
pub proof fn lemma_gif_start_is_image(bytes: Seq<u8>)
    requires
        bytes.len() >= 6,
        bytes[0] == 0x47 && bytes[1] == 0x49 && bytes[2] == 0x46 && bytes[3] == 0x38,
        bytes[4] == 0x37 || bytes[4] == 0x39,
        bytes[5] == 0x61,
    ensures
        sniffed_kind(bytes) == CacheKind::Image,
{
    if bytes[4] == 0x37 {
        lemma_begins_with_bytes(bytes, gif87_magic());
    } else {
        lemma_begins_with_bytes(bytes, gif89_magic());
    }
}

/// A RIFF container of form "WEBP" is an image, one of form "AVI " a video.
pub proof fn lemma_riff_forms(bytes: Seq<u8>)
    requires
        bytes.len() >= 12,
        bytes[0] == 0x52 && bytes[1] == 0x49 && bytes[2] == 0x46 && bytes[3] == 0x46,
    ensures
        bytes[8] == 0x57 && bytes[9] == 0x45 && bytes[10] == 0x42 && bytes[11] == 0x50
            ==> sniffed_kind(bytes) == CacheKind::Image,
        bytes[8] == 0x41 && bytes[9] == 0x56 && bytes[10] == 0x49 && bytes[11] == 0x20
            ==> sniffed_kind(bytes) == CacheKind::Video,
{
    lemma_begins_with_bytes(bytes, riff_magic());
    if bytes[8] == 0x57 && bytes[9] == 0x45 && bytes[10] == 0x42 && bytes[11] == 0x50 {
        assert(bytes.subrange(8, 12) =~= webp_form());
    }
    if bytes[8] == 0x41 && bytes[9] == 0x56 && bytes[10] == 0x49 && bytes[11] == 0x20 {
        assert(bytes.subrange(8, 12) =~= avi_form());
        assert(!begins_with(bytes, png_magic()) || bytes[0] == 0x89);
        if begins_with(bytes, jpeg_magic()) {
            assert(bytes.subrange(0, 3)[0] == bytes[0]);
        }
        if begins_with(bytes, gif87_magic()) {
            assert(bytes.subrange(0, 6)[3] == bytes[3]);
        }
        if begins_with(bytes, gif89_magic()) {
            assert(bytes.subrange(0, 6)[3] == bytes[3]);
        }
        if begins_with(bytes, png_magic()) {
            assert(bytes.subrange(0, 8)[0] == bytes[0]);
        }
        if holds_at(bytes, 8, webp_form()) {
            assert(bytes.subrange(8, 12)[0] == bytes[8]);
        }
    }
}

/// The Matroska/WebM header id makes a video.
pub proof fn lemma_ebml_start_is_video(bytes: Seq<u8>)
    requires
        bytes.len() >= 4,
        bytes[0] == 0x1a && bytes[1] == 0x45 && bytes[2] == 0xdf && bytes[3] == 0xa3,
    ensures
        sniffed_kind(bytes) == CacheKind::Video,
{
    lemma_begins_with_bytes(bytes, ebml_magic());
    if begins_with(bytes, jpeg_magic()) {
        assert(bytes.subrange(0, 3)[0] == bytes[0]);
    }
    if begins_with(bytes, gif87_magic()) {
        assert(bytes.subrange(0, 6)[0] == bytes[0]);
    }
    if begins_with(bytes, gif89_magic()) {
        assert(bytes.subrange(0, 6)[0] == bytes[0]);
    }
    if begins_with(bytes, png_magic()) {
        assert(bytes.subrange(0, 8)[0] == bytes[0]);
    }
    if begins_with(bytes, riff_magic()) {
        assert(bytes.subrange(0, 4)[0] == bytes[0]);
    }
}

/// An ISO media `ftyp` box at offset 4 makes a video once more than twelve
/// bytes were read, unless the bytes also carry an image signature.
pub proof fn lemma_ftyp_is_video(bytes: Seq<u8>)
    requires
        bytes.len() > 12,
        bytes[4] == 0x66 && bytes[5] == 0x74 && bytes[6] == 0x79 && bytes[7] == 0x70,
    ensures
        !is_image_prefix(bytes) ==> sniffed_kind(bytes) == CacheKind::Video,
{
    assert(bytes.subrange(4, 8) =~= ftyp_box());
}

/// A file too short for any signature, or with none, is Other.
pub proof fn lemma_empty_is_other(bytes: Seq<u8>)
    requires
        bytes.len() < 3,
    ensures
        sniffed_kind(bytes) == CacheKind::Other,
{
}

fn bytes_match_at(bytes: &[u8], start: usize, pattern: &Vec<u8>) -> (found: bool)
    ensures
        found == holds_at(bytes@, start as int, pattern@),
{
    if start > bytes.len() || pattern.len() > bytes.len() - start {
        return false;
    }
    let mut i: usize = 0;
    while i < pattern.len()
        invariant
            i <= pattern.len(),
            start + pattern.len() <= bytes.len(),
            forall|j: int| 0 <= j < i ==> bytes@[start + j] == pattern@[j],
        decreases pattern.len() - i,
    {
        if bytes[start + i] != pattern[i] {
            assert(bytes@.subrange(start as int, start + pattern@.len())[i as int] != pattern@[i as int]);
            return false;
        }
        i = i + 1;
    }
    assert(bytes@.subrange(start as int, start + pattern@.len()) =~= pattern@);
    true
}

/// Tells the kind of a cache file from the first bytes read from it.
pub fn sniff_kind(bytes: &[u8]) -> (kind: CacheKind)
    ensures
        kind == sniffed_kind(bytes@),
{
    let png: Vec<u8> = vec![0x89u8, 0x50u8, 0x4eu8, 0x47u8, 0x0du8, 0x0au8, 0x1au8, 0x0au8];
    let jpeg: Vec<u8> = vec![0xffu8, 0xd8u8, 0xffu8];
    let gif87: Vec<u8> = vec![0x47u8, 0x49u8, 0x46u8, 0x38u8, 0x37u8, 0x61u8];
    let gif89: Vec<u8> = vec![0x47u8, 0x49u8, 0x46u8, 0x38u8, 0x39u8, 0x61u8];
    let riff: Vec<u8> = vec![0x52u8, 0x49u8, 0x46u8, 0x46u8];
    let webp: Vec<u8> = vec![0x57u8, 0x45u8, 0x42u8, 0x50u8];
    let avi: Vec<u8> = vec![0x41u8, 0x56u8, 0x49u8, 0x20u8];
    let ftyp: Vec<u8> = vec![0x66u8, 0x74u8, 0x79u8, 0x70u8];
    let ebml: Vec<u8> = vec![0x1au8, 0x45u8, 0xdfu8, 0xa3u8];
    assert(png@ =~= png_magic());
    assert(jpeg@ =~= jpeg_magic());
    assert(gif87@ =~= gif87_magic());
    assert(gif89@ =~= gif89_magic());
    assert(riff@ =~= riff_magic());
    assert(webp@ =~= webp_form());
    assert(avi@ =~= avi_form());
    assert(ftyp@ =~= ftyp_box());
    assert(ebml@ =~= ebml_magic());

    let is_riff = bytes_match_at(bytes, 0, &riff);
    if bytes_match_at(bytes, 0, &png) || bytes_match_at(bytes, 0, &jpeg)
        || bytes_match_at(bytes, 0, &gif87) || bytes_match_at(bytes, 0, &gif89)
        || is_riff && bytes_match_at(bytes, 8, &webp)
    {
        return CacheKind::Image;
    }
    if bytes.len() > 12 && bytes_match_at(bytes, 4, &ftyp) || bytes_match_at(bytes, 0, &ebml)
        || is_riff && bytes_match_at(bytes, 8, &avi)
    {
        return CacheKind::Video;
    }
    CacheKind::Other
}

/// What the `image` crate makes of a file's bytes: the width, height and
/// RGBA pixels of the image it decodes, or the message of the error that
/// stops it. It depends on the bytes alone as long as no decoding hook is
/// registered with the crate (`image::hooks`), which nothing here does.
pub uninterp spec fn image_decoding(bytes: Seq<u8>) -> Result<(u32, u32, Seq<u8>), Seq<char>>;

/// Decodes `bytes` with `image::load_from_memory`, which guesses the format
/// from the bytes, and converts the result to plain values: the image to
/// 8-bit RGBA with `DynamicImage::into_rgba8` (its width, height and raw
/// buffer), an `image::ImageError` to its `Display` message.
/// Trusted: the result is the one `image_decoding` names; nothing is
/// claimed of the buffer's length.
#[verifier::external_body]
fn decode_rgba(bytes: &[u8]) -> (decoded: Result<(u32, u32, Vec<u8>), String>)
    ensures
        match decoded {
            Ok((width, height, pixels)) => image_decoding(bytes@) == Ok::<(u32, u32, Seq<u8>), Seq<char>>((width, height, pixels@)),
            Err(message) => image_decoding(bytes@) == Err::<(u32, u32, Seq<u8>), Seq<char>>(message@),
        },
{
    match image::load_from_memory(bytes) {
        Ok(image) => {
            let rgba = image.into_rgba8();
            Ok((rgba.width(), rgba.height(), rgba.into_raw()))
        },
        Err(error) => Err(error.to_string()),
    }
}

/// A decoded picture: its size and its pixels, four bytes (red, green,
/// blue, alpha) each, row by row.
#[derive(Debug)]
pub struct DecodedImage {
    pub width: u32,
    pub height: u32,
    pub rgba: Vec<u8>,
}

impl DecodedImage {
    /// There are exactly four bytes for every pixel.
    pub open spec fn wf(&self) -> bool {
        self.rgba.len() == 4 * (self.width as int) * (self.height as int)
    }
}

/// Whether `len` bytes are exactly four for each of `width` × `height` pixels.
pub fn rgba_len_fits(width: u32, height: u32, len: usize) -> (fits: bool)
    ensures
        fits == (len as int == 4 * (width as int) * (height as int)),
{
    let w = width as u128;
    let h = height as u128;
    assert(w * h <= 0xffff_ffffu128 * 0xffff_ffffu128) by (nonlinear_arith)
        requires
            w <= 0xffff_ffffu128,
            h <= 0xffff_ffffu128,
    ;
    let needed = w * h * 4;
    assert(needed == 4 * (width as int) * (height as int)) by (nonlinear_arith)
        requires
            needed == w * h * 4,
            w == width,
            h == height,
    ;
    needed == len as u128
}

/// The picture made of `rgba` at `width` × `height` pixels, where the
/// buffer holds exactly four bytes for each pixel; otherwise an error.
pub fn image_from_rgba(width: u32, height: u32, rgba: Vec<u8>) -> (image: Result<DecodedImage, String>)
    ensures
        image is Ok <==> rgba.len() == 4 * (width as int) * (height as int),
        image matches Ok(picture) ==> picture.width == width && picture.height == height
            && picture.rgba == rgba && picture.wf(),
        image matches Err(message) ==> message@ == "decoded pixel buffer does not match the image size"@,
{
    if rgba_len_fits(width, height, rgba.len()) {
        Ok(DecodedImage { width, height, rgba })
    } else {
        Err(String::from_str("decoded pixel buffer does not match the image size"))
    }
}

/// Decodes the bytes of an image file into RGBA pixels. Fails with the
/// decoder's message where the `image` crate cannot decode the bytes, and
/// where what it gives does not hold four bytes per pixel.
pub fn decode_image(bytes: &[u8]) -> (decoded: Result<DecodedImage, String>)
    ensures
        match image_decoding(bytes@) {
            Ok((width, height, pixels)) => if pixels.len() == 4 * (width as int) * (height as int) {
                decoded matches Ok(image) && image.width == width && image.height == height
                    && image.rgba@ == pixels
            } else {
                decoded matches Err(message)
                    && message@ == "decoded pixel buffer does not match the image size"@
            },
            Err(reason) => decoded matches Err(message) && message@ == reason,
        },
        decoded matches Ok(image) ==> image.wf(),
{
    match decode_rgba(bytes) {
        Ok((width, height, rgba)) => image_from_rgba(width, height, rgba),
        Err(message) => Err(message),
    }
}

} // verus!
