//! The clipboard: what is sent when it changes, in which pieces, and how the pieces are put
//! together again.

use crate::bytes::{append_bytes, copy_range, same_32};
use crate::digest::{sha256, sha256_of};
use crate::protocol::{message_views, Message, MessageView, CLIPBOARD_CHUNK_BYTES, MAX_IMAGE_BYTES};
use crate::text::{cat, cat3, decimal, decimal_text, owned, text_from_utf8, utf8_error_of};
use vstd::prelude::*;
use vstd::utf8::{
    decode_utf8, encode_scalar, encode_utf8, encode_utf8_decode_utf8, encode_utf8_first_scalar,
    encode_utf8_valid_utf8, is_char_boundary, is_char_boundary_start_end_of_seq, pop_first_scalar,
    valid_utf8,
};

verus! {

/// The longest text that is sent whole, unless a configuration says otherwise.
pub const DEFAULT_LIMIT_BYTES: usize = 1024 * 1024;

/// Milliseconds between two looks at the clipboard.
pub const POLL_INTERVAL: u64 = 200;

/// What a payload is, and so how the receiver applies it.
#[derive(Debug, Clone, Copy, PartialEq, Eq, Structural)]
pub enum PayloadKind {
    Text,
    /// A PNG of this size.
    Image { width: u32, height: u32 },
}

/// One content of the clipboard.
#[derive(Debug, PartialEq, Eq)]
pub struct ClipboardPayload {
    pub hash: [u8; 32],
    pub bytes: Vec<u8>,
    pub mime: String,
    pub truncated: bool,
    pub kind: PayloadKind,
}

/// What a [`ClipboardPayload`] says.
pub struct PayloadView {
    pub hash: Seq<u8>,
    pub bytes: Seq<u8>,
    pub mime: Seq<char>,
    pub truncated: bool,
    pub kind: PayloadKind,
}

impl View for ClipboardPayload {
    type V = PayloadView;

    open spec fn view(&self) -> PayloadView {
        PayloadView {
            hash: self.hash@,
            bytes: self.bytes@,
            mime: self.mime@,
            truncated: self.truncated,
            kind: self.kind,
        }
    }
}

impl Clone for ClipboardPayload {
    fn clone(&self) -> (r: Self)
        ensures
            r@ == self@,
    {
        ClipboardPayload {
            hash: self.hash,
            bytes: self.bytes.clone(),
            mime: self.mime.clone(),
            truncated: self.truncated,
            kind: self.kind,
        }
    }
}

#[derive(Debug, PartialEq, Eq)]
pub enum ClipboardError {
    /// The clipboard, or what it holds, was refused; with the reason.
    Arboard(String),
}

/// The reason that an error gives.
pub open spec fn reason(e: ClipboardError) -> Seq<char> {
    match e {
        ClipboardError::Arboard(why) => why@,
    }
}

/// As many of the characters of `t` as fit in `limit` bytes of UTF-8.
pub open spec fn cut(t: Seq<char>, limit: int) -> Seq<char>
    decreases t.len(),
{
    if t.len() > 0 && encode_scalar(t[0] as u32).len() <= limit {
        seq![t[0]] + cut(t.drop_first(), limit - encode_scalar(t[0] as u32).len())
    } else {
        Seq::empty()
    }
}

/// What is cut is the longest beginning of a text that fits.
pub proof fn cut_is_longest_prefix(t: Seq<char>, limit: int)
    requires
        limit >= 0,
    ensures
        cut(t, limit).len() <= t.len(),
        cut(t, limit) == t.take(cut(t, limit).len() as int),
        encode_utf8(cut(t, limit)).len() <= limit,
        encode_utf8(t).len() <= limit ==> cut(t, limit) == t,
        cut(t, limit).len() < t.len() ==> encode_utf8(
            t.take(cut(t, limit).len() as int + 1),
        ).len() > limit,
    decreases t.len(),
{
    let c = cut(t, limit);
    if t.len() > 0 {
        let w = encode_scalar(t[0] as u32).len();
        if w <= limit {
            let tail = t.drop_first();
            let rest = cut(tail, limit - w);
            cut_is_longest_prefix(tail, limit - w);
            assert(c.drop_first() =~= rest);
            assert(c =~= t.take(c.len() as int));
            if rest.len() < tail.len() {
                let next = t.take(c.len() as int + 1);
                assert(next.drop_first() =~= tail.take(rest.len() as int + 1));
            }
            if encode_utf8(t).len() <= limit {
                assert(c =~= t);
            }
        } else {
            reveal_with_fuel(encode_utf8, 2);
            assert(t.take(1).drop_first() =~= Seq::<char>::empty());
            assert(encode_utf8(t.take(1)) =~= encode_scalar(t[0] as u32));
            assert(c =~= t.take(0));
        }
    } else {
        assert(c =~= t);
        assert(c =~= t.take(0));
    }
}

/// Cutting at the last boundary that fits keeps as many characters as fit.
proof fn lemma_cut_at(t: Seq<char>, limit: int, end: int)
    requires
        0 <= end <= limit,
        is_char_boundary(encode_utf8(t), end),
        forall|e: int| end < e <= limit ==> !is_char_boundary(encode_utf8(t), e),
    ensures
        encode_utf8(cut(t, limit)) == encode_utf8(t).subrange(0, end),
    decreases t.len(),
{
    let b = encode_utf8(t);
    encode_utf8_valid_utf8(t);
    if t.len() == 0 {
        assert(encode_utf8(cut(t, limit)) =~= b.subrange(0, end));
    } else {
        let first = encode_scalar(t[0] as u32);
        let w = first.len() as int;
        let tail = t.drop_first();
        encode_utf8_first_scalar(t);
        encode_utf8_valid_utf8(tail);
        assert(pop_first_scalar(b) =~= encode_utf8(tail));
        reveal_with_fuel(is_char_boundary, 2);
        if end == 0 {
            if w <= limit {
                assert(is_char_boundary(encode_utf8(tail), 0));
                assert(is_char_boundary(b, w));
            }
            assert(encode_utf8(cut(t, limit)) =~= b.subrange(0, end));
        } else {
            assert(is_char_boundary(encode_utf8(tail), end - w));
            assert forall|e: int| end - w < e <= limit - w implies !is_char_boundary(
                encode_utf8(tail),
                e,
            ) by {
                assert(!is_char_boundary(b, e + w));
                if is_char_boundary(encode_utf8(tail), e) {
                    assert(e <= encode_utf8(tail).len());
                }
            }
            lemma_cut_at(tail, limit - w, end - w);
            let c = cut(t, limit);
            assert(c.drop_first() =~= cut(tail, limit - w));
            assert(encode_utf8(c) =~= b.subrange(0, end));
        }
    }
}

/// The longest beginning of `s` that takes at most `limit` bytes and does not split a character.
pub fn truncate_utf8(s: &str, limit: usize) -> (r: &str)
    ensures
        r@ == cut(s@, limit as int),
{
    if s.as_bytes().len() <= limit {
        proof {
            cut_is_longest_prefix(s@, limit as int);
        }
        return s;
    }
    let mut end: usize = limit;
    proof {
        encode_utf8_valid_utf8(s@);
        is_char_boundary_start_end_of_seq(encode_utf8(s@));
    }
    while !s.is_char_boundary(end)
        invariant
            end <= limit,
            is_char_boundary(encode_utf8(s@), 0),
            forall|e: int| end < e <= limit ==> !is_char_boundary(encode_utf8(s@), e),
        decreases end,
    {
        end = end - 1;
    }
    let (head, _) = s.split_at(end);
    proof {
        lemma_cut_at(s@, limit as int, end as int);
        encode_utf8_decode_utf8(head@);
        encode_utf8_decode_utf8(cut(s@, limit as int));
    }
    head
}

/// What is hashed in front of an image.
pub const IMAGE_LABEL: &'static str = "img-png:";

/// The hash by which an image is known.
pub open spec fn image_hash_of(png: Seq<u8>) -> Seq<u8> {
    sha256_of(encode_utf8(IMAGE_LABEL@) + png)
}

pub fn image_hash(png_bytes: &[u8]) -> (r: [u8; 32])
    ensures
        r@ == image_hash_of(png_bytes@),
{
    let mut data: Vec<u8> = Vec::new();
    append_bytes(&mut data, IMAGE_LABEL.as_bytes());
    append_bytes(&mut data, png_bytes);
    assert(data@ =~= encode_utf8(IMAGE_LABEL@) + png_bytes@);
    sha256(data.as_slice())
}

/// The hash by which a payload of some kind is known.
pub open spec fn payload_hash(kind: PayloadKind, bytes: Seq<u8>) -> Seq<u8> {
    match kind {
        PayloadKind::Text => sha256_of(bytes),
        PayloadKind::Image { .. } => image_hash_of(bytes),
    }
}

/// The number of bytes of an image of this size, four for each pixel.
pub open spec fn rgba_len(width: u32, height: u32) -> int {
    4 * (width * height)
}

/// The PNG of an image, or what is wrong with the image.
pub uninterp spec fn png_of(rgba: Seq<u8>, width: u32, height: u32) -> Result<Seq<u8>, Seq<char>>;

/// The size of a PNG and its RGBA bytes, or what is wrong with the PNG.
pub uninterp spec fn png_pixels_of(png: Seq<u8>) -> Result<(u32, u32, Seq<u8>), Seq<char>>;

/// The bytes of a result, or the words of its error.
pub open spec fn bytes_or_text(r: Result<Vec<u8>, String>) -> Result<Seq<u8>, Seq<char>> {
    match r {
        Ok(b) => Ok(b@),
        Err(e) => Err(e@),
    }
}

/// The pixels of a result, or the words of its error.
pub open spec fn pixels_or_text(r: Result<(u32, u32, Vec<u8>), String>) -> Result<
    (u32, u32, Seq<u8>),
    Seq<char>,
> {
    match r {
        Ok((w, h, b)) => Ok((w, h, b@)),
        Err(e) => Err(e@),
    }
}

/// `image::codecs::png::PngEncoder::write_image`, with default compression and adaptive filters:
/// the PNG of an image of exactly this size, or the words of the error. What is encoded of an image
/// of at most 64 MiB, which is far below what decoding may allocate, is decoded to the same image.
#[verifier::external_body]
fn png_encode(rgba: &[u8], width: u32, height: u32) -> (r: Result<Vec<u8>, String>)
    requires
        rgba@.len() == rgba_len(width, height),
    ensures
        bytes_or_text(r) == png_of(rgba@, width, height),
        rgba@.len() <= 0x400_0000 ==> (r matches Ok(b) ==> png_pixels_of(b@) == Ok::<
            _,
            Seq<char>,
        >((width, height, rgba@))),
{
    let mut out = Vec::with_capacity(rgba.len() / 4);
    let encoder = image::codecs::png::PngEncoder::new_with_quality(
        &mut out,
        image::codecs::png::CompressionType::Default,
        image::codecs::png::FilterType::Adaptive,
    );
    let color = image::ExtendedColorType::Rgba8;
    match image::ImageEncoder::write_image(encoder, rgba, width, height, color) {
        Ok(()) => Ok(out),
        Err(e) => Err(e.to_string()),
    }
}

/// `image::load_from_memory_with_format` for PNG, converted to RGBA: the size and the pixels, or the
/// words of the error.
#[verifier::external_body]
fn png_decode(png: &[u8]) -> (r: Result<(u32, u32, Vec<u8>), String>)
    ensures
        pixels_or_text(r) == png_pixels_of(png@),
{
    match image::load_from_memory_with_format(png, image::ImageFormat::Png) {
        Ok(img) => {
            let rgba = img.into_rgba8();
            let (w, h) = rgba.dimensions();
            Ok((w, h, rgba.into_raw()))
        },
        Err(e) => Err(e.to_string()),
    }
}

/// What comes of encoding, with the reason where it failed.
pub fn encode_outcome(r: Result<Vec<u8>, String>) -> (out: Result<Vec<u8>, ClipboardError>)
    ensures
        match (r, out) {
            (Ok(b), Ok(c)) => c@ == b@,
            (Err(why), Err(e)) => reason(e) == "png encode: "@ + why@,
            _ => false,
        },
{
    match r {
        Ok(b) => Ok(b),
        Err(why) => Err(ClipboardError::Arboard(cat("png encode: ", why.as_str()))),
    }
}

/// What comes of decoding, with the reason where it failed.
pub fn decode_outcome(r: Result<(u32, u32, Vec<u8>), String>) -> (out: Result<
    (u32, u32, Vec<u8>),
    ClipboardError,
>)
    ensures
        match (r, out) {
            (Ok(p), Ok(q)) => q == p,
            (Err(why), Err(e)) => reason(e) == "png decode: "@ + why@,
            _ => false,
        },
{
    match r {
        Ok(p) => Ok(p),
        Err(why) => Err(ClipboardError::Arboard(cat("png decode: ", why.as_str()))),
    }
}

/// Encodes RGBA bytes as a PNG. Too few bytes for the size are refused; there must not be too many.
pub fn encode_png(rgba: &[u8], width: u32, height: u32) -> (r: Result<Vec<u8>, ClipboardError>)
    requires
        rgba@.len() <= rgba_len(width, height),
    ensures
        rgba@.len() < rgba_len(width, height) ==> r is Err && reason(r->Err_0)
            == "rgba length mismatch"@,
        rgba@.len() == rgba_len(width, height) ==> match (png_of(rgba@, width, height), r) {
            (Ok(png), Ok(b)) => b@ == png,
            (Err(why), Err(e)) => reason(e) == "png encode: "@ + why,
            _ => false,
        },
        r is Ok && rgba@.len() <= 0x400_0000 ==> png_pixels_of(r->Ok_0@) == Ok::<_, Seq<char>>(
            (width, height, rgba@),
        ),
{
    assert(width * height <= 0xffff_ffff * 0xffff_ffff) by (nonlinear_arith)
        requires
            0 <= width <= 0xffff_ffff,
            0 <= height <= 0xffff_ffff,
    ;
    let pixels: u128 = width as u128 * height as u128;
    if (rgba.len() as u128) < 4 * pixels {
        return Err(ClipboardError::Arboard(owned("rgba length mismatch")));
    }
    encode_outcome(png_encode(rgba, width, height))
}

/// Decodes a PNG to its size and its RGBA bytes.
pub fn decode_png(png_bytes: &[u8]) -> (r: Result<(u32, u32, Vec<u8>), ClipboardError>)
    ensures
        match (png_pixels_of(png_bytes@), r) {
            (Ok((w, h, rgba)), Ok((rw, rh, b))) => rw == w && rh == h && b@ == rgba,
            (Err(why), Err(e)) => reason(e) == "png decode: "@ + why,
            _ => false,
        },
{
    decode_outcome(png_decode(png_bytes))
}

/// What comes of reading bytes as text, with the reason where it failed.
pub fn text_outcome(r: Result<String, String>) -> (out: Result<String, ClipboardError>)
    ensures
        match (r, out) {
            (Ok(t), Ok(u)) => u == t,
            (Err(why), Err(e)) => reason(e) == "non-utf8 text: "@ + why@,
            _ => false,
        },
{
    match r {
        Ok(t) => Ok(t),
        Err(why) => Err(ClipboardError::Arboard(cat("non-utf8 text: ", why.as_str()))),
    }
}

/// What an assembled text puts on the clipboard.
pub fn write_text(bytes: &[u8]) -> (r: Result<String, ClipboardError>)
    ensures
        valid_utf8(bytes@) ==> r is Ok && r->Ok_0@ == decode_utf8(bytes@),
        !valid_utf8(bytes@) ==> r is Err && reason(r->Err_0) == "non-utf8 text: "@
            + utf8_error_of(bytes@),
{
    text_outcome(text_from_utf8(bytes))
}

/// What an assembled image puts on the clipboard: its size and its RGBA bytes. The size is that of
/// the PNG, whatever the offer said.
pub fn write_image(png_bytes: Vec<u8>, _hint_width: u32, _hint_height: u32) -> (r: Result<
    (u32, u32, Vec<u8>),
    ClipboardError,
>)
    ensures
        match (png_pixels_of(png_bytes@), r) {
            (Ok((w, h, rgba)), Ok((rw, rh, b))) => rw == w && rh == h && b@ == rgba,
            (Err(why), Err(e)) => reason(e) == "png decode: "@ + why,
            _ => false,
        },
{
    decode_png(png_bytes.as_slice())
}

/// A word to the user.
#[derive(Debug, PartialEq, Eq)]
pub struct Notice {
    pub summary: String,
    pub body: String,
}

/// What a [`Notice`] says.
pub struct NoticeView {
    pub summary: Seq<char>,
    pub body: Seq<char>,
}

impl View for Notice {
    type V = NoticeView;

    open spec fn view(&self) -> NoticeView {
        NoticeView { summary: self.summary@, body: self.body@ }
    }
}

/// What is to be done after a look at the clipboard: what to send, and what to tell the user.
#[derive(Debug, PartialEq, Eq)]
pub struct PollStep {
    pub payload: Option<ClipboardPayload>,
    pub notice: Option<Notice>,
}

/// What a [`PollStep`] says.
pub struct PollStepView {
    pub payload: Option<PayloadView>,
    pub notice: Option<NoticeView>,
}

impl View for PollStep {
    type V = PollStepView;

    open spec fn view(&self) -> PollStepView {
        PollStepView {
            payload: match self.payload {
                Some(p) => Some(p@),
                None => None,
            },
            notice: match self.notice {
                Some(n) => Some(n@),
                None => None,
            },
        }
    }
}

/// The image that a look at the clipboard found.
#[derive(Debug, PartialEq, Eq)]
pub enum SeenImage {
    /// There is none.
    Absent,
    /// There is one that cannot be encoded.
    Unencodable,
    Png { bytes: Vec<u8>, width: u32, height: u32 },
}

/// What a [`SeenImage`] says.
pub enum SeenImageView {
    Absent,
    Unencodable,
    Png { bytes: Seq<u8>, width: u32, height: u32 },
}

impl View for SeenImage {
    type V = SeenImageView;

    open spec fn view(&self) -> SeenImageView {
        match *self {
            SeenImage::Absent => SeenImageView::Absent,
            SeenImage::Unencodable => SeenImageView::Unencodable,
            SeenImage::Png { bytes, width, height } => SeenImageView::Png {
                bytes: bytes@,
                width,
                height,
            },
        }
    }
}

/// Watches the clipboard for changes. By their hashes it knows what it handled last, and the image
/// and the text that it has handled and that were still there at the last look.
#[derive(Debug, PartialEq, Eq)]
pub struct Watcher {
    pub limit_bytes: usize,
    pub last: Option<[u8; 32]>,
    pub last_image: Option<[u8; 32]>,
    pub last_text: Option<[u8; 32]>,
}

/// What a [`Watcher`] knows.
pub struct WatcherView {
    pub limit: nat,
    pub last: Option<Seq<u8>>,
    pub last_image: Option<Seq<u8>>,
    pub last_text: Option<Seq<u8>>,
}

/// A hash by its bytes.
pub open spec fn hash_view(h: Option<[u8; 32]>) -> Option<Seq<u8>> {
    match h {
        Some(h) => Some(h@),
        None => None,
    }
}

impl View for Watcher {
    type V = WatcherView;

    open spec fn view(&self) -> WatcherView {
        WatcherView {
            limit: self.limit_bytes as nat,
            last: hash_view(self.last),
            last_image: hash_view(self.last_image),
            last_text: hash_view(self.last_text),
        }
    }
}

/// What the user is told of an image that takes `len` bytes.
pub open spec fn image_notice(len: nat) -> NoticeView {
    NoticeView {
        summary: "Imagem do clipboard ignorada"@,
        body: "PNG comprimido tem "@ + decimal(len / 1024) + " KB e excede o limite de "@
            + decimal((MAX_IMAGE_BYTES / 1024) as nat) + " KB."@,
    }
}

/// What the user is told of a text that takes `len` bytes where `limit` is allowed.
pub open spec fn text_notice(len: nat, limit: nat) -> NoticeView {
    NoticeView {
        summary: "Clipboard truncado"@,
        body: "Conteúdo de "@ + decimal(len / 1024) + " KB excedeu limite de "@ + decimal(
            limit / 1024,
        ) + " KB; enviando truncado."@,
    }
}

/// Nothing is to be done.
pub open spec fn quiet_step() -> PollStepView {
    PollStepView { payload: None, notice: None }
}

/// What a watcher does about an image that it has not seen last: the image is sent, unless it is
/// too large.
pub open spec fn image_step(png: Seq<u8>, width: u32, height: u32) -> PollStepView {
    if png.len() > MAX_IMAGE_BYTES {
        PollStepView { payload: None, notice: Some(image_notice(png.len())) }
    } else {
        PollStepView {
            payload: Some(
                PayloadView {
                    hash: image_hash_of(png),
                    bytes: png,
                    mime: "image/png"@,
                    truncated: false,
                    kind: PayloadKind::Image { width, height },
                },
            ),
            notice: None,
        }
    }
}

/// What a watcher does about a text that it has not seen last: as much of it as fits is sent.
pub open spec fn text_step(limit: nat, text: Seq<char>) -> PollStepView {
    let raw = encode_utf8(text);
    let bytes = encode_utf8(cut(text, limit as int));
    PollStepView {
        payload: Some(
            PayloadView {
                hash: sha256_of(bytes),
                bytes,
                mime: "text/plain;charset=utf-8"@,
                truncated: raw.len() > limit,
                kind: PayloadKind::Text,
            },
        ),
        notice: if raw.len() > limit {
            Some(text_notice(raw.len(), limit))
        } else {
            None
        },
    }
}

/// What comes of a look that finds a text alone: it is handled, unless it is what was handled last.
pub open spec fn text_polled(w: WatcherView, text: Seq<char>) -> (WatcherView, PollStepView) {
    let hash = sha256_of(encode_utf8(text));
    (
        WatcherView { last: Some(hash), last_image: None, last_text: Some(hash), ..w },
        if w.last == Some(hash) {
            quiet_step()
        } else {
            text_step(w.limit, text)
        },
    )
}

/// What comes of a look that finds an image alone: it is handled, unless it is what was handled
/// last.
pub open spec fn image_polled(w: WatcherView, png: Seq<u8>, width: u32, height: u32) -> (
    WatcherView,
    PollStepView,
) {
    let hash = image_hash_of(png);
    (
        WatcherView { last: Some(hash), last_image: Some(hash), last_text: None, ..w },
        if w.last == Some(hash) {
            quiet_step()
        } else {
            image_step(png, width, height)
        },
    )
}

/// What comes of a look that finds an image and a text beside each other: the image is handled if
/// it is another, else the text if it is another.
pub open spec fn both_polled(
    w: WatcherView,
    png: Seq<u8>,
    width: u32,
    height: u32,
    text: Seq<char>,
) -> (WatcherView, PollStepView) {
    let image_hash = image_hash_of(png);
    let text_hash = sha256_of(encode_utf8(text));
    if w.last_image != Some(image_hash) {
        (
            WatcherView { last: Some(image_hash), last_image: Some(image_hash), ..w },
            image_step(png, width, height),
        )
    } else if w.last_text != Some(text_hash) {
        (
            WatcherView { last: Some(text_hash), last_text: Some(text_hash), ..w },
            text_step(w.limit, text),
        )
    } else {
        (w, quiet_step())
    }
}

/// What comes of a look at the clipboard: what the watcher knows afterwards, and what it does. What
/// is not there is forgotten, but for what was handled last. An image that cannot be encoded ends
/// the look.
pub open spec fn polled(w: WatcherView, image: SeenImageView, text: Option<Seq<char>>) -> (
    WatcherView,
    PollStepView,
) {
    match (image, text) {
        (SeenImageView::Unencodable, _) => (w, quiet_step()),
        (SeenImageView::Absent, None) => (
            WatcherView { last_image: None, last_text: None, ..w },
            quiet_step(),
        ),
        (SeenImageView::Absent, Some(t)) => text_polled(w, t),
        (SeenImageView::Png { bytes, width, height }, None) => image_polled(
            w,
            bytes,
            width,
            height,
        ),
        (SeenImageView::Png { bytes, width, height }, Some(t)) => both_polled(
            w,
            bytes,
            width,
            height,
            t,
        ),
    }
}

/// Whether a hash is the one that is known.
fn is_known(known: &Option<[u8; 32]>, hash: &[u8; 32]) -> (r: bool)
    ensures
        r == (hash_view(*known) == Some(hash@)),
{
    match known {
        Some(h) => same_32(h, hash),
        None => false,
    }
}

/// What a watcher does about an image that it has not seen last.
fn handle_image(hash: [u8; 32], png: Vec<u8>, width: u32, height: u32) -> (r: PollStep)
    requires
        hash@ == image_hash_of(png@),
    ensures
        r@ == image_step(png@, width, height),
{
    if png.len() > MAX_IMAGE_BYTES {
        let size = decimal_text((png.len() / 1024) as u64);
        let cap = decimal_text((MAX_IMAGE_BYTES / 1024) as u64);
        let head = cat3("PNG comprimido tem ", size.as_str(), " KB e excede o limite de ");
        return PollStep {
            payload: None,
            notice: Some(
                Notice {
                    summary: owned("Imagem do clipboard ignorada"),
                    body: cat3(head.as_str(), cap.as_str(), " KB."),
                },
            ),
        };
    }
    PollStep {
        payload: Some(
            ClipboardPayload {
                hash,
                bytes: png,
                mime: owned("image/png"),
                truncated: false,
                kind: PayloadKind::Image { width, height },
            },
        ),
        notice: None,
    }
}

/// What a watcher does about a text that it has not seen last.
fn handle_text(limit: usize, text: &str) -> (r: PollStep)
    ensures
        r@ == text_step(limit as nat, text@),
{
    let raw = text.as_bytes();
    let truncated = raw.len() > limit;
    let kept = truncate_utf8(text, limit).as_bytes();
    let payload = ClipboardPayload {
        hash: sha256(kept),
        bytes: vstd::slice::slice_to_vec(kept),
        mime: owned("text/plain;charset=utf-8"),
        truncated,
        kind: PayloadKind::Text,
    };
    if !truncated {
        return PollStep { payload: Some(payload), notice: None };
    }
    let size = decimal_text((raw.len() / 1024) as u64);
    let cap = decimal_text((limit / 1024) as u64);
    let head = cat3("Conteúdo de ", size.as_str(), " KB excedeu limite de ");
    PollStep {
        payload: Some(payload),
        notice: Some(
            Notice {
                summary: owned("Clipboard truncado"),
                body: cat3(head.as_str(), cap.as_str(), " KB; enviando truncado."),
            },
        ),
    }
}

/// The text that a look at the clipboard found, if any.
pub open spec fn seen_text(text: Option<&str>) -> Option<Seq<char>> {
    match text {
        Some(t) => Some(t@),
        None => None,
    }
}

/// What encoding an image amounts to.
pub open spec fn encoded_image(rgba: Seq<u8>, width: u32, height: u32) -> SeenImageView {
    if rgba.len() == rgba_len(width, height) && png_of(rgba, width, height) is Ok {
        SeenImageView::Png { bytes: png_of(rgba, width, height)->Ok_0, width, height }
    } else {
        SeenImageView::Unencodable
    }
}

impl Watcher {
    /// A watcher that has seen nothing.
    pub fn new(limit_bytes: usize) -> (r: Self)
        ensures
            r@ == (WatcherView {
                limit: limit_bytes as nat,
                last: None,
                last_image: None,
                last_text: None,
            }),
    {
        Watcher { limit_bytes, last: None, last_image: None, last_text: None }
    }

    /// Decides about a text that is alone.
    fn judge_text(&mut self, text: &str) -> (r: PollStep)
        ensures
            (final(self)@, r@) == text_polled(old(self)@, text@),
    {
        let hash = sha256(text.as_bytes());
        let known = is_known(&self.last, &hash);
        self.last = Some(hash);
        self.last_image = None;
        self.last_text = Some(hash);
        if known {
            return PollStep { payload: None, notice: None };
        }
        handle_text(self.limit_bytes, text)
    }

    /// Decides about an image that is alone.
    fn judge_image(&mut self, png: Vec<u8>, width: u32, height: u32) -> (r: PollStep)
        ensures
            (final(self)@, r@) == image_polled(old(self)@, png@, width, height),
    {
        let hash = image_hash(png.as_slice());
        let known = is_known(&self.last, &hash);
        self.last = Some(hash);
        self.last_image = Some(hash);
        self.last_text = None;
        if known {
            return PollStep { payload: None, notice: None };
        }
        handle_image(hash, png, width, height)
    }

    /// Decides about an image and a text beside each other.
    fn judge_both(&mut self, png: Vec<u8>, width: u32, height: u32, text: &str) -> (r: PollStep)
        ensures
            (final(self)@, r@) == both_polled(old(self)@, png@, width, height, text@),
    {
        let hash = image_hash(png.as_slice());
        if !is_known(&self.last_image, &hash) {
            self.last = Some(hash);
            self.last_image = Some(hash);
            return handle_image(hash, png, width, height);
        }
        let hash = sha256(text.as_bytes());
        if !is_known(&self.last_text, &hash) {
            self.last = Some(hash);
            self.last_text = Some(hash);
            return handle_text(self.limit_bytes, text);
        }
        PollStep { payload: None, notice: None }
    }

    /// Decides about what a look at the clipboard found, with an image that has been encoded, or
    /// could not be.
    pub fn judge(&mut self, image: SeenImage, text: Option<&str>) -> (r: PollStep)
        ensures
            (final(self)@, r@) == polled(old(self)@, image@, seen_text(text)),
    {
        match (image, text) {
            (SeenImage::Unencodable, _) => PollStep { payload: None, notice: None },
            (SeenImage::Absent, None) => {
                self.last_image = None;
                self.last_text = None;
                PollStep { payload: None, notice: None }
            },
            (SeenImage::Absent, Some(t)) => self.judge_text(t),
            (SeenImage::Png { bytes, width, height }, None) => self.judge_image(
                bytes,
                width,
                height,
            ),
            (SeenImage::Png { bytes, width, height }, Some(t)) => self.judge_both(
                bytes,
                width,
                height,
                t,
            ),
        }
    }

    /// A look at the clipboard that found no image.
    pub fn poll_text(&mut self, text: Option<&str>) -> (r: PollStep)
        ensures
            (final(self)@, r@) == polled(old(self)@, SeenImageView::Absent, seen_text(text)),
    {
        self.judge(SeenImage::Absent, text)
    }

    /// A look at the clipboard that found an image, given by its RGBA bytes.
    pub fn poll_image(&mut self, rgba: &[u8], width: u32, height: u32, text: Option<&str>) -> (r:
        PollStep)
        requires
            rgba@.len() <= rgba_len(width, height),
        ensures
            (final(self)@, r@) == polled(
                old(self)@,
                encoded_image(rgba@, width, height),
                seen_text(text),
            ),
    {
        let image = match encode_png(rgba, width, height) {
            Ok(bytes) => SeenImage::Png { bytes, width, height },
            Err(_) => SeenImage::Unencodable,
        };
        self.judge(image, text)
    }
}

/// What a watcher knows after so many looks at a clipboard that does not change.
pub open spec fn polled_often(
    w: WatcherView,
    image: SeenImageView,
    text: Option<Seq<char>>,
    n: nat,
) -> WatcherView
    decreases n,
{
    if n == 0 {
        w
    } else {
        polled(polled_often(w, image, text, (n - 1) as nat), image, text).0
    }
}

/// While the clipboard does not change, each kind of content is sent at most once: whatever the
/// watcher knew, from the third look on nothing is sent and nobody is told anything, and the first
/// two looks do not send the same kind.
pub proof fn unchanged_clipboard_is_sent_once(
    w: WatcherView,
    image: SeenImageView,
    text: Option<Seq<char>>,
    n: nat,
)
    ensures
        n >= 2 ==> polled(polled_often(w, image, text, n), image, text) == (
            polled_often(w, image, text, n),
            quiet_step(),
        ),
        ({
            let first = polled(w, image, text).1.payload;
            let second = polled(polled_often(w, image, text, 1), image, text).1.payload;
            first is Some && second is Some ==> first->Some_0.kind is Image
                && second->Some_0.kind is Text
        }),
    decreases n,
{
    reveal_with_fuel(polled_often, 3);
    if n > 2 {
        unchanged_clipboard_is_sent_once(w, image, text, (n - 1) as nat);
    }
}

/// What changes is sent. A text that is alone is sent, unless it is what was handled last; so is an
/// image that is alone. Of an image and a text beside each other the image is sent if it is another
/// than at the last look, else the text if it is another.
pub proof fn changes_are_sent(
    w: WatcherView,
    text: Seq<char>,
    png: Seq<u8>,
    width: u32,
    height: u32,
)
    ensures
        ({
            let image = SeenImageView::Png { bytes: png, width, height };
            let text_hash = Some(sha256_of(encode_utf8(text)));
            let png_hash = Some(image_hash_of(png));
            let sends_text = text_step(w.limit, text);
            let sends_image = image_step(png, width, height);
            &&& w.last != text_hash ==> polled(w, SeenImageView::Absent, Some(text)).1 == sends_text
            &&& w.last != png_hash ==> polled(w, image, None).1 == sends_image
            &&& w.last_image != png_hash ==> polled(w, image, Some(text)).1 == sends_image
            &&& w.last_image == png_hash && w.last_text != text_hash ==> polled(
                w,
                image,
                Some(text),
            ).1 == sends_text
        }),
{
}

/// A content that comes back after another has taken its place is sent again, whatever was there
/// before: a text alone after an image alone, and the other way round.
pub proof fn content_that_comes_back_is_sent_again(
    w: WatcherView,
    text: Seq<char>,
    png: Seq<u8>,
    width: u32,
    height: u32,
)
    requires
        sha256_of(encode_utf8(text)) != image_hash_of(png),
    ensures
        ({
            let image = SeenImageView::Png { bytes: png, width, height };
            let a = polled(w, image, None).0;
            polled(a, SeenImageView::Absent, Some(text)).1 == text_step(w.limit, text)
        }),
        ({
            let image = SeenImageView::Png { bytes: png, width, height };
            let a = polled(w, SeenImageView::Absent, Some(text)).0;
            polled(a, image, None).1 == image_step(png, width, height)
        }),
{
}

/// The same of an image and a text beside each other, whatever was there before. Once the text has
/// been alone, the image beside it is sent; and if the text is then alone again, it is sent again.
/// Once the image has been alone, the text beside it is sent; and if the image is then alone again,
/// it is sent again. Once neither was there, the image is sent, and then the text.
pub proof fn contents_side_by_side_are_sent_again(
    w: WatcherView,
    text: Seq<char>,
    png: Seq<u8>,
    width: u32,
    height: u32,
)
    requires
        sha256_of(encode_utf8(text)) != image_hash_of(png),
    ensures
        ({
            let image = SeenImageView::Png { bytes: png, width, height };
            let a = polled(w, SeenImageView::Absent, Some(text)).0;
            let b = polled(a, image, Some(text));
            &&& b.1 == image_step(png, width, height)
            &&& polled(b.0, SeenImageView::Absent, Some(text)).1 == text_step(w.limit, text)
        }),
        ({
            let image = SeenImageView::Png { bytes: png, width, height };
            let a = polled(w, image, None).0;
            let b = polled(a, image, Some(text));
            &&& b.1 == text_step(w.limit, text)
            &&& polled(b.0, image, None).1 == image_step(png, width, height)
        }),
        ({
            let image = SeenImageView::Png { bytes: png, width, height };
            let a = polled(w, SeenImageView::Absent, None).0;
            let b = polled(a, image, Some(text));
            &&& b.1 == image_step(png, width, height)
            &&& polled(b.0, image, Some(text)).1 == text_step(w.limit, text)
        }),
{
}

/// What is sent of a text never takes more bytes than the limit, is a beginning of the text, and
/// carries its own hash; where it is not the whole text, it says so, and the user is told.
pub proof fn sent_text_is_bounded(limit: nat, text: Seq<char>)
    ensures
        ({
            let p = text_step(limit, text).payload->Some_0;
            &&& text_step(limit, text).payload is Some
            &&& p.truncated <==> text_step(limit, text).notice is Some
            &&& p.bytes.len() <= limit
            &&& p.hash == payload_hash(p.kind, p.bytes)
            &&& p.truncated <==> p.bytes != encode_utf8(text)
            &&& cut(text, limit as int).is_prefix_of(text)
        }),
{
    cut_is_longest_prefix(text, limit as int);
}

/// An image that is sent fits in the limit for images, and carries its own hash.
pub proof fn sent_image_is_bounded(png: Seq<u8>, width: u32, height: u32)
    ensures
        image_step(png, width, height).payload matches Some(p) ==> {
            &&& p.bytes.len() <= MAX_IMAGE_BYTES
            &&& p.hash == payload_hash(p.kind, p.bytes)
        },
{
}

/// The number of pieces that `len` bytes are cut into.
pub open spec fn piece_count(len: nat) -> nat {
    (len + CLIPBOARD_CHUNK_BYTES - 1) as nat / CLIPBOARD_CHUNK_BYTES as nat
}

/// Piece `i` of some bytes: all are of the same length, but for the last.
pub open spec fn piece(bytes: Seq<u8>, i: int) -> Seq<u8> {
    let from = i * CLIPBOARD_CHUNK_BYTES;
    let to = if from + CLIPBOARD_CHUNK_BYTES <= bytes.len() {
        from + CLIPBOARD_CHUNK_BYTES
    } else {
        bytes.len() as int
    };
    bytes.subrange(from, to)
}

/// The number of pieces as a message carries it: at least one, in 16 bits.
pub open spec fn announced_count(len: nat) -> u16 {
    ((if piece_count(len) == 0 {
        1
    } else {
        piece_count(len)
    }) % 0x1_0000) as u16
}

/// The messages that carry a payload.
pub open spec fn chunk_messages(p: PayloadView) -> Seq<MessageView> {
    Seq::new(
        piece_count(p.bytes.len()),
        |i: int|
            MessageView::ClipboardData {
                hash: p.hash,
                chunk_index: (i % 0x1_0000) as u16,
                total_chunks: announced_count(p.bytes.len()),
                data: piece(p.bytes, i),
            },
    )
}

/// The message that announces a payload.
pub open spec fn offer_message(p: PayloadView) -> MessageView {
    match p.kind {
        PayloadKind::Text => MessageView::ClipboardOffer {
            hash: p.hash,
            size: (p.bytes.len() % 0x1_0000_0000) as u32,
            truncated: p.truncated,
            mime: p.mime,
        },
        PayloadKind::Image { width, height } => MessageView::ClipboardImageOffer {
            hash: p.hash,
            width,
            height,
            total_chunks: announced_count(p.bytes.len()),
        },
    }
}

/// The number of pieces of a payload of `len` bytes, as a message carries it.
fn announced_total(len: usize) -> (r: u16)
    ensures
        r == announced_count(len as nat),
{
    let whole: usize = len / CLIPBOARD_CHUNK_BYTES;
    let n: usize = if len % CLIPBOARD_CHUNK_BYTES == 0 {
        whole
    } else {
        whole + 1
    };
    assert(n == piece_count(len as nat));
    let n: usize = if n == 0 {
        1
    } else {
        n
    };
    (n % 0x1_0000) as u16
}

/// Cuts a payload into the messages that carry it. The receiver knows them by the hash that the
/// offer announced.
pub fn chunk_payload(p: &ClipboardPayload) -> (r: Vec<Message>)
    ensures
        message_views(r@) == chunk_messages(p@),
{
    let total = announced_total(p.bytes.len());
    let len: usize = p.bytes.len();
    let mut out: Vec<Message> = Vec::new();
    let mut from: usize = 0;
    while from < len
        invariant
            len == p.bytes@.len(),
            len == p.bytes.len(),
            total == announced_count(len as nat),
            out@.len() <= piece_count(len as nat),
            from == out@.len() * CLIPBOARD_CHUNK_BYTES || (from == len && out@.len()
                == piece_count(len as nat)),
            from <= len,
            message_views(out@) == chunk_messages(p@).take(out@.len() as int),
        decreases len - from,
    {
        let to: usize = if len - from < CLIPBOARD_CHUNK_BYTES {
            len
        } else {
            from + CLIPBOARD_CHUNK_BYTES
        };
        let data = copy_range(p.bytes.as_slice(), from, to);
        let ghost n = out@.len() as int;
        assert(n < piece_count(len as nat));
        assert(data@ == piece(p.bytes@, n));
        let index = (from / CLIPBOARD_CHUNK_BYTES) % 0x1_0000;
        out.push(
            Message::ClipboardData {
                hash: p.hash,
                chunk_index: index as u16,
                total_chunks: total,
                data,
            },
        );
        assert(message_views(out@) =~= chunk_messages(p@).take(n + 1));
        from = to;
    }
    assert(out@.len() == piece_count(len as nat));
    assert(chunk_messages(p@).take(out@.len() as int) =~= chunk_messages(p@));
    out
}

/// The message that announces a payload.
pub fn offer_for(p: &ClipboardPayload) -> (r: Message)
    ensures
        r@ == offer_message(p@),
{
    match p.kind {
        PayloadKind::Text => Message::ClipboardOffer {
            hash: p.hash,
            size: (p.bytes.len() as u64 % 0x1_0000_0000) as u32,
            truncated: p.truncated,
            mime: p.mime.clone(),
        },
        PayloadKind::Image { width, height } => Message::ClipboardImageOffer {
            hash: p.hash,
            width,
            height,
            total_chunks: announced_total(p.bytes.len()),
        },
    }
}

/// Puts the pieces of a payload together, in whatever order they come.
#[derive(Debug, PartialEq, Eq)]
pub struct Reassembler {
    pub expected_hash: [u8; 32],
    pub chunks: Vec<Option<Vec<u8>>>,
    pub kind: PayloadKind,
}

/// What a [`Reassembler`] holds.
pub struct ReassemblerView {
    pub hash: Seq<u8>,
    pub chunks: Seq<Option<Seq<u8>>>,
    pub kind: PayloadKind,
}

/// A piece that has come, or not, by its bytes.
pub open spec fn chunk_view(c: Option<Vec<u8>>) -> Option<Seq<u8>> {
    match c {
        Some(b) => Some(b@),
        None => None,
    }
}

impl View for Reassembler {
    type V = ReassemblerView;

    open spec fn view(&self) -> ReassemblerView {
        ReassemblerView {
            hash: self.expected_hash@,
            chunks: self.chunks@.map_values(|c: Option<Vec<u8>>| chunk_view(c)),
            kind: self.kind,
        }
    }
}

/// The pieces that have come, one after the other.
pub open spec fn joined(chunks: Seq<Option<Seq<u8>>>) -> Seq<u8>
    decreases chunks.len(),
{
    if chunks.len() == 0 {
        Seq::empty()
    } else {
        joined(chunks.drop_last()) + match chunks.last() {
            Some(b) => b,
            None => Seq::empty(),
        }
    }
}

impl ReassemblerView {
    /// No piece has come yet, of `total`.
    pub open spec fn fresh(hash: Seq<u8>, total: nat, kind: PayloadKind) -> ReassemblerView {
        ReassemblerView { hash, chunks: Seq::new(total, |i: int| None), kind }
    }

    /// All pieces have come.
    pub open spec fn complete(self) -> bool {
        forall|i: int| 0 <= i < self.chunks.len() ==> (#[trigger] self.chunks[i]) is Some
    }

    /// After piece `i` has come. There is no piece beyond the last.
    pub open spec fn pushed(self, i: int, data: Seq<u8>) -> ReassemblerView {
        if 0 <= i < self.chunks.len() {
            ReassemblerView { chunks: self.chunks.update(i, Some(data)), ..self }
        } else {
            self
        }
    }

    /// What has been put together once all pieces are there: nothing, unless the hash is right.
    pub open spec fn assembled(self) -> Option<Seq<u8>> {
        if self.complete() && payload_hash(self.kind, joined(self.chunks)) == self.hash {
            Some(joined(self.chunks))
        } else {
            None
        }
    }
}

/// An empty place for each of `total` pieces.
fn no_chunks(total: u16) -> (r: Vec<Option<Vec<u8>>>)
    ensures
        r@ == Seq::new(total as nat, |i: int| None::<Vec<u8>>),
{
    let mut r: Vec<Option<Vec<u8>>> = Vec::new();
    for i in 0..total
        invariant
            r@ == Seq::new(i as nat, |i: int| None::<Vec<u8>>),
    {
        r.push(None);
        assert(r@ =~= Seq::new((i + 1) as nat, |i: int| None::<Vec<u8>>));
    }
    r
}

impl Reassembler {
    /// Expects a text in `total` pieces.
    pub fn new_text(expected_hash: [u8; 32], total: u16) -> (r: Self)
        ensures
            r@ == ReassemblerView::fresh(expected_hash@, total as nat, PayloadKind::Text),
    {
        let r = Reassembler { expected_hash, chunks: no_chunks(total), kind: PayloadKind::Text };
        assert(r@.chunks =~= Seq::new(total as nat, |i: int| None));
        r
    }

    /// Expects an image in `total` pieces.
    pub fn new_image(expected_hash: [u8; 32], total: u16, width: u32, height: u32) -> (r: Self)
        ensures
            r@ == ReassemblerView::fresh(
                expected_hash@,
                total as nat,
                PayloadKind::Image { width, height },
            ),
    {
        let r = Reassembler {
            expected_hash,
            chunks: no_chunks(total),
            kind: PayloadKind::Image { width, height },
        };
        assert(r@.chunks =~= Seq::new(total as nat, |i: int| None));
        r
    }

    /// Takes one piece. Once all are there and the hash is right, the whole comes out; it comes out
    /// again if a piece is sent again.
    pub fn push(&mut self, index: u16, data: Vec<u8>) -> (r: Option<Vec<u8>>)
        ensures
            final(self)@ == old(self)@.pushed(index as int, data@),
            chunk_view(r) == if index < old(self)@.chunks.len() {
                final(self)@.assembled()
            } else {
                None
            },
    {
        if index as usize >= self.chunks.len() {
            return None;
        }
        self.chunks.set(index as usize, Some(data));
        assert(self@.chunks =~= old(self)@.chunks.update(index as int, Some(data@)));
        let mut out: Vec<u8> = Vec::new();
        let n: usize = self.chunks.len();
        let mut i: usize = 0;
        assert(self@.chunks.take(0) =~= Seq::empty());
        #[verifier::loop_isolation(false)]
        while i < n
            invariant
                i <= n,
                out@ == joined(self@.chunks.take(i as int)),
                forall|j: int| 0 <= j < i ==> (#[trigger] self@.chunks[j]) is Some,
            decreases n - i,
        {
            assert(self@.chunks.take(i + 1).drop_last() =~= self@.chunks.take(i as int));
            assert(self@.chunks[i as int] == chunk_view(self.chunks@[i as int]));
            match &self.chunks[i] {
                Some(c) => {
                    append_bytes(&mut out, c.as_slice());
                },
                None => {
                    return None;
                },
            }
            i = i + 1;
        }
        assert(self@.chunks.take(n as int) =~= self@.chunks);
        let hash = match self.kind {
            PayloadKind::Text => sha256(out.as_slice()),
            PayloadKind::Image { .. } => image_hash(out.as_slice()),
        };
        if same_32(&hash, &self.expected_hash) {
            Some(out)
        } else {
            None
        }
    }
}

/// The pieces of some bytes, as a reassembler holds them once all have come.
pub open spec fn all_pieces(bytes: Seq<u8>) -> Seq<Option<Seq<u8>>> {
    Seq::new(piece_count(bytes.len()), |i: int| Some(piece(bytes, i)))
}

/// Where pieces begin and end.
pub proof fn lemma_piece_bounds(len: nat, k: int)
    requires
        k >= 0,
    ensures
        k < piece_count(len) <==> k * CLIPBOARD_CHUNK_BYTES < len,
        len > 0 <==> piece_count(len) > 0,
        (k + 1) * CLIPBOARD_CHUNK_BYTES == k * CLIPBOARD_CHUNK_BYTES + CLIPBOARD_CHUNK_BYTES,
{
    let c = CLIPBOARD_CHUNK_BYTES as int;
    assert(c == 0x8000);
    assert(k * c == k * 0x8000 && (k + 1) * c == k * 0x8000 + 0x8000) by (nonlinear_arith)
        requires
            c == 0x8000,
    ;
    assert(piece_count(len) == (len + 0x7fff) / 0x8000) by (nonlinear_arith)
        requires
            c == 0x8000,
            piece_count(len) == (len + c - 1) / c,
    ;
}

/// The first pieces, one after the other, are the beginning of the bytes.
proof fn lemma_joined_prefix(bytes: Seq<u8>, k: nat)
    requires
        k <= piece_count(bytes.len()),
    ensures
        joined(all_pieces(bytes).take(k as int)) == bytes.take(
            if k * CLIPBOARD_CHUNK_BYTES <= bytes.len() {
                k * CLIPBOARD_CHUNK_BYTES
            } else {
                bytes.len() as int
            },
        ),
    decreases k,
{
    let all = all_pieces(bytes);
    if k == 0 {
        assert(joined(all.take(0)) =~= bytes.take(0));
    } else {
        lemma_joined_prefix(bytes, (k - 1) as nat);
        assert(all.take(k as int).drop_last() =~= all.take(k - 1));
        assert(all.take(k as int).last() == Some(piece(bytes, k - 1)));
        lemma_piece_bounds(bytes.len(), k - 1);
        assert(joined(all.take(k as int)) =~= bytes.take(
            if k * CLIPBOARD_CHUNK_BYTES <= bytes.len() {
                k * CLIPBOARD_CHUNK_BYTES
            } else {
                bytes.len() as int
            },
        ));
    }
}

/// The pieces of a payload, one after the other, are the payload.
pub proof fn pieces_make_the_whole(bytes: Seq<u8>)
    ensures
        joined(all_pieces(bytes)) == bytes,
{
    let n = piece_count(bytes.len());
    lemma_joined_prefix(bytes, n);
    assert(all_pieces(bytes).take(n as int) =~= all_pieces(bytes));
    lemma_piece_bounds(bytes.len(), n as int);
    assert(bytes.take(bytes.len() as int) =~= bytes);
}

/// What a reassembler holds after the pieces of some bytes have come in some order.
pub open spec fn delivered(
    start: ReassemblerView,
    bytes: Seq<u8>,
    order: Seq<int>,
) -> ReassemblerView
    decreases order.len(),
{
    if order.len() == 0 {
        start
    } else {
        delivered(start, bytes, order.drop_last()).pushed(order.last(), piece(bytes, order.last()))
    }
}

/// Which pieces are there after they have come in some order.
proof fn lemma_delivered(start: ReassemblerView, bytes: Seq<u8>, order: Seq<int>)
    requires
        start == ReassemblerView::fresh(start.hash, piece_count(bytes.len()), start.kind),
        forall|j: int|
            0 <= j < order.len() ==> 0 <= #[trigger] order[j] < piece_count(bytes.len()),
    ensures
        delivered(start, bytes, order).hash == start.hash,
        delivered(start, bytes, order).kind == start.kind,
        delivered(start, bytes, order).chunks.len() == piece_count(bytes.len()),
        forall|i: int|
            0 <= i < piece_count(bytes.len()) ==> #[trigger] delivered(start, bytes, order).chunks[i]
                == if order.contains(i) {
                Some(piece(bytes, i))
            } else {
                None
            },
    decreases order.len(),
{
    if order.len() > 0 {
        let before = order.drop_last();
        assert forall|j: int| 0 <= j < before.len() implies 0 <= #[trigger] before[j] < piece_count(
            bytes.len(),
        ) by {
            assert(before[j] == order[j]);
        }
        lemma_delivered(start, bytes, before);
        assert(0 <= order[order.len() - 1] < piece_count(bytes.len()));
        assert forall|i: int| order.contains(i) <==> (before.contains(i) || i == order.last()) by {
            if before.contains(i) {
                let j = choose|j: int| 0 <= j < before.len() && before[j] == i;
                assert(order[j] == i);
            }
            if order.contains(i) && i != order.last() {
                let j = choose|j: int| 0 <= j < order.len() && order[j] == i;
                assert(before[j] == i);
            }
            if i == order.last() {
                assert(order[order.len() - 1] == i);
            }
        }
    }
}

/// However the pieces of a payload come, in whatever order and however often, the reassembler
/// gives out the payload exactly when the last missing piece has come, and nothing before.
pub proof fn delivery_in_any_order(
    hash: Seq<u8>,
    kind: PayloadKind,
    bytes: Seq<u8>,
    order: Seq<int>,
)
    requires
        hash == payload_hash(kind, bytes),
        forall|j: int|
            0 <= j < order.len() ==> 0 <= #[trigger] order[j] < piece_count(bytes.len()),
    ensures
        delivered(
            ReassemblerView::fresh(hash, piece_count(bytes.len()), kind),
            bytes,
            order,
        ).assembled() == if forall|i: int|
            0 <= i < piece_count(bytes.len()) ==> #[trigger] order.contains(i) {
            Some(bytes)
        } else {
            None
        },
{
    let start = ReassemblerView::fresh(hash, piece_count(bytes.len()), kind);
    let end = delivered(start, bytes, order);
    lemma_delivered(start, bytes, order);
    if forall|i: int| 0 <= i < piece_count(bytes.len()) ==> #[trigger] order.contains(i) {
        assert(end.chunks =~= all_pieces(bytes)) by {
            assert forall|i: int| 0 <= i < end.chunks.len() implies end.chunks[i] == all_pieces(
                bytes,
            )[i] by {
                assert(order.contains(i));
            }
        }
        pieces_make_the_whole(bytes);
        assert(end.complete());
    } else {
        let i = choose|i: int| 0 <= i < piece_count(bytes.len()) && !#[trigger] order.contains(i);
        assert(end.chunks[i] is None);
        assert(!end.complete());
    }
}

/// What comes out of a reassembler has the hash that was announced.
pub proof fn assembled_has_the_hash(v: ReassemblerView)
    ensures
        v.assembled() matches Some(b) ==> payload_hash(v.kind, b) == v.hash,
{
}

/// The messages of a payload of up to 65535 pieces carry its pieces in order, each under its own
/// number, and all announce how many there are.
pub proof fn chunk_messages_number_the_pieces(p: PayloadView, i: int)
    requires
        0 <= i < piece_count(p.bytes.len()),
        piece_count(p.bytes.len()) <= u16::MAX,
    ensures
        chunk_messages(p)[i] == (MessageView::ClipboardData {
            hash: p.hash,
            chunk_index: i as u16,
            total_chunks: piece_count(p.bytes.len()) as u16,
            data: piece(p.bytes, i),
        }),
{
}

/// A payload that is coming in.
#[derive(Debug, PartialEq, Eq)]
pub struct Pending {
    /// The hash under which it was announced.
    pub hash: [u8; 32],
    /// Whether the number of its pieces is known.
    pub counted: bool,
    pub parts: Reassembler,
}

/// What is known of a [`Pending`] payload.
pub struct PendingView {
    pub hash: Seq<u8>,
    pub counted: bool,
    pub parts: ReassemblerView,
}

impl View for Pending {
    type V = PendingView;

    open spec fn view(&self) -> PendingView {
        PendingView { hash: self.hash@, counted: self.counted, parts: self.parts@ }
    }
}

/// The payload that is coming in from a peer.
#[derive(Debug, PartialEq, Eq)]
pub struct Incoming {
    pub pending: Option<Pending>,
}

impl View for Incoming {
    type V = Option<PendingView>;

    open spec fn view(&self) -> Option<PendingView> {
        match self.pending {
            Some(p) => Some(p@),
            None => None,
        }
    }
}

/// A complete payload.
pub open spec fn complete_view(c: Option<(PayloadKind, Vec<u8>)>) -> Option<
    (PayloadKind, Seq<u8>),
> {
    match c {
        Some((k, b)) => Some((k, b@)),
        None => None,
    }
}

/// What comes in after a text was announced. How many pieces it has is not known yet.
pub open spec fn text_announced(hash: Seq<u8>) -> Option<PendingView> {
    Some(
        PendingView {
            hash,
            counted: false,
            parts: ReassemblerView::fresh(hash, 1, PayloadKind::Text),
        },
    )
}

/// What comes in after an image was announced.
pub open spec fn image_announced(hash: Seq<u8>, total: u16, width: u32, height: u32) -> Option<
    PendingView,
> {
    Some(
        PendingView {
            hash,
            counted: true,
            parts: ReassemblerView::fresh(
                hash,
                total as nat,
                PayloadKind::Image { width, height },
            ),
        },
    )
}

/// What takes in a piece with this hash: the payload that is coming in, if it is the one, otherwise
/// a new text. The first piece of a text that was announced says how many there are, unless it says
/// zero; what later ones say of that does not count.
pub open spec fn receiver(pending: Option<PendingView>, hash: Seq<u8>, total: u16) -> ReassemblerView {
    match pending {
        Some(p) => if p.hash == hash && (p.counted || total == 0) {
            p.parts
        } else {
            ReassemblerView::fresh(hash, total as nat, PayloadKind::Text)
        },
        None => ReassemblerView::fresh(hash, total as nat, PayloadKind::Text),
    }
}

/// What comes of a piece: what is still coming in, and the payload, if it is complete now.
pub open spec fn chunk_step(
    pending: Option<PendingView>,
    hash: Seq<u8>,
    index: u16,
    total: u16,
    data: Seq<u8>,
) -> (Option<PendingView>, Option<(PayloadKind, Seq<u8>)>) {
    let before = receiver(pending, hash, total);
    let after = before.pushed(index as int, data);
    if index < before.chunks.len() && after.assembled() is Some {
        (None, Some((after.kind, after.assembled()->Some_0)))
    } else {
        (Some(PendingView { hash, counted: true, parts: after }), None)
    }
}

impl Incoming {
    /// Nothing is coming in.
    pub fn new() -> (r: Self)
        ensures
            r@ is None,
    {
        Incoming { pending: None }
    }

    /// A text was announced.
    pub fn announce_text(&mut self, hash: [u8; 32])
        ensures
            final(self)@ == text_announced(hash@),
    {
        self.pending = Some(
            Pending { hash, counted: false, parts: Reassembler::new_text(hash, 1) },
        );
    }

    /// An image was announced.
    pub fn announce_image(&mut self, hash: [u8; 32], total: u16, width: u32, height: u32)
        ensures
            final(self)@ == image_announced(hash@, total, width, height),
    {
        let parts = Reassembler::new_image(hash, total, width, height);
        self.pending = Some(Pending { hash, counted: true, parts });
    }

    /// Takes in a piece: the payload, if it is complete now.
    pub fn take_chunk(&mut self, hash: [u8; 32], index: u16, total: u16, data: Vec<u8>) -> (r:
        Option<(PayloadKind, Vec<u8>)>)
        ensures
            (final(self)@, complete_view(r)) == chunk_step(
                old(self)@,
                hash@,
                index,
                total,
                data@,
            ),
    {
        let mut parts = match self.pending.take() {
            Some(p) => if same_32(&p.hash, &hash) && (p.counted || total == 0) {
                p.parts
            } else {
                Reassembler::new_text(hash, total)
            },
            None => Reassembler::new_text(hash, total),
        };
        match parts.push(index, data) {
            Some(bytes) => Some((parts.kind, bytes)),
            None => {
                self.pending = Some(Pending { hash, counted: true, parts });
                None
            },
        }
    }
}

/// Once a piece of a payload has come, no later piece of it changes how many there are, whatever it
/// says of that.
pub proof fn later_pieces_keep_the_places(
    pending: Option<PendingView>,
    hash: Seq<u8>,
    index: u16,
    total: u16,
    data: Seq<u8>,
    later: u16,
)
    ensures
        chunk_step(pending, hash, index, total, data).0 matches Some(p) ==> receiver(
            Some(p),
            hash,
            later,
        ) == p.parts && p.parts == receiver(pending, hash, total).pushed(index as int, data),
{
}

/// What comes of the first `k` messages of a payload, taken in one after the other.
pub open spec fn chunks_taken(
    pending: Option<PendingView>,
    p: PayloadView,
    k: nat,
) -> (Option<PendingView>, Option<(PayloadKind, Seq<u8>)>)
    decreases k,
{
    if k == 0 {
        (pending, None)
    } else {
        chunk_step(
            chunks_taken(pending, p, (k - 1) as nat).0,
            p.hash,
            ((k - 1) % 0x1_0000) as u16,
            announced_count(p.bytes.len()),
            piece(p.bytes, k - 1),
        )
    }
}

/// What is coming in once a payload was announced.
pub open spec fn announced(p: PayloadView) -> Option<PendingView> {
    match p.kind {
        PayloadKind::Text => text_announced(p.hash),
        PayloadKind::Image { width, height } => image_announced(
            p.hash,
            announced_count(p.bytes.len()),
            width,
            height,
        ),
    }
}

/// The first pieces, in order.
spec fn first_pieces(k: nat) -> Seq<int> {
    Seq::new(k, |i: int| i)
}

/// What has come in after the first messages of a payload but not all.
proof fn lemma_chunks_taken(p: PayloadView, k: nat)
    requires
        p.hash == payload_hash(p.kind, p.bytes),
        0 < k < piece_count(p.bytes.len()) <= u16::MAX,
    ensures
        chunks_taken(announced(p), p, k) == (
            Some(
                PendingView {
                    hash: p.hash,
                    counted: true,
                    parts: delivered(
                        ReassemblerView::fresh(p.hash, piece_count(p.bytes.len()), p.kind),
                        p.bytes,
                        first_pieces(k),
                    ),
                },
            ),
            None::<(PayloadKind, Seq<u8>)>,
        ),
    decreases k,
{
    let n = piece_count(p.bytes.len());
    let start = ReassemblerView::fresh(p.hash, n, p.kind);
    let order = first_pieces(k);
    assert(order.drop_last() =~= first_pieces((k - 1) as nat));
    assert(order.last() == k - 1);
    assert forall|j: int| 0 <= j < order.len() implies 0 <= #[trigger] order[j] < n by {}
    delivery_in_any_order(p.hash, p.kind, p.bytes, order);
    lemma_delivered(start, p.bytes, order);
    assert(!order.contains(k as int));
    let before = chunks_taken(announced(p), p, (k - 1) as nat).0;
    if k == 1 {
        assert(receiver(before, p.hash, n as u16).chunks =~= start.chunks);
        assert(delivered(start, p.bytes, order.drop_last()) == start);
    } else {
        lemma_chunks_taken(p, (k - 1) as nat);
        assert forall|j: int| 0 <= j < order.drop_last().len() implies 0
            <= #[trigger] order.drop_last()[j] < n by {}
        lemma_delivered(start, p.bytes, order.drop_last());
    }
}

/// The two sides agree on what was on the clipboard: a payload that was announced and whose
/// messages come in one after the other comes out, of the same kind, with its last message and not
/// before; and then nothing is coming in any more.
pub proof fn payload_arrives(p: PayloadView, k: nat)
    requires
        p.hash == payload_hash(p.kind, p.bytes),
        p.bytes.len() > 0,
        piece_count(p.bytes.len()) <= u16::MAX,
        k <= piece_count(p.bytes.len()),
    ensures
        chunks_taken(announced(p), p, k).1 == if k == piece_count(p.bytes.len()) {
            Some((p.kind, p.bytes))
        } else {
            None
        },
        k == piece_count(p.bytes.len()) ==> chunks_taken(announced(p), p, k).0 is None,
{
    let n = piece_count(p.bytes.len());
    lemma_piece_bounds(p.bytes.len(), 0);
    if 0 < k < n {
        lemma_chunks_taken(p, k);
    } else if k == n {
        let start = ReassemblerView::fresh(p.hash, n, p.kind);
        let order = first_pieces(n);
        assert(order.drop_last() =~= first_pieces((n - 1) as nat));
        assert forall|j: int| 0 <= j < order.len() implies 0 <= #[trigger] order[j] < n by {}
        assert forall|i: int| 0 <= i < n implies #[trigger] order.contains(i) by {
            assert(order[i] == i);
        }
        delivery_in_any_order(p.hash, p.kind, p.bytes, order);
        lemma_delivered(start, p.bytes, order);
        let before = chunks_taken(announced(p), p, (n - 1) as nat).0;
        if n == 1 {
            assert(receiver(before, p.hash, n as u16).chunks =~= start.chunks);
            assert(delivered(start, p.bytes, order.drop_last()) == start);
        } else {
            lemma_chunks_taken(p, (n - 1) as nat);
            assert forall|j: int| 0 <= j < order.drop_last().len() implies 0
                <= #[trigger] order.drop_last()[j] < n by {}
            lemma_delivered(start, p.bytes, order.drop_last());
        }
    }
}

/// What is sent for a text is the longest beginning of it that fits in the limit: its bytes are the
/// UTF-8 of the first characters of the text, at most as many bytes as the limit allows, and one
/// character more would take too many. A text that fits is sent whole. What is sent says whether it
/// is whole, and the user is told exactly if it is not, with the length of the text and the limit.
pub proof fn sent_text_is_the_longest_that_fits(limit: nat, text: Seq<char>)
    ensures
        ({
            let step = text_step(limit, text);
            let p = step.payload->Some_0;
            let whole = encode_utf8(text);
            &&& step.payload is Some
            &&& exists|n: int|
                {
                    &&& 0 <= n <= text.len()
                    &&& p.bytes == #[trigger] encode_utf8(text.take(n))
                    &&& n < text.len() ==> encode_utf8(text.take(n + 1)).len() > limit
                }
            &&& p.bytes.len() <= limit
            &&& whole.len() <= limit ==> p.bytes == whole
            &&& p.truncated <==> whole.len() > limit
            &&& step.notice is Some <==> whole.len() > limit
            &&& step.notice matches Some(n) ==> n.summary == "Clipboard truncado"@ && n.body
                == "Conteúdo de "@ + decimal(whole.len() / 1024) + " KB excedeu limite de "@
                + decimal(limit / 1024) + " KB; enviando truncado."@
            &&& p.hash == sha256_of(p.bytes)
            &&& p.mime == "text/plain;charset=utf-8"@
            &&& p.kind == PayloadKind::Text
        }),
{
    cut_is_longest_prefix(text, limit as int);
    let n = cut(text, limit as int).len() as int;
    assert(text_step(limit, text).payload->Some_0.bytes == encode_utf8(text.take(n)));
}

/// An image is sent whole or not at all: exactly if its PNG is not longer than the limit for
/// images, and then with its own size. Otherwise the user is told, with its length and the limit.
pub proof fn sent_image_is_whole(png: Seq<u8>, width: u32, height: u32)
    ensures
        ({
            let step = image_step(png, width, height);
            &&& step.payload is Some <==> png.len() <= 0x80_0000
            &&& step.notice is Some <==> png.len() > 0x80_0000
            &&& step.payload matches Some(p) ==> {
                &&& p.bytes == png
                &&& !p.truncated
                &&& p.kind == (PayloadKind::Image { width, height })
                &&& p.mime == "image/png"@
                &&& p.hash == sha256_of(encode_utf8("img-png:"@) + png)
            }
            &&& step.notice matches Some(n) ==> n.summary == "Imagem do clipboard ignorada"@ && n.body
                == "PNG comprimido tem "@ + decimal(png.len() / 1024)
                + " KB e excede o limite de "@ + decimal(8192) + " KB."@
        }),
{
}

/// A text is known by the hash of its bytes, and an image by that of its bytes behind a label, so
/// that the same bytes are another content as a text than as an image.
pub proof fn contents_are_known_by_their_hashes(bytes: Seq<u8>, width: u32, height: u32)
    ensures
        payload_hash(PayloadKind::Text, bytes) == sha256_of(bytes),
        payload_hash(PayloadKind::Image { width, height }, bytes) == sha256_of(
            encode_utf8("img-png:"@) + bytes,
        ),
        image_hash_of(bytes) == sha256_of(encode_utf8("img-png:"@) + bytes),
{
}

/// The bytes that some messages carry for a payload, one after the other.
pub open spec fn carried(ms: Seq<MessageView>) -> Seq<u8>
    decreases ms.len(),
{
    if ms.len() == 0 {
        Seq::empty()
    } else {
        carried(ms.drop_last()) + match ms.last() {
            MessageView::ClipboardData { data, .. } => data,
            _ => Seq::empty(),
        }
    }
}

/// The first messages of a payload carry its beginning.
proof fn lemma_carried(p: PayloadView, k: nat)
    requires
        k <= piece_count(p.bytes.len()),
    ensures
        carried(chunk_messages(p).take(k as int)) == joined(all_pieces(p.bytes).take(k as int)),
    decreases k,
{
    let ms = chunk_messages(p);
    let ps = all_pieces(p.bytes);
    if k == 0 {
        assert(ms.take(0) =~= Seq::empty());
        assert(ps.take(0) =~= Seq::empty());
    } else {
        lemma_carried(p, (k - 1) as nat);
        assert(ms.take(k as int).drop_last() =~= ms.take(k - 1));
        assert(ps.take(k as int).drop_last() =~= ps.take(k - 1));
    }
}

/// The messages of a payload, however long it is, carry its bytes and nothing else, under its hash;
/// none is empty, and none carries more than one chunk may hold.
pub proof fn messages_carry_the_whole_payload(p: PayloadView)
    ensures
        carried(chunk_messages(p)) == p.bytes,
        forall|i: int|
            0 <= i < chunk_messages(p).len() ==> (#[trigger] chunk_messages(
                p,
            )[i] matches MessageView::ClipboardData { hash, data, .. } && hash == p.hash && 0
                < data.len() <= CLIPBOARD_CHUNK_BYTES),
{
    let n = piece_count(p.bytes.len());
    lemma_carried(p, n);
    pieces_make_the_whole(p.bytes);
    assert(chunk_messages(p).take(n as int) =~= chunk_messages(p));
    assert(all_pieces(p.bytes).take(n as int) =~= all_pieces(p.bytes));
    assert forall|i: int| 0 <= i < chunk_messages(p).len() implies (#[trigger] chunk_messages(
        p,
    )[i] matches MessageView::ClipboardData { hash, data, .. } && hash == p.hash && 0 < data.len()
        <= CLIPBOARD_CHUNK_BYTES) by {
        lemma_piece_bounds(p.bytes.len(), i);
    }
}

/// The offer of a payload says what follows: its hash; of a text also its length, whether it is
/// whole, and what it is; of an image its size, and as many chunks as follow.
pub proof fn offers_say_what_follows(p: PayloadView)
    requires
        p.bytes.len() <= u32::MAX,
        0 < chunk_messages(p).len() <= u16::MAX,
    ensures
        match p.kind {
            PayloadKind::Text => offer_message(p) == (MessageView::ClipboardOffer {
                hash: p.hash,
                size: p.bytes.len() as u32,
                truncated: p.truncated,
                mime: p.mime,
            }),
            PayloadKind::Image { width, height } => offer_message(p) == (
            MessageView::ClipboardImageOffer {
                hash: p.hash,
                width,
                height,
                total_chunks: chunk_messages(p).len() as u16,
            }),
        },
{
}

/// What is coming in is known by one hash.
pub open spec fn pending_sound(pending: Option<PendingView>) -> bool {
    pending matches Some(p) ==> p.parts.hash == p.hash
}

/// Whatever pieces come, what comes out has the hash under which it came. What is still coming in is
/// known by the hash of the last piece.
pub proof fn only_the_right_bytes_come_out(
    pending: Option<PendingView>,
    hash: Seq<u8>,
    index: u16,
    total: u16,
    data: Seq<u8>,
)
    requires
        pending_sound(pending),
    ensures
        chunk_step(pending, hash, index, total, data).1 matches Some((kind, bytes))
            ==> payload_hash(kind, bytes) == hash,
        pending_sound(chunk_step(pending, hash, index, total, data).0),
        chunk_step(pending, hash, index, total, data).0 matches Some(p) ==> p.hash == hash,
        pending_sound(text_announced(hash)),
        pending_sound(image_announced(hash, total, 1, 1)),
{
}

/// A piece of what is coming in is kept at its place, whichever it is and whichever came before; the
/// others stay. What comes out is of the kind that was announced.
pub proof fn every_piece_is_kept(
    p: PendingView,
    index: u16,
    total: u16,
    data: Seq<u8>,
    j: int,
)
    requires
        p.counted,
        index < p.parts.chunks.len(),
        0 <= j < p.parts.chunks.len(),
    ensures
        ({
            let (left, out) = chunk_step(Some(p), p.hash, index, total, data);
            &&& out is None <==> left is Some
            &&& left matches Some(q) ==> {
                &&& q.parts.chunks.len() == p.parts.chunks.len()
                &&& q.parts.chunks[j] == if j == index {
                    Some(data)
                } else {
                    p.parts.chunks[j]
                }
                &&& q.parts.kind == p.parts.kind
            }
            &&& out matches Some((kind, _)) ==> kind == p.parts.kind
            &&& j != index && p.parts.chunks[j] is None ==> out is None
        }),
{
    let before = receiver(Some(p), p.hash, total);
    let after = before.pushed(index as int, data);
    if j != index && p.parts.chunks[j] is None {
        assert(after.chunks[j] is None);
    }
}

/// A piece under another hash begins a new text; nothing of what was coming in gets into it.
pub proof fn another_hash_begins_anew(
    pending: Option<PendingView>,
    hash: Seq<u8>,
    index: u16,
    total: u16,
    data: Seq<u8>,
)
    requires
        pending matches Some(p) ==> p.hash != hash,
    ensures
        chunk_step(pending, hash, index, total, data) == chunk_step(None, hash, index, total, data),
        chunk_step(pending, hash, index, total, data).0 matches Some(q) ==> q.parts.kind
            == PayloadKind::Text && q.parts.chunks.len() == total,
{
}

/// An image is sent as the PNG of all its pixels, four bytes for each, in its own width and height;
/// one whose pixels are not all there, or that has no PNG, cannot be sent.
pub proof fn images_are_encoded_as_they_are(rgba: Seq<u8>, width: u32, height: u32)
    ensures
        ({
            let png = png_of(rgba, width, height);
            encoded_image(rgba, width, height) == if rgba.len() == 4 * (width * height) && png
                is Ok {
                SeenImageView::Png { bytes: png->Ok_0, width, height }
            } else {
                SeenImageView::Unencodable
            }
        }),
{
    assert(rgba_len(width, height) == 4 * (width * height)) by (nonlinear_arith);
}

/// The number of pieces that is announced is the number that follows, and one where nothing does.
pub proof fn announced_counts_are_right(len: nat)
    requires
        len <= 0xffff * 0x8000,
    ensures
        len == 0 ==> announced_count(len) == 1,
        len > 0 ==> (announced_count(len) - 1) * 0x8000 < len <= announced_count(len) * 0x8000,
{
    assert(CLIPBOARD_CHUNK_BYTES == 0x8000);
    let n = (len + 0x8000 - 1) as nat / 0x8000;
    assert(piece_count(len) == n);
    assert(len > 0 ==> (n - 1) * 0x8000 < len <= n * 0x8000);
}

/// A piece that has no place changes nothing of what has come, and nothing comes out.
pub proof fn pieces_without_a_place_are_dropped(
    p: PendingView,
    index: u16,
    total: u16,
    data: Seq<u8>,
)
    requires
        p.counted,
        index >= p.parts.chunks.len(),
    ensures
        chunk_step(Some(p), p.hash, index, total, data).1 is None,
        chunk_step(Some(p), p.hash, index, total, data).0 matches Some(q) && q.parts.chunks
            == p.parts.chunks && q.hash == p.hash && q.parts.kind == p.parts.kind,
{
}

/// What was announced is waited for, from the first piece on: a text in one piece until a piece says
/// otherwise, an image in as many as were announced, in its own width and height.
pub proof fn announced_contents_are_waited_for(hash: Seq<u8>, total: u16, width: u32, height: u32)
    ensures
        text_announced(hash) matches Some(p) && p.hash == hash && !p.counted && p.parts.hash == hash
            && p.parts.kind is Text && p.parts.chunks == seq![None::<Seq<u8>>],
        image_announced(hash, total, width, height) matches Some(p) && p.hash == hash && p.counted
            && p.parts.hash == hash && p.parts.kind == (PayloadKind::Image { width, height })
            && p.parts.chunks == Seq::new(total as nat, |i: int| None::<Seq<u8>>),
{
    assert(text_announced(hash)->Some_0.parts.chunks =~= seq![None::<Seq<u8>>]);
    assert(image_announced(hash, total, width, height)->Some_0.parts.chunks =~= Seq::new(
        total as nat,
        |i: int| None::<Seq<u8>>,
    ));
}

} // verus!
