//! Image previews: what is shown while a worker decodes and encodes images.
use crate::shared::share;
use crate::text;
use image::DynamicImage;
use std::sync::Arc;
use vstd::prelude::*;
use vstd::string::*;

verus! {

/// The greatest width and height of a preview, in pixels.
pub const MAX_PREVIEW_EDGE: u32 = 800;

/// How many encoded images the worker keeps.
pub const CACHE_ENTRIES: usize = 4;

// ------------------------------------------------------------------- images

/// Whether a file starts like an image of a known format.
pub uninterp spec fn has_image_signature(bytes: Seq<u8>) -> bool;

/// Calls `image::guess_format`, which compares the first bytes with the
/// signatures of the formats that it knows.
#[verifier::external_body]
fn guess_format(bytes: &[u8]) -> (r: bool)
    ensures
        r == has_image_signature(bytes@),
{
    image::guess_format(bytes).is_ok()
}

/// Whether a file is an image, as far as its first bytes tell.
pub fn is_image(bytes: &[u8]) -> (r: bool)
    ensures
        r == has_image_signature(bytes@),
{
    guess_format(bytes)
}

/// An image in memory, with the pixels as its file holds them.
#[verifier::external_type_specification]
#[verifier::external_body]
pub struct ExDynamicImage(DynamicImage);

/// The width and the height of an image.
pub uninterp spec fn image_size(image: DynamicImage) -> (u32, u32);

/// Calls `image::GenericImageView::dimensions`.
#[verifier::external_body]
fn dimensions(image: &DynamicImage) -> (r: (u32, u32))
    ensures
        r == image_size(*image),
{
    image::GenericImageView::dimensions(image)
}

/// Whether the channels of an image take up two bytes each.
pub uninterp spec fn has_word_samples(image: DynamicImage) -> bool;

/// Calls `image::DynamicImage::as_flat_samples_u16`, which only gives something
/// for images of that kind.
#[verifier::external_body]
fn is_word_image(image: &DynamicImage) -> (r: bool)
    ensures
        r == has_word_samples(*image),
{
    image.as_flat_samples_u16().is_some()
}

/// The image that a file holds, if it can be decoded.
pub uninterp spec fn decoded_image(bytes: Seq<u8>) -> Option<DynamicImage>;

/// How many pixels an image has.
pub open spec fn area(image: DynamicImage) -> int {
    image_size(image).0 * image_size(image).1
}

/// Calls `image::ImageReader::decode`, with the format that the first bytes
/// tell and the default limits. Whether a file can be decoded, and to what,
/// follows from its bytes. The limits keep an image to half a gigabyte, with at
/// least a byte for each pixel. Without a signature there is no image, as no
/// format is registered beside those that `image::guess_format` knows. Left
/// unsaid are the text of an error, and that every malformed file is refused
/// with one: decoders are written to do so, but not shown to never panic.
#[verifier::external_body]
fn read_image(bytes: &[u8]) -> (r: Result<DynamicImage, String>)
    ensures
        match r {
            Ok(image) => decoded_image(bytes@) == Some(image),
            Err(_) => decoded_image(bytes@) is None,
        },
        r matches Ok(image) ==> has_image_signature(bytes@) && area(image) <= 0x2000_0000,
{
    let mut reader = match image::ImageReader::new(std::io::Cursor::new(bytes)).with_guessed_format() {
        Ok(reader) => reader,
        Err(error) => return Err(error.to_string()),
    };
    reader.limits(image::Limits::default());
    match reader.decode() {
        Ok(image) => Ok(image),
        Err(error) => Err(error.to_string()),
    }
}

/// Decode an image file.
pub fn decode(bytes: &[u8]) -> (r: Result<DynamicImage, String>)
    ensures
        match r {
            Ok(image) => decoded_image(bytes@) == Some(image),
            Err(_) => decoded_image(bytes@) is None,
        },
        r matches Ok(image) ==> has_image_signature(bytes@) && area(image) <= 0x2000_0000,
{
    read_image(bytes)
}

/// Whether a length is the share of a shorter side in an image whose longer side
/// becomes `edge`: the nearest length, but at least one.
pub open spec fn is_share(shorter: int, longer: int, edge: int, length: int) -> bool {
    if 2 * shorter * edge < longer {
        length == 1
    } else {
        -longer <= 2 * (length * longer - shorter * edge) <= longer
    }
}

/// Whether an image of one size becomes one of another if it is scaled down, with
/// its shape kept, so that its longer side gets as long as `edge`.
pub open spec fn keeps_shape(size: (u32, u32), edge: u32, scaled: (u32, u32)) -> bool {
    &&& size.0 >= size.1 ==> scaled.0 == edge && is_share(
        size.1 as int,
        size.0 as int,
        edge as int,
        scaled.1 as int,
    )
    &&& size.1 >= size.0 ==> scaled.1 == edge && is_share(
        size.0 as int,
        size.1 as int,
        edge as int,
        scaled.0 as int,
    )
}

/// Whether the pixels that one pixel stands for, once the image is scaled down to
/// an edge, are so few that their sum fits into 32 bits.
pub open spec fn scales_to(image: DynamicImage, edge: u32) -> bool {
    &&& area(image) <= 0x40_0000 * edge
    &&& has_word_samples(image) ==> image_size(image).0 <= 200 * edge && image_size(image).1 <= 200
        * edge
}

/// An image that is scaled down, with its shape kept, so that its longer side
/// gets as long as `edge`.
pub uninterp spec fn scaled_down(image: DynamicImage, edge: u32) -> DynamicImage;

/// Calls `image::DynamicImage::thumbnail`, which scales an image down, with its
/// shape kept, so that it fits into a square. The longer side gets as long as
/// the square, and the shorter one the nearest length to its share of that; with
/// squares of this size no error of rounding shows. It sums up pixels in 32 bits,
/// so images that may need more are left out.
#[verifier::external_body]
fn scale_down(image: DynamicImage, edge: u32) -> (r: DynamicImage)
    requires
        scales_to(image, edge),
        0 < edge <= 0xffff,
        edge < image_size(image).0 || edge < image_size(image).1,
    ensures
        r == scaled_down(image, edge),
        keeps_shape(image_size(image), edge, image_size(r)),
{
    image.thumbnail(edge, edge)
}

/// Whether an image is too large for a preview.
pub open spec fn is_large(image: DynamicImage) -> bool {
    image_size(image).0 > MAX_PREVIEW_EDGE || image_size(image).1 > MAX_PREVIEW_EDGE
}

/// Whether an image is small enough as it is, or can be scaled down.
pub open spec fn previewable(image: DynamicImage) -> bool {
    is_large(image) ==> scales_to(image, MAX_PREVIEW_EDGE)
}

/// Whether an image is the preview of another: large ones are scaled down, small
/// ones stay what they are.
pub open spec fn is_preview(image: DynamicImage, preview: DynamicImage) -> bool {
    if is_large(image) {
        &&& preview == scaled_down(image, MAX_PREVIEW_EDGE)
        &&& keeps_shape(image_size(image), MAX_PREVIEW_EDGE, image_size(preview))
    } else {
        preview == image
    }
}

/// The preview of an image.
pub fn thumbnail(image: DynamicImage) -> (r: DynamicImage)
    requires
        previewable(image),
    ensures
        is_preview(image, r),
{
    let (width, height) = dimensions(&image);
    if width > MAX_PREVIEW_EDGE || height > MAX_PREVIEW_EDGE {
        scale_down(image, MAX_PREVIEW_EDGE)
    } else {
        image
    }
}

fn can_preview(image: &DynamicImage) -> (r: bool)
    ensures
        r == previewable(*image),
{
    let (width, height) = dimensions(image);
    if width <= MAX_PREVIEW_EDGE && height <= MAX_PREVIEW_EDGE {
        return true;
    }
    proof {
        assert(width * height <= 0xffff_ffff * 0xffff_ffff) by (nonlinear_arith)
            requires
                width <= 0xffff_ffff,
                height <= 0xffff_ffff,
        ;
    }
    width as u64 * height as u64 <= 0x40_0000 * MAX_PREVIEW_EDGE as u64 && (!is_word_image(image)
        || (width <= 200 * MAX_PREVIEW_EDGE && height <= 200 * MAX_PREVIEW_EDGE))
}

/// What a worker hands to the encoder, given how decoding went. An image that
/// cannot be scaled down stays what it is.
pub fn preview_of(decoded: Result<DynamicImage, String>) -> (r: Result<DynamicImage, String>)
    ensures
        match (decoded, r) {
            (Ok(image), Ok(preview)) => if previewable(image) {
                is_preview(image, preview)
            } else {
                preview == image
            },
            (Err(error), Err(told)) => told == error,
            _ => false,
        },
{
    match decoded {
        Ok(image) => if can_preview(&image) {
            Ok(thumbnail(image))
        } else {
            Ok(image)
        },
        Err(error) => Err(error),
    }
}

/// No preview is longer on a side than the greatest one, and one of its sides is
/// as long as that if the image was larger.
pub proof fn lemma_previews_fit(image: DynamicImage, preview: DynamicImage)
    requires
        is_preview(image, preview),
    ensures
        image_size(preview).0 <= MAX_PREVIEW_EDGE,
        image_size(preview).1 <= MAX_PREVIEW_EDGE,
        is_large(image) ==> image_size(preview).0 == MAX_PREVIEW_EDGE || image_size(preview).1
            == MAX_PREVIEW_EDGE,
{
    if is_large(image) {
        let (w, h) = image_size(image);
        let (pw, ph) = image_size(preview);
        assert(w >= h ==> ph <= MAX_PREVIEW_EDGE) by (nonlinear_arith)
            requires
                w >= h ==> is_share(h as int, w as int, 800, ph as int),
                w > 0 || h > 0,
                MAX_PREVIEW_EDGE == 800,
        ;
        assert(h >= w ==> pw <= MAX_PREVIEW_EDGE) by (nonlinear_arith)
            requires
                h >= w ==> is_share(w as int, h as int, 800, pw as int),
                w > 0 || h > 0,
                MAX_PREVIEW_EDGE == 800,
        ;
    }
}

// ------------------------------------------------------------------- requests

/// Which image is encoded, and for which size in terminal cells.
#[derive(Clone, Copy, Debug, PartialEq, Eq, Structural)]
pub struct Key {
    pub content: u64,
    pub width: u16,
    pub height: u16,
}

/// An image to encode.
#[derive(Debug)]
pub struct Request {
    pub generation: u64,
    pub key: Key,
    pub bytes: Arc<Vec<u8>>,
}

/// An image that was encoded, or why it could not be.
#[derive(Debug)]
pub struct Completion<T> {
    pub generation: u64,
    pub key: Key,
    pub encoded: Result<Arc<T>, String>,
}

/// The preview of an image: one request at a time, which a later one replaces.
/// `T` is what an image is encoded to.
#[derive(Debug)]
pub struct ImagePreview<T> {
    pub generation: u64,
    pub request: Option<Request>,
    pub completion: Option<Completion<T>>,
    pub has_worker: bool,
    /// the hash and the bytes of the image
    pub source: Option<(u64, Arc<Vec<u8>>)>,
    pub requested: Option<Key>,
    pub encoded: Option<Result<Arc<T>, String>>,
}

/// What has to be done before an image can be drawn.
#[derive(Clone, Copy, Debug, PartialEq, Eq, Structural)]
pub enum RequestStep {
    Nothing,
    /// start a worker, then place the request
    StartWorker,
    /// wake the worker up
    Wake,
}

/// What is drawn.
#[derive(Debug)]
pub enum ImageDraw<T> {
    /// nothing, since there is no image or no room
    Nothing,
    Image(Arc<T>),
    Text(String),
}

fn share_encoded<T>(encoded: &Result<Arc<T>, String>) -> (r: Result<Arc<T>, String>)
    ensures
        r == *encoded,
{
    match encoded {
        Ok(value) => Ok(share(value)),
        Err(error) => Err(error.clone()),
    }
}

impl<T> ImagePreview<T> {
    /// A preview without an image.
    pub fn new() -> (r: ImagePreview<T>)
        ensures
            r.generation == 0,
            r.request is None,
            r.completion is None,
            !r.has_worker,
            r.source is None,
            r.requested is None,
            r.encoded is None,
    {
        ImagePreview {
            generation: 0,
            request: None,
            completion: None,
            has_worker: false,
            source: None,
            requested: None,
            encoded: None,
        }
    }

    pub open spec fn next_generation(self) -> u64 {
        if self.generation == u64::MAX {
            0
        } else {
            (self.generation + 1) as u64
        }
    }

    /// The preview after it gave up what it was waiting for.
    pub open spec fn cancelled(self) -> ImagePreview<T> {
        ImagePreview {
            generation: self.next_generation(),
            request: None,
            completion: None,
            requested: None,
            encoded: None,
            ..self
        }
    }

    fn cancel(&mut self)
        ensures
            *final(self) == old(self).cancelled(),
    {
        self.generation = self.generation.wrapping_add(1);
        self.request = None;
        self.completion = None;
        self.requested = None;
        self.encoded = None;
    }

    /// Forget the image.
    pub fn clear(&mut self)
        ensures
            *final(self) == (ImagePreview { source: None, ..old(self).cancelled() }),
    {
        self.cancel();
        self.source = None;
    }

    pub open spec fn holds(self, content_hash: u64) -> bool {
        self.source matches Some((hash, _)) && hash == content_hash
    }

    /// Preview an image. One with the same hash is the same image.
    pub fn set(&mut self, bytes: Vec<u8>, content_hash: u64)
        ensures
            if old(self).holds(content_hash) {
                *final(self) == *old(self)
            } else {
                &&& *final(self) == (ImagePreview {
                    source: final(self).source,
                    ..old(self).cancelled()
                })
                &&& final(self).source matches Some((hash, data))
                &&& hash == content_hash
                &&& *data == bytes
            },
    {
        let same = match &self.source {
            Some((hash, _)) => *hash == content_hash,
            None => false,
        };
        if same {
            return ;
        }
        self.clear();
        self.source = Some((content_hash, Arc::new(bytes)));
    }

    /// Whether an image is being encoded.
    pub fn is_pending(&self) -> (r: bool)
        ensures
            r == (self.requested is Some && self.encoded is None && self.completion is None),
    {
        self.requested.is_some() && self.encoded.is_none() && self.completion.is_none()
    }

    /// What the image is asked for with, in an area of the given size.
    pub open spec fn key(self, width: u16, height: u16) -> Key {
        Key { content: (self.source->0).0, width, height }
    }

    pub open spec fn step(self, width: u16, height: u16) -> RequestStep {
        if width == 0 || height == 0 || self.source is None || self.requested == Some(
            self.key(width, height),
        ) {
            RequestStep::Nothing
        } else if self.has_worker {
            RequestStep::Wake
        } else {
            RequestStep::StartWorker
        }
    }

    /// Ask for the image in an area of the given size, unless it was asked for
    /// already. Without room nothing is asked for.
    pub fn request(&mut self, width: u16, height: u16) -> (r: RequestStep)
        ensures
            r == old(self).step(width, height),
            if width == 0 || height == 0 {
                *final(self) == old(self).cancelled()
            } else if r == RequestStep::Nothing {
                *final(self) == *old(self)
            } else {
                let key = old(self).key(width, height);
                &&& *final(self) == (ImagePreview {
                    requested: Some(key),
                    request: final(self).request,
                    ..old(self).cancelled()
                })
                &&& if r == RequestStep::Wake {
                    final(self).request matches Some(request) && request.generation
                        == final(self).generation && request.key == key && request.bytes == (
                    old(self).source->0).1
                } else {
                    final(self).request is None
                }
            },
    {
        if width == 0 || height == 0 {
            self.cancel();
            return RequestStep::Nothing;
        }
        let content: u64 = match &self.source {
            Some((content, _)) => *content,
            None => {
                return RequestStep::Nothing;
            },
        };
        let key = Key { content, width, height };
        let asked = match self.requested {
            Some(requested) => requested == key,
            None => false,
        };
        if asked {
            return RequestStep::Nothing;
        }
        self.cancel();
        self.requested = Some(key);
        if self.has_worker {
            self.place_request();
            RequestStep::Wake
        } else {
            RequestStep::StartWorker
        }
    }

    fn place_request(&mut self)
        ensures
            *final(self) == (ImagePreview { request: final(self).request, ..*old(self) }),
            match (old(self).requested, old(self).source) {
                (Some(key), Some((_, bytes))) => final(self).request matches Some(request)
                    && request.generation == old(self).generation && request.key == key
                    && request.bytes == bytes,
                _ => final(self).request == old(self).request,
            },
    {
        match (&self.requested, &self.source) {
            (Some(key), Some((_, bytes))) => {
                let request = Request {
                    generation: self.generation,
                    key: *key,
                    bytes: share(bytes),
                };
                self.request = Some(request);
            },
            _ => {},
        }
    }

    /// Note that a worker was started, or why it could not be. Tells whether it
    /// has to be woken up.
    pub fn worker_started(&mut self, result: Result<(), String>) -> (wake: bool)
        ensures
            wake == (result is Ok),
            match result {
                Ok(_) => {
                    &&& *final(self) == (ImagePreview {
                        has_worker: true,
                        request: final(self).request,
                        ..*old(self)
                    })
                    &&& match (old(self).requested, old(self).source) {
                        (Some(key), Some((_, bytes))) => final(self).request matches Some(request)
                            && request.generation == old(self).generation && request.key == key
                            && request.bytes == bytes,
                        _ => final(self).request == old(self).request,
                    }
                },
                Err(error) => *final(self) == (ImagePreview {
                    encoded: Some(Err(error)),
                    ..*old(self)
                }),
            },
    {
        match result {
            Ok(_) => {
                self.has_worker = true;
                self.place_request();
                true
            },
            Err(error) => {
                self.encoded = Some(Err(error));
                false
            },
        }
    }

    /// Whether an encoded image is the one that is waited for.
    pub open spec fn wants(self, completion: Completion<T>) -> bool {
        completion.generation == self.generation && self.requested == Some(completion.key)
    }

    pub open spec fn collected(self) -> ImagePreview<T> {
        ImagePreview {
            completion: None,
            encoded: match self.completion {
                Some(completion) => if self.wants(completion) {
                    Some(completion.encoded)
                } else {
                    self.encoded
                },
                None => self.encoded,
            },
            ..self
        }
    }

    /// Take in the image that was encoded, if it is the one that is waited for.
    pub fn collect(&mut self)
        ensures
            *final(self) == old(self).collected(),
    {
        match self.completion.take() {
            Some(completion) => {
                let wanted = completion.generation == self.generation && match self.requested {
                    Some(key) => key == completion.key,
                    None => false,
                };
                if wanted {
                    self.encoded = Some(completion.encoded);
                }
            },
            None => {},
        }
    }

    /// Whether something is what is drawn in an area of the given size.
    pub open spec fn draws(self, width: u16, height: u16, drawn: ImageDraw<T>) -> bool {
        if width == 0 || height == 0 || self.source is None {
            drawn is Nothing
        } else {
            match self.encoded {
                Some(Ok(image)) => drawn == ImageDraw::Image(image),
                Some(Err(error)) => drawn matches ImageDraw::Text(s) && s@
                    == "Image preview failed: "@ + error@,
                None => drawn matches ImageDraw::Text(s) && s@ == "Loading image\u{2026}"@,
            }
        }
    }

    /// What is drawn in an area of the given size.
    pub fn shown(&self, width: u16, height: u16) -> (r: ImageDraw<T>)
        ensures
            self.draws(width, height, r),
    {
        if width == 0 || height == 0 || self.source.is_none() {
            return ImageDraw::Nothing;
        }
        match &self.encoded {
            Some(Ok(image)) => ImageDraw::Image(share(image)),
            Some(Err(error)) => ImageDraw::Text(
                text::join2("Image preview failed: ", error.as_str()),
            ),
            None => ImageDraw::Text("Loading image\u{2026}".to_owned()),
        }
    }

    // -------------------------------------------------------------- worker

    pub open spec fn wanted_request(self) -> Option<Request> {
        match self.request {
            Some(request) => if request.generation == self.generation {
                Some(request)
            } else {
                None
            },
            None => None,
        }
    }

    /// Take the request out, if it is still wanted.
    pub fn take_request(&mut self) -> (r: Option<Request>)
        ensures
            *final(self) == (ImagePreview { request: None, ..*old(self) }),
            r == old(self).wanted_request(),
    {
        match self.request.take() {
            Some(request) => if request.generation == self.generation {
                Some(request)
            } else {
                None
            },
            None => None,
        }
    }

    /// Whether what was requested in a generation is still wanted.
    pub fn is_current(&self, generation: u64) -> (r: bool)
        ensures
            r == (generation == self.generation),
    {
        generation == self.generation
    }

    pub open spec fn completed(self, completion: Completion<T>) -> ImagePreview<T> {
        if completion.generation == self.generation {
            ImagePreview { completion: Some(completion), ..self }
        } else {
            self
        }
    }

    /// Hand in an encoded image. It is dropped if it is no longer wanted; else
    /// the screen has to be drawn again.
    pub fn complete(&mut self, completion: Completion<T>) -> (notify: bool)
        ensures
            notify == (completion.generation == old(self).generation),
            *final(self) == old(self).completed(completion),
    {
        if completion.generation == self.generation {
            self.completion = Some(completion);
            true
        } else {
            false
        }
    }
}

/// The images that were encoded last, the least recently used first.
#[derive(Debug)]
pub struct ImageCache<T> {
    pub entries: Vec<(Key, Result<Arc<T>, String>)>,
}

/// The entries with one more; the first makes room for it where there is none.
pub open spec fn with_entry<T>(
    entries: Seq<(Key, Result<Arc<T>, String>)>,
    key: Key,
    encoded: Result<Arc<T>, String>,
) -> Seq<(Key, Result<Arc<T>, String>)> {
    (if entries.len() == CACHE_ENTRIES {
        entries.remove(0)
    } else {
        entries
    }).push((key, encoded))
}

/// The place of a key among the entries from `i` on.
pub open spec fn key_position<T>(
    entries: Seq<(Key, Result<Arc<T>, String>)>,
    key: Key,
    i: int,
) -> Option<int>
    decreases entries.len() - i,
{
    if i < 0 || i >= entries.len() {
        None
    } else if entries[i].0 == key {
        Some(i)
    } else {
        key_position(entries, key, i + 1)
    }
}

impl<T> ImageCache<T> {
    /// What holds of every cache: it is bounded.
    pub open spec fn wf(self) -> bool {
        self.entries@.len() <= CACHE_ENTRIES
    }

    pub fn new() -> (r: ImageCache<T>)
        ensures
            r.wf(),
            r.entries@.len() == 0,
    {
        ImageCache { entries: Vec::new() }
    }

    /// An encoded image, which then counts as the most recently used.
    pub fn get(&mut self, key: Key) -> (r: Option<Result<Arc<T>, String>>)
        requires
            old(self).wf(),
        ensures
            final(self).wf(),
            match key_position(old(self).entries@, key, 0) {
                Some(i) => {
                    &&& 0 <= i < old(self).entries@.len()
                    &&& r == Some(old(self).entries@[i].1)
                    &&& final(self).entries@ == old(self).entries@.remove(i).push(
                        old(self).entries@[i],
                    )
                },
                None => r is None && *final(self) == *old(self),
            },
    {
        let mut i: usize = 0;
        while i < self.entries.len()
            invariant
                *self == *old(self),
                self.wf(),
                i <= self.entries@.len(),
                key_position(self.entries@, key, i as int) == key_position(
                    self.entries@,
                    key,
                    0,
                ),
            decreases self.entries@.len() - i,
        {
            if self.entries[i].0 == key {
                let entry = self.entries.remove(i);
                let encoded = share_encoded(&entry.1);
                self.entries.push(entry);
                return Some(encoded);
            }
            i += 1;
        }
        None
    }

    /// Keep an encoded image; the least recently used one makes room for it.
    pub fn insert(&mut self, key: Key, encoded: Result<Arc<T>, String>)
        requires
            old(self).wf(),
        ensures
            final(self).wf(),
            final(self).entries@ == with_entry(old(self).entries@, key, encoded),
    {
        if self.entries.len() == CACHE_ENTRIES {
            self.entries.remove(0);
        }
        self.entries.push((key, encoded));
    }
}

// ------------------------------------------------------------------- laws

/// What was encoded for an earlier request is never shown: the worker's answer
/// is dropped once the preview moved on.
pub proof fn lemma_stale_images_are_dropped<T>(p: ImagePreview<T>, completion: Completion<T>)
    requires
        completion.generation == p.generation,
    ensures
        !p.cancelled().wants(completion),
        p.cancelled().completion is None,
        p.cancelled().encoded is None,
{
}

/// What was kept is found again.
pub proof fn lemma_kept_images_are_found<T>(
    entries: Seq<(Key, Result<Arc<T>, String>)>,
    key: Key,
    encoded: Result<Arc<T>, String>,
    i: int,
)
    requires
        0 <= i <= entries.len(),
        forall|j: int| 0 <= j < entries.len() ==> (#[trigger] entries[j]).0 != key,
    ensures
        key_position(entries.push((key, encoded)), key, i) == Some(entries.len() as int),
    decreases entries.len() - i,
{
    let all = entries.push((key, encoded));
    if i < entries.len() {
        assert(all[i] == entries[i]);
        lemma_kept_images_are_found(entries, key, encoded, i + 1);
    }
}

/// An image is asked for where there is one and room for it, unless the same was
/// asked for in the same size already.
pub proof fn lemma_when_images_are_asked_for<T>(p: ImagePreview<T>, width: u16, height: u16)
    ensures
        p.source is None || width == 0 || height == 0 ==> p.step(width, height)
            == RequestStep::Nothing,
        p.source is Some && width > 0 && height > 0 && (p.requested is None
            || p.requested->0.content != (p.source->0).0 || p.requested->0.width != width
            || p.requested->0.height != height) ==> p.step(width, height) == if p.has_worker {
            RequestStep::Wake
        } else {
            RequestStep::StartWorker
        },
        p.source is Some && p.requested is Some && p.requested->0.content == (p.source->0).0
            && p.requested->0.width == width && p.requested->0.height == height ==> p.step(
            width,
            height,
        ) == RequestStep::Nothing,
{
    if p.source is Some && p.requested is Some {
        let key = p.requested->0;
        assert(key == Key { content: key.content, width: key.width, height: key.height });
    }
}

/// A result is taken only where it is of the latest request: of the content and
/// the size that are wanted.
pub proof fn lemma_which_results_are_taken<T>(p: ImagePreview<T>, completion: Completion<T>)
    ensures
        p.wants(completion) ==> p.requested == Some(completion.key) && completion.generation
            == p.generation,
        p.requested is None ==> !p.wants(completion),
        p.cancelled().source == p.source,
        p.cancelled().has_worker == p.has_worker,
        p.cancelled().generation != p.generation,
        p.cancelled().requested is None,
        p.cancelled().request is None,
{
}

/// An image is kept by its content.
pub proof fn lemma_images_are_known_by_their_content<T>(p: ImagePreview<T>, hash: u64)
    ensures
        p.holds(hash) <==> p.source is Some && (p.source->0).0 == hash,
{
}

/// The first entry of a key is found, and none where there is none.
pub proof fn lemma_entries_are_found_by_their_key<T>(
    entries: Seq<(Key, Result<Arc<T>, String>)>,
    key: Key,
    i: int,
    k: int,
)
    requires
        0 <= i <= k < entries.len(),
    ensures
        ({
            let r = key_position(entries, key, i);
            &&& r is Some ==> i <= r->0 < entries.len() && entries[r->0].0 == key
            &&& entries[k].0 == key ==> r is Some && r->0 <= k
            &&& r is Some && k < r->0 ==> entries[k].0 != key
        }),
    decreases entries.len() - i,
{
    if entries[i].0 != key {
        if i < k {
            lemma_entries_are_found_by_their_key(entries, key, i + 1, k);
        } else if i + 1 < entries.len() {
            lemma_entries_are_found_by_their_key(entries, key, i + 1, i + 1);
        }
    }
}

/// A small image is shown as it is.
pub proof fn lemma_small_images_stay(image: DynamicImage, preview: DynamicImage)
    requires
        image_size(image).0 <= 800,
        image_size(image).1 <= 800,
        is_preview(image, preview),
    ensures
        preview == image,
        previewable(image),
{
}

/// The image that was waited for is drawn once it is there; one for an earlier
/// request never is.
pub proof fn lemma_the_awaited_image_is_drawn<T>(
    p: ImagePreview<T>,
    completion: Completion<T>,
    image: Arc<T>,
    width: u16,
    height: u16,
    drawn: ImageDraw<T>,
)
    requires
        completion.encoded == Ok::<Arc<T>, String>(image),
        width > 0,
        height > 0,
        p.source is Some,
        p.completed(completion).collected().draws(width, height, drawn),
    ensures
        completion.generation == p.generation && p.requested == Some(completion.key) ==> drawn
            == ImageDraw::Image(image),
        completion.generation != p.generation ==> p.completed(completion) == p,
        completion.generation == p.generation && p.requested != Some(completion.key)
            && p.encoded is None ==> drawn is Text,
        p.completed(completion).collected().completion is None,
{
}

/// Until there is an image it is told that one is loaded, and an error is told as
/// one; without an image or without room nothing is drawn.
pub proof fn lemma_what_is_drawn_of_an_image<T>(
    p: ImagePreview<T>,
    width: u16,
    height: u16,
    drawn: ImageDraw<T>,
)
    requires
        p.draws(width, height, drawn),
    ensures
        drawn is Nothing <==> width == 0 || height == 0 || p.source is None,
        drawn is Image ==> p.encoded is Some && p.encoded->0 is Ok && drawn->Image_0
            == p.encoded->0->Ok_0,
        !(drawn is Nothing) && p.encoded is None ==> drawn->Text_0@ == "Loading image\u{2026}"@,
        !(drawn is Nothing) && p.encoded is Some && p.encoded->0 is Err ==> drawn->Text_0@
            == "Image preview failed: "@ + p.encoded->0->Err_0@,
{
}

/// The worker gets a request only while it is wanted.
pub proof fn lemma_stale_requests_are_not_worked_on<T>(p: ImagePreview<T>)
    ensures
        p.wanted_request() is Some <==> p.request is Some && p.request->0.generation
            == p.generation,
        p.wanted_request() is Some ==> p.wanted_request() == p.request,
        p.cancelled().wanted_request() is None,
{
}

/// What was encoded last is kept, and all others are, but for the one that was
/// used longest ago where there is no more room.
pub proof fn lemma_images_make_room<T>(
    entries: Seq<(Key, Result<Arc<T>, String>)>,
    key: Key,
    encoded: Result<Arc<T>, String>,
    i: int,
)
    requires
        0 <= i < entries.len() <= CACHE_ENTRIES,
    ensures
        with_entry(entries, key, encoded).last() == (key, encoded),
        with_entry(entries, key, encoded).len() <= CACHE_ENTRIES,
        i > 0 || entries.len() < CACHE_ENTRIES ==> with_entry(entries, key, encoded).contains(
            entries[i],
        ),
        entries.len() < CACHE_ENTRIES ==> with_entry(entries, key, encoded).len() == entries.len()
            + 1,
{
    let all = with_entry(entries, key, encoded);
    if entries.len() < CACHE_ENTRIES {
        assert(all[i] == entries[i]);
    } else if i > 0 {
        assert(all[i - 1] == entries[i]);
    }
}

} // verus!
