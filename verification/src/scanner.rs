//! The decisions of the scanner: which files are images, the record of a
//! discovered image, and how discovered images are stored in batches.

use vstd::prelude::*;
use crate::database::{Image, ImageModel, images_view};
use crate::web_ui::{ascii_lower, ascii_lower_eq, lemma_ascii_lower_drop_last, lemma_lower_keeps_dots, lemma_ascii_lower_idempotent};
use crate::text::str_eq;

verus! {

/// The index of the last `.` of a string.
pub open spec fn last_dot(s: Seq<char>) -> Option<int>
    decreases s.len(),
{
    if s.len() == 0 {
        None
    } else if s.last() == '.' {
        Some(s.len() - 1)
    } else {
        last_dot(s.drop_last())
    }
}

proof fn lemma_last_dot_in_range(s: Seq<char>)
    ensures
        last_dot(s) matches Some(k) ==> 0 <= k < s.len() && s[k] == '.',
    decreases s.len(),
{
    if s.len() > 0 && s.last() != '.' {
        lemma_last_dot_in_range(s.drop_last());
    }
}

/// The extension of a file name, as `Path::extension` defines it: what
/// follows the last `.`, when there is one and something comes before it
/// (`..` has none).
pub open spec fn extension_of(name: Seq<char>) -> Option<Seq<char>> {
    if name == ".."@ {
        None
    } else {
        match last_dot(name) {
            None => None,
            Some(k) => if k == 0 {
                None
            } else {
                Some(name.skip(k + 1))
            },
        }
    }
}

/// The extensions of the image files that the scanner looks for, compared
/// without regard to the case of ASCII letters.
pub open spec fn is_image_extension(e: Seq<char>) -> bool {
    let l = ascii_lower(e);
    ||| l == "jpg"@
    ||| l == "jpeg"@
    ||| l == "png"@
    ||| l == "gif"@
    ||| l == "webp"@
    ||| l == "bmp"@
    ||| l == "tiff"@
}

/// Whether a file of this name is an image that the scanner records.
pub open spec fn is_image_file_name(name: Seq<char>) -> bool {
    match extension_of(name) {
        Some(e) => is_image_extension(e),
        None => false,
    }
}

proof fn lemma_last_dot_lowered(s: Seq<char>)
    ensures
        last_dot(ascii_lower(s)) == last_dot(s),
    decreases s.len(),
{
    if s.len() > 0 {
        lemma_ascii_lower_drop_last(s);
        lemma_lower_keeps_dots(s.last());
        lemma_last_dot_lowered(s.drop_last());
    } else {
        assert(ascii_lower(s) =~= s);
    }
}

/// The extension of a lowered name is the lowered extension.
pub proof fn lemma_extension_lowered(name: Seq<char>)
    ensures
        extension_of(ascii_lower(name)) == match extension_of(name) {
            Some(e) => Some(ascii_lower(e)),
            None => None::<Seq<char>>,
        },
{
    lemma_last_dot_lowered(name);
    lemma_last_dot_in_range(name);
    let l = ascii_lower(name);
    assert(l.len() == name.len());
    if name == ".."@ {
        reveal_strlit("..");
        assert(l =~= name);
    } else if l == ".."@ {
        reveal_strlit("..");
        assert forall|i: int| 0 <= i < name.len() implies name[i] == l[i] by {
            lemma_lower_keeps_dots(name[i]);
        }
        assert(name =~= l);
    }
    match last_dot(name) {
        Some(k) => {
            if k != 0 {
                assert(l.skip(k + 1) =~= ascii_lower(name.skip(k + 1)));
            }
        },
        None => {},
    }
}

/// Whether a file is an image does not depend on the case of the letters of
/// its name: a name and the name with its ASCII capitals made small are
/// judged alike, and so are two names whose extensions agree up to case.
pub proof fn lemma_image_names_ignore_case(name: Seq<char>, other: Seq<char>)
    ensures
        is_image_file_name(name) == is_image_file_name(ascii_lower(name)),
        (extension_of(name) matches Some(e) && extension_of(other) matches Some(f) && ascii_lower(e) == ascii_lower(f))
            ==> is_image_file_name(name) == is_image_file_name(other),
{
    lemma_extension_lowered(name);
    match extension_of(name) {
        Some(e) => lemma_ascii_lower_idempotent(e),
        None => {},
    }
}

/// A name is an image exactly when it has an extension that, with its ASCII
/// capitals made small, is jpg, jpeg, png, gif, webp, bmp or tiff.
pub proof fn lemma_image_names_by_extension(name: Seq<char>)
    ensures
        is_image_file_name(name) <==> (extension_of(name) matches Some(e) && {
            let l = ascii_lower(e);
            l == "jpg"@ || l == "jpeg"@ || l == "png"@ || l == "gif"@ || l == "webp"@ || l == "bmp"@ || l == "tiff"@
        }),
{
}

/// The extension of a file name.
pub fn file_extension(name: &str) -> (r: Option<&str>)
    ensures
        match extension_of(name@) {
            Some(e) => r matches Some(x) && x@ == e,
            None => r is None,
        },
{
    if str_eq(name, "..") {
        return None;
    }
    let n = name.unicode_len();
    let mut found: Option<usize> = None;
    let mut i: usize = 0;
    while i < n
        invariant
            n == name@.len(),
            i <= n,
            match last_dot(name@.take(i as int)) {
                Some(k) => found == Some(k as usize),
                None => found is None,
            },
            found matches Some(k) ==> k < i,
        decreases n - i,
    {
        let ghost t = name@.take(i + 1);
        assert(t.drop_last() =~= name@.take(i as int));
        proof {
            lemma_last_dot_in_range(name@.take(i as int));
        }
        if name.get_char(i) == '.' {
            found = Some(i);
        }
        i = i + 1;
    }
    assert(name@.take(n as int) =~= name@);
    proof {
        lemma_last_dot_in_range(name@);
    }
    match found {
        None => {
            assert(last_dot(name@) is None);
            None
        },
        Some(k) => if k == 0 {
            None
        } else {
            let e = name.substring_char(k + 1, n);
            assert(e@ =~= name@.skip(k + 1));
            Some(e)
        },
    }
}

/// Whether the extension is one of an image file, whatever its case.
pub fn is_image_extension_exec(e: &str) -> (r: bool)
    ensures
        r == is_image_extension(e@),
{
    ascii_lower_eq(e, "jpg") || ascii_lower_eq(e, "jpeg") || ascii_lower_eq(e, "png")
        || ascii_lower_eq(e, "gif") || ascii_lower_eq(e, "webp") || ascii_lower_eq(e, "bmp")
        || ascii_lower_eq(e, "tiff")
}

/// Whether a file of this name is an image that the scanner records: its
/// extension is jpg, jpeg, png, gif, webp, bmp or tiff, in any case of ASCII
/// letters.  (Rust's `to_lowercase` agrees on these: no other character
/// lowercases to a letter of them.)
pub fn is_image_file_name_exec(name: &str) -> (r: bool)
    ensures
        r == is_image_file_name(name@),
{
    match file_extension(name) {
        Some(e) => is_image_extension_exec(e),
        None => false,
    }
}

// ---------------------------------------------------------------------------
// Discovered images

pub open spec fn is_lower_hex_digit(c: char) -> bool {
    ('0' <= c && c <= '9') || ('a' <= c && c <= 'f')
}

/// The hyphenated lowercase form of a version-4 UUID: 36 characters, `-`
/// at positions 8, 13, 18 and 23, the version digit `4` at position 14, the
/// variant digit (`8`, `9`, `a` or `b`) at position 19, and lowercase
/// hexadecimal digits everywhere else.
pub open spec fn is_uuid_v4_text(s: Seq<char>) -> bool {
    &&& s.len() == 36
    &&& forall|i: int| 0 <= i < 36 ==> (#[trigger] s[i] == '-' <==> (i == 8 || i == 13 || i == 18 || i == 23))
    &&& forall|i: int| 0 <= i < 36 && i != 8 && i != 13 && i != 18 && i != 23 ==> is_lower_hex_digit(#[trigger] s[i])
    &&& s[14] == '4'
    &&& (s[19] == '8' || s[19] == '9' || s[19] == 'a' || s[19] == 'b')
}

pub open spec fn is_decimal_digit(c: char) -> bool {
    '0' <= c && c <= '9'
}

/// The layout of an RFC 3339 time in UTC whose year takes `y` characters and
/// whose fraction of a second has `f` digits: the year (four digits, or a
/// sign and at least four digits), `-MM-DD`, `THH:MM:SS`, then `.` and the
/// fraction digits when there are any, then `+00:00`.
pub open spec fn rfc3339_utc_layout(s: Seq<char>, y: int, f: int) -> bool {
    let t = y + 15;
    &&& (f == 0 || f == 3 || f == 6 || f == 9)
    &&& y >= 4
    &&& s.len() == t + (if f == 0 { 0 } else { f + 1 }) + 6
    &&& (y == 4 ==> forall|i: int| 0 <= i < 4 ==> is_decimal_digit(#[trigger] s[i]))
    &&& (y > 4 ==> (s[0] == '+' || s[0] == '-') && forall|i: int| 1 <= i < y ==> is_decimal_digit(#[trigger] s[i]))
    &&& s[y] == '-' && is_decimal_digit(s[y + 1]) && is_decimal_digit(s[y + 2])
    &&& s[y + 3] == '-' && is_decimal_digit(s[y + 4]) && is_decimal_digit(s[y + 5])
    &&& s[y + 6] == 'T' && is_decimal_digit(s[y + 7]) && is_decimal_digit(s[y + 8])
    &&& s[y + 9] == ':' && is_decimal_digit(s[y + 10]) && is_decimal_digit(s[y + 11])
    &&& s[y + 12] == ':' && is_decimal_digit(s[y + 13]) && is_decimal_digit(s[y + 14])
    &&& (f > 0 ==> s[t] == '.' && forall|i: int| t < i <= t + f ==> is_decimal_digit(#[trigger] s[i]))
    &&& s.skip(s.len() - 6) == "+00:00"@
}

/// The RFC 3339 text of a time in UTC as `to_rfc3339` writes it.
pub open spec fn is_rfc3339_utc_text(s: Seq<char>) -> bool {
    exists|y: int, f: int| rfc3339_utc_layout(s, y, f)
}

/// Calls `uuid::Uuid::new_v4` and writes it with `to_string`: a random
/// version-4 UUID in its hyphenated lowercase form.  Which UUID comes out
/// rests on chance; only its form is stated.
#[verifier::external_body]
fn new_uuid_v4_string() -> (r: String)
    ensures
        is_uuid_v4_text(r@),
{
    uuid::Uuid::new_v4().to_string()
}

/// Calls `chrono::Utc::now` and writes it with `to_rfc3339`: the current
/// time in RFC 3339 form (`write_rfc3339` with `SecondsFormat::AutoSi`, so
/// a fraction of 0, 3, 6 or 9 digits), which for UTC ends with the offset
/// `+00:00`.  Which time comes out rests on the clock; only its form is
/// stated.
#[verifier::external_body]
fn utc_now_rfc3339() -> (r: String)
    ensures
        is_rfc3339_utc_text(r@),
{
    chrono::Utc::now().to_rfc3339()
}

/// The record of an image file that the scanner has just found: a fresh
/// random id, its path and size, no hashes yet, and the time it was found.
pub fn discovered_image(path: String, size: u64) -> (r: Image)
    ensures
        is_uuid_v4_text(r.id@),
        r@.path == path@,
        r@.size == size,
        r@.content_hash is None,
        r@.perceptual_hash is None,
        is_rfc3339_utc_text(r@.created_at),
        r@.created_at.len() >= 6,
        r@.created_at.skip(r@.created_at.len() - 6) == "+00:00"@,
{
    Image {
        id: new_uuid_v4_string(),
        path,
        size,
        content_hash: None,
        perceptual_hash: None,
        created_at: utc_now_rfc3339(),
    }
}

// ---------------------------------------------------------------------------
// Batches

/// The number of images a stored batch holds: the configured batch size,
/// or one when it is zero (a batch is stored as soon as it holds at least
/// the batch size).
pub open spec fn effective_batch_size(batch_size: usize) -> nat {
    if batch_size == 0 { 1 } else { batch_size as nat }
}

/// Gathers discovered images into the batches that are stored together.
pub struct ImageBatcher {
    batch_size: usize,
    pending: Vec<Image>,
}

/// The mathematical value of an [`ImageBatcher`].
pub struct BatcherModel {
    pub batch_size: usize,
    pub pending: Seq<ImageModel>,
}

impl View for ImageBatcher {
    type V = BatcherModel;

    closed spec fn view(&self) -> BatcherModel {
        BatcherModel { batch_size: self.batch_size, pending: images_view(self.pending@) }
    }
}

/// What adding an image does: the image joins the pending ones, and when
/// they reach the batch size they all leave as one batch.
pub open spec fn after_push(b: BatcherModel, img: ImageModel) -> (Option<Seq<ImageModel>>, BatcherModel) {
    let p = b.pending.push(img);
    if p.len() >= b.batch_size {
        (Some(p), BatcherModel { pending: Seq::empty(), ..b })
    } else {
        (None, BatcherModel { pending: p, ..b })
    }
}

/// The batches that adding `imgs` one after the other emits, and the state after.
pub open spec fn after_pushes(b: BatcherModel, imgs: Seq<ImageModel>) -> (Seq<Seq<ImageModel>>, BatcherModel)
    decreases imgs.len(),
{
    if imgs.len() == 0 {
        (Seq::empty(), b)
    } else {
        let (before, mid) = after_pushes(b, imgs.drop_last());
        let (out, after) = after_push(mid, imgs.last());
        match out {
            Some(batch) => (before.push(batch), after),
            None => (before, after),
        }
    }
}

pub open spec fn concat_all(batches: Seq<Seq<ImageModel>>) -> Seq<ImageModel>
    decreases batches.len(),
{
    if batches.len() == 0 {
        Seq::empty()
    } else {
        concat_all(batches.drop_last()) + batches.last()
    }
}

impl ImageBatcher {
    /// An empty batcher for batches of `batch_size` images.
    pub fn new(batch_size: usize) -> (r: Self)
        ensures
            r@ == (BatcherModel { batch_size, pending: Seq::empty() }),
    {
        let r = ImageBatcher { batch_size, pending: Vec::new() };
        assert(r@.pending =~= Seq::<ImageModel>::empty());
        r
    }

    /// The images that wait for their batch to fill.
    pub fn pending_len(&self) -> (r: usize)
        ensures
            r == self@.pending.len(),
    {
        self.pending.len()
    }

    /// Adds a discovered image; returns the batch to store when it is full.
    pub fn push(&mut self, image: Image) -> (r: Option<Vec<Image>>)
        ensures
            ({
                let (out, after) = after_push(old(self)@, image@);
                &&& final(self)@ == after
                &&& match out {
                    Some(batch) => r matches Some(v) && images_view(v@) == batch,
                    None => r is None,
                }
            }),
    {
        let ghost before = images_view(self.pending@);
        self.pending.push(image);
        assert(images_view(self.pending@) =~= before.push(image@));
        if self.pending.len() >= self.batch_size {
            let mut batch: Vec<Image> = Vec::new();
            std::mem::swap(&mut batch, &mut self.pending);
            assert(images_view(self.pending@) =~= Seq::<ImageModel>::empty());
            Some(batch)
        } else {
            None
        }
    }

    /// Ends the scan: returns the last, partial batch if any image waits.
    pub fn finish(&mut self) -> (r: Option<Vec<Image>>)
        ensures
            final(self)@ == (BatcherModel { pending: Seq::empty(), ..old(self)@ }),
            old(self)@.pending.len() == 0 ==> r is None,
            old(self)@.pending.len() > 0 ==> (r matches Some(v) && images_view(v@) == old(self)@.pending),
    {
        let mut batch: Vec<Image> = Vec::new();
        std::mem::swap(&mut batch, &mut self.pending);
        assert(images_view(self.pending@) =~= Seq::<ImageModel>::empty());
        if batch.len() > 0 {
            Some(batch)
        } else {
            None
        }
    }
}

/// Batching loses no image and repeats none: the batches emitted while
/// images are added, followed by the images still pending, are the images
/// added, in order.  Starting empty, every emitted batch holds exactly the
/// effective batch size, and fewer are left pending.
pub proof fn lemma_batches_keep_every_image(b: BatcherModel, imgs: Seq<ImageModel>)
    requires
        b.pending.len() < effective_batch_size(b.batch_size),
    ensures
        concat_all(after_pushes(b, imgs).0) + after_pushes(b, imgs).1.pending == b.pending + imgs,
        after_pushes(b, imgs).1.batch_size == b.batch_size,
        after_pushes(b, imgs).1.pending.len() < effective_batch_size(b.batch_size),
        forall|k: int| 0 <= k < after_pushes(b, imgs).0.len() ==>
            (#[trigger] after_pushes(b, imgs).0[k]).len() == effective_batch_size(b.batch_size),
    decreases imgs.len(),
{
    if imgs.len() > 0 {
        let prev = imgs.drop_last();
        lemma_batches_keep_every_image(b, prev);
        let (before, mid) = after_pushes(b, prev);
        let p = mid.pending.push(imgs.last());
        assert(prev.push(imgs.last()) =~= imgs);
        assert(concat_all(before) + mid.pending == b.pending + prev);
        assert(concat_all(before) + p =~= (concat_all(before) + mid.pending).push(imgs.last()));
        assert((b.pending + prev).push(imgs.last()) =~= b.pending + imgs);
        if p.len() >= mid.batch_size {
            assert(before.push(p).drop_last() =~= before);
            assert(concat_all(before.push(p)) =~= concat_all(before) + p);
            assert(concat_all(before.push(p)) + Seq::<ImageModel>::empty() =~= b.pending + imgs);
            assert(before.push(p)[before.len() as int] == p);
            assert forall|k: int| 0 <= k < before.push(p).len() implies
                (#[trigger] before.push(p)[k]).len() == effective_batch_size(b.batch_size) by {
                if k < before.len() {
                    assert(before.push(p)[k] == before[k]);
                }
            }
        } else {
            assert(concat_all(before) + p =~= b.pending + imgs);
        }
    } else {
        assert(concat_all(Seq::<Seq<ImageModel>>::empty()) + b.pending =~= b.pending + imgs);
    }
}

} // verus!
