//! What the web interface shows: the rows of the image list, the content
//! type of a preview, and the duplicate groups as they are listed.

use vstd::prelude::*;
use crate::database::{Image, ImageModel, images_view, groups_view};
use crate::order::{
    ranked_order, ranked_keys, ranked_before, is_permutation, is_ranked_order, utf8, lex_less,
    lemma_lex_asymmetric, lemma_lex_irreflexive, lemma_permutation_covers,
};
use crate::shared_state::{
    DuplicateGroup, DuplicateGroupModel, ImageInfo, ImageInfoModel, duplicate_groups_view,
};

verus! {

/// The characters of a string that may be absent, or none.
pub open spec fn or_empty(o: Option<Seq<char>>) -> Seq<char> {
    match o {
        Some(s) => s,
        None => Seq::empty(),
    }
}

/// A copy of a string that may be absent, or the empty string.
pub fn string_or_empty(o: &Option<String>) -> (r: String)
    ensures
        r@ == or_empty(crate::cli::opt_string_view(*o)),
{
    match o {
        Some(s) => s.clone(),
        None => String::new(),
    }
}

// ---------------------------------------------------------------------------
// The image list

/// One row of the image list.
pub struct ImageRow {
    pub id: String,
    pub path: String,
    pub size: u64,
    pub created_at: String,
    pub content_hash: String,
    pub perceptual_hash: String,
    pub has_hash: bool,
    pub hash_status: String,
}

/// The mathematical value of an [`ImageRow`].
#[verifier::ext_equal]
pub struct ImageRowModel {
    pub id: Seq<char>,
    pub path: Seq<char>,
    pub size: u64,
    pub created_at: Seq<char>,
    pub content_hash: Seq<char>,
    pub perceptual_hash: Seq<char>,
    pub has_hash: bool,
    pub hash_status: Seq<char>,
}

impl View for ImageRow {
    type V = ImageRowModel;

    open spec fn view(&self) -> ImageRowModel {
        ImageRowModel {
            id: self.id@,
            path: self.path@,
            size: self.size,
            created_at: self.created_at@,
            content_hash: self.content_hash@,
            perceptual_hash: self.perceptual_hash@,
            has_hash: self.has_hash,
            hash_status: self.hash_status@,
        }
    }
}

/// The row of an image: hashed when it has a content hash, pending otherwise;
/// a missing hash shows as the empty string.
pub open spec fn image_row_of(i: ImageModel) -> ImageRowModel {
    ImageRowModel {
        id: i.id,
        path: i.path,
        size: i.size,
        created_at: i.created_at,
        content_hash: or_empty(i.content_hash),
        perceptual_hash: or_empty(i.perceptual_hash),
        has_hash: i.content_hash is Some,
        hash_status: if i.content_hash is Some { "Hashed"@ } else { "Pending"@ },
    }
}

/// The row of the image list that shows an image.
pub fn image_row(image: &Image) -> (r: ImageRow)
    ensures
        r@ == image_row_of(image@),
{
    let has_hash = image.content_hash.is_some();
    let r = ImageRow {
        id: image.id.clone(),
        path: image.path.clone(),
        size: image.size,
        created_at: image.created_at.clone(),
        content_hash: string_or_empty(&image.content_hash),
        perceptual_hash: string_or_empty(&image.perceptual_hash),
        has_hash,
        hash_status: if has_hash { "Hashed".to_owned() } else { "Pending".to_owned() },
    };
    assert(r@ =~= image_row_of(image@));
    r
}

/// The views of the rows of an image list.
pub open spec fn image_rows_view(v: Seq<ImageRow>) -> Seq<ImageRowModel> {
    v.map_values(|r: ImageRow| r@)
}

/// The rows of the image list, one per image, in the order of the images.
pub fn image_rows(images: &Vec<Image>) -> (r: Vec<ImageRow>)
    ensures
        image_rows_view(r@) == images_view(images@).map_values(|i: ImageModel| image_row_of(i)),
{
    let mut rows: Vec<ImageRow> = Vec::new();
    let mut i: usize = 0;
    while i < images.len()
        invariant
            i <= images@.len(),
            image_rows_view(rows@) =~= images_view(images@.take(i as int)).map_values(|m: ImageModel| image_row_of(m)),
        decreases images.len() - i,
    {
        let ghost before = rows@;
        rows.push(image_row(&images[i]));
        assert(images@.take(i + 1) =~= images@.take(i as int).push(images@[i as int]));
        assert(image_rows_view(rows@) =~= image_rows_view(before).push(image_row_of(images@[i as int]@)));
        i = i + 1;
    }
    assert(images@.take(i as int) =~= images@);
    rows
}

// ---------------------------------------------------------------------------
// Content types

pub open spec fn ascii_lower_char(c: char) -> char {
    if 'A' <= c && c <= 'Z' {
        ((c as u32) + 32) as char
    } else {
        c
    }
}

/// The string with its ASCII capitals made small.
pub open spec fn ascii_lower(s: Seq<char>) -> Seq<char> {
    s.map_values(|c: char| ascii_lower_char(c))
}

/// The characters after the last `.` of a string; all of it when it has none.
pub open spec fn after_last_dot(s: Seq<char>) -> Seq<char>
    decreases s.len(),
{
    if s.len() == 0 {
        s
    } else if s.last() == '.' {
        Seq::empty()
    } else {
        after_last_dot(s.drop_last()).push(s.last())
    }
}

/// The content type of an image file, by the extension of its path,
/// whatever the case of its letters.
pub open spec fn content_type_of(path: Seq<char>) -> Seq<char> {
    let e = ascii_lower(after_last_dot(path));
    if e == "jpg"@ || e == "jpeg"@ {
        "image/jpeg"@
    } else if e == "png"@ {
        "image/png"@
    } else if e == "gif"@ {
        "image/gif"@
    } else if e == "webp"@ {
        "image/webp"@
    } else if e == "bmp"@ {
        "image/bmp"@
    } else if e == "tiff"@ || e == "tif"@ {
        "image/tiff"@
    } else {
        "application/octet-stream"@
    }
}

/// Lowering ASCII capitals changes each capital `A`–`Z` into its small
/// letter (32 code points further) and leaves every other character as it is.
pub proof fn lemma_ascii_lower_chars(s: Seq<char>)
    ensures
        ascii_lower(s).len() == s.len(),
        forall|i: int| 0 <= i < s.len() ==> (#[trigger] ascii_lower(s)[i]) == (if 'A' <= s[i] && s[i] <= 'Z' {
            ((s[i] as u32) + 32) as char
        } else {
            s[i]
        }),
{
}

/// Lowering twice is lowering once.
pub proof fn lemma_ascii_lower_idempotent(s: Seq<char>)
    ensures
        ascii_lower(ascii_lower(s)) == ascii_lower(s),
{
    assert forall|i: int| 0 <= i < s.len() implies #[trigger] ascii_lower(ascii_lower(s))[i] == ascii_lower(s)[i] by {
        let c = s[i];
        if 'A' <= c && c <= 'Z' {
            assert(((c as u32) + 32) as char >= 'a');
        }
    }
    assert(ascii_lower(ascii_lower(s)) =~= ascii_lower(s));
}

/// A character is a `.` exactly when its lowered form is.
pub proof fn lemma_lower_keeps_dots(c: char)
    ensures
        (ascii_lower_char(c) == '.') == (c == '.'),
{
}

/// Lowering commutes with dropping the last character.
pub proof fn lemma_ascii_lower_drop_last(s: Seq<char>)
    requires
        s.len() > 0,
    ensures
        ascii_lower(s).drop_last() == ascii_lower(s.drop_last()),
        ascii_lower(s).last() == ascii_lower_char(s.last()),
{
    assert(ascii_lower(s).drop_last() =~= ascii_lower(s.drop_last()));
}

/// The part after the last `.` of a lowered string is the lowered part
/// after the last `.`.
pub proof fn lemma_after_last_dot_lowered(s: Seq<char>)
    ensures
        after_last_dot(ascii_lower(s)) == ascii_lower(after_last_dot(s)),
    decreases s.len(),
{
    if s.len() == 0 {
        assert(ascii_lower(s) =~= s);
    } else {
        lemma_ascii_lower_drop_last(s);
        lemma_lower_keeps_dots(s.last());
        if s.last() == '.' {
            assert(ascii_lower(Seq::<char>::empty()) =~= Seq::<char>::empty());
        } else {
            lemma_after_last_dot_lowered(s.drop_last());
            assert(ascii_lower(after_last_dot(s.drop_last()).push(s.last()))
                =~= ascii_lower(after_last_dot(s.drop_last())).push(ascii_lower_char(s.last())));
        }
    }
}

/// The content type does not depend on the case of the letters of a path:
/// a path gets the same type as the path with its ASCII capitals made small,
/// and two paths whose extensions agree up to case get the same type.
pub proof fn lemma_content_type_ignores_case(p: Seq<char>, q: Seq<char>)
    ensures
        content_type_of(p) == content_type_of(ascii_lower(p)),
        ascii_lower(after_last_dot(p)) == ascii_lower(after_last_dot(q)) ==> content_type_of(p) == content_type_of(q),
{
    lemma_after_last_dot_lowered(p);
    lemma_ascii_lower_idempotent(after_last_dot(p));
}

/// The content type of each image extension, in any case of its letters;
/// any other extension, or none, is served as `application/octet-stream`.
pub proof fn lemma_content_type_by_extension(p: Seq<char>)
    ensures
        ({
            let e = ascii_lower(after_last_dot(p));
            &&& (e == "jpg"@ || e == "jpeg"@) ==> content_type_of(p) == "image/jpeg"@
            &&& e == "png"@ ==> content_type_of(p) == "image/png"@
            &&& e == "gif"@ ==> content_type_of(p) == "image/gif"@
            &&& e == "webp"@ ==> content_type_of(p) == "image/webp"@
            &&& e == "bmp"@ ==> content_type_of(p) == "image/bmp"@
            &&& (e == "tiff"@ || e == "tif"@) ==> content_type_of(p) == "image/tiff"@
            &&& !(e == "jpg"@ || e == "jpeg"@ || e == "png"@ || e == "gif"@ || e == "webp"@ || e == "bmp"@
                || e == "tiff"@ || e == "tif"@) ==> content_type_of(p) == "application/octet-stream"@
        }),
{
    reveal_strlit("jpg");
    reveal_strlit("jpeg");
    reveal_strlit("png");
    reveal_strlit("gif");
    reveal_strlit("webp");
    reveal_strlit("bmp");
    reveal_strlit("tiff");
    reveal_strlit("tif");
    let names = seq!["jpg"@, "jpeg"@, "png"@, "gif"@, "webp"@, "bmp"@, "tiff"@, "tif"@];
    assert forall|i: int, j: int| 0 <= i < j < 8 implies names[i] != names[j] by {
        if names[i].len() == names[j].len() {
            assert(names[i][0] != names[j][0]);
        }
    }
    assert("jpg"@ != "png"@ && "jpeg"@ != "png"@);
}

fn lower_char(c: char) -> (r: char)
    ensures
        r == ascii_lower_char(c),
{
    if 'A' <= c && c <= 'Z' {
        let b = c as u8;
        (b + 32) as char
    } else {
        c
    }
}

/// Whether `s` with its ASCII capitals made small is `lower`.
pub fn ascii_lower_eq(s: &str, lower: &str) -> (r: bool)
    ensures
        r == (ascii_lower(s@) == lower@),
{
    let n = s.unicode_len();
    if n != lower.unicode_len() {
        return false;
    }
    let mut i: usize = 0;
    while i < n
        invariant
            n == s@.len(),
            n == lower@.len(),
            i <= n,
            forall|j: int| 0 <= j < i ==> ascii_lower_char(s@[j]) == lower@[j],
        decreases n - i,
    {
        if lower_char(s.get_char(i)) != lower.get_char(i) {
            assert(ascii_lower(s@)[i as int] != lower@[i as int]);
            return false;
        }
        i = i + 1;
    }
    assert(ascii_lower(s@) =~= lower@);
    true
}

/// The part of a string after its last `.`.
pub fn after_last_dot_of(s: &str) -> (r: &str)
    ensures
        r@ == after_last_dot(s@),
{
    let n = s.unicode_len();
    let mut start: usize = 0;
    let mut i: usize = 0;
    while i < n
        invariant
            n == s@.len(),
            start <= i <= n,
            after_last_dot(s@.take(i as int)) == s@.subrange(start as int, i as int),
        decreases n - i,
    {
        let ghost t = s@.take(i + 1);
        assert(t.drop_last() =~= s@.take(i as int));
        if s.get_char(i) == '.' {
            start = i + 1;
            assert(after_last_dot(t) =~= s@.subrange(start as int, i + 1));
        } else {
            assert(after_last_dot(t) =~= s@.subrange(start as int, i + 1));
        }
        i = i + 1;
    }
    assert(s@.take(n as int) =~= s@);
    s.substring_char(start, n)
}

/// The content type of an image file, by the extension of its path.
pub fn image_content_type(path: &str) -> (r: &'static str)
    ensures
        r@ == content_type_of(path@),
{
    let e = after_last_dot_of(path);
    if ascii_lower_eq(e, "jpg") || ascii_lower_eq(e, "jpeg") {
        "image/jpeg"
    } else if ascii_lower_eq(e, "png") {
        "image/png"
    } else if ascii_lower_eq(e, "gif") {
        "image/gif"
    } else if ascii_lower_eq(e, "webp") {
        "image/webp"
    } else if ascii_lower_eq(e, "bmp") {
        "image/bmp"
    } else if ascii_lower_eq(e, "tiff") || ascii_lower_eq(e, "tif") {
        "image/tiff"
    } else {
        "application/octet-stream"
    }
}

// ---------------------------------------------------------------------------
// Duplicate groups

/// One image of a duplicate group as the web interface lists it.
pub struct GroupImageRow {
    pub id: String,
    pub path: String,
    pub size: u64,
    pub content_hash: String,
    pub perceptual_hash: String,
    pub preview_url: String,
}

/// The mathematical value of a [`GroupImageRow`].
#[verifier::ext_equal]
pub struct GroupImageRowModel {
    pub id: Seq<char>,
    pub path: Seq<char>,
    pub size: u64,
    pub content_hash: Seq<char>,
    pub perceptual_hash: Seq<char>,
    pub preview_url: Seq<char>,
}

impl View for GroupImageRow {
    type V = GroupImageRowModel;

    open spec fn view(&self) -> GroupImageRowModel {
        GroupImageRowModel {
            id: self.id@,
            path: self.path@,
            size: self.size,
            content_hash: self.content_hash@,
            perceptual_hash: self.perceptual_hash@,
            preview_url: self.preview_url@,
        }
    }
}

/// A duplicate group as the web interface lists it.
pub struct DuplicateGroupRow {
    pub group_key: String,
    pub group_type: String,
    pub image_count: usize,
    pub images: Vec<GroupImageRow>,
}

/// The mathematical value of a [`DuplicateGroupRow`].
#[verifier::ext_equal]
pub struct DuplicateGroupRowModel {
    pub group_key: Seq<char>,
    pub group_type: Seq<char>,
    pub image_count: usize,
    pub images: Seq<GroupImageRowModel>,
}

impl View for DuplicateGroupRow {
    type V = DuplicateGroupRowModel;

    open spec fn view(&self) -> DuplicateGroupRowModel {
        DuplicateGroupRowModel {
            group_key: self.group_key@,
            group_type: self.group_type@,
            image_count: self.image_count,
            images: self.images@.map_values(|r: GroupImageRow| r@),
        }
    }
}

/// The views of a list of duplicate group rows.
pub open spec fn group_rows_view(v: Seq<DuplicateGroupRow>) -> Seq<DuplicateGroupRowModel> {
    v.map_values(|r: DuplicateGroupRow| r@)
}

/// How an image of a group is listed: its preview is served under `/api/image/<id>`.
pub open spec fn group_image_row_of(i: ImageModel) -> GroupImageRowModel {
    GroupImageRowModel {
        id: i.id,
        path: i.path,
        size: i.size,
        content_hash: or_empty(i.content_hash),
        perceptual_hash: or_empty(i.perceptual_hash),
        preview_url: "/api/image/"@ + i.id,
    }
}

/// What the shared state records of an image of a group.
pub open spec fn image_info_of(i: ImageModel) -> ImageInfoModel {
    ImageInfoModel {
        id: i.id,
        path: i.path,
        size: i.size,
        content_hash: or_empty(i.content_hash),
        perceptual_hash: or_empty(i.perceptual_hash),
    }
}

/// The first perceptual hash among the images, or the empty string.
pub open spec fn first_perceptual_hash(images: Seq<ImageModel>) -> Seq<char>
    decreases images.len(),
{
    if images.len() == 0 {
        Seq::empty()
    } else {
        match images[0].perceptual_hash {
            Some(p) => p,
            None => first_perceptual_hash(images.drop_first()),
        }
    }
}

/// The keys by which images are ordered: their paths, compared as strings.
pub open spec fn path_keys(images: Seq<ImageModel>) -> Seq<(usize, Seq<u8>)> {
    images.map_values(|i: ImageModel| (0usize, utf8(i.path)))
}

/// `sorted` is `images` sorted by path by a stable sort: the images with
/// equal paths keep their order.
pub open spec fn sorted_by_path(images: Seq<ImageModel>, sorted: Seq<ImageModel>) -> bool {
    exists|p: Seq<usize>|
        {
            &&& is_permutation(p, images.len())
            &&& is_ranked_order(path_keys(images), p)
            &&& sorted == p.map_values(|k: usize| images[k as int])
        }
}

/// The group that the shared state records, of a hash and its images sorted by path.
pub open spec fn state_group_of(hash: Seq<char>, sorted: Seq<ImageModel>) -> DuplicateGroupModel {
    DuplicateGroupModel {
        hash,
        perceptual_hash: first_perceptual_hash(sorted),
        images: sorted.map_values(|i: ImageModel| image_info_of(i)),
    }
}

/// The row of a group of the kind `kind`, of its key and its images sorted by path.
pub open spec fn group_row_of(kind: Seq<char>, hash: Seq<char>, sorted: Seq<ImageModel>) -> DuplicateGroupRowModel {
    DuplicateGroupRowModel {
        group_key: hash,
        group_type: kind,
        image_count: sorted.len() as usize,
        images: sorted.map_values(|i: ImageModel| group_image_row_of(i)),
    }
}

/// The keys by which groups are listed: more images first, then by hash.
pub open spec fn group_keys(groups: Seq<(Seq<char>, Seq<ImageModel>)>) -> Seq<(usize, Seq<u8>)> {
    groups.map_values(|g: (Seq<char>, Seq<ImageModel>)| (g.1.len() as usize, utf8(g.0)))
}

/// `rows` and `states` are built from `groups`: each group's images sorted
/// by path (`sorted`), the state groups in the order of the groups, and the
/// rows in the order `order` of a stable sort by image count (descending)
/// and then by hash (ascending).
pub open spec fn duplicate_views_built(
    groups: Seq<(Seq<char>, Seq<ImageModel>)>,
    kind: Seq<char>,
    sorted: Seq<Seq<ImageModel>>,
    order: Seq<usize>,
    rows: Seq<DuplicateGroupRowModel>,
    states: Seq<DuplicateGroupModel>,
) -> bool {
    &&& sorted.len() == groups.len()
    &&& forall|i: int| 0 <= i < groups.len() ==> #[trigger] sorted_by_path(groups[i].1, sorted[i])
    &&& states == Seq::new(groups.len(), |i: int| state_group_of(groups[i].0, sorted[i]))
    &&& is_permutation(order, groups.len())
    &&& is_ranked_order(group_keys(groups), order)
    &&& rows == Seq::new(groups.len(), |k: int| group_row_of(kind, groups[order[k] as int].0, sorted[order[k] as int]))
}

/// `rows` and `states` are the listing of `groups`, each row of the kind `kind`.
pub open spec fn group_rows_built(
    groups: Seq<(Seq<char>, Seq<ImageModel>)>,
    kind: Seq<char>,
    rows: Seq<DuplicateGroupRowModel>,
    states: Seq<DuplicateGroupModel>,
) -> bool {
    exists|sorted: Seq<Seq<ImageModel>>, order: Seq<usize>| duplicate_views_built(groups, kind, sorted, order, rows, states)
}

/// The kind of the groups of images with the same content.
pub open spec fn exact_kind() -> Seq<char> {
    "Exact Match"@
}

/// The kind of the groups of perceptually similar images.
pub open spec fn similar_kind() -> Seq<char> {
    "Perceptual Match"@
}

/// What [`build_duplicate_group_rows`] returns for `groups`.
pub open spec fn duplicate_rows_of(
    groups: Seq<(Seq<char>, Seq<ImageModel>)>,
    rows: Seq<DuplicateGroupRowModel>,
    states: Seq<DuplicateGroupModel>,
) -> bool {
    group_rows_built(groups, exact_kind(), rows, states)
}

/// What [`build_similar_group_rows`] returns for `groups`.
pub open spec fn similar_rows_of(
    groups: Seq<(Seq<char>, Seq<ImageModel>)>,
    rows: Seq<DuplicateGroupRowModel>,
    states: Seq<DuplicateGroupModel>,
) -> bool {
    group_rows_built(groups, similar_kind(), rows, states)
}

/// The images sorted by path, by a stable sort.
pub fn sort_images_by_path(images: &Vec<Image>) -> (r: Vec<Image>)
    ensures
        sorted_by_path(images_view(images@), images_view(r@)),
{
    let ghost imgs = images_view(images@);
    let mut keys: Vec<(usize, Vec<u8>)> = Vec::new();
    let mut i: usize = 0;
    while i < images.len()
        invariant
            i <= images@.len(),
            imgs == images_view(images@),
            ranked_keys(keys@) =~= path_keys(imgs).take(i as int),
        decreases images.len() - i,
    {
        let ghost before = keys@;
        keys.push((0, images[i].path.as_str().as_bytes_vec()));
        assert(ranked_keys(keys@) =~= ranked_keys(before).push((0usize, utf8(imgs[i as int].path))));
        i = i + 1;
    }
    assert(ranked_keys(keys@) =~= path_keys(imgs));
    let p = ranked_order(&keys);
    let mut r: Vec<Image> = Vec::new();
    let mut k: usize = 0;
    while k < p.len()
        invariant
            k <= p@.len(),
            is_permutation(p@, images@.len()),
            imgs == images_view(images@),
            images_view(r@) =~= p@.take(k as int).map_values(|j: usize| imgs[j as int]),
        decreases p.len() - k,
    {
        let ghost before = r@;
        r.push(images[p[k]].clone());
        assert(p@.take(k + 1) =~= p@.take(k as int).push(p@[k as int]));
        assert(images_view(r@) =~= images_view(before).push(imgs[p@[k as int] as int]));
        k = k + 1;
    }
    assert(p@.take(k as int) =~= p@);
    assert(sorted_by_path(imgs, images_view(r@)));
    r
}

/// The first perceptual hash among the images, or the empty string.
fn first_perceptual_hash_exec(images: &Vec<Image>) -> (r: String)
    ensures
        r@ == first_perceptual_hash(images_view(images@)),
{
    let mut i: usize = 0;
    assert(images_view(images@).skip(0) =~= images_view(images@));
    while i < images.len()
        invariant
            i <= images@.len(),
            first_perceptual_hash(images_view(images@)) == first_perceptual_hash(images_view(images@).skip(i as int)),
        decreases images.len() - i,
    {
        let ghost rest = images_view(images@).skip(i as int);
        assert(rest[0] == images@[i as int]@);
        assert(rest.drop_first() =~= images_view(images@).skip(i + 1));
        match &images[i].perceptual_hash {
            Some(p) => {
                return p.clone();
            },
            None => {},
        }
        i = i + 1;
    }
    String::new()
}

fn group_image_row(i: &Image) -> (r: GroupImageRow)
    ensures
        r@ == group_image_row_of(i@),
{
    let mut preview_url = "/api/image/".to_owned();
    preview_url.append(i.id.as_str());
    let r = GroupImageRow {
        id: i.id.clone(),
        path: i.path.clone(),
        size: i.size,
        content_hash: string_or_empty(&i.content_hash),
        perceptual_hash: string_or_empty(&i.perceptual_hash),
        preview_url,
    };
    assert(r@ =~= group_image_row_of(i@));
    r
}

fn image_info(i: &Image) -> (r: ImageInfo)
    ensures
        r@ == image_info_of(i@),
{
    let r = ImageInfo {
        id: i.id.clone(),
        path: i.path.clone(),
        size: i.size,
        content_hash: string_or_empty(&i.content_hash),
        perceptual_hash: string_or_empty(&i.perceptual_hash),
    };
    assert(r@ =~= image_info_of(i@));
    r
}

fn state_group(hash: &String, sorted: &Vec<Image>) -> (r: DuplicateGroup)
    ensures
        r@ == state_group_of(hash@, images_view(sorted@)),
{
    let mut infos: Vec<ImageInfo> = Vec::new();
    let mut i: usize = 0;
    while i < sorted.len()
        invariant
            i <= sorted@.len(),
            infos@.map_values(|x: ImageInfo| x@) =~= images_view(sorted@).take(i as int).map_values(|m: ImageModel| image_info_of(m)),
        decreases sorted.len() - i,
    {
        let ghost before = infos@;
        infos.push(image_info(&sorted[i]));
        assert(images_view(sorted@).take(i + 1) =~= images_view(sorted@).take(i as int).push(sorted@[i as int]@));
        assert(infos@.map_values(|x: ImageInfo| x@) =~= before.map_values(|x: ImageInfo| x@).push(image_info_of(sorted@[i as int]@)));
        i = i + 1;
    }
    assert(images_view(sorted@).take(i as int) =~= images_view(sorted@));
    let r = DuplicateGroup {
        hash: hash.clone(),
        perceptual_hash: first_perceptual_hash_exec(sorted),
        images: infos,
    };
    assert(r@ =~= state_group_of(hash@, images_view(sorted@)));
    r
}

fn group_row(kind: &str, hash: &String, sorted: &Vec<Image>) -> (r: DuplicateGroupRow)
    ensures
        r@ == group_row_of(kind@, hash@, images_view(sorted@)),
{
    let mut rows: Vec<GroupImageRow> = Vec::new();
    let mut i: usize = 0;
    while i < sorted.len()
        invariant
            i <= sorted@.len(),
            rows@.map_values(|x: GroupImageRow| x@) =~= images_view(sorted@).take(i as int).map_values(|m: ImageModel| group_image_row_of(m)),
        decreases sorted.len() - i,
    {
        let ghost before = rows@;
        rows.push(group_image_row(&sorted[i]));
        assert(images_view(sorted@).take(i + 1) =~= images_view(sorted@).take(i as int).push(sorted@[i as int]@));
        assert(rows@.map_values(|x: GroupImageRow| x@) =~= before.map_values(|x: GroupImageRow| x@).push(group_image_row_of(sorted@[i as int]@)));
        i = i + 1;
    }
    assert(images_view(sorted@).take(i as int) =~= images_view(sorted@));
    let r = DuplicateGroupRow {
        group_key: hash.clone(),
        group_type: kind.to_owned(),
        image_count: sorted.len(),
        images: rows,
    };
    assert(r@ =~= group_row_of(kind@, hash@, images_view(sorted@)));
    r
}

/// Builds the groups that the web interface lists and that the shared
/// state records, each row of the kind `kind`.  Each group's images are
/// sorted by path (stably); the state groups keep the order of `groups`; the
/// rows are listed with the largest groups first and, among groups of one
/// size, by key (stably).  A group's perceptual hash is the first one among
/// its sorted images, or the empty string.
fn build_group_rows(groups: Vec<(String, Vec<Image>)>, kind: &str) -> (r: (Vec<DuplicateGroupRow>, Vec<DuplicateGroup>))
    ensures
        group_rows_built(groups_view(groups@), kind@, group_rows_view(r.0@), duplicate_groups_view(r.1@)),
{
    let ghost gs = groups_view(groups@);
    let n = groups.len();
    let mut sorted: Vec<Vec<Image>> = Vec::new();
    let mut states: Vec<DuplicateGroup> = Vec::new();
    let mut keys: Vec<(usize, Vec<u8>)> = Vec::new();
    let mut i: usize = 0;
    while i < n
        invariant
            n == groups@.len(),
            gs == groups_view(groups@),
            i <= n,
            sorted@.len() == i,
            forall|j: int| 0 <= j < i ==> #[trigger] sorted_by_path(gs[j].1, images_view(sorted@[j]@)),
            duplicate_groups_view(states@) =~= Seq::new(i as nat, |j: int| state_group_of(gs[j].0, images_view(sorted@[j]@))),
            ranked_keys(keys@) =~= group_keys(gs).take(i as int),
        decreases n - i,
    {
        let s = sort_images_by_path(&groups[i].1);
        proof {
            let p = choose|p: Seq<usize>| {
                &&& is_permutation(p, gs[i as int].1.len())
                &&& is_ranked_order(path_keys(gs[i as int].1), p)
                &&& images_view(s@) == p.map_values(|k: usize| gs[i as int].1[k as int])
            };
            assert(images_view(s@).len() == gs[i as int].1.len());
        }
        let ghost before_states = states@;
        let ghost before_keys = keys@;
        let ghost before_sorted = sorted@;
        states.push(state_group(&groups[i].0, &s));
        keys.push((s.len(), groups[i].0.as_str().as_bytes_vec()));
        sorted.push(s);
        proof {
            assert(forall|j: int| 0 <= j < i ==> sorted@[j] == before_sorted[j]);
            assert(ranked_keys(keys@) =~= ranked_keys(before_keys).push((gs[i as int].1.len() as usize, utf8(gs[i as int].0))));
            assert(group_keys(gs).take(i + 1) =~= group_keys(gs).take(i as int).push(group_keys(gs)[i as int]));
            assert(duplicate_groups_view(states@) =~= duplicate_groups_view(before_states).push(state_group_of(gs[i as int].0, images_view(sorted@[i as int]@))));
        }
        i = i + 1;
    }
    assert(ranked_keys(keys@) =~= group_keys(gs));
    let order = ranked_order(&keys);
    let mut rows: Vec<DuplicateGroupRow> = Vec::new();
    let mut k: usize = 0;
    while k < n
        invariant
            n == groups@.len(),
            gs == groups_view(groups@),
            k <= n,
            sorted@.len() == n,
            is_permutation(order@, n as nat),
            is_ranked_order(group_keys(gs), order@),
            forall|j: int| 0 <= j < n ==> #[trigger] sorted_by_path(gs[j].1, images_view(sorted@[j]@)),
            duplicate_groups_view(states@) =~= Seq::new(n as nat, |j: int| state_group_of(gs[j].0, images_view(sorted@[j]@))),
            group_rows_view(rows@) =~= Seq::new(k as nat, |q: int| group_row_of(kind@, gs[order@[q] as int].0, images_view(sorted@[order@[q] as int]@))),
        decreases n - k,
    {
        let g = order[k];
        let ghost before = rows@;
        rows.push(group_row(kind, &groups[g].0, &sorted[g]));
        assert(group_rows_view(rows@) =~= group_rows_view(before).push(group_row_of(kind@, gs[order@[k as int] as int].0, images_view(sorted@[order@[k as int] as int]@))));
        k = k + 1;
    }
    let ghost sorted_views = Seq::new(n as nat, |j: int| images_view(sorted@[j]@));
    assert(forall|j: int| 0 <= j < n ==> #[trigger] sorted_by_path(gs[j].1, sorted_views[j]));
    assert(duplicate_groups_view(states@) =~= Seq::new(n as nat, |j: int| state_group_of(gs[j].0, sorted_views[j])));
    assert(group_rows_view(rows@) =~= Seq::new(n as nat, |q: int| group_row_of(kind@, gs[order@[q] as int].0, sorted_views[order@[q] as int])));
    assert(duplicate_views_built(gs, kind@, sorted_views, order@, group_rows_view(rows@), duplicate_groups_view(states@)));
    (rows, states)
}

/// Builds the groups of images with the same content: listed as "Exact
/// Match", keyed by their content hash, as [`build_group_rows`] orders them.
pub fn build_duplicate_group_rows(groups: Vec<(String, Vec<Image>)>) -> (r: (Vec<DuplicateGroupRow>, Vec<DuplicateGroup>))
    ensures
        duplicate_rows_of(groups_view(groups@), group_rows_view(r.0@), duplicate_groups_view(r.1@)),
{
    build_group_rows(groups, "Exact Match")
}

/// Builds the groups of perceptually similar images: listed as "Perceptual
/// Match", keyed by their perceptual hash, as [`build_group_rows`] orders them.
pub fn build_similar_group_rows(groups: Vec<(String, Vec<Image>)>) -> (r: (Vec<DuplicateGroupRow>, Vec<DuplicateGroup>))
    ensures
        similar_rows_of(groups_view(groups@), group_rows_view(r.0@), duplicate_groups_view(r.1@)),
{
    build_group_rows(groups, "Perceptual Match")
}

/// Builds the whole listing of the grouper: the groups of images with the
/// same content, then the groups of perceptually similar images.
pub fn build_all_group_rows(
    exact: Vec<(String, Vec<Image>)>,
    similar: Vec<(String, Vec<Image>)>,
) -> (r: (Vec<DuplicateGroupRow>, Vec<DuplicateGroup>))
    ensures
        exists|rows_e: Seq<DuplicateGroupRowModel>, states_e: Seq<DuplicateGroupModel>,
               rows_s: Seq<DuplicateGroupRowModel>, states_s: Seq<DuplicateGroupModel>|
        {
            &&& duplicate_rows_of(groups_view(exact@), rows_e, states_e)
            &&& similar_rows_of(groups_view(similar@), rows_s, states_s)
            &&& group_rows_view(r.0@) == rows_e + rows_s
            &&& duplicate_groups_view(r.1@) == states_e + states_s
        },
{
    let (mut rows, mut states) = build_duplicate_group_rows(exact);
    let ghost rows_e = group_rows_view(rows@);
    let ghost states_e = duplicate_groups_view(states@);
    let ghost rows_ev = rows@;
    let ghost states_ev = states@;
    let (mut rows_s, mut states_s) = build_similar_group_rows(similar);
    let ghost rows_sv = rows_s@;
    let ghost states_sv = states_s@;
    rows.append(&mut rows_s);
    states.append(&mut states_s);
    assert(group_rows_view(rows@) =~= rows_e + group_rows_view(rows_sv));
    assert(duplicate_groups_view(states@) =~= states_e + duplicate_groups_view(states_sv));
    (rows, states)
}

proof fn lemma_sorted_same_length(images: Seq<ImageModel>, sorted: Seq<ImageModel>)
    requires
        sorted_by_path(images, sorted),
    ensures
        sorted.len() == images.len(),
{
    let p = choose|p: Seq<usize>| {
        &&& is_permutation(p, images.len())
        &&& is_ranked_order(path_keys(images), p)
        &&& sorted == p.map_values(|k: usize| images[k as int])
    };
}

/// The groups are listed with the largest first, and groups of one size by
/// their key; each row counts the images of its group and has the kind of
/// the listing.
pub proof fn lemma_rows_largest_first(
    groups: Seq<(Seq<char>, Seq<ImageModel>)>,
    kind: Seq<char>,
    rows: Seq<DuplicateGroupRowModel>,
    states: Seq<DuplicateGroupModel>,
)
    requires
        group_rows_built(groups, kind, rows, states),
        forall|i: int| 0 <= i < groups.len() ==> (#[trigger] groups[i]).1.len() <= usize::MAX,
    ensures
        rows.len() == groups.len(),
        states.len() == groups.len(),
        forall|k: int| 0 <= k < rows.len() ==> (#[trigger] rows[k]).image_count == rows[k].images.len(),
        forall|k: int| 0 <= k < rows.len() ==> (#[trigger] rows[k]).group_type == kind,
        forall|k: int, l: int| 0 <= k < l < rows.len() ==> {
            &&& (#[trigger] rows[k]).image_count >= (#[trigger] rows[l]).image_count
            &&& rows[k].image_count == rows[l].image_count ==> !lex_less(utf8(rows[l].group_key), utf8(rows[k].group_key))
        },
{
    let (sorted, order) = choose|sorted: Seq<Seq<ImageModel>>, order: Seq<usize>|
        duplicate_views_built(groups, kind, sorted, order, rows, states);
    assert forall|i: int| 0 <= i < groups.len() implies #[trigger] sorted[i].len() == groups[i].1.len() by {
        lemma_sorted_same_length(groups[i].1, sorted[i]);
    }
    assert forall|k: int| 0 <= k < rows.len() implies (#[trigger] rows[k]).image_count == rows[k].images.len() by {
        assert(sorted[order[k] as int].len() == groups[order[k] as int].1.len());
        assert(groups[order[k] as int].1.len() <= usize::MAX);
    }
    assert forall|k: int, l: int| 0 <= k < l < rows.len() implies {
        &&& (#[trigger] rows[k]).image_count >= (#[trigger] rows[l]).image_count
        &&& rows[k].image_count == rows[l].image_count ==> !lex_less(utf8(rows[l].group_key), utf8(rows[k].group_key))
    } by {
        let a = order[k] as int;
        let b = order[l] as int;
        assert(sorted[a].len() == groups[a].1.len());
        assert(sorted[b].len() == groups[b].1.len());
        assert(ranked_before(group_keys(groups)[a], a, group_keys(groups)[b], b));
        if lex_less(utf8(groups[a].0), utf8(groups[b].0)) {
            lemma_lex_asymmetric(utf8(groups[a].0), utf8(groups[b].0));
        }
        if utf8(groups[a].0) == utf8(groups[b].0) {
            lemma_lex_irreflexive(utf8(groups[a].0));
        }
    }
}

/// Within each listed group, and each recorded group, the images come in
/// the order of their paths.
pub proof fn lemma_group_images_by_path(
    groups: Seq<(Seq<char>, Seq<ImageModel>)>,
    kind: Seq<char>,
    rows: Seq<DuplicateGroupRowModel>,
    states: Seq<DuplicateGroupModel>,
)
    requires
        group_rows_built(groups, kind, rows, states),
    ensures
        forall|k: int, a: int, b: int| 0 <= k < rows.len() && 0 <= a < b < rows[k].images.len() ==>
            !lex_less(utf8((#[trigger] rows[k].images[b]).path), utf8((#[trigger] rows[k].images[a]).path)),
        forall|i: int, a: int, b: int| 0 <= i < states.len() && 0 <= a < b < states[i].images.len() ==>
            !lex_less(utf8((#[trigger] states[i].images[b]).path), utf8((#[trigger] states[i].images[a]).path)),
{
    let (sorted, order) = choose|sorted: Seq<Seq<ImageModel>>, order: Seq<usize>|
        duplicate_views_built(groups, kind, sorted, order, rows, states);
    assert forall|i: int, a: int, b: int| 0 <= i < groups.len() && 0 <= a < b < sorted[i].len() implies
        !lex_less(utf8(sorted[i][b].path), utf8(sorted[i][a].path)) by {
        assert(sorted_by_path(groups[i].1, sorted[i]));
        let p = choose|p: Seq<usize>| {
            &&& is_permutation(p, groups[i].1.len())
            &&& is_ranked_order(path_keys(groups[i].1), p)
            &&& sorted[i] == p.map_values(|q: usize| groups[i].1[q as int])
        };
        assert(ranked_before(path_keys(groups[i].1)[p[a] as int], p[a] as int, path_keys(groups[i].1)[p[b] as int], p[b] as int));
        let x = utf8(sorted[i][a].path);
        let y = utf8(sorted[i][b].path);
        if lex_less(x, y) {
            lemma_lex_asymmetric(x, y);
        } else {
            lemma_lex_irreflexive(x);
        }
    }
    assert forall|k: int, a: int, b: int| 0 <= k < rows.len() && 0 <= a < b < rows[k].images.len() implies
        !lex_less(utf8((#[trigger] rows[k].images[b]).path), utf8((#[trigger] rows[k].images[a]).path)) by {
        let g = order[k] as int;
        assert(rows[k].images[a].path == sorted[g][a].path);
        assert(rows[k].images[b].path == sorted[g][b].path);
    }
    assert forall|i: int, a: int, b: int| 0 <= i < states.len() && 0 <= a < b < states[i].images.len() implies
        !lex_less(utf8((#[trigger] states[i].images[b]).path), utf8((#[trigger] states[i].images[a]).path)) by {
        assert(states[i].images[a].path == sorted[i][a].path);
        assert(states[i].images[b].path == sorted[i][b].path);
    }
}

/// Every group is listed exactly once, with the images of that group.
pub proof fn lemma_every_group_listed_once(
    groups: Seq<(Seq<char>, Seq<ImageModel>)>,
    kind: Seq<char>,
    rows: Seq<DuplicateGroupRowModel>,
    states: Seq<DuplicateGroupModel>,
    i: int,
)
    requires
        group_rows_built(groups, kind, rows, states),
        0 <= i < groups.len(),
    ensures
        states[i].hash == groups[i].0,
        states[i].images.len() == groups[i].1.len(),
        exists|k: int| 0 <= k < rows.len() && (#[trigger] rows[k]).group_key == groups[i].0
            && rows[k].images.len() == groups[i].1.len(),
{
    let (sorted, order) = choose|sorted: Seq<Seq<ImageModel>>, order: Seq<usize>|
        duplicate_views_built(groups, kind, sorted, order, rows, states);
    lemma_sorted_same_length(groups[i].1, sorted[i]);
    lemma_permutation_covers(order, groups.len(), i);
    let k = choose|k: int| 0 <= k < order.len() && order[k] as int == i;
    assert(rows[k].group_key == groups[i].0);
    assert(rows[k].images.len() == groups[i].1.len());
}

} // verus!
