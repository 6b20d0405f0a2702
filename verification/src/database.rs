//! Image records, and how the rows of images that share a content hash are
//! gathered into duplicate groups.

use vstd::prelude::*;
use crate::cli::opt_string_view;

verus! {

/// One discovered image file.
#[derive(Debug)]
pub struct Image {
    pub id: String,
    pub path: String,
    pub size: u64,
    pub content_hash: Option<String>,
    pub perceptual_hash: Option<String>,
    pub created_at: String,
}

/// The mathematical value of an [`Image`].
pub struct ImageModel {
    pub id: Seq<char>,
    pub path: Seq<char>,
    pub size: u64,
    pub content_hash: Option<Seq<char>>,
    pub perceptual_hash: Option<Seq<char>>,
    pub created_at: Seq<char>,
}

impl View for Image {
    type V = ImageModel;

    open spec fn view(&self) -> ImageModel {
        ImageModel {
            id: self.id@,
            path: self.path@,
            size: self.size,
            content_hash: opt_string_view(self.content_hash),
            perceptual_hash: opt_string_view(self.perceptual_hash),
            created_at: self.created_at@,
        }
    }
}

pub fn clone_opt_string(o: &Option<String>) -> (r: Option<String>)
    ensures
        opt_string_view(r) == opt_string_view(*o),
{
    match o {
        Some(s) => Some(s.clone()),
        None => None,
    }
}

impl Clone for Image {
    fn clone(&self) -> (r: Self)
        ensures
            r@ == self@,
    {
        Image {
            id: self.id.clone(),
            path: self.path.clone(),
            size: self.size,
            content_hash: clone_opt_string(&self.content_hash),
            perceptual_hash: clone_opt_string(&self.perceptual_hash),
            created_at: self.created_at.clone(),
        }
    }
}

/// The views of a list of images.
pub open spec fn images_view(v: Seq<Image>) -> Seq<ImageModel> {
    v.map_values(|i: Image| i@)
}

/// The views of rows that pair a content hash with an image.
pub open spec fn hashed_rows_view(v: Seq<(String, Image)>) -> Seq<(Seq<char>, ImageModel)> {
    v.map_values(|r: (String, Image)| (r.0@, r.1@))
}

/// The views of duplicate groups: each hash with its images.
pub open spec fn groups_view(v: Seq<(String, Vec<Image>)>) -> Seq<(Seq<char>, Seq<ImageModel>)> {
    v.map_values(|g: (String, Vec<Image>)| (g.0@, images_view(g.1@)))
}

/// The hashes of the rows, each once, in the order in which they first appear.
pub open spec fn distinct_hashes(rows: Seq<(Seq<char>, ImageModel)>) -> Seq<Seq<char>>
    decreases rows.len(),
{
    if rows.len() == 0 {
        Seq::empty()
    } else {
        let before = distinct_hashes(rows.drop_last());
        if before.contains(rows.last().0) {
            before
        } else {
            before.push(rows.last().0)
        }
    }
}

/// The images of the rows whose hash is `h`, in the order of the rows.
pub open spec fn images_with_hash(rows: Seq<(Seq<char>, ImageModel)>, h: Seq<char>) -> Seq<ImageModel>
    decreases rows.len(),
{
    if rows.len() == 0 {
        Seq::empty()
    } else {
        let before = images_with_hash(rows.drop_last(), h);
        if rows.last().0 == h {
            before.push(rows.last().1)
        } else {
            before
        }
    }
}

/// The duplicate groups of a list of rows: one group per hash, in the order
/// in which the hashes first appear, each with the images of that hash in
/// the order of the rows.
pub open spec fn grouped_by_hash(rows: Seq<(Seq<char>, ImageModel)>) -> Seq<(Seq<char>, Seq<ImageModel>)> {
    let hashes = distinct_hashes(rows);
    Seq::new(hashes.len(), |j: int| (hashes[j], images_with_hash(rows, hashes[j])))
}

proof fn lemma_distinct_hashes_no_duplicates(rows: Seq<(Seq<char>, ImageModel)>)
    ensures
        distinct_hashes(rows).no_duplicates(),
        forall|h: Seq<char>| distinct_hashes(rows).contains(h) <==> exists|i: int| 0 <= i < rows.len() && rows[i].0 == h,
    decreases rows.len(),
{
    if rows.len() > 0 {
        let prev = rows.drop_last();
        lemma_distinct_hashes_no_duplicates(prev);
        let last = rows[rows.len() - 1].0;
        let before = distinct_hashes(prev);
        assert forall|h: Seq<char>| distinct_hashes(rows).contains(h) <==> exists|i: int| 0 <= i < rows.len() && rows[i].0 == h by {
            if distinct_hashes(rows).contains(h) {
                if before.contains(h) {
                    let i = choose|i: int| 0 <= i < prev.len() && prev[i].0 == h;
                    assert(rows[i].0 == h);
                } else {
                    let k = choose|k: int| 0 <= k < distinct_hashes(rows).len() && distinct_hashes(rows)[k] == h;
                    assert(distinct_hashes(rows) == before.push(last));
                    assert(k == before.len());
                    assert(rows[rows.len() - 1].0 == h);
                }
            }
            if exists|i: int| 0 <= i < rows.len() && rows[i].0 == h {
                let i = choose|i: int| 0 <= i < rows.len() && rows[i].0 == h;
                if i < rows.len() - 1 {
                    assert(prev[i].0 == h);
                    assert(before.contains(h));
                    if !before.contains(last) {
                        assert(before.push(last)[before.index_of(h)] == h);
                    }
                } else {
                    if !before.contains(last) {
                        assert(before.push(last)[before.len() as int] == h);
                    }
                }
            }
        }
        if !before.contains(last) {
            assert(before.push(last).no_duplicates());
        }
    }
}

/// The position of `h` among the group hashes, if it is there.
fn find_group(groups: &Vec<(String, Vec<Image>)>, h: &String) -> (r: Option<usize>)
    ensures
        match r {
            Some(j) => j < groups@.len() && groups@[j as int].0@ == h@,
            None => forall|j: int| 0 <= j < groups@.len() ==> groups@[j].0@ != h@,
        },
{
    let mut j: usize = 0;
    while j < groups.len()
        invariant
            j <= groups@.len(),
            forall|q: int| 0 <= q < j ==> groups@[q].0@ != h@,
        decreases groups.len() - j,
    {
        if groups[j].0 == *h {
            return Some(j);
        }
        j = j + 1;
    }
    None
}

/// Gathers rows of (content hash, image) into one group per hash: the
/// groups come in the order in which their hashes first appear, and each
/// holds the images of its hash in the order of the rows.
pub fn group_by_content_hash(rows: &Vec<(String, Image)>) -> (r: Vec<(String, Vec<Image>)>)
    ensures
        groups_view(r@) == grouped_by_hash(hashed_rows_view(rows@)),
{
    let ghost all = hashed_rows_view(rows@);
    let mut groups: Vec<(String, Vec<Image>)> = Vec::new();
    let mut i: usize = 0;
    while i < rows.len()
        invariant
            i <= rows@.len(),
            all == hashed_rows_view(rows@),
            groups_view(groups@) =~= grouped_by_hash(all.take(i as int)),
        decreases rows.len() - i,
    {
        let ghost prev = all.take(i as int);
        let ghost next = all.take(i + 1);
        assert(next.drop_last() =~= prev);
        assert(next.last() == all[i as int]);
        proof {
            lemma_distinct_hashes_no_duplicates(prev);
        }
        let h = &rows[i].0;
        let img = rows[i].1.clone();
        match find_group(&groups, h) {
            Some(j) => {
                let ghost old_groups = groups@;
                let mut entry: (String, Vec<Image>) = (String::new(), Vec::new());
                std::mem::swap(&mut entry, &mut groups[j]);
                let ghost old_images = entry.1@;
                entry.1.push(img);
                groups.set(j, entry);
                proof {
                    let hashes = distinct_hashes(prev);
                    assert(groups_view(old_groups).len() == hashes.len());
                    assert(groups_view(old_groups)[j as int].0 == hashes[j as int]);
                    assert(hashes[j as int] == all[i as int].0);
                    assert(hashes.contains(all[i as int].0));
                    assert(distinct_hashes(next) == hashes);
                    assert forall|q: int| 0 <= q < hashes.len() implies
                        #[trigger] groups_view(groups@)[q] == (hashes[q], images_with_hash(next, hashes[q])) by {
                        assert(groups_view(old_groups)[q] == grouped_by_hash(prev)[q]);
                        assert(grouped_by_hash(prev)[q] == (hashes[q], images_with_hash(prev, hashes[q])));
                        if q != j {
                            assert(hashes[q] != hashes[j as int]);
                            assert(groups@[q] == old_groups[q]);
                            assert(images_with_hash(next, hashes[q]) == images_with_hash(prev, hashes[q]));
                        } else {
                            assert(images_view(groups@[q].1@) =~= images_view(old_images).push(all[i as int].1));
                            assert(images_with_hash(next, hashes[q]) == images_with_hash(prev, hashes[q]).push(all[i as int].1));
                        }
                    }
                    assert(groups_view(groups@) =~= grouped_by_hash(next));
                }
            },
            None => {
                let ghost old_groups = groups@;
                let mut images: Vec<Image> = Vec::new();
                images.push(img);
                groups.push((h.clone(), images));
                proof {
                    let hashes = distinct_hashes(prev);
                    assert(groups_view(old_groups).len() == hashes.len());
                    assert(!hashes.contains(all[i as int].0)) by {
                        if hashes.contains(all[i as int].0) {
                            let q = choose|q: int| 0 <= q < hashes.len() && hashes[q] == all[i as int].0;
                            assert(groups_view(old_groups)[q].0 == hashes[q]);
                        }
                    }
                    assert(distinct_hashes(next) == hashes.push(all[i as int].0));
                    assert forall|q: int| 0 <= q < hashes.len() implies
                        images_with_hash(next, hashes[q]) == images_with_hash(prev, hashes[q]) by {
                        assert(hashes[q] != all[i as int].0);
                    }
                    assert(images_with_hash(prev, all[i as int].0) =~= Seq::<ImageModel>::empty()) by {
                        lemma_images_with_absent_hash(prev, all[i as int].0);
                    }
                    assert(images_view(groups@[hashes.len() as int].1@) =~= seq![all[i as int].1]);
                    assert(images_with_hash(next, all[i as int].0) == images_with_hash(prev, all[i as int].0).push(all[i as int].1));
                    assert forall|q: int| 0 <= q < hashes.len() + 1 implies
                        #[trigger] groups_view(groups@)[q] == grouped_by_hash(next)[q] by {
                        if q < hashes.len() {
                            assert(groups@[q] == old_groups[q]);
                            assert(groups_view(old_groups)[q] == grouped_by_hash(prev)[q]);
                        }
                    }
                    assert(groups_view(groups@) =~= grouped_by_hash(next));
                }
            },
        }
        i = i + 1;
    }
    assert(all.take(i as int) =~= all);
    groups
}

proof fn lemma_images_with_absent_hash(rows: Seq<(Seq<char>, ImageModel)>, h: Seq<char>)
    requires
        !distinct_hashes(rows).contains(h),
    ensures
        images_with_hash(rows, h) == Seq::<ImageModel>::empty(),
    decreases rows.len(),
{
    if rows.len() > 0 {
        lemma_distinct_hashes_no_duplicates(rows);
        assert(rows[rows.len() - 1].0 != h);
        let prev = rows.drop_last();
        lemma_distinct_hashes_no_duplicates(prev);
        assert(!distinct_hashes(prev).contains(h)) by {
            if distinct_hashes(prev).contains(h) {
                let i = choose|i: int| 0 <= i < prev.len() && prev[i].0 == h;
                assert(rows[i].0 == h);
            }
        }
        lemma_images_with_absent_hash(prev, h);
    }
}

proof fn lemma_row_in_images_with_hash(rows: Seq<(Seq<char>, ImageModel)>, i: int)
    requires
        0 <= i < rows.len(),
    ensures
        images_with_hash(rows, rows[i].0).contains(rows[i].1),
    decreases rows.len(),
{
    let h = rows[i].0;
    if i == rows.len() - 1 {
        let before = images_with_hash(rows.drop_last(), h);
        assert(before.push(rows[i].1)[before.len() as int] == rows[i].1);
    } else {
        lemma_row_in_images_with_hash(rows.drop_last(), i);
        let before = images_with_hash(rows.drop_last(), h);
        let k = choose|k: int| 0 <= k < before.len() && before[k] == rows[i].1;
        if rows.last().0 == h {
            assert(before.push(rows.last().1)[k] == rows[i].1);
        }
    }
}

/// Grouping puts every row in the one group of its hash: the groups have
/// distinct hashes, and the group of a row's hash holds the row's image.
pub proof fn lemma_every_row_in_its_group(rows: Seq<(Seq<char>, ImageModel)>, i: int)
    requires
        0 <= i < rows.len(),
    ensures
        forall|a: int, b: int| 0 <= a < b < grouped_by_hash(rows).len() ==>
            (#[trigger] grouped_by_hash(rows)[a]).0 != (#[trigger] grouped_by_hash(rows)[b]).0,
        exists|j: int| 0 <= j < grouped_by_hash(rows).len()
            && (#[trigger] grouped_by_hash(rows)[j]).0 == rows[i].0
            && grouped_by_hash(rows)[j].1.contains(rows[i].1),
{
    lemma_distinct_hashes_no_duplicates(rows);
    let hashes = distinct_hashes(rows);
    assert(hashes.contains(rows[i].0));
    let j = choose|j: int| 0 <= j < hashes.len() && hashes[j] == rows[i].0;
    lemma_row_in_images_with_hash(rows, i);
    assert(grouped_by_hash(rows)[j].0 == rows[i].0);
}

/// A group holds the images of its hash and only those, and none is empty.
pub proof fn lemma_groups_hold_their_hash(rows: Seq<(Seq<char>, ImageModel)>, j: int)
    requires
        0 <= j < grouped_by_hash(rows).len(),
    ensures
        grouped_by_hash(rows)[j].1.len() > 0,
        grouped_by_hash(rows)[j].1 == images_with_hash(rows, grouped_by_hash(rows)[j].0),
{
    lemma_distinct_hashes_no_duplicates(rows);
    let h = distinct_hashes(rows)[j];
    assert(distinct_hashes(rows).contains(h));
    let i = choose|i: int| 0 <= i < rows.len() && rows[i].0 == h;
    lemma_row_in_images_with_hash(rows, i);
}

// ---------------------------------------------------------------------------
// Perceptually similar images

/// The key by which a hashed image is grouped with the images that look
/// like it: its perceptual hash, when it has a content hash and a perceptual
/// hash that is not empty (the hasher stores an empty one when the file could
/// not be read for it).
pub open spec fn similarity_key(i: ImageModel) -> Option<Seq<char>> {
    match (i.content_hash, i.perceptual_hash) {
        (Some(_), Some(p)) => if p.len() > 0 { Some(p) } else { None },
        _ => None,
    }
}

/// The rows (similarity key, image) of the images that have a key, in order.
pub open spec fn perceptual_rows(images: Seq<ImageModel>) -> Seq<(Seq<char>, ImageModel)>
    decreases images.len(),
{
    if images.len() == 0 {
        Seq::empty()
    } else {
        let before = perceptual_rows(images.drop_last());
        match similarity_key(images.last()) {
            Some(p) => before.push((p, images.last())),
            None => before,
        }
    }
}

/// Whether the images hold at least two different contents.
pub open spec fn mixes_contents(images: Seq<ImageModel>) -> bool {
    exists|a: int, b: int|
        #![trigger images[a], images[b]]
        0 <= a < images.len() && 0 <= b < images.len() && images[a].content_hash != images[b].content_hash
}

/// The groups, in order, whose images hold more than one content.
pub open spec fn mixed_groups(gs: Seq<(Seq<char>, Seq<ImageModel>)>) -> Seq<(Seq<char>, Seq<ImageModel>)>
    decreases gs.len(),
{
    if gs.len() == 0 {
        Seq::empty()
    } else {
        let before = mixed_groups(gs.drop_last());
        if mixes_contents(gs.last().1) {
            before.push(gs.last())
        } else {
            before
        }
    }
}

/// The groups of perceptually similar images: for each similarity key, the
/// images that have it, in order, where they hold more than one content (a
/// key whose images all have one content adds nothing to their group of
/// exact matches).  The groups come in the order in which their keys first
/// appear.
pub open spec fn similar_groups_of(images: Seq<ImageModel>) -> Seq<(Seq<char>, Seq<ImageModel>)> {
    mixed_groups(grouped_by_hash(perceptual_rows(images)))
}

fn similarity_key_exec(i: &Image) -> (r: Option<String>)
    ensures
        opt_string_view(r) == similarity_key(i@),
{
    match (&i.content_hash, &i.perceptual_hash) {
        (Some(_), Some(p)) => {
            if p.as_str().unicode_len() > 0 {
                Some(p.clone())
            } else {
                None
            }
        },
        _ => None,
    }
}

fn opt_string_eq(a: &Option<String>, b: &Option<String>) -> (r: bool)
    ensures
        r == (opt_string_view(*a) == opt_string_view(*b)),
{
    match (a, b) {
        (Some(x), Some(y)) => *x == *y,
        (None, None) => true,
        _ => false,
    }
}

fn mixes_contents_exec(images: &Vec<Image>) -> (r: bool)
    ensures
        r == mixes_contents(images_view(images@)),
{
    let ghost v = images_view(images@);
    let n = images.len();
    if n == 0 {
        return false;
    }
    let mut b: usize = 1;
    while b < n
        invariant
            1 <= b <= n,
            n == images@.len(),
            v == images_view(images@),
            forall|q: int| 0 <= q < b ==> (#[trigger] v[q]).content_hash == v[0].content_hash,
        decreases n - b,
    {
        if !opt_string_eq(&images[b].content_hash, &images[0].content_hash) {
            assert(v[b as int].content_hash != v[0].content_hash);
            return true;
        }
        b = b + 1;
    }
    assert(!mixes_contents(v)) by {
        if mixes_contents(v) {
            let (x, y) = choose|x: int, y: int|
                #![trigger v[x], v[y]]
                0 <= x < v.len() && 0 <= y < v.len() && v[x].content_hash != v[y].content_hash;
            assert(v[x].content_hash == v[0].content_hash);
            assert(v[y].content_hash == v[0].content_hash);
        }
    }
    false
}

/// Gathers the perceptually similar images: the hashed images that share a
/// perceptual hash (not empty) and hold more than one content between them,
/// one group per such hash.
pub fn group_similar_images(images: &Vec<Image>) -> (r: Vec<(String, Vec<Image>)>)
    ensures
        groups_view(r@) == similar_groups_of(images_view(images@)),
{
    let ghost imgs = images_view(images@);
    let mut rows: Vec<(String, Image)> = Vec::new();
    let mut i: usize = 0;
    while i < images.len()
        invariant
            i <= images@.len(),
            imgs == images_view(images@),
            hashed_rows_view(rows@) =~= perceptual_rows(imgs.take(i as int)),
        decreases images.len() - i,
    {
        assert(imgs.take(i + 1).drop_last() =~= imgs.take(i as int));
        assert(imgs.take(i + 1).last() == images@[i as int]@);
        match similarity_key_exec(&images[i]) {
            Some(p) => {
                let ghost before = rows@;
                rows.push((p, images[i].clone()));
                assert(hashed_rows_view(rows@) =~= hashed_rows_view(before).push((p@, images@[i as int]@)));
            },
            None => {},
        }
        i = i + 1;
    }
    assert(imgs.take(i as int) =~= imgs);
    let mut groups = group_by_content_hash(&rows);
    let total = groups.len();
    let ghost all = groups@;
    let ghost gs = groups_view(all);
    let mut r: Vec<(String, Vec<Image>)> = Vec::new();
    let mut k: usize = 0;
    while groups.len() > 0
        invariant
            k + groups@.len() == all.len(),
            all.len() == total,
            groups@ == all.skip(k as int),
            gs == groups_view(all),
            groups_view(r@) =~= mixed_groups(gs.take(k as int)),
        decreases groups.len(),
    {
        let g = groups.remove(0);
        assert(gs.take(k + 1).drop_last() =~= gs.take(k as int));
        assert(gs.take(k + 1).last() == gs[k as int]);
        assert(all.skip(k + 1) =~= all.skip(k as int).remove(0));
        assert(g == all[k as int]);
        if mixes_contents_exec(&g.1) {
            let ghost before = r@;
            r.push(g);
            assert(groups_view(r@) =~= groups_view(before).push(gs[k as int]));
        }
        k = k + 1;
    }
    assert(gs.take(k as int) =~= gs);
    r
}

proof fn lemma_perceptual_row_of(images: Seq<ImageModel>, a: int)
    requires
        0 <= a < images.len(),
        similarity_key(images[a]) is Some,
    ensures
        exists|i: int| 0 <= i < perceptual_rows(images).len()
            && #[trigger] perceptual_rows(images)[i] == (similarity_key(images[a])->0, images[a]),
    decreases images.len(),
{
    let before = perceptual_rows(images.drop_last());
    if a == images.len() - 1 {
        assert(perceptual_rows(images) == before.push((similarity_key(images[a])->0, images[a])));
        assert(perceptual_rows(images)[before.len() as int] == (similarity_key(images[a])->0, images[a]));
    } else {
        assert(images.drop_last()[a] == images[a]);
        lemma_perceptual_row_of(images.drop_last(), a);
        let i = choose|i: int| 0 <= i < before.len() && #[trigger] before[i] == (similarity_key(images[a])->0, images[a]);
        match similarity_key(images.last()) {
            Some(p) => {
                assert(perceptual_rows(images) == before.push((p, images.last())));
                assert(perceptual_rows(images)[i] == before[i]);
            },
            None => {
                assert(perceptual_rows(images) == before);
            },
        }
    }
}

proof fn lemma_mixed_group_kept(gs: Seq<(Seq<char>, Seq<ImageModel>)>, j: int)
    requires
        0 <= j < gs.len(),
        mixes_contents(gs[j].1),
    ensures
        exists|k: int| 0 <= k < mixed_groups(gs).len() && #[trigger] mixed_groups(gs)[k] == gs[j],
    decreases gs.len(),
{
    let before = mixed_groups(gs.drop_last());
    if j == gs.len() - 1 {
        assert(mixed_groups(gs) == before.push(gs.last()));
        assert(mixed_groups(gs)[before.len() as int] == gs[j]);
    } else {
        assert(gs.drop_last()[j] == gs[j]);
        lemma_mixed_group_kept(gs.drop_last(), j);
        let k = choose|k: int| 0 <= k < before.len() && #[trigger] before[k] == gs[j];
        if mixes_contents(gs.last().1) {
            assert(mixed_groups(gs) == before.push(gs.last()));
            assert(mixed_groups(gs)[k] == before[k]);
        } else {
            assert(mixed_groups(gs) == before);
        }
    }
}

proof fn lemma_mixed_groups_mixed(gs: Seq<(Seq<char>, Seq<ImageModel>)>)
    ensures
        forall|k: int| 0 <= k < mixed_groups(gs).len() ==> mixes_contents(#[trigger] mixed_groups(gs)[k].1),
    decreases gs.len(),
{
    if gs.len() > 0 {
        lemma_mixed_groups_mixed(gs.drop_last());
        let before = mixed_groups(gs.drop_last());
        assert forall|k: int| 0 <= k < mixed_groups(gs).len() implies mixes_contents(#[trigger] mixed_groups(gs)[k].1) by {
            if k < before.len() {
                assert(mixed_groups(gs)[k] == before[k]);
            }
        }
    }
}

/// Two hashed images of different contents that have the same perceptual
/// hash (not empty) are in one group of similar images, under that hash.
pub proof fn lemma_similar_images_grouped(images: Seq<ImageModel>, a: int, b: int)
    requires
        0 <= a < images.len(),
        0 <= b < images.len(),
        similarity_key(images[a]) is Some,
        similarity_key(images[a]) == similarity_key(images[b]),
        images[a].content_hash != images[b].content_hash,
    ensures
        exists|k: int| 0 <= k < similar_groups_of(images).len()
            && (#[trigger] similar_groups_of(images)[k]).0 == similarity_key(images[a])->0
            && similar_groups_of(images)[k].1.contains(images[a])
            && similar_groups_of(images)[k].1.contains(images[b]),
{
    let key = similarity_key(images[a])->0;
    let rows = perceptual_rows(images);
    let gs = grouped_by_hash(rows);
    lemma_perceptual_row_of(images, a);
    lemma_perceptual_row_of(images, b);
    let ia = choose|i: int| 0 <= i < rows.len() && #[trigger] rows[i] == (key, images[a]);
    let ib = choose|i: int| 0 <= i < rows.len() && #[trigger] rows[i] == (key, images[b]);
    lemma_every_row_in_its_group(rows, ia);
    lemma_every_row_in_its_group(rows, ib);
    let ja = choose|j: int| 0 <= j < gs.len() && (#[trigger] gs[j]).0 == rows[ia].0 && gs[j].1.contains(rows[ia].1);
    let jb = choose|j: int| 0 <= j < gs.len() && (#[trigger] gs[j]).0 == rows[ib].0 && gs[j].1.contains(rows[ib].1);
    if ja < jb {
        assert(gs[ja].0 != gs[jb].0);
    } else if jb < ja {
        assert(gs[jb].0 != gs[ja].0);
    }
    assert(ja == jb);
    let g = gs[ja].1;
    let x = choose|x: int| 0 <= x < g.len() && g[x] == images[a];
    let y = choose|y: int| 0 <= y < g.len() && g[y] == images[b];
    assert(g[x].content_hash != g[y].content_hash);
    assert(mixes_contents(g));
    lemma_mixed_group_kept(gs, ja);
    let k = choose|k: int| 0 <= k < mixed_groups(gs).len() && #[trigger] mixed_groups(gs)[k] == gs[ja];
    assert(similar_groups_of(images)[k] == gs[ja]);
}

/// Every group of similar images holds more than one content.
pub proof fn lemma_similar_groups_mixed(images: Seq<ImageModel>)
    ensures
        forall|k: int| 0 <= k < similar_groups_of(images).len() ==>
            mixes_contents(#[trigger] similar_groups_of(images)[k].1),
{
    lemma_mixed_groups_mixed(grouped_by_hash(perceptual_rows(images)));
}

} // verus!
