//! The media store: an in-memory, key-value-ish store of image records
//! keyed by name, and of posts ordered by post time.
//!
//! Image records are kept most-recently-written first, so the name listing
//! is by recency. Posts are kept sorted by `posttime` descending, so the
//! paginated listing is a window of the stored sequence.

use vstd::prelude::*;

use crate::models::{
    image_model, image_models, new_image_model, post_model, post_models, Image, ImageModel,
    NewImage, Post, PostModel,
};

verus! {

/// A store failure on the write path.
#[derive(Debug, PartialEq, Eq, Structural)]
pub enum StoreError {
    NotFound,
    QueryFailed,
}

/// The server-enforced cap on a requested page size.
pub const POST_PAGE_CAP: i64 = 3;

/// Is `j` the index of the record named `n`?
pub open spec fn name_at(s: Seq<ImageModel>, n: Seq<char>, j: int) -> bool {
    0 <= j < s.len() && s[j].imagename == n
}

/// Does some record in `s` carry the name `n`?
pub open spec fn has_image_name(s: Seq<ImageModel>, n: Seq<char>) -> bool {
    exists|j: int| name_at(s, n, j)
}

/// The names of the records in `s`, in order.
pub open spec fn image_names(s: Seq<ImageModel>) -> Seq<Seq<char>> {
    s.map_values(|m: ImageModel| m.imagename)
}

/// Is `j` the index of the post with id `id`?
pub open spec fn post_id_at(s: Seq<PostModel>, id: int, j: int) -> bool {
    0 <= j < s.len() && s[j].id == id
}

/// Does some post in `s` carry the id `id`?
pub open spec fn has_post_id(s: Seq<PostModel>, id: int) -> bool {
    exists|j: int| post_id_at(s, id, j)
}

/// The model `m` with its id replaced by `id`.
pub open spec fn with_id(m: PostModel, id: int) -> PostModel {
    PostModel { id: id, title: m.title, images: m.images, content: m.content, posttime: m.posttime }
}

/// The requested page size, clamped server-side to `[0, POST_PAGE_CAP]`.
pub open spec fn clamped_limit(limit: int) -> int {
    if limit < 0 {
        0
    } else if limit > POST_PAGE_CAP as int {
        POST_PAGE_CAP as int
    } else {
        limit
    }
}

/// The window of the post sequence that a listing request selects: the
/// offset is clamped into the sequence and the limit is clamped to the cap.
pub open spec fn listing_window(s: Seq<PostModel>, offset: int, limit: int) -> Seq<PostModel> {
    let off = if offset < 0 {
        0
    } else if offset > s.len() {
        s.len() as int
    } else {
        offset
    };
    let hi = if off + clamped_limit(limit) > s.len() {
        s.len() as int
    } else {
        off + clamped_limit(limit)
    };
    s.subrange(off, hi)
}

pub struct MediaStore {
    images: Vec<Image>,
    posts: Vec<Post>,
    next_post_id: i32,
}

/// What one post upsert does: it relates the store before (`pre`) and
/// after (`post`) to the post handed in and the result. A negative id
/// inserts a new row under the next fresh id, which is returned; a
/// non-negative id overwrites the row with that id, and is a silent no-op
/// when no row has it. Only an exhausted id space fails.
pub open spec fn upsert_outcome(
    pre: MediaStore,
    post: MediaStore,
    p: Post,
    r: Result<i32, StoreError>,
) -> bool {
    &&& post.images_model() == pre.images_model()
    &&& (p.id < 0 && pre.spec_next_post_id() < i32::MAX as int ==> {
        &&& r is Ok && r->Ok_0 as int == pre.spec_next_post_id()
        &&& post.spec_next_post_id() == pre.spec_next_post_id() + 1
        &&& post.posts_model().len() == pre.posts_model().len() + 1
        &&& exists|k: int|
            0 <= k <= pre.posts_model().len() && post.posts_model() == pre.posts_model().insert(
                k,
                with_id(post_model(p), pre.spec_next_post_id()),
            )
    })
    &&& (p.id < 0 && pre.spec_next_post_id() == i32::MAX as int ==> r == Err::<i32, StoreError>(
        StoreError::QueryFailed,
    ) && post == pre)
    &&& (p.id >= 0 && has_post_id(pre.posts_model(), p.id as int) ==> {
        &&& r == Ok::<i32, StoreError>(p.id)
        &&& post.spec_next_post_id() == pre.spec_next_post_id()
        &&& post.posts_model().len() == pre.posts_model().len()
        &&& forall|j: int|
            post_id_at(pre.posts_model(), p.id as int, j) ==> exists|k: int|
                0 <= k <= pre.posts_model().len() - 1 && post.posts_model()
                    == pre.posts_model().remove(j).insert(k, post_model(p))
    })
    &&& (p.id >= 0 && !has_post_id(pre.posts_model(), p.id as int) ==> r == Ok::<i32, StoreError>(
        p.id,
    ) && post == pre)
}

impl MediaStore {
    /// The models of the stored image records, most recently written first.
    pub closed spec fn images_model(self) -> Seq<ImageModel> {
        image_models(self.images@)
    }

    /// The models of the stored posts, newest post time first.
    pub closed spec fn posts_model(self) -> Seq<PostModel> {
        post_models(self.posts@)
    }

    /// The id the next inserted post will be assigned.
    pub closed spec fn spec_next_post_id(self) -> int {
        self.next_post_id as int
    }

    /// Well-formedness: image names are unique; posts are sorted by post
    /// time descending; post ids are unique, non-negative and below the
    /// next id to be assigned.
    pub open spec fn wf(self) -> bool {
        &&& forall|i: int, j: int|
            0 <= i < j < self.images_model().len() ==> #[trigger] self.images_model()[i].imagename
                != #[trigger] self.images_model()[j].imagename
        &&& forall|i: int, j: int|
            0 <= i < j < self.posts_model().len() ==> #[trigger] self.posts_model()[i].posttime
                >= #[trigger] self.posts_model()[j].posttime
        &&& forall|i: int|
            0 <= i < self.posts_model().len() ==> 0 <= #[trigger] self.posts_model()[i].id
                < self.spec_next_post_id()
        &&& forall|i: int, j: int|
            0 <= i < j < self.posts_model().len() ==> #[trigger] self.posts_model()[i].id
                != #[trigger] self.posts_model()[j].id
        &&& 0 <= self.spec_next_post_id() <= i32::MAX as int
    }

    /// An empty store.
    pub fn new() -> (r: MediaStore)
        ensures
            r.wf(),
            r.images_model() == Seq::<ImageModel>::empty(),
            r.posts_model() == Seq::<PostModel>::empty(),
            r.spec_next_post_id() == 0,
    {
        let r = MediaStore { images: Vec::new(), posts: Vec::new(), next_post_id: 0 };
        proof {
            assert(r.images_model() =~= Seq::<ImageModel>::empty());
            assert(r.posts_model() =~= Seq::<PostModel>::empty());
        }
        r
    }

    /// The index of the record named `name`, if one exists.
    fn find_image_index(&self, name: &String) -> (r: Option<usize>)
        ensures
            match r {
                Some(j) => name_at(self.images_model(), name@, j as int),
                None => !has_image_name(self.images_model(), name@),
            },
    {
        let mut j: usize = 0;
        while j < self.images.len()
            invariant
                j <= self.images@.len(),
                forall|k: int| 0 <= k < j ==> !name_at(self.images_model(), name@, k),
            decreases self.images@.len() - j,
        {
            if self.images[j].imagename == *name {
                return Some(j);
            }
            j += 1;
        }
        None
    }

    /// Upsert by name: if a record named `img.imagename` exists its fields
    /// are overwritten, otherwise a new record is created; either way the
    /// record becomes the most recent one. Main and thumbnail bytes travel
    /// in the one `NewImage`, so they are never persisted independently.
    pub fn put_image(&mut self, img: NewImage)
        requires
            old(self).wf(),
        ensures
            final(self).wf(),
            final(self).posts_model() == old(self).posts_model(),
            final(self).spec_next_post_id() == old(self).spec_next_post_id(),
            !has_image_name(old(self).images_model(), img.imagename@) ==> final(self).images_model() == old(self).images_model().insert(0, new_image_model(img)),
            forall|j: int|
                name_at(old(self).images_model(), img.imagename@, j) ==> final(self).images_model() == old(self).images_model().remove(j).insert(
                    0,
                    new_image_model(img),
                ),
    {
        let found = self.find_image_index(&img.imagename);
        let record = Image {
            imagename: img.imagename,
            caption: img.caption,
            main: img.main,
            thumbnail: img.thumbnail,
            showthumbnail: img.showthumbnail,
        };
        match found {
            None => {
                self.images.insert(0, record);
                proof {
                    let oldm = old(self).images_model();
                    let m = new_image_model(img);
                    let newm = self.images_model();
                    assert(image_model(record) == m);
                    assert(newm =~= oldm.insert(0, m));
                    assert forall|a: int, b: int|
                        0 <= a < b < newm.len() implies newm[a].imagename
                        != newm[b].imagename by {
                        if a == 0 {
                            assert(newm[b] == oldm[b - 1]);
                            assert(!name_at(oldm, m.imagename, b - 1));
                        } else {
                            assert(newm[a] == oldm[a - 1]);
                            assert(newm[b] == oldm[b - 1]);
                        }
                    }
                }
            },
            Some(j) => {
                let ghost jj = j as int;
                self.images.remove(j);
                self.images.insert(0, record);
                proof {
                    let oldm = old(self).images_model();
                    let m = new_image_model(img);
                    let newm = self.images_model();
                    let rm = oldm.remove(jj);
                    assert(image_model(record) == m);
                    assert(newm =~= rm.insert(0, m));
                    assert forall|k: int| name_at(oldm, m.imagename, k) implies k == jj by {
                        if k < jj {
                            assert(oldm[k].imagename != oldm[jj].imagename);
                        } else if k > jj {
                            assert(oldm[jj].imagename != oldm[k].imagename);
                        }
                    }
                    assert forall|x: int| 0 <= x < rm.len() implies rm[x].imagename
                        != m.imagename by {
                        if x < jj {
                            assert(rm[x] == oldm[x]);
                            if oldm[x].imagename == m.imagename {
                                assert(name_at(oldm, m.imagename, x));
                            }
                        } else {
                            assert(rm[x] == oldm[x + 1]);
                            if oldm[x + 1].imagename == m.imagename {
                                assert(name_at(oldm, m.imagename, x + 1));
                            }
                        }
                    }
                    assert forall|a: int, b: int|
                        0 <= a < b < newm.len() implies newm[a].imagename
                        != newm[b].imagename by {
                        if a == 0 {
                            assert(newm[b] == rm[b - 1]);
                        } else {
                            let x = a - 1;
                            let y = b - 1;
                            let ox: int = if x < jj { x } else { x + 1 };
                            let oy: int = if y < jj { y } else { y + 1 };
                            assert(newm[a] == rm[x] && rm[x] == oldm[ox]);
                            assert(newm[b] == rm[y] && rm[y] == oldm[oy]);
                            assert(oldm[ox].imagename != oldm[oy].imagename);
                        }
                    }
                }
            },
        }
        proof {
            assert(self.posts_model() == old(self).posts_model());
            assert forall|i: int, j: int|
                0 <= i < j < self.posts_model().len() implies self.posts_model()[i].posttime
                >= self.posts_model()[j].posttime by {
                assert(old(self).posts_model()[i].posttime >= old(self).posts_model()[j].posttime);
            }
            assert forall|i: int|
                0 <= i < self.posts_model().len() implies 0 <= #[trigger] self.posts_model()[i].id
                < self.spec_next_post_id() by {
                assert(0 <= old(self).posts_model()[i].id < old(self).spec_next_post_id());
            }
            assert forall|i: int, j: int|
                0 <= i < j < self.posts_model().len() implies self.posts_model()[i].id
                != self.posts_model()[j].id by {
                assert(old(self).posts_model()[i].id != old(self).posts_model()[j].id);
            }
        }
    }

    /// Exact lookup by name; an absent name yields `None`, not an error.
    pub fn get_image(&self, name: &String) -> (r: Option<&Image>)
        requires
            self.wf(),
        ensures
            r is Some <==> has_image_name(self.images_model(), name@),
            match r {
                Some(img) => forall|j: int|
                    name_at(self.images_model(), name@, j) ==> image_model(*img)
                        == self.images_model()[j],
                None => true,
            },
    {
        match self.find_image_index(name) {
            Some(j) => {
                let img = &self.images[j];
                proof {
                    let m = self.images_model();
                    let jj = j as int;
                    assert(image_model(*img) == m[jj]);
                    assert forall|k: int| name_at(m, name@, k) implies image_model(*img)
                        == m[k] by {
                        if k < jj {
                            assert(m[k].imagename != m[jj].imagename);
                        } else if k > jj {
                            assert(m[jj].imagename != m[k].imagename);
                        }
                    }
                }
                Some(img)
            },
            None => None,
        }
    }

    /// The stored names, most recently written first.
    pub fn list_images(&self) -> (r: Vec<String>)
        ensures
            r.deep_view() == image_names(self.images_model()),
    {
        let mut names: Vec<String> = Vec::new();
        let mut j: usize = 0;
        while j < self.images.len()
            invariant
                j <= self.images@.len(),
                names.deep_view() =~= image_names(self.images_model()).take(j as int),
            decreases self.images@.len() - j,
        {
            let ghost pre = names.deep_view();
            names.push(self.images[j].imagename.clone());
            proof {
                assert(names.deep_view() =~= pre.push(self.images@[j as int].imagename@));
                assert(names.deep_view() =~= image_names(self.images_model()).take(j as int + 1));
            }
            j += 1;
        }
        proof {
            assert(names.deep_view() =~= image_names(self.images_model()));
        }
        names
    }

    /// The index of the post with id `id`, if one exists.
    fn find_post_index(&self, id: i32) -> (r: Option<usize>)
        ensures
            match r {
                Some(j) => post_id_at(self.posts_model(), id as int, j as int),
                None => !has_post_id(self.posts_model(), id as int),
            },
    {
        let mut j: usize = 0;
        while j < self.posts.len()
            invariant
                j <= self.posts@.len(),
                forall|k: int| 0 <= k < j ==> !post_id_at(self.posts_model(), id as int, k),
            decreases self.posts@.len() - j,
        {
            if self.posts[j].id == id {
                return Some(j);
            }
            j += 1;
        }
        None
    }

    /// Insert `p` before the first stored post with a strictly smaller post
    /// time, keeping the posts sorted by post time descending.
    fn insert_post_sorted(&mut self, p: Post)
        requires
            old(self).wf(),
            0 <= p.id < old(self).spec_next_post_id(),
            forall|i: int|
                0 <= i < old(self).posts_model().len() ==> #[trigger] old(self).posts_model()[i].id
                    != p.id as int,
        ensures
            final(self).wf(),
            final(self).images_model() == old(self).images_model(),
            final(self).spec_next_post_id() == old(self).spec_next_post_id(),
            exists|k: int|
                0 <= k <= old(self).posts_model().len() && final(self).posts_model() == old(
                    self,
                ).posts_model().insert(k, post_model(p)),
    {
        let mut k: usize = 0;
        while k < self.posts.len() && self.posts[k].posttime >= p.posttime
            invariant
                k <= self.posts@.len(),
                forall|i: int|
                    0 <= i < k ==> #[trigger] self.posts_model()[i].posttime >= p.posttime as int,
            decreases self.posts@.len() - k,
        {
            k += 1;
        }
        let ghost kk = k as int;
        let ghost oldm = self.posts_model();
        self.posts.insert(k, p);
        proof {
            let newm = self.posts_model();
            assert(newm =~= oldm.insert(kk, post_model(p)));
            assert forall|a: int, b: int|
                0 <= a < b < newm.len() implies newm[a].posttime >= newm[b].posttime by {
                let oa: int = if a < kk { a } else { a - 1 };
                let ob: int = if b < kk { b } else { b - 1 };
                if a != kk {
                    assert(newm[a] == oldm[oa]);
                }
                if b != kk {
                    assert(newm[b] == oldm[ob]);
                }
                if a == kk {
                    // everything at or after the insertion point is older
                    assert(kk < oldm.len() ==> oldm[kk].posttime < p.posttime as int);
                    if kk < ob {
                        assert(oldm[kk].posttime >= oldm[ob].posttime);
                    }
                } else if b == kk {
                    assert(oldm[oa].posttime >= p.posttime as int);
                } else if a < kk && b > kk {
                    assert(oldm[oa].posttime >= oldm[ob].posttime);
                }
            }
            assert forall|a: int, b: int|
                0 <= a < b < newm.len() implies newm[a].id != newm[b].id by {
                let oa: int = if a < kk { a } else { a - 1 };
                let ob: int = if b < kk { b } else { b - 1 };
                if a != kk {
                    assert(newm[a] == oldm[oa]);
                }
                if b != kk {
                    assert(newm[b] == oldm[ob]);
                }
                if a != kk && b != kk {
                    assert(oldm[oa].id != oldm[ob].id);
                }
            }
            assert forall|i: int|
                0 <= i < newm.len() implies 0 <= #[trigger] newm[i].id
                    < self.spec_next_post_id() by {
                if i != kk {
                    let oi: int = if i < kk { i } else { i - 1 };
                    assert(newm[i] == oldm[oi]);
                }
            }
        }
    }

    /// Upsert a post. A negative id means "not yet persisted": a new row is
    /// inserted and assigned a fresh id, which is returned. Otherwise the
    /// row with that id is overwritten; updating an absent id is a silent
    /// no-op. The write fails only when the id space is exhausted.
    pub fn upsert_post(&mut self, p: Post) -> (r: Result<i32, StoreError>)
        requires
            old(self).wf(),
        ensures
            final(self).wf(),
            upsert_outcome(*old(self), *final(self), p, r),
    {
        if p.id < 0 {
            if self.next_post_id == i32::MAX {
                return Err(StoreError::QueryFailed);
            }
            let id = self.next_post_id;
            self.next_post_id = id + 1;
            let np = Post {
                id,
                title: p.title,
                images: p.images,
                content: p.content,
                posttime: p.posttime,
            };
            proof {
                assert(post_model(np) == with_id(post_model(p), id as int));
                assert(self.posts_model() == old(self).posts_model());
                assert(self.images_model() == old(self).images_model());
            }
            self.insert_post_sorted(np);
            Ok(id)
        } else {
            match self.find_post_index(p.id) {
                None => Ok(p.id),
                Some(j) => {
                    let ghost jj = j as int;
                    let ghost oldm = self.posts_model();
                    self.posts.remove(j);
                    proof {
                        let rm = self.posts_model();
                        assert(rm =~= oldm.remove(jj));
                        assert forall|a: int, b: int|
                            0 <= a < b < rm.len() implies rm[a].posttime >= rm[b].posttime
                                && rm[a].id != rm[b].id by {
                            let oa: int = if a < jj { a } else { a + 1 };
                            let ob: int = if b < jj { b } else { b + 1 };
                            assert(rm[a] == oldm[oa]);
                            assert(rm[b] == oldm[ob]);
                            assert(oldm[oa].posttime >= oldm[ob].posttime);
                            assert(oldm[oa].id != oldm[ob].id);
                        }
                        assert forall|i: int|
                            0 <= i < rm.len() implies 0 <= #[trigger] rm[i].id
                                < self.spec_next_post_id() && rm[i].id != p.id as int by {
                            let oi: int = if i < jj { i } else { i + 1 };
                            assert(rm[i] == oldm[oi]);
                            assert(0 <= oldm[oi].id < old(self).spec_next_post_id());
                            if oldm[oi].id == p.id as int {
                                assert(post_id_at(oldm, p.id as int, oi));
                                if oi < jj {
                                    assert(oldm[oi].id != oldm[jj].id);
                                } else {
                                    assert(oldm[jj].id != oldm[oi].id);
                                }
                            }
                        }
                        assert(0 <= p.id as int && (p.id as int) < self.spec_next_post_id()) by {
                            assert(post_id_at(oldm, p.id as int, jj));
                            assert(0 <= oldm[jj].id < old(self).spec_next_post_id());
                        }
                    }
                    let pid = p.id;
                    self.insert_post_sorted(p);
                    proof {
                        assert forall|j2: int|
                            post_id_at(oldm, p.id as int, j2) implies j2 == jj by {
                            if j2 < jj {
                                assert(oldm[j2].id != oldm[jj].id);
                            } else if j2 > jj {
                                assert(oldm[jj].id != oldm[j2].id);
                            }
                        }
                    }
                    Ok(pid)
                },
            }
        }
    }

    /// The requested window of posts, newest first. The requested page size
    /// is clamped server-side to at most [`POST_PAGE_CAP`] records, whatever
    /// the caller asked for.
    pub fn list_posts(&self, offset: i64, limit: i64) -> (r: Vec<Post>)
        ensures
            post_models(r@) == listing_window(self.posts_model(), offset as int, limit as int),
            r@.len() == listing_window(self.posts_model(), offset as int, limit as int).len(),
            r@.len() <= POST_PAGE_CAP as int,
    {
        let len = self.posts.len();
        let lim: i64 = if limit < 0 {
            0
        } else if limit > POST_PAGE_CAP {
            POST_PAGE_CAP
        } else {
            limit
        };
        let off: usize = if offset < 0 {
            0
        } else if offset as u64 >= len as u64 {
            len
        } else {
            offset as usize
        };
        let remaining = len - off;
        let take_n: usize = if (lim as usize) < remaining {
            lim as usize
        } else {
            remaining
        };
        let hi = off + take_n;
        let mut out: Vec<Post> = Vec::new();
        let mut idx: usize = off;
        while idx < hi
            invariant
                off <= idx <= hi,
                hi <= self.posts@.len(),
                post_models(out@) =~= self.posts_model().subrange(off as int, idx as int),
            decreases hi - idx,
        {
            let ghost pre = post_models(out@);
            out.push(self.posts[idx].clone());
            proof {
                assert(post_models(out@) =~= pre.push(post_model(self.posts@[idx as int])));
                assert(post_models(out@) =~= self.posts_model().subrange(
                    off as int,
                    idx as int + 1,
                ));
            }
            idx += 1;
        }
        proof {
            assert(post_models(out@) =~= listing_window(
                self.posts_model(),
                offset as int,
                limit as int,
            ));
        }
        out
    }
}

} // verus!
