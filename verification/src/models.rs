//! The persisted record types and their mathematical models.

use vstd::prelude::*;

verus! {

/// A stored image record: the raw encoded bytes as uploaded, together with
/// the thumbnail derived from them at upload time, keyed by `imagename`.
pub struct Image {
    pub imagename: String,
    pub caption: Option<String>,
    pub main: Vec<u8>,
    pub thumbnail: Vec<u8>,
    pub showthumbnail: bool,
}

/// The fields of an image record as they are handed to the store for an
/// upsert; the store turns this into the stored [`Image`].
pub struct NewImage {
    pub imagename: String,
    pub caption: Option<String>,
    pub main: Vec<u8>,
    pub thumbnail: Vec<u8>,
    pub showthumbnail: bool,
}

/// A text post. An `id < 0` marks a post that has not been persisted yet:
/// upserting such a post inserts a new row and assigns it a fresh id.
/// `posttime` is a timestamp in seconds.
pub struct Post {
    pub id: i32,
    pub title: String,
    pub images: Vec<String>,
    pub content: String,
    pub posttime: i64,
}

/// The mathematical model of an image record.
#[verifier::ext_equal]
pub ghost struct ImageModel {
    pub imagename: Seq<char>,
    pub caption: Option<Seq<char>>,
    pub main: Seq<u8>,
    pub thumbnail: Seq<u8>,
    pub showthumbnail: bool,
}

/// The mathematical model of a post.
#[verifier::ext_equal]
pub ghost struct PostModel {
    pub id: int,
    pub title: Seq<char>,
    pub images: Seq<Seq<char>>,
    pub content: Seq<char>,
    pub posttime: int,
}

pub open spec fn image_model(img: Image) -> ImageModel {
    ImageModel {
        imagename: img.imagename@,
        caption: img.caption.deep_view(),
        main: img.main@,
        thumbnail: img.thumbnail@,
        showthumbnail: img.showthumbnail,
    }
}

pub open spec fn new_image_model(img: NewImage) -> ImageModel {
    ImageModel {
        imagename: img.imagename@,
        caption: img.caption.deep_view(),
        main: img.main@,
        thumbnail: img.thumbnail@,
        showthumbnail: img.showthumbnail,
    }
}

pub open spec fn post_model(p: Post) -> PostModel {
    PostModel {
        id: p.id as int,
        title: p.title@,
        images: p.images.deep_view(),
        content: p.content@,
        posttime: p.posttime as int,
    }
}

/// The models of a sequence of stored images.
pub open spec fn image_models(s: Seq<Image>) -> Seq<ImageModel> {
    s.map_values(|img: Image| image_model(img))
}

/// The models of a sequence of posts.
pub open spec fn post_models(s: Seq<Post>) -> Seq<PostModel> {
    s.map_values(|p: Post| post_model(p))
}

impl Clone for Post {
    /// Cloning a post preserves its model.
    fn clone(&self) -> (r: Post)
        ensures
            post_model(r) == post_model(*self),
    {
        let images = self.images.clone();
        proof {
            assert forall|i: int| 0 <= i < self.images@.len() implies images@[i]@
                == self.images@[i]@ by {
                assert(cloned(self.images@[i], images@[i]));
            }
            assert(images.deep_view() =~= self.images.deep_view());
        }
        Post {
            id: self.id,
            title: self.title.clone(),
            images,
            content: self.content.clone(),
            posttime: self.posttime,
        }
    }
}

} // verus!
