//! The endpoint logic: upload, listing and streamed retrieval of images,
//! and the post listing and upsert, each over the media store, the codec
//! and the admin guard.
//!
//! Mutating endpoints take an [`Admin`] capability; the `*_request`
//! functions run the guard decision first and reject an unauthorized
//! request before the store is touched. Reads of image bytes degrade to an
//! empty body — never a crash — on a missing record, undecodable stored
//! bytes, or a name without an encodable format.

use vstd::prelude::*;

use crate::auth::{admin_guard, subject_listed, Admin, IdTokenError, Identity, VerificationError};
use crate::codec::{
    decode_image, decoded_dims, decoded_img, encodable_dims, encode_image, encode_ok, encoded_of,
    fit_dimensions, height_of, infer_format, rgba_of, scale_to, scaled_img, spec_fit_box,
    spec_infer_format, to_rgba, width_of, within_decode_limit, DecodeError, EncodeError,
};
use crate::models::{post_models, ImageModel, NewImage, Post};
use crate::store::{
    has_image_name, image_names, listing_window, name_at, upsert_outcome, MediaStore, StoreError,
    POST_PAGE_CAP,
};

verus! {

/// Why a request failed.
#[derive(Debug, PartialEq, Eq, Structural)]
pub enum RequestError {
    Unauthorized(IdTokenError),
    Decode(DecodeError),
    Encode(EncodeError),
    Store(StoreError),
}

/// Do the bytes decode to an image with nonzero dimensions?
pub open spec fn decodes_nonzero(bytes: Seq<u8>) -> bool {
    match decoded_dims(bytes) {
        Some(d) => d.0 >= 1 && d.1 >= 1,
        None => false,
    }
}

/// The model of the record an upload of `body` under `name` stores, with
/// the thumbnail bytes derived at upload time.
pub open spec fn uploaded_record(name: Seq<char>, body: Seq<u8>, thumb: Seq<u8>) -> ImageModel {
    ImageModel { imagename: name, caption: None, main: body, thumbnail: thumb, showthumbnail: true }
}

/// The dimensions a thumbnail derived from `main` must decode to.
pub open spec fn thumb_dims_for(main: Seq<u8>) -> (int, int) {
    let d = decoded_dims(main).unwrap();
    spec_fit_box(d.0 as int, d.1 as int)
}

/// The scaled-down, RGBA-normalized image an upload of `body` derives its
/// thumbnail from.
pub open spec fn upload_scaled(body: Seq<u8>) -> image::DynamicImage {
    rgba_of(
        scaled_img(
            decoded_img(body),
            (thumb_dims_for(body).0) as u32,
            (thumb_dims_for(body).1) as u32,
        ),
    )
}

/// The bytes a read serves for stored bytes and a target format: the
/// stored image, RGBA-normalized, re-encoded to that format.
pub open spec fn served_encoding(bytes: Seq<u8>, fmt: crate::codec::MediaFormat) -> Seq<u8> {
    encoded_of(rgba_of(decoded_img(bytes)), fmt)
}

/// The image sequence after an upsert of `m`: any record named as `m` is
/// gone, and `m` stands first.
pub open spec fn put_outcome(pre: Seq<ImageModel>, post: Seq<ImageModel>, m: ImageModel) -> bool {
    if has_image_name(pre, m.imagename) {
        forall|j: int| name_at(pre, m.imagename, j) ==> post == pre.remove(j).insert(0, m)
    } else {
        post == pre.insert(0, m)
    }
}

/// What one image upload does: it relates the store before (`pre`) and
/// after (`post`) to the uploaded bytes, the file name and the result.
/// Undecodable bytes are rejected; so is a name without an encodable
/// format; with both in order the upload succeeds — the scaled-down
/// thumbnail, at most 100 by 100 pixels, is always in every encoder's
/// range — the record is upserted with the encoder's non-empty output as
/// its thumbnail, which decodes to the fitted dimensions, and the updated
/// name listing is returned.
pub open spec fn upload_spec(
    pre: MediaStore,
    post: MediaStore,
    body: Seq<u8>,
    name: Seq<char>,
    r: Result<Vec<String>, RequestError>,
) -> bool {
    &&& post.posts_model() == pre.posts_model()
    &&& (!decodes_nonzero(body) ==> r == Err::<Vec<String>, RequestError>(
        RequestError::Decode(DecodeError::Unsupported),
    ) && post == pre)
    &&& (decodes_nonzero(body) && spec_infer_format(name) is None ==> r == Err::<
        Vec<String>,
        RequestError,
    >(RequestError::Encode(EncodeError::Unsupported)) && post == pre)
    &&& (decodes_nonzero(body) && spec_infer_format(name) is Some ==> {
        let fmt = spec_infer_format(name).unwrap();
        let thumb = encoded_of(upload_scaled(body), fmt);
        &&& r is Ok
        &&& put_outcome(
            pre.images_model(),
            post.images_model(),
            uploaded_record(name, body, thumb),
        )
        &&& thumb.len() > 0
        &&& decoded_dims(thumb) == Some(
            ((thumb_dims_for(body).0) as u32, (thumb_dims_for(body).1) as u32),
        )
        &&& (r->Ok_0).deep_view() == image_names(post.images_model())
    })
}

/// Upload an image: decode the body, derive the thumbnail, encode it to
/// the format the file name calls for, upsert the record, and return the
/// updated name listing.
pub fn upload_image(
    store: &mut MediaStore,
    _admin: &Admin,
    upload: Vec<u8>,
    file_name: String,
) -> (r: Result<Vec<String>, RequestError>)
    requires
        old(store).wf(),
    ensures
        final(store).wf(),
        upload_spec(*old(store), *final(store), upload@, file_name@, r),
{
    let img = match decode_image(&upload) {
        Some(i) => i,
        None => {
            return Err(RequestError::Decode(DecodeError::Unsupported));
        },
    };
    let w = width_of(&img);
    let h = height_of(&img);
    if w < 1 || h < 1 {
        return Err(RequestError::Decode(DecodeError::Unsupported));
    }
    let fmt = match infer_format(&file_name) {
        Some(f) => f,
        None => {
            return Err(RequestError::Encode(EncodeError::Unsupported));
        },
    };
    let dims = fit_dimensions(w, h);
    let small = scale_to(&img, dims.0, dims.1);
    let ready = to_rgba(&small);
    proof {
        assert(dims.0 == (thumb_dims_for(upload@).0) as u32);
        assert(dims.1 == (thumb_dims_for(upload@).1) as u32);
        assert(ready == upload_scaled(upload@));
    }
    let thumb = match encode_image(&ready, fmt) {
        Some(b) => b,
        None => {
            return Err(RequestError::Encode(EncodeError::Unsupported));
        },
    };
    let ghost thumb_view = thumb@;
    store.put_image(
        NewImage {
            imagename: file_name,
            caption: None,
            main: upload,
            thumbnail: thumb,
            showthumbnail: true,
        },
    );
    let names = store.list_images();
    proof {
        assert(thumb_view == encoded_of(upload_scaled(upload@), spec_infer_format(
            file_name@,
        ).unwrap()));
        assert(within_decode_limit(dims.0 as int, dims.1 as int)) by (nonlinear_arith)
            requires
                1 <= dims.0 as int <= 100,
                1 <= dims.1 as int <= 100,
        ;
        assert(decoded_dims(thumb_view) == Some(
            ((thumb_dims_for(upload@).0) as u32, (thumb_dims_for(upload@).1) as u32),
        ));
    }
    Ok(names)
}

/// The admin listing of stored image names, most recently written first.
pub fn get_images(store: &MediaStore, _admin: &Admin) -> (r: Vec<String>)
    ensures
        r.deep_view() == image_names(store.images_model()),
{
    store.list_images()
}

/// Upsert a post through the store; see [`upsert_outcome`].
pub fn upload_post(store: &mut MediaStore, _admin: &Admin, new_post: Post) -> (r: Result<
    i32,
    StoreError,
>)
    requires
        old(store).wf(),
    ensures
        final(store).wf(),
        upsert_outcome(*old(store), *final(store), new_post, r),
{
    store.upsert_post(new_post)
}

/// The paginated post listing, newest first, with the page size clamped
/// server-side; needs no authorization.
pub fn posts(store: &MediaStore, i: i64, range: i64) -> (r: Vec<Post>)
    ensures
        post_models(r@) == listing_window(store.posts_model(), i as int, range as int),
        r@.len() == listing_window(store.posts_model(), i as int, range as int).len(),
        r@.len() <= POST_PAGE_CAP as int,
{
    store.list_posts(i, range)
}

/// What a streamed read of stored bytes does: an absent name yields an
/// empty body; so do stored bytes that do not decode to an image with
/// nonzero dimensions, and a stored name without an encodable format.
/// With all three in order the body is the stored image, RGBA-normalized
/// and re-encoded to the name's format, when the encoder accepts it, and
/// empty when it refuses; the encoder always accepts dimensions inside
/// every format's range, so such a body is non-empty; and a re-encode of
/// an image within the decoder's allocation limit decodes back to the
/// stored dimensions.
pub open spec fn read_spec(
    stored: Seq<ImageModel>,
    name: Seq<char>,
    source: spec_fn(ImageModel) -> Seq<u8>,
    r: Seq<u8>,
) -> bool {
    &&& !has_image_name(stored, name) ==> r == Seq::<u8>::empty()
    &&& forall|j: int|
        name_at(stored, name, j) ==> {
            let bytes = source(stored[j]);
            let fmt = spec_infer_format(name).unwrap();
            let dims = decoded_dims(bytes).unwrap();
            &&& (!decodes_nonzero(bytes) || spec_infer_format(name) is None) ==> r == Seq::<
                u8,
            >::empty()
            &&& (decodes_nonzero(bytes) && spec_infer_format(name) is Some ==> if encode_ok(
                rgba_of(decoded_img(bytes)),
                fmt,
            ) {
                r == served_encoding(bytes, fmt) && r.len() > 0
            } else {
                r == Seq::<u8>::empty()
            })
            &&& (decodes_nonzero(bytes) && spec_infer_format(name) is Some && encodable_dims(
                dims.0 as int,
                dims.1 as int,
            ) ==> r == served_encoding(bytes, fmt) && r.len() > 0)
            &&& (decodes_nonzero(bytes) && spec_infer_format(name) is Some && encode_ok(
                rgba_of(decoded_img(bytes)),
                fmt,
            ) && within_decode_limit(dims.0 as int, dims.1 as int) ==> decoded_dims(r)
                == decoded_dims(bytes))
        }
}

/// Stream the image stored under `image`, re-encoded to the format its
/// name calls for; degrades to an empty body instead of failing.
pub fn images(store: &MediaStore, image: String) -> (r: Vec<u8>)
    requires
        store.wf(),
    ensures
        read_spec(store.images_model(), image@, |m: ImageModel| m.main, r@),
{
    let rec = match store.get_image(&image) {
        Some(rec) => rec,
        None => {
            let empty: Vec<u8> = Vec::new();
            return empty;
        },
    };
    let img = match decode_image(&rec.main) {
        Some(i) => i,
        None => {
            let empty: Vec<u8> = Vec::new();
            return empty;
        },
    };
    let w = width_of(&img);
    let h = height_of(&img);
    if w < 1 || h < 1 {
        let empty: Vec<u8> = Vec::new();
        return empty;
    }
    let fmt = match infer_format(&image) {
        Some(f) => f,
        None => {
            let empty: Vec<u8> = Vec::new();
            return empty;
        },
    };
    let ready = to_rgba(&img);
    match encode_image(&ready, fmt) {
        Some(b) => b,
        None => {
            let empty: Vec<u8> = Vec::new();
            empty
        },
    }
}

/// Stream the stored thumbnail of `image`, re-encoded to the format its
/// name calls for; degrades to an empty body instead of failing.
pub fn thumbnails(store: &MediaStore, image: String) -> (r: Vec<u8>)
    requires
        store.wf(),
    ensures
        read_spec(store.images_model(), image@, |m: ImageModel| m.thumbnail, r@),
{
    let rec = match store.get_image(&image) {
        Some(rec) => rec,
        None => {
            let empty: Vec<u8> = Vec::new();
            return empty;
        },
    };
    let img = match decode_image(&rec.thumbnail) {
        Some(i) => i,
        None => {
            let empty: Vec<u8> = Vec::new();
            return empty;
        },
    };
    let w = width_of(&img);
    let h = height_of(&img);
    if w < 1 || h < 1 {
        let empty: Vec<u8> = Vec::new();
        return empty;
    }
    let fmt = match infer_format(&image) {
        Some(f) => f,
        None => {
            let empty: Vec<u8> = Vec::new();
            return empty;
        },
    };
    let ready = to_rgba(&img);
    match encode_image(&ready, fmt) {
        Some(b) => b,
        None => {
            let empty: Vec<u8> = Vec::new();
            empty
        },
    }
}

/// One full image-upload request: the guard decision first, then the
/// upload. `verification` is absent exactly when the request carried no
/// identity-token header; an unauthorized request is rejected before the
/// store is touched.
pub fn upload_image_request(
    store: &mut MediaStore,
    admins: &Vec<String>,
    verification: Option<Result<Identity, VerificationError>>,
    upload: Vec<u8>,
    file_name: String,
) -> (r: Result<Vec<String>, RequestError>)
    requires
        old(store).wf(),
    ensures
        final(store).wf(),
        match verification {
            None => r == Err::<Vec<String>, RequestError>(
                RequestError::Unauthorized(IdTokenError::Missing),
            ) && *final(store) == *old(store),
            Some(outcome) => match outcome {
                Ok(id) => {
                    &&& !subject_listed(admins.deep_view(), id.sub@) ==> r == Err::<
                        Vec<String>,
                        RequestError,
                    >(RequestError::Unauthorized(IdTokenError::Invalid)) && *final(store) == *old(
                        store,
                    )
                    &&& subject_listed(admins.deep_view(), id.sub@) ==> upload_spec(
                        *old(store),
                        *final(store),
                        upload@,
                        file_name@,
                        r,
                    )
                },
                Err(_) => r == Err::<Vec<String>, RequestError>(
                    RequestError::Unauthorized(IdTokenError::Invalid),
                ) && *final(store) == *old(store),
            },
        },
{
    match admin_guard(verification, admins) {
        Ok(admin) => upload_image(store, &admin, upload, file_name),
        Err(e) => Err(RequestError::Unauthorized(e)),
    }
}

/// One full post-upsert request: the guard decision first, then the
/// upsert; an unauthorized request is rejected before the store is
/// touched.
pub fn upload_post_request(
    store: &mut MediaStore,
    admins: &Vec<String>,
    verification: Option<Result<Identity, VerificationError>>,
    new_post: Post,
) -> (r: Result<i32, RequestError>)
    requires
        old(store).wf(),
    ensures
        final(store).wf(),
        match verification {
            None => r == Err::<i32, RequestError>(
                RequestError::Unauthorized(IdTokenError::Missing),
            ) && *final(store) == *old(store),
            Some(outcome) => match outcome {
                Ok(id) => {
                    &&& !subject_listed(admins.deep_view(), id.sub@) ==> r == Err::<
                        i32,
                        RequestError,
                    >(RequestError::Unauthorized(IdTokenError::Invalid)) && *final(store) == *old(
                        store,
                    )
                    &&& subject_listed(admins.deep_view(), id.sub@) ==> match r {
                        Ok(id2) => upsert_outcome(
                            *old(store),
                            *final(store),
                            new_post,
                            Ok(id2),
                        ),
                        Err(e) => e == RequestError::Store(StoreError::QueryFailed)
                            && upsert_outcome(
                            *old(store),
                            *final(store),
                            new_post,
                            Err(StoreError::QueryFailed),
                        ),
                    }
                },
                Err(_) => r == Err::<i32, RequestError>(
                    RequestError::Unauthorized(IdTokenError::Invalid),
                ) && *final(store) == *old(store),
            },
        },
{
    match admin_guard(verification, admins) {
        Ok(admin) => match upload_post(store, &admin, new_post) {
            Ok(id) => Ok(id),
            Err(e) => Err(RequestError::Store(e)),
        },
        Err(e) => Err(RequestError::Unauthorized(e)),
    }
}

/// One full name-listing request: the guard decision, then the listing.
pub fn get_images_request(
    store: &MediaStore,
    admins: &Vec<String>,
    verification: Option<Result<Identity, VerificationError>>,
) -> (r: Result<Vec<String>, RequestError>)
    ensures
        match verification {
            None => r == Err::<Vec<String>, RequestError>(
                RequestError::Unauthorized(IdTokenError::Missing),
            ),
            Some(outcome) => match outcome {
                Ok(id) => {
                    &&& !subject_listed(admins.deep_view(), id.sub@) ==> r == Err::<
                        Vec<String>,
                        RequestError,
                    >(RequestError::Unauthorized(IdTokenError::Invalid))
                    &&& subject_listed(admins.deep_view(), id.sub@) ==> (r matches Ok(names)
                        && names.deep_view() == image_names(store.images_model()))
                },
                Err(_) => r == Err::<Vec<String>, RequestError>(
                    RequestError::Unauthorized(IdTokenError::Invalid),
                ),
            },
        },
{
    match admin_guard(verification, admins) {
        Ok(admin) => Ok(get_images(store, &admin)),
        Err(e) => Err(RequestError::Unauthorized(e)),
    }
}

/// Law: round trip. After a successful upload of `body` under `name`, the
/// record stored under `name` holds exactly `body`; a streamed read of it
/// is the re-encoding of `body`'s image to the name's format, or the
/// empty degraded body when the encoder refuses it; for an image whose
/// sides are in every format's range the read is that re-encoding and
/// non-empty; and when the dimensions also re-decode within the decoder's
/// allocation limit, the read decodes back to the dimensions `body`
/// decodes to.
pub proof fn lemma_upload_read_round_trip(
    pre: MediaStore,
    post: MediaStore,
    body: Seq<u8>,
    name: Seq<char>,
    r: Result<Vec<String>, RequestError>,
    read: Seq<u8>,
)
    requires
        pre.wf(),
        post.wf(),
        upload_spec(pre, post, body, name, r),
        r is Ok,
        read_spec(post.images_model(), name, |m: ImageModel| m.main, read),
    ensures
        has_image_name(post.images_model(), name),
        forall|j: int|
            name_at(post.images_model(), name, j) ==> #[trigger] post.images_model()[j].main
                == body,
        read == Seq::<u8>::empty() || read == served_encoding(
            body,
            spec_infer_format(name).unwrap(),
        ),
        encodable_dims(
            decoded_dims(body).unwrap().0 as int,
            decoded_dims(body).unwrap().1 as int,
        ) ==> read == served_encoding(body, spec_infer_format(name).unwrap()) && read.len() > 0,
        within_decode_limit(
            decoded_dims(body).unwrap().0 as int,
            decoded_dims(body).unwrap().1 as int,
        ) ==> (read == Seq::<u8>::empty() || decoded_dims(read) == decoded_dims(body)),
{
    let postm = post.images_model();
    let thumb = encoded_of(upload_scaled(body), spec_infer_format(name).unwrap());
    let rec = uploaded_record(name, body, thumb);
    assert(postm.len() >= 1 && postm[0] == rec) by {
        if has_image_name(pre.images_model(), name) {
            let j = choose|j: int| name_at(pre.images_model(), name, j);
            assert(postm == pre.images_model().remove(j).insert(0, rec));
        } else {
            assert(postm == pre.images_model().insert(0, rec));
        }
    }
    assert(name_at(postm, name, 0));
    assert forall|j: int| name_at(postm, name, j) implies #[trigger] postm[j].main == body by {
        if j != 0 {
            assert(postm[0].imagename != postm[j].imagename);
        }
    }
}

/// Law: after a successful upload the stored thumbnail decodes, and its
/// dimensions are exactly the box-fitted dimensions of the uploaded
/// image: at most 100 by 100, at least 1 by 1, and — by
/// [`crate::codec::lemma_fit_box_properties`] — preserving the source
/// aspect ratio up to rounding.
pub proof fn lemma_upload_thumbnail_bounded(
    pre: MediaStore,
    post: MediaStore,
    body: Seq<u8>,
    name: Seq<char>,
    r: Result<Vec<String>, RequestError>,
)
    requires
        pre.wf(),
        post.wf(),
        upload_spec(pre, post, body, name, r),
        r is Ok,
    ensures
        forall|j: int|
            name_at(post.images_model(), name, j) ==> {
                let td = decoded_dims(#[trigger] post.images_model()[j].thumbnail);
                &&& td == Some(
                    (
                        (thumb_dims_for(post.images_model()[j].main).0) as u32,
                        (thumb_dims_for(post.images_model()[j].main).1) as u32,
                    ),
                )
                &&& 1 <= td.unwrap().0 <= 100
                &&& 1 <= td.unwrap().1 <= 100
                &&& post.images_model()[j].thumbnail.len() > 0
            },
{
    let postm = post.images_model();
    let d = decoded_dims(body).unwrap();
    crate::codec::lemma_fit_box_properties(d.0 as int, d.1 as int);
    let thumb = encoded_of(upload_scaled(body), spec_infer_format(name).unwrap());
    let rec = uploaded_record(name, body, thumb);
    assert(postm.len() >= 1 && postm[0] == rec) by {
        if has_image_name(pre.images_model(), name) {
            let j = choose|j: int| name_at(pre.images_model(), name, j);
            assert(postm == pre.images_model().remove(j).insert(0, rec));
        } else {
            assert(postm == pre.images_model().insert(0, rec));
        }
    }
    assert forall|j: int| name_at(postm, name, j) implies {
        let td = decoded_dims(#[trigger] postm[j].thumbnail);
        &&& td is Some
        &&& 1 <= td.unwrap().0 <= 100
        &&& 1 <= td.unwrap().1 <= 100
        &&& postm[j].thumbnail.len() > 0
    } by {
        if j != 0 {
            assert(postm[0].imagename != postm[j].imagename);
        }
        assert(postm[j] == rec);
    }
}

/// Law: after a successful upload, a streamed read of the stored
/// thumbnail is non-empty and decodes to the box-fitted dimensions of the
/// uploaded image — at most 100 by 100 pixels.
pub proof fn lemma_upload_thumbnail_read(
    pre: MediaStore,
    post: MediaStore,
    body: Seq<u8>,
    name: Seq<char>,
    r: Result<Vec<String>, RequestError>,
    read: Seq<u8>,
)
    requires
        pre.wf(),
        post.wf(),
        upload_spec(pre, post, body, name, r),
        r is Ok,
        read_spec(post.images_model(), name, |m: ImageModel| m.thumbnail, read),
    ensures
        read.len() > 0,
        decoded_dims(read) == Some(
            ((thumb_dims_for(body).0) as u32, (thumb_dims_for(body).1) as u32),
        ),
        decoded_dims(read).unwrap().0 <= 100,
        decoded_dims(read).unwrap().1 <= 100,
{
    let postm = post.images_model();
    let d = decoded_dims(body).unwrap();
    crate::codec::lemma_fit_box_properties(d.0 as int, d.1 as int);
    let ftw = thumb_dims_for(body).0;
    let fth = thumb_dims_for(body).1;
    let thumb = encoded_of(upload_scaled(body), spec_infer_format(name).unwrap());
    let rec = uploaded_record(name, body, thumb);
    assert(postm.len() >= 1 && postm[0] == rec) by {
        if has_image_name(pre.images_model(), name) {
            let j = choose|j: int| name_at(pre.images_model(), name, j);
            assert(postm == pre.images_model().remove(j).insert(0, rec));
        } else {
            assert(postm == pre.images_model().insert(0, rec));
        }
    }
    assert(name_at(postm, name, 0));
    assert(decodes_nonzero(thumb));
    assert(encodable_dims(ftw, fth));
    assert(within_decode_limit(ftw, fth)) by (nonlinear_arith)
        requires
            1 <= ftw <= 100,
            1 <= fth <= 100,
    ;
}

} // verus!
