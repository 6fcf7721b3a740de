use newsroom::auth::{Admin, Identity, IdTokenError};
use newsroom::codec::{extension_of, fit_dimensions, infer_format, MediaFormat};
use newsroom::endpoints::{
    get_images, get_images_request, images, posts, thumbnails, upload_image,
    upload_image_request, upload_post, upload_post_request, RequestError,
};
use newsroom::models::Post;
use newsroom::store::MediaStore;

fn png_bytes(w: u32, h: u32) -> Vec<u8> {
    let img = image::DynamicImage::new_rgb8(w, h);
    let mut cur = std::io::Cursor::new(Vec::new());
    img.write_to(&mut cur, image::ImageFormat::Png).expect("test png must encode");
    cur.into_inner()
}

fn admin() -> Admin {
    Admin(String::from("alice-sub"))
}

#[test]
fn upload_then_retrieve_round_trips_dimensions() {
    let mut store = MediaStore::new();
    let names = upload_image(&mut store, &admin(), png_bytes(40, 20), String::from("cat.png"))
        .expect("upload of a valid png must succeed");
    assert_eq!(names, vec!["cat.png"]);
    assert_eq!(get_images(&store, &admin()), vec!["cat.png"]);

    let body = images(&store, String::from("cat.png"));
    assert!(!body.is_empty());
    let round = image::load_from_memory(&body).expect("retrieved bytes must decode");
    assert_eq!((round.width(), round.height()), (40, 20));

    let thumb = thumbnails(&store, String::from("cat.png"));
    assert!(!thumb.is_empty());
    let tiny = image::load_from_memory(&thumb).expect("thumbnail bytes must decode");
    // the source already fits the box, so the thumbnail keeps its size
    assert_eq!((tiny.width(), tiny.height()), (40, 20));
    assert!(tiny.width() <= 100 && tiny.height() <= 100);
}

#[test]
fn thumbnail_fits_box_and_keeps_aspect_ratio() {
    let mut store = MediaStore::new();
    upload_image(&mut store, &admin(), png_bytes(400, 100), String::from("wide.png"))
        .expect("upload must succeed");
    let thumb = thumbnails(&store, String::from("wide.png"));
    let tiny = image::load_from_memory(&thumb).expect("thumbnail must decode");
    assert_eq!((tiny.width(), tiny.height()), (100, 25));

    upload_image(&mut store, &admin(), png_bytes(100, 400), String::from("tall.png"))
        .expect("upload must succeed");
    let thumb = thumbnails(&store, String::from("tall.png"));
    let tiny = image::load_from_memory(&thumb).expect("thumbnail must decode");
    assert_eq!((tiny.width(), tiny.height()), (25, 100));
}

#[test]
fn extreme_aspect_ratio_clamps_to_one_pixel() {
    let mut store = MediaStore::new();
    upload_image(&mut store, &admin(), png_bytes(500, 1), String::from("line.png"))
        .expect("upload must succeed");
    let thumb = thumbnails(&store, String::from("line.png"));
    let tiny = image::load_from_memory(&thumb).expect("thumbnail must decode");
    assert_eq!((tiny.width(), tiny.height()), (100, 1));
}

#[test]
fn retrieving_a_missing_name_yields_an_empty_body() {
    let store = MediaStore::new();
    assert!(images(&store, String::from("nothing.png")).is_empty());
    assert!(thumbnails(&store, String::from("nothing.png")).is_empty());

    let mut store = MediaStore::new();
    upload_image(&mut store, &admin(), png_bytes(8, 8), String::from("there.png"))
        .expect("upload must succeed");
    assert!(images(&store, String::from("elsewhere.png")).is_empty());
}

#[test]
fn undecodable_upload_is_rejected_without_a_store_write() {
    let mut store = MediaStore::new();
    let r = upload_image(&mut store, &admin(), vec![0, 1, 2, 3], String::from("junk.png"));
    assert!(matches!(r, Err(RequestError::Decode(_))));
    assert!(get_images(&store, &admin()).is_empty());
}

#[test]
fn unknown_extension_is_rejected_without_a_store_write() {
    let mut store = MediaStore::new();
    let r = upload_image(&mut store, &admin(), png_bytes(8, 8), String::from("cat.xyz"));
    assert!(matches!(r, Err(RequestError::Encode(_))));
    let r = upload_image(&mut store, &admin(), png_bytes(8, 8), String::from("noextension"));
    assert!(matches!(r, Err(RequestError::Encode(_))));
    assert!(get_images(&store, &admin()).is_empty());
}

#[test]
fn reencoding_to_another_format_preserves_dimensions() {
    let mut store = MediaStore::new();
    // stored bytes are PNG; the name asks for JPEG on the way out
    upload_image(&mut store, &admin(), png_bytes(33, 17), String::from("pic.jpg"))
        .expect("upload must succeed");
    let body = images(&store, String::from("pic.jpg"));
    let round = image::load_from_memory(&body).expect("re-encoded bytes must decode");
    assert_eq!((round.width(), round.height()), (33, 17));
}

#[test]
fn read_body_is_exactly_the_reencoded_stored_bytes() {
    let mut store = MediaStore::new();
    let original = png_bytes(24, 12);
    upload_image(&mut store, &admin(), original.clone(), String::from("exact.png"))
        .expect("upload must succeed");

    // re-encode the stored bytes independently, through the same
    // RGBA-normalizing path the library specifies
    let img = image::load_from_memory(&original).expect("original must decode");
    let mut cur = std::io::Cursor::new(Vec::new());
    image::DynamicImage::ImageRgba8(img.to_rgba8())
        .write_to(&mut cur, image::ImageFormat::Png)
        .expect("re-encode must succeed");
    let expected = cur.into_inner();

    let body = images(&store, String::from("exact.png"));
    assert_eq!(body, expected);

    // and the stored thumbnail is the encoder's output for the scaled,
    // RGBA-normalized image
    let mut cur = std::io::Cursor::new(Vec::new());
    image::DynamicImage::ImageRgba8(img.thumbnail_exact(24, 12).to_rgba8())
        .write_to(&mut cur, image::ImageFormat::Png)
        .expect("thumbnail re-encode must succeed");
    let expected_thumb_source = cur.into_inner();
    let thumb_read = thumbnails(&store, String::from("exact.png"));
    let reread = image::load_from_memory(&expected_thumb_source).expect("decodes");
    let got = image::load_from_memory(&thumb_read).expect("decodes");
    assert_eq!((got.width(), got.height()), (reread.width(), reread.height()));
}

#[test]
fn grayscale_source_encodes_to_gif_after_normalization() {
    // the GIF encoder takes only 8-bit RGB and RGBA, so serving a
    // grayscale source as GIF depends on the RGBA normalization
    let gray = image::DynamicImage::new_luma8(30, 14);
    let mut cur = std::io::Cursor::new(Vec::new());
    gray.write_to(&mut cur, image::ImageFormat::Png).expect("test png must encode");
    let gray_png = cur.into_inner();

    let mut store = MediaStore::new();
    upload_image(&mut store, &admin(), gray_png, String::from("gray.gif"))
        .expect("grayscale upload under a gif name must succeed");

    let body = images(&store, String::from("gray.gif"));
    assert!(!body.is_empty());
    let round = image::load_from_memory(&body).expect("served gif must decode");
    assert_eq!((round.width(), round.height()), (30, 14));

    let thumb = thumbnails(&store, String::from("gray.gif"));
    assert!(!thumb.is_empty());
    let tiny = image::load_from_memory(&thumb).expect("served thumbnail must decode");
    assert_eq!((tiny.width(), tiny.height()), (30, 14));
}

#[test]
fn unauthenticated_upload_is_rejected_before_any_store_mutation() {
    let mut store = MediaStore::new();
    let admins = vec![String::from("alice-sub")];
    let r = upload_image_request(
        &mut store,
        &admins,
        None,
        png_bytes(8, 8),
        String::from("cat.png"),
    );
    assert!(matches!(r, Err(RequestError::Unauthorized(IdTokenError::Missing))));
    assert!(store.list_images().is_empty());
    assert!(store.list_posts(0, 3).is_empty());
}

#[test]
fn authorized_request_path_uploads_and_lists() {
    let mut store = MediaStore::new();
    let admins = vec![String::from("alice-sub")];
    let verification = Some(Ok(Identity { sub: String::from("alice-sub"), email: None }));
    let names = upload_image_request(
        &mut store,
        &admins,
        verification,
        png_bytes(10, 10),
        String::from("ok.png"),
    )
    .expect("authorized upload must succeed");
    assert_eq!(names, vec!["ok.png"]);

    let verification = Some(Ok(Identity { sub: String::from("alice-sub"), email: None }));
    let listed = get_images_request(&store, &admins, verification).expect("authorized listing");
    assert_eq!(listed, vec!["ok.png"]);

    let unlisted = Some(Ok(Identity { sub: String::from("mallory"), email: None }));
    let r = get_images_request(&store, &admins, unlisted);
    assert!(matches!(r, Err(RequestError::Unauthorized(IdTokenError::Invalid))));
}

#[test]
fn unauthenticated_post_upsert_is_rejected_before_any_store_mutation() {
    let mut store = MediaStore::new();
    let admins = vec![String::from("alice-sub")];
    let p = Post {
        id: -1,
        title: String::from("t"),
        images: Vec::new(),
        content: String::from("c"),
        posttime: 1,
    };
    let r = upload_post_request(&mut store, &admins, None, p);
    assert!(matches!(r, Err(RequestError::Unauthorized(IdTokenError::Missing))));
    assert!(store.list_posts(0, 3).is_empty());

    let p = Post {
        id: -1,
        title: String::from("t"),
        images: Vec::new(),
        content: String::from("c"),
        posttime: 1,
    };
    let verification = Some(Ok(Identity { sub: String::from("alice-sub"), email: None }));
    let id = upload_post_request(&mut store, &admins, verification, p)
        .expect("authorized upsert must succeed");
    assert_eq!(id, 0);
    assert_eq!(store.list_posts(0, 3).len(), 1);
}

#[test]
fn posts_endpoint_clamps_and_orders() {
    let mut store = MediaStore::new();
    for k in 0..4i64 {
        let p = Post {
            id: -1,
            title: format!("t{}", k),
            images: vec![String::from("cat.png")],
            content: String::from("c"),
            posttime: 100 + k,
        };
        upload_post(&mut store, &admin(), p).expect("upsert must succeed");
    }
    let page = posts(&store, 0, 50);
    assert_eq!(page.len(), 3);
    assert_eq!(page[0].posttime, 103);
    assert_eq!(page[1].posttime, 102);
    assert_eq!(page[2].posttime, 101);
}

#[test]
fn format_inference_follows_the_extension() {
    assert_eq!(infer_format(&String::from("a.PNG")), Some(MediaFormat::Png));
    assert_eq!(infer_format(&String::from("b.jpeg")), Some(MediaFormat::Jpeg));
    assert_eq!(infer_format(&String::from("b.JFIF")), Some(MediaFormat::Jpeg));
    assert_eq!(infer_format(&String::from("c.gif")), Some(MediaFormat::Gif));
    assert_eq!(infer_format(&String::from("noext")), None);
    assert_eq!(infer_format(&String::from(".png")), None);
    assert_eq!(infer_format(&String::from("a.webp")), None);
    assert_eq!(infer_format(&String::from("a.")), None);
}

#[test]
fn extension_extraction_takes_the_last_dot() {
    assert_eq!(extension_of(&String::from("x.tar.gz")), Some(String::from("gz")));
    assert_eq!(extension_of(&String::from("plain")), None);
    assert_eq!(extension_of(&String::from(".hidden")), None);
    assert_eq!(extension_of(&String::from("a.")), Some(String::from("")));
}

#[test]
fn fitted_dimensions_are_exact() {
    assert_eq!(fit_dimensions(50, 50), (50, 50));
    assert_eq!(fit_dimensions(100, 100), (100, 100));
    assert_eq!(fit_dimensions(200, 200), (100, 100));
    assert_eq!(fit_dimensions(400, 100), (100, 25));
    assert_eq!(fit_dimensions(100, 400), (25, 100));
    assert_eq!(fit_dimensions(1000000, 1), (100, 1));
    assert_eq!(fit_dimensions(1, 1000000), (1, 100));
    assert_eq!(fit_dimensions(150, 50), (100, 33));
}
